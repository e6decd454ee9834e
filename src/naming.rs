//! The stem that output file names are built from: the last segment of the
//! input path, cut at its first `.`.
use vstd::prelude::*;

verus! {

/// The position just after the last `/` of `s`, or zero if there is none.
pub open spec fn segment_start(s: Seq<char>) -> int
    decreases s.len(),
{
    if s.len() == 0 {
        0
    } else if s.last() == '/' {
        s.len() as int
    } else {
        segment_start(s.drop_last())
    }
}

/// The position of the first `.` of `s` at or after `i`, or the length of
/// `s` if there is none.
pub open spec fn first_dot_from(s: Seq<char>, i: int) -> int
    decreases s.len() - i,
{
    if i >= s.len() {
        s.len() as int
    } else if s[i] == '.' {
        i
    } else {
        first_dot_from(s, i + 1)
    }
}

/// The last `/`-separated segment of `s` up to, not including, its first `.`.
pub open spec fn stem_of(s: Seq<char>) -> Seq<char> {
    s.subrange(segment_start(s), first_dot_from(s, segment_start(s)))
}

proof fn lemma_segment_start_bounds(s: Seq<char>)
    ensures
        0 <= segment_start(s) <= s.len(),
    decreases s.len(),
{
    if s.len() > 0 && s.last() != '/' {
        lemma_segment_start_bounds(s.drop_last());
    }
}

/// The stem of the output file names for an input `path`: its last
/// segment after any `/`, up to its first `.`.
pub fn output_stem(path: &Vec<char>) -> (r: Vec<char>)
    ensures
        r@ == stem_of(path@),
{
    let n = path.len();
    let mut start: usize = 0;
    let mut i: usize = 0;
    while i < n
        invariant
            n == path@.len(),
            i <= n,
            start == segment_start(path@.subrange(0, i as int)),
        decreases n - i,
    {
        assert(path@.subrange(0, i + 1).drop_last() =~= path@.subrange(0, i as int));
        if path[i] == '/' {
            start = i + 1;
        }
        i += 1;
    }
    assert(path@.subrange(0, n as int) =~= path@);
    proof {
        lemma_segment_start_bounds(path@);
    }
    let mut stem: Vec<char> = Vec::new();
    let mut j: usize = start;
    while j < n && path[j] != '.'
        invariant
            n == path@.len(),
            start == segment_start(path@),
            start <= j <= n,
            first_dot_from(path@, start as int) == first_dot_from(path@, j as int),
            stem@ =~= path@.subrange(start as int, j as int),
        decreases n - j,
    {
        stem.push(path[j]);
        j += 1;
    }
    stem
}

} // verus!
