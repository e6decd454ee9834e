use gaussian_blur::naming::output_stem;

fn stem(path: &str) -> String {
    let chars: Vec<char> = path.chars().collect();
    output_stem(&chars).into_iter().collect()
}

#[test]
fn stem_is_last_segment_before_first_dot() {
    assert_eq!(stem("images/photo.large.png"), "photo");
    assert_eq!(stem("/a/b.c/lena.jpg"), "lena");
    assert_eq!(stem("noext"), "noext");
    assert_eq!(stem("dir.v2/file"), "file");
}

#[test]
fn stem_edge_cases() {
    assert_eq!(stem(""), "");
    assert_eq!(stem(".hidden"), "");
    assert_eq!(stem("dir/"), "");
    assert_eq!(stem("a.b"), "a");
}
