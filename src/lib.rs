//! Gaussian blur of RGB pictures with binomial kernels of any odd size.
//!
//! `kernel` builds the kernels from rows of Pascal's triangle, `picture`
//! reads single channels of an image, and `convolve` applies a kernel to
//! every pixel where it fits inside the picture, leaving a black border.
//! `naming` gives the stem that output file names are built from.
pub mod convolve;
pub mod grid;
pub mod kernel;
pub mod naming;
pub mod picture;
