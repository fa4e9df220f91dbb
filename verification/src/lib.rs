//! A small dense-matrix library with verified elementary linear algebra:
//! construction, transpose, row swap, elementwise transforms, addition,
//! subtraction, scalar scaling and dimension-checked multiplication.

pub mod constants;
pub mod laws;
pub mod matrix;
pub mod render;
