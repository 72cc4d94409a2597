pub mod bit_linear_algebra;
pub mod gf2;
pub mod sparse_matrix;
