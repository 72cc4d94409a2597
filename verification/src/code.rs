pub mod binary_symplectic;
pub mod css_code;
pub mod error_vector;
pub mod paulis;
pub mod quantum_code;
pub mod stabilizer;
pub mod stabilizer_code;
pub mod traits;
