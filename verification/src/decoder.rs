pub mod bp;
pub mod traits;
