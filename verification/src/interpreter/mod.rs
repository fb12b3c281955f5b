pub mod eval;
pub mod properties;
