pub mod convert;
pub mod ops;
pub mod load;
pub mod load_law;
