pub mod types;
pub mod input;
