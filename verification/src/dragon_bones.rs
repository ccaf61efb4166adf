pub mod kinds;
pub mod parser;
