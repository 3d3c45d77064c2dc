//! Rows of the film catalogue as they are stored, made from parsed records.

pub mod name;
pub mod principal;
pub mod relation;
pub mod table;
pub mod title;
pub mod utils;
