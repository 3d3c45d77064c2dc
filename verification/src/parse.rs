//! Records of the film catalogue as they are read, and the parsers of their
//! fields.

pub mod name;
pub mod principal;
pub mod title;
pub mod utils;
