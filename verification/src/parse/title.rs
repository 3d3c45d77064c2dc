//! A title as it is read.

use vstd::prelude::*;

verus! {

/// One line of the titles file.
#[derive(Debug)]
pub struct Record {
    pub tconst: String,
    pub title_type: String,
    pub primary_title: String,
    pub original_title: String,
    pub is_adult: bool,
    pub start_year: u16,
    pub end_year: u16,
    pub runtime_minutes: u16,
    pub genres: String,
}

} // verus!
