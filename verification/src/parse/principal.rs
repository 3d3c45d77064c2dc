//! A principal of a title as it is read.

use vstd::prelude::*;

verus! {

/// One line of the principals file.
#[derive(Debug)]
pub struct Record {
    pub tconst: String,
    pub ordering: u16,
    pub nconst: String,
    pub category: String,
    pub job: Option<String>,
    pub characters: Vec<String>,
}

} // verus!
