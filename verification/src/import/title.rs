//! A title as it is stored.

use crate::import::utils::{split_by_comma, split_on, texts, Row};
use crate::parse::title::Record;
use vstd::prelude::*;

verus! {

/// A title: what the record holds, with its genres listed one by one.
#[derive(Debug, Clone)]
pub struct BasicTitle {
    pub tconst: String,
    pub title_type: String,
    pub primary_title: String,
    pub original_title: String,
    pub is_adult: bool,
    pub start_year: u16,
    pub end_year: u16,
    pub runtime_minutes: u16,
    pub genres: Vec<String>,
}

impl Row for BasicTitle {
    open spec fn spec_id(&self) -> Seq<char> {
        self.tconst@
    }

    fn get_id(&self) -> (id: String) {
        self.tconst.clone()
    }
}

impl From<Record> for BasicTitle {
    /// The title that a record describes: every field as it is, and the
    /// genres split at the commas.
    fn from(v: Record) -> (title: Self)
        ensures
            title.tconst == v.tconst,
            title.title_type == v.title_type,
            title.primary_title == v.primary_title,
            title.original_title == v.original_title,
            title.is_adult == v.is_adult,
            title.start_year == v.start_year,
            title.end_year == v.end_year,
            title.runtime_minutes == v.runtime_minutes,
            texts(title.genres@) == split_on(v.genres@, ','),
    {
        let genres = split_by_comma(v.genres.as_str());
        BasicTitle {
            tconst: v.tconst,
            title_type: v.title_type,
            primary_title: v.primary_title,
            original_title: v.original_title,
            is_adult: v.is_adult,
            start_year: v.start_year,
            end_year: v.end_year,
            runtime_minutes: v.runtime_minutes,
            genres,
        }
    }
}

/// What the conversion yields is stated where it is made: the lists are new
/// values that no specification can name, so nothing is said of it here.
impl vstd::std_specs::convert::FromSpecImpl<Record> for BasicTitle {
    open spec fn obeys_from_spec() -> bool {
        false
    }

    open spec fn from_spec(v: Record) -> Self {
        arbitrary()
    }
}

} // verus!
