//! The tables of the store.

use vstd::prelude::*;

verus! {

pub const TITLE: &'static str = "title";

pub const NAME: &'static str = "name";

} // verus!
