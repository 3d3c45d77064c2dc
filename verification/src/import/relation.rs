//! The relations of the store.

use vstd::prelude::*;

verus! {

pub const KNOWN_FOR: &'static str = "known_for";

pub const HAS_PRINCIPAL: &'static str = "has_principal";

} // verus!
