//! The identity contract that every tag satisfies.

use vstd::prelude::*;

verus! {

/// Anything that is identified as a tag: it has an identifier, and it either
/// has a parent or is a root.
pub trait Tag {
    /// The identifier, as contracts speak of it.
    spec fn spec_uuid(&self) -> u128;

    /// Whether there is a parent, as contracts speak of it.
    spec fn spec_has_parent(&self) -> bool;

    /// The 128-bit identifier of this tag.
    fn uuid(&self) -> (uuid: u128)
        ensures
            uuid == self.spec_uuid(),
    ;

    /// Whether this tag has a parent.
    fn has_parent(&self) -> (has: bool)
        ensures
            has == self.spec_has_parent(),
    ;

    /// Whether this tag is a root: a tag is a root exactly when it has no
    /// parent.
    fn is_root(&self) -> (root: bool)
        ensures
            root == !self.spec_has_parent(),
    {
        !self.has_parent()
    }
}

} // verus!
