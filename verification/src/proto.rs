//! Tags that carry a value: an identifier, an optional parent identifier and
//! a payload.

use crate::identity::Tag as CoreTag;
use std::collections::{HashMap, HashSet};
use vstd::prelude::*;

verus! {

/// A tag that can name the identifier of its parent.
pub trait Tag: CoreTag {
    /// The parent's identifier, as contracts speak of it.
    spec fn spec_parent(&self) -> Option<u128>;

    /// The identifier of the parent, or nothing for a root.
    fn parent(&self) -> (parent: Option<u128>)
        ensures
            parent == self.spec_parent(),
            parent.is_some() == self.spec_has_parent(),
    ;
}

/// A tag with a payload of type `V`.
#[derive(Debug, Clone, PartialEq, Eq, Hash)]
pub struct ValTag<V> {
    pub uuid: u128,
    pub parent: Option<u128>,
    pub val: V,
}

impl<V> ValTag<V> {
    /// A tag never names itself as its parent.
    pub open spec fn wf(&self) -> bool {
        self.parent != Some(self.uuid)
    }
}

impl<V> CoreTag for ValTag<V> {
    open spec fn spec_uuid(&self) -> u128 {
        self.uuid
    }

    open spec fn spec_has_parent(&self) -> bool {
        self.parent.is_some()
    }

    fn uuid(&self) -> (uuid: u128) {
        self.uuid
    }

    fn has_parent(&self) -> (has: bool) {
        self.parent.is_some()
    }
}

impl<V> Tag for ValTag<V> {
    open spec fn spec_parent(&self) -> Option<u128> {
        self.parent
    }

    fn parent(&self) -> (parent: Option<u128>) {
        self.parent
    }
}

/// The tag that seeds a tree: the given identifier, no parent, no payload.
pub fn root(uuid: u128) -> (tag: ValTag<()>)
    ensures
        tag.uuid == uuid,
        tag.parent.is_none(),
        tag.wf(),
{
    ValTag { uuid, parent: None, val: () }
}

/// A tag whose payload is an ordered list.
pub type VecTag<V> = ValTag<Vec<V>>;

/// A tag whose payload is a set of distinct values.
pub type SetTag<V> = ValTag<HashSet<V>>;

/// A tag whose payload is a map with distinct keys.
pub type MapTag<K, V> = ValTag<HashMap<K, V>>;

/// Why a tag could not be built.
#[derive(Debug, Clone, Copy, PartialEq, Eq, Structural)]
pub enum ValTagBuilderError {
    /// No identifier was given.
    MissingUuid,
    /// No payload was given.
    MissingVal,
    /// The tag names itself as its parent.
    OwnParent,
}

/// Collects the fields of a tag one by one. The identifier and the payload
/// have to be given; the parent is optional and absent unless given.
pub struct ValTagBuilder<V> {
    pub uuid: Option<u128>,
    pub parent: Option<u128>,
    pub val: Option<V>,
}

impl<V> ValTagBuilder<V> {
    /// A builder to which nothing was given yet.
    pub fn new() -> (builder: Self)
        ensures
            builder.uuid.is_none(),
            builder.parent.is_none(),
            builder.val.is_none(),
    {
        ValTagBuilder { uuid: None, parent: None, val: None }
    }

    /// Gives the identifier.
    pub fn uuid(self, uuid: u128) -> (builder: Self)
        ensures
            builder.uuid == Some(uuid),
            builder.parent == self.parent,
            builder.val == self.val,
    {
        ValTagBuilder { uuid: Some(uuid), parent: self.parent, val: self.val }
    }

    /// Gives the identifier of the parent.
    pub fn parent(self, parent: u128) -> (builder: Self)
        ensures
            builder.uuid == self.uuid,
            builder.parent == Some(parent),
            builder.val == self.val,
    {
        ValTagBuilder { uuid: self.uuid, parent: Some(parent), val: self.val }
    }

    /// Gives the payload.
    pub fn val(self, val: V) -> (builder: Self)
        ensures
            builder.uuid == self.uuid,
            builder.parent == self.parent,
            builder.val == Some(val),
    {
        ValTagBuilder { uuid: self.uuid, parent: self.parent, val: Some(val) }
    }

    /// The tag with the fields that were given. The identifier is asked for
    /// first, then the payload, and a tag that would be its own parent is
    /// refused.
    pub fn build(self) -> (built: Result<ValTag<V>, ValTagBuilderError>)
        ensures
            built == match (self.uuid, self.val) {
                (None, _) => Err::<ValTag<V>, ValTagBuilderError>(ValTagBuilderError::MissingUuid),
                (Some(_), None) => Err(ValTagBuilderError::MissingVal),
                (Some(uuid), Some(val)) => if self.parent == Some(uuid) {
                    Err(ValTagBuilderError::OwnParent)
                } else {
                    Ok(ValTag { uuid, parent: self.parent, val })
                },
            },
            built matches Ok(tag) ==> tag.wf(),
    {
        match self.uuid {
            None => Err(ValTagBuilderError::MissingUuid),
            Some(uuid) => match self.val {
                None => Err(ValTagBuilderError::MissingVal),
                Some(val) => {
                    let own = match self.parent {
                        Some(parent) => parent == uuid,
                        None => false,
                    };
                    if own {
                        Err(ValTagBuilderError::OwnParent)
                    } else {
                        Ok(ValTag { uuid, parent: self.parent, val })
                    }
                },
            },
        }
    }
}

} // verus!
