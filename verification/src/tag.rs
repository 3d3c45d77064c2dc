//! One tag of a tree.

use crate::identity::Tag as CoreTag;
use crate::proto::ValTag;
use crate::shape::TagShape;
use crate::shared_map::{
    entries, found_in, handles, lemma_handles, table_get, table_insert, table_len, table_new, HandleTable,
};
use vstd::prelude::*;

verus! {

/// A tag as a tree stores it: its identity, its data, the handle of its
/// parent, and the handles of its children and of the items filed under it.
///
/// The parent link does not own the parent: it is a handle into the table
/// that owns every tag of the tree.
pub struct Tag<TD> {
    pub proto: ValTag<()>,
    pub data: TD,
    pub parent: Option<usize>,
    pub children: HandleTable,
    pub items: HandleTable,
}

impl<TD> Tag<TD> {
    /// What the tree knows of this tag's place in it.
    pub open spec fn shape(&self) -> TagShape {
        TagShape {
            uuid: self.proto.uuid,
            parent: match self.parent {
                Some(p) => Some(p as int),
                None => None,
            },
            children: handles(entries(self.children)),
            items: handles(entries(self.items)),
        }
    }

    /// A tag without children and without items.
    pub fn new(proto: ValTag<()>, data: TD, parent: Option<usize>) -> (tag: Self)
        ensures
            tag.proto == proto,
            tag.data == data,
            tag.parent == parent,
            tag.shape().uuid == proto.uuid,
            tag.shape().children == Map::<u128, int>::empty(),
            tag.shape().items == Map::<u128, int>::empty(),
    {
        let tag = Tag { proto, data, parent, children: table_new(), items: table_new() };
        proof {
            lemma_handles(Map::empty(), 0, 0);
        }
        tag
    }

    /// The data attached to this tag.
    pub fn data(&self) -> (data: &TD)
        ensures
            *data == self.data,
    {
        &self.data
    }

    /// The content hash of the body that belongs to this tag: a tag of this
    /// kind has none.
    pub fn body(&self) -> (body: Option<&blake3::Hash>)
        ensures
            body.is_none(),
    {
        None
    }

    /// The number of direct children.
    pub fn children_count(&self) -> (count: usize)
        ensures
            count == self.shape().children.len(),
    {
        proof {
            lemma_handles(entries(self.children), 0, 0);
        }
        table_len(&self.children)
    }

    /// The number of items filed directly under this tag.
    pub fn items_count(&self) -> (count: usize)
        ensures
            count == self.shape().items.len(),
    {
        proof {
            lemma_handles(entries(self.items), 0, 0);
        }
        table_len(&self.items)
    }

    /// The handle of the direct child with this identifier.
    pub fn get_child(&self, uuid: u128) -> (child: Option<usize>)
        ensures
            found_in(child, self.shape().children, uuid),
    {
        table_get(&self.children, uuid)
    }

    /// The handle of the item with this identifier that is filed directly
    /// under this tag.
    pub fn get_item(&self, uuid: u128) -> (item: Option<usize>)
        ensures
            found_in(item, self.shape().items, uuid),
    {
        table_get(&self.items, uuid)
    }

    /// Lists `child` under `uuid` among the children. An entry that was there
    /// under the same identifier is replaced.
    pub fn add_child(&mut self, uuid: u128, child: usize)
        ensures
            final(self).shape() == (TagShape {
                children: old(self).shape().children.insert(uuid, child as int),
                ..old(self).shape()
            }),
            final(self).data == old(self).data,
            final(self).proto == old(self).proto,
    {
        table_insert(&mut self.children, uuid, child);
        proof {
            lemma_handles(entries(old(self).children), uuid, child);
        }
    }

    /// Lists `item` under `uuid` among the filed items. An entry that was
    /// there under the same identifier is replaced.
    pub fn add_item(&mut self, uuid: u128, item: usize)
        ensures
            final(self).shape() == (TagShape {
                items: old(self).shape().items.insert(uuid, item as int),
                ..old(self).shape()
            }),
            final(self).data == old(self).data,
            final(self).proto == old(self).proto,
    {
        table_insert(&mut self.items, uuid, item);
        proof {
            lemma_handles(entries(old(self).items), uuid, item);
        }
    }
}

impl<TD> CoreTag for Tag<TD> {
    open spec fn spec_uuid(&self) -> u128 {
        self.proto.uuid
    }

    open spec fn spec_has_parent(&self) -> bool {
        self.parent.is_some()
    }

    fn uuid(&self) -> (uuid: u128) {
        self.proto.uuid
    }

    fn has_parent(&self) -> (has: bool) {
        self.parent.is_some()
    }
}

} // verus!
