//! One item of a tree, and what an item's data has to offer.

use crate::proto::ValTag;
use crate::shape::ItemShape;
use crate::shared_map::{
    entries, found_in, handles, lemma_handles, table_get, table_insert, table_len, table_new, HandleTable,
};
use vstd::prelude::*;

verus! {

/// The data of an item: it names the tags under which the item wants to be
/// filed, each with that tag's own parent.
pub trait ItemData {
    /// The number of tags that the item claims.
    fn tags_count(&self) -> usize;

    /// The claimed tags, in the order in which they are to be filed.
    fn iter_tags(&self) -> Vec<ValTag<()>>;

    /// Calls the callback on the claimed tags, in order, until it answers
    /// `true` for one of them; says whether it did.
    fn each_tag<F: Fn(&ValTag<()>) -> bool>(&self, callback: &F) -> (stopped: bool)
        requires
            forall|tag: ValTag<()>| call_requires(*callback, (&tag,)),
        ensures
            exists|claims: Seq<ValTag<()>>| #[trigger] stops_at_first(claims, callback, stopped),
    {
        let tags = self.iter_tags();
        let stopped = each_claim(&tags, callback);
        assert(stops_at_first(tags@, callback, stopped));
        stopped
    }
}

/// `stopped` is what a walk over the claims answers that asks the callback
/// about each in order and ends at the first `true`: it stopped at a claim
/// for which the callback answered `true`, having answered `false` for every
/// claim before it; or it did not stop, and the callback answered `false`
/// for every claim.
///
/// [`ItemData::each_tag`] walks the list that `iter_tags` hands out when it
/// is asked, a list that no contract names: its answer is this for some
/// list. [`each_claim`] walks a given list.
pub open spec fn stops_at_first<F: Fn(&ValTag<()>) -> bool>(
    claims: Seq<ValTag<()>>,
    callback: &F,
    stopped: bool,
) -> bool {
    if stopped {
        exists|k: int|
            0 <= k < claims.len() && call_ensures(*callback, (&#[trigger] claims[k],), true) && forall|j: int|
                0 <= j < k ==> call_ensures(*callback, (&#[trigger] claims[j],), false)
    } else {
        forall|k: int| 0 <= k < claims.len() ==> call_ensures(*callback, (&#[trigger] claims[k],), false)
    }
}

/// Calls the callback on the claims, in order, until it answers `true` for
/// one of them; says whether it did.
pub fn each_claim<F: Fn(&ValTag<()>) -> bool>(claims: &Vec<ValTag<()>>, callback: &F) -> (stopped: bool)
    requires
        forall|k: int| 0 <= k < claims@.len() ==> call_requires(*callback, (&#[trigger] claims@[k],)),
    ensures
        stops_at_first(claims@, callback, stopped),
{
    let mut at: usize = 0;
    while at < claims.len()
        invariant
            at <= claims@.len(),
            forall|k: int| 0 <= k < claims@.len() ==> call_requires(*callback, (&#[trigger] claims@[k],)),
            forall|k: int| 0 <= k < at ==> call_ensures(*callback, (&#[trigger] claims@[k],), false),
        decreases claims@.len() - at,
    {
        if callback(&claims[at]) {
            return true;
        }
        at = at + 1;
    }
    false
}

/// An item as a tree stores it: its identifier, its data, and the handles of
/// the tags that classify it.
pub struct Item<ID> {
    pub uuid: u128,
    pub data: ID,
    pub tags: HandleTable,
}

impl<ID> Item<ID> {
    /// What the tree knows of this item's memberships.
    pub open spec fn shape(&self) -> ItemShape {
        ItemShape { uuid: self.uuid, tags: handles(entries(self.tags)) }
    }

    /// An item that no tag classifies.
    pub fn new(uuid: u128, data: ID) -> (item: Self)
        ensures
            item.uuid == uuid,
            item.data == data,
            item.shape() == (ItemShape { uuid, tags: Map::empty() }),
    {
        let item = Item { uuid, data, tags: table_new() };
        proof {
            lemma_handles(Map::empty(), 0, 0);
        }
        item
    }

    /// The identifier of this item.
    pub fn uuid(&self) -> (uuid: u128)
        ensures
            uuid == self.uuid,
    {
        self.uuid
    }

    /// The data attached to this item.
    pub fn data(&self) -> (data: &ID)
        ensures
            *data == self.data,
    {
        &self.data
    }

    /// The content hash of the body that belongs to this item: an item of
    /// this kind has none.
    pub fn body(&self) -> (body: Option<&blake3::Hash>)
        ensures
            body.is_none(),
    {
        None
    }

    /// The number of tags that classify this item.
    pub fn tags_count(&self) -> (count: usize)
        ensures
            count == self.shape().tags.len(),
    {
        proof {
            lemma_handles(entries(self.tags), 0, 0);
        }
        table_len(&self.tags)
    }

    /// The handle of the classifying tag with this identifier.
    pub fn get_tag(&self, uuid: u128) -> (tag: Option<usize>)
        ensures
            found_in(tag, self.shape().tags, uuid),
    {
        table_get(&self.tags, uuid)
    }

    /// Names `tag` under `uuid` among the classifiers. An entry that was there
    /// under the same identifier is replaced.
    pub fn add_tag(&mut self, uuid: u128, tag: usize)
        ensures
            final(self).shape() == (ItemShape {
                tags: old(self).shape().tags.insert(uuid, tag as int),
                ..old(self).shape()
            }),
            final(self).data == old(self).data,
    {
        table_insert(&mut self.tags, uuid, tag);
        proof {
            lemma_handles(entries(old(self).tags), uuid, tag);
        }
    }
}

} // verus!
