//! The volume: the owner of one tag tree and one item registry, which
//! resolves content hashes to bodies through the loaders it was given.

use crate::item::Item;
use crate::loader::{claim_pairs, file_claims};
use crate::proto::ValTag;
use crate::shape::{lemma_descends_from_root, lemma_descends_order, lemma_extends_trans};
use crate::shared_map::{
    entries, handles, lemma_handles, lookup, table_get, table_insert, table_len, table_new, table_pairs, HandleTable,
};
use crate::tag::Tag;
use crate::tree::TagTree;
use vstd::prelude::*;

verus! {

/// Makes `blake3::Hash` known as a type whose inside is not looked at: a
/// content hash is only handed on to the loaders.
#[verifier::external_type_specification]
#[verifier::external_body]
pub struct ExHash(blake3::Hash);

/// Makes `std::io::Error` known as a type whose inside is not looked at: the
/// cause of a failure is only carried in an error.
#[verifier::external_type_specification]
#[verifier::external_body]
pub struct ExIoError(std::io::Error);

/// Why a body could not be resolved.
#[derive(Debug)]
pub enum LoadBodyError {
    /// The loader does not handle this kind of hash.
    NotSupported { hash: blake3::Hash },
    /// The loader handles the hash and has no body for it.
    NotFound { hash: blake3::Hash },
    /// Transport or storage failed.
    IoFailed { error: std::io::Error, info: String },
}

pub type LoadBodyResult<T> = Result<T, LoadBodyError>;

/// A tag tree and an item registry under one identifier, with the two
/// loaders that resolve bodies.
pub struct Volume<VD, TD, ID, Loader, AsyncLoader> {
    pub loader: Loader,
    pub async_loader: AsyncLoader,
    pub uuid: u128,
    pub data: VD,
    pub tree: TagTree<TD, ID>,
    pub items: HandleTable,
}

impl<VD, TD, ID, Loader, AsyncLoader> Volume<VD, TD, ID, Loader, AsyncLoader> {
    /// The registry: the handles of the registered items, by identifier.
    pub open spec fn registry(&self) -> Map<u128, int> {
        handles(entries(self.items))
    }

    /// The entry `key` of the registry is an item of the tree with that
    /// identifier.
    pub open spec fn registered_is_item(&self, key: u128) -> bool {
        let i = self.registry()[key];
        0 <= i < self.tree@.items.len() && self.tree@.items[i].uuid == key
    }

    /// The tree is well formed and the registry holds finitely many items of
    /// it, each under its own identifier.
    pub open spec fn wf(&self) -> bool {
        &&& self.tree.wf()
        &&& self.registry().dom().finite()
        &&& forall|key: u128| #[trigger] self.registry().contains_key(key) ==> self.registered_is_item(key)
    }

    /// Every item of the tree is registered.
    pub open spec fn complete(&self) -> bool {
        forall|i: int|
            0 <= i < self.tree@.items.len() ==> self.registry().contains_pair(
                (#[trigger] self.tree@.items[i]).uuid,
                i,
            )
    }

    /// The same volume but for its tree and registry.
    pub open spec fn same_setting(&self, before: &Self) -> bool {
        &&& self.uuid == before.uuid
        &&& self.data == before.data
        &&& self.loader == before.loader
        &&& self.async_loader == before.async_loader
    }

    /// A volume around a tree, with the given items of that tree registered.
    pub fn new(
        uuid: u128,
        data: VD,
        tree: TagTree<TD, ID>,
        initial_items: Vec<usize>,
        loader: Loader,
        async_loader: AsyncLoader,
    ) -> (volume: Self)
        requires
            tree.wf(),
            forall|j: int| 0 <= j < initial_items@.len() ==> #[trigger] initial_items@[j] < tree@.items.len(),
        ensures
            volume.wf(),
            volume.uuid == uuid,
            volume.data == data,
            volume.tree == tree,
            volume.loader == loader,
            volume.async_loader == async_loader,
            forall|j: int|
                0 <= j < initial_items@.len() ==> volume.registry().contains_pair(
                    tree@.items[(#[trigger] initial_items@[j]) as int].uuid,
                    initial_items@[j] as int,
                ),
            forall|key: u128| #[trigger]
                volume.registry().contains_key(key) ==> exists|j: int|
                    0 <= j < initial_items@.len() && (#[trigger] initial_items@[j]) as int == volume.registry()[key],
    {
        let mut items = table_new();
        let mut at: usize = 0;
        proof {
            lemma_handles(Map::empty(), 0, 0);
        }
        while at < initial_items.len()
            invariant
                tree.wf(),
                at <= initial_items@.len(),
                forall|j: int| 0 <= j < initial_items@.len() ==> #[trigger] initial_items@[j] < tree@.items.len(),
                handles(entries(items)).dom().finite(),
                forall|key: u128| #[trigger]
                    handles(entries(items)).contains_key(key) ==> 0 <= handles(entries(items))[key] < tree@.items.len()
                        && tree@.items[handles(entries(items))[key]].uuid == key,
                forall|j: int|
                    0 <= j < at ==> handles(entries(items)).contains_pair(
                        tree@.items[(#[trigger] initial_items@[j]) as int].uuid,
                        initial_items@[j] as int,
                    ),
                forall|key: u128| #[trigger]
                    handles(entries(items)).contains_key(key) ==> exists|j: int|
                        0 <= j < at && (#[trigger] initial_items@[j]) as int == handles(entries(items))[key],
            decreases initial_items@.len() - at,
        {
            let item = initial_items[at];
            let key = tree.items[item].uuid();
            let ghost held = handles(entries(items));
            proof {
                lemma_handles(entries(items), key, item);
            }
            table_insert(&mut items, key, item);
            proof {
                assert forall|j: int| 0 <= j < at + 1 implies handles(entries(items)).contains_pair(
                    tree@.items[(#[trigger] initial_items@[j]) as int].uuid,
                    initial_items@[j] as int,
                ) by {
                    if j < at {
                        let other = initial_items@[j] as int;
                        assert(held.contains_pair(tree@.items[other].uuid, other));
                        if tree@.items[other].uuid == key {
                            assert(tree@.items[item as int].uuid == key);
                        }
                    }
                }
                assert forall|k: u128| #[trigger] handles(entries(items)).contains_key(k) implies exists|j: int|
                    0 <= j < at + 1 && (#[trigger] initial_items@[j]) as int == handles(entries(items))[k] by {
                    if k == key {
                        assert(initial_items@[at as int] as int == handles(entries(items))[k]);
                    } else {
                        assert(held.contains_key(k));
                        let j = choose|j: int| 0 <= j < at && (#[trigger] initial_items@[j]) as int == held[k];
                        assert(initial_items@[j] as int == handles(entries(items))[k]);
                    }
                }
            }
            at = at + 1;
        }
        Volume { loader, async_loader, uuid, data, tree, items }
    }

    /// The identifier of the volume.
    pub fn uuid(&self) -> (uuid: u128)
        ensures
            uuid == self.uuid,
    {
        self.uuid
    }

    /// The data attached to the volume.
    pub fn data(&self) -> (data: &VD)
        ensures
            *data == self.data,
    {
        &self.data
    }

    /// The root of the tag tree.
    pub fn root(&self) -> (root: &Tag<TD>)
        requires
            self.wf(),
        ensures
            *root == self.tree.tags@[0],
            root.parent.is_none(),
    {
        proof {
            assert(self.tree@.parent_holds(0));
        }
        &self.tree.tags[0]
    }

    /// The number of registered items.
    pub fn items_count(&self) -> (count: usize)
        ensures
            count == self.registry().len(),
    {
        proof {
            lemma_handles(entries(self.items), 0, 0);
        }
        table_len(&self.items)
    }

    /// The registered item with this identifier.
    pub fn get_item(&self, uuid: u128) -> (found: Option<&Item<ID>>)
        requires
            self.wf(),
        ensures
            match found {
                Some(item) => self.registry().contains_key(uuid) && *item == self.tree.items@[self.registry()[uuid]]
                    && item.uuid == uuid,
                None => !self.registry().contains_key(uuid),
            },
    {
        match table_get(&self.items, uuid) {
            Some(item) => {
                proof {
                    assert(self.registry().contains_key(uuid));
                    assert(self.registered_is_item(uuid));
                }
                Some(&self.tree.items[item])
            },
            None => None,
        }
    }

    /// Calls the callback on the registered items, in no particular order,
    /// until it answers `true` for one of them; says whether it did.
    pub fn each_item<F: Fn(&Item<ID>) -> bool>(&self, callback: &F) -> (stopped: bool)
        requires
            self.wf(),
            self.tree.accepts_items(callback),
        ensures
            stopped ==> exists|i: int|
                0 <= i < self.tree@.items.len() && self.registry().contains_pair(self.tree@.items[i].uuid, i)
                    && #[trigger] self.tree.item_answers(callback, i, true),
            !stopped ==> forall|i: int|
                0 <= i < self.tree@.items.len() && self.registry().contains_pair(self.tree@.items[i].uuid, i)
                    ==> #[trigger] self.tree.item_answers(callback, i, false),
    {
        let listed = table_pairs(&self.items);
        let mut at: usize = 0;
        while at < listed.len()
            invariant
                self.wf(),
                self.tree.accepts_items(callback),
                at <= listed@.len(),
                forall|j: int|
                    0 <= j < listed@.len() ==> self.registry().contains_pair(
                        (#[trigger] listed@[j]).0,
                        listed@[j].1 as int,
                    ),
                forall|j: int| 0 <= j < at ==> self.tree.item_answers(callback, (#[trigger] listed@[j]).1 as int, false),
            decreases listed@.len() - at,
        {
            let item = listed[at].1;
            proof {
                assert(self.registry().contains_key(listed@[at as int].0));
                assert(self.registered_is_item(listed@[at as int].0));
            }
            let hit = callback(&self.tree.items[item]);
            if hit {
                proof {
                    assert(self.tree.item_answers(callback, item as int, true));
                }
                return true;
            }
            assert(self.tree.item_answers(callback, item as int, false));
            at = at + 1;
        }
        proof {
            assert forall|i: int|
                0 <= i < self.tree@.items.len() && self.registry().contains_pair(
                    self.tree@.items[i].uuid,
                    i,
                ) implies #[trigger] self.tree.item_answers(callback, i, false) by {
                let key = self.tree@.items[i].uuid;
                let j = choose|j: int| 0 <= j < listed@.len() && (#[trigger] listed@[j]).0 == key;
                assert(listed@[j].1 == i);
            }
        }
        false
    }

    /// Calls the callback on the registered item with this identifier, or on
    /// nothing if there is none, and hands back what it answers.
    pub fn with_item<O, F: Fn(Option<&Item<ID>>) -> O>(&self, uuid: u128, callback: &F) -> (answer: O)
        requires
            self.wf(),
            call_requires(*callback, (None::<&Item<ID>>,)),
            forall|i: int|
                0 <= i < self.tree.items@.len() ==> call_requires(*callback, (Some(&#[trigger] self.tree.items@[i]),)),
        ensures
            match lookup(self.registry(), uuid) {
                Some(i) => call_ensures(*callback, (Some(&self.tree.items@[i]),), answer),
                None => call_ensures(*callback, (None::<&Item<ID>>,), answer),
            },
    {
        match table_get(&self.items, uuid) {
            None => callback(None),
            Some(item) => {
                proof {
                    assert(self.registry().contains_key(uuid));
                    assert(self.registered_is_item(uuid));
                }
                callback(Some(&self.tree.items[item]))
            },
        }
    }

    /// Resolves a content hash to its body with the blocking loader: what the
    /// loader answers for the volume's data and the hash is handed back as it
    /// is, a body or an error.
    pub fn load_body<Body>(&self, hash: &blake3::Hash) -> (body: LoadBodyResult<Body>) where
        Loader: Fn(&VD, &blake3::Hash) -> LoadBodyResult<Body>,

        requires
            call_requires(self.loader, (&self.data, hash)),
        ensures
            call_ensures(self.loader, (&self.data, hash), body),
    {
        (self.loader)(&self.data, hash)
    }

    /// Starts the resolution of a content hash with the suspending loader and
    /// hands back the pending computation, which the caller drives to its
    /// body or error. Nothing of the volume changes, whether the caller
    /// completes the computation or abandons it.
    pub fn load_body_async<TF>(&self, hash: &blake3::Hash) -> (pending: TF) where AsyncLoader: Fn(&VD, &blake3::Hash) -> TF
        requires
            call_requires(self.async_loader, (&self.data, hash)),
        ensures
            call_ensures(self.async_loader, (&self.data, hash), pending),
    {
        (self.async_loader)(&self.data, hash)
    }

    /// Creates an item in the tree, filed nowhere, and registers it.
    pub fn new_item(&mut self, item_uuid: u128, item_data: ID) -> (item: usize)
        requires
            old(self).wf(),
            !old(self).tree@.has_item(item_uuid),
        ensures
            final(self).wf(),
            final(self).same_setting(old(self)),
            final(self).tree@ == old(self).tree@.with_item(item_uuid),
            final(self).tree.keeps(&old(self).tree),
            final(self).tree.items@[item as int].data == item_data,
            item == old(self).tree@.items.len(),
            final(self).registry() == old(self).registry().insert(item_uuid, item as int),
            old(self).tree@.reciprocal() ==> final(self).tree@.reciprocal(),
            old(self).complete() ==> final(self).complete(),
    {
        let item = self.tree.create_item(item_uuid, item_data);
        table_insert(&mut self.items, item_uuid, item);
        proof {
            lemma_handles(entries(old(self).items), item_uuid, item);
            assert forall|key: u128| #[trigger] self.registry().contains_key(key) implies self.registered_is_item(
                key,
            ) by {
                if key != item_uuid {
                    assert(old(self).registry().contains_key(key));
                    assert(old(self).registered_is_item(key));
                }
            }
        }
        item
    }

    /// Whether an item with this identifier is registered.
    pub fn has_item(&self, uuid: u128) -> (registered: bool)
        ensures
            registered == self.registry().contains_key(uuid),
    {
        proof {
            lemma_handles(entries(self.items), 0, 0);
        }
        table_get(&self.items, uuid).is_some()
    }

    /// Takes in one item with the tags it claims: the item is created and
    /// registered, and then filed under each claimed tag in turn, tags being
    /// created where a claim names one that the tree does not have.
    pub fn load_item<F: Fn(u128) -> TD>(
        &mut self,
        item_uuid: u128,
        item_data: ID,
        claims: &Vec<ValTag<()>>,
        tag_data_factory: &F,
    ) -> (item: usize)
        requires
            old(self).wf(),
            !old(self).tree@.has_item(item_uuid),
            forall|k: int| 0 <= k < claims@.len() ==> call_requires(*tag_data_factory, ((#[trigger] claims@[k]).uuid,)),
        ensures
            final(self).wf(),
            final(self).same_setting(old(self)),
            final(self).tree@ == old(self).tree@.with_item(item_uuid).claimed_all(item as int, claim_pairs(claims@)),
            final(self).tree@.extends(old(self).tree@),
            final(self).tree@.items.len() == old(self).tree@.items.len() + 1,
            final(self).tree.keeps(&old(self).tree),
            final(self).tree.items@[item as int].data == item_data,
            item == old(self).tree@.items.len(),
            final(self).registry() == old(self).registry().insert(item_uuid, item as int),
            old(self).tree@.reciprocal() ==> final(self).tree@.reciprocal(),
            old(self).complete() ==> final(self).complete(),
            forall|h: int|
                old(self).tree@.tags.len() <= h < final(self).tree@.tags.len() ==> call_ensures(
                    *tag_data_factory,
                    ((#[trigger] final(self).tree.tags@[h]).proto.uuid,),
                    final(self).tree.tags@[h].data,
                ),
            forall|k: int|
                0 <= k < claims@.len() ==> final(self).tree@.has_tag((#[trigger] claims@[k]).uuid)
                    && final(self).tree@.filed(final(self).tree@.tag_of(claims@[k].uuid), item as int),
    {
        let item = self.new_item(item_uuid, item_data);
        let ghost created = self.tree@;
        let ghost kept = self.tree;
        file_claims(&mut self.tree, item, claims, tag_data_factory);
        proof {
            lemma_extends_trans(old(self).tree@, created, self.tree@);
            assert forall|key: u128| #[trigger] self.registry().contains_key(key) implies self.registered_is_item(
                key,
            ) by {
                let i = self.registry()[key];
                assert(self.tree@.items[i].uuid == created.items[i].uuid);
            }
            if old(self).complete() {
                assert forall|i: int| 0 <= i < self.tree@.items.len() implies self.registry().contains_pair(
                    (#[trigger] self.tree@.items[i]).uuid,
                    i,
                ) by {
                    assert(self.tree@.items[i].uuid == created.items[i].uuid);
                }
            }
            assert forall|i: int| 0 <= i < old(self).tree.items@.len() implies (#[trigger] self.tree.items@[i]).data
                == old(self).tree.items@[i].data by {
                assert(kept.items@[i].data == old(self).tree.items@[i].data);
            }
            assert forall|h: int| 0 <= h < old(self).tree.tags@.len() implies (#[trigger] self.tree.tags@[h]).data
                == old(self).tree.tags@[h].data && self.tree.tags@[h].proto == old(self).tree.tags@[h].proto by {
                assert(kept.tags@[h].data == old(self).tree.tags@[h].data);
            }
        }
        item
    }

    /// Registers an item of the tree under its identifier.
    pub fn add_item(&mut self, item: usize)
        requires
            old(self).wf(),
            item < old(self).tree@.items.len(),
        ensures
            final(self).wf(),
            final(self).same_setting(old(self)),
            final(self).tree == old(self).tree,
            final(self).registry() == old(self).registry().insert(old(self).tree@.items[item as int].uuid, item as int),
    {
        let key = self.tree.items[item].uuid();
        table_insert(&mut self.items, key, item);
        proof {
            lemma_handles(entries(old(self).items), key, item);
            assert forall|k: u128| #[trigger] self.registry().contains_key(k) implies self.registered_is_item(k) by {
                if k != key {
                    assert(old(self).registry().contains_key(k));
                    assert(old(self).registered_is_item(k));
                }
            }
        }
    }

    /// The handle of the tag with this identifier anywhere below the root.
    /// Every tag but the root lies below the root, so a tag is found exactly
    /// when some tag other than the root carries the identifier.
    pub fn get_tag(&self, uuid: u128) -> (found: Option<usize>)
        requires
            self.wf(),
        ensures
            match found {
                Some(t) => 0 < t < self.tree@.tags.len() && self.tree@.tags[t as int].uuid == uuid,
                None => forall|t: int| 0 < t < self.tree@.tags.len() ==> (#[trigger] self.tree@.tags[t]).uuid != uuid,
            },
    {
        let found = self.tree.get_child_deep(0, uuid);
        proof {
            match found {
                Some(t) => {
                    lemma_descends_order(self.tree@, t as int, 0);
                },
                None => {
                    assert forall|t: int| 0 < t < self.tree@.tags.len() implies (#[trigger] self.tree@.tags[t]).uuid
                        != uuid by {
                        lemma_descends_from_root(self.tree@, t);
                    }
                },
            }
        }
        found
    }
}

} // verus!
