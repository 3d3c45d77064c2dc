//! The builder: a volume made from a flat list of items, each of which names
//! the tags it wants to be filed under. Tags come into being as items claim
//! them.

use crate::item::ItemData;
use crate::proto::{root, ValTag};
use crate::shape::{
    lemma_claimed, lemma_extends_has_tag, lemma_extends_trans, lemma_resolved, lemma_tag_of, lemma_with_item_wf,
    TreeShape,
};
use crate::tree::TagTree;
use crate::volume::Volume;
use uuid::Uuid;
use vstd::prelude::*;

verus! {

/// Why a volume could not be loaded.
#[derive(Debug)]
pub enum LoadVolumeError {
    /// The backing store cannot be loaded from.
    NotImplemented,
    /// Transport or storage failed.
    IoFailed { error: std::io::Error, info: String },
}

/// The bits of an identifier that say how it was made.
pub const VERSION_MASK: u128 = 0x0000_0000_0000_f000_c000_0000_0000_0000;

/// The value of those bits in an identifier that was drawn at random.
pub const VERSION_RANDOM: u128 = 0x0000_0000_0000_4000_8000_0000_0000_0000;

/// `Uuid::new_v4`: a random identifier. Nothing is known of it but the
/// version and variant bits, which mark it as random.
#[verifier::external_body]
fn fresh_uuid() -> (uuid: u128)
    ensures
        uuid & VERSION_MASK == VERSION_RANDOM,
{
    Uuid::new_v4().as_u128()
}

/// What each claim says: the identifier of a tag and of the parent it
/// declares.
pub open spec fn claim_pairs(claims: Seq<ValTag<()>>) -> Seq<(u128, Option<u128>)> {
    claims.map_values(|c: ValTag<()>| (c.uuid, c.parent))
}

/// Resolves the claim of an item to a tag and files the item under it.
///
/// A tag with the claimed identifier is reused wherever it is in the tree,
/// whatever parent the claim declares. If there is none, one is created with
/// data from the factory, below the declared parent if that is a tag of the
/// tree and below the root if not.
pub fn claim_tag<TD, ID, F: Fn(u128) -> TD>(
    tree: &mut TagTree<TD, ID>,
    item: usize,
    claim: &ValTag<()>,
    tag_data_factory: &F,
) -> (tag: usize)
    requires
        old(tree).wf(),
        item < old(tree)@.items.len(),
        call_requires(*tag_data_factory, (claim.uuid,)),
    ensures
        final(tree)@ == old(tree)@.claimed(item as int, claim.uuid, claim.parent),
        final(tree).wf(),
        final(tree)@.extends(old(tree)@),
        old(tree)@.reciprocal() ==> final(tree)@.reciprocal(),
        final(tree).keeps(old(tree)),
        tag == final(tree)@.tag_of(claim.uuid),
        tag < final(tree)@.tags.len(),
        final(tree)@.tags[tag as int].uuid == claim.uuid,
        final(tree)@.filed(tag as int, item as int),
        final(tree)@.classified(item as int, tag as int),
        !old(tree)@.has_tag(claim.uuid) ==> tag == old(tree)@.tags.len() && call_ensures(
            *tag_data_factory,
            (claim.uuid,),
            final(tree).tags@[tag as int].data,
        ) && final(tree).tags@[tag as int].proto.parent == claim.parent,
{
    let tag = match tree.find_tag(claim.uuid) {
        Some(tag) => tag,
        None => {
            let parent = match claim.parent {
                Some(declared) => match tree.find_tag(declared) {
                    Some(parent) => parent,
                    None => 0,
                },
                None => 0,
            };
            let data = tag_data_factory(claim.uuid);
            let proto = ValTag { uuid: claim.uuid, parent: claim.parent, val: () };
            tree.new_child(parent, proto, data)
        },
    };
    proof {
        lemma_resolved(old(tree)@, claim.uuid, claim.parent);
        assert(tree@ == old(tree)@.resolved(claim.uuid, claim.parent));
    }
    tree.file(tag, item);
    proof {
        lemma_claimed(old(tree)@, item as int, claim.uuid, claim.parent);
    }
    tag
}

/// Files an item under each tag that it claims, in the order of the claims.
pub fn file_claims<TD, ID, F: Fn(u128) -> TD>(
    tree: &mut TagTree<TD, ID>,
    item: usize,
    claims: &Vec<ValTag<()>>,
    tag_data_factory: &F,
)
    requires
        old(tree).wf(),
        item < old(tree)@.items.len(),
        forall|k: int| 0 <= k < claims@.len() ==> call_requires(*tag_data_factory, ((#[trigger] claims@[k]).uuid,)),
    ensures
        final(tree)@ == old(tree)@.claimed_all(item as int, claim_pairs(claims@)),
        final(tree).wf(),
        final(tree)@.extends(old(tree)@),
        final(tree)@.items.len() == old(tree)@.items.len(),
        old(tree)@.reciprocal() ==> final(tree)@.reciprocal(),
        final(tree).keeps(old(tree)),
        forall|h: int|
            old(tree)@.tags.len() <= h < final(tree)@.tags.len() ==> call_ensures(
                *tag_data_factory,
                ((#[trigger] final(tree).tags@[h]).proto.uuid,),
                final(tree).tags@[h].data,
            ),
        forall|k: int|
            0 <= k < claims@.len() ==> final(tree)@.has_tag((#[trigger] claims@[k]).uuid) && final(tree)@.filed(
                final(tree)@.tag_of(claims@[k].uuid),
                item as int,
            ),
{
    let mut at: usize = 0;
    proof {
        assert(claim_pairs(claims@).take(0) =~= Seq::empty());
    }
    while at < claims.len()
        invariant
            at <= claims@.len(),
            tree.wf(),
            item < tree@.items.len(),
            tree@.items.len() == old(tree)@.items.len(),
            forall|k: int| 0 <= k < claims@.len() ==> call_requires(*tag_data_factory, ((#[trigger] claims@[k]).uuid,)),
            tree@ == old(tree)@.claimed_all(item as int, claim_pairs(claims@).take(at as int)),
            tree@.extends(old(tree)@),
            old(tree)@.reciprocal() ==> tree@.reciprocal(),
            tree.keeps(old(tree)),
            forall|h: int|
                old(tree)@.tags.len() <= h < tree@.tags.len() ==> call_ensures(
                    *tag_data_factory,
                    ((#[trigger] tree.tags@[h]).proto.uuid,),
                    tree.tags@[h].data,
                ),
            forall|k: int|
                0 <= k < at ==> tree@.has_tag((#[trigger] claims@[k]).uuid) && tree@.filed(
                    tree@.tag_of(claims@[k].uuid),
                    item as int,
                ),
        decreases claims@.len() - at,
    {
        let ghost before = tree@;
        let ghost kept = *tree;
        let tag = claim_tag(tree, item, &claims[at], tag_data_factory);
        proof {
            let pairs = claim_pairs(claims@);
            assert(pairs.take(at + 1).drop_last() =~= pairs.take(at as int));
            assert(pairs.take(at + 1).last() == (claims@[at as int].uuid, claims@[at as int].parent));
            lemma_extends_trans(old(tree)@, before, tree@);
            lemma_tag_of(tree@, tag as int);
            assert forall|k: int| 0 <= k < at + 1 implies tree@.has_tag((#[trigger] claims@[k]).uuid) && tree@.filed(
                tree@.tag_of(claims@[k].uuid),
                item as int,
            ) by {
                if k < at {
                    lemma_extends_has_tag(before, tree@, claims@[k].uuid);
                    let t = before.tag_of(claims@[k].uuid);
                    assert(before.tags[t].uuid == claims@[k].uuid);
                    assert(before.tags[t].items.submap_of(tree@.tags[t].items));
                    assert(before.tags[t].items.dom().contains(before.items[item as int].uuid));
                    assert(tree@.items[item as int].uuid == before.items[item as int].uuid);
                }
            }
            assert forall|h: int| old(tree)@.tags.len() <= h < tree@.tags.len() implies call_ensures(
                *tag_data_factory,
                ((#[trigger] tree.tags@[h]).proto.uuid,),
                tree.tags@[h].data,
            ) by {
                if h < before.tags.len() {
                    assert(tree.tags@[h].data == kept.tags@[h].data);
                    assert(tree.tags@[h].proto == kept.tags@[h].proto);
                } else {
                    assert(!before.has_tag(claims@[at as int].uuid));
                    assert(h == tag);
                }
            }
        }
        at = at + 1;
    }
    proof {
        assert(claim_pairs(claims@).take(at as int) =~= claim_pairs(claims@));
    }
}

/// The identifiers of a list without repetitions, each where it first
/// occurs.
pub open spec fn first_occurrences(uuids: Seq<u128>) -> Seq<u128>
    decreases uuids.len(),
{
    if uuids.len() == 0 {
        Seq::empty()
    } else {
        let before = first_occurrences(uuids.drop_last());
        if before.contains(uuids.last()) {
            before
        } else {
            before.push(uuids.last())
        }
    }
}

/// The identifiers of the items of a tree, by handle.
pub open spec fn item_uuids(tree: TreeShape) -> Seq<u128> {
    Seq::new(tree.items.len(), |i: int| tree.items[i].uuid)
}

/// What holds of a volume that was built from the listed items, whatever
/// tags the items claimed.
pub open spec fn built_from<VD, TD, ID, Loader, AsyncLoader, TagDataFactory: Fn(u128) -> TD, ItemDataFactory: Fn(u128) -> ID>(
    volume: &Volume<VD, TD, ID, Loader, AsyncLoader>,
    tag_data_factory: &TagDataFactory,
    item_data_factory: &ItemDataFactory,
    items: Seq<u128>,
) -> bool {
    &&& volume.wf()
    &&& volume.tree@.reciprocal()
    &&& volume.complete()
    &&& item_uuids(volume.tree@) == first_occurrences(items)
    &&& forall|i: int|
        0 <= i < volume.tree.items@.len() ==> call_ensures(
            *item_data_factory,
            ((#[trigger] volume.tree.items@[i]).uuid,),
            volume.tree.items@[i].data,
        )
    &&& forall|h: int|
        0 < h < volume.tree.tags@.len() ==> call_ensures(
            *tag_data_factory,
            ((#[trigger] volume.tree.tags@[h]).proto.uuid,),
            volume.tree.tags@[h].data,
        )
    &&& forall|h: int| 0 < h < volume.tree@.tags.len() ==> (#[trigger] volume.tree@.tags[h]).items.len() > 0
}

/// Builds a volume whose root carries the given identifier.
///
/// The listed items are taken in order. Each is created with data from the
/// item factory and registered, and then filed under every tag that its data
/// claims; an identifier that was listed before is passed over. Tags are
/// created as they are claimed, with data from the tag factory.
pub fn load_volume_rooted<VD, TD, ID: ItemData, Loader, AsyncLoader, TagDataFactory: Fn(u128) -> TD, ItemDataFactory: Fn(u128) -> ID>(
    root_uuid: u128,
    uuid: u128,
    data: VD,
    root_data: TD,
    loader: Loader,
    async_loader: AsyncLoader,
    tag_data_factory: TagDataFactory,
    item_data_factory: ItemDataFactory,
    items: Vec<u128>,
) -> (volume: Volume<VD, TD, ID, Loader, AsyncLoader>)
    requires
        forall|id: u128| call_requires(tag_data_factory, (id,)),
        forall|k: int| 0 <= k < items@.len() ==> call_requires(item_data_factory, (#[trigger] items@[k],)),
    ensures
        built_from(&volume, &tag_data_factory, &item_data_factory, items@),
        volume.uuid == uuid,
        volume.data == data,
        volume.loader == loader,
        volume.async_loader == async_loader,
        volume.tree@.tags[0].uuid == root_uuid,
        volume.tree.tags@[0].data == root_data,
{
    let tree: TagTree<TD, ID> = TagTree::new_root(root(root_uuid), root_data);
    let mut volume = Volume::new(uuid, data, tree, Vec::new(), loader, async_loader);
    let mut at: usize = 0;
    proof {
        assert(item_uuids(volume.tree@) =~= first_occurrences(items@.take(0)));
        assert forall|i: int| 0 <= i < volume.tree@.items.len() implies volume.registry().contains_pair(
            (#[trigger] volume.tree@.items[i]).uuid,
            i,
        ) by {}
    }
    while at < items.len()
        invariant
            at <= items@.len(),
            forall|id: u128| call_requires(tag_data_factory, (id,)),
            forall|k: int| 0 <= k < items@.len() ==> call_requires(item_data_factory, (#[trigger] items@[k],)),
            built_from(&volume, &tag_data_factory, &item_data_factory, items@.take(at as int)),
            volume.uuid == uuid,
            volume.data == data,
            volume.loader == loader,
            volume.async_loader == async_loader,
            volume.tree@.tags[0].uuid == root_uuid,
            volume.tree.tags@[0].data == root_data,
        decreases items@.len() - at,
    {
        let item_uuid = items[at];
        let ghost before = volume;
        let ghost seen = first_occurrences(items@.take(at as int));
        proof {
            assert(items@.take(at + 1).drop_last() =~= items@.take(at as int));
            assert(items@.take(at + 1).last() == item_uuid);
        }
        if volume.has_item(item_uuid) {
            proof {
                assert(volume.registered_is_item(item_uuid));
                let i = volume.registry()[item_uuid];
                assert(item_uuids(volume.tree@)[i] == item_uuid);
            }
        } else {
            proof {
                if seen.contains(item_uuid) {
                    let i = choose|i: int| 0 <= i < seen.len() && seen[i] == item_uuid;
                    assert(item_uuids(volume.tree@)[i] == item_uuid);
                    assert(volume.registry().contains_pair(volume.tree@.items[i].uuid, i));
                }
                assert(!volume.tree@.has_item(item_uuid)) by {
                    if volume.tree@.has_item(item_uuid) {
                        let i = volume.tree@.item_of(item_uuid);
                        assert(volume.registry().contains_pair(volume.tree@.items[i].uuid, i));
                    }
                }
            }
            let item_data = item_data_factory(item_uuid);
            let claims = item_data.iter_tags();
            let item = volume.load_item(item_uuid, item_data, &claims, &tag_data_factory);
            proof {
                assert(item_uuids(volume.tree@) =~= seen.push(item_uuid)) by {
                    assert forall|i: int| 0 <= i < before.tree@.items.len() implies volume.tree@.items[i].uuid
                        == before.tree@.items[i].uuid by {
                        assert(volume.tree@.items[i].uuid == before.tree@.items[i].uuid);
                    }
                    assert(item_uuids(before.tree@).len() == seen.len());
                    assert forall|i: int| 0 <= i < seen.len() implies item_uuids(volume.tree@)[i] == seen[i] by {
                        assert(item_uuids(before.tree@)[i] == seen[i]);
                    }
                    assert(volume.registry().contains_key(item_uuid));
                    assert(volume.registered_is_item(item_uuid));
                }
                assert forall|i: int| 0 <= i < volume.tree.items@.len() implies call_ensures(
                    item_data_factory,
                    ((#[trigger] volume.tree.items@[i]).uuid,),
                    volume.tree.items@[i].data,
                ) by {
                    if i < before.tree.items@.len() {
                        assert(volume.tree@.items[i].uuid == before.tree@.items[i].uuid);
                        assert(volume.tree.items@[i].data == before.tree.items@[i].data);
                    } else {
                        assert(volume.tree@.items[i].uuid == item_uuid);
                    }
                }
                assert forall|h: int| 0 < h < volume.tree.tags@.len() implies call_ensures(
                    tag_data_factory,
                    ((#[trigger] volume.tree.tags@[h]).proto.uuid,),
                    volume.tree.tags@[h].data,
                ) by {
                    if h < before.tree.tags@.len() {
                        assert(volume.tree.tags@[h].data == before.tree.tags@[h].data);
                        assert(volume.tree.tags@[h].proto == before.tree.tags@[h].proto);
                    }
                }
                assert forall|h: int| 0 < h < volume.tree@.tags.len() implies (#[trigger] volume.tree@.tags[h]).items.len()
                    > 0 by {
                    lemma_with_item_wf(before.tree@, item_uuid);
                    lemma_tag_has_item(before.tree@.with_item(item_uuid), item as int, claim_pairs(claims@), h);
                }
                assert(volume.tree@.tags[0].uuid == before.tree@.tags[0].uuid);
                assert(volume.tree.tags@[0].data == before.tree.tags@[0].data);
            }
        }
        at = at + 1;
    }
    proof {
        assert(items@.take(at as int) =~= items@);
    }
    volume
}

/// Claims keep the tree well formed and two-sided and remove nothing.
pub proof fn lemma_claimed_all(s: TreeShape, item: int, claims: Seq<(u128, Option<u128>)>)
    requires
        s.wf(),
        0 <= item < s.items.len(),
    ensures
        s.claimed_all(item, claims).wf(),
        s.claimed_all(item, claims).extends(s),
        s.claimed_all(item, claims).items.len() == s.items.len(),
        s.reciprocal() ==> s.claimed_all(item, claims).reciprocal(),
    decreases claims.len(),
{
    if claims.len() > 0 {
        let before = s.claimed_all(item, claims.drop_last());
        lemma_claimed_all(s, item, claims.drop_last());
        lemma_claimed(before, item, claims.last().0, claims.last().1);
        lemma_extends_trans(s, before, s.claimed_all(item, claims));
    }
}

/// After an item has claimed tags, every tag that had an item still has one
/// and every tag that the claims created has the item.
pub proof fn lemma_tag_has_item(s: TreeShape, item: int, claims: Seq<(u128, Option<u128>)>, h: int)
    requires
        s.wf(),
        0 <= item < s.items.len(),
        0 <= h < s.claimed_all(item, claims).tags.len(),
        h < s.tags.len() ==> s.tags[h].items.len() > 0,
    ensures
        s.claimed_all(item, claims).tags[h].items.len() > 0,
    decreases claims.len(),
{
    if claims.len() > 0 {
        let before = s.claimed_all(item, claims.drop_last());
        let after = s.claimed_all(item, claims);
        lemma_claimed_all(s, item, claims.drop_last());
        lemma_claimed_all(s, item, claims);
        lemma_claimed(before, item, claims.last().0, claims.last().1);
        lemma_resolved(before, claims.last().0, claims.last().1);
        let holds = after.tags[h].items;
        if h < before.tags.len() {
            lemma_tag_has_item(s, item, claims.drop_last(), h);
            let held = before.tags[h].items;
            assert(held.submap_of(holds));
            assert(held.dom().subset_of(holds.dom()));
            vstd::set_lib::lemma_len_subset(held.dom(), holds.dom());
        } else {
            assert(after.tag_of(claims.last().0) == h);
            assert(after.filed(h, item));
            assert(holds.dom().contains(after.items[item].uuid));
            if holds.dom().len() == 0 {
                holds.dom().lemma_len0_is_empty();
            }
        }
    }
}

/// Builds a volume: see [`load_volume_rooted`]. The root is given an
/// identifier drawn at random. Building in memory cannot fail.
pub fn load_volume<VD, TD, ID: ItemData, Loader, AsyncLoader, TagDataFactory: Fn(u128) -> TD, ItemDataFactory: Fn(u128) -> ID>(
    uuid: u128,
    data: VD,
    root_data: TD,
    loader: Loader,
    async_loader: AsyncLoader,
    tag_data_factory: TagDataFactory,
    item_data_factory: ItemDataFactory,
    items: Vec<u128>,
) -> (loaded: Result<Volume<VD, TD, ID, Loader, AsyncLoader>, LoadVolumeError>)
    requires
        forall|id: u128| call_requires(tag_data_factory, (id,)),
        forall|k: int| 0 <= k < items@.len() ==> call_requires(item_data_factory, (#[trigger] items@[k],)),
    ensures
        loaded matches Ok(volume) && {
            &&& built_from(&volume, &tag_data_factory, &item_data_factory, items@)
            &&& volume.uuid == uuid
            &&& volume.data == data
            &&& volume.loader == loader
            &&& volume.async_loader == async_loader
            &&& volume.tree@.tags[0].uuid & VERSION_MASK == VERSION_RANDOM
            &&& volume.tree.tags@[0].data == root_data
        },
{
    let root_uuid = fresh_uuid();
    Ok(
        load_volume_rooted(
            root_uuid,
            uuid,
            data,
            root_data,
            loader,
            async_loader,
            tag_data_factory,
            item_data_factory,
            items,
        ),
    )
}

} // verus!
