//! What holds of every well-formed tree, and of the claims that grow one.

use crate::shape::{
    lemma_claimed, lemma_descends_from_root, lemma_descends_order, lemma_extends_has_tag, lemma_resolved,
    lemma_tag_of, lemma_with_membership_wf, TreeShape,
};
use vstd::prelude::*;

verus! {

/// A tag that has a parent is the child that the parent holds under the
/// tag's identifier.
pub proof fn law_parent_holds_child(s: TreeShape, t: int)
    requires
        s.wf(),
        0 <= t < s.tags.len(),
        s.tags[t].parent is Some,
    ensures
        0 <= s.tags[t].parent.unwrap() < s.tags.len(),
        s.tags[s.tags[t].parent.unwrap()].children.contains_key(s.tags[t].uuid),
        s.tags[s.tags[t].parent.unwrap()].children[s.tags[t].uuid] == t,
{
    assert(s.parent_holds(t));
}

/// A child that a tag holds has that tag as its parent, and the identifier
/// under which it is held.
pub proof fn law_child_names_parent(s: TreeShape, p: int, uuid: u128)
    requires
        s.wf(),
        0 <= p < s.tags.len(),
        s.tags[p].children.contains_key(uuid),
    ensures
        0 <= s.tags[p].children[uuid] < s.tags.len(),
        s.tags[s.tags[p].children[uuid]].parent == Some(p),
        s.tags[s.tags[p].children[uuid]].uuid == uuid,
{
    assert(s.child_belongs(p, uuid));
}

/// Exactly one tag has no parent: the root.
pub proof fn law_one_root(s: TreeShape, t: int)
    requires
        s.wf(),
        0 <= t < s.tags.len(),
    ensures
        s.tags[t].parent is None <==> t == 0,
{
    assert(s.parent_holds(t));
    assert(s.parent_holds(0));
}

/// In a tree where every filing is two-sided, an item that is filed under a
/// tag is the item that the tag holds under the item's identifier, and the tag
/// is the tag that the item holds under the tag's identifier; and so it is
/// for an item that names a tag.
pub proof fn law_filing_two_sided(s: TreeShape, t: int, i: int)
    requires
        s.wf(),
        s.reciprocal(),
        0 <= t < s.tags.len(),
        0 <= i < s.items.len(),
        s.filed(t, i) || s.classified(i, t),
    ensures
        s.tags[t].items.contains_key(s.items[i].uuid),
        s.tags[t].items[s.items[i].uuid] == i,
        s.items[i].tags.contains_key(s.tags[t].uuid),
        s.items[i].tags[s.tags[t].uuid] == t,
{
    assert(s.filed(t, i) <==> s.classified(i, t));
}

/// Whatever a tag holds under an identifier is an item with that identifier,
/// and whatever an item holds under an identifier is a tag with that
/// identifier.
pub proof fn law_entries_match_identifiers(s: TreeShape, t: int, i: int, key: u128)
    requires
        s.wf(),
        0 <= t < s.tags.len(),
        0 <= i < s.items.len(),
    ensures
        s.tags[t].items.contains_key(key) ==> 0 <= s.tags[t].items[key] < s.items.len()
            && s.items[s.tags[t].items[key]].uuid == key,
        s.items[i].tags.contains_key(key) ==> 0 <= s.items[i].tags[key] < s.tags.len()
            && s.tags[s.items[i].tags[key]].uuid == key,
{
    if s.tags[t].items.contains_key(key) {
        assert(s.filed_is_item(t, key));
    }
    if s.items[i].tags.contains_key(key) {
        assert(s.classifier_is_tag(i, key));
    }
}

/// Filing on the tag's side and then on the item's side leaves every filing
/// two-sided.
pub proof fn law_two_steps_file(s: TreeShape, t: int, i: int)
    requires
        s.wf(),
        s.reciprocal(),
        0 <= t < s.tags.len(),
        0 <= i < s.items.len(),
    ensures
        s.with_filing(t, i).with_classifier(i, t).wf(),
        s.with_filing(t, i).with_classifier(i, t).reciprocal(),
        s.with_filing(t, i).with_classifier(i, t).filed(t, i),
        s.with_filing(t, i).with_classifier(i, t).classified(i, t),
{
    lemma_with_membership_wf(s, t, i);
}

/// Every tag but the root lies below the root, at whatever depth; and no
/// tag lies below the root but a tag of the tree.
pub proof fn law_all_below_root(s: TreeShape, uuid: u128)
    requires
        s.wf(),
    ensures
        s.has_tag(uuid) && s.tags[0].uuid != uuid ==> s.descends(s.tag_of(uuid), 0),
        !s.has_tag(uuid) ==> forall|d: int| s.descends(d, 0) ==> (#[trigger] s.tags[d]).uuid != uuid,
{
    if s.has_tag(uuid) && s.tags[0].uuid != uuid {
        lemma_descends_from_root(s, s.tag_of(uuid));
    }
    if !s.has_tag(uuid) {
        assert forall|d: int| s.descends(d, 0) implies (#[trigger] s.tags[d]).uuid != uuid by {
            lemma_descends_order(s, d, 0);
        }
    }
}

/// A claim removes nothing and moves nothing: every tag keeps its handle, its
/// identifier, its parent and what it held, and the tree stays well formed.
pub proof fn law_claim_keeps(s: TreeShape, i: int, uuid: u128, declared: Option<u128>)
    requires
        s.wf(),
        0 <= i < s.items.len(),
    ensures
        s.claimed(i, uuid, declared).wf(),
        s.claimed(i, uuid, declared).extends(s),
        s.reciprocal() ==> s.claimed(i, uuid, declared).reciprocal(),
{
    lemma_claimed(s, i, uuid, declared);
}

/// A claim of a tag that exists adds no tag, whatever parent it declares.
pub proof fn law_claim_reuses(s: TreeShape, i: int, uuid: u128, declared: Option<u128>)
    requires
        s.wf(),
        0 <= i < s.items.len(),
        s.has_tag(uuid),
    ensures
        s.claimed(i, uuid, declared) == s.with_membership(s.tag_of(uuid), i),
        s.claimed(i, uuid, declared).tags.len() == s.tags.len(),
        s.claimed(i, uuid, declared).tag_of(uuid) == s.tag_of(uuid),
        s.claimed(i, uuid, declared).tags[s.tag_of(uuid)].parent == s.tags[s.tag_of(uuid)].parent,
{
    lemma_claimed(s, i, uuid, declared);
    lemma_resolved(s, uuid, declared);
}

/// A claim of a tag that does not exist adds one tag: below the declared
/// parent if that is a tag of the tree, and below the root if not.
pub proof fn law_claim_creates(s: TreeShape, i: int, uuid: u128, declared: Option<u128>)
    requires
        s.wf(),
        0 <= i < s.items.len(),
        !s.has_tag(uuid),
    ensures
        s.claimed(i, uuid, declared).tags.len() == s.tags.len() + 1,
        s.claimed(i, uuid, declared).tag_of(uuid) == s.tags.len(),
        s.claimed(i, uuid, declared).tags[s.tags.len() as int].parent == Some(s.parent_for(declared)),
        s.parent_for(declared) == match declared {
            Some(p) => if s.has_tag(p) {
                s.tag_of(p)
            } else {
                0
            },
            None => 0,
        },
        s.claimed(i, uuid, declared).tags[s.tags.len() as int].children == Map::<u128, int>::empty(),
{
    lemma_claimed(s, i, uuid, declared);
    lemma_resolved(s, uuid, declared);
    let r = s.resolved(uuid, declared);
    let c = s.claimed(i, uuid, declared);
    assert(c.tags[s.tags.len() as int].children =~= Map::<u128, int>::empty());
}

/// Two items that claim the same new tag, with the same declared parent,
/// yield one tag, and both are filed under it.
pub proof fn law_shared_claim_one_tag(s: TreeShape, a: int, b: int, uuid: u128, declared: Option<u128>)
    requires
        s.wf(),
        0 <= a < s.items.len(),
        0 <= b < s.items.len(),
        !s.has_tag(uuid),
    ensures
        ({
            let r = s.claimed(a, uuid, declared).claimed(b, uuid, declared);
            &&& r.wf()
            &&& r.tags.len() == s.tags.len() + 1
            &&& r.has_tag(uuid)
            &&& r.filed(r.tag_of(uuid), a)
            &&& r.filed(r.tag_of(uuid), b)
            &&& forall|h: int| 0 <= h < r.tags.len() && (#[trigger] r.tags[h]).uuid == uuid ==> h == r.tag_of(uuid)
        }),
{
    let first = s.claimed(a, uuid, declared);
    lemma_claimed(s, a, uuid, declared);
    lemma_resolved(s, uuid, declared);
    let r = first.claimed(b, uuid, declared);
    lemma_claimed(first, b, uuid, declared);
    lemma_resolved(first, uuid, declared);
    let t = first.tag_of(uuid);
    assert(r.tag_of(uuid) == t);
    assert(first.tags[t].items.submap_of(r.tags[t].items));
    assert(first.tags[t].items.dom().contains(first.items[a].uuid));
    assert(r.items[a].uuid == first.items[a].uuid);
    assert forall|h: int| 0 <= h < r.tags.len() && (#[trigger] r.tags[h]).uuid == uuid implies h == r.tag_of(uuid) by {
        assert(r.tags[r.tag_of(uuid)].uuid == uuid);
    }
}

/// The first claim of a tag decides its parent. Item `a` claims a new tag
/// with the root as its parent; item `b` then claims the same tag with
/// another new tag as its parent, and claims that other tag too, declaring
/// for it no parent, the root, or a parent that the tree does not have. The
/// first tag stays below the root, and the other tag is created below the
/// root without children.
pub proof fn law_first_claim_wins(s: TreeShape, a: int, b: int, uuid: u128, other: u128, declared: Option<u128>)
    requires
        s.wf(),
        0 <= a < s.items.len(),
        0 <= b < s.items.len(),
        !s.has_tag(uuid),
        !s.has_tag(other),
        uuid != other,
        declared matches Some(p) ==> p != uuid && (p == s.tags[0].uuid || !s.has_tag(p)),
    ensures
        ({
            let r = s.claimed(a, uuid, Some(s.tags[0].uuid)).claimed(b, uuid, Some(other)).claimed(b, other, declared);
            &&& r.wf()
            &&& r.tags.len() == s.tags.len() + 2
            &&& r.has_tag(uuid)
            &&& r.has_tag(other)
            &&& r.tags[r.tag_of(uuid)].parent == Some(0int)
            &&& r.tags[r.tag_of(other)].parent == Some(0int)
            &&& r.tags[r.tag_of(other)].children == Map::<u128, int>::empty()
            &&& r.filed(r.tag_of(uuid), a)
            &&& r.filed(r.tag_of(uuid), b)
            &&& r.filed(r.tag_of(other), b)
        }),
{
    let root = s.tags[0].uuid;
    lemma_tag_of(s, 0);
    let first = s.claimed(a, uuid, Some(root));
    law_claim_creates(s, a, uuid, Some(root));
    lemma_claimed(s, a, uuid, Some(root));
    let second = first.claimed(b, uuid, Some(other));
    law_claim_reuses(first, b, uuid, Some(other));
    lemma_claimed(first, b, uuid, Some(other));
    assert forall|h: int| 0 <= h < second.tags.len() implies (#[trigger] second.tags[h]).uuid == (if h < s.tags.len() {
        s.tags[h].uuid
    } else {
        uuid
    }) by {
        assert(second.tags[h].uuid == first.tags[h].uuid);
        if h < s.tags.len() {
            assert(first.tags[h].uuid == s.tags[h].uuid);
        }
    }
    assert(!second.has_tag(other));
    lemma_tag_of(second, 0);
    assert(second.parent_for(declared) == 0) by {
        if let Some(p) = declared {
            if second.has_tag(p) {
                let h = second.tag_of(p);
                assert(second.tags[h].uuid == p);
                assert(h < s.tags.len());
                assert(s.tags[h].uuid == p);
            }
        }
    }
    let r = second.claimed(b, other, declared);
    law_claim_creates(second, b, other, declared);
    lemma_claimed(second, b, other, declared);
    lemma_extends_has_tag(second, r, uuid);
    let t = first.tag_of(uuid);
    assert(second.tag_of(uuid) == t);
    assert(r.tag_of(uuid) == t);
    assert(r.tags[t].parent == second.tags[t].parent);
    assert(second.tags[t].parent == first.tags[t].parent);
    assert(first.tags[t].items.submap_of(second.tags[t].items));
    assert(second.tags[t].items.submap_of(r.tags[t].items));
    assert(first.tags[t].items.dom().contains(first.items[a].uuid));
    assert(second.tags[t].items.dom().contains(second.items[b].uuid));
    assert(second.items[a].uuid == first.items[a].uuid);
    assert(r.items[a].uuid == second.items[a].uuid);
    assert(r.items[b].uuid == second.items[b].uuid);
}

/// An identifier names at most one tag and at most one item.
pub proof fn law_identifier_names_one(s: TreeShape, a: int, b: int)
    requires
        s.wf(),
    ensures
        0 <= a < s.tags.len() && 0 <= b < s.tags.len() && s.tags[a].uuid == s.tags[b].uuid ==> a == b,
        0 <= a < s.items.len() && 0 <= b < s.items.len() && s.items[a].uuid == s.items[b].uuid ==> a == b,
{
}

} // verus!
