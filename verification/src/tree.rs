//! The tag tree: the table of tags, the table of items, and the operations
//! that grow and search them.

use crate::identity::Tag as CoreTag;
use crate::item::Item;
use crate::proto::ValTag;
use crate::shape::{
    lemma_descends_from_root, lemma_descends_through, lemma_descends_via_child, lemma_extends_trans,
    lemma_root_only_wf, lemma_tag_of, lemma_with_child_wf,
    lemma_with_classifier_wf, lemma_with_filing_wf, lemma_with_item_wf, lemma_with_membership_wf,
    root_only, TreeShape,
};
use crate::shared_map::{found_in, lookup, table_pairs};
use crate::tag::Tag;
use vstd::prelude::*;

verus! {

/// A tree of tags with the items filed in it.
///
/// The tree owns every tag and every item. A handle is a position in one of
/// its two tables; the root is the tag at handle 0. Handles stay valid for as
/// long as the tree lives: nothing is ever removed or moved.
pub struct TagTree<TD, ID> {
    pub tags: Vec<Tag<TD>>,
    pub items: Vec<Item<ID>>,
}

impl<TD, ID> View for TagTree<TD, ID> {
    type V = TreeShape;

    open spec fn view(&self) -> TreeShape {
        TreeShape {
            tags: Seq::new(self.tags@.len(), |h: int| self.tags@[h].shape()),
            items: Seq::new(self.items@.len(), |i: int| self.items@[i].shape()),
        }
    }
}

impl<TD, ID> TagTree<TD, ID> {
    /// The structural invariant: see [`TreeShape::wf`].
    pub open spec fn wf(&self) -> bool {
        self@.wf()
    }

    /// `self` holds everything that `before` held, with the same data.
    pub open spec fn keeps(&self, before: &Self) -> bool {
        &&& before.tags@.len() <= self.tags@.len()
        &&& before.items@.len() <= self.items@.len()
        &&& forall|h: int|
            0 <= h < before.tags@.len() ==> (#[trigger] self.tags@[h]).data == before.tags@[h].data
                && self.tags@[h].proto == before.tags@[h].proto
        &&& forall|i: int|
            0 <= i < before.items@.len() ==> (#[trigger] self.items@[i]).data == before.items@[i].data
    }

    /// A tree of one tag, the root.
    pub fn new_root(proto: ValTag<()>, data: TD) -> (tree: Self)
        ensures
            tree@ == root_only(proto.uuid),
            tree.wf(),
            tree@.reciprocal(),
            tree.tags@[0].data == data,
            tree.tags@[0].proto == proto,
    {
        let mut tags: Vec<Tag<TD>> = Vec::new();
        tags.push(Tag::new(proto, data, None));
        let tree = TagTree { tags, items: Vec::new() };
        proof {
            assert(tree@ =~~= root_only(proto.uuid));
            lemma_root_only_wf(proto.uuid);
        }
        tree
    }

    /// The handle of the root.
    pub fn root(&self) -> (root: usize)
        ensures
            root == 0,
    {
        0
    }

    /// The number of tags.
    pub fn tags_len(&self) -> (len: usize)
        ensures
            len == self@.tags.len(),
    {
        self.tags.len()
    }

    /// The number of items.
    pub fn items_len(&self) -> (len: usize)
        ensures
            len == self@.items.len(),
    {
        self.items.len()
    }

    /// The tag behind a handle.
    pub fn tag(&self, tag: usize) -> (found: &Tag<TD>)
        requires
            tag < self@.tags.len(),
        ensures
            *found == self.tags@[tag as int],
    {
        &self.tags[tag]
    }

    /// The item behind a handle.
    pub fn item(&self, item: usize) -> (found: &Item<ID>)
        requires
            item < self@.items.len(),
        ensures
            *found == self.items@[item as int],
    {
        &self.items[item]
    }

    /// The identifier of the parent of `tag`, or nothing for the root.
    pub fn parent(&self, tag: usize) -> (parent: Option<u128>)
        requires
            self.wf(),
            tag < self@.tags.len(),
        ensures
            parent == match self@.tags[tag as int].parent {
                Some(p) => Some(self@.tags[p].uuid),
                None => None,
            },
            parent.is_none() <==> tag == 0,
    {
        proof {
            assert(self@.parent_holds(tag as int));
        }
        match self.tags[tag].parent {
            Some(p) => Some(self.tags[p].uuid()),
            None => None,
        }
    }

    /// Creates a tag as a child of `parent`: the parent lists it among its
    /// children and the child points back at the parent.
    pub fn new_child(&mut self, parent: usize, child_proto: ValTag<()>, child_data: TD) -> (child: usize)
        requires
            old(self).wf(),
            parent < old(self)@.tags.len(),
            !old(self)@.has_tag(child_proto.uuid),
        ensures
            final(self)@ == old(self)@.with_child(parent as int, child_proto.uuid),
            final(self).wf(),
            final(self)@.extends(old(self)@),
            old(self)@.reciprocal() ==> final(self)@.reciprocal(),
            child == old(self)@.tags.len(),
            final(self).keeps(old(self)),
            final(self).tags@[child as int].data == child_data,
            final(self).tags@[child as int].proto == child_proto,
    {
        let child = self.tags.len();
        let uuid = child_proto.uuid;
        self.tags[parent].add_child(uuid, child);
        self.tags.push(Tag::new(child_proto, child_data, Some(parent)));
        let grown = self.tags.len();
        proof {
            assert(grown == child + 1);
            assert(self@ =~~= old(self)@.with_child(parent as int, uuid));
            lemma_with_child_wf(old(self)@, parent as int, uuid);
        }
        child
    }

    /// Creates an item that is filed nowhere.
    pub fn create_item(&mut self, item_uuid: u128, item_data: ID) -> (item: usize)
        requires
            old(self).wf(),
            !old(self)@.has_item(item_uuid),
        ensures
            final(self)@ == old(self)@.with_item(item_uuid),
            final(self).wf(),
            final(self)@.extends(old(self)@),
            old(self)@.reciprocal() ==> final(self)@.reciprocal(),
            item == old(self)@.items.len(),
            final(self).keeps(old(self)),
            final(self).items@[item as int].data == item_data,
    {
        let item = self.items.len();
        self.items.push(Item::new(item_uuid, item_data));
        let grown = self.items.len();
        proof {
            assert(grown == item + 1);
            assert(self@ =~~= old(self)@.with_item(item_uuid));
            lemma_with_item_wf(old(self)@, item_uuid);
        }
        item
    }

    /// Files the item under the tag, on the tag's side only.
    pub fn add_item(&mut self, tag: usize, item: usize)
        requires
            old(self).wf(),
            tag < old(self)@.tags.len(),
            item < old(self)@.items.len(),
        ensures
            final(self)@ == old(self)@.with_filing(tag as int, item as int),
            final(self).wf(),
            final(self)@.extends(old(self)@),
            final(self).keeps(old(self)),
    {
        let uuid = self.items[item].uuid();
        self.tags[tag].add_item(uuid, item);
        proof {
            assert(self@ =~~= old(self)@.with_filing(tag as int, item as int));
            lemma_with_filing_wf(old(self)@, tag as int, item as int);
        }
    }

    /// Names the tag among the classifiers of the item, on the item's side
    /// only.
    pub fn add_tag(&mut self, item: usize, tag: usize)
        requires
            old(self).wf(),
            tag < old(self)@.tags.len(),
            item < old(self)@.items.len(),
        ensures
            final(self)@ == old(self)@.with_classifier(item as int, tag as int),
            final(self).wf(),
            final(self)@.extends(old(self)@),
            final(self).keeps(old(self)),
    {
        let uuid = self.tags[tag].uuid();
        self.items[item].add_tag(uuid, tag);
        proof {
            assert(self@ =~~= old(self)@.with_classifier(item as int, tag as int));
            lemma_with_classifier_wf(old(self)@, item as int, tag as int);
        }
    }

    /// Files the item under the tag, on both sides.
    pub fn file(&mut self, tag: usize, item: usize)
        requires
            old(self).wf(),
            tag < old(self)@.tags.len(),
            item < old(self)@.items.len(),
        ensures
            final(self)@ == old(self)@.with_membership(tag as int, item as int),
            final(self).wf(),
            final(self)@.extends(old(self)@),
            old(self)@.reciprocal() ==> final(self)@.reciprocal(),
            final(self).keeps(old(self)),
    {
        self.add_item(tag, item);
        self.add_tag(item, tag);
        proof {
            lemma_with_membership_wf(old(self)@, tag as int, item as int);
        }
    }

    /// Creates an item and files it under the tag, on both sides.
    pub fn new_item(&mut self, tag: usize, item_uuid: u128, item_data: ID) -> (item: usize)
        requires
            old(self).wf(),
            tag < old(self)@.tags.len(),
            !old(self)@.has_item(item_uuid),
        ensures
            final(self)@ == old(self)@.with_item(item_uuid).with_membership(tag as int, item as int),
            final(self).wf(),
            final(self)@.extends(old(self)@),
            old(self)@.reciprocal() ==> final(self)@.reciprocal(),
            item == old(self)@.items.len(),
            final(self).keeps(old(self)),
            final(self).items@[item as int].data == item_data,
    {
        let item = self.create_item(item_uuid, item_data);
        let ghost created = self@;
        self.file(tag, item);
        proof {
            lemma_extends_trans(old(self)@, created, self@);
        }
        item
    }

    /// The handle of the direct child of `tag` with this identifier.
    pub fn get_child(&self, tag: usize, uuid: u128) -> (child: Option<usize>)
        requires
            tag < self@.tags.len(),
        ensures
            found_in(child, self@.tags[tag as int].children, uuid),
    {
        self.tags[tag].get_child(uuid)
    }

    /// The handle of the item with this identifier that is filed directly
    /// under `tag`.
    pub fn get_item(&self, tag: usize, uuid: u128) -> (item: Option<usize>)
        requires
            tag < self@.tags.len(),
        ensures
            found_in(item, self@.tags[tag as int].items, uuid),
    {
        self.tags[tag].get_item(uuid)
    }

    /// The handle of the tag with this identifier anywhere below `tag`, found
    /// by a depth-first search. Identifiers are unique, so there is at most
    /// one such tag.
    pub fn get_child_deep(&self, tag: usize, uuid: u128) -> (found: Option<usize>)
        requires
            self.wf(),
            tag < self@.tags.len(),
        ensures
            match found {
                Some(d) => d < self@.tags.len() && self@.tags[d as int].uuid == uuid && self@.descends(
                    d as int,
                    tag as int,
                ),
                None => forall|d: int| self@.descends(d, tag as int) ==> (#[trigger] self@.tags[d]).uuid != uuid,
            },
        decreases self@.tags.len() - tag,
    {
        let direct = self.tags[tag].get_child(uuid);
        if let Some(child) = direct {
            proof {
                assert(self@.tags[tag as int].children.contains_key(uuid));
                assert(self@.child_belongs(tag as int, uuid));
            }
            return Some(child);
        }
        let kids = table_pairs(&self.tags[tag].children);
        let mut at: usize = 0;
        while at < kids.len()
            invariant
                self.wf(),
                tag < self@.tags.len(),
                at <= kids@.len(),
                forall|j: int|
                    0 <= j < kids@.len() ==> self@.tags[tag as int].children.contains_pair((#[trigger] kids@[j]).0, kids@[j].1 as int),
                forall|j: int, d: int|
                    0 <= j < at && self@.within(d, (#[trigger] kids@[j]).1 as int) ==> (#[trigger] self@.tags[d]).uuid
                        != uuid,
                !self@.tags[tag as int].children.contains_key(uuid),
            decreases kids@.len() - at,
        {
            let child = kids[at].1;
            proof {
                assert(self@.tags[tag as int].children.contains_key(kids@[at as int].0));
                assert(self@.child_belongs(tag as int, kids@[at as int].0));
            }
            let below = self.get_child_deep(child, uuid);
            if let Some(d) = below {
                proof {
                    lemma_descends_through(self@, d as int, child as int, tag as int);
                }
                return Some(d);
            }
            at = at + 1;
        }
        proof {
            assert forall|d: int| self@.descends(d, tag as int) implies (#[trigger] self@.tags[d]).uuid != uuid by {
                let c = lemma_descends_via_child(self@, d, tag as int);
                let key = self@.tags[c].uuid;
                let j = choose|j: int| 0 <= j < kids@.len() && (#[trigger] kids@[j]).0 == key;
                assert(kids@[j].1 == c);
            }
        }
        None
    }

    /// The handle of the tag with this identifier anywhere in the tree, the
    /// root included.
    pub fn find_tag(&self, uuid: u128) -> (found: Option<usize>)
        requires
            self.wf(),
        ensures
            found == if self@.has_tag(uuid) {
                Some(self@.tag_of(uuid) as usize)
            } else {
                None
            },
            found matches Some(t) ==> t < self@.tags.len() && self@.tags[t as int].uuid == uuid,
    {
        if self.tags[0].uuid() == uuid {
            proof {
                lemma_tag_of(self@, 0);
            }
            return Some(0);
        }
        let found = self.get_child_deep(0, uuid);
        proof {
            match found {
                Some(t) => {
                    lemma_tag_of(self@, t as int);
                },
                None => {
                    assert forall|h: int| 0 <= h < self@.tags.len() implies (#[trigger] self@.tags[h]).uuid != uuid by {
                        if h > 0 {
                            lemma_descends_from_root(self@, h);
                        }
                    }
                },
            }
        }
        found
    }

    /// The handle of the item with this identifier that is filed under `tag`
    /// or under any tag below it, found by a depth-first search.
    pub fn get_item_deep(&self, tag: usize, uuid: u128) -> (found: Option<usize>)
        requires
            self.wf(),
            tag < self@.tags.len(),
        ensures
            match found {
                Some(i) => i < self@.items.len() && self@.items[i as int].uuid == uuid && exists|t: int|
                    self@.within(t, tag as int) && 0 <= t < self@.tags.len() && #[trigger] self@.filed(t, i as int),
                None => forall|t: int|
                    self@.within(t, tag as int) && 0 <= t < self@.tags.len() ==> !(#[trigger] self@.tags[t]).items.contains_key(uuid),
            },
        decreases self@.tags.len() - tag,
    {
        let direct = self.tags[tag].get_item(uuid);
        if let Some(item) = direct {
            proof {
                assert(self@.tags[tag as int].items.contains_key(uuid));
                assert(self@.filed_is_item(tag as int, uuid));
                assert(self@.filed(tag as int, item as int));
            }
            return Some(item);
        }
        let kids = table_pairs(&self.tags[tag].children);
        let mut at: usize = 0;
        while at < kids.len()
            invariant
                self.wf(),
                tag < self@.tags.len(),
                at <= kids@.len(),
                forall|j: int|
                    0 <= j < kids@.len() ==> self@.tags[tag as int].children.contains_pair((#[trigger] kids@[j]).0, kids@[j].1 as int),
                forall|j: int, t: int|
                    0 <= j < at && self@.within(t, (#[trigger] kids@[j]).1 as int) && 0 <= t < self@.tags.len()
                        ==> !(#[trigger] self@.tags[t]).items.contains_key(uuid),
            decreases kids@.len() - at,
        {
            let child = kids[at].1;
            proof {
                assert(self@.tags[tag as int].children.contains_key(kids@[at as int].0));
                assert(self@.child_belongs(tag as int, kids@[at as int].0));
            }
            let below = self.get_item_deep(child, uuid);
            if let Some(item) = below {
                proof {
                    let t = choose|t: int|
                        self@.within(t, child as int) && 0 <= t < self@.tags.len() && #[trigger] self@.filed(
                            t,
                            item as int,
                        );
                    lemma_descends_through(self@, t, child as int, tag as int);
                }
                return Some(item);
            }
            at = at + 1;
        }
        proof {
            assert forall|t: int| self@.within(t, tag as int) && 0 <= t < self@.tags.len() implies !(
            #[trigger] self@.tags[t]).items.contains_key(uuid) by {
                if t != tag {
                    let c = lemma_descends_via_child(self@, t, tag as int);
                    let key = self@.tags[c].uuid;
                    let j = choose|j: int| 0 <= j < kids@.len() && (#[trigger] kids@[j]).0 == key;
                    assert(kids@[j].1 == c);
                }
            }
        }
        None
    }

    /// The callback may be called on every tag of the tree.
    pub open spec fn accepts_tags<F: Fn(&Tag<TD>) -> bool>(&self, callback: &F) -> bool {
        forall|h: int| 0 <= h < self.tags@.len() ==> call_requires(*callback, (&#[trigger] self.tags@[h],))
    }

    /// The callback may be called on every item of the tree.
    pub open spec fn accepts_items<F: Fn(&Item<ID>) -> bool>(&self, callback: &F) -> bool {
        forall|i: int| 0 <= i < self.items@.len() ==> call_requires(*callback, (&#[trigger] self.items@[i],))
    }

    /// The callback, called on tag `h`, may give this answer.
    pub open spec fn tag_answers<F: Fn(&Tag<TD>) -> bool>(&self, callback: &F, h: int, answer: bool) -> bool {
        call_ensures(*callback, (&self.tags@[h],), answer)
    }

    /// The callback, called on item `i`, may give this answer.
    pub open spec fn item_answers<F: Fn(&Item<ID>) -> bool>(&self, callback: &F, i: int, answer: bool) -> bool {
        call_ensures(*callback, (&self.items@[i],), answer)
    }

    /// Calls the callback on the direct children of `tag`, in no particular
    /// order, until it answers `true` for one of them; says whether it did.
    pub fn each_child<F: Fn(&Tag<TD>) -> bool>(&self, tag: usize, callback: &F) -> (stopped: bool)
        requires
            self.wf(),
            tag < self@.tags.len(),
            self.accepts_tags(callback),
        ensures
            stopped ==> exists|c: int|
                0 <= c < self@.tags.len() && self@.tags[c].parent == Some(tag as int) && #[trigger] self.tag_answers(callback, c, true),
            !stopped ==> forall|c: int|
                0 <= c < self@.tags.len() && self@.tags[c].parent == Some(tag as int) ==> #[trigger] self.tag_answers(callback, c, false),
    {
        let kids = table_pairs(&self.tags[tag].children);
        let mut at: usize = 0;
        while at < kids.len()
            invariant
                self.wf(),
                tag < self@.tags.len(),
                self.accepts_tags(callback),
                at <= kids@.len(),
                forall|j: int|
                    0 <= j < kids@.len() ==> self@.tags[tag as int].children.contains_pair((#[trigger] kids@[j]).0, kids@[j].1 as int),
                forall|j: int|
                    0 <= j < at ==> self.tag_answers(callback, (#[trigger] kids@[j]).1 as int, false),
            decreases kids@.len() - at,
        {
            let child = kids[at].1;
            proof {
                assert(self@.tags[tag as int].children.contains_key(kids@[at as int].0));
                assert(self@.child_belongs(tag as int, kids@[at as int].0));
            }
            let hit = callback(&self.tags[child]);
            if hit {
                proof {
                    assert(self.tag_answers(callback, child as int, true));
                }
                return true;
            }
            assert(self.tag_answers(callback, child as int, false));
            at = at + 1;
        }
        proof {
            assert forall|c: int|
                0 <= c < self@.tags.len() && self@.tags[c].parent == Some(tag as int) implies #[trigger] self.tag_answers(callback, c, false) by {
                assert(self@.parent_holds(c));
                let key = self@.tags[c].uuid;
                let j = choose|j: int| 0 <= j < kids@.len() && (#[trigger] kids@[j]).0 == key;
                assert(kids@[j].1 == c);
            }
        }
        false
    }

    /// Calls the callback on the direct child of `tag` with this identifier,
    /// or on nothing if there is none, and hands back what it answers.
    pub fn with_child<O, F: Fn(Option<&Tag<TD>>) -> O>(&self, tag: usize, uuid: u128, callback: &F) -> (answer: O)
        requires
            self.wf(),
            tag < self@.tags.len(),
            call_requires(*callback, (None::<&Tag<TD>>,)),
            forall|h: int| 0 <= h < self.tags@.len() ==> call_requires(*callback, (Some(&#[trigger] self.tags@[h]),)),
        ensures
            match lookup(self@.tags[tag as int].children, uuid) {
                Some(c) => call_ensures(*callback, (Some(&self.tags@[c]),), answer),
                None => call_ensures(*callback, (None::<&Tag<TD>>,), answer),
            },
    {
        match self.tags[tag].get_child(uuid) {
            None => callback(None),
            Some(child) => {
                proof {
                    assert(self@.tags[tag as int].children.contains_key(uuid));
                    assert(self@.child_belongs(tag as int, uuid));
                }
                callback(Some(&self.tags[child]))
            },
        }
    }

    /// Calls the callback on the items filed directly under `tag`, in no
    /// particular order, until it answers `true` for one of them; says
    /// whether it did.
    pub fn each_item<F: Fn(&Item<ID>) -> bool>(&self, tag: usize, callback: &F) -> (stopped: bool)
        requires
            self.wf(),
            tag < self@.tags.len(),
            self.accepts_items(callback),
        ensures
            stopped ==> exists|i: int|
                0 <= i < self@.items.len() && self@.filed(tag as int, i) && #[trigger] self.item_answers(callback, i, true),
            !stopped ==> forall|i: int|
                0 <= i < self@.items.len() && self@.filed(tag as int, i) ==> #[trigger] self.item_answers(callback, i, false),
    {
        let filed = table_pairs(&self.tags[tag].items);
        let mut at: usize = 0;
        while at < filed.len()
            invariant
                self.wf(),
                tag < self@.tags.len(),
                self.accepts_items(callback),
                at <= filed@.len(),
                forall|j: int|
                    0 <= j < filed@.len() ==> self@.tags[tag as int].items.contains_pair((#[trigger] filed@[j]).0, filed@[j].1 as int),
                forall|j: int|
                    0 <= j < at ==> self.item_answers(callback, (#[trigger] filed@[j]).1 as int, false),
            decreases filed@.len() - at,
        {
            let item = filed[at].1;
            proof {
                assert(self@.tags[tag as int].items.contains_key(filed@[at as int].0));
                assert(self@.filed_is_item(tag as int, filed@[at as int].0));
                assert(self@.filed(tag as int, item as int));
            }
            let hit = callback(&self.items[item]);
            if hit {
                proof {
                    assert(self.item_answers(callback, item as int, true));
                }
                return true;
            }
            assert(self.item_answers(callback, item as int, false));
            at = at + 1;
        }
        proof {
            assert forall|i: int|
                0 <= i < self@.items.len() && self@.filed(tag as int, i) implies #[trigger] self.item_answers(callback, i, false) by {
                let key = self@.items[i].uuid;
                let j = choose|j: int| 0 <= j < filed@.len() && (#[trigger] filed@[j]).0 == key;
                assert(filed@[j].1 == i);
            }
        }
        false
    }

    /// Calls the callback on the item with this identifier that is filed
    /// directly under `tag`, or on nothing if there is none, and hands back
    /// what it answers.
    pub fn with_item<O, F: Fn(Option<&Item<ID>>) -> O>(&self, tag: usize, uuid: u128, callback: &F) -> (answer: O)
        requires
            self.wf(),
            tag < self@.tags.len(),
            call_requires(*callback, (None::<&Item<ID>>,)),
            forall|i: int| 0 <= i < self.items@.len() ==> call_requires(*callback, (Some(&#[trigger] self.items@[i]),)),
        ensures
            match lookup(self@.tags[tag as int].items, uuid) {
                Some(i) => call_ensures(*callback, (Some(&self.items@[i]),), answer),
                None => call_ensures(*callback, (None::<&Item<ID>>,), answer),
            },
    {
        match self.tags[tag].get_item(uuid) {
            None => callback(None),
            Some(item) => {
                proof {
                    assert(self@.tags[tag as int].items.contains_key(uuid));
                    assert(self@.filed_is_item(tag as int, uuid));
                }
                callback(Some(&self.items[item]))
            },
        }
    }

    /// Calls the callback on the tags that classify `item`, in no particular
    /// order, until it answers `true` for one of them; says whether it did.
    pub fn each_tag<F: Fn(&Tag<TD>) -> bool>(&self, item: usize, callback: &F) -> (stopped: bool)
        requires
            self.wf(),
            item < self@.items.len(),
            self.accepts_tags(callback),
        ensures
            stopped ==> exists|t: int|
                0 <= t < self@.tags.len() && self@.classified(item as int, t) && #[trigger] self.tag_answers(callback, t, true),
            !stopped ==> forall|t: int|
                0 <= t < self@.tags.len() && self@.classified(item as int, t) ==> #[trigger] self.tag_answers(callback, t, false),
    {
        let named = table_pairs(&self.items[item].tags);
        let mut at: usize = 0;
        while at < named.len()
            invariant
                self.wf(),
                item < self@.items.len(),
                self.accepts_tags(callback),
                at <= named@.len(),
                forall|j: int|
                    0 <= j < named@.len() ==> self@.items[item as int].tags.contains_pair((#[trigger] named@[j]).0, named@[j].1 as int),
                forall|j: int|
                    0 <= j < at ==> self.tag_answers(callback, (#[trigger] named@[j]).1 as int, false),
            decreases named@.len() - at,
        {
            let tag = named[at].1;
            proof {
                assert(self@.items[item as int].tags.contains_key(named@[at as int].0));
                assert(self@.classifier_is_tag(item as int, named@[at as int].0));
                assert(self@.classified(item as int, tag as int));
            }
            let hit = callback(&self.tags[tag]);
            if hit {
                proof {
                    assert(self.tag_answers(callback, tag as int, true));
                }
                return true;
            }
            assert(self.tag_answers(callback, tag as int, false));
            at = at + 1;
        }
        proof {
            assert forall|t: int|
                0 <= t < self@.tags.len() && self@.classified(item as int, t) implies #[trigger] self.tag_answers(callback, t, false) by {
                let key = self@.tags[t].uuid;
                let j = choose|j: int| 0 <= j < named@.len() && (#[trigger] named@[j]).0 == key;
                assert(named@[j].1 == t);
            }
        }
        false
    }

    /// Calls the callback on the tag with this identifier that classifies
    /// `item`, or on nothing if there is none, and hands back what it answers.
    pub fn with_tag<O, F: Fn(Option<&Tag<TD>>) -> O>(&self, item: usize, uuid: u128, callback: &F) -> (answer: O)
        requires
            self.wf(),
            item < self@.items.len(),
            call_requires(*callback, (None::<&Tag<TD>>,)),
            forall|h: int| 0 <= h < self.tags@.len() ==> call_requires(*callback, (Some(&#[trigger] self.tags@[h]),)),
        ensures
            match lookup(self@.items[item as int].tags, uuid) {
                Some(t) => call_ensures(*callback, (Some(&self.tags@[t]),), answer),
                None => call_ensures(*callback, (None::<&Tag<TD>>,), answer),
            },
    {
        match self.items[item].get_tag(uuid) {
            None => callback(None),
            Some(tag) => {
                proof {
                    assert(self@.items[item as int].tags.contains_key(uuid));
                    assert(self@.classifier_is_tag(item as int, uuid));
                }
                callback(Some(&self.tags[tag]))
            },
        }
    }

    /// Calls the callback on the tags below `tag`, depth first, until it
    /// answers `true` for one of them; says whether it did.
    pub fn each_child_deep<F: Fn(&Tag<TD>) -> bool>(&self, tag: usize, callback: &F) -> (stopped: bool)
        requires
            self.wf(),
            tag < self@.tags.len(),
            self.accepts_tags(callback),
        ensures
            stopped ==> exists|d: int|
                self@.descends(d, tag as int) && #[trigger] self.tag_answers(callback, d, true),
            !stopped ==> forall|d: int|
                self@.descends(d, tag as int) ==> #[trigger] self.tag_answers(callback, d, false),
        decreases self@.tags.len() - tag,
    {
        let kids = table_pairs(&self.tags[tag].children);
        let mut at: usize = 0;
        while at < kids.len()
            invariant
                self.wf(),
                tag < self@.tags.len(),
                self.accepts_tags(callback),
                at <= kids@.len(),
                forall|j: int|
                    0 <= j < kids@.len() ==> self@.tags[tag as int].children.contains_pair((#[trigger] kids@[j]).0, kids@[j].1 as int),
                forall|j: int, d: int|
                    0 <= j < at && self@.within(d, (#[trigger] kids@[j]).1 as int) ==> #[trigger] self.tag_answers(callback, d, false),
            decreases kids@.len() - at,
        {
            let child = kids[at].1;
            proof {
                assert(self@.tags[tag as int].children.contains_key(kids@[at as int].0));
                assert(self@.child_belongs(tag as int, kids@[at as int].0));
            }
            let hit = callback(&self.tags[child]);
            if hit {
                proof {
                    lemma_descends_through(self@, child as int, child as int, tag as int);
                    assert(self.tag_answers(callback, child as int, true));
                }
                return true;
            }
            assert(self.tag_answers(callback, child as int, false));
            if self.each_child_deep(child, callback) {
                proof {
                    let d = choose|d: int|
                        self@.descends(d, child as int) && #[trigger] self.tag_answers(callback, d, true);
                    lemma_descends_through(self@, d, child as int, tag as int);
                }
                return true;
            }
            at = at + 1;
        }
        proof {
            assert forall|d: int| self@.descends(d, tag as int) implies #[trigger] self.tag_answers(callback, d, false) by {
                let c = lemma_descends_via_child(self@, d, tag as int);
                let key = self@.tags[c].uuid;
                let j = choose|j: int| 0 <= j < kids@.len() && (#[trigger] kids@[j]).0 == key;
                assert(kids@[j].1 == c);
            }
        }
        false
    }

    /// Calls the callback on the items filed under `tag` and then, depth
    /// first, on those filed under the tags below it, until it answers `true`
    /// for one of them; says whether it did.
    pub fn each_item_deep<F: Fn(&Item<ID>) -> bool>(&self, tag: usize, callback: &F) -> (stopped: bool)
        requires
            self.wf(),
            tag < self@.tags.len(),
            self.accepts_items(callback),
        ensures
            stopped ==> exists|t: int, i: int|
                self@.within(t, tag as int) && 0 <= t < self@.tags.len() && 0 <= i < self@.items.len()
                    && #[trigger] self@.filed(t, i) && self.item_answers(callback, i, true),
            !stopped ==> forall|t: int, i: int|
                self@.within(t, tag as int) && 0 <= t < self@.tags.len() && 0 <= i < self@.items.len()
                    && #[trigger] self@.filed(t, i) ==> self.item_answers(callback, i, false),
        decreases self@.tags.len() - tag,
    {
        if self.each_item(tag, callback) {
            proof {
                let i = choose|i: int|
                    0 <= i < self@.items.len() && self@.filed(tag as int, i) && #[trigger] self.item_answers(callback, i, true);
                assert(self@.filed(tag as int, i));
            }
            return true;
        }
        let kids = table_pairs(&self.tags[tag].children);
        let mut at: usize = 0;
        while at < kids.len()
            invariant
                self.wf(),
                tag < self@.tags.len(),
                self.accepts_items(callback),
                at <= kids@.len(),
                forall|j: int|
                    0 <= j < kids@.len() ==> self@.tags[tag as int].children.contains_pair((#[trigger] kids@[j]).0, kids@[j].1 as int),
                forall|j: int, t: int, i: int|
                    0 <= j < at && self@.within(t, (#[trigger] kids@[j]).1 as int) && 0 <= t < self@.tags.len() && 0
                        <= i < self@.items.len() && #[trigger] self@.filed(t, i) ==> self.item_answers(callback, i, false),
            decreases kids@.len() - at,
        {
            let child = kids[at].1;
            proof {
                assert(self@.tags[tag as int].children.contains_key(kids@[at as int].0));
                assert(self@.child_belongs(tag as int, kids@[at as int].0));
            }
            if self.each_item_deep(child, callback) {
                proof {
                    let (t, i) = choose|t: int, i: int|
                        self@.within(t, child as int) && 0 <= t < self@.tags.len() && 0 <= i < self@.items.len()
                            && #[trigger] self@.filed(t, i) && self.item_answers(callback, i, true);
                    lemma_descends_through(self@, t, child as int, tag as int);
                    assert(self@.filed(t, i));
                }
                return true;
            }
            at = at + 1;
        }
        proof {
            assert forall|t: int, i: int|
                self@.within(t, tag as int) && 0 <= t < self@.tags.len() && 0 <= i < self@.items.len()
                    && #[trigger] self@.filed(t, i) implies self.item_answers(callback, i, false) by {
                if t != tag {
                    let c = lemma_descends_via_child(self@, t, tag as int);
                    let key = self@.tags[c].uuid;
                    let j = choose|j: int| 0 <= j < kids@.len() && (#[trigger] kids@[j]).0 == key;
                    assert(kids@[j].1 == c);
                }
            }
        }
        false
    }
}

} // verus!
