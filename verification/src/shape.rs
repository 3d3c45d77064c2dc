//! The mathematical model of a tag tree and its item memberships.
//!
//! A tree is a flat table of tags and a flat table of items; handles are
//! positions in those tables, here as mathematical integers. The root is the
//! tag at handle 0, every other tag names its parent by handle, and a parent
//! is always older than its children.

use vstd::prelude::*;

verus! {

/// One tag: its identifier, the handle of its parent, and the handles of its
/// children and of the items filed under it, each keyed by identifier.
#[verifier::ext_equal]
pub ghost struct TagShape {
    pub uuid: u128,
    pub parent: Option<int>,
    pub children: Map<u128, int>,
    pub items: Map<u128, int>,
}

/// One item: its identifier and the handles of the tags that classify it.
#[verifier::ext_equal]
pub ghost struct ItemShape {
    pub uuid: u128,
    pub tags: Map<u128, int>,
}

/// A tag tree with the items filed in it.
#[verifier::ext_equal]
pub ghost struct TreeShape {
    pub tags: Seq<TagShape>,
    pub items: Seq<ItemShape>,
}

impl TreeShape {
    /// Some tag carries this identifier.
    pub open spec fn has_tag(self, uuid: u128) -> bool {
        exists|h: int| 0 <= h < self.tags.len() && (#[trigger] self.tags[h]).uuid == uuid
    }

    /// The handle of the tag that carries this identifier.
    pub open spec fn tag_of(self, uuid: u128) -> int {
        choose|h: int| 0 <= h < self.tags.len() && (#[trigger] self.tags[h]).uuid == uuid
    }

    /// Some item carries this identifier.
    pub open spec fn has_item(self, uuid: u128) -> bool {
        exists|i: int| 0 <= i < self.items.len() && (#[trigger] self.items[i]).uuid == uuid
    }

    /// The handle of the item that carries this identifier.
    pub open spec fn item_of(self, uuid: u128) -> int {
        choose|i: int| 0 <= i < self.items.len() && (#[trigger] self.items[i]).uuid == uuid
    }

    /// Tag `h` points up at an older tag that lists it among its children.
    pub open spec fn parent_holds(self, h: int) -> bool {
        match self.tags[h].parent {
            Some(p) => 0 <= p < h && self.tags[p].children.contains_pair(self.tags[h].uuid, h),
            None => h == 0,
        }
    }

    /// The entry `key` of the children of `p` is a younger tag with that
    /// identifier which points back at `p`.
    pub open spec fn child_belongs(self, p: int, key: u128) -> bool {
        let c = self.tags[p].children[key];
        &&& p < c < self.tags.len()
        &&& self.tags[c].uuid == key
        &&& self.tags[c].parent == Some(p)
    }

    /// The entry `key` of the items of `t` is an item with that identifier.
    pub open spec fn filed_is_item(self, t: int, key: u128) -> bool {
        let i = self.tags[t].items[key];
        0 <= i < self.items.len() && self.items[i].uuid == key
    }

    /// The entry `key` of the tags of `i` is a tag with that identifier.
    pub open spec fn classifier_is_tag(self, i: int, key: u128) -> bool {
        let t = self.items[i].tags[key];
        0 <= t < self.tags.len() && self.tags[t].uuid == key
    }

    /// No table of the tree holds more than finitely many entries.
    pub open spec fn finite(self) -> bool {
        &&& forall|h: int| 0 <= h < self.tags.len() ==> (#[trigger] self.tags[h]).children.dom().finite()
        &&& forall|h: int| 0 <= h < self.tags.len() ==> (#[trigger] self.tags[h]).items.dom().finite()
        &&& forall|i: int| 0 <= i < self.items.len() ==> (#[trigger] self.items[i]).tags.dom().finite()
    }

    /// The structural invariant of a tree: there is a root; every tag but the
    /// root has a parent that holds it, and whatever a tag holds as a child
    /// has that tag as its parent; what a tag holds as an item is an item,
    /// what an item holds as a tag is a tag, each under its own identifier;
    /// and no two tags and no two items share an identifier.
    pub open spec fn wf(self) -> bool {
        &&& 1 <= self.tags.len()
        &&& self.finite()
        &&& forall|h: int| 0 <= h < self.tags.len() ==> #[trigger] self.parent_holds(h)
        &&& forall|p: int, key: u128|
            0 <= p < self.tags.len() && #[trigger] self.tags[p].children.contains_key(key)
                ==> self.child_belongs(p, key)
        &&& forall|a: int, b: int|
            0 <= a < self.tags.len() && 0 <= b < self.tags.len()
                && (#[trigger] self.tags[a]).uuid == (#[trigger] self.tags[b]).uuid ==> a == b
        &&& forall|t: int, key: u128|
            0 <= t < self.tags.len() && #[trigger] self.tags[t].items.contains_key(key)
                ==> self.filed_is_item(t, key)
        &&& forall|i: int, key: u128|
            0 <= i < self.items.len() && #[trigger] self.items[i].tags.contains_key(key)
                ==> self.classifier_is_tag(i, key)
        &&& forall|a: int, b: int|
            0 <= a < self.items.len() && 0 <= b < self.items.len()
                && (#[trigger] self.items[a]).uuid == (#[trigger] self.items[b]).uuid ==> a == b
    }

    /// Item `i` is filed under tag `t`.
    pub open spec fn filed(self, t: int, i: int) -> bool {
        self.tags[t].items.contains_pair(self.items[i].uuid, i)
    }

    /// Item `i` names tag `t` among its classifiers.
    pub open spec fn classified(self, i: int, t: int) -> bool {
        self.items[i].tags.contains_pair(self.tags[t].uuid, t)
    }

    /// Every filing is known to both sides: an item is filed under exactly
    /// the tags that it names.
    pub open spec fn reciprocal(self) -> bool {
        forall|t: int, i: int|
            0 <= t < self.tags.len() && 0 <= i < self.items.len()
                ==> (#[trigger] self.filed(t, i) <==> #[trigger] self.classified(i, t))
    }

    /// Tag `d` lies strictly below tag `anc`.
    pub open spec fn descends(self, d: int, anc: int) -> bool
        decreases d,
    {
        if 0 <= d < self.tags.len() {
            match self.tags[d].parent {
                Some(p) => p == anc || (0 <= p < d && self.descends(p, anc)),
                None => false,
            }
        } else {
            false
        }
    }

    /// Tag `d` is `top` or lies below it.
    pub open spec fn within(self, d: int, top: int) -> bool {
        d == top || self.descends(d, top)
    }

    /// Nothing of `before` was removed or moved: every tag and item of it is
    /// still there under its handle, with its identifier, its parent, its
    /// children, its items and its classifiers.
    pub open spec fn extends(self, before: TreeShape) -> bool {
        &&& before.tags.len() <= self.tags.len()
        &&& before.items.len() <= self.items.len()
        &&& forall|h: int|
            0 <= h < before.tags.len() ==> {
                &&& (#[trigger] self.tags[h]).uuid == before.tags[h].uuid
                &&& self.tags[h].parent == before.tags[h].parent
                &&& before.tags[h].children.submap_of(self.tags[h].children)
                &&& before.tags[h].items.submap_of(self.tags[h].items)
            }
        &&& forall|i: int|
            0 <= i < before.items.len() ==> {
                &&& (#[trigger] self.items[i]).uuid == before.items[i].uuid
                &&& before.items[i].tags.submap_of(self.items[i].tags)
            }
    }

    /// The handle under which a tag that declares this parent is created: the
    /// declared parent if there is such a tag, else the root.
    pub open spec fn parent_for(self, declared: Option<u128>) -> int {
        match declared {
            Some(p) => if self.has_tag(p) {
                self.tag_of(p)
            } else {
                0
            },
            None => 0,
        }
    }

    /// The tree in which a tag with this identifier exists: as it is if there
    /// is one already, whatever parent is declared now; else with a new tag
    /// below the declared parent or the root.
    pub open spec fn resolved(self, uuid: u128, declared: Option<u128>) -> TreeShape {
        if self.has_tag(uuid) {
            self
        } else {
            self.with_child(self.parent_for(declared), uuid)
        }
    }

    /// The tree after item `i` has claimed a tag: the tag is resolved and the
    /// item is filed under it, on both sides.
    pub open spec fn claimed(self, i: int, uuid: u128, declared: Option<u128>) -> TreeShape {
        let with_tag = self.resolved(uuid, declared);
        with_tag.with_membership(with_tag.tag_of(uuid), i)
    }

    /// The tree after item `i` has claimed each of these tags in turn.
    pub open spec fn claimed_all(self, i: int, claims: Seq<(u128, Option<u128>)>) -> TreeShape
        decreases claims.len(),
    {
        if claims.len() == 0 {
            self
        } else {
            self.claimed_all(i, claims.drop_last()).claimed(i, claims.last().0, claims.last().1)
        }
    }

    /// The tree with one more tag, a child of `p`.
    pub open spec fn with_child(self, p: int, uuid: u128) -> TreeShape {
        let fresh = TagShape { uuid, parent: Some(p), children: Map::empty(), items: Map::empty() };
        let above = self.tags[p];
        let above = TagShape { children: above.children.insert(uuid, self.tags.len() as int), ..above };
        TreeShape { tags: self.tags.update(p, above).push(fresh), items: self.items }
    }

    /// The tree with one more item, filed nowhere.
    pub open spec fn with_item(self, uuid: u128) -> TreeShape {
        TreeShape { tags: self.tags, items: self.items.push(ItemShape { uuid, tags: Map::empty() }) }
    }

    /// The tree in which tag `t` also lists item `i`.
    pub open spec fn with_filing(self, t: int, i: int) -> TreeShape {
        let tag = self.tags[t];
        let tag = TagShape { items: tag.items.insert(self.items[i].uuid, i), ..tag };
        TreeShape { tags: self.tags.update(t, tag), items: self.items }
    }

    /// The tree in which item `i` also names tag `t`.
    pub open spec fn with_classifier(self, i: int, t: int) -> TreeShape {
        let item = self.items[i];
        let item = ItemShape { tags: item.tags.insert(self.tags[t].uuid, t), ..item };
        TreeShape { tags: self.tags, items: self.items.update(i, item) }
    }

    /// The tree in which item `i` is filed under tag `t`, on both sides.
    pub open spec fn with_membership(self, t: int, i: int) -> TreeShape {
        self.with_filing(t, i).with_classifier(i, t)
    }
}

/// A tree of one tag, the root, and no item.
pub open spec fn root_only(uuid: u128) -> TreeShape {
    TreeShape {
        tags: seq![TagShape { uuid, parent: None, children: Map::empty(), items: Map::empty() }],
        items: Seq::empty(),
    }
}

/// A tree of one tag is well formed.
pub proof fn lemma_root_only_wf(uuid: u128)
    ensures
        root_only(uuid).wf(),
        root_only(uuid).reciprocal(),
{
}

/// A handle that carries an identifier is the handle of that identifier.
pub proof fn lemma_tag_of(s: TreeShape, h: int)
    requires
        s.wf(),
        0 <= h < s.tags.len(),
    ensures
        s.has_tag(s.tags[h].uuid),
        s.tag_of(s.tags[h].uuid) == h,
{
}

/// A new tag with a new identifier, below a tag of the tree, keeps the tree
/// well formed and removes nothing.
pub proof fn lemma_with_child_wf(s: TreeShape, p: int, uuid: u128)
    requires
        s.wf(),
        0 <= p < s.tags.len(),
        !s.has_tag(uuid),
    ensures
        s.with_child(p, uuid).wf(),
        s.with_child(p, uuid).extends(s),
        s.reciprocal() ==> s.with_child(p, uuid).reciprocal(),
{
    let r = s.with_child(p, uuid);
    let n = s.tags.len() as int;
    assert forall|h: int| 0 <= h < n implies s.tags[h].children.submap_of((#[trigger] r.tags[h]).children) by {
        if h == p && s.tags[h].children.contains_key(uuid) {
            assert(s.child_belongs(h, uuid));
        }
    }
    assert forall|h: int| 0 <= h < r.tags.len() implies #[trigger] r.parent_holds(h) by {
        if h < n {
            assert(s.parent_holds(h));
        }
    }
    assert forall|q: int, key: u128|
        0 <= q < r.tags.len() && #[trigger] r.tags[q].children.contains_key(key) implies r.child_belongs(q, key) by {
        if q < n && s.tags[q].children.contains_key(key) {
            assert(s.child_belongs(q, key));
        }
    }
    assert forall|a: int, b: int|
        0 <= a < r.tags.len() && 0 <= b < r.tags.len() && (#[trigger] r.tags[a]).uuid == (#[trigger] r.tags[b]).uuid
        implies a == b by {
        if a < n {
            assert(s.tags[a].uuid == r.tags[a].uuid);
        }
        if b < n {
            assert(s.tags[b].uuid == r.tags[b].uuid);
        }
    }
    assert forall|t: int, key: u128|
        0 <= t < r.tags.len() && #[trigger] r.tags[t].items.contains_key(key) implies r.filed_is_item(t, key) by {
        assert(s.tags[t].items.contains_key(key));
        assert(s.filed_is_item(t, key));
    }
    assert forall|i: int, key: u128|
        0 <= i < r.items.len() && #[trigger] r.items[i].tags.contains_key(key) implies r.classifier_is_tag(i, key) by {
        assert(s.items[i].tags.contains_key(key));
        assert(s.classifier_is_tag(i, key));
    }
    if s.reciprocal() {
        assert forall|t: int, i: int| 0 <= t < r.tags.len() && 0 <= i < r.items.len() implies (#[trigger] r.filed(t, i)
            <==> #[trigger] r.classified(i, t)) by {
            if t < n {
                assert(s.filed(t, i) <==> s.classified(i, t));
            } else {
                if r.classified(i, t) {
                    assert(s.items[i].tags.contains_key(uuid));
                    assert(s.classifier_is_tag(i, uuid));
                }
            }
        }
    }
}

/// A new item with a new identifier keeps the tree well formed and removes
/// nothing.
pub proof fn lemma_with_item_wf(s: TreeShape, uuid: u128)
    requires
        s.wf(),
        !s.has_item(uuid),
    ensures
        s.with_item(uuid).wf(),
        s.with_item(uuid).extends(s),
        s.reciprocal() ==> s.with_item(uuid).reciprocal(),
{
    let r = s.with_item(uuid);
    let n = s.items.len() as int;
    assert forall|h: int| 0 <= h < r.tags.len() implies #[trigger] r.parent_holds(h) by {
        assert(s.parent_holds(h));
    }
    assert forall|q: int, key: u128|
        0 <= q < r.tags.len() && #[trigger] r.tags[q].children.contains_key(key) implies r.child_belongs(q, key) by {
        assert(s.child_belongs(q, key));
    }
    assert forall|t: int, key: u128|
        0 <= t < r.tags.len() && #[trigger] r.tags[t].items.contains_key(key) implies r.filed_is_item(t, key) by {
        assert(s.filed_is_item(t, key));
    }
    assert forall|i: int, key: u128|
        0 <= i < r.items.len() && #[trigger] r.items[i].tags.contains_key(key) implies r.classifier_is_tag(i, key) by {
        if i < n {
            assert(s.items[i].tags.contains_key(key));
            assert(s.classifier_is_tag(i, key));
        }
    }
    assert forall|a: int, b: int|
        0 <= a < r.items.len() && 0 <= b < r.items.len() && (#[trigger] r.items[a]).uuid == (#[trigger] r.items[b]).uuid
        implies a == b by {
        if a < n {
            assert(s.items[a].uuid == r.items[a].uuid);
        }
        if b < n {
            assert(s.items[b].uuid == r.items[b].uuid);
        }
    }
    if s.reciprocal() {
        assert forall|t: int, i: int| 0 <= t < r.tags.len() && 0 <= i < r.items.len() implies (#[trigger] r.filed(t, i)
            <==> #[trigger] r.classified(i, t)) by {
            if i < n {
                assert(s.filed(t, i) <==> s.classified(i, t));
            } else {
                if r.filed(t, i) {
                    assert(s.tags[t].items.contains_key(uuid));
                    assert(s.filed_is_item(t, uuid));
                }
            }
        }
    }
}

/// Filing on the tag's side keeps the tree well formed and removes nothing.
pub proof fn lemma_with_filing_wf(s: TreeShape, t: int, i: int)
    requires
        s.wf(),
        0 <= t < s.tags.len(),
        0 <= i < s.items.len(),
    ensures
        s.with_filing(t, i).wf(),
        s.with_filing(t, i).extends(s),
{
    let r = s.with_filing(t, i);
    assert forall|h: int| 0 <= h < s.tags.len() implies s.tags[h].items.submap_of((#[trigger] r.tags[h]).items) by {
        let key = s.items[i].uuid;
        if h == t && s.tags[h].items.contains_key(key) {
            assert(s.filed_is_item(h, key));
        }
    }
    assert forall|h: int| 0 <= h < r.tags.len() implies #[trigger] r.parent_holds(h) by {
        assert(s.parent_holds(h));
    }
    assert forall|q: int, key: u128|
        0 <= q < r.tags.len() && #[trigger] r.tags[q].children.contains_key(key) implies r.child_belongs(q, key) by {
        assert(s.tags[q].children.contains_key(key));
        assert(s.child_belongs(q, key));
    }
    assert forall|a: int, b: int|
        0 <= a < r.tags.len() && 0 <= b < r.tags.len() && (#[trigger] r.tags[a]).uuid == (#[trigger] r.tags[b]).uuid
        implies a == b by {
        assert(s.tags[a].uuid == r.tags[a].uuid);
        assert(s.tags[b].uuid == r.tags[b].uuid);
    }
    assert forall|q: int, key: u128|
        0 <= q < r.tags.len() && #[trigger] r.tags[q].items.contains_key(key) implies r.filed_is_item(q, key) by {
        if s.tags[q].items.contains_key(key) {
            assert(s.filed_is_item(q, key));
        }
    }
    assert forall|j: int, key: u128|
        0 <= j < r.items.len() && #[trigger] r.items[j].tags.contains_key(key) implies r.classifier_is_tag(j, key) by {
        assert(s.classifier_is_tag(j, key));
    }
}

/// Filing on the item's side keeps the tree well formed and removes nothing.
pub proof fn lemma_with_classifier_wf(s: TreeShape, i: int, t: int)
    requires
        s.wf(),
        0 <= t < s.tags.len(),
        0 <= i < s.items.len(),
    ensures
        s.with_classifier(i, t).wf(),
        s.with_classifier(i, t).extends(s),
{
    let r = s.with_classifier(i, t);
    assert forall|j: int| 0 <= j < s.items.len() implies s.items[j].tags.submap_of((#[trigger] r.items[j]).tags) by {
        let key = s.tags[t].uuid;
        if j == i && s.items[j].tags.contains_key(key) {
            assert(s.classifier_is_tag(j, key));
        }
    }
    assert forall|h: int| 0 <= h < r.tags.len() implies #[trigger] r.parent_holds(h) by {
        assert(s.parent_holds(h));
    }
    assert forall|q: int, key: u128|
        0 <= q < r.tags.len() && #[trigger] r.tags[q].children.contains_key(key) implies r.child_belongs(q, key) by {
        assert(s.child_belongs(q, key));
    }
    assert forall|q: int, key: u128|
        0 <= q < r.tags.len() && #[trigger] r.tags[q].items.contains_key(key) implies r.filed_is_item(q, key) by {
        assert(s.filed_is_item(q, key));
    }
    assert forall|j: int, key: u128|
        0 <= j < r.items.len() && #[trigger] r.items[j].tags.contains_key(key) implies r.classifier_is_tag(j, key) by {
        if s.items[j].tags.contains_key(key) {
            assert(s.classifier_is_tag(j, key));
        }
    }
    assert forall|a: int, b: int|
        0 <= a < r.items.len() && 0 <= b < r.items.len() && (#[trigger] r.items[a]).uuid == (#[trigger] r.items[b]).uuid
        implies a == b by {
        assert(s.items[a].uuid == r.items[a].uuid);
        assert(s.items[b].uuid == r.items[b].uuid);
    }
}

/// Filing an item on both sides keeps every filing known to both sides.
pub proof fn lemma_with_membership_wf(s: TreeShape, t: int, i: int)
    requires
        s.wf(),
        0 <= t < s.tags.len(),
        0 <= i < s.items.len(),
    ensures
        s.with_membership(t, i).wf(),
        s.with_membership(t, i).extends(s),
        s.reciprocal() ==> s.with_membership(t, i).reciprocal(),
        s.with_membership(t, i).filed(t, i),
        s.with_membership(t, i).classified(i, t),
{
    let m = s.with_filing(t, i);
    lemma_with_filing_wf(s, t, i);
    lemma_with_classifier_wf(m, i, t);
    let r = s.with_membership(t, i);
    if s.reciprocal() {
        assert forall|q: int, j: int| 0 <= q < r.tags.len() && 0 <= j < r.items.len() implies (#[trigger] r.filed(q, j)
            <==> #[trigger] r.classified(j, q)) by {
            assert(s.filed(q, j) <==> s.classified(j, q));
            if q == t && j != i {
                assert(s.items[j].uuid != s.items[i].uuid);
            }
            if j == i && q != t {
                assert(s.tags[q].uuid != s.tags[t].uuid);
            }
        }
    }
}

/// Whatever lies below a child of `h` lies below `h`.
pub proof fn lemma_descends_through(s: TreeShape, d: int, c: int, h: int)
    requires
        s.wf(),
        0 <= c < s.tags.len(),
        s.tags[c].parent == Some(h),
        0 <= h < s.tags.len(),
        s.within(d, c),
    ensures
        s.descends(d, h),
    decreases d,
{
    if d == c {
        assert(s.descends(c, h));
    } else {
        assert(0 <= d < s.tags.len());
        assert(s.parent_holds(d));
        let p = s.tags[d].parent.unwrap();
        if p == c {
            assert(s.descends(p, h));
        } else {
            lemma_descends_through(s, p, c, h);
        }
        assert(s.descends(d, h));
    }
}

/// Whatever lies below `h` is a child of `h` or lies below one: the child is
/// handed back.
pub proof fn lemma_descends_via_child(s: TreeShape, d: int, h: int) -> (c: int)
    requires
        s.wf(),
        0 <= h < s.tags.len(),
        s.descends(d, h),
    ensures
        0 <= c < s.tags.len(),
        s.tags[c].parent == Some(h),
        s.tags[h].children.contains_pair(s.tags[c].uuid, c),
        s.within(d, c),
    decreases d,
{
    assert(s.parent_holds(d));
    let p = s.tags[d].parent.unwrap();
    if p == h {
        d
    } else {
        lemma_descends_via_child(s, p, h)
    }
}

/// A tag lies above whatever lies below it: it is older, and both exist.
pub proof fn lemma_descends_order(s: TreeShape, d: int, h: int)
    requires
        s.wf(),
        s.descends(d, h),
    ensures
        0 <= h < d < s.tags.len(),
    decreases d,
{
    assert(s.parent_holds(d));
    let p = s.tags[d].parent.unwrap();
    if p != h {
        lemma_descends_order(s, p, h);
    }
}

/// Every tag but the root lies below the root.
pub proof fn lemma_descends_from_root(s: TreeShape, h: int)
    requires
        s.wf(),
        0 < h < s.tags.len(),
    ensures
        s.descends(h, 0),
    decreases h,
{
    assert(s.parent_holds(h));
    let p = s.tags[h].parent.unwrap();
    if p != 0 {
        lemma_descends_from_root(s, p);
    }
}

/// A part of a part is a part.
pub proof fn lemma_submap_trans(a: Map<u128, int>, b: Map<u128, int>, c: Map<u128, int>)
    requires
        a.submap_of(b),
        b.submap_of(c),
    ensures
        a.submap_of(c),
{
    assert forall|key: u128| #[trigger] a.dom().contains(key) implies c.dom().contains(key) && a[key] == c[key] by {
        assert(b.dom().contains(key));
    }
}

/// To extend is transitive.
pub proof fn lemma_extends_trans(a: TreeShape, b: TreeShape, c: TreeShape)
    requires
        b.extends(a),
        c.extends(b),
    ensures
        c.extends(a),
{
    assert forall|h: int| 0 <= h < a.tags.len() implies {
        &&& (#[trigger] c.tags[h]).uuid == a.tags[h].uuid
        &&& c.tags[h].parent == a.tags[h].parent
        &&& a.tags[h].children.submap_of(c.tags[h].children)
        &&& a.tags[h].items.submap_of(c.tags[h].items)
    } by {
        assert(b.tags[h].uuid == a.tags[h].uuid);
        lemma_submap_trans(a.tags[h].children, b.tags[h].children, c.tags[h].children);
        lemma_submap_trans(a.tags[h].items, b.tags[h].items, c.tags[h].items);
    }
    assert forall|i: int| 0 <= i < a.items.len() implies {
        &&& (#[trigger] c.items[i]).uuid == a.items[i].uuid
        &&& a.items[i].tags.submap_of(c.items[i].tags)
    } by {
        assert(b.items[i].uuid == a.items[i].uuid);
        lemma_submap_trans(a.items[i].tags, b.items[i].tags, c.items[i].tags);
    }
}

/// A tree that extends another has every tag of the other, under the same
/// handle.
pub proof fn lemma_extends_has_tag(a: TreeShape, b: TreeShape, uuid: u128)
    requires
        a.wf(),
        b.wf(),
        b.extends(a),
        a.has_tag(uuid),
    ensures
        b.has_tag(uuid),
        b.tag_of(uuid) == a.tag_of(uuid),
{
    let h = a.tag_of(uuid);
    assert(b.tags[h].uuid == uuid);
}

/// Resolving a tag keeps the tree well formed, removes nothing, and leaves
/// the tag in the tree.
pub proof fn lemma_resolved(s: TreeShape, uuid: u128, declared: Option<u128>)
    requires
        s.wf(),
    ensures
        s.resolved(uuid, declared).wf(),
        s.resolved(uuid, declared).extends(s),
        s.resolved(uuid, declared).items == s.items,
        s.reciprocal() ==> s.resolved(uuid, declared).reciprocal(),
        s.resolved(uuid, declared).has_tag(uuid),
        0 <= s.resolved(uuid, declared).tag_of(uuid) < s.resolved(uuid, declared).tags.len(),
        s.resolved(uuid, declared).tags[s.resolved(uuid, declared).tag_of(uuid)].uuid == uuid,
        !s.has_tag(uuid) ==> s.resolved(uuid, declared).tag_of(uuid) == s.tags.len(),
        s.has_tag(uuid) ==> s.resolved(uuid, declared).tag_of(uuid) == s.tag_of(uuid),
        s.tags.len() <= s.resolved(uuid, declared).tags.len() <= s.tags.len() + 1,
        0 <= s.parent_for(declared) < s.tags.len(),
{
    if let Some(p) = declared {
        if s.has_tag(p) {
        }
    }
    if !s.has_tag(uuid) {
        let p = s.parent_for(declared);
        lemma_with_child_wf(s, p, uuid);
        let r = s.with_child(p, uuid);
        lemma_tag_of(r, s.tags.len() as int);
    }
}

/// A claim keeps the tree well formed and two-sided, removes nothing, and
/// leaves the item filed under the claimed tag.
pub proof fn lemma_claimed(s: TreeShape, i: int, uuid: u128, declared: Option<u128>)
    requires
        s.wf(),
        0 <= i < s.items.len(),
    ensures
        s.claimed(i, uuid, declared).wf(),
        s.claimed(i, uuid, declared).extends(s),
        s.claimed(i, uuid, declared).tags.len() == s.resolved(uuid, declared).tags.len(),
        s.claimed(i, uuid, declared).items.len() == s.items.len(),
        s.reciprocal() ==> s.claimed(i, uuid, declared).reciprocal(),
        s.claimed(i, uuid, declared).has_tag(uuid),
        s.claimed(i, uuid, declared).tag_of(uuid) == s.resolved(uuid, declared).tag_of(uuid),
        s.claimed(i, uuid, declared).filed(s.claimed(i, uuid, declared).tag_of(uuid), i),
        s.claimed(i, uuid, declared).classified(i, s.claimed(i, uuid, declared).tag_of(uuid)),
{
    lemma_resolved(s, uuid, declared);
    let r = s.resolved(uuid, declared);
    let t = r.tag_of(uuid);
    lemma_with_membership_wf(r, t, i);
    let c = r.with_membership(t, i);
    lemma_extends_trans(s, r, c);
    lemma_extends_has_tag(r, c, uuid);
}

} // verus!
