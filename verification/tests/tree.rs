use tag_model::identity::Tag as _;
use tag_model::item::Item;
use tag_model::item::{each_claim, ItemData};
use tag_model::proto::root;
use tag_model::proto::Tag as _;
use tag_model::proto::{MapTag, SetTag, ValTag, ValTagBuilder, ValTagBuilderError, VecTag};
use tag_model::tag::Tag;
use tag_model::tree::TagTree;

fn claim(uuid: u128, parent: Option<u128>) -> ValTag<()> {
    ValTag { uuid, parent, val: () }
}

/// root(1) -> drama(2) -> crime(3), root -> comedy(4); items 10 under drama,
/// 11 under crime, 12 unfiled.
fn sample() -> (TagTree<&'static str, &'static str>, [usize; 3], [usize; 3]) {
    let mut tree: TagTree<&str, &str> = TagTree::new_root(root(1), "root");
    let drama = tree.new_child(0, claim(2, Some(1)), "drama");
    let crime = tree.new_child(drama, claim(3, Some(2)), "crime");
    let comedy = tree.new_child(0, claim(4, Some(1)), "comedy");
    let heat = tree.new_item(drama, 10, "heat");
    let seven = tree.new_item(crime, 11, "seven");
    let loose = tree.create_item(12, "loose");
    (tree, [drama, crime, comedy], [heat, seven, loose])
}

#[test]
fn root_is_root() {
    let tree: TagTree<&str, &str> = TagTree::new_root(root(1), "root");
    assert_eq!(tree.root(), 0);
    assert_eq!(tree.tags_len(), 1);
    assert_eq!(tree.items_len(), 0);
    assert!(tree.tag(0).is_root());
    assert!(!tree.tag(0).has_parent());
    assert_eq!(tree.tag(0).uuid(), 1);
    assert_eq!(*tree.tag(0).data(), "root");
    assert_eq!(tree.parent(0), None);
    assert_eq!(tree.tag(0).children_count(), 0);
    assert_eq!(tree.tag(0).items_count(), 0);
}

#[test]
fn handles_count_up() {
    let (tree, [drama, crime, comedy], [heat, seven, loose]) = sample();
    assert_eq!([drama, crime, comedy], [1, 2, 3]);
    assert_eq!([heat, seven, loose], [0, 1, 2]);
    assert_eq!(tree.tags_len(), 4);
    assert_eq!(tree.items_len(), 3);
}

#[test]
fn parent_holds_each_child() {
    let (tree, [drama, crime, comedy], _) = sample();
    for tag in [drama, crime, comedy] {
        let uuid = tree.tag(tag).uuid();
        let parent = tree.tag(tag).parent.unwrap();
        assert_eq!(tree.get_child(parent, uuid), Some(tag));
        assert_eq!(tree.parent(tag), Some(tree.tag(parent).uuid()));
        assert!(tree.tag(tag).has_parent());
        assert!(!tree.tag(tag).is_root());
    }
    assert_eq!(tree.parent(crime), Some(2));
    assert_eq!(tree.parent(drama), Some(1));
    assert_eq!(tree.tag(0).children_count(), 2);
    assert_eq!(tree.tag(drama).children_count(), 1);
    assert_eq!(tree.tag(crime).children_count(), 0);
}

#[test]
fn direct_lookup_sees_one_level() {
    let (tree, [drama, crime, comedy], _) = sample();
    assert_eq!(tree.get_child(0, 2), Some(drama));
    assert_eq!(tree.get_child(0, 4), Some(comedy));
    assert_eq!(tree.get_child(0, 3), None);
    assert_eq!(tree.get_child(drama, 3), Some(crime));
    assert_eq!(tree.get_child(0, 1), None);
    assert_eq!(tree.tag(0).get_child(2), Some(drama));
}

#[test]
fn deep_lookup_finds_any_depth() {
    let (tree, [drama, crime, comedy], _) = sample();
    assert_eq!(tree.get_child_deep(0, 2), Some(drama));
    assert_eq!(tree.get_child_deep(0, 3), Some(crime));
    assert_eq!(tree.get_child_deep(0, 4), Some(comedy));
    assert_eq!(tree.get_child_deep(drama, 3), Some(crime));
}

#[test]
fn deep_lookup_misses_what_was_never_made() {
    let (tree, [drama, _, comedy], _) = sample();
    assert_eq!(tree.get_child_deep(0, 99), None);
    assert_eq!(tree.get_child_deep(0, 0), None);
    assert_eq!(tree.get_child_deep(0, u128::MAX), None);
}

#[test]
fn deep_lookup_stays_below_its_start() {
    let (tree, [drama, crime, comedy], _) = sample();
    assert_eq!(tree.get_child_deep(0, 1), None);
    assert_eq!(tree.get_child_deep(drama, 2), None);
    assert_eq!(tree.get_child_deep(drama, 4), None);
    assert_eq!(tree.get_child_deep(comedy, 3), None);
    assert_eq!(tree.get_child_deep(crime, 3), None);
}

#[test]
fn find_tag_includes_the_root() {
    let (tree, [_, crime, _], _) = sample();
    assert_eq!(tree.find_tag(1), Some(0));
    assert_eq!(tree.find_tag(3), Some(crime));
    assert_eq!(tree.find_tag(99), None);
}

#[test]
fn deep_chain_is_searched_to_the_bottom() {
    let mut tree: TagTree<u32, ()> = TagTree::new_root(root(1000), 0);
    let mut above = 0;
    for depth in 1..200u32 {
        above = tree.new_child(above, claim(1000 + depth as u128, None), depth);
    }
    assert_eq!(tree.get_child_deep(0, 1199), Some(above));
    assert_eq!(*tree.tag(above).data(), 199);
    assert_eq!(tree.get_child_deep(0, 1200), None);
    assert_eq!(tree.get_child_deep(100, 1100), None);
    assert_eq!(tree.get_child_deep(100, 1101), Some(101));
}

#[test]
fn filing_is_two_sided() {
    let (tree, [drama, crime, _], [heat, seven, loose]) = sample();
    assert_eq!(tree.get_item(drama, 10), Some(heat));
    assert_eq!(tree.item(heat).get_tag(2), Some(drama));
    assert_eq!(tree.get_item(crime, 11), Some(seven));
    assert_eq!(tree.item(seven).get_tag(3), Some(crime));
    assert_eq!(tree.get_item(drama, 11), None);
    assert_eq!(tree.item(heat).get_tag(3), None);
    assert_eq!(tree.item(loose).tags_count(), 0);
    assert_eq!(tree.item(heat).tags_count(), 1);
    assert_eq!(tree.tag(drama).items_count(), 1);
    assert_eq!(tree.tag(0).items_count(), 0);
}

#[test]
fn one_sided_steps_add_up() {
    let (mut tree, [_, _, comedy], [_, _, loose]) = sample();
    tree.add_item(comedy, loose);
    assert_eq!(tree.get_item(comedy, 12), Some(loose));
    assert_eq!(tree.item(loose).get_tag(4), None);
    tree.add_tag(loose, comedy);
    assert_eq!(tree.item(loose).get_tag(4), Some(comedy));
    assert_eq!(tree.item(loose).tags_count(), 1);
}

#[test]
fn filing_twice_changes_nothing() {
    let (mut tree, [drama, _, _], [heat, _, _]) = sample();
    tree.file(drama, heat);
    assert_eq!(tree.tag(drama).items_count(), 1);
    assert_eq!(tree.item(heat).tags_count(), 1);
    assert_eq!(tree.get_item(drama, 10), Some(heat));
}

#[test]
fn an_item_can_have_many_tags() {
    let (mut tree, [drama, crime, comedy], [heat, _, _]) = sample();
    tree.file(crime, heat);
    tree.file(comedy, heat);
    assert_eq!(tree.item(heat).tags_count(), 3);
    for (tag, uuid) in [(drama, 2), (crime, 3), (comedy, 4)] {
        assert_eq!(tree.get_item(tag, 10), Some(heat));
        assert_eq!(tree.item(heat).get_tag(uuid), Some(tag));
    }
}

#[test]
fn deep_item_lookup_covers_the_subtree() {
    let (tree, [drama, crime, comedy], [heat, seven, _]) = sample();
    assert_eq!(tree.get_item_deep(0, 10), Some(heat));
    assert_eq!(tree.get_item_deep(0, 11), Some(seven));
    assert_eq!(tree.get_item_deep(drama, 11), Some(seven));
    assert_eq!(tree.get_item_deep(crime, 11), Some(seven));
    assert_eq!(tree.get_item_deep(crime, 10), None);
    assert_eq!(tree.get_item_deep(comedy, 10), None);
    assert_eq!(tree.get_item_deep(0, 12), None);
    assert_eq!(tree.get_item_deep(0, 99), None);
}

#[test]
fn each_child_visits_direct_children_only() {
    let (tree, [drama, _, _], _) = sample();
    let seen = std::cell::RefCell::new(Vec::new());
    let stopped = tree.each_child(0, &|tag: &Tag<&str>| {
        seen.borrow_mut().push(tag.uuid());
        false
    });
    assert!(!stopped);
    let mut seen = seen.into_inner();
    seen.sort();
    assert_eq!(seen, vec![2, 4]);
    assert!(!tree.each_child(drama, &|tag: &Tag<&str>| tag.uuid() == 4));
    assert!(tree.each_child(drama, &|tag: &Tag<&str>| tag.uuid() == 3));
}

#[test]
fn each_child_stops_at_the_first_hit() {
    let (tree, _, _) = sample();
    let calls = std::cell::Cell::new(0);
    let stopped = tree.each_child(0, &|_: &Tag<&str>| {
        calls.set(calls.get() + 1);
        true
    });
    assert!(stopped);
    assert_eq!(calls.get(), 1);
}

#[test]
fn each_child_deep_visits_the_whole_subtree() {
    let (tree, [drama, crime, _], _) = sample();
    let seen = std::cell::RefCell::new(Vec::new());
    assert!(!tree.each_child_deep(0, &|tag: &Tag<&str>| {
        seen.borrow_mut().push(tag.uuid());
        false
    }));
    let mut seen = seen.into_inner();
    seen.sort();
    assert_eq!(seen, vec![2, 3, 4]);
    assert!(tree.each_child_deep(0, &|tag: &Tag<&str>| *tag.data() == "crime"));
    assert!(!tree.each_child_deep(0, &|tag: &Tag<&str>| *tag.data() == "root"));
    assert!(!tree.each_child_deep(crime, &|_: &Tag<&str>| true));
    assert!(tree.each_child_deep(drama, &|tag: &Tag<&str>| tag.uuid() == 3));
}

#[test]
fn each_item_and_its_deep_form() {
    let (tree, [drama, crime, comedy], _) = sample();
    assert!(tree.each_item(drama, &|item: &Item<&str>| item.uuid() == 10));
    assert!(!tree.each_item(drama, &|item: &Item<&str>| item.uuid() == 11));
    assert!(!tree.each_item(0, &|_: &Item<&str>| true));
    assert!(tree.each_item_deep(0, &|item: &Item<&str>| *item.data() == "seven"));
    assert!(tree.each_item_deep(drama, &|item: &Item<&str>| item.uuid() == 11));
    assert!(!tree.each_item_deep(crime, &|item: &Item<&str>| item.uuid() == 10));
    assert!(!tree.each_item_deep(comedy, &|_: &Item<&str>| true));
    assert!(!tree.each_item_deep(0, &|item: &Item<&str>| item.uuid() == 12));
    let count = std::cell::Cell::new(0);
    assert!(!tree.each_item_deep(0, &|_: &Item<&str>| {
        count.set(count.get() + 1);
        false
    }));
    assert_eq!(count.get(), 2);
}

#[test]
fn each_tag_visits_the_classifiers() {
    let (mut tree, [drama, _, comedy], [heat, _, loose]) = sample();
    tree.file(comedy, heat);
    let seen = std::cell::RefCell::new(Vec::new());
    assert!(!tree.each_tag(heat, &|tag: &Tag<&str>| {
        seen.borrow_mut().push(tag.uuid());
        false
    }));
    let mut seen = seen.into_inner();
    seen.sort();
    assert_eq!(seen, vec![2, 4]);
    assert!(tree.each_tag(heat, &|tag: &Tag<&str>| tag.uuid() == 2));
    assert!(!tree.each_tag(loose, &|_: &Tag<&str>| true));
    assert_eq!(tree.get_child(0, 2), Some(drama));
}

#[test]
fn with_forms_hand_over_what_is_found() {
    let (tree, [drama, _, _], [heat, _, _]) = sample();
    let name = |tag: Option<&Tag<&'static str>>| tag.map(|t| *t.data());
    assert_eq!(tree.with_child(0, 2, &name), Some("drama"));
    assert_eq!(tree.with_child(0, 3, &name), None);
    assert_eq!(tree.with_tag(heat, 2, &name), Some("drama"));
    assert_eq!(tree.with_tag(heat, 3, &name), None);
    let title = |item: Option<&Item<&'static str>>| item.map(|i| *i.data());
    assert_eq!(tree.with_item(drama, 10, &title), Some("heat"));
    assert_eq!(tree.with_item(drama, 11, &title), None);
}

#[test]
fn nodes_can_stand_alone() {
    let mut tag: Tag<u8> = Tag::new(claim(5, Some(6)), 9, Some(3));
    assert_eq!(tag.uuid(), 5);
    assert_eq!(tag.parent, Some(3));
    assert_eq!(tag.proto.parent, Some(6));
    assert!(tag.has_parent());
    tag.add_child(7, 4);
    tag.add_child(8, 5);
    tag.add_child(7, 6);
    assert_eq!(tag.children_count(), 2);
    assert_eq!(tag.get_child(7), Some(6));
    assert_eq!(tag.get_child(9), None);
    tag.add_item(1, 0);
    assert_eq!(tag.get_item(1), Some(0));
    assert_eq!(tag.items_count(), 1);
    let mut item: Item<u8> = Item::new(77, 1);
    assert_eq!(item.uuid(), 77);
    assert_eq!(*item.data(), 1);
    assert_eq!(item.tags_count(), 0);
    item.add_tag(5, 2);
    assert_eq!(item.get_tag(5), Some(2));
    assert_eq!(item.get_tag(6), None);
    assert_eq!(item.tags_count(), 1);
}

#[test]
fn value_tags_answer_for_themselves() {
    let lone = ValTag { uuid: 1, parent: None, val: 5i32 };
    let nested = ValTag { uuid: 2, parent: Some(1), val: String::from("x") };
    assert_eq!(lone.uuid(), 1);
    assert!(!lone.has_parent());
    assert!(lone.is_root());
    assert_eq!(lone.parent(), None);
    assert_eq!(nested.uuid(), 2);
    assert!(nested.has_parent());
    assert!(!nested.is_root());
    assert_eq!(nested.parent(), Some(1));
    let seed = root(9);
    assert_eq!(seed, ValTag { uuid: 9, parent: None, val: () });
    assert!(seed.is_root());
}

#[test]
fn builder_needs_identifier_and_payload() {
    assert_eq!(
        ValTagBuilder::new().uuid(1).parent(2).val("x").build(),
        Ok(ValTag { uuid: 1, parent: Some(2), val: "x" })
    );
    assert_eq!(ValTagBuilder::new().val(5u8).uuid(1).build(), Ok(ValTag { uuid: 1, parent: None, val: 5u8 }));
    assert_eq!(ValTagBuilder::<u8>::new().build(), Err(ValTagBuilderError::MissingUuid));
    assert_eq!(ValTagBuilder::new().val(5u8).build(), Err(ValTagBuilderError::MissingUuid));
    assert_eq!(ValTagBuilder::<u8>::new().uuid(1).parent(2).build(), Err(ValTagBuilderError::MissingVal));
    assert_eq!(ValTagBuilder::new().uuid(1).parent(1).val(0u8).build(), Err(ValTagBuilderError::OwnParent));
    assert_eq!(ValTagBuilder::new().uuid(1).uuid(3).val(0u8).build().unwrap().uuid, 3);
}

#[test]
fn tags_carry_collections() {
    let list: VecTag<u8> = ValTag { uuid: 1, parent: None, val: vec![1, 2] };
    let set: SetTag<u8> = ValTag { uuid: 2, parent: Some(1), val: [1u8].into_iter().collect() };
    let map: MapTag<String, i32> = ValTag { uuid: 3, parent: Some(1), val: [("a".to_string(), 1)].into_iter().collect() };
    assert_eq!(list.uuid(), 1);
    assert_eq!(set.parent(), Some(1));
    assert!(map.has_parent());
    assert_eq!(map.val["a"], 1);
}

struct Wishes(Vec<ValTag<()>>);

impl ItemData for Wishes {
    fn tags_count(&self) -> usize {
        self.0.len()
    }

    fn iter_tags(&self) -> Vec<ValTag<()>> {
        self.0.clone()
    }
}

#[test]
fn item_data_offers_its_claims() {
    let wishes = Wishes(vec![claim(2, None), claim(3, Some(2)), claim(4, None)]);
    assert_eq!(wishes.tags_count(), 3);
    let seen = std::cell::RefCell::new(Vec::new());
    assert!(wishes.each_tag(&|tag: &ValTag<()>| {
        seen.borrow_mut().push(tag.uuid);
        tag.parent.is_some()
    }));
    assert_eq!(seen.into_inner(), vec![2, 3]);
    assert!(!wishes.each_tag(&|tag: &ValTag<()>| tag.uuid == 9));
    assert!(!each_claim(&vec![], &|_: &ValTag<()>| true));
    assert!(each_claim(&wishes.0, &|tag: &ValTag<()>| tag.uuid == 4));
}

#[test]
fn nodes_have_no_body() {
    let (tree, _, _) = sample();
    assert!(tree.tag(0).body().is_none());
    assert!(tree.item(0).body().is_none());
}
