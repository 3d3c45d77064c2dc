use tag_model::identity::Tag as _;
use tag_model::item::Item;
use tag_model::proto::{root, ValTag};
use tag_model::tree::TagTree;
use tag_model::volume::{LoadBodyError, Volume};

type Body = Vec<u8>;
type Loaded = Result<Body, LoadBodyError>;

fn known() -> blake3::Hash {
    blake3::hash(b"known")
}

fn missing() -> blake3::Hash {
    blake3::hash(b"missing")
}

fn broken() -> blake3::Hash {
    blake3::hash(b"broken")
}

fn load(prefix: &Vec<u8>, hash: &blake3::Hash) -> Loaded {
    if *hash == known() {
        let mut body = prefix.clone();
        body.extend_from_slice(b"body");
        Ok(body)
    } else if *hash == missing() {
        Err(LoadBodyError::NotFound { hash: *hash })
    } else if *hash == broken() {
        Err(LoadBodyError::IoFailed {
            error: std::io::Error::new(std::io::ErrorKind::TimedOut, "slow"),
            info: String::from("store"),
        })
    } else {
        Err(LoadBodyError::NotSupported { hash: *hash })
    }
}

fn load_later(prefix: &Vec<u8>, hash: &blake3::Hash) -> std::future::Ready<Loaded> {
    std::future::ready(load(prefix, hash))
}

type Sync = fn(&Vec<u8>, &blake3::Hash) -> Loaded;
type Later = fn(&Vec<u8>, &blake3::Hash) -> std::future::Ready<Loaded>;

fn volume() -> Volume<Vec<u8>, &'static str, &'static str, Sync, Later> {
    let mut tree: TagTree<&str, &str> = TagTree::new_root(root(1), "root");
    let drama = tree.new_child(0, ValTag { uuid: 2, parent: Some(1), val: () }, "drama");
    tree.new_child(drama, ValTag { uuid: 3, parent: Some(2), val: () }, "crime");
    tree.new_item(drama, 10, "heat");
    tree.create_item(11, "loose");
    Volume::new(42, b"v:".to_vec(), tree, vec![0], load as Sync, load_later as Later)
}

#[test]
fn unrecognised_hash_is_not_supported() {
    let volume = volume();
    let hash = blake3::hash(b"something else");
    match volume.load_body(&hash) {
        Err(LoadBodyError::NotSupported { hash: named }) => assert_eq!(named, hash),
        other => panic!("expected NotSupported, got {:?}", other),
    }
}

#[test]
fn each_error_comes_through_as_it_is() {
    let volume = volume();
    assert!(matches!(volume.load_body(&missing()), Err(LoadBodyError::NotFound { hash }) if hash == missing()));
    match volume.load_body(&broken()) {
        Err(LoadBodyError::IoFailed { error, info }) => {
            assert_eq!(error.kind(), std::io::ErrorKind::TimedOut);
            assert_eq!(info, "store");
        }
        other => panic!("expected IoFailed, got {:?}", other),
    }
}

#[test]
fn the_loader_is_given_the_volume_data() {
    let volume = volume();
    assert_eq!(volume.load_body(&known()).unwrap(), b"v:body".to_vec());
}

#[test]
fn the_pending_load_resolves_like_the_blocking_one() {
    let volume = volume();
    let runtime = tokio::runtime::Builder::new_current_thread().build().unwrap();
    let body = runtime.block_on(volume.load_body_async(&known())).unwrap();
    assert_eq!(body, b"v:body".to_vec());
    let refused = runtime.block_on(volume.load_body_async(&blake3::hash(b"?")));
    assert!(matches!(refused, Err(LoadBodyError::NotSupported { .. })));
    let abandoned = volume.load_body_async(&missing());
    drop(abandoned);
    assert_eq!(volume.items_count(), 1);
    assert_eq!(volume.tree.tags_len(), 3);
}

#[test]
fn reads_of_a_new_volume() {
    let volume = volume();
    assert_eq!(volume.uuid(), 42);
    assert_eq!(volume.data(), &b"v:".to_vec());
    assert_eq!(volume.root().uuid(), 1);
    assert_eq!(*volume.root().data(), "root");
    assert!(volume.root().is_root());
    assert_eq!(volume.items_count(), 1);
    assert_eq!(*volume.get_item(10).unwrap().data(), "heat");
    assert!(volume.get_item(11).is_none());
    assert!(volume.get_item(99).is_none());
    assert!(volume.has_item(10));
    assert!(!volume.has_item(11));
}

#[test]
fn get_tag_searches_below_the_root() {
    let volume = volume();
    assert_eq!(volume.get_tag(2), Some(1));
    assert_eq!(volume.get_tag(3), Some(2));
    assert_eq!(volume.get_tag(1), None);
    assert_eq!(volume.get_tag(99), None);
}

#[test]
fn registering_items() {
    let mut volume = volume();
    volume.add_item(1);
    assert_eq!(volume.items_count(), 2);
    assert_eq!(*volume.get_item(11).unwrap().data(), "loose");
    volume.add_item(1);
    assert_eq!(volume.items_count(), 2);
    let made = volume.new_item(12, "new");
    assert_eq!(made, 2);
    assert_eq!(volume.items_count(), 3);
    assert_eq!(volume.tree.items_len(), 3);
    assert_eq!(volume.get_item(12).unwrap().uuid(), 12);
    assert_eq!(volume.get_item(12).unwrap().tags_count(), 0);
}

#[test]
fn each_item_walks_the_registry() {
    let mut volume = volume();
    assert!(volume.each_item(&|item: &Item<&str>| item.uuid() == 10));
    assert!(!volume.each_item(&|item: &Item<&str>| item.uuid() == 11));
    volume.add_item(1);
    let seen = std::cell::RefCell::new(Vec::new());
    assert!(!volume.each_item(&|item: &Item<&str>| {
        seen.borrow_mut().push(item.uuid());
        false
    }));
    let mut seen = seen.into_inner();
    seen.sort();
    assert_eq!(seen, vec![10, 11]);
    let calls = std::cell::Cell::new(0);
    assert!(volume.each_item(&|_: &Item<&str>| {
        calls.set(calls.get() + 1);
        true
    }));
    assert_eq!(calls.get(), 1);
}

#[test]
fn with_item_hands_over_the_registered_item() {
    let volume = volume();
    let title = |item: Option<&Item<&'static str>>| item.map(|i| *i.data());
    assert_eq!(volume.with_item(10, &title), Some("heat"));
    assert_eq!(volume.with_item(11, &title), None);
}

#[test]
fn load_item_creates_registers_and_files() {
    let mut volume = volume();
    let claims = vec![
        ValTag { uuid: 3, parent: Some(9), val: () },
        ValTag { uuid: 5, parent: Some(3), val: () },
        ValTag { uuid: 6, parent: Some(9), val: () },
    ];
    let item = volume.load_item(20, "seven", &claims, &|_: u128| "made");
    assert_eq!(item, 2);
    assert_eq!(volume.items_count(), 2);
    assert_eq!(volume.get_item(20).unwrap().tags_count(), 3);
    assert_eq!(volume.tree.tags_len(), 5);
    assert_eq!(volume.tree.parent(2), Some(2));
    assert_eq!(volume.tree.parent(3), Some(3));
    assert_eq!(volume.tree.parent(4), Some(1));
    assert_eq!(*volume.tree.tag(2).data(), "crime");
    assert_eq!(*volume.tree.tag(3).data(), "made");
    assert_eq!(volume.tree.get_item_deep(0, 20), Some(2));
    assert_eq!(volume.tree.get_item(2, 20), Some(2));
}
