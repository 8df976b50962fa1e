use ahafs::attrs::{derive_attributes, NodeKind};
use ahafs::driver::{FilesystemDriver, Step};
use ahafs::errors::FsError;
use ahafs::inode::InodeTable;
use ahafs::loader::{FetchRequest, LoadState};
use ahafs::remote::{RawObject, RemoteObject, ResourceKind};

fn raw(id: &str, name: &str, kind: ResourceKind, body: &[u8]) -> RawObject {
    RawObject {
        id: Some(String::from(id)),
        name: Some(String::from(name)),
        kind: Some(kind),
        body: Some(body.to_vec()),
    }
}

/// Drives the root load with two products and returns their ids.
fn load_root(d: &mut FilesystemDriver) -> (u64, u64) {
    match d.readdir(1) {
        Step::Fetch(FetchRequest::TopLevel) => {},
        _ => panic!("first readdir of the root must fetch the top level"),
    }
    let products = vec![
        raw("p1", "alpha", ResourceKind::Product, b""),
        raw("p2", "beta", ResourceKind::Product, b""),
    ];
    d.complete_load(1, &products).expect("well-formed product batch");
    let id1 = match d.lookup(1, "alpha") {
        Step::Done((id, _)) => id,
        _ => panic!("alpha must be registered"),
    };
    let id2 = match d.lookup(1, "beta") {
        Step::Done((id, _)) => id,
        _ => panic!("beta must be registered"),
    };
    (id1, id2)
}

/// Loads one release under the product and one feature under the
/// release; returns (release id, feature id).
fn load_feature(d: &mut FilesystemDriver, product: u64, body: &[u8]) -> (u64, u64) {
    match d.readdir(product) {
        Step::Fetch(FetchRequest::ChildrenOf { parent_kind, .. }) => {
            assert_eq!(parent_kind, ResourceKind::Product);
        },
        _ => panic!("first readdir of a product must fetch its releases"),
    }
    let releases = vec![raw("r1", "sprint", ResourceKind::Release, b"")];
    d.complete_load(product, &releases).expect("well-formed release batch");
    let release = match d.lookup(product, "sprint") {
        Step::Done((id, _)) => id,
        _ => panic!("sprint must be registered"),
    };
    match d.readdir(release) {
        Step::Fetch(FetchRequest::ChildrenOf { parent_remote_id, parent_kind }) => {
            assert_eq!(parent_remote_id, String::from("r1"));
            assert_eq!(parent_kind, ResourceKind::Release);
        },
        _ => panic!("first readdir of a release must fetch its features and epics"),
    }
    let features = vec![raw("f1", "story", ResourceKind::Feature, body)];
    d.complete_load(release, &features).expect("well-formed feature batch");
    let feature = match d.lookup(release, "story") {
        Step::Done((id, _)) => id,
        _ => panic!("story must be registered"),
    };
    (release, feature)
}

#[test]
fn stable_root_resolves_regardless_of_load_state() {
    let d = FilesystemDriver::new();
    let attr = d.getattr(1).expect("root always resolves");
    assert_eq!(attr.kind, NodeKind::Directory);
    assert_eq!(attr.perm, 0o755);
    assert_eq!(attr.size, 0);
    let mut d = FilesystemDriver::new();
    load_root(&mut d);
    let attr2 = d.getattr(1).expect("root still resolves after loading");
    assert_eq!(attr, attr2);
}

#[test]
fn registration_is_idempotent() {
    let mut t = InodeTable::new();
    let obj = RemoteObject {
        id: String::from("f42"),
        name: String::from("story"),
        kind: ResourceKind::Feature,
        body: b"text".to_vec(),
    };
    let attr = derive_attributes(&obj);
    let first = t.allocate_or_get(1, "story", "f42", ResourceKind::Feature, attr, Some(b"text".to_vec()));
    let len_after_first = t.entries.len();
    let second = t.allocate_or_get(1, "story", "f42", ResourceKind::Feature, attr, Some(b"text".to_vec()));
    assert_eq!(first, second);
    assert_eq!(t.entries.len(), len_after_first);
}

#[test]
fn identifiers_never_collide_across_kinds() {
    let mut t = InodeTable::new();
    let feature = RemoteObject {
        id: String::from("7"),
        name: String::from("story"),
        kind: ResourceKind::Feature,
        body: b"x".to_vec(),
    };
    let epic = RemoteObject {
        id: String::from("7"),
        name: String::from("saga"),
        kind: ResourceKind::Epic,
        body: b"y".to_vec(),
    };
    let a = t.allocate_or_get(1, "story", "7", ResourceKind::Feature, derive_attributes(&feature), Some(b"x".to_vec()));
    let b = t.allocate_or_get(1, "saga", "7", ResourceKind::Epic, derive_attributes(&epic), Some(b"y".to_vec()));
    assert_ne!(a, b);
}

#[test]
fn at_most_one_fetch_per_unloaded_directory() {
    let mut d = FilesystemDriver::new();
    let mut fetches = 0;
    for _ in 0..5 {
        match d.readdir(1) {
            Step::Fetch(_) => fetches += 1,
            Step::Pending => {},
            _ => panic!("an unloaded or loading root yields a fetch or pending"),
        }
    }
    match d.lookup(1, "alpha") {
        Step::Pending => {},
        _ => panic!("a lookup miss under a loading directory joins the fetch"),
    }
    assert_eq!(fetches, 1);
}

#[test]
fn readdir_lists_dot_dotdot_and_children_at_stable_offsets() {
    let mut d = FilesystemDriver::new();
    let (id1, id2) = load_root(&mut d);
    let listing = match d.readdir(1) {
        Step::Done(l) => l,
        _ => panic!("a loaded root lists from cache"),
    };
    assert_eq!(listing.len(), 4);
    assert_eq!(listing[0].name, String::from("."));
    assert_eq!(listing[0].id, 1);
    assert_eq!(listing[0].offset, 0);
    assert_eq!(listing[1].name, String::from(".."));
    assert_eq!(listing[1].id, 1);
    assert_eq!(listing[1].offset, 1);
    assert_eq!(listing[2].name, String::from("alpha"));
    assert_eq!(listing[2].id, id1);
    assert_eq!(listing[2].kind, NodeKind::Directory);
    assert_eq!(listing[2].offset, 2);
    assert_eq!(listing[3].name, String::from("beta"));
    assert_eq!(listing[3].id, id2);
    assert_eq!(listing[3].offset, 3);
    let again = match d.readdir(1) {
        Step::Done(l) => l,
        _ => panic!("a loaded root lists from cache"),
    };
    assert_eq!(again.len(), 4);
    for (row, prev) in again.iter().zip(listing.iter()) {
        assert_eq!(row.id, prev.id);
        assert_eq!(row.offset, prev.offset);
        assert_eq!(row.name, prev.name);
    }
}

#[test]
fn content_is_sliced_and_clipped() {
    let mut d = FilesystemDriver::new();
    let (p1, _) = load_root(&mut d);
    let (release, feature) = load_feature(&mut d, p1, b"abcdef");
    let attr = d.getattr(feature).expect("feature resolves");
    assert_eq!(attr.kind, NodeKind::RegularFile);
    assert_eq!(attr.size, 6);
    assert_eq!(attr.perm, 0o640);
    assert_eq!(d.read(feature, 2, 3), Ok(b"cde".to_vec()));
    assert_eq!(d.read(feature, 5, 10), Ok(b"f".to_vec()));
    assert_eq!(d.read(feature, 6, 1), Ok(Vec::new()));
    assert_eq!(d.read(feature, 0, 6), Ok(b"abcdef".to_vec()));
    assert_eq!(d.read(release, 0, 1), Err(FsError::UnsupportedOperation));
    assert_eq!(d.read(1, 0, 1), Err(FsError::UnsupportedOperation));
    assert_eq!(d.read(999, 0, 1), Err(FsError::NotFound));
}

#[test]
fn failed_fetch_leaves_directory_unloaded_then_retry_succeeds() {
    let mut d = FilesystemDriver::new();
    match d.readdir(1) {
        Step::Fetch(FetchRequest::TopLevel) => {},
        _ => panic!("first attempt fetches"),
    }
    // The stub backend fails its first call.
    d.fail_load(1);
    assert_eq!(d.table.entries.len(), 0, "no partial children are cached");
    // The next access finds the directory Unloaded and fetches again;
    // this time the stub succeeds.
    match d.readdir(1) {
        Step::Fetch(FetchRequest::TopLevel) => {},
        _ => panic!("retry fetches again after a failure"),
    }
    let products = vec![raw("p1", "alpha", ResourceKind::Product, b"")];
    d.complete_load(1, &products).expect("second attempt succeeds");
    let listing = match d.readdir(1) {
        Step::Done(l) => l,
        _ => panic!("loaded after the second attempt"),
    };
    assert_eq!(listing.len(), 3);
    assert_eq!(listing[2].name, String::from("alpha"));
}

#[test]
fn malformed_batches_are_backend_failures_and_register_nothing() {
    // A child without a name.
    let mut d = FilesystemDriver::new();
    match d.readdir(1) {
        Step::Fetch(_) => {},
        _ => panic!("fetch expected"),
    }
    let mut nameless = raw("p1", "alpha", ResourceKind::Product, b"");
    nameless.name = None;
    assert_eq!(d.complete_load(1, &vec![nameless]), Err(FsError::BackendFailure));
    assert_eq!(d.table.entries.len(), 0);

    // Duplicate names within one listing.
    let mut d = FilesystemDriver::new();
    match d.readdir(1) {
        Step::Fetch(_) => {},
        _ => panic!("fetch expected"),
    }
    let twins = vec![
        raw("p1", "alpha", ResourceKind::Product, b""),
        raw("p2", "alpha", ResourceKind::Product, b""),
    ];
    assert_eq!(d.complete_load(1, &twins), Err(FsError::BackendFailure));

    // A kind the directory may not list.
    let mut d = FilesystemDriver::new();
    match d.readdir(1) {
        Step::Fetch(_) => {},
        _ => panic!("fetch expected"),
    }
    let misplaced = vec![raw("r1", "sprint", ResourceKind::Release, b"")];
    assert_eq!(d.complete_load(1, &misplaced), Err(FsError::BackendFailure));

    // A leaf without a body.
    let mut d = FilesystemDriver::new();
    let (p1, _) = load_root(&mut d);
    match d.readdir(p1) {
        Step::Fetch(_) => {},
        _ => panic!("fetch expected"),
    }
    d.complete_load(p1, &vec![raw("r1", "sprint", ResourceKind::Release, b"")])
        .expect("release batch");
    let release = match d.lookup(p1, "sprint") {
        Step::Done((id, _)) => id,
        _ => panic!("sprint registered"),
    };
    match d.readdir(release) {
        Step::Fetch(_) => {},
        _ => panic!("fetch expected"),
    }
    let mut bodyless = raw("f1", "story", ResourceKind::Feature, b"");
    bodyless.body = None;
    assert_eq!(d.complete_load(release, &vec![bodyless]), Err(FsError::BackendFailure));
}

#[test]
fn completing_a_directory_that_is_not_loading_fails() {
    let mut d = FilesystemDriver::new();
    let batch = vec![raw("p1", "alpha", ResourceKind::Product, b"")];
    assert_eq!(d.complete_load(1, &batch), Err(FsError::BackendFailure));
}

#[test]
fn lookup_misses_are_not_found() {
    let mut d = FilesystemDriver::new();
    load_root(&mut d);
    match d.lookup(1, "nope") {
        Step::Fail(e) => assert_eq!(e, FsError::NotFound),
        _ => panic!("a miss under a loaded directory is NotFound"),
    }
    match d.lookup(999, "anything") {
        Step::Fail(e) => assert_eq!(e, FsError::NotFound),
        _ => panic!("an unknown parent is NotFound"),
    }
}

#[test]
fn getattr_of_unknown_identifier_is_not_found() {
    let d = FilesystemDriver::new();
    assert_eq!(d.getattr(999), Err(FsError::NotFound));
}

#[test]
fn readdir_of_a_leaf_is_unsupported() {
    let mut d = FilesystemDriver::new();
    let (p1, _) = load_root(&mut d);
    let (_, feature) = load_feature(&mut d, p1, b"abc");
    match d.readdir(feature) {
        Step::Fail(e) => assert_eq!(e, FsError::UnsupportedOperation),
        _ => panic!("listing a leaf is unsupported"),
    }
    match d.readdir(999) {
        Step::Fail(e) => assert_eq!(e, FsError::NotFound),
        _ => panic!("listing an unknown identifier is NotFound"),
    }
}

#[test]
fn epics_project_as_leaf_files() {
    let mut d = FilesystemDriver::new();
    let (p1, _) = load_root(&mut d);
    match d.readdir(p1) {
        Step::Fetch(_) => {},
        _ => panic!("fetch expected"),
    }
    d.complete_load(p1, &vec![raw("r1", "sprint", ResourceKind::Release, b"")])
        .expect("release batch");
    let release = match d.lookup(p1, "sprint") {
        Step::Done((id, _)) => id,
        _ => panic!("sprint registered"),
    };
    match d.readdir(release) {
        Step::Fetch(_) => {},
        _ => panic!("fetch expected"),
    }
    let batch = vec![
        raw("f1", "story", ResourceKind::Feature, b"feature body"),
        raw("e1", "saga", ResourceKind::Epic, b"epic body"),
    ];
    d.complete_load(release, &batch).expect("mixed feature and epic batch");
    let epic = match d.lookup(release, "saga") {
        Step::Done((id, attr)) => {
            assert_eq!(attr.kind, NodeKind::RegularFile);
            assert_eq!(attr.size, 9);
            id
        },
        _ => panic!("saga registered"),
    };
    assert_eq!(d.read(epic, 0, 100), Ok(b"epic body".to_vec()));
}

#[test]
fn loading_state_is_observable_per_directory() {
    let mut d = FilesystemDriver::new();
    assert_eq!(d.loader.state_of(1), LoadState::Unloaded);
    match d.readdir(1) {
        Step::Fetch(_) => {},
        _ => panic!("fetch expected"),
    }
    assert_eq!(d.loader.state_of(1), LoadState::Loading);
    d.complete_load(1, &vec![raw("p1", "alpha", ResourceKind::Product, b"")])
        .expect("product batch");
    assert_eq!(d.loader.state_of(1), LoadState::Loaded);
}

#[test]
fn empty_listing_is_valid_and_loads() {
    let mut d = FilesystemDriver::new();
    match d.readdir(1) {
        Step::Fetch(_) => {},
        _ => panic!("fetch expected"),
    }
    d.complete_load(1, &Vec::new()).expect("an empty batch is a successful load");
    assert_eq!(d.loader.state_of(1), LoadState::Loaded);
    let listing = match d.readdir(1) {
        Step::Done(l) => l,
        _ => panic!("loaded root lists from cache"),
    };
    assert_eq!(listing.len(), 2);
    assert_eq!(listing[0].name, String::from("."));
    assert_eq!(listing[1].name, String::from(".."));
}

#[test]
fn duplicate_keys_in_one_listing_are_malformed() {
    let mut d = FilesystemDriver::new();
    match d.readdir(1) {
        Step::Fetch(_) => {},
        _ => panic!("fetch expected"),
    }
    let twins = vec![
        raw("p1", "alpha", ResourceKind::Product, b""),
        raw("p1", "beta", ResourceKind::Product, b""),
    ];
    assert_eq!(d.complete_load(1, &twins), Err(FsError::BackendFailure));
    assert_eq!(d.table.entries.len(), 0);
}
