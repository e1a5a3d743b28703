use rsoffkv::result::OffkvError;
use rsoffkv::session::{cas_failed, denotes_absent, is_unconditional};
use rsoffkv::store::Store;

#[test]
fn create_then_get_returns_the_same_version_and_value() {
    let mut store = Store::new();
    let version = store.create("/key", &vec![118, 97, 108], false).unwrap();
    let (read_version, read_value) = store.get("/key").unwrap();
    assert_eq!(read_version, version);
    assert_eq!(read_value, vec![118, 97, 108]);
}

#[test]
fn create_fails_on_existing_key_and_missing_parent() {
    let mut store = Store::new();
    store.create("/key", &vec![1], false).unwrap();
    assert_eq!(
        store.create("/key", &vec![2], false),
        Err(OffkvError::EntryExists)
    );
    assert_eq!(
        store.create("/nope/child", &vec![2], false),
        Err(OffkvError::NoEntry)
    );
    assert_eq!(
        store.create("bad-key", &vec![2], false),
        Err(OffkvError::InvalidKey)
    );
}

#[test]
fn create_fails_under_a_leased_parent() {
    let mut store = Store::new();
    store.create("/leased", &vec![1], true).unwrap();
    assert_eq!(
        store.create("/leased/child", &vec![2], false),
        Err(OffkvError::NoChildrenForEphemeral)
    );
}

#[test]
fn set_creates_then_overwrites_with_growing_versions() {
    let mut store = Store::new();
    let v1 = store.set("/key", &vec![1]).unwrap();
    let v2 = store.set("/key", &vec![2]).unwrap();
    assert!(v2 > v1);
    let (version, value) = store.get("/key").unwrap();
    assert_eq!(version, v2);
    assert_eq!(value, vec![2]);
    assert_eq!(
        store.set("/nope/child", &vec![1]),
        Err(OffkvError::NoEntry)
    );
}

#[test]
fn cas_mismatch_is_a_sentinel_no_op() {
    let mut store = Store::new();
    let version = store.create("/key", &vec![1], false).unwrap();
    let answer = store.cas("/key", &vec![2], version + 10).unwrap();
    assert_eq!(answer, 0);
    assert!(cas_failed(answer));
    let (read_version, read_value) = store.get("/key").unwrap();
    assert_eq!(read_version, version);
    assert_eq!(read_value, vec![1]);
}

#[test]
fn cas_match_writes_and_returns_a_strictly_greater_version() {
    let mut store = Store::new();
    let version = store.create("/key", &vec![1], false).unwrap();
    let new_version = store.cas("/key", &vec![2], version).unwrap();
    assert!(!cas_failed(new_version));
    assert!(new_version > version);
    let (read_version, read_value) = store.get("/key").unwrap();
    assert_eq!(read_version, new_version);
    assert_eq!(read_value, vec![2]);
}

#[test]
fn cas_with_zero_creates_an_absent_key() {
    let mut store = Store::new();
    let version = store.cas("/key", &vec![9], 0).unwrap();
    assert!(version > 0);
    assert_eq!(store.get("/key").unwrap(), (version, vec![9]));
    let answer = store.cas("/other", &vec![9], 3).unwrap();
    assert_eq!(answer, 0);
    assert_eq!(store.get("/other"), Err(OffkvError::NoEntry));
}

#[test]
fn erase_removes_the_key_and_all_descendants() {
    let mut store = Store::new();
    store.create("/key", &vec![1], false).unwrap();
    store.create("/key/a", &vec![2], false).unwrap();
    store.create("/key/a/deep", &vec![3], false).unwrap();
    store.create("/keeper", &vec![4], false).unwrap();

    assert!(is_unconditional(0));
    store.erase("/key", 0).unwrap();

    assert_eq!(store.get("/key"), Err(OffkvError::NoEntry));
    assert_eq!(store.get("/key/a"), Err(OffkvError::NoEntry));
    assert_eq!(store.get("/key/a/deep"), Err(OffkvError::NoEntry));
    assert!(store.get("/keeper").is_ok());

    assert_eq!(store.erase("/key", 0), Err(OffkvError::NoEntry));
}

#[test]
fn erase_with_a_mismatched_version_does_nothing() {
    let mut store = Store::new();
    let version = store.create("/key", &vec![1], false).unwrap();
    store.erase("/key", version + 1).unwrap();
    assert_eq!(store.get("/key").unwrap(), (version, vec![1]));
    store.erase("/key", version).unwrap();
    assert_eq!(store.get("/key"), Err(OffkvError::NoEntry));
}

#[test]
fn exists_answers_the_version_or_the_absent_sentinel() {
    let mut store = Store::new();
    let absent = store.exists_version("/key").unwrap();
    assert!(denotes_absent(absent));
    let version = store.create("/key", &vec![1], false).unwrap();
    assert_eq!(store.exists_version("/key").unwrap(), version);
    assert_eq!(
        store.exists_version("bad"),
        Err(OffkvError::InvalidKey)
    );
}

#[test]
fn children_are_direct_only() {
    let mut store = Store::new();
    store.create("/key", &vec![0], false).unwrap();
    store.create("/key/child1", &vec![0], false).unwrap();
    store.create("/key/child2", &vec![0], false).unwrap();
    store.create("/key/child1/not_child", &vec![0], false).unwrap();
    store.create("/other", &vec![0], false).unwrap();

    let mut children = store.get_children("/key").unwrap();
    children.sort();
    assert_eq!(
        children,
        vec![String::from("/key/child1"), String::from("/key/child2")]
    );

    assert_eq!(store.get_children("/nope"), Err(OffkvError::NoEntry));
}
