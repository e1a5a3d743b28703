use rsoffkv::address::{check_address, validate_open};
use rsoffkv::keys::{check_key, is_child, is_descendant, parent_of, str_eq};
use rsoffkv::result::OffkvError;
use rsoffkv::session::validate_key;

#[test]
fn well_formed_keys_pass() {
    assert!(check_key("/key"));
    assert!(check_key("/key/child"));
    assert!(check_key("/a/b/c/d"));
    assert!(check_key("/x1/_y-2"));
}

#[test]
fn malformed_keys_fail() {
    assert!(!check_key(""));
    assert!(!check_key("/"));
    assert!(!check_key("key"));
    assert!(!check_key("key/"));
    assert!(!check_key("/key/"));
    assert!(!check_key("//key"));
    assert!(!check_key("/key//child"));
    assert!(!check_key("/k\u{00e9}y"));
    assert!(!check_key("/k\u{0000}y"));
}

#[test]
fn validate_key_reports_invalid_key() {
    assert_eq!(validate_key("/key"), Ok(()));
    assert_eq!(validate_key("key"), Err(OffkvError::InvalidKey));
}

#[test]
fn parent_of_cuts_at_the_last_slash() {
    assert_eq!(parent_of("/key"), String::from(""));
    assert_eq!(parent_of("/key/child"), String::from("/key"));
    assert_eq!(parent_of("/a/b/c"), String::from("/a/b"));
}

#[test]
fn descendant_and_child_relations() {
    assert!(is_descendant("/a/b", "/a"));
    assert!(is_descendant("/a/b/c", "/a"));
    assert!(!is_descendant("/a", "/a"));
    assert!(!is_descendant("/ab", "/a"));
    assert!(is_child("/a/b", "/a"));
    assert!(!is_child("/a/b/c", "/a"));
    assert!(is_child("/a/b/c", "/a/b"));
}

#[test]
fn string_equality_helper_compares_contents() {
    assert!(str_eq("/key", "/key"));
    assert!(!str_eq("/key", "/kez"));
    assert!(!str_eq("/key", "/key2"));
    assert!(str_eq("", ""));
}

#[test]
fn supported_addresses_pass() {
    assert!(check_address("zk://localhost:2181"));
    assert!(check_address("consul://localhost:8500"));
    assert!(check_address("etcd://127.0.0.1:2379"));
}

#[test]
fn malformed_addresses_fail() {
    assert!(!check_address(""));
    assert!(!check_address("zk://"));
    assert!(!check_address("zk://localhost"));
    assert!(!check_address("zk://:2181"));
    assert!(!check_address("zk://localhost:"));
    assert!(!check_address("zk://localhost:port"));
    assert!(!check_address("http://localhost:2181"));
    assert!(!check_address("zklocalhost:2181"));
}

#[test]
fn validate_open_reports_address_then_prefix() {
    assert_eq!(validate_open("zk://localhost:2181", ""), Ok(()));
    assert_eq!(validate_open("zk://localhost:2181", "/prefix"), Ok(()));
    assert_eq!(
        validate_open("nope://localhost:2181", "/prefix"),
        Err(OffkvError::InvalidAddress)
    );
    assert_eq!(
        validate_open("zk://localhost:2181", "prefix"),
        Err(OffkvError::InvalidKey)
    );
}
