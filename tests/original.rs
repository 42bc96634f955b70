use std::path::PathBuf;

use hyper::header::Connection;

use prox::etag::{alphabet, BASE, MAX_CAP};
use prox::hop::is_hop_header;
use prox::host::Host;
use prox::path::{get_entity_path, is_safe_path};
use prox::root::fix_host_header;

#[test]
fn test_constants() {
    let base = alphabet().len() as u64;
    assert_eq!(base, BASE);

    let max_cap = (::std::u64::MAX as f64).log(base as f64).ceil() as usize;
    assert_eq!(max_cap, MAX_CAP);
}

#[test]
fn test_is_hop_header() {
    let header = Connection::keep_alive();
    assert!(is_hop_header(&format!("{}", header)));
}

#[test]
fn test_is_safe_path() {
    assert!(is_safe_path("/"));
    assert!(is_safe_path("/a/b/c"));
    assert!(!is_safe_path("/../a/b/c"));
    assert!(!is_safe_path("."));
}

#[test]
fn test_get_entity_path() {
    let get = |root: &str, req: &str| get_entity_path(root, req).map(PathBuf::from);
    assert_eq!(get("foo", "/"), Some(PathBuf::from("foo")));
    assert_eq!(get("foo", "/bar"), Some(PathBuf::from("foo/bar")));
    assert_eq!(get("foo", "/../bar"), None);
    assert_eq!(get("foo", "bar"), None);
    assert_eq!(get("foo", "/folder/"), Some(PathBuf::from("foo/folder/")));
    assert_eq!(get(".", "/%E4%B8%AD%E6%96%87.txt"), Some(PathBuf::from("./中文.txt")));
}

#[test]
fn test_fix_host_header() {
    let uri = "http://example.com:3333".parse::<hyper::Uri>().unwrap();
    let authority = uri.host().map(|h| Host::new(h.to_string(), uri.port()));
    let fixed = fix_host_header(Host::new("localhost".to_string(), Some(80)), authority);
    assert_eq!(fixed.hostname(), "example.com");
    assert_eq!(fixed.port(), Some(&3333));
}
