use modsim::http::{looks_like_file, normalize_base_path};

#[test]
fn base_path_normalization() {
    assert_eq!(normalize_base_path(""), None);
    assert_eq!(normalize_base_path("/"), None);
    assert_eq!(normalize_base_path("  "), None);
    assert_eq!(normalize_base_path("modsim").as_deref(), Some("/modsim"));
    assert_eq!(normalize_base_path("/modsim").as_deref(), Some("/modsim"));
    assert_eq!(normalize_base_path("/modsim/").as_deref(), Some("/modsim"));
    assert_eq!(
        normalize_base_path(" /tools/modbus/ ").as_deref(),
        Some("/tools/modbus")
    );
    assert_eq!(normalize_base_path("/{id}"), None);
}

#[test]
fn file_like_paths() {
    assert!(looks_like_file("assets/index-abc.js"));
    assert!(looks_like_file("favicon.ico"));
    assert!(!looks_like_file("devices"));
    assert!(!looks_like_file("some.dir/devices"));
}

#[test]
fn base_path_rejects_pattern_characters() {
    assert_eq!(normalize_base_path("/a?b"), None);
    assert_eq!(normalize_base_path("/a#b"), None);
    assert_eq!(normalize_base_path("x}"), None);
    assert_eq!(normalize_base_path("///"), None);
    assert_eq!(normalize_base_path("//deep//").as_deref(), Some("/deep"));
}

#[test]
fn empty_and_trailing_slash_paths_are_not_files() {
    assert!(!looks_like_file(""));
    assert!(!looks_like_file("assets/"));
    assert!(looks_like_file(".hidden"));
}

use modsim::http::playground_endpoints;

#[test]
fn playground_links_at_the_root() {
    let (e, s) = playground_endpoints("/playground", None, Some("example.org:8080"), None);
    assert_eq!(e, "http://example.org:8080/graphql");
    assert_eq!(s, "ws://example.org:8080/graphql/ws");
}

#[test]
fn playground_links_behind_a_prefix_stripping_proxy() {
    let (e, s) = playground_endpoints("/playground", Some("https"), Some("h"), Some("/modsim/"));
    assert_eq!(e, "https://h/modsim/graphql");
    assert_eq!(s, "wss://h/modsim/graphql/ws");
    // the prefix is already part of the path when the proxy forwards it
    let (e, _) = playground_endpoints("/modsim/playground", None, None, Some("/modsim"));
    assert_eq!(e, "http://localhost/modsim/graphql");
    // a path that does not end in `playground` uses the root directory
    let (e, _) = playground_endpoints("/other", None, None, None);
    assert_eq!(e, "http://localhost/graphql");
}

#[test]
fn normalized_base_path_normalizes_to_itself() {
    for raw in ["modsim", "/modsim/", "//a/b//", "/x.y/z"] {
        let once = normalize_base_path(raw).unwrap();
        assert!(!once.ends_with('/'));
        assert_eq!(normalize_base_path(&once).as_deref(), Some(once.as_str()));
    }
    // whitespace inside the slashes is trimmed only on the first pass
    assert_eq!(normalize_base_path("/ /a").as_deref(), Some("//a"));
    assert_eq!(normalize_base_path("//a").as_deref(), Some("/a"));
}
