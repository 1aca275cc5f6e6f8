use gitlocalstats::cache::cached_repositories;
use gitlocalstats::scanner::{is_ignored, is_repo_marker, repo_kind, DiscoveredSet, RepoKind};

fn rel(parts: &[&str]) -> Vec<String> {
    parts.iter().map(|p| p.to_string()).collect()
}

#[test]
fn ignored_names() {
    assert!(is_ignored("node_modules"));
    assert!(is_ignored("vendor"));
    assert!(!is_ignored("src"));
    assert!(!is_ignored("vendors"));
    assert!(!is_ignored(""));
}

#[test]
fn marker_names_must_be_directories() {
    assert!(is_repo_marker(".git", true));
    assert!(is_repo_marker(".jj", true));
    assert!(!is_repo_marker(".git", false));
    assert!(!is_repo_marker(".gitignore", true));
    assert!(!is_repo_marker("git", true));
}

#[test]
fn native_marker_wins() {
    assert_eq!(repo_kind(true, true), Some(RepoKind::NativeFormat));
    assert_eq!(repo_kind(true, false), Some(RepoKind::NativeFormat));
    assert_eq!(repo_kind(false, true), Some(RepoKind::LogSubprocess));
    assert_eq!(repo_kind(false, false), None);
}

#[test]
fn native_marker_records_its_parent() {
    let mut set = DiscoveredSet::new();
    assert!(!set.record_entry(&rel(&["my-repo"]), true, "/root".to_string()));
    assert!(set.record_entry(&rel(&["my-repo", ".git"]), true, "/root/my-repo".to_string()));
    assert_eq!(set.len(), 1);
    assert_eq!(set.into_paths(), vec!["/root/my-repo".to_string()]);
}

#[test]
fn log_marker_records_its_parent() {
    let mut set = DiscoveredSet::new();
    assert!(set.record_entry(&rel(&["jj-repo", ".jj"]), true, "/root/jj-repo".to_string()));
    assert_eq!(set.into_paths(), vec!["/root/jj-repo".to_string()]);
}

#[test]
fn both_markers_record_one_path() {
    let mut set = DiscoveredSet::new();
    assert!(set.record_entry(&rel(&["dual-repo", ".jj"]), true, "/r/dual-repo".to_string()));
    assert!(!set.record_entry(&rel(&["dual-repo", ".git"]), true, "/r/dual-repo".to_string()));
    assert_eq!(set.len(), 1);
    assert!(set.contains("/r/dual-repo"));
}

#[test]
fn marker_files_are_not_repositories() {
    let mut set = DiscoveredSet::new();
    assert!(!set.record_entry(&rel(&["sub", ".git"]), false, "/r/sub".to_string()));
    assert_eq!(set.len(), 0);
}

#[test]
fn markers_below_node_modules_are_ignored() {
    let mut set = DiscoveredSet::new();
    assert!(!set.record_entry(&rel(&["node_modules", "dep", ".git"]), true, "/r/node_modules/dep".to_string()));
    assert_eq!(set.len(), 0);
}

#[test]
fn markers_below_vendor_are_ignored() {
    let mut set = DiscoveredSet::new();
    assert!(!set.record_entry(&rel(&["a", "vendor", "dep", ".git"]), true, "/r/a/vendor/dep".to_string()));
    assert_eq!(set.len(), 0);
}

#[test]
fn from_paths_drops_repeats() {
    let set = DiscoveredSet::from_paths(vec!["/a".to_string(), "/b".to_string(), "/a".to_string()]);
    assert_eq!(set.len(), 2);
    assert!(set.contains("/a"));
    assert!(set.contains("/b"));
    assert!(!set.contains("/c"));
}

#[test]
fn cache_round_trip_returns_the_same_paths() {
    let set = DiscoveredSet::from_paths(vec!["/home/u/Repos/a".to_string(), "/home/u/Repos/b".to_string()]);
    let bytes = set.to_cache_bytes();
    assert_eq!(bytes, br#"["/home/u/Repos/a","/home/u/Repos/b"]"#.to_vec());
    let back = cached_repositories(false, Some(&bytes)).unwrap();
    assert_eq!(back, set.paths());
}

#[test]
fn corrupt_cache_is_a_miss() {
    assert_eq!(cached_repositories(false, Some(b"[\"/a\", 3")), None);
    assert_eq!(cached_repositories(false, Some(b"{}")), None);
    assert_eq!(cached_repositories(false, Some(b"")), None);
}

#[test]
fn forced_rescan_or_no_cache_is_a_miss() {
    assert_eq!(cached_repositories(true, Some(br#"["/a"]"#)), None);
    assert_eq!(cached_repositories(false, None), None);
    assert_eq!(cached_repositories(false, Some(br#"["/a","/a"]"#)), Some(vec!["/a".to_string(), "/a".to_string()]));
}
