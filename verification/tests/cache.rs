use larql_cache::entry::{CacheSource, CachedVindex};
use larql_cache::resolve::{resolve_cached_from, resolve_shorthand_from, shorthand_key};
use larql_cache::scan::{
    dir_size_bytes, scan_cached_vindexes_at_both, scan_hf_hub_at, scan_local_at, DirNode, HubDir,
    Listing, LocalDir, SnapshotDir,
};

const HUB: &str = "/cache/hub";
const LOCAL: &str = "/cache/local";

/// What a hub cache with the given `owner/name` entries holds. Each entry has
/// one snapshot containing `index.json` plus a small `stub.bin`.
fn fake_hub(repos: &[&str]) -> Listing<HubDir> {
    let mut dirs = Vec::new();
    for repo in repos {
        let (owner, name) = repo.split_once('/').expect("owner/name");
        let contents = Ok(vec![DirNode::File(2), DirNode::File(1024)]);
        let snapshot = SnapshotDir {
            name: "abc123".to_string(),
            has_index: true,
            modified: Some(1),
            size_bytes: dir_size_bytes(&contents).ok(),
        };
        dirs.push(Ok(HubDir {
            name: format!("models--{owner}--{name}"),
            snapshots: Listing::Entries(vec![Ok(snapshot)]),
        }));
    }
    Listing::Entries(dirs)
}

/// What a local cache with the given bare names holds. Each is a
/// `<name>.vindex/` directory with an `index.json`.
fn fake_local(names: &[&str]) -> Listing<LocalDir> {
    let mut dirs = Vec::new();
    for name in names {
        let contents = Ok(vec![DirNode::File(2), DirNode::File(512)]);
        dirs.push(Ok(LocalDir {
            name: format!("{name}.vindex"),
            is_dir: true,
            has_index: true,
            size_bytes: dir_size_bytes(&contents).ok(),
        }));
    }
    Listing::Entries(dirs)
}

#[test]
fn scan_returns_empty_for_missing_dir() {
    let out = scan_hf_hub_at("/definitely/not/a/path", &Listing::Missing).unwrap();
    assert!(out.is_empty());
}

#[test]
fn scan_finds_cached_vindexes_and_sorts() {
    let out = scan_hf_hub_at(HUB, &fake_hub(&["zebra/last", "acme/first", "beta/mid"])).unwrap();
    let repos: Vec<_> = out.iter().map(|c| c.repo.as_str()).collect();
    assert_eq!(repos, vec!["acme/first", "beta/mid", "zebra/last"]);
    assert!(out.iter().all(|c| c.source == CacheSource::HuggingFace));
}

#[test]
fn scan_skips_snapshots_without_index_json() {
    let snapshot = SnapshotDir {
        name: "deadbeef".to_string(),
        has_index: false,
        modified: Some(1),
        size_bytes: None,
    };
    let bare = HubDir {
        name: "models--foo--bar".to_string(),
        snapshots: Listing::Entries(vec![Ok(snapshot)]),
    };
    let out = scan_hf_hub_at(HUB, &Listing::Entries(vec![Ok(bare)])).unwrap();
    assert!(
        out.is_empty(),
        "snapshot without index.json should be skipped"
    );
}

#[test]
fn scan_records_nonzero_size_bytes() {
    let out = scan_hf_hub_at(HUB, &fake_hub(&["o/one"])).unwrap();
    assert_eq!(out.len(), 1);
    assert!(out[0].size_bytes >= 1024);
}

#[test]
fn scan_local_empty_when_dir_missing() {
    let out = scan_local_at("/does/not/exist", &Listing::Missing).unwrap();
    assert!(out.is_empty());
}

#[test]
fn scan_local_finds_bare_name_entries() {
    let out = scan_local_at(LOCAL, &fake_local(&["gemma3-4b-f16", "v10c-tinystories"])).unwrap();
    assert_eq!(out.len(), 2);
    // sorted by repo; alphabetical: gemma first, v10c second
    assert_eq!(out[0].repo, "gemma3-4b-f16");
    assert_eq!(out[1].repo, "v10c-tinystories");
    assert!(out.iter().all(|c| c.source == CacheSource::Local));
}

#[test]
fn scan_local_skips_non_vindex_dirs() {
    let listing = Listing::Entries(vec![
        // no index.json
        Ok(LocalDir {
            name: "junk.vindex".to_string(),
            is_dir: true,
            has_index: false,
            size_bytes: None,
        }),
        Ok(LocalDir {
            name: "loose-file.txt".to_string(),
            is_dir: false,
            has_index: false,
            size_bytes: None,
        }),
    ]);
    let out = scan_local_at(LOCAL, &listing).unwrap();
    assert!(out.is_empty());
}

#[test]
fn scan_local_resolves_symlinks() {
    // A symlink to a directory counts as that directory.
    let listing = Listing::Entries(vec![Ok(LocalDir {
        name: "my-model.vindex".to_string(),
        is_dir: true,
        has_index: true,
        size_bytes: Some(2),
    })]);
    let out = scan_local_at("local", &listing).unwrap();
    assert_eq!(out.len(), 1);
    assert_eq!(out[0].repo, "my-model");
}

#[test]
fn scan_both_merges_and_orders_local_first() {
    let out = scan_cached_vindexes_at_both(
        "hub",
        &fake_hub(&["chrishayuk/gemma-3-4b-it-vindex"]),
        "local",
        &fake_local(&["gemma4-31b-f16"]),
    )
    .unwrap();
    assert_eq!(out.len(), 2);
    assert_eq!(out[0].source, CacheSource::HuggingFace);
    assert_eq!(out[1].source, CacheSource::Local);
}

#[test]
fn shorthand_unique_match_returns_snapshot_path() {
    let cache = scan_hf_hub_at(HUB, &fake_hub(&["alice/cool-vindex"])).unwrap();
    let path = resolve_shorthand_from("cool-vindex", &cache).unwrap();
    assert!(path.ends_with("snapshots/abc123"));
}

#[test]
fn shorthand_matches_bare_local_name() {
    let cache = scan_local_at(LOCAL, &fake_local(&["gemma4-31b-f16"])).unwrap();
    let path = resolve_shorthand_from("gemma4-31b-f16", &cache).unwrap();
    assert!(path.ends_with("gemma4-31b-f16.vindex"));
}

#[test]
fn shorthand_no_match_mentions_both_registration_paths() {
    let cache: Vec<CachedVindex> = Vec::new();
    let err = resolve_shorthand_from("missing", &cache).unwrap_err();
    let s = err.message();
    assert!(s.contains("no cached vindex matches `missing`"));
    assert!(s.contains("larql pull"));
    assert!(s.contains("larql link"));
}

#[test]
fn shorthand_ambiguous_across_hf_and_local_errors_with_sources() {
    let cache = scan_cached_vindexes_at_both(
        "hub",
        &fake_hub(&["someone/gemma4-31b"]),
        "local",
        &fake_local(&["gemma4-31b"]),
    )
    .unwrap();
    let err = resolve_shorthand_from("gemma4-31b", &cache).unwrap_err();
    let s = err.message();
    assert!(s.contains("ambiguous"));
    assert!(s.contains("[hf]"));
    assert!(s.contains("[local]"));
}

#[test]
fn resolve_cached_accepts_owner_slash_name() {
    let cache = scan_hf_hub_at(HUB, &fake_hub(&["alice/x", "bob/y"])).unwrap();
    let hit = resolve_cached_from("alice/x", &cache).unwrap();
    assert_eq!(hit.repo, "alice/x");
    assert_eq!(hit.source, CacheSource::HuggingFace);
}

#[test]
fn resolve_cached_strips_hf_scheme() {
    let cache = scan_hf_hub_at(HUB, &fake_hub(&["alice/x"])).unwrap();
    let hit = resolve_cached_from("hf://alice/x", &cache).unwrap();
    assert_eq!(hit.repo, "alice/x");
}

#[test]
fn resolve_cached_rejects_uncached_owner_slash_name() {
    let cache: Vec<CachedVindex> = Vec::new();
    let err = resolve_cached_from("not/here", &cache).unwrap_err();
    assert!(err.message().contains("not cached: not/here"));
}

#[test]
fn resolve_cached_accepts_hf_shorthand() {
    let cache = scan_hf_hub_at(HUB, &fake_hub(&["alice/unique-name"])).unwrap();
    let hit = resolve_cached_from("unique-name", &cache).unwrap();
    assert_eq!(hit.repo, "alice/unique-name");
}

#[test]
fn resolve_cached_accepts_local_shorthand() {
    let cache = scan_local_at(LOCAL, &fake_local(&["my-extract"])).unwrap();
    let hit = resolve_cached_from("my-extract", &cache).unwrap();
    assert_eq!(hit.repo, "my-extract");
    assert_eq!(hit.source, CacheSource::Local);
}

#[test]
fn shorthand_key_strips_owner_slash() {
    assert_eq!(shorthand_key("owner/name"), "name");
    assert_eq!(shorthand_key("just-name"), "just-name");
    assert_eq!(shorthand_key("a/b/c"), "c"); // last segment wins
}
