use larql_cache::dirs::{hf_cache_repo_dir, hf_hub_dir, larql_local_dir, CacheEnv};
use larql_cache::entry::{CacheSource, CachedVindex};
use larql_cache::order::sort_entries;
use larql_cache::scan::{
    dir_size_bytes, dir_size_fits, is_repo_dir, latest_snapshot, scan_cached_vindexes,
    scan_cached_vindexes_at_both, scan_hf_hub_at, scan_local_at, DirNode, HubDir, Listing,
    LocalDir, SnapshotDir,
};

fn env(hub_cache: &str, hf: &str, larql: &str, home: &str, profile: &str) -> CacheEnv {
    let set = |s: &str| if s.is_empty() { None } else { Some(s.to_string()) };
    CacheEnv {
        huggingface_hub_cache: set(hub_cache),
        hf_home: set(hf),
        larql_home: set(larql),
        home: set(home),
        userprofile: set(profile),
    }
}

fn snapshot(name: &str, has_index: bool, modified: Option<i128>) -> Result<SnapshotDir, String> {
    Ok(SnapshotDir { name: name.to_string(), has_index, modified, size_bytes: Some(9) })
}

fn hub_dir(name: &str, snapshots: Listing<SnapshotDir>) -> Result<HubDir, String> {
    Ok(HubDir { name: name.to_string(), snapshots })
}

fn local_dir(name: &str, size: Option<u64>) -> Result<LocalDir, String> {
    Ok(LocalDir { name: name.to_string(), is_dir: true, has_index: true, size_bytes: size })
}

#[test]
fn hub_root_honours_hf_home() {
    assert_eq!(hf_hub_dir(&env("", "/hf", "", "/home/u", "")).unwrap(), "/hf/hub");
    assert_eq!(hf_hub_dir(&env("", "", "", "/home/u", "")).unwrap(), "/home/u/.cache/huggingface/hub");
    assert_eq!(hf_hub_dir(&env("", "", "", "", "/prof")).unwrap(), "/prof/.cache/huggingface/hub");
    let err = hf_hub_dir(&env("/x", "", "/l", "", "")).unwrap_err();
    assert_eq!(err.message(), "no HOME env var");
}

#[test]
fn local_root_honours_larql_home() {
    assert_eq!(larql_local_dir(&env("", "", "/l/", "/home/u", "")).unwrap(), "/l/local");
    assert_eq!(larql_local_dir(&env("", "", "", "/home/u", "/prof")).unwrap(), "/home/u/.cache/larql/local");
    assert_eq!(larql_local_dir(&env("", "", "", "", "/prof")).unwrap(), "/prof/.cache/larql/local");
    assert_eq!(larql_local_dir(&env("", "/hf", "", "", "")).unwrap_err().message(), "no HOME env var");
}

#[test]
fn downloads_land_where_scanned() {
    let e = env("", "", "", "/home/u", "");
    let root = hf_hub_dir(&e).unwrap();
    assert_eq!(hf_cache_repo_dir(&e, "a/b").unwrap(), format!("{root}/models--a--b"));
    let e = env("", "/hf", "", "", "");
    assert_eq!(hf_cache_repo_dir(&e, "a/b").unwrap(), "/hf/hub/models--a--b");
    let e = env("/elsewhere", "/hf", "", "/home/u", "");
    assert_eq!(hf_cache_repo_dir(&e, "a/b/c").unwrap(), "/elsewhere/models--a--b--c");
    assert_eq!(hf_cache_repo_dir(&env("", "", "", "", "/prof"), "a/b"), None);
}

#[test]
fn latest_snapshot_is_the_newest_with_index() {
    let list = vec![
        snapshot("old", true, Some(5)),
        snapshot("newest-but-bare", false, Some(90)),
        snapshot("new", true, Some(7)),
        Err("unreadable".to_string()),
        snapshot("also-new", true, Some(7)),
        snapshot("undated", true, None),
    ];
    assert_eq!(latest_snapshot(&list), Some(4));
    assert_eq!(latest_snapshot(&vec![snapshot("x", false, Some(1))]), None);
    assert_eq!(latest_snapshot(&Vec::new()), None);
    // Before the epoch is older than undated.
    assert_eq!(latest_snapshot(&vec![snapshot("a", true, None), snapshot("b", true, Some(-1))]), Some(0));
}

#[test]
fn hub_entry_has_repo_path_and_size() {
    let listing = Listing::Entries(vec![
        hub_dir("models--o--n", Listing::Entries(vec![snapshot("sha", true, None)])),
        hub_dir("datasets--o--n", Listing::Failed("not read".to_string())),
        hub_dir("models--o--no-snapshots", Listing::Missing),
    ]);
    let out = scan_hf_hub_at("/hub", &listing).unwrap();
    assert_eq!(out.len(), 1);
    assert_eq!(out[0].repo, "o/n");
    assert_eq!(out[0].snapshot, "/hub/models--o--n/snapshots/sha");
    assert_eq!(out[0].size_bytes, 9);
    assert_eq!(out[0].source, CacheSource::HuggingFace);
}

#[test]
fn repo_names_are_read_back() {
    let names = |dir: &str| {
        let listing = Listing::Entries(vec![hub_dir(dir, Listing::Entries(vec![snapshot("s", true, None)]))]);
        scan_hf_hub_at("/hub", &listing).unwrap()[0].repo.clone()
    };
    assert_eq!(names("models--owner--name"), "owner/name");
    assert_eq!(names("models--owner--na--me"), "owner/na--me");
    assert_eq!(names("models--gpt2"), "gpt2");
    assert_eq!(names("models--models--x"), "models/x");
    assert_eq!(names("models--models--models--x"), "models/models--x");
    assert!(is_repo_dir("models--gpt2"));
    assert!(!is_repo_dir("models-gpt2"));
}

#[test]
fn scan_failures_carry_the_system_text() {
    let err = scan_hf_hub_at("/hub", &Listing::Failed("denied".to_string())).unwrap_err();
    assert_eq!(err.message(), "denied");
    let listing = Listing::Entries(vec![
        hub_dir("other", Listing::Failed("not asked".to_string())),
        hub_dir("models--a--b", Listing::Failed("no snapshots".to_string())),
        Err("later".to_string()),
    ]);
    assert_eq!(scan_hf_hub_at("/hub", &listing).unwrap_err().message(), "no snapshots");
    let listing: Listing<LocalDir> = Listing::Entries(vec![local_dir("a", None), Err("broken".to_string())]);
    assert_eq!(scan_local_at("/local", &listing).unwrap_err().message(), "broken");
    let both = scan_cached_vindexes_at_both("/hub", &Listing::Missing, "/local", &listing);
    assert_eq!(both.unwrap_err().message(), "broken");
    let both = scan_cached_vindexes_at_both("/hub", &Listing::Failed("hub".to_string()), "/local", &listing);
    assert_eq!(both.unwrap_err().message(), "hub");
}

#[test]
fn local_names_lose_one_suffix() {
    let listing = Listing::Entries(vec![
        local_dir("x.vindex", Some(1)),
        local_dir("b.vindex.vindex", None),
        local_dir(".vindex", Some(3)),
    ]);
    let out = scan_local_at("/local", &listing).unwrap();
    assert_eq!(out.len(), 3);
    assert_eq!((out[0].repo.as_str(), out[0].size_bytes), ("", 3));
    assert_eq!(out[1].repo, "b.vindex");
    assert_eq!(out[1].size_bytes, 0);
    assert_eq!(out[1].snapshot, "/local/b.vindex.vindex");
    assert_eq!((out[2].repo.as_str(), out[2].size_bytes), ("x", 1));
}

#[test]
fn local_entries_end_in_vindex() {
    let listing = Listing::Entries(vec![
        local_dir("plain", Some(1)),
        local_dir("x.vindex.bak", Some(1)),
        local_dir("vindex", Some(1)),
    ]);
    assert!(scan_local_at("/local", &listing).unwrap().is_empty());
    let file = LocalDir { name: "f.vindex".to_string(), is_dir: false, has_index: true, size_bytes: None };
    let bare = LocalDir { name: "b.vindex".to_string(), is_dir: true, has_index: false, size_bytes: None };
    assert!(scan_local_at("/local", &Listing::Entries(vec![Ok(file), Ok(bare)])).unwrap().is_empty());
}

#[test]
fn ties_stay_in_the_order_read() {
    let entry = |size_bytes: u64, source: CacheSource| CachedVindex {
        repo: "x".to_string(),
        snapshot: "/s".to_string(),
        size_bytes,
        source,
    };
    let out = sort_entries(vec![
        entry(1, CacheSource::Local),
        entry(2, CacheSource::HuggingFace),
        entry(3, CacheSource::Local),
        entry(4, CacheSource::HuggingFace),
    ]);
    let sizes: Vec<_> = out.iter().map(|c| c.size_bytes).collect();
    assert_eq!(sizes, vec![2, 4, 1, 3]);
}

#[test]
fn merged_list_is_hub_then_local() {
    let hub = Listing::Entries(vec![
        hub_dir("models--z--z", Listing::Entries(vec![snapshot("s", true, None)])),
        hub_dir("models--m--m", Listing::Entries(vec![snapshot("s", true, None)])),
    ]);
    let local = Listing::Entries(vec![local_dir("n.vindex", None), local_dir("a.vindex", None)]);
    let e = env("", "/hf", "/larql", "", "");
    let out = scan_cached_vindexes(&e, &hub, &local).unwrap();
    let paths: Vec<_> = out.iter().map(|c| c.snapshot.as_str()).collect();
    assert_eq!(
        paths,
        vec![
            "/hf/hub/models--m--m/snapshots/s",
            "/hf/hub/models--z--z/snapshots/s",
            "/larql/local/a.vindex",
            "/larql/local/n.vindex",
        ]
    );
    let e = env("", "/hf", "", "", "");
    assert_eq!(scan_cached_vindexes(&e, &hub, &local).unwrap_err().message(), "no HOME env var");
}

#[test]
fn sizes_add_up_through_directories() {
    let nodes = vec![
        DirNode::File(3),
        DirNode::Dir(vec![DirNode::File(4), DirNode::Dir(vec![DirNode::File(5)]), DirNode::Other]),
        DirNode::Unreadable,
        DirNode::Other,
    ];
    assert!(dir_size_fits(&nodes));
    assert_eq!(dir_size_bytes(&Ok(nodes)).unwrap(), 12);
    let err = dir_size_bytes(&Err("gone".to_string())).unwrap_err();
    assert_eq!(err.message(), "gone");
    assert!(!dir_size_fits(&vec![DirNode::File(u64::MAX), DirNode::Dir(vec![DirNode::File(1)])]));
    assert!(dir_size_fits(&vec![DirNode::File(u64::MAX), DirNode::Dir(Vec::new())]));
}

#[test]
fn labels_name_the_caches() {
    assert_eq!(CacheSource::HuggingFace.label(), "hf");
    assert_eq!(CacheSource::Local.label(), "local");
}
