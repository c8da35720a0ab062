use larql_cache::entry::{CacheSource, CachedVindex};
use larql_cache::error::CacheError;
use larql_cache::rm_cmd::{run, RmArgs, RmFacts, RmStep};
use larql_cache::scan::{
    scan_cached_vindexes_at_both, HubDir, Listing, LocalDir, SnapshotDir,
};

fn hub_entry(snapshot: &str) -> CachedVindex {
    CachedVindex {
        repo: "o/n".to_string(),
        snapshot: snapshot.to_string(),
        size_bytes: 2_500_000,
        source: CacheSource::HuggingFace,
    }
}

fn local_entry() -> CachedVindex {
    CachedVindex {
        repo: "mine".to_string(),
        snapshot: "/local/mine.vindex".to_string(),
        size_bytes: 5,
        source: CacheSource::Local,
    }
}

fn args(model: &str, yes: bool) -> RmArgs {
    RmArgs { model: model.to_string(), yes }
}

fn facts(is_symlink: Option<bool>, exists: Option<bool>, answer: Option<&str>) -> RmFacts {
    RmFacts { is_symlink, exists, answer: answer.map(|a| a.to_string()) }
}

fn step(model: &str, yes: bool, entry: CachedVindex, f: RmFacts) -> RmStep {
    run(&args(model, yes), Some(&Ok(vec![entry])), &f)
}

#[test]
fn removal_starts_with_a_scan() {
    assert!(matches!(run(&args("x", true), None, &facts(None, None, None)), RmStep::ScanCache));
    let failed = Err(CacheError::NoHome);
    assert!(matches!(
        run(&args("x", true), Some(&failed), &facts(None, None, None)),
        RmStep::Failed(CacheError::NoHome)
    ));
    assert!(matches!(
        step("other", true, local_entry(), facts(None, None, None)),
        RmStep::Failed(CacheError::NotCached { key }) if key == "other"
    ));
}

#[test]
fn hub_removal_takes_the_whole_repository() {
    let e = || hub_entry("/hub/models--o--n/snapshots/sha");
    assert!(matches!(
        step("o/n", true, e(), facts(None, None, None)),
        RmStep::ProbeExists(p) if p == "/hub/models--o--n"
    ));
    assert!(matches!(
        step("n", true, e(), facts(None, Some(true), None)),
        RmStep::RemoveTree { path, repo } if path == "/hub/models--o--n" && repo == "o/n"
    ));
    assert!(matches!(
        step("n", true, e(), facts(None, Some(false), None)),
        RmStep::Failed(CacheError::NotCached { key }) if key == "/hub/models--o--n"
    ));
    assert!(matches!(
        step("n", false, e(), facts(None, Some(true), None)),
        RmStep::Confirm { what, size_bytes } if what == "HF cache `o/n`" && size_bytes == 2_500_000
    ));
}

#[test]
fn shallow_hub_paths_are_refused() {
    for p in ["/sha", "sha", "/", ""] {
        let got = step("n", true, hub_entry(p), facts(None, Some(true), None));
        assert!(matches!(got, RmStep::Failed(CacheError::UnexpectedHubPath)), "{}", p);
    }
}

#[test]
fn links_are_unlinked_and_not_followed() {
    assert!(matches!(
        step("mine", true, local_entry(), facts(None, None, None)),
        RmStep::ProbeSymlink(p) if p == "/local/mine.vindex"
    ));
    assert!(matches!(
        step("mine", true, local_entry(), facts(Some(true), None, None)),
        RmStep::ProbeExists(p) if p == "/local/mine.vindex"
    ));
    // A dangling link is still unlinked.
    assert!(matches!(
        step("mine", true, local_entry(), facts(Some(true), Some(false), None)),
        RmStep::Unlink { path, repo } if path == "/local/mine.vindex" && repo == "mine"
    ));
    assert!(matches!(
        step("mine", true, local_entry(), facts(Some(false), Some(true), None)),
        RmStep::RemoveTree { path, .. } if path == "/local/mine.vindex"
    ));
    assert!(matches!(
        step("mine", true, local_entry(), facts(Some(false), Some(false), None)),
        RmStep::Failed(CacheError::NotCached { key }) if key == "/local/mine.vindex"
    ));
}

#[test]
fn removal_needs_a_yes() {
    let got = |answer: &str| step("mine", false, local_entry(), facts(Some(true), Some(true), Some(answer)));
    for yes in ["y\n", "Y\n", " yes \r\n"] {
        assert!(matches!(got(yes), RmStep::Unlink { .. }), "{}", yes);
    }
    for no in ["", "\n", "n\n", "YES\n", "yess\n", "y y\n"] {
        assert!(matches!(got(no), RmStep::Aborted), "{}", no);
    }
    assert!(matches!(
        step("mine", false, local_entry(), facts(Some(true), Some(true), None)),
        RmStep::Confirm { what, size_bytes } if what == "local link `mine`" && size_bytes == 5
    ));
}

fn hub_listing(dirs: &[&str]) -> Listing<HubDir> {
    Listing::Entries(
        dirs.iter()
            .map(|name| {
                Ok(HubDir {
                    name: name.to_string(),
                    snapshots: Listing::Entries(vec![Ok(SnapshotDir {
                        name: "sha".to_string(),
                        has_index: true,
                        modified: None,
                        size_bytes: Some(1),
                    })]),
                })
            })
            .collect(),
    )
}

fn local_listing(dirs: &[&str]) -> Listing<LocalDir> {
    Listing::Entries(
        dirs.iter()
            .map(|name| {
                Ok(LocalDir {
                    name: name.to_string(),
                    is_dir: true,
                    has_index: true,
                    size_bytes: Some(1),
                })
            })
            .collect(),
    )
}

fn after_scan(model: &str, hub: &[&str], local: &[&str]) -> RmStep {
    let scan = scan_cached_vindexes_at_both("/hub", &hub_listing(hub), "/local", &local_listing(local));
    run(&args(model, true), Some(&scan), &facts(Some(false), Some(true), None))
}

#[test]
fn removed_vindexes_are_not_cached_any_more() {
    assert!(matches!(
        after_scan("a/x", &["models--a--x", "models--b--x"], &["y.vindex"]),
        RmStep::RemoveTree { path, .. } if path == "/hub/models--a--x"
    ));
    assert!(matches!(
        after_scan("a/x", &["models--b--x"], &["y.vindex"]),
        RmStep::Failed(CacheError::NotCached { key }) if key == "a/x"
    ));
    assert!(matches!(
        after_scan("y", &["models--b--x"], &["y.vindex"]),
        RmStep::RemoveTree { path, .. } if path == "/local/y.vindex"
    ));
    assert!(matches!(
        after_scan("hf://y", &["models--b--x"], &[]),
        RmStep::Failed(CacheError::NotCached { key }) if key == "y"
    ));
}

#[test]
fn owners_named_like_the_prefix_are_told_apart() {
    assert!(matches!(
        after_scan("a/x", &["models--models--a--x"], &[]),
        RmStep::Failed(CacheError::NotCached { key }) if key == "a/x"
    ));
    assert!(matches!(
        after_scan("models/x", &["models--x", "models--models--x"], &[]),
        RmStep::RemoveTree { path, .. } if path == "/hub/models--models--x"
    ));
}
