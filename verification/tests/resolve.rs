use larql_cache::entry::{CacheSource, CachedVindex};
use larql_cache::error::CacheError;
use larql_cache::resolve::{
    resolve_cached, resolve_cached_from, resolve_model, resolve_shorthand, resolve_shorthand_from,
    ModelStep,
};

fn entry(repo: &str, source: CacheSource) -> CachedVindex {
    CachedVindex {
        repo: repo.to_string(),
        snapshot: format!("/at/{repo}"),
        size_bytes: 7,
        source,
    }
}

fn cache() -> Vec<CachedVindex> {
    vec![
        entry("alice/x", CacheSource::HuggingFace),
        entry("bob/x", CacheSource::HuggingFace),
        entry("carol/y", CacheSource::HuggingFace),
        entry("z", CacheSource::Local),
    ]
}

#[test]
fn no_match_is_worded_in_full() {
    let err = resolve_shorthand_from("missing", &cache()).unwrap_err();
    assert_eq!(
        err.message(),
        "no cached vindex matches `missing`.\n\
         Try `larql pull hf://owner/missing` (HF cache) or \
         `larql link <path>` (local cache), or pass the full \
         `owner/name` / path explicitly."
    );
}

#[test]
fn ambiguity_is_worded_in_full() {
    let err = resolve_shorthand_from("x", &cache()).unwrap_err();
    assert_eq!(
        err.message(),
        "shorthand `x` is ambiguous \u{2014} matches multiple cached \
         vindexes:\n  - alice/x [hf]\n  - bob/x [hf]\nUse the full `owner/name` to disambiguate."
    );
    let err = resolve_cached_from("hf://x", &cache()).unwrap_err();
    assert_eq!(
        err.message(),
        "shorthand `x` is ambiguous \u{2014} matches:\n  - alice/x [hf]\n  - bob/x [hf]"
    );
}

#[test]
fn lookups_agree_on_plain_names() {
    for name in ["x", "y", "z", "w"] {
        let path = resolve_shorthand_from(name, &cache()).ok();
        let picked = resolve_cached_from(name, &cache()).ok().map(|e| e.snapshot);
        assert_eq!(path, picked);
    }
    assert_eq!(resolve_shorthand_from("y", &cache()).unwrap(), "/at/carol/y");
    assert_eq!(resolve_cached_from("w", &cache()).unwrap_err().message(), "not cached: w");
}

#[test]
fn full_names_pick_the_first_listed() {
    let mut list = cache();
    list.push(CachedVindex { size_bytes: 99, ..entry("alice/x", CacheSource::HuggingFace) });
    let hit = resolve_cached_from("alice/x", &list).unwrap();
    assert_eq!(hit.size_bytes, 7);
    assert_eq!(hit.snapshot, "/at/alice/x");
    // The scheme may be left out or given once.
    assert_eq!(resolve_cached_from("hf://alice/x", &list).unwrap().repo, "alice/x");
    let err = resolve_cached_from("hf://hf://alice/x", &list).unwrap_err();
    assert_eq!(err.message(), "not cached: hf://alice/x");
}

#[test]
fn failed_scans_are_handed_on() {
    assert_eq!(resolve_cached("z", Err(CacheError::NoHome)).unwrap_err().message(), "no HOME env var");
    assert_eq!(resolve_shorthand("z", Err(CacheError::Io("no".to_string()))).unwrap_err().message(), "no");
    assert_eq!(resolve_cached("z", Ok(cache())).unwrap().snapshot, "/at/z");
    assert_eq!(resolve_shorthand("z", Ok(cache())).unwrap(), "/at/z");
}

#[test]
fn model_steps_follow_the_order() {
    assert!(matches!(resolve_model("hf://a/b", None, None), ModelStep::Fetch(u) if u == "hf://a/b"));
    assert!(matches!(resolve_model("dir", None, None), ModelStep::ProbeDir(p) if p == "dir"));
    assert!(matches!(resolve_model("dir", Some(true), None), ModelStep::Found(p) if p == "dir"));
    assert!(matches!(resolve_model("alice/x", Some(false), None), ModelStep::ScanCache));
    assert!(matches!(
        resolve_model("alice/x", Some(false), Some(Ok(cache()))),
        ModelStep::Found(p) if p == "/at/alice/x"
    ));
    assert!(matches!(
        resolve_model("dave/x", Some(false), Some(Ok(cache()))),
        ModelStep::Fetch(u) if u == "hf://dave/x"
    ));
    assert!(matches!(
        resolve_model("dave/x", Some(false), Some(Err(CacheError::NoHome))),
        ModelStep::Fetch(u) if u == "hf://dave/x"
    ));
    assert!(matches!(
        resolve_model("z", Some(false), Some(Ok(cache()))),
        ModelStep::Found(p) if p == "/at/z"
    ));
    assert!(matches!(
        resolve_model("x", Some(false), Some(Ok(cache()))),
        ModelStep::Failed(CacheError::Ambiguous { .. })
    ));
    assert!(matches!(
        resolve_model("w", Some(false), Some(Ok(cache()))),
        ModelStep::Failed(CacheError::NoMatch { name }) if name == "w"
    ));
    assert!(matches!(
        resolve_model("w", Some(false), Some(Err(CacheError::NoHome))),
        ModelStep::Failed(CacheError::NoHome)
    ));
}

#[test]
fn errors_are_copied_whole() {
    let all = vec![
        CacheError::NoHome,
        CacheError::Io("io".to_string()),
        CacheError::NoMatch { name: "n".to_string() },
        CacheError::Ambiguous { name: "n".to_string(), candidates: vec!["a".to_string(), "b".to_string()] },
        CacheError::NotCached { key: "k".to_string() },
        CacheError::AmbiguousKey { key: "k".to_string(), candidates: vec!["a".to_string()] },
        CacheError::UnexpectedHubPath,
    ];
    for e in &all {
        assert_eq!(e.clone().message(), e.message());
    }
    assert_eq!(all[6].message(), "unexpected HF cache path structure");
}
