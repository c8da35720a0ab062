use larql_cache::dirs::CacheEnv;
use larql_cache::download::{
    blob_path, cached_snapshot_file, download_hf_weights, fetch_step, repo_files_or_fallback,
    resolve_hf_vindex, resolve_hf_vindex_with_progress, snapshot_file, BlobFacts, CacheProbe,
    FetchStep, FileOnDisk, HfFacts, HfStep, SnapshotProbe, INDEX_JSON,
};
use larql_cache::hub::VindexError;

fn wording(e: VindexError) -> String {
    match e {
        VindexError::Parse(text) => text,
    }
}

fn env() -> CacheEnv {
    CacheEnv {
        huggingface_hub_cache: None,
        hf_home: Some("/hf".to_string()),
        larql_home: None,
        home: None,
        userprofile: None,
    }
}

fn probe(blob: Option<(bool, u64)>, snapshots: &[(&str, bool)], pinned_links_blob: bool) -> CacheProbe {
    CacheProbe {
        blob: blob.map(|(is_file, len)| BlobFacts { is_file, len }),
        snapshots: Some(
            snapshots
                .iter()
                .map(|(name, links_blob)| SnapshotProbe { name: name.to_string(), links_blob: *links_blob })
                .collect(),
        ),
        pinned_links_blob,
    }
}

fn cached(revision: Option<&str>, p: &CacheProbe) -> Option<(String, u64)> {
    let head = Some(("etag".to_string(), 10));
    cached_snapshot_file(&env(), "o/n", revision, "layers/f", &head, p)
}

#[test]
fn cached_files_are_found_in_a_snapshot_first() {
    let p = probe(Some((true, 10)), &[("s0", false), ("s1", true), ("s2", true)], true);
    let want = "/hf/hub/models--o--n/snapshots/s1/layers/f".to_string();
    assert_eq!(cached(Some("rev"), &p), Some((want, 10)));
}

#[test]
fn cached_files_fall_back_to_revision_then_blob() {
    let p = probe(Some((true, 10)), &[("s0", false)], true);
    let pinned = "/hf/hub/models--o--n/snapshots/rev/layers/f".to_string();
    let blob = "/hf/hub/models--o--n/blobs/etag".to_string();
    assert_eq!(cached(Some("rev"), &p), Some((pinned, 10)));
    assert_eq!(cached(None, &p), Some((blob.clone(), 10)));
    let p = CacheProbe { snapshots: None, pinned_links_blob: false, ..p };
    assert_eq!(cached(Some("rev"), &p), Some((blob, 10)));
}

#[test]
fn cache_misses_where_the_blob_does_not_match() {
    assert_eq!(cached(None, &probe(None, &[("s", true)], true)), None);
    assert_eq!(cached(None, &probe(Some((false, 10)), &[("s", true)], true)), None);
    assert_eq!(cached(None, &probe(Some((true, 11)), &[("s", true)], true)), None);
    let p = probe(Some((true, 10)), &[("s", true)], true);
    assert_eq!(cached_snapshot_file(&env(), "o/n", None, "f", &None, &p), None);
    let nowhere = CacheEnv { hf_home: None, ..env() };
    let head = Some(("etag".to_string(), 10));
    assert_eq!(cached_snapshot_file(&nowhere, "o/n", None, "f", &head, &p), None);
}

#[test]
fn snapshots_of_older_content_are_not_served() {
    // Both commits have the file; only the later one links to the reported blob.
    let p = probe(Some((true, 10)), &[("old", false), ("new", true)], false);
    let want = "/hf/hub/models--o--n/snapshots/new/layers/f".to_string();
    assert_eq!(cached(None, &p), Some((want.clone(), 10)));
    assert_eq!(cached(Some("old"), &p), Some((want, 10)));
    let p = probe(Some((true, 10)), &[("old", false)], false);
    let blob = "/hf/hub/models--o--n/blobs/etag".to_string();
    assert_eq!(cached(Some("old"), &p), Some((blob, 10)));
}

#[test]
fn index_is_downloaded_where_only_its_blob_is_cached() {
    let step = |file: &str, path: &str| fetch_step(file, Some((path.to_string(), 3)));
    assert!(matches!(step("index.json", "/r/blobs/etag"), FetchStep::Download));
    assert!(matches!(step("index.json", "/r/blobs/xindex.json"), FetchStep::Download));
    assert!(matches!(step("index.json", "/r/snapshots/s/index.json"), FetchStep::Cached { size: 3, .. }));
    assert!(matches!(step("other.bin", "/r/blobs/etag"), FetchStep::Cached { size: 3, .. }));
}

#[test]
fn blobs_are_told_apart_by_hash() {
    assert_eq!(blob_path("/r", "a"), "/r/blobs/a");
    assert_ne!(blob_path("/r", "a"), blob_path("/r", "b"));
    assert_eq!(snapshot_file("/r", "c", "f"), "/r/snapshots/c/f");
}

#[test]
fn cached_files_are_not_downloaded() {
    match fetch_step("f", Some(("/p".to_string(), 3))) {
        FetchStep::Cached { path, size, message } => {
            assert_eq!((path.as_str(), size, message.as_str()), ("/p", 3, "f [cached]"));
        }
        FetchStep::Download => panic!("cached"),
    }
    assert!(matches!(fetch_step("f", None), FetchStep::Download));
}

#[test]
fn unlisted_repos_fall_back_to_known_files() {
    let core = vec!["index.json".to_string(), "a".to_string()];
    let weights = vec!["w".to_string()];
    let failed = Err(VindexError::Parse("offline".to_string()));
    assert_eq!(repo_files_or_fallback(failed, &core, &weights), vec!["index.json", "a", "w"]);
    let listed = Ok(vec!["x".to_string()]);
    assert_eq!(repo_files_or_fallback(listed, &core, &weights), vec!["x"]);
    assert!(repo_files_or_fallback(Ok(Vec::new()), &core, &weights).is_empty());
}

fn facts(
    client: Option<Result<(), &str>>,
    index: Option<Result<&str, &str>>,
    files: Option<&[&str]>,
) -> HfFacts {
    HfFacts {
        client: client.map(|r| r.map_err(|e| e.to_string())),
        index: index.map(|r| {
            r.map(|p| match p.rsplit_once('/') {
                Some((dir, name)) => FileOnDisk { dir: Some(dir.to_string()), name: name.to_string() },
                None => FileOnDisk { dir: None, name: p.to_string() },
            })
            .map_err(|e| e.to_string())
        }),
        files: files.map(|f| f.iter().map(|s| s.to_string()).collect()),
    }
}

#[test]
fn fetches_go_step_by_step() {
    let next = |f: &HfFacts| resolve_hf_vindex("hf://o/n@v", f);
    assert!(matches!(next(&facts(None, None, None)), HfStep::MakeClient));
    match next(&facts(Some(Ok(())), None, None)) {
        HfStep::FetchIndex(hf) => {
            assert_eq!((hf.repo_id.as_str(), hf.revision.as_deref()), ("o/n", Some("v")));
        }
        other => panic!("{:?}", other),
    }
    match next(&facts(Some(Ok(())), Some(Ok("/c/s/index.json")), None)) {
        HfStep::ListFiles(hf) => assert_eq!(hf.repo_id, "o/n"),
        other => panic!("{:?}", other),
    }
    match next(&facts(Some(Ok(())), Some(Ok("/c/s/index.json")), Some(&["a", INDEX_JSON, "b"]))) {
        HfStep::Finish { dir, fetch } => {
            assert_eq!(dir, "/c/s");
            assert_eq!(fetch, vec!["a", "b"]);
        }
        other => panic!("{:?}", other),
    }
}

#[test]
fn fetch_failures_say_why() {
    let why = |path: &str, f: HfFacts, progress: bool| {
        let step = if progress {
            resolve_hf_vindex_with_progress(path, &f)
        } else {
            resolve_hf_vindex(path, &f)
        };
        match step {
            HfStep::Failed(e) => wording(e),
            other => panic!("{:?}", other),
        }
    };
    assert_eq!(why("o/n", facts(None, None, None), false), "not an hf:// path: o/n");
    assert_eq!(
        why("hf://o/n", facts(Some(Err("x")), None, None), true),
        "HuggingFace API init failed: x"
    );
    assert_eq!(
        why("hf://o/n@v", facts(Some(Ok(())), Some(Err("gone")), None), false),
        "failed to download index.json from hf://o/n: gone"
    );
    assert_eq!(
        why("hf://o/n@v", facts(Some(Ok(())), Some(Err("gone")), None), true),
        "failed to fetch index.json from hf://o/n"
    );
    for index in ["index.json", "", "/c/blobs/etag"] {
        assert_eq!(
            why("hf://o/n", facts(Some(Ok(())), Some(Ok(index)), Some(&["a"])), true),
            "cannot determine vindex directory"
        );
    }
}

#[test]
fn progress_changes_no_outcome() {
    let f = facts(Some(Ok(())), Some(Ok("s/index.json")), Some(&["a"]));
    match (resolve_hf_vindex("hf://o/n", &f), resolve_hf_vindex_with_progress("hf://o/n", &f)) {
        (HfStep::Finish { dir: d1, fetch: f1 }, HfStep::Finish { dir: d2, fetch: f2 }) => {
            assert_eq!((d1, f1), (d2, f2));
        }
        other => panic!("{:?}", other),
    }
}

#[test]
fn weights_come_with_the_vindex() {
    assert!(download_hf_weights(Ok("/dir".to_string())).is_ok());
    let err = download_hf_weights(Err(VindexError::Parse("no".to_string()))).unwrap_err();
    assert_eq!(wording(err), "no");
}
