//! Finding cached vindexes in what the cache directories hold.
//!
//! In the hub cache a snapshot `models--<owner>--<name>/snapshots/<sha>/`, and in
//! the local cache a directory `<name>.vindex/`, counts as a cached vindex iff it
//! holds `index.json`.

use vstd::prelude::*;

use crate::dirs::{hf_hub_dir, hub_folder, larql_local_dir, CacheEnv};
use crate::entry::{entries, CacheSource, CachedEntry, CachedVindex};
use crate::error::{CacheError, CacheErrorView};
use crate::order::{
    entry_le, is_ordered, law_ordered_is_sorted, law_stable_sort_exists,
    law_stable_sort_keeps_entries, lemma_filter_none, lemma_two_filtered, listed_as, sort_entries,
    stable_sort,
};
use crate::path::{join, joined};
use crate::text::{
    first_occurrence, law_first_occurrence, law_first_occurrence_stands,
    law_first_part_is_replaced, law_no_occurrence,
    law_replaced_char_absent, law_replaced_char_of_parts, occurs_at, replace_first, replaced_char,
    replaced_first, strip_prefix, strip_suffix, text_le,
};

verus! {

/// What reading a directory gave.
pub enum Listing<T> {
    /// There is no such directory.
    Missing,
    /// The directory could not be read; the text is the system's own.
    Failed(String),
    /// What the directory holds, in the order read; `Err` stands for what could
    /// not be read, with the system's text.
    Entries(Vec<Result<T, String>>),
}

/// A directory below `snapshots/` of a repository in the hub cache.
pub struct SnapshotDir {
    pub name: String,
    /// It holds `index.json`.
    pub has_index: bool,
    /// When it was modified, in nanoseconds after the Unix epoch, where known.
    pub modified: Option<i128>,
    /// The bytes it takes on disk, where known.
    pub size_bytes: Option<u64>,
}

/// A directory of the hub cache, with what its `snapshots/` holds.
pub struct HubDir {
    pub name: String,
    pub snapshots: Listing<SnapshotDir>,
}

/// What the local cache holds under a name.
pub struct LocalDir {
    pub name: String,
    /// It is a directory or a symlink to one.
    pub is_dir: bool,
    /// It holds `index.json`.
    pub has_index: bool,
    /// The bytes it takes on disk, where known.
    pub size_bytes: Option<u64>,
}

/// What a directory holds under a name, as far as its size is concerned.
pub enum DirNode {
    /// A file of so many bytes.
    File(u64),
    /// A directory and what it holds.
    Dir(Vec<DirNode>),
    /// A directory that cannot be read to its end.
    Unreadable,
    /// Anything else, such as a symlink.
    Other,
}

/// The bytes that a node takes.
pub open spec fn node_bytes(node: DirNode) -> nat
    decreases node,
{
    match node {
        DirNode::File(n) => n as nat,
        DirNode::Dir(nodes) => total_bytes(nodes@),
        DirNode::Unreadable => 0,
        DirNode::Other => 0,
    }
}

/// The bytes that some nodes take together.
pub open spec fn total_bytes(nodes: Seq<DirNode>) -> nat
    decreases nodes,
{
    if nodes.len() == 0 {
        0
    } else {
        total_bytes(nodes.drop_last()) + node_bytes(nodes.last())
    }
}

proof fn lemma_total_monotone(nodes: Seq<DirNode>, k: int)
    requires
        0 <= k <= nodes.len(),
    ensures
        total_bytes(nodes.take(k)) <= total_bytes(nodes),
    decreases nodes.len() - k,
{
    if k == nodes.len() {
        assert(nodes.take(k) =~= nodes);
    } else {
        lemma_total_monotone(nodes, k + 1);
        assert(nodes.take(k + 1).drop_last() =~= nodes.take(k));
    }
}

fn checked_total(nodes: &Vec<DirNode>) -> (r: Option<u64>)
    ensures
        match r {
            Some(n) => n == total_bytes(nodes@),
            None => total_bytes(nodes@) > u64::MAX,
        },
    decreases nodes,
{
    let mut sum: u64 = 0;
    let mut i: usize = 0;
    while i < nodes.len()
        invariant
            i <= nodes.len(),
            sum == total_bytes(nodes@.take(i as int)),
        decreases nodes.len() - i,
    {
        proof {
            assert(nodes@.take(i + 1).drop_last() =~= nodes@.take(i as int));
            lemma_total_monotone(nodes@, i + 1);
            reveal_with_fuel(node_bytes, 2);
            reveal_with_fuel(total_bytes, 2);
        }
        let bytes: Option<u64> = match &nodes[i] {
            DirNode::File(n) => Some(*n),
            DirNode::Dir(inner) => checked_total(inner),
            DirNode::Unreadable => Some(0),
            DirNode::Other => Some(0),
        };
        match bytes {
            Some(n) => {
                if n > u64::MAX - sum {
                    return None;
                }
                sum = sum + n;
            },
            None => {
                return None;
            },
        }
        i = i + 1;
    }
    assert(nodes@.take(nodes.len() as int) =~= nodes@);
    Some(sum)
}

/// Whether the bytes of all that a directory holds can be counted in 64 bits.
pub fn dir_size_fits(contents: &Vec<DirNode>) -> (r: bool)
    ensures
        r == (total_bytes(contents@) <= u64::MAX),
{
    match checked_total(contents) {
        Some(_) => true,
        None => false,
    }
}

/// The bytes of all files below a directory. A directory further below that
/// cannot be read counts as empty; for the directory itself the system's text is
/// handed on.
pub fn dir_size_bytes(contents: &Result<Vec<DirNode>, String>) -> (r: Result<u64, CacheError>)
    requires
        match *contents {
            Ok(nodes) => total_bytes(nodes@) <= u64::MAX,
            Err(_) => true,
        },
    ensures
        match *contents {
            Ok(nodes) => r matches Ok(n) && n == total_bytes(nodes@),
            Err(text) => r matches Err(e) && e@ == CacheErrorView::Io(text@),
        },
{
    match contents {
        Ok(nodes) => Ok(checked_total(nodes).unwrap()),
        Err(text) => Err(CacheError::Io(text.clone())),
    }
}

/// The snapshot at `i` could be read and holds `index.json`.
pub open spec fn is_candidate(snapshots: Seq<Result<SnapshotDir, String>>, i: int) -> bool {
    &&& 0 <= i < snapshots.len()
    &&& snapshots[i] matches Ok(s) && s.has_index
}

/// When a snapshot was modified; one of unknown age counts as from the epoch.
pub open spec fn stamp(snapshot: Result<SnapshotDir, String>) -> int {
    match snapshot {
        Ok(s) => match s.modified {
            Some(t) => t as int,
            None => 0,
        },
        Err(_) => 0,
    }
}

/// The snapshot at `i` is the most recently modified one that holds
/// `index.json`, the last of those where several are.
pub open spec fn is_latest(snapshots: Seq<Result<SnapshotDir, String>>, i: int) -> bool {
    &&& is_candidate(snapshots, i)
    &&& forall|j: int| #[trigger]
        is_candidate(snapshots, j) ==> stamp(snapshots[j]) <= stamp(snapshots[i]) && (j > i
            ==> stamp(snapshots[j]) < stamp(snapshots[i]))
}

/// Which snapshot is loaded.
pub open spec fn latest(snapshots: Seq<Result<SnapshotDir, String>>) -> Option<int> {
    if exists|i: int| is_latest(snapshots, i) {
        Some(choose|i: int| is_latest(snapshots, i))
    } else {
        None
    }
}

/// Pick the most recently modified snapshot that has an `index.json`.
pub fn latest_snapshot(snapshots: &Vec<Result<SnapshotDir, String>>) -> (r: Option<usize>)
    ensures
        match r {
            Some(i) => is_latest(snapshots@, i as int) && latest(snapshots@) == Some(i as int),
            None => latest(snapshots@) is None && forall|j: int|
                !#[trigger] is_candidate(snapshots@, j),
        },
{
    let mut best: Option<usize> = None;
    let mut best_stamp: i128 = 0;
    let mut i: usize = 0;
    while i < snapshots.len()
        invariant
            i <= snapshots.len(),
            match best {
                Some(b) => {
                    &&& b < i
                    &&& is_candidate(snapshots@, b as int)
                    &&& best_stamp == stamp(snapshots@[b as int])
                    &&& forall|j: int| j < i && #[trigger]
                        is_candidate(snapshots@, j) ==> stamp(snapshots@[j]) <= best_stamp && (j > b
                            ==> stamp(snapshots@[j]) < best_stamp)
                },
                None => forall|j: int| j < i ==> !#[trigger] is_candidate(snapshots@, j),
            },
        decreases snapshots.len() - i,
    {
        match &snapshots[i] {
            Ok(s) => {
                if s.has_index {
                    let t: i128 = match s.modified {
                        Some(m) => m,
                        None => 0,
                    };
                    let newer: bool = match best {
                        Some(_) => t >= best_stamp,
                        None => true,
                    };
                    assert(is_candidate(snapshots@, i as int));
                    if newer {
                        best = Some(i);
                        best_stamp = t;
                    }
                }
            },
            Err(_) => {},
        }
        i = i + 1;
    }
    proof {
        match best {
            Some(b) => {
                assert(is_latest(snapshots@, b as int));
                let c = latest(snapshots@)->0;
                assert(is_latest(snapshots@, c));
                assert(c == b);
            },
            None => {},
        }
    }
    best
}

/// The repository that the directory `models--<owner>--<name>` of the hub cache
/// belongs to: `<owner>/<name>`.
pub open spec fn hub_repo(name: Seq<char>) -> Seq<char> {
    replaced_first(name.skip("models--"@.len() as int), "--"@, "/"@)
}

/// The name under which the local entry `<name>.vindex` is listed: `<name>`.
pub open spec fn local_repo(name: Seq<char>) -> Seq<char> {
    name.take(name.len() - ".vindex"@.len())
}

pub open spec fn known_size(size_bytes: Option<u64>) -> u64 {
    match size_bytes {
        Some(n) => n,
        None => 0,
    }
}

/// The entry that a directory of the hub cache `hub` makes, if any.
pub open spec fn hub_entry(hub: Seq<char>, dir: HubDir) -> Option<CachedEntry> {
    match dir.snapshots {
        Listing::Entries(snapshots) => match latest(snapshots@) {
            Some(i) => if "models--"@.is_prefix_of(dir.name@) {
                let s = snapshots@[i]->Ok_0;
                Some(
                    CachedEntry {
                        repo: hub_repo(dir.name@),
                        snapshot: joined(joined(joined(hub, dir.name@), "snapshots"@), s.name@),
                        size_bytes: known_size(s.size_bytes),
                        source: CacheSource::HuggingFace,
                    },
                )
            } else {
                None
            },
            None => None,
        },
        _ => None,
    }
}

/// The entry that what the local cache `local` holds under a name makes, if any.
pub open spec fn local_entry(local: Seq<char>, dir: LocalDir) -> Option<CachedEntry> {
    if dir.is_dir && dir.has_index && ".vindex"@.is_suffix_of(dir.name@) {
        Some(
            CachedEntry {
                repo: local_repo(dir.name@),
                snapshot: joined(local, dir.name@),
                size_bytes: known_size(dir.size_bytes),
                source: CacheSource::Local,
            },
        )
    } else {
        None
    }
}

pub open spec fn hub_entry_of(hub: Seq<char>) -> spec_fn(
    Result<HubDir, String>,
) -> Option<CachedEntry> {
    |item: Result<HubDir, String>|
        match item {
            Ok(dir) => hub_entry(hub, dir),
            Err(_) => None,
        }
}

pub open spec fn local_entry_of(local: Seq<char>) -> spec_fn(
    Result<LocalDir, String>,
) -> Option<CachedEntry> {
    |item: Result<LocalDir, String>|
        match item {
            Ok(dir) => local_entry(local, dir),
            Err(_) => None,
        }
}

/// What ends a scan of the hub cache at an item: the item cannot be read, or it
/// is the directory of a repository and its `snapshots/` cannot.
pub open spec fn hub_failure(item: Result<HubDir, String>) -> Option<Seq<char>> {
    match item {
        Err(text) => Some(text@),
        Ok(dir) => match dir.snapshots {
            Listing::Failed(text) => if "models--"@.is_prefix_of(dir.name@) {
                Some(text@)
            } else {
                None
            },
            _ => None,
        },
    }
}

/// The first failure among what the hub cache holds.
pub open spec fn first_hub_failure(items: Seq<Result<HubDir, String>>) -> Option<Seq<char>>
    decreases items.len(),
{
    if items.len() == 0 {
        None
    } else {
        match hub_failure(items.first()) {
            Some(text) => Some(text),
            None => first_hub_failure(items.drop_first()),
        }
    }
}

/// The first failure among what the local cache holds.
pub open spec fn first_local_failure(items: Seq<Result<LocalDir, String>>) -> Option<Seq<char>>
    decreases items.len(),
{
    if items.len() == 0 {
        None
    } else {
        match items.first() {
            Err(text) => Some(text@),
            Ok(_) => first_local_failure(items.drop_first()),
        }
    }
}

/// What a scan gave, as mathematical values.
pub open spec fn outcome(r: Result<Vec<CachedVindex>, CacheError>) -> Result<
    Seq<CachedEntry>,
    CacheErrorView,
> {
    match r {
        Ok(cache) => Ok(entries(cache@)),
        Err(e) => Err(e@),
    }
}

/// The cached vindexes of the hub cache.
pub open spec fn hub_scan(hub: Seq<char>, listing: Listing<HubDir>) -> Result<
    Seq<CachedEntry>,
    CacheErrorView,
> {
    match listing {
        Listing::Missing => Ok(Seq::empty()),
        Listing::Failed(text) => Err(CacheErrorView::Io(text@)),
        Listing::Entries(items) => match first_hub_failure(items@) {
            Some(text) => Err(CacheErrorView::Io(text)),
            None => Ok(stable_sort(items@.filter_map(hub_entry_of(hub)))),
        },
    }
}

/// The cached vindexes of the local cache.
pub open spec fn local_scan(local: Seq<char>, listing: Listing<LocalDir>) -> Result<
    Seq<CachedEntry>,
    CacheErrorView,
> {
    match listing {
        Listing::Missing => Ok(Seq::empty()),
        Listing::Failed(text) => Err(CacheErrorView::Io(text@)),
        Listing::Entries(items) => match first_local_failure(items@) {
            Some(text) => Err(CacheErrorView::Io(text)),
            None => Ok(stable_sort(items@.filter_map(local_entry_of(local)))),
        },
    }
}

/// The cached vindexes of two scanned caches, merged.
pub open spec fn merged(
    hub: Result<Seq<CachedEntry>, CacheErrorView>,
    local: Result<Seq<CachedEntry>, CacheErrorView>,
) -> Result<Seq<CachedEntry>, CacheErrorView> {
    match (hub, local) {
        (Err(e), _) => Err(e),
        (Ok(_), Err(e)) => Err(e),
        (Ok(h), Ok(l)) => Ok(stable_sort(h + l)),
    }
}

/// The cached vindexes of the caches that the environment names.
pub open spec fn env_scan(
    env: CacheEnv,
    hub_listing: Listing<HubDir>,
    local_listing: Listing<LocalDir>,
) -> Result<Seq<CachedEntry>, CacheErrorView> {
    match (env.hub_dir(), env.local_dir()) {
        (Some(hub), Some(local)) => merged(
            hub_scan(hub, hub_listing),
            local_scan(local, local_listing),
        ),
        _ => Err(CacheErrorView::NoHome),
    }
}

fn size_or_zero(size_bytes: Option<u64>) -> (r: u64)
    ensures
        r == known_size(size_bytes),
{
    match size_bytes {
        Some(n) => n,
        None => 0,
    }
}

/// Whether a directory of the hub cache is named as that of a model repository.
pub fn is_repo_dir(name: &str) -> (r: bool)
    ensures
        r == "models--"@.is_prefix_of(name@),
{
    strip_prefix(name, "models--").is_some()
}

/// The entry that a directory of the hub cache makes, if any; `Err` with the
/// system's text where its `snapshots/` had to be read and could not.
fn hub_dir_entry(hub: &str, dir: &HubDir) -> (r: Result<Option<CachedVindex>, String>)
    ensures
        match r {
            Ok(Some(c)) => hub_entry(hub@, *dir) == Some(c@),
            Ok(None) => hub_entry(hub@, *dir) is None,
            Err(_) => true,
        },
        match r {
            Ok(_) => hub_failure(Ok(*dir)) is None,
            Err(text) => hub_failure(Ok(*dir)) == Some(text@),
        },
{
    let name: &str = dir.name.as_str();
    let repo: String = match strip_prefix(name, "models--") {
        Some(rest) => replace_first(rest, "--", "/"),
        None => {
            return Ok(None);
        },
    };
    match &dir.snapshots {
        Listing::Missing => Ok(None),
        Listing::Failed(text) => Err(text.clone()),
        Listing::Entries(snapshots) => match latest_snapshot(snapshots) {
            Some(i) => match &snapshots[i] {
                Ok(s) => {
                    let dir_path = join(hub, name);
                    let snapshots_path = join(dir_path.as_str(), "snapshots");
                    Ok(
                        Some(
                            CachedVindex {
                                repo,
                                snapshot: join(snapshots_path.as_str(), s.name.as_str()),
                                size_bytes: size_or_zero(s.size_bytes),
                                source: CacheSource::HuggingFace,
                            },
                        ),
                    )
                },
                Err(_) => Ok(None),
            },
            None => Ok(None),
        },
    }
}

/// Scan the HuggingFace hub cache only.
pub fn scan_hf_hub_at(hub: &str, listing: &Listing<HubDir>) -> (r: Result<
    Vec<CachedVindex>,
    CacheError,
>)
    ensures
        outcome(r) == hub_scan(hub@, *listing),
{
    match listing {
        Listing::Missing => {
            let none: Vec<CachedVindex> = Vec::new();
            assert(entries(none@) =~= Seq::empty());
            Ok(none)
        },
        Listing::Failed(text) => Err(CacheError::Io(text.clone())),
        Listing::Entries(items) => {
            let mut out: Vec<CachedVindex> = Vec::new();
            let mut i: usize = 0;
            let ghost f = hub_entry_of(hub@);
            assert(entries(out@) =~= items@.take(0).filter_map(f));
            assert(items@.skip(0) =~= items@);
            while i < items.len()
                invariant
                    i <= items.len(),
                    f == hub_entry_of(hub@),
                    entries(out@) == items@.take(i as int).filter_map(f),
                    first_hub_failure(items@) == first_hub_failure(items@.skip(i as int)),
                    *listing matches Listing::Entries(v) && v == *items,
                decreases items.len() - i,
            {
                let ghost before = out@;
                proof {
                    items@.lemma_filter_map_take_succ(f, i as int);
                    assert(items@.skip(i as int).drop_first() =~= items@.skip(i + 1));
                }
                match &items[i] {
                    Err(text) => {
                        return Err(CacheError::Io(text.clone()));
                    },
                    Ok(dir) => match hub_dir_entry(hub, dir) {
                        Err(text) => {
                            return Err(CacheError::Io(text));
                        },
                        Ok(Some(c)) => {
                            out.push(c);
                            assert(entries(out@) =~= entries(before) + seq![c@]);
                        },
                        Ok(None) => {},
                    },
                }
                i = i + 1;
            }
            assert(items@.take(items.len() as int) =~= items@);
            Ok(sort_entries(out))
        },
    }
}

/// Scan the LARQL local cache only. Each entry is a directory (or symlink to
/// one) whose name ends in `.vindex` and which contains an `index.json`; it is
/// listed without the `.vindex`.
pub fn scan_local_at(local: &str, listing: &Listing<LocalDir>) -> (r: Result<
    Vec<CachedVindex>,
    CacheError,
>)
    ensures
        outcome(r) == local_scan(local@, *listing),
{
    match listing {
        Listing::Missing => {
            let none: Vec<CachedVindex> = Vec::new();
            assert(entries(none@) =~= Seq::empty());
            Ok(none)
        },
        Listing::Failed(text) => Err(CacheError::Io(text.clone())),
        Listing::Entries(items) => {
            let mut out: Vec<CachedVindex> = Vec::new();
            let mut i: usize = 0;
            let ghost f = local_entry_of(local@);
            assert(entries(out@) =~= items@.take(0).filter_map(f));
            assert(items@.skip(0) =~= items@);
            while i < items.len()
                invariant
                    i <= items.len(),
                    f == local_entry_of(local@),
                    entries(out@) == items@.take(i as int).filter_map(f),
                    first_local_failure(items@) == first_local_failure(items@.skip(i as int)),
                    *listing matches Listing::Entries(v) && v == *items,
                decreases items.len() - i,
            {
                let ghost before = out@;
                proof {
                    items@.lemma_filter_map_take_succ(f, i as int);
                    assert(items@.skip(i as int).drop_first() =~= items@.skip(i + 1));
                }
                match &items[i] {
                    Err(text) => {
                        return Err(CacheError::Io(text.clone()));
                    },
                    Ok(dir) => {
                        let name: &str = dir.name.as_str();
                        match strip_suffix(name, ".vindex") {
                            Some(stem) => {
                                if dir.is_dir && dir.has_index {
                                    let c = CachedVindex {
                                        repo: stem.to_owned(),
                                        snapshot: join(local, name),
                                        size_bytes: size_or_zero(dir.size_bytes),
                                        source: CacheSource::Local,
                                    };
                                    out.push(c);
                                    assert(entries(out@) =~= entries(before) + seq![c@]);
                                }
                            },
                            None => {},
                        }
                    },
                }
                i = i + 1;
            }
            assert(items@.take(items.len() as int) =~= items@);
            Ok(sort_entries(out))
        },
    }
}

/// Scan both a hub-shaped directory and a local-shaped one and return the
/// merged list, sorted by `(source, repo)`: hub entries first, then local ones.
pub fn scan_cached_vindexes_at_both(
    hub: &str,
    hub_listing: &Listing<HubDir>,
    local: &str,
    local_listing: &Listing<LocalDir>,
) -> (r: Result<Vec<CachedVindex>, CacheError>)
    ensures
        outcome(r) == merged(hub_scan(hub@, *hub_listing), local_scan(local@, *local_listing)),
{
    match scan_hf_hub_at(hub, hub_listing) {
        Err(e) => Err(e),
        Ok(mut out) => match scan_local_at(local, local_listing) {
            Err(e) => Err(e),
            Ok(mut more) => {
                let ghost h = out@;
                let ghost l = more@;
                out.append(&mut more);
                assert(entries(out@) =~= entries(h) + entries(l));
                Ok(sort_entries(out))
            },
        },
    }
}

/// Scan both caches, where the environment says they lie, for every cached
/// vindex.
pub fn scan_cached_vindexes(
    env: &CacheEnv,
    hub_listing: &Listing<HubDir>,
    local_listing: &Listing<LocalDir>,
) -> (r: Result<Vec<CachedVindex>, CacheError>)
    ensures
        outcome(r) == env_scan(*env, *hub_listing, *local_listing),
{
    match hf_hub_dir(env) {
        Err(e) => Err(e),
        Ok(hub) => match larql_local_dir(env) {
            Err(e) => Err(e),
            Ok(local) => scan_cached_vindexes_at_both(
                hub.as_str(),
                hub_listing,
                local.as_str(),
                local_listing,
            ),
        },
    }
}

proof fn lemma_sorted_contains(s: Seq<CachedEntry>, e: CachedEntry)
    requires
        stable_sort(s).contains(e),
    ensures
        s.contains(e),
{
    law_stable_sort_keeps_entries(s);
    vstd::seq_lib::to_multiset_contains(s, e);
    vstd::seq_lib::to_multiset_contains(stable_sort(s), e);
}

proof fn lemma_hub_scan_is_ordered(hub: Seq<char>, listing: Listing<HubDir>)
    requires
        hub_scan(hub, listing) is Ok,
    ensures
        is_ordered(hub_scan(hub, listing)->Ok_0),
        forall|i: int|
            0 <= i < hub_scan(hub, listing)->Ok_0.len() ==> (#[trigger] hub_scan(
                hub,
                listing,
            )->Ok_0[i]).source == CacheSource::HuggingFace,
{
    let h = hub_scan(hub, listing)->Ok_0;
    if let Listing::Entries(items) = listing {
        let found = items@.filter_map(hub_entry_of(hub));
        law_stable_sort_exists(found);
        assert forall|i: int| 0 <= i < h.len() implies (#[trigger] h[i]).source
            == CacheSource::HuggingFace by {
            assert(stable_sort(found).contains(h[i]));
            lemma_sorted_contains(found, h[i]);
            items@.lemma_filter_map_contains(hub_entry_of(hub), h[i]);
        }
    }
}

proof fn lemma_local_scan_is_ordered(local: Seq<char>, listing: Listing<LocalDir>)
    requires
        local_scan(local, listing) is Ok,
    ensures
        is_ordered(local_scan(local, listing)->Ok_0),
        forall|i: int|
            0 <= i < local_scan(local, listing)->Ok_0.len() ==> (#[trigger] local_scan(
                local,
                listing,
            )->Ok_0[i]).source == CacheSource::Local,
{
    let l = local_scan(local, listing)->Ok_0;
    if let Listing::Entries(items) = listing {
        let found = items@.filter_map(local_entry_of(local));
        law_stable_sort_exists(found);
        assert forall|i: int| 0 <= i < l.len() implies (#[trigger] l[i]).source
            == CacheSource::Local by {
            assert(stable_sort(found).contains(l[i]));
            lemma_sorted_contains(found, l[i]);
            items@.lemma_filter_map_contains(local_entry_of(local), l[i]);
        }
    }
}

/// A scan of one cache lists its entries alphabetically by name, all of them
/// from that cache.
pub proof fn law_scan_is_alphabetical(
    hub: Seq<char>,
    hub_listing: Listing<HubDir>,
    local: Seq<char>,
    local_listing: Listing<LocalDir>,
)
    ensures
        hub_scan(hub, hub_listing) matches Ok(h) ==> {
            &&& forall|i: int, j: int|
                0 <= i < j < h.len() ==> text_le((#[trigger] h[i]).repo, (#[trigger] h[j]).repo)
            &&& forall|i: int| 0 <= i < h.len() ==> (#[trigger] h[i]).source
                == CacheSource::HuggingFace
        },
        local_scan(local, local_listing) matches Ok(l) ==> {
            &&& forall|i: int, j: int|
                0 <= i < j < l.len() ==> text_le((#[trigger] l[i]).repo, (#[trigger] l[j]).repo)
            &&& forall|i: int| 0 <= i < l.len() ==> (#[trigger] l[i]).source == CacheSource::Local
        },
{
    if hub_scan(hub, hub_listing) is Ok {
        lemma_hub_scan_is_ordered(hub, hub_listing);
        let h = hub_scan(hub, hub_listing)->Ok_0;
        assert forall|i: int, j: int| 0 <= i < j < h.len() implies text_le(
            (#[trigger] h[i]).repo,
            (#[trigger] h[j]).repo,
        ) by {
            assert(entry_le(h[i], h[j]));
        }
    }
    if local_scan(local, local_listing) is Ok {
        lemma_local_scan_is_ordered(local, local_listing);
        let l = local_scan(local, local_listing)->Ok_0;
        assert forall|i: int, j: int| 0 <= i < j < l.len() implies text_le(
            (#[trigger] l[i]).repo,
            (#[trigger] l[j]).repo,
        ) by {
            assert(entry_le(l[i], l[j]));
        }
    }
}

/// The merged list is the list of the hub cache followed by that of the local
/// one.
pub proof fn law_merged_is_hub_then_local(
    hub: Seq<char>,
    hub_listing: Listing<HubDir>,
    local: Seq<char>,
    local_listing: Listing<LocalDir>,
)
    requires
        hub_scan(hub, hub_listing) is Ok,
        local_scan(local, local_listing) is Ok,
    ensures
        merged(hub_scan(hub, hub_listing), local_scan(local, local_listing)) == Ok::<
            Seq<CachedEntry>,
            CacheErrorView,
        >(hub_scan(hub, hub_listing)->Ok_0 + local_scan(local, local_listing)->Ok_0),
{
    lemma_hub_scan_is_ordered(hub, hub_listing);
    lemma_local_scan_is_ordered(local, local_listing);
    let h = hub_scan(hub, hub_listing)->Ok_0;
    let l = local_scan(local, local_listing)->Ok_0;
    let both = h + l;
    assert forall|i: int, j: int| 0 <= i < j < both.len() implies entry_le(
        #[trigger] both[i],
        #[trigger] both[j],
    ) by {
        if j < h.len() {
            assert(both[i] == h[i] && both[j] == h[j]);
        } else if i < h.len() {
            assert(both[i] == h[i] && both[j] == l[j - h.len()]);
        } else {
            assert(both[i] == l[i - h.len()] && both[j] == l[j - h.len()]);
        }
    }
    law_ordered_is_sorted(both);
}

pub(crate) proof fn lemma_filter_map_holds<A>(
    s: Seq<A>,
    f: spec_fn(A) -> Option<CachedEntry>,
    k: int,
    e: CachedEntry,
)
    requires
        0 <= k < s.len(),
        f(s[k]) == Some(e),
    ensures
        s.filter_map(f).contains(e),
    decreases s.len(),
{
    let t = s.drop_last();
    if k == s.len() - 1 {
        assert(s.filter_map(f).last() == e);
    } else {
        assert(t[k] == s[k]);
        lemma_filter_map_holds(t, f, k, e);
        let j = t.filter_map(f).index_of(e);
        assert(s.filter_map(f)[j] == e);
    }
}

/// Where both caches could be scanned, the merged list holds what each of the
/// directories makes.
pub proof fn law_merged_holds_each_entry(
    hub: Seq<char>,
    hub_listing: Listing<HubDir>,
    local: Seq<char>,
    local_listing: Listing<LocalDir>,
    e: CachedEntry,
)
    requires
        hub_scan(hub, hub_listing) is Ok,
        local_scan(local, local_listing) is Ok,
        (hub_listing matches Listing::Entries(items) && exists|k: int|
            0 <= k < items@.len() && hub_entry_of(hub)(#[trigger] items@[k]) == Some(e)) || (
        local_listing matches Listing::Entries(items) && exists|k: int|
            0 <= k < items@.len() && local_entry_of(local)(#[trigger] items@[k]) == Some(e)),
    ensures
        merged(
            hub_scan(hub, hub_listing),
            local_scan(local, local_listing),
        ) matches Ok(both) && both.contains(e),
{
    law_merged_is_hub_then_local(hub, hub_listing, local, local_listing);
    let h = hub_scan(hub, hub_listing)->Ok_0;
    let l = local_scan(local, local_listing)->Ok_0;
    let both = h + l;
    if hub_listing matches Listing::Entries(items) && exists|k: int|
        0 <= k < items@.len() && hub_entry_of(hub)(#[trigger] items@[k]) == Some(e) {
        let items = hub_listing->Entries_0@;
        let k = choose|k: int|
            0 <= k < items.len() && hub_entry_of(hub)(#[trigger] items[k]) == Some(e);
        lemma_filter_map_holds(items, hub_entry_of(hub), k, e);
        lemma_sorted_holds(items.filter_map(hub_entry_of(hub)), e);
        let j = h.index_of(e);
        assert(both[j] == e);
    } else {
        let items = local_listing->Entries_0@;
        let k = choose|k: int|
            0 <= k < items.len() && local_entry_of(local)(#[trigger] items[k]) == Some(e);
        lemma_filter_map_holds(items, local_entry_of(local), k, e);
        lemma_sorted_holds(items.filter_map(local_entry_of(local)), e);
        let j = l.index_of(e);
        assert(both[h.len() + j] == e);
    }
}

proof fn lemma_sorted_holds(s: Seq<CachedEntry>, e: CachedEntry)
    requires
        s.contains(e),
    ensures
        stable_sort(s).contains(e),
{
    law_stable_sort_keeps_entries(s);
    vstd::seq_lib::to_multiset_contains(s, e);
    vstd::seq_lib::to_multiset_contains(stable_sort(s), e);
}

/// A scan lists exactly what the directories it could read make: nothing is
/// added, dropped or listed twice.
pub proof fn law_scan_lists_each_entry_once(
    hub: Seq<char>,
    hub_items: Vec<Result<HubDir, String>>,
    local: Seq<char>,
    local_items: Vec<Result<LocalDir, String>>,
)
    ensures
        hub_scan(hub, Listing::Entries(hub_items)) matches Ok(h) ==> h.to_multiset()
            == hub_items@.filter_map(hub_entry_of(hub)).to_multiset(),
        local_scan(local, Listing::Entries(local_items)) matches Ok(l) ==> l.to_multiset()
            == local_items@.filter_map(local_entry_of(local)).to_multiset(),
{
    law_stable_sort_keeps_entries(hub_items@.filter_map(hub_entry_of(hub)));
    law_stable_sort_keeps_entries(local_items@.filter_map(local_entry_of(local)));
}

proof fn lemma_filter_map_remove<A>(s: Seq<A>, f: spec_fn(A) -> Option<CachedEntry>, k: int)
    requires
        0 <= k < s.len(),
    ensures
        s.remove(k).filter_map(f).to_multiset() == match f(s[k]) {
            Some(e) => s.filter_map(f).to_multiset().remove(e),
            None => s.filter_map(f).to_multiset(),
        },
    decreases s.len(),
{
    broadcast use vstd::seq_lib::group_to_multiset_ensures;

    let t = s.drop_last();
    let rest = s.remove(k);
    if k == s.len() - 1 {
        assert(rest =~= t);
        if let Some(e) = f(s[k]) {
            assert(s.filter_map(f) =~= t.filter_map(f).push(e));
            assert(s.filter_map(f).to_multiset().remove(e) =~= t.filter_map(f).to_multiset());
        }
    } else {
        assert(rest.drop_last() =~= t.remove(k));
        assert(rest.last() == s.last());
        assert(t[k] == s[k]);
        lemma_filter_map_remove(t, f, k);
        if let Some(e) = f(s[k]) {
            lemma_filter_map_holds(t, f, k, e);
            vstd::seq_lib::to_multiset_contains(t.filter_map(f), e);
        }
        if let Some(x) = f(s.last()) {
            assert(s.filter_map(f) =~= t.filter_map(f).push(x));
            assert(rest.filter_map(f) =~= t.remove(k).filter_map(f).push(x));
            assert(rest.filter_map(f).to_multiset() =~= match f(s[k]) {
                Some(e) => s.filter_map(f).to_multiset().remove(e),
                None => s.filter_map(f).to_multiset(),
            });
        }
    }
}

proof fn lemma_no_hub_failure(items: Seq<Result<HubDir, String>>)
    ensures
        first_hub_failure(items) is None <==> forall|i: int|
            0 <= i < items.len() ==> hub_failure(#[trigger] items[i]) is None,
    decreases items.len(),
{
    if items.len() > 0 {
        let rest = items.drop_first();
        lemma_no_hub_failure(rest);
        assert forall|i: int| 0 <= i < rest.len() implies #[trigger] rest[i] == items[i + 1] by {}
        assert forall|i: int| 1 <= i < items.len() implies #[trigger] items[i] == rest[i - 1] by {}
    }
}

proof fn lemma_no_local_failure(items: Seq<Result<LocalDir, String>>)
    ensures
        first_local_failure(items) is None <==> forall|i: int|
            0 <= i < items.len() ==> (#[trigger] items[i]) is Ok,
    decreases items.len(),
{
    if items.len() > 0 {
        let rest = items.drop_first();
        lemma_no_local_failure(rest);
        assert forall|i: int| 0 <= i < rest.len() implies #[trigger] rest[i] == items[i + 1] by {}
        assert forall|i: int| 1 <= i < items.len() implies #[trigger] items[i] == rest[i - 1] by {}
    }
}

/// Once a directory is gone from the hub cache, a scan lists what it listed
/// before but for the entry that the directory made.
pub proof fn law_removed_hub_directory_is_not_listed(
    hub: Seq<char>,
    items: Vec<Result<HubDir, String>>,
    rest: Vec<Result<HubDir, String>>,
    k: int,
)
    requires
        0 <= k < items@.len(),
        rest@ == items@.remove(k),
        hub_scan(hub, Listing::Entries(items)) is Ok,
    ensures
        hub_scan(hub, Listing::Entries(rest)) matches Ok(after) && after.to_multiset()
            == match hub_entry_of(hub)(items@[k]) {
            Some(e) => hub_scan(hub, Listing::Entries(items))->Ok_0.to_multiset().remove(e),
            None => hub_scan(hub, Listing::Entries(items))->Ok_0.to_multiset(),
        },
{
    lemma_no_hub_failure(items@);
    lemma_no_hub_failure(rest@);
    assert forall|i: int| 0 <= i < rest@.len() implies hub_failure(#[trigger] rest@[i]) is None by {
        assert(rest@[i] == items@[if i < k { i } else { i + 1 }]);
    }
    lemma_filter_map_remove(items@, hub_entry_of(hub), k);
    law_stable_sort_keeps_entries(items@.filter_map(hub_entry_of(hub)));
    law_stable_sort_keeps_entries(rest@.filter_map(hub_entry_of(hub)));
}

/// Once a directory or a symlink is gone from the local cache, a scan lists what
/// it listed before but for the entry that was made of it.
pub proof fn law_removed_local_directory_is_not_listed(
    local: Seq<char>,
    items: Vec<Result<LocalDir, String>>,
    rest: Vec<Result<LocalDir, String>>,
    k: int,
)
    requires
        0 <= k < items@.len(),
        rest@ == items@.remove(k),
        local_scan(local, Listing::Entries(items)) is Ok,
    ensures
        local_scan(local, Listing::Entries(rest)) matches Ok(after) && after.to_multiset()
            == match local_entry_of(local)(items@[k]) {
            Some(e) => local_scan(local, Listing::Entries(items))->Ok_0.to_multiset().remove(e),
            None => local_scan(local, Listing::Entries(items))->Ok_0.to_multiset(),
        },
{
    lemma_no_local_failure(items@);
    lemma_no_local_failure(rest@);
    assert forall|i: int| 0 <= i < rest@.len() implies (#[trigger] rest@[i]) is Ok by {
        assert(rest@[i] == items@[if i < k { i } else { i + 1 }]);
    }
    lemma_filter_map_remove(items@, local_entry_of(local), k);
    law_stable_sort_keeps_entries(items@.filter_map(local_entry_of(local)));
    law_stable_sort_keeps_entries(rest@.filter_map(local_entry_of(local)));
}

proof fn lemma_latest_exists(snapshots: Seq<Result<SnapshotDir, String>>, best: int, from: int)
    requires
        is_candidate(snapshots, best),
        best < from <= snapshots.len(),
        forall|j: int| j < from && #[trigger]
            is_candidate(snapshots, j) ==> stamp(snapshots[j]) <= stamp(snapshots[best]) && (j
                > best ==> stamp(snapshots[j]) < stamp(snapshots[best])),
    ensures
        exists|i: int| is_latest(snapshots, i),
    decreases snapshots.len() - from,
{
    if from == snapshots.len() {
        assert(is_latest(snapshots, best));
    } else if is_candidate(snapshots, from) && stamp(snapshots[from]) >= stamp(snapshots[best]) {
        lemma_latest_exists(snapshots, from, from + 1);
    } else {
        lemma_latest_exists(snapshots, best, from + 1);
    }
}

proof fn lemma_some_latest(snapshots: Seq<Result<SnapshotDir, String>>, i: int)
    requires
        is_candidate(snapshots, i),
    ensures
        latest(snapshots) is Some,
    decreases i,
{
    if exists|j: int| j < i && #[trigger] is_candidate(snapshots, j) {
        let j = choose|j: int| j < i && #[trigger] is_candidate(snapshots, j);
        lemma_some_latest(snapshots, j);
    } else {
        lemma_latest_exists(snapshots, i, i + 1);
    }
}

/// A directory of the hub cache makes an entry iff it is named as that of a
/// model repository and one of its snapshots holds `index.json`; the entry's
/// snapshot is then one that does.
pub proof fn law_hub_entry_iff_index(hub: Seq<char>, dir: HubDir)
    ensures
        hub_entry(hub, dir) is Some <==> "models--"@.is_prefix_of(dir.name@) && (
        match dir.snapshots {
            Listing::Entries(v) => exists|i: int| is_candidate(v@, i),
            _ => false,
        }),
        hub_entry(hub, dir) matches Some(e) ==> exists|i: int|
            #![trigger is_candidate(dir.snapshots->Entries_0@, i)]
            is_candidate(dir.snapshots->Entries_0@, i) && e.snapshot == joined(
                joined(joined(hub, dir.name@), "snapshots"@),
                (dir.snapshots->Entries_0@[i]->Ok_0).name@,
            ),
{
    if let Listing::Entries(v) = dir.snapshots {
        if exists|i: int| is_candidate(v@, i) {
            let i = choose|i: int| is_candidate(v@, i);
            lemma_some_latest(v@, i);
        }
        if latest(v@) is Some {
            assert(is_candidate(v@, latest(v@)->0));
        }
    }
}

/// What the local cache holds under a name makes an entry iff the name ends in
/// `.vindex` and it is a directory, or a symlink to one, that holds `index.json`.
pub proof fn law_local_entry_iff_index(local: Seq<char>, dir: LocalDir)
    ensures
        local_entry(local, dir) is Some <==> dir.is_dir && dir.has_index
            && ".vindex"@.is_suffix_of(dir.name@),
{
}

/// The name of an `owner/name` repository is read back from the directory that
/// the hub cache keeps it in.
pub proof fn law_repo_name_round_trip(owner: Seq<char>, name: Seq<char>)
    requires
        !owner.contains('/'),
        !name.contains('/'),
        forall|i: int| !occurs_at(owner, "--"@, i),
        owner.len() > 0 ==> owner.last() != '-',
    ensures
        "models--"@.is_prefix_of(hub_folder(owner + "/"@ + name)),
        hub_repo(hub_folder(owner + "/"@ + name)) == owner + "/"@ + name,
{
    reveal_strlit("models--");
    reveal_strlit("--");
    reveal_strlit("/");
    let id = owner + "/"@ + name;
    let o = owner.len() as int;
    law_replaced_char_of_parts(owner + "/"@, name, '/', "--"@);
    law_replaced_char_of_parts(owner, "/"@, '/', "--"@);
    law_replaced_char_absent(owner, '/', "--"@);
    law_replaced_char_absent(name, '/', "--"@);
    reveal_with_fuel(replaced_char, 2);
    assert("/"@.drop_last() =~= Seq::empty());
    assert(replaced_char("/"@, '/', "--"@) =~= "--"@);
    let body = owner + "--"@ + name;
    let folder = hub_folder(id);
    assert(folder =~= "models--"@ + body);
    assert("models--"@ =~= folder.subrange(0, 8));
    assert(folder.skip(8) =~= body);
    assert(body.subrange(o, o + 2) =~= "--"@);
    assert forall|i: int| 0 <= i < o implies !occurs_at(body, "--"@, i) by {
        if occurs_at(body, "--"@, i) {
            assert(body.subrange(i, i + 2)[0] == body[i]);
            assert(body.subrange(i, i + 2)[1] == body[i + 1]);
            if i + 1 < o {
                assert(owner.subrange(i, i + 2) =~= "--"@);
                assert(occurs_at(owner, "--"@, i));
            } else {
                assert(owner.last() == body[i]);
            }
        }
    }
    law_first_occurrence(body, "--"@, 0, o);
    assert(body.take(o) + "/"@ + body.skip(o + 2) =~= id);
}

/// The name of a repository without an owner is read back from the directory
/// that the hub cache keeps it in.
pub proof fn law_bare_name_round_trip(name: Seq<char>)
    requires
        !name.contains('/'),
        forall|i: int| !occurs_at(name, "--"@, i),
    ensures
        "models--"@.is_prefix_of(hub_folder(name)),
        hub_repo(hub_folder(name)) == name,
{
    reveal_strlit("models--");
    reveal_strlit("--");
    law_replaced_char_absent(name, '/', "--"@);
    let folder = hub_folder(name);
    assert("models--"@ =~= folder.subrange(0, 8));
    assert(folder.skip(8) =~= name);
    law_no_occurrence(name, "--"@, 0);
}

/// A vindex linked under `<name>.vindex` is listed as `<name>`.
pub proof fn law_local_name_round_trip(name: Seq<char>)
    ensures
        ".vindex"@.is_suffix_of(name + ".vindex"@),
        local_repo(name + ".vindex"@) == name,
{
    let full = name + ".vindex"@;
    assert(".vindex"@ =~= full.subrange(full.len() - ".vindex"@.len(), full.len() as int));
    assert(full.take(full.len() - ".vindex"@.len()) =~= name);
}

/// What can be told of the names that a directory of the file system holds: none
/// holds a `/`, and none is there twice.
pub open spec fn hub_names_are_apart(items: Seq<Result<HubDir, String>>) -> bool {
    &&& forall|i: int|
        0 <= i < items.len() ==> (#[trigger] items[i] matches Ok(dir) ==> !dir.name@.contains('/'))
    &&& forall|i: int, j: int|
        0 <= i < j < items.len() ==> (#[trigger] items[i] matches Ok(a) ==> (
        #[trigger] items[j] matches Ok(b) ==> a.name@ != b.name@))
}

/// No name that a directory of the file system holds has a `/` in it.
pub open spec fn local_names_are_plain(listing: Listing<LocalDir>) -> bool {
    match listing {
        Listing::Entries(items) => forall|i: int|
            0 <= i < items@.len() ==> (#[trigger] items@[i] matches Ok(dir)
                ==> !dir.name@.contains('/')),
        _ => true,
    }
}

/// At most one entry is listed under exactly `repo`.
pub open spec fn is_listed_once(cache: Seq<CachedEntry>, repo: Seq<char>) -> bool {
    forall|i: int, j: int|
        0 <= i < j < cache.len() ==> !((#[trigger] cache[i]).repo == repo && (
        #[trigger] cache[j]).repo == repo)
}

proof fn lemma_repo_keeps_slash_at(body: Seq<char>)
    requires
        !body.contains('/'),
    ensures
        match first_occurrence(body, "--"@, 0) {
            Some(i) => {
                let repo = replaced_first(body, "--"@, "/"@);
                &&& 0 <= i < repo.len()
                &&& repo[i] == '/'
                &&& forall|k: int| 0 <= k < repo.len() && k != i ==> #[trigger] repo[k] != '/'
                &&& body == repo.take(i) + "--"@ + repo.skip(i + 1)
            },
            None => replaced_first(body, "--"@, "/"@) == body,
        },
{
    reveal_strlit("--");
    reveal_strlit("/");
    law_first_occurrence_stands(body, "--"@, 0);
    if let Some(i) = first_occurrence(body, "--"@, 0) {
        let repo = replaced_first(body, "--"@, "/"@);
        assert forall|k: int| 0 <= k < repo.len() && k != i implies #[trigger] repo[k] != '/' by {
            assert(body.contains(body[if k < i { k } else { k + 1 }]));
        }
        assert(body.subrange(i, i + 2) =~= "--"@);
        assert(repo.take(i) =~= body.take(i));
        assert(repo.skip(i + 1) =~= body.skip(i + 2));
        assert(body =~= body.take(i) + body.subrange(i, i + 2) + body.skip(i + 2));
    }
}

/// Two directories of the hub cache belong to the same repository only where
/// they have the same name.
pub proof fn law_hub_repos_tell_apart(one: Seq<char>, other: Seq<char>)
    requires
        "models--"@.is_prefix_of(one),
        "models--"@.is_prefix_of(other),
        !one.contains('/'),
        !other.contains('/'),
        hub_repo(one) == hub_repo(other),
    ensures
        one == other,
{
    let m = "models--"@;
    let n = m.len() as int;
    let a = one.skip(n);
    let b = other.skip(n);
    assert(!a.contains('/')) by {
        if a.contains('/') {
            let k = a.index_of('/');
            assert(one[k + n] == '/');
        }
    }
    assert(!b.contains('/')) by {
        if b.contains('/') {
            let k = b.index_of('/');
            assert(other[k + n] == '/');
        }
    }
    lemma_repo_keeps_slash_at(a);
    lemma_repo_keeps_slash_at(b);
    let repo = hub_repo(one);
    match (first_occurrence(a, "--"@, 0), first_occurrence(b, "--"@, 0)) {
        (Some(i), Some(j)) => {
            assert(i == j);
        },
        (Some(i), None) => {
            assert(b.contains(b[i]));
        },
        (None, Some(j)) => {
            assert(a.contains(a[j]));
        },
        (None, None) => {},
    }
    assert(a == b);
    assert(one =~= one.subrange(0, n) + a);
    assert(other =~= other.subrange(0, n) + b);
}

proof fn lemma_hub_entries_apart(hub: Seq<char>, items: Seq<Result<HubDir, String>>, repo: Seq<char>)
    requires
        hub_names_are_apart(items),
    ensures
        items.filter_map(hub_entry_of(hub)).filter(
            listed_as(CacheSource::HuggingFace, repo),
        ).len() <= 1,
    decreases items.len(),
{
    let f = hub_entry_of(hub);
    let p = listed_as(CacheSource::HuggingFace, repo);
    reveal(Seq::filter);
    if items.len() > 0 {
        let t = items.drop_last();
        assert forall|i: int| 0 <= i < t.len() implies #[trigger] t[i] == items[i] by {}
        lemma_hub_entries_apart(hub, t, repo);
        if let Some(e) = f(items.last()) {
            assert(items.filter_map(f) =~= t.filter_map(f).push(e));
            assert(items.filter_map(f).drop_last() =~= t.filter_map(f));
            if p(e) {
                let before = t.filter_map(f);
                assert forall|k: int| 0 <= k < before.len() implies !p(#[trigger] before[k]) by {
                    if p(before[k]) {
                        assert(before.contains(before[k]));
                        t.lemma_filter_map_contains(f, before[k]);
                        let i = choose|i: int|
                            0 <= i < t.len() && f(#[trigger] t[i]) == Some(before[k]);
                        law_hub_repos_tell_apart(
                            (items[i]->Ok_0).name@,
                            (items.last()->Ok_0).name@,
                        );
                    }
                }
                lemma_filter_none(before, p);
            }
        }
    }
}

/// At most one cached vindex is listed under a name with a `/`.
pub proof fn law_full_names_are_listed_once(
    hub: Seq<char>,
    hub_listing: Listing<HubDir>,
    local: Seq<char>,
    local_listing: Listing<LocalDir>,
    repo: Seq<char>,
)
    requires
        hub_listing matches Listing::Entries(items) ==> hub_names_are_apart(items@),
        local_names_are_plain(local_listing),
        repo.contains('/'),
    ensures
        merged(
            hub_scan(hub, hub_listing),
            local_scan(local, local_listing),
        ) matches Ok(cache) ==> is_listed_once(cache, repo),
{
    if hub_scan(hub, hub_listing) is Ok && local_scan(local, local_listing) is Ok {
        law_merged_is_hub_then_local(hub, hub_listing, local, local_listing);
        lemma_hub_scan_is_ordered(hub, hub_listing);
        let h = hub_scan(hub, hub_listing)->Ok_0;
        let l = local_scan(local, local_listing)->Ok_0;
        let both = h + l;
        let p = listed_as(CacheSource::HuggingFace, repo);
        assert forall|k: int| 0 <= k < l.len() implies (#[trigger] l[k]).repo != repo by {
            let items = local_listing->Entries_0@;
            let f = local_entry_of(local);
            assert(l.contains(l[k]));
            lemma_sorted_contains(items.filter_map(f), l[k]);
            items.lemma_filter_map_contains(f, l[k]);
            let i = choose|i: int| 0 <= i < items.len() && f(#[trigger] items[i]) == Some(l[k]);
            let name = (items[i]->Ok_0).name@;
            if l[k].repo == repo {
                let at = repo.index_of('/');
                assert(name[at] == '/');
                assert(name.contains('/'));
            }
        }
        assert forall|i: int, j: int| 0 <= i < j < both.len() implies !((
        #[trigger] both[i]).repo == repo && (#[trigger] both[j]).repo == repo) by {
            if both[i].repo == repo && both[j].repo == repo {
                if j >= h.len() {
                    assert(both[j] == l[j - h.len()]);
                } else {
                    let items = hub_listing->Entries_0@;
                    let found = items.filter_map(hub_entry_of(hub));
                    law_stable_sort_exists(found);
                    lemma_hub_entries_apart(hub, items, repo);
                    assert(h.filter(p) == found.filter(p));
                    lemma_two_filtered(h, p, i, j);
                }
            }
        }
    }
}

/// The bytes of some nodes are those of all files among them and below them:
/// they add up, a directory takes what it holds, and nothing else takes any.
pub proof fn law_bytes_add_up(a: Seq<DirNode>, b: Seq<DirNode>, n: u64, inner: Vec<DirNode>)
    ensures
        total_bytes(Seq::empty()) == 0,
        total_bytes(a + b) == total_bytes(a) + total_bytes(b),
        total_bytes(a.push(DirNode::File(n))) == total_bytes(a) + n,
        total_bytes(a.push(DirNode::Dir(inner))) == total_bytes(a) + total_bytes(inner@),
        total_bytes(a.push(DirNode::Unreadable)) == total_bytes(a),
        total_bytes(a.push(DirNode::Other)) == total_bytes(a),
    decreases b.len(),
{
    reveal_with_fuel(total_bytes, 2);
    reveal_with_fuel(node_bytes, 2);
    assert(a.push(DirNode::File(n)).drop_last() =~= a);
    assert(a.push(DirNode::Dir(inner)).drop_last() =~= a);
    assert(a.push(DirNode::Unreadable).drop_last() =~= a);
    assert(a.push(DirNode::Other).drop_last() =~= a);
    if b.len() > 0 {
        law_bytes_add_up(a, b.drop_last(), n, inner);
        assert((a + b).drop_last() =~= a + b.drop_last());
        assert((a + b).last() == b.last());
    } else {
        assert(a + b =~= a);
    }
}

/// Of the snapshots that could be read and hold `index.json` the one with the
/// latest time of modification is taken, by the time as it was read: of two with
/// known times never the earlier one, and of two with the same time the one read
/// last. An unknown time counts as the epoch. Some snapshot is taken iff there is
/// one that holds `index.json`.
pub proof fn law_newest_snapshot_is_taken(snapshots: Seq<Result<SnapshotDir, String>>, j: int)
    ensures
        latest(snapshots) matches Some(i) ==> 0 <= i < snapshots.len() && (snapshots[i] matches Ok(s)
            && s.has_index),
        0 <= j < snapshots.len() ==> (snapshots[j] matches Ok(t) ==> (t.has_index ==> latest(
            snapshots,
        ) is Some)),
        latest(snapshots) matches Some(i) ==> (0 <= j < snapshots.len() ==> (snapshots[j] matches Ok(
            t,
        ) ==> (t.has_index ==> {
            let s = snapshots[i]->Ok_0;
            &&& s.modified is Some && t.modified is Some ==> t.modified->0 <= s.modified->0
            &&& s.modified is Some && t.modified is None ==> 0 <= s.modified->0
            &&& s.modified is None && t.modified is Some ==> t.modified->0 <= 0
            &&& s.modified is Some && t.modified is Some && j > i ==> t.modified->0
                < s.modified->0
            &&& s.modified is Some && t.modified is None && j > i ==> 0 < s.modified->0
            &&& s.modified is None && t.modified is Some && j > i ==> t.modified->0 < 0
            &&& s.modified is None && t.modified is None ==> j <= i
        }))),
{
    if 0 <= j < snapshots.len() && (snapshots[j] matches Ok(t) && t.has_index) {
        assert(is_candidate(snapshots, j));
        lemma_some_latest(snapshots, j);
    }
    if latest(snapshots) is Some {
        assert(is_latest(snapshots, latest(snapshots)->0));
    }
}

/// The entry `e` is made of the snapshot at `i` of a directory of the hub cache,
/// which is the newest there.
pub open spec fn is_made_of_snapshot(e: CachedEntry, hub: Seq<char>, dir: HubDir, i: int) -> bool {
    &&& "models--"@.is_prefix_of(dir.name@)
    &&& dir.snapshots matches Listing::Entries(v) && 0 <= i < v@.len() && (v@[i] matches Ok(s) && {
        &&& s.has_index
        &&& e.repo == hub_repo(dir.name@)
        &&& e.snapshot == joined(joined(joined(hub, dir.name@), "snapshots"@), s.name@)
        &&& s.size_bytes matches Some(n) ==> e.size_bytes == n
        &&& s.size_bytes is None ==> e.size_bytes == 0
        &&& e.source == CacheSource::HuggingFace
        &&& forall|j: int|
            0 <= j < v@.len() ==> (#[trigger] v@[j] matches Ok(t) ==> (t.has_index ==> {
                &&& s.modified is Some && t.modified is Some ==> t.modified->0 <= s.modified->0
                &&& s.modified is Some && t.modified is None ==> 0 <= s.modified->0
                &&& s.modified is None && t.modified is Some ==> t.modified->0 <= 0
                &&& s.modified is Some && t.modified is Some && j > i ==> t.modified->0
                    < s.modified->0
                &&& s.modified is Some && t.modified is None && j > i ==> 0 < s.modified->0
                &&& s.modified is None && t.modified is Some && j > i ==> t.modified->0 < 0
                &&& s.modified is None && t.modified is None ==> j <= i
            }))
    })
}

/// A directory of the hub cache makes the entry of its newest snapshot that holds
/// `index.json`, under its repository's name, with its path and its size.
pub proof fn law_hub_entry_is_of_the_newest(hub: Seq<char>, dir: HubDir, e: CachedEntry)
    ensures
        hub_entry(hub, dir) == Some(e) <==> exists|i: int| is_made_of_snapshot(e, hub, dir, i),
        hub_entry_of(hub)(Ok(dir)) == hub_entry(hub, dir),
        forall|text: String| #[trigger] hub_entry_of(hub)(Err(text)) is None,
{
    if let Listing::Entries(v) = dir.snapshots {
        if hub_entry(hub, dir) == Some(e) {
            let i = latest(v@)->0;
            assert(is_latest(v@, i));
            assert forall|j: int| 0 <= j < v@.len() implies (#[trigger] v@[j] matches Ok(t) ==> (
            t.has_index ==> is_candidate(v@, j))) by {}
            assert(is_made_of_snapshot(e, hub, dir, i));
        }
        if exists|i: int| is_made_of_snapshot(e, hub, dir, i) {
            let i = choose|i: int| is_made_of_snapshot(e, hub, dir, i);
            assert(is_candidate(v@, i));
            assert forall|j: int| #[trigger] is_candidate(v@, j) implies stamp(v@[j]) <= stamp(v@[i])
                && (j > i ==> stamp(v@[j]) < stamp(v@[i])) by {
                assert(v@[j] is Ok);
            }
            assert(is_latest(v@, i));
            let c = latest(v@)->0;
            assert(is_latest(v@, c));
            assert(c == i);
            assert(hub_entry(hub, dir)->0 == e);
        }
    }
}

/// What the local cache holds as `<name>.vindex`, a directory with `index.json`,
/// makes the entry `<name>` with its own path and size, and nothing else makes
/// one.
pub proof fn law_local_entry_is_of_the_directory(local: Seq<char>, dir: LocalDir, e: CachedEntry)
    ensures
        local_entry(local, dir) == Some(e) <==> {
            &&& dir.is_dir
            &&& dir.has_index
            &&& dir.name@ == e.repo + ".vindex"@
            &&& e.snapshot == joined(local, dir.name@)
            &&& dir.size_bytes matches Some(n) ==> e.size_bytes == n
            &&& dir.size_bytes is None ==> e.size_bytes == 0
            &&& e.source == CacheSource::Local
        },
        local_entry_of(local)(Ok(dir)) == local_entry(local, dir),
        forall|text: String| #[trigger] local_entry_of(local)(Err(text)) is None,
{
    law_local_name_round_trip(e.repo);
    let n = ".vindex"@.len() as int;
    if ".vindex"@.is_suffix_of(dir.name@) {
        let d = dir.name@;
        assert(d =~= d.take(d.len() - n) + d.subrange(d.len() - n, d.len() as int));
    }
}

/// The directory `models--<owner>--<name>` belongs to `<owner>/<name>`, where the
/// first `--` ends the owner, and `models--<name>` without another `--` belongs
/// to `<name>`.
pub proof fn law_hub_repo_is_owner_and_name(owner: Seq<char>, name: Seq<char>)
    ensures
        (forall|i: int| 0 <= i < owner.len() ==> !occurs_at(owner + "--"@ + name, "--"@, i))
            ==> hub_repo("models--"@ + owner + "--"@ + name) == owner + "/"@ + name,
        (forall|i: int| !occurs_at(name, "--"@, i)) ==> hub_repo("models--"@ + name) == name,
{
    let m = "models--"@;
    assert((m + owner + "--"@ + name).skip(m.len() as int) =~= owner + "--"@ + name);
    assert((m + name).skip(m.len() as int) =~= name);
    law_first_part_is_replaced(owner, "--"@, name, "/"@);
    law_first_part_is_replaced(name, "--"@, name, "/"@);
}

/// A scan of the hub cache ends with the first failure that it meets: an item
/// that could not be read, or the directory of a repository whose `snapshots/`
/// could not. Without any it lists entries, and of a missing cache none.
pub proof fn law_hub_scan_fails_by_the_first(
    hub: Seq<char>,
    items: Vec<Result<HubDir, String>>,
    k: int,
    text: String,
)
    ensures
        hub_scan(hub, Listing::Missing) == Ok::<Seq<CachedEntry>, CacheErrorView>(Seq::empty()),
        hub_scan(hub, Listing::Failed(text)) == Err::<Seq<CachedEntry>, CacheErrorView>(
            CacheErrorView::Io(text@),
        ),
        hub_scan(hub, Listing::Entries(items)) is Ok <==> forall|i: int|
            0 <= i < items@.len() ==> item_failure(#[trigger] items@[i]) is None,
        0 <= k < items@.len() && (forall|i: int|
            0 <= i < k ==> item_failure(#[trigger] items@[i]) is None) ==> (item_failure(items@[k])
            matches Some(why) ==> hub_scan(hub, Listing::Entries(items)) == Err::<
            Seq<CachedEntry>,
            CacheErrorView,
        >(CacheErrorView::Io(why))),
{
    assert forall|i: int| 0 <= i < items@.len() implies hub_failure(#[trigger] items@[i])
        == item_failure(items@[i]) by {}
    lemma_no_hub_failure(items@);
    if 0 <= k < items@.len() && (forall|i: int|
        0 <= i < k ==> item_failure(#[trigger] items@[i]) is None) && item_failure(items@[k]) is Some {
        lemma_first_hub_failure(items@, k);
    }
}

/// Why a scan of the hub cache cannot go on at an item, if it cannot.
pub open spec fn item_failure(item: Result<HubDir, String>) -> Option<Seq<char>> {
    if item is Err {
        Some(item->Err_0@)
    } else if "models--"@.is_prefix_of(item->Ok_0.name@) && item->Ok_0.snapshots is Failed {
        Some(item->Ok_0.snapshots->Failed_0@)
    } else {
        None
    }
}

proof fn lemma_first_hub_failure(items: Seq<Result<HubDir, String>>, k: int)
    requires
        0 <= k < items.len(),
        forall|i: int| 0 <= i < k ==> hub_failure(#[trigger] items[i]) is None,
        hub_failure(items[k]) is Some,
    ensures
        first_hub_failure(items) == hub_failure(items[k]),
    decreases k,
{
    if k > 0 {
        let rest = items.drop_first();
        assert(hub_failure(items[0]) is None);
        assert forall|i: int| 0 <= i < k - 1 implies hub_failure(#[trigger] rest[i]) is None by {
            assert(rest[i] == items[i + 1]);
        }
        lemma_first_hub_failure(rest, k - 1);
    }
}

/// A scan of the local cache ends with the first item that could not be read.
/// Without any it lists entries, and of a missing cache none.
pub proof fn law_local_scan_fails_by_the_first(
    local: Seq<char>,
    items: Vec<Result<LocalDir, String>>,
    k: int,
    text: String,
)
    ensures
        local_scan(local, Listing::Missing) == Ok::<Seq<CachedEntry>, CacheErrorView>(Seq::empty()),
        local_scan(local, Listing::Failed(text)) == Err::<Seq<CachedEntry>, CacheErrorView>(
            CacheErrorView::Io(text@),
        ),
        local_scan(local, Listing::Entries(items)) is Ok <==> forall|i: int|
            0 <= i < items@.len() ==> (#[trigger] items@[i]) is Ok,
        0 <= k < items@.len() && (forall|i: int| 0 <= i < k ==> (#[trigger] items@[i]) is Ok) ==> (
        items@[k] matches Err(why) ==> local_scan(local, Listing::Entries(items)) == Err::<
            Seq<CachedEntry>,
            CacheErrorView,
        >(CacheErrorView::Io(why@))),
{
    lemma_no_local_failure(items@);
    if 0 <= k < items@.len() && (forall|i: int| 0 <= i < k ==> (#[trigger] items@[i]) is Ok)
        && items@[k] is Err {
        lemma_first_local_failure(items@, k);
    }
}

proof fn lemma_first_local_failure(items: Seq<Result<LocalDir, String>>, k: int)
    requires
        0 <= k < items.len(),
        forall|i: int| 0 <= i < k ==> (#[trigger] items[i]) is Ok,
        items[k] is Err,
    ensures
        first_local_failure(items) == Some(items[k]->Err_0@),
    decreases k,
{
    if k > 0 {
        let rest = items.drop_first();
        assert(items[0] is Ok);
        assert forall|i: int| 0 <= i < k - 1 implies (#[trigger] rest[i]) is Ok by {
            assert(rest[i] == items[i + 1]);
        }
        lemma_first_local_failure(rest, k - 1);
    }
}

/// The hub cache lists an entry iff one of its directories has it as its newest
/// snapshot, and the local cache iff one of its directories is it.
pub proof fn law_scan_lists_what_is_there(
    hub: Seq<char>,
    hub_items: Vec<Result<HubDir, String>>,
    local: Seq<char>,
    local_items: Vec<Result<LocalDir, String>>,
    e: CachedEntry,
)
    ensures
        hub_scan(hub, Listing::Entries(hub_items)) matches Ok(h) ==> (h.contains(e) <==> exists|
            k: int,
            i: int,
        |
            0 <= k < hub_items@.len() && hub_items@[k] is Ok && #[trigger] is_made_of_snapshot(
                e,
                hub,
                hub_items@[k]->Ok_0,
                i,
            )),
        local_scan(local, Listing::Entries(local_items)) matches Ok(l) ==> (l.contains(e)
            <==> exists|k: int|
            0 <= k < local_items@.len() && (#[trigger] local_items@[k] matches Ok(dir) && {
                &&& dir.is_dir
                &&& dir.has_index
                &&& dir.name@ == e.repo + ".vindex"@
                &&& e.snapshot == joined(local, dir.name@)
                &&& dir.size_bytes matches Some(n) ==> e.size_bytes == n
                &&& dir.size_bytes is None ==> e.size_bytes == 0
                &&& e.source == CacheSource::Local
            })),
{
    let f = hub_entry_of(hub);
    let g = local_entry_of(local);
    let hs = hub_items@.filter_map(f);
    let ls = local_items@.filter_map(g);
    if hub_scan(hub, Listing::Entries(hub_items)) is Ok {
        let h = stable_sort(hs);
        if h.contains(e) {
            lemma_sorted_contains(hs, e);
            hub_items@.lemma_filter_map_contains(f, e);
            let k = choose|k: int|
                0 <= k < hub_items@.len() && f(#[trigger] hub_items@[k]) == Some(e);
            let dir = hub_items@[k]->Ok_0;
            law_hub_entry_is_of_the_newest(hub, dir, e);
            let i = choose|i: int| is_made_of_snapshot(e, hub, dir, i);
            assert(is_made_of_snapshot(e, hub, hub_items@[k]->Ok_0, i));
        }
        if exists|k: int, i: int|
            0 <= k < hub_items@.len() && hub_items@[k] is Ok && #[trigger] is_made_of_snapshot(
                e,
                hub,
                hub_items@[k]->Ok_0,
                i,
            ) {
            let (k, i) = choose|k: int, i: int|
                0 <= k < hub_items@.len() && hub_items@[k] is Ok && #[trigger] is_made_of_snapshot(
                    e,
                    hub,
                    hub_items@[k]->Ok_0,
                    i,
                );
            law_hub_entry_is_of_the_newest(hub, hub_items@[k]->Ok_0, e);
            lemma_filter_map_holds(hub_items@, f, k, e);
            lemma_sorted_holds(hs, e);
        }
    }
    if local_scan(local, Listing::Entries(local_items)) is Ok {
        let l = stable_sort(ls);
        if l.contains(e) {
            lemma_sorted_contains(ls, e);
            local_items@.lemma_filter_map_contains(g, e);
            let k = choose|k: int|
                0 <= k < local_items@.len() && g(#[trigger] local_items@[k]) == Some(e);
            law_local_entry_is_of_the_directory(local, local_items@[k]->Ok_0, e);
        }
        if exists|k: int|
            0 <= k < local_items@.len() && (#[trigger] local_items@[k] matches Ok(dir) && {
                &&& dir.is_dir
                &&& dir.has_index
                &&& dir.name@ == e.repo + ".vindex"@
                &&& e.snapshot == joined(local, dir.name@)
                &&& dir.size_bytes matches Some(n) ==> e.size_bytes == n
                &&& dir.size_bytes is None ==> e.size_bytes == 0
                &&& e.source == CacheSource::Local
            }) {
            let k = choose|k: int|
                0 <= k < local_items@.len() && (#[trigger] local_items@[k] matches Ok(dir) && {
                    &&& dir.is_dir
                    &&& dir.has_index
                    &&& dir.name@ == e.repo + ".vindex"@
                    &&& e.snapshot == joined(local, dir.name@)
                    &&& dir.size_bytes matches Some(n) ==> e.size_bytes == n
                    &&& dir.size_bytes is None ==> e.size_bytes == 0
                    &&& e.source == CacheSource::Local
                });
            law_local_entry_is_of_the_directory(local, local_items@[k]->Ok_0, e);
            lemma_filter_map_holds(local_items@, g, k, e);
            lemma_sorted_holds(ls, e);
        }
    }
}

/// A scan of both caches fails where one of them does, the hub cache first, and
/// where the environment leaves one of them without a place; what a scan returns
/// is what it says.
pub proof fn law_both_caches_are_scanned(
    env: CacheEnv,
    hub_listing: Listing<HubDir>,
    local_listing: Listing<LocalDir>,
    h: Result<Seq<CachedEntry>, CacheErrorView>,
    l: Result<Seq<CachedEntry>, CacheErrorView>,
)
    ensures
        h matches Err(e) ==> merged(h, l) == h,
        h is Ok ==> (l matches Err(e) ==> merged(h, l) == l),
        h is Ok && l is Ok ==> merged(h, l) is Ok,
        env.hub_dir() is None || env.local_dir() is None ==> env_scan(env, hub_listing, local_listing)
            == Err::<Seq<CachedEntry>, CacheErrorView>(CacheErrorView::NoHome),
        env.hub_dir() matches Some(hub) ==> (env.local_dir() matches Some(local) ==> {
            let a = hub_scan(hub, hub_listing);
            let b = local_scan(local, local_listing);
            &&& a is Err ==> env_scan(env, hub_listing, local_listing) == a
            &&& a is Ok && b is Err ==> env_scan(env, hub_listing, local_listing) == b
            &&& a is Ok && b is Ok ==> env_scan(env, hub_listing, local_listing) == Ok::<
                Seq<CachedEntry>,
                CacheErrorView,
            >(a->Ok_0 + b->Ok_0)
        }),
        forall|v: Vec<CachedVindex>| #[trigger]
            outcome(Ok(v)) == Ok::<Seq<CachedEntry>, CacheErrorView>(entries(v@)),
        forall|e: CacheError| #[trigger]
            outcome(Err(e)) == Err::<Seq<CachedEntry>, CacheErrorView>(e@),
{
    if env.hub_dir() is Some && env.local_dir() is Some {
        let hub = env.hub_dir()->0;
        let local = env.local_dir()->0;
        if hub_scan(hub, hub_listing) is Ok && local_scan(local, local_listing) is Ok {
            law_merged_is_hub_then_local(hub, hub_listing, local, local_listing);
        }
    }
}

} // verus!
