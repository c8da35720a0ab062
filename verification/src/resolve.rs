//! Resolving what a user calls a vindex.
//!
//! The order for a user-supplied `<model>` string is:
//!
//! 1. Starts with `hf://`: fetch it from the hub (from its cache where it is
//!    there).
//! 2. Existing local directory path: use as-is.
//! 3. Contains `/` (e.g. `chrishayuk/gemma-3-4b-it-vindex`): check the cache
//!    first; fall back to fetching it from the hub.
//! 4. Plain name (no slash): search both caches for a unique match on the entry
//!    name. Local entries match on their full name; hub entries match on the
//!    `name` half of `owner/name`. Ambiguous shorthands error out and list
//!    candidates.

use vstd::prelude::*;

use crate::dirs::hub_folder;
use crate::entry::{entries, CachedEntry, CachedVindex};
use crate::error::{CacheError, CacheErrorView};
use crate::order::{
    lemma_filter_at, lemma_filter_none, lemma_filter_sole, lemma_filtered_stands, lemma_two_filtered,
};
use crate::path::joined;
use crate::scan::{
    hub_entry, hub_entry_of, hub_scan, law_local_name_round_trip, law_merged_holds_each_entry,
    law_repo_name_round_trip, local_entry, local_entry_of, local_scan, merged, outcome, HubDir,
    Listing, LocalDir,
};
use crate::text::{
    contains_char, joined_lines, law_joined_lines_hold_each, occurs_at, rfind_char, same_text,
    strip_prefix, texts,
};

verus! {

/// The last segment of a cache entry's name.
pub open spec fn shorthand_of(repo: Seq<char>) -> Seq<char> {
    match repo.index_of_last('/') {
        Some(i) => repo.skip(i + 1),
        None => repo,
    }
}

/// The last segment of a cache entry's name, which is what shorthand matches
/// on. Hub entries (`owner/name`) expose the `name` half; local entries (`name`
/// only) expose themselves.
pub fn shorthand_key<'a>(repo: &'a str) -> (key: &'a str)
    ensures
        key@ == shorthand_of(repo@),
{
    let n: usize = repo.unicode_len();
    match rfind_char(repo, '/') {
        Some(i) => repo.substring_char(i + 1, n),
        None => repo,
    }
}

/// The property to be found by the shorthand `key`.
pub open spec fn has_shorthand(key: Seq<char>) -> spec_fn(CachedEntry) -> bool {
    |e: CachedEntry| shorthand_of(e.repo) == key
}

/// The cached vindexes that the shorthand `key` stands for.
pub open spec fn shorthand_matches(cache: Seq<CachedEntry>, key: Seq<char>) -> Seq<CachedEntry> {
    cache.filter(has_shorthand(key))
}

/// The line that lists an entry among candidates.
pub open spec fn candidate_line(e: CachedEntry) -> Seq<char> {
    "  - "@ + e.repo + " ["@ + e.source.label_text() + "]"@
}

pub open spec fn candidate_lines(matches: Seq<CachedEntry>) -> Seq<Seq<char>> {
    matches.map_values(|e: CachedEntry| candidate_line(e))
}

/// The index of the first entry listed under exactly `repo`.
pub open spec fn is_first_listed(cache: Seq<CachedEntry>, repo: Seq<char>, i: int) -> bool {
    &&& 0 <= i < cache.len()
    &&& cache[i].repo == repo
    &&& forall|j: int| 0 <= j < i ==> (#[trigger] cache[j]).repo != repo
}

pub open spec fn first_listed(cache: Seq<CachedEntry>, repo: Seq<char>) -> Option<CachedEntry> {
    if exists|i: int| is_first_listed(cache, repo, i) {
        Some(cache[choose|i: int| is_first_listed(cache, repo, i)])
    } else {
        None
    }
}

/// `model` without a leading `hf://`.
pub open spec fn cache_key(model: Seq<char>) -> Seq<char> {
    if "hf://"@.is_prefix_of(model) {
        model.skip("hf://"@.len() as int)
    } else {
        model
    }
}

/// What a plain name resolves to: the path of the one entry that has it.
pub open spec fn shorthand_resolution(name: Seq<char>, cache: Seq<CachedEntry>) -> Result<
    Seq<char>,
    CacheErrorView,
> {
    let matches = shorthand_matches(cache, name);
    if matches.len() == 1 {
        Ok(matches[0].snapshot)
    } else if matches.len() == 0 {
        Err(CacheErrorView::NoMatch(name))
    } else {
        Err(CacheErrorView::Ambiguous(name, candidate_lines(matches)))
    }
}

/// Which entry of the cache a name stands for: under a name with a `/`, the
/// first that is listed under it; under a plain name, the one that has it.
pub open spec fn cached_resolution(model: Seq<char>, cache: Seq<CachedEntry>) -> Result<
    CachedEntry,
    CacheErrorView,
> {
    let key = cache_key(model);
    let matches = shorthand_matches(cache, key);
    if key.contains('/') {
        match first_listed(cache, key) {
            Some(e) => Ok(e),
            None => Err(CacheErrorView::NotCached(key)),
        }
    } else if matches.len() == 1 {
        Ok(matches[0])
    } else if matches.len() == 0 {
        Err(CacheErrorView::NotCached(key))
    } else {
        Err(CacheErrorView::AmbiguousKey(key, candidate_lines(matches)))
    }
}

/// The entries of the cache at some indices.
spec fn picked(cache: Seq<CachedVindex>, at: Seq<usize>) -> Seq<CachedEntry> {
    at.map_values(|i: usize| cache[i as int]@)
}

/// Where the cached vindexes stand that the shorthand `key` stands for.
fn find_matches(key: &str, cache: &[CachedVindex]) -> (at: Vec<usize>)
    ensures
        forall|k: int| 0 <= k < at.len() ==> #[trigger] at@[k] < cache.len(),
        picked(cache@, at@) == shorthand_matches(entries(cache@), key@),
{
    let mut at: Vec<usize> = Vec::new();
    let mut i: usize = 0;
    let ghost all = entries(cache@);
    let ghost p = has_shorthand(key@);
    proof {
        reveal(Seq::filter);
        assert(picked(cache@, at@) =~= all.take(0).filter(p));
    }
    while i < cache.len()
        invariant
            i <= cache.len(),
            all == entries(cache@),
            p == has_shorthand(key@),
            forall|k: int| 0 <= k < at.len() ==> #[trigger] at@[k] < cache.len(),
            picked(cache@, at@) == all.take(i as int).filter(p),
        decreases cache.len() - i,
    {
        proof {
            reveal(Seq::filter);
            assert(all.take(i + 1).drop_last() =~= all.take(i as int));
            assert(all.take(i + 1).last() == cache@[i as int]@);
        }
        if same_text(shorthand_key(cache[i].repo.as_str()), key) {
            let ghost before = at@;
            at.push(i);
            assert(picked(cache@, at@) =~= picked(cache@, before).push(cache@[i as int]@));
        }
        i = i + 1;
    }
    assert(all.take(cache.len() as int) =~= all);
    at
}

/// Where the first entry stands that is listed under exactly `repo`.
fn find_listed(repo: &str, cache: &[CachedVindex]) -> (at: Option<usize>)
    ensures
        match at {
            Some(i) => i < cache.len() && first_listed(entries(cache@), repo@) == Some(
                cache@[i as int]@,
            ),
            None => first_listed(entries(cache@), repo@) is None,
        },
{
    let ghost all = entries(cache@);
    let mut i: usize = 0;
    while i < cache.len()
        invariant
            i <= cache.len(),
            all == entries(cache@),
            forall|j: int| 0 <= j < i ==> (#[trigger] all[j]).repo != repo@,
        decreases cache.len() - i,
    {
        if same_text(cache[i].repo.as_str(), repo) {
            proof {
                assert(is_first_listed(all, repo@, i as int));
                let c = choose|c: int| is_first_listed(all, repo@, c);
                assert(c == i);
            }
            return Some(i);
        }
        i = i + 1;
    }
    None
}

/// The lines that list the entries at some indices among candidates.
fn describe(cache: &[CachedVindex], at: &Vec<usize>) -> (lines: Vec<String>)
    requires
        forall|k: int| 0 <= k < at.len() ==> #[trigger] at@[k] < cache.len(),
    ensures
        texts(lines@) == candidate_lines(picked(cache@, at@)),
{
    let mut lines: Vec<String> = Vec::new();
    let mut k: usize = 0;
    assert(texts(lines@) =~= candidate_lines(picked(cache@, at@)).take(0));
    while k < at.len()
        invariant
            k <= at.len(),
            forall|j: int| 0 <= j < at.len() ==> #[trigger] at@[j] < cache.len(),
            texts(lines@) == candidate_lines(picked(cache@, at@)).take(k as int),
        decreases at.len() - k,
    {
        let c: &CachedVindex = &cache[at[k]];
        let mut line = "  - ".to_owned();
        line.append(c.repo.as_str());
        line.append(" [");
        line.append(c.source.label());
        line.append("]");
        let ghost before = lines@;
        lines.push(line);
        proof {
            let want = candidate_lines(picked(cache@, at@));
            assert(want[k as int] == line@);
            assert(texts(lines@) =~= texts(before).push(line@));
            assert(want.take(k + 1) =~= want.take(k as int).push(want[k as int]));
        }
        k = k + 1;
    }
    assert(candidate_lines(picked(cache@, at@)).take(at.len() as int) =~= candidate_lines(
        picked(cache@, at@),
    ));
    lines
}

/// What a lookup of a path gave, as mathematical values.
pub open spec fn path_outcome(r: Result<String, CacheError>) -> Result<Seq<char>, CacheErrorView> {
    match r {
        Ok(path) => Ok(path@),
        Err(e) => Err(e@),
    }
}

/// What a lookup of an entry gave, as mathematical values.
pub open spec fn entry_outcome(r: Result<CachedVindex, CacheError>) -> Result<
    CachedEntry,
    CacheErrorView,
> {
    match r {
        Ok(entry) => Ok(entry@),
        Err(e) => Err(e@),
    }
}

/// Match a plain shorthand name against a list of cached vindexes. Returns the
/// path of the entry on a unique match, an error on zero or multiple matches.
pub fn resolve_shorthand_from(name: &str, cache: &[CachedVindex]) -> (r: Result<
    String,
    CacheError,
>)
    ensures
        path_outcome(r) == shorthand_resolution(name@, entries(cache@)),
{
    let at: Vec<usize> = find_matches(name, cache);
    assert(picked(cache@, at@).len() == at.len());
    if at.len() == 1 {
        assert(picked(cache@, at@)[0] == cache@[at@[0] as int]@);
        Ok(cache[at[0]].snapshot.clone())
    } else if at.len() == 0 {
        Err(CacheError::NoMatch { name: name.to_owned() })
    } else {
        Err(CacheError::Ambiguous { name: name.to_owned(), candidates: describe(cache, &at) })
    }
}

/// Match a plain name against what a scan of the caches gave. The match is on
/// the `name` half of `owner/name`, e.g. `gemma-3-4b-it-vindex` matches
/// `chrishayuk/gemma-3-4b-it-vindex`.
pub fn resolve_shorthand(name: &str, scan: Result<Vec<CachedVindex>, CacheError>) -> (r: Result<
    String,
    CacheError,
>)
    ensures
        path_outcome(r) == match outcome(scan) {
            Ok(cache) => shorthand_resolution(name@, cache),
            Err(e) => Err(e),
        },
{
    match scan {
        Ok(cache) => resolve_shorthand_from(name, cache.as_slice()),
        Err(e) => Err(e),
    }
}

/// Resolve a user-supplied string to a single entry of a list of cached
/// vindexes.
pub fn resolve_cached_from(model: &str, cache: &[CachedVindex]) -> (r: Result<
    CachedVindex,
    CacheError,
>)
    ensures
        entry_outcome(r) == cached_resolution(model@, entries(cache@)),
{
    let key: &str = match strip_prefix(model, "hf://") {
        Some(rest) => rest,
        None => model,
    };
    // Full owner/name match (hub entries only have this form).
    if contains_char(key, '/') {
        return match find_listed(key, cache) {
            Some(i) => Ok(cache[i].clone()),
            None => Err(CacheError::NotCached { key: key.to_owned() }),
        };
    }
    // Shorthand match: hits local entries by name, hub entries by name half.
    let at: Vec<usize> = find_matches(key, cache);
    assert(picked(cache@, at@).len() == at.len());
    if at.len() == 1 {
        assert(picked(cache@, at@)[0] == cache@[at@[0] as int]@);
        Ok(cache[at[0]].clone())
    } else if at.len() == 0 {
        Err(CacheError::NotCached { key: key.to_owned() })
    } else {
        Err(CacheError::AmbiguousKey { key: key.to_owned(), candidates: describe(cache, &at) })
    }
}

/// Resolve a user-supplied string to a single entry of what a scan of the
/// caches gave. Never touches the network: it serves removal, where nothing is
/// to be downloaded in order to delete it.
pub fn resolve_cached(model: &str, scan: Result<Vec<CachedVindex>, CacheError>) -> (r: Result<
    CachedVindex,
    CacheError,
>)
    ensures
        entry_outcome(r) == match outcome(scan) {
            Ok(cache) => cached_resolution(model@, cache),
            Err(e) => Err(e),
        },
{
    match scan {
        Ok(cache) => resolve_cached_from(model, cache.as_slice()),
        Err(e) => Err(e),
    }
}

/// What is to be done next to resolve a `<model>` string.
#[derive(Debug)]
pub enum ModelStep {
    /// Fetch this `hf://` path from the hub; it is where the model lies.
    Fetch(String),
    /// Find out whether this path is a directory.
    ProbeDir(String),
    /// Scan both caches.
    ScanCache,
    /// The model lies here.
    Found(String),
    Failed(CacheError),
}

/// What a [`ModelStep`] says, as mathematical values.
pub enum ModelStepView {
    Fetch(Seq<char>),
    ProbeDir(Seq<char>),
    ScanCache,
    Found(Seq<char>),
    Failed(CacheErrorView),
}

impl View for ModelStep {
    type V = ModelStepView;

    open spec fn view(&self) -> ModelStepView {
        match *self {
            ModelStep::Fetch(uri) => ModelStepView::Fetch(uri@),
            ModelStep::ProbeDir(path) => ModelStepView::ProbeDir(path@),
            ModelStep::ScanCache => ModelStepView::ScanCache,
            ModelStep::Found(path) => ModelStepView::Found(path@),
            ModelStep::Failed(e) => ModelStepView::Failed(e@),
        }
    }
}

/// How far a `<model>` string is resolved by what is known: whether it is the
/// path of a directory, and what a scan of the caches gave.
pub open spec fn model_step(
    model: Seq<char>,
    is_dir: Option<bool>,
    scan: Option<Result<Seq<CachedEntry>, CacheErrorView>>,
) -> ModelStepView {
    if "hf://"@.is_prefix_of(model) {
        ModelStepView::Fetch(model)
    } else if is_dir is None {
        ModelStepView::ProbeDir(model)
    } else if is_dir == Some(true) {
        ModelStepView::Found(model)
    } else if scan is None {
        ModelStepView::ScanCache
    } else if model.contains('/') {
        let cache = match scan->0 {
            Ok(cache) => cache,
            Err(_) => Seq::empty(),
        };
        match first_listed(cache, model) {
            Some(e) => ModelStepView::Found(e.snapshot),
            None => ModelStepView::Fetch("hf://"@ + model),
        }
    } else {
        match scan->0 {
            Ok(cache) => match shorthand_resolution(model, cache) {
                Ok(path) => ModelStepView::Found(path),
                Err(e) => ModelStepView::Failed(e),
            },
            Err(e) => ModelStepView::Failed(e),
        }
    }
}

pub open spec fn known_scan(scan: Option<Result<Vec<CachedVindex>, CacheError>>) -> Option<
    Result<Seq<CachedEntry>, CacheErrorView>,
> {
    match scan {
        Some(r) => Some(outcome(r)),
        None => None,
    }
}

/// The next step in resolving a user-supplied `<model>` string to a local
/// vindex directory, from what is known so far: whether the string is the path
/// of a directory, and what a scan of the caches gave.
///
/// See the module's documentation for the order. Plain-name lookups that match
/// multiple cached repos fail with the list of the matches so the user can pick
/// one.
pub fn resolve_model(
    model: &str,
    is_dir: Option<bool>,
    scan: Option<Result<Vec<CachedVindex>, CacheError>>,
) -> (step: ModelStep)
    ensures
        step@ == model_step(model@, is_dir, known_scan(scan)),
{
    if strip_prefix(model, "hf://").is_some() {
        return ModelStep::Fetch(model.to_owned());
    }
    match is_dir {
        None => {
            return ModelStep::ProbeDir(model.to_owned());
        },
        Some(true) => {
            return ModelStep::Found(model.to_owned());
        },
        Some(false) => {},
    }
    match scan {
        None => ModelStep::ScanCache,
        Some(scanned) => {
            // An existing path was taken above, so a `/` now stands in `owner/name`.
            if contains_char(model, '/') {
                let cache: Vec<CachedVindex> = match scanned {
                    Ok(cache) => cache,
                    Err(_) => Vec::new(),
                };
                assert(scanned is Err ==> entries(cache@) =~= Seq::empty());
                match find_listed(model, cache.as_slice()) {
                    Some(i) => ModelStep::Found(cache[i].snapshot.clone()),
                    None => {
                        let mut uri = "hf://".to_owned();
                        uri.append(model);
                        ModelStep::Fetch(uri)
                    },
                }
            } else {
                match resolve_shorthand(model, scanned) {
                    Ok(path) => ModelStep::Found(path),
                    Err(e) => ModelStep::Failed(e),
                }
            }
        },
    }
}

/// Once it is known whether the string is a directory and what the caches hold,
/// the model is resolved, to be fetched, or refused: nothing more is asked.
pub proof fn law_model_resolution_ends(
    model: Seq<char>,
    is_dir: bool,
    scan: Result<Seq<CachedEntry>, CacheErrorView>,
)
    ensures
        !(model_step(model, Some(is_dir), Some(scan)) is ProbeDir),
        !(model_step(model, Some(is_dir), Some(scan)) is ScanCache),
{
}

/// An `hf://` path is fetched, whatever is known, and any other string that is
/// the path of a directory is used as it is, whatever the caches hold.
pub proof fn law_scheme_then_directory(
    model: Seq<char>,
    is_dir: Option<bool>,
    scan: Option<Result<Seq<CachedEntry>, CacheErrorView>>,
)
    ensures
        "hf://"@.is_prefix_of(model) ==> model_step(model, is_dir, scan) == ModelStepView::Fetch(model),
        !"hf://"@.is_prefix_of(model) && is_dir == Some(true) ==> model_step(model, is_dir, scan)
            == ModelStepView::Found(model),
{
}

/// A string with a `/` is never refused: it is taken as a path, found in the
/// cache, or fetched from the hub, even where the caches cannot be read.
pub proof fn law_slash_is_never_refused(
    model: Seq<char>,
    is_dir: Option<bool>,
    scan: Option<Result<Seq<CachedEntry>, CacheErrorView>>,
)
    requires
        model.contains('/'),
    ensures
        !(model_step(model, is_dir, scan) is Failed),
{
}

proof fn lemma_plain_name_has_no_scheme(name: Seq<char>)
    requires
        !name.contains('/'),
    ensures
        !"hf://"@.is_prefix_of(name),
{
    reveal_strlit("hf://");
    if "hf://"@.is_prefix_of(name) {
        assert(name[3] == "hf://"@[3]);
    }
}

/// A plain name is never fetched from the hub.
pub proof fn law_plain_name_is_never_fetched(
    model: Seq<char>,
    is_dir: Option<bool>,
    scan: Option<Result<Seq<CachedEntry>, CacheErrorView>>,
)
    requires
        !model.contains('/'),
    ensures
        !(model_step(model, is_dir, scan) is Fetch),
{
    lemma_plain_name_has_no_scheme(model);
}

/// The shorthand of `owner/name` is `name`, and that of a name without a `/` is
/// the name itself.
pub proof fn law_shorthand_is_last_segment(owner: Seq<char>, name: Seq<char>)
    requires
        !name.contains('/'),
    ensures
        shorthand_of(owner + "/"@ + name) == name,
        shorthand_of(name) == name,
{
    reveal_strlit("/");
    let repo = owner + "/"@ + name;
    repo.index_of_last_ensures('/');
    name.index_of_last_ensures('/');
    let at = owner.len() as int;
    assert(repo[at] == '/');
    assert(repo.contains('/'));
    let i = repo.index_of_last('/')->0;
    if i > at {
        assert(repo[i] == name[i - at - 1]);
        assert(name.contains('/'));
    }
    assert(i == at);
    assert(repo.skip(i + 1) =~= name);
}

/// To pick an entry of the cache, the scheme `hf://` may be given or left out.
pub proof fn law_scheme_is_optional(model: Seq<char>, cache: Seq<CachedEntry>)
    requires
        !"hf://"@.is_prefix_of(model),
    ensures
        cached_resolution("hf://"@ + model, cache) == cached_resolution(model, cache),
{
    let full = "hf://"@ + model;
    assert("hf://"@ =~= full.subrange(0, "hf://"@.len() as int));
    assert(full.skip("hf://"@.len() as int) =~= model);
}

/// An entry listed as `owner/name` can be picked by that name: the entry picked
/// is listed under it.
pub proof fn law_listed_entry_is_picked(cache: Seq<CachedEntry>, i: int)
    requires
        0 <= i < cache.len(),
        cache[i].repo.contains('/'),
        !"hf://"@.is_prefix_of(cache[i].repo),
    ensures
        cached_resolution(cache[i].repo, cache) matches Ok(e) && e.repo == cache[i].repo
            && cache.contains(e),
{
    let repo = cache[i].repo;
    let first = lemma_first_listed(cache, repo, i);
    assert(is_first_listed(cache, repo, first));
    let c = choose|c: int| is_first_listed(cache, repo, c);
    assert(cache.contains(cache[c]));
}

proof fn lemma_first_listed(cache: Seq<CachedEntry>, repo: Seq<char>, i: int) -> (first: int)
    requires
        0 <= i < cache.len(),
        cache[i].repo == repo,
    ensures
        is_first_listed(cache, repo, first),
    decreases i,
{
    if exists|j: int| 0 <= j < i && (#[trigger] cache[j]).repo == repo {
        let j = choose|j: int| 0 <= j < i && (#[trigger] cache[j]).repo == repo;
        lemma_first_listed(cache, repo, j)
    } else {
        i
    }
}

/// The two lookups of a plain name agree: the path found is that of the entry
/// picked, and where one refuses so does the other.
pub proof fn law_lookups_of_plain_names_agree(name: Seq<char>, cache: Seq<CachedEntry>)
    requires
        !name.contains('/'),
    ensures
        match cached_resolution(name, cache) {
            Ok(e) => shorthand_resolution(name, cache) == Ok::<Seq<char>, CacheErrorView>(
                e.snapshot,
            ),
            Err(_) => shorthand_resolution(name, cache) is Err,
        },
{
    lemma_plain_name_has_no_scheme(name);
}

/// The entry at `i` is the only one that the shorthand `key` stands for.
pub open spec fn is_only_match(cache: Seq<CachedEntry>, key: Seq<char>, i: int) -> bool {
    &&& 0 <= i < cache.len()
    &&& shorthand_of(cache[i].repo) == key
    &&& forall|j: int| 0 <= j < cache.len() && shorthand_of((#[trigger] cache[j]).repo) == key ==> j == i
}

/// A plain name that exactly one cached vindex has resolves to that one, and one
/// that none or several have is refused.
pub proof fn law_shorthand_is_unique(name: Seq<char>, cache: Seq<CachedEntry>)
    ensures
        shorthand_resolution(name, cache) is Ok <==> exists|i: int| is_only_match(cache, name, i),
        forall|i: int| #[trigger]
            is_only_match(cache, name, i) ==> shorthand_resolution(name, cache) == Ok::<
                Seq<char>,
                CacheErrorView,
            >(cache[i].snapshot),
{
    assert forall|i: int| #[trigger] is_only_match(cache, name, i) implies shorthand_resolution(
        name,
        cache,
    ) == Ok::<Seq<char>, CacheErrorView>(cache[i].snapshot) by {
        lemma_filter_sole(cache, has_shorthand(name), i);
    }
    if shorthand_matches(cache, name).len() == 1 {
        let p = has_shorthand(name);
        lemma_filtered_stands(cache, p, 0);
        let i = choose|i: int| 0 <= i < cache.len() && cache[i] == cache.filter(p)[0] && p(cache[i]);
        assert forall|j: int| 0 <= j < cache.len() && shorthand_of((#[trigger] cache[j]).repo) == name implies j
            == i by {
            if j != i {
                lemma_two_filtered(cache, p, if i < j { i } else { j }, if i < j { j } else { i });
            }
        }
        assert(is_only_match(cache, name, i));
    }
}

/// Where a plain name is refused as ambiguous, the error lists every cached
/// vindex that has it, each in its own words.
pub proof fn law_ambiguity_lists_every_match(name: Seq<char>, cache: Seq<CachedEntry>, i: int)
    requires
        0 <= i < cache.len(),
        shorthand_of(cache[i].repo) == name,
        !name.contains('/'),
        shorthand_resolution(name, cache) is Err,
    ensures
        shorthand_resolution(name, cache)->Err_0 is Ambiguous,
        cached_resolution(name, cache) matches Err(e) && e is AmbiguousKey,
        exists|at: int|
            occurs_at(shorthand_resolution(name, cache)->Err_0.wording(), candidate_line(cache[i]), at),
        exists|at: int|
            occurs_at(cached_resolution(name, cache)->Err_0.wording(), candidate_line(cache[i]), at),
{
    let p = has_shorthand(name);
    law_lookups_of_plain_names_agree(name, cache);
    lemma_filter_at(cache, p, i);
    let matches = shorthand_matches(cache, name);
    let k = cache.take(i).filter(p).len() as int;
    assert(matches[k] == cache[i]);
    assert(cached_resolution(name, cache) is Err);
    lemma_plain_name_has_no_scheme(name);
    let lines = candidate_lines(matches);
    assert(lines[k] == candidate_line(cache[i]));
    let inner = law_joined_lines_hold_each(lines, "\n"@, k);
    let listed = joined_lines(lines, "\n"@);
    let line = candidate_line(cache[i]);
    let one = shorthand_resolution(name, cache)->Err_0.wording();
    let one_head = "shorthand `"@ + name + "` is ambiguous — matches multiple cached vindexes:\n"@;
    assert(one.subrange(one_head.len() + inner, one_head.len() + inner + line.len())
        =~= listed.subrange(inner, inner + line.len()));
    assert(occurs_at(one, line, one_head.len() + inner));
    let two = cached_resolution(name, cache)->Err_0.wording();
    let two_head = "shorthand `"@ + name + "` is ambiguous — matches:\n"@;
    assert(two.subrange(two_head.len() + inner, two_head.len() + inner + line.len())
        =~= listed.subrange(inner, inner + line.len()));
    assert(occurs_at(two, line, two_head.len() + inner));
}

/// A vindex that was pulled as `owner/name` is found in the cache by that name,
/// and is not fetched again.
pub proof fn law_pulled_vindex_is_found(
    owner: Seq<char>,
    name: Seq<char>,
    hub: Seq<char>,
    hub_items: Vec<Result<HubDir, String>>,
    k: int,
    local: Seq<char>,
    local_listing: Listing<LocalDir>,
)
    requires
        !owner.contains('/'),
        !name.contains('/'),
        forall|i: int| !occurs_at(owner, "--"@, i),
        owner.len() > 0 ==> owner.last() != '-',
        hub_scan(hub, Listing::Entries(hub_items)) is Ok,
        local_scan(local, local_listing) is Ok,
        0 <= k < hub_items@.len(),
        hub_items@[k] matches Ok(dir) && dir.name@ == hub_folder(owner + "/"@ + name)
            && hub_entry(hub, dir) is Some,
    ensures
        model_step(
            owner + "/"@ + name,
            Some(false),
            Some(merged(hub_scan(hub, Listing::Entries(hub_items)), local_scan(local, local_listing))),
        ) matches ModelStepView::Found(path) && (cached_resolution(
            owner + "/"@ + name,
            merged(
                hub_scan(hub, Listing::Entries(hub_items)),
                local_scan(local, local_listing),
            )->Ok_0,
        ) matches Ok(e) && e.repo == owner + "/"@ + name && e.snapshot == path),
{
    reveal_strlit("/");
    reveal_strlit("hf://");
    let model = owner + "/"@ + name;
    let dir = hub_items@[k]->Ok_0;
    let e = hub_entry(hub, dir)->0;
    law_repo_name_round_trip(owner, name);
    assert(hub_entry_of(hub)(hub_items@[k]) == Some(e));
    law_merged_holds_each_entry(hub, Listing::Entries(hub_items), local, local_listing, e);
    let both = merged(
        hub_scan(hub, Listing::Entries(hub_items)),
        local_scan(local, local_listing),
    )->Ok_0;
    let at = both.index_of(e);
    assert(model[owner.len() as int] == '/');
    assert(model.contains('/'));
    assert(!"hf://"@.is_prefix_of(model)) by {
        if "hf://"@.is_prefix_of(model) {
            assert(model.subrange(0, 5)[3] == model[3]);
            assert(model.subrange(0, 5)[4] == model[4]);
            let o = owner.len() as int;
            if o > 3 {
                assert(owner[3] == '/');
            } else {
                assert(name[4 - o - 1] == '/');
            }
        }
    }
    let first = lemma_first_listed(both, model, at);
    assert(is_first_listed(both, model, first));
    law_listed_entry_is_picked(both, at);
}

/// A vindex that was linked as `name` is found by that name, unless another
/// cached vindex has it too.
pub proof fn law_linked_vindex_is_found(
    name: Seq<char>,
    hub: Seq<char>,
    hub_listing: Listing<HubDir>,
    local: Seq<char>,
    local_items: Vec<Result<LocalDir, String>>,
    k: int,
)
    requires
        !name.contains('/'),
        hub_scan(hub, hub_listing) is Ok,
        local_scan(local, Listing::Entries(local_items)) is Ok,
        0 <= k < local_items@.len(),
        local_items@[k] matches Ok(dir) && dir.name@ == name + ".vindex"@ && dir.is_dir
            && dir.has_index,
    ensures
        match model_step(
            name,
            Some(false),
            Some(merged(hub_scan(hub, hub_listing), local_scan(local, Listing::Entries(local_items)))),
        ) {
            ModelStepView::Found(path) => path == joined(local, name + ".vindex"@),
            ModelStepView::Failed(e) => e is Ambiguous,
            _ => false,
        },
{
    let dir = local_items@[k]->Ok_0;
    let e = local_entry(local, dir)->0;
    law_local_name_round_trip(name);
    law_shorthand_is_last_segment(Seq::empty(), name);
    assert(local_entry_of(local)(local_items@[k]) == Some(e));
    law_merged_holds_each_entry(hub, hub_listing, local, Listing::Entries(local_items), e);
    let both = merged(
        hub_scan(hub, hub_listing),
        local_scan(local, Listing::Entries(local_items)),
    )->Ok_0;
    let at = both.index_of(e);
    lemma_plain_name_has_no_scheme(name);
    lemma_filter_at(both, has_shorthand(name), at);
    let matches = shorthand_matches(both, name);
    if matches.len() == 1 {
        assert(matches.contains(e)) by {
            both.lemma_filter_contains(has_shorthand(name), at);
        }
        assert(matches[0] == e);
    }
}

/// The last segment of `repo` is `name`: `repo` is `name` itself, or it ends in a
/// `/` and `name`.
pub open spec fn ends_in_segment(repo: Seq<char>, name: Seq<char>) -> bool {
    !name.contains('/') && (repo == name || ("/"@ + name).is_suffix_of(repo))
}

proof fn lemma_shorthand_is_last_segment(repo: Seq<char>, name: Seq<char>)
    requires
        !name.contains('/'),
    ensures
        shorthand_of(repo) == name <==> ends_in_segment(repo, name),
{
    reveal_strlit("/");
    let end = "/"@ + name;
    if ends_in_segment(repo, name) && repo != name {
        let at = repo.len() - end.len();
        let tail = repo.subrange(at, repo.len() as int);
        assert(tail == end);
        assert(repo =~= repo.take(at) + tail);
        assert(repo =~= repo.take(at) + "/"@ + name);
        law_shorthand_is_last_segment(repo.take(at), name);
    } else if repo == name {
        law_shorthand_is_last_segment(repo, name);
    }
    if shorthand_of(repo) == name && repo != name {
        repo.index_of_last_ensures('/');
        let i = repo.index_of_last('/')->0;
        assert(end =~= repo.subrange(i, repo.len() as int));
        assert(end.len() == repo.len() - i);
    }
}

/// A plain name stands for the one cached vindex, pulled or linked, whose last
/// segment it is: the model is found there, the path is its snapshot, and it is
/// the entry that is picked, with `hf://` in front or without.
pub proof fn law_plain_name_finds_its_vindex(name: Seq<char>, cache: Seq<CachedEntry>, i: int)
    requires
        0 <= i < cache.len(),
        ends_in_segment(cache[i].repo, name),
        forall|j: int|
            0 <= j < cache.len() && j != i ==> !ends_in_segment((#[trigger] cache[j]).repo, name),
    ensures
        model_step(name, Some(false), Some(Ok(cache))) == ModelStepView::Found(cache[i].snapshot),
        shorthand_resolution(name, cache) == Ok::<Seq<char>, CacheErrorView>(cache[i].snapshot),
        cached_resolution(name, cache) == Ok::<CachedEntry, CacheErrorView>(cache[i]),
        cached_resolution("hf://"@ + name, cache) == Ok::<CachedEntry, CacheErrorView>(cache[i]),
{
    lemma_plain_name_has_no_scheme(name);
    law_scheme_is_optional(name, cache);
    let p = has_shorthand(name);
    lemma_shorthand_is_last_segment(cache[i].repo, name);
    assert forall|j: int| 0 <= j < cache.len() && p(#[trigger] cache[j]) implies j == i by {
        lemma_shorthand_is_last_segment(cache[j].repo, name);
    }
    lemma_filter_sole(cache, p, i);
}

/// A plain name that is the last segment of no cached vindex is refused, and so
/// is every name where the caches could not be scanned.
pub proof fn law_unknown_name_is_refused(
    name: Seq<char>,
    cache: Seq<CachedEntry>,
    e: CacheErrorView,
)
    requires
        !name.contains('/'),
    ensures
        (forall|j: int|
            0 <= j < cache.len() ==> !ends_in_segment((#[trigger] cache[j]).repo, name)) ==> {
            &&& model_step(name, Some(false), Some(Ok(cache))) == ModelStepView::Failed(
                CacheErrorView::NoMatch(name),
            )
            &&& shorthand_resolution(name, cache) == Err::<Seq<char>, CacheErrorView>(
                CacheErrorView::NoMatch(name),
            )
            &&& cached_resolution(name, cache) == Err::<CachedEntry, CacheErrorView>(
                CacheErrorView::NotCached(name),
            )
            &&& cached_resolution("hf://"@ + name, cache) == Err::<CachedEntry, CacheErrorView>(
                CacheErrorView::NotCached(name),
            )
        },
        model_step(name, Some(false), Some(Err(e))) == ModelStepView::Failed(e),
{
    lemma_plain_name_has_no_scheme(name);
    law_scheme_is_optional(name, cache);
    let p = has_shorthand(name);
    if forall|j: int|
        0 <= j < cache.len() ==> !ends_in_segment((#[trigger] cache[j]).repo, name) {
        assert forall|j: int| 0 <= j < cache.len() implies !p(#[trigger] cache[j]) by {
            lemma_shorthand_is_last_segment(cache[j].repo, name);
        }
        lemma_filter_none(cache, p);
    }
}

/// A plain name that is the last segment of two cached vindexes is refused, and
/// the refusal lists those that have it and no others, in their order, each with
/// its name and its cache.
pub proof fn law_shared_name_is_refused(name: Seq<char>, cache: Seq<CachedEntry>, i: int, j: int)
    requires
        0 <= i < j < cache.len(),
        ends_in_segment(cache[i].repo, name),
        ends_in_segment(cache[j].repo, name),
    ensures
        ({
            let lines = cache.filter(|e: CachedEntry| ends_in_segment(e.repo, name)).map_values(
                |e: CachedEntry|
                    "  - "@ + e.repo + (if e.source is Local {
                        " [local]"@
                    } else {
                        " [hf]"@
                    }),
            );
            &&& model_step(name, Some(false), Some(Ok(cache))) == ModelStepView::Failed(
                CacheErrorView::Ambiguous(name, lines),
            )
            &&& shorthand_resolution(name, cache) == Err::<Seq<char>, CacheErrorView>(
                CacheErrorView::Ambiguous(name, lines),
            )
            &&& cached_resolution(name, cache) == Err::<CachedEntry, CacheErrorView>(
                CacheErrorView::AmbiguousKey(name, lines),
            )
            &&& cached_resolution("hf://"@ + name, cache) == Err::<CachedEntry, CacheErrorView>(
                CacheErrorView::AmbiguousKey(name, lines),
            )
        }),
{
    lemma_plain_name_has_no_scheme(name);
    law_scheme_is_optional(name, cache);
    let p = has_shorthand(name);
    let q = |e: CachedEntry| ends_in_segment(e.repo, name);
    assert forall|e: CachedEntry| #[trigger] p(e) == q(e) by {
        lemma_shorthand_is_last_segment(e.repo, name);
    }
    assert(p =~= q);
    lemma_two_filtered(cache, p, i, j);
    let matches = cache.filter(q);
    let line = |e: CachedEntry|
        "  - "@ + e.repo + (if e.source is Local {
            " [local]"@
        } else {
            " [hf]"@
        });
    assert forall|k: int| 0 <= k < matches.len() implies candidate_lines(matches)[k] == line(
        #[trigger] matches[k],
    ) by {
        lemma_candidate_line(matches[k]);
    }
    assert(candidate_lines(matches) =~= matches.map_values(line));
}

proof fn lemma_candidate_line(e: CachedEntry)
    ensures
        candidate_line(e) == "  - "@ + e.repo + (if e.source is Local {
            " [local]"@
        } else {
            " [hf]"@
        }),
{
    reveal_strlit(" [");
    reveal_strlit("]");
    reveal_strlit("hf");
    reveal_strlit("local");
    reveal_strlit(" [hf]");
    reveal_strlit(" [local]");
    assert(" [hf]"@ =~= " ["@ + "hf"@ + "]"@);
    assert(" [local]"@ =~= " ["@ + "local"@ + "]"@);
    assert(candidate_line(e) =~= "  - "@ + e.repo + (if e.source is Local {
        " [local]"@
    } else {
        " [hf]"@
    }));
}

/// A name with a `/` stands for the first entry that is listed under exactly it.
/// Without one, or where the caches could not be scanned, the model is fetched
/// from the hub under that name, and nothing is picked from the cache. It is no
/// shorthand of anything.
pub proof fn law_full_name_finds_its_vindex(
    name: Seq<char>,
    cache: Seq<CachedEntry>,
    i: int,
    e: CacheErrorView,
)
    requires
        name.contains('/'),
    ensures
        0 <= i < cache.len() && cache[i].repo == name && (forall|j: int|
            0 <= j < i ==> (#[trigger] cache[j]).repo != name) ==> {
            &&& cached_resolution("hf://"@ + name, cache) == Ok::<CachedEntry, CacheErrorView>(
                cache[i],
            )
            &&& !"hf://"@.is_prefix_of(name) ==> {
                &&& model_step(name, Some(false), Some(Ok(cache))) == ModelStepView::Found(
                    cache[i].snapshot,
                )
                &&& cached_resolution(name, cache) == Ok::<CachedEntry, CacheErrorView>(cache[i])
            }
        },
        (forall|j: int| 0 <= j < cache.len() ==> (#[trigger] cache[j]).repo != name) ==> {
            &&& cached_resolution("hf://"@ + name, cache) == Err::<CachedEntry, CacheErrorView>(
                CacheErrorView::NotCached(name),
            )
            &&& !"hf://"@.is_prefix_of(name) ==> {
                &&& model_step(name, Some(false), Some(Ok(cache))) == ModelStepView::Fetch(
                    "hf://"@ + name,
                )
                &&& cached_resolution(name, cache) == Err::<CachedEntry, CacheErrorView>(
                    CacheErrorView::NotCached(name),
                )
            }
        },
        !"hf://"@.is_prefix_of(name) ==> model_step(name, Some(false), Some(Err(e)))
            == ModelStepView::Fetch("hf://"@ + name),
        shorthand_resolution(name, cache) == Err::<Seq<char>, CacheErrorView>(
            CacheErrorView::NoMatch(name),
        ),
{
    let full = "hf://"@ + name;
    assert("hf://"@ =~= full.subrange(0, "hf://"@.len() as int));
    assert(full.skip("hf://"@.len() as int) =~= name);
    if 0 <= i < cache.len() && cache[i].repo == name && (forall|j: int|
        0 <= j < i ==> (#[trigger] cache[j]).repo != name) {
        assert(is_first_listed(cache, name, i));
        let c = choose|c: int| is_first_listed(cache, name, c);
        assert(c == i);
    }
    assert(first_listed(Seq::<CachedEntry>::empty(), name) is None);
    let p = has_shorthand(name);
    assert forall|j: int| 0 <= j < cache.len() implies !p(#[trigger] cache[j]) by {
        let repo = cache[j].repo;
        repo.index_of_last_ensures('/');
        if shorthand_of(repo) == name {
            let at = name.index_of('/');
            if repo.index_of_last('/') is Some {
                let k = repo.index_of_last('/')->0;
                assert(repo[k + 1 + at] == name[at]);
            } else {
                assert(repo[at] == '/');
            }
        }
    }
    lemma_filter_none(cache, p);
}

/// A string without the scheme is first probed as the path of a directory, and
/// where it is none the caches are scanned.
pub proof fn law_directory_is_probed_before_the_caches(
    model: Seq<char>,
    scan: Option<Result<Seq<CachedEntry>, CacheErrorView>>,
)
    requires
        !"hf://"@.is_prefix_of(model),
    ensures
        model_step(model, None, scan) == ModelStepView::ProbeDir(model),
        model_step(model, Some(true), scan) == ModelStepView::Found(model),
        model_step(model, Some(false), None) == ModelStepView::ScanCache,
{
}

/// What a step and a lookup say is what they hold.
pub proof fn law_lookups_say_what_they_hold(
    step: ModelStep,
    path: Result<String, CacheError>,
    entry: Result<CachedVindex, CacheError>,
    scan: Option<Result<Vec<CachedVindex>, CacheError>>,
)
    ensures
        match step {
            ModelStep::Fetch(uri) => step@ == ModelStepView::Fetch(uri@),
            ModelStep::ProbeDir(p) => step@ == ModelStepView::ProbeDir(p@),
            ModelStep::ScanCache => step@ is ScanCache,
            ModelStep::Found(p) => step@ == ModelStepView::Found(p@),
            ModelStep::Failed(e) => step@ == ModelStepView::Failed(e@),
        },
        path matches Ok(p) ==> path_outcome(path) == Ok::<Seq<char>, CacheErrorView>(p@),
        path matches Err(e) ==> path_outcome(path) == Err::<Seq<char>, CacheErrorView>(e@),
        entry matches Ok(c) ==> entry_outcome(entry) == Ok::<CachedEntry, CacheErrorView>(c@),
        entry matches Err(e) ==> entry_outcome(entry) == Err::<CachedEntry, CacheErrorView>(e@),
        scan is None <==> known_scan(scan) is None,
        scan matches Some(Ok(v)) ==> known_scan(scan) == Some(
            Ok::<Seq<CachedEntry>, CacheErrorView>(entries(v@)),
        ),
        scan matches Some(Err(e)) ==> known_scan(scan) == Some(
            Err::<Seq<CachedEntry>, CacheErrorView>(e@),
        ),
{
}

} // verus!
