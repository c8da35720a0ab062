//! `larql rm <model>`: evict a cached vindex.
//!
//! Cache-only: never downloads. Accepts full `owner/name`, a cache shorthand,
//! or `<name>` for a local-cache entry.
//!
//! For local entries this unlinks the `<name>.vindex` symlink (or removes the
//! entry directory if it was a real directory). The original path that `larql
//! link` pointed at is never touched.
//!
//! For hub entries this removes the whole `models--<owner>--<name>` tree from
//! the hub cache.

use vstd::prelude::*;

use crate::entry::{entries, CacheSource, CachedEntry, CachedVindex};
use crate::error::{CacheError, CacheErrorView};
use crate::order::{
    law_stable_sort_keeps_entries, lemma_filter_keeps_count, lemma_filter_none, lemma_filter_sole,
};
use crate::path::{
    is_plain_name, joined, law_joined_ends_with_component, law_parent_of_joined, parent, parent_of,
};
use crate::resolve::{
    cache_key, cached_resolution, first_listed, has_shorthand, is_first_listed, resolve_cached_from,
    shorthand_matches,
};
use crate::scan::{
    hub_entry, hub_entry_of, hub_names_are_apart, hub_scan, is_candidate, is_listed_once,
    law_full_names_are_listed_once, law_hub_entry_iff_index, law_merged_is_hub_then_local,
    law_removed_hub_directory_is_not_listed, law_removed_local_directory_is_not_listed,
    lemma_filter_map_holds, local_entry_of, local_names_are_plain, local_scan, merged, outcome,
    HubDir, Listing, LocalDir,
};
use crate::text::{
    is_white_space, law_trimmed_leaves_the_middle, law_white_space_is_trimmed, same_text, trim, trimmed,
};

verus! {

/// What `larql rm` is asked.
#[derive(Debug)]
pub struct RmArgs {
    /// `owner/name` (hub), or cache shorthand.
    pub model: String,
    /// Skip the confirmation prompt.
    pub yes: bool,
}

/// What is known on the way, each where it was found out.
#[derive(Debug)]
pub struct RmFacts {
    /// The path to probe is a symlink.
    pub is_symlink: Option<bool>,
    /// The path to probe leads to something that exists.
    pub exists: Option<bool>,
    /// The line that the user typed at the prompt.
    pub answer: Option<String>,
}

/// What is to be done next to evict a cached vindex.
#[derive(Debug)]
pub enum RmStep {
    /// Scan both caches.
    ScanCache,
    /// Find out whether this path is a symlink.
    ProbeSymlink(String),
    /// Find out whether this path leads to something that exists.
    ProbeExists(String),
    /// Ask the user whether to remove what is described, of so many bytes.
    Confirm { what: String, size_bytes: u64 },
    /// Unlink this path, which is a symlink, without following it.
    Unlink { path: String, repo: String },
    /// Remove this directory and all that is below it.
    RemoveTree { path: String, repo: String },
    /// The user said no: nothing is removed.
    Aborted,
    Failed(CacheError),
}

/// What an [`RmStep`] says, as mathematical values.
pub enum RmStepView {
    ScanCache,
    ProbeSymlink(Seq<char>),
    ProbeExists(Seq<char>),
    Confirm(Seq<char>, u64),
    Unlink(Seq<char>, Seq<char>),
    RemoveTree(Seq<char>, Seq<char>),
    Aborted,
    Failed(CacheErrorView),
}

impl View for RmStep {
    type V = RmStepView;

    open spec fn view(&self) -> RmStepView {
        match *self {
            RmStep::ScanCache => RmStepView::ScanCache,
            RmStep::ProbeSymlink(path) => RmStepView::ProbeSymlink(path@),
            RmStep::ProbeExists(path) => RmStepView::ProbeExists(path@),
            RmStep::Confirm { what, size_bytes } => RmStepView::Confirm(what@, size_bytes),
            RmStep::Unlink { path, repo } => RmStepView::Unlink(path@, repo@),
            RmStep::RemoveTree { path, repo } => RmStepView::RemoveTree(path@, repo@),
            RmStep::Aborted => RmStepView::Aborted,
            RmStep::Failed(e) => RmStepView::Failed(e@),
        }
    }
}

/// The path that an entry's removal takes away: a local entry's own, a hub
/// entry's `models--<owner>--<name>/` above `snapshots/<sha>/`.
pub open spec fn removal_target(e: CachedEntry) -> Option<Seq<char>> {
    match e.source {
        CacheSource::Local => Some(e.snapshot),
        CacheSource::HuggingFace => match parent_of(e.snapshot) {
            Some(snapshots) => parent_of(snapshots),
            None => None,
        },
    }
}

/// How an entry is described at the prompt.
pub open spec fn description(e: CachedEntry) -> Seq<char> {
    match e.source {
        CacheSource::Local => "local link `"@ + e.repo + "`"@,
        CacheSource::HuggingFace => "HF cache `"@ + e.repo + "`"@,
    }
}

/// The answers that confirm a removal.
pub open spec fn confirms(answer: Seq<char>) -> bool {
    trimmed(answer) == "y"@ || trimmed(answer) == "Y"@ || trimmed(answer) == "yes"@
}

/// The entry's own path is a symlink. Of hub entries a directory is removed.
pub open spec fn is_link(e: CachedEntry, facts: RmFacts) -> Option<bool> {
    match e.source {
        CacheSource::Local => facts.is_symlink,
        CacheSource::HuggingFace => Some(false),
    }
}

/// How far the removal of an entry has come by what is known.
pub open spec fn removal_step(e: CachedEntry, yes: bool, facts: RmFacts) -> RmStepView {
    match (removal_target(e), is_link(e, facts)) {
        (None, _) => RmStepView::Failed(CacheErrorView::UnexpectedHubPath),
        (Some(target), None) => RmStepView::ProbeSymlink(target),
        (Some(target), Some(link)) => {
            if facts.exists is None {
                RmStepView::ProbeExists(target)
            } else if facts.exists == Some(false) && !link {
                RmStepView::Failed(CacheErrorView::NotCached(target))
            } else if !yes && facts.answer is None {
                RmStepView::Confirm(description(e), e.size_bytes)
            } else if !yes && !confirms(facts.answer->0@) {
                RmStepView::Aborted
            } else if link {
                RmStepView::Unlink(target, e.repo)
            } else {
                RmStepView::RemoveTree(target, e.repo)
            }
        },
    }
}

/// How far `larql rm` has come by what is known.
pub open spec fn rm_step(
    args: RmArgs,
    scan: Option<Result<Seq<CachedEntry>, CacheErrorView>>,
    facts: RmFacts,
) -> RmStepView {
    match scan {
        None => RmStepView::ScanCache,
        Some(Err(e)) => RmStepView::Failed(e),
        Some(Ok(cache)) => match cached_resolution(args.model@, cache) {
            Err(e) => RmStepView::Failed(e),
            Ok(entry) => removal_step(entry, args.yes, facts),
        },
    }
}

pub open spec fn borrowed_scan(scan: Option<&Result<Vec<CachedVindex>, CacheError>>) -> Option<
    Result<Seq<CachedEntry>, CacheErrorView>,
> {
    match scan {
        Some(r) => Some(outcome(*r)),
        None => None,
    }
}

fn said_yes(answer: &str) -> (r: bool)
    ensures
        r == confirms(answer@),
{
    let word: &str = trim(answer);
    same_text(word, "y") || same_text(word, "Y") || same_text(word, "yes")
}

/// The directory of a hub entry, two above its snapshot.
fn hub_repo_dir(snapshot: &str) -> (r: Option<String>)
    ensures
        match parent_of(snapshot@) {
            Some(p) => match r {
                Some(dir) => parent_of(p) == Some(dir@),
                None => parent_of(p) is None,
            },
            None => r is None,
        },
{
    match parent(snapshot) {
        Some(snapshots) => match parent(snapshots) {
            Some(dir) => Some(dir.to_owned()),
            None => None,
        },
        None => None,
    }
}

fn describe(entry: &CachedVindex) -> (text: String)
    ensures
        text@ == description(entry@),
{
    let mut text: String = match entry.source {
        CacheSource::Local => "local link `".to_owned(),
        CacheSource::HuggingFace => "HF cache `".to_owned(),
    };
    text.append(entry.repo.as_str());
    text.append("`");
    text
}

fn next_removal_step(entry: CachedVindex, yes: bool, facts: &RmFacts) -> (step: RmStep)
    ensures
        step@ == removal_step(entry@, yes, *facts),
{
    let (target, link): (String, bool) = match entry.source {
        CacheSource::Local => match facts.is_symlink {
            // For local entries, `snapshot` is the symlink / directory.
            Some(link) => (entry.snapshot.clone(), link),
            None => {
                return RmStep::ProbeSymlink(entry.snapshot);
            },
        },
        CacheSource::HuggingFace => match hub_repo_dir(entry.snapshot.as_str()) {
            Some(dir) => (dir, false),
            None => {
                return RmStep::Failed(CacheError::UnexpectedHubPath);
            },
        },
    };
    match facts.exists {
        None => {
            return RmStep::ProbeExists(target);
        },
        Some(exists) => {
            if !exists && !link {
                return RmStep::Failed(CacheError::NotCached { key: target });
            }
        },
    }
    if !yes {
        match &facts.answer {
            None => {
                return RmStep::Confirm { what: describe(&entry), size_bytes: entry.size_bytes };
            },
            Some(line) => {
                if !said_yes(line.as_str()) {
                    return RmStep::Aborted;
                }
            },
        }
    }
    if link {
        RmStep::Unlink { path: target, repo: entry.repo }
    } else {
        RmStep::RemoveTree { path: target, repo: entry.repo }
    }
}

/// The next step of `larql rm`, from what is known so far: what a scan of the
/// caches gave, what probing the path to remove showed, and what the user
/// answered.
pub fn run(
    args: &RmArgs,
    scan: Option<&Result<Vec<CachedVindex>, CacheError>>,
    facts: &RmFacts,
) -> (step: RmStep)
    ensures
        step@ == rm_step(*args, borrowed_scan(scan), *facts),
{
    match scan {
        None => RmStep::ScanCache,
        Some(Err(e)) => RmStep::Failed(e.clone()),
        Some(Ok(cache)) => match resolve_cached_from(args.model.as_str(), cache.as_slice()) {
            Err(e) => RmStep::Failed(e),
            Ok(entry) => next_removal_step(entry, args.yes, facts),
        },
    }
}

/// Something is removed only with the user's consent, given beforehand or at
/// the prompt, and only of the entry that the name stands for in the cache.
pub proof fn law_removal_needs_consent(
    args: RmArgs,
    scan: Option<Result<Seq<CachedEntry>, CacheErrorView>>,
    facts: RmFacts,
)
    requires
        rm_step(args, scan, facts) is Unlink || rm_step(args, scan, facts) is RemoveTree,
    ensures
        args.yes || (facts.answer matches Some(line) && confirms(line@)),
        scan matches Some(Ok(cache)) && cached_resolution(args.model@, cache) is Ok,
{
}

/// A symlink in the local cache is unlinked and never followed: what it points
/// at is never removed.
pub proof fn law_link_target_is_never_touched(e: CachedEntry, yes: bool, facts: RmFacts)
    requires
        e.source == CacheSource::Local,
        facts.is_symlink == Some(true),
    ensures
        !(removal_step(e, yes, facts) is RemoveTree),
        removal_step(e, yes, facts) matches RmStepView::Unlink(path, _) ==> path == e.snapshot,
{
}

/// The removal of an entry that a scan of the hub cache made is that of the
/// whole directory that the entry was found in.
pub proof fn law_hub_removal_takes_the_repository(hub: Seq<char>, dir: HubDir)
    requires
        hub_entry(hub, dir) is Some,
        is_plain_name(dir.name@),
        dir.snapshots matches Listing::Entries(v) && forall|i: int|
            0 <= i < v@.len() ==> (#[trigger] v@[i] matches Ok(s) ==> is_plain_name(s.name@)),
    ensures
        removal_target(hub_entry(hub, dir)->0) == Some(joined(hub, dir.name@)),
{
    reveal_strlit("snapshots");
    law_hub_entry_iff_index(hub, dir);
    let e = hub_entry(hub, dir)->0;
    let v = dir.snapshots->Entries_0@;
    let i = choose|i: int|
        #![trigger is_candidate(v, i)]
        is_candidate(v, i) && e.snapshot == joined(
            joined(joined(hub, dir.name@), "snapshots"@),
            (v[i]->Ok_0).name@,
        );
    let repo_dir = joined(hub, dir.name@);
    law_joined_ends_with_component(hub, dir.name@);
    assert(is_plain_name("snapshots"@));
    law_parent_of_joined(repo_dir, "snapshots"@);
    law_parent_of_joined(joined(repo_dir, "snapshots"@), (v[i]->Ok_0).name@);
}

/// Once all that is asked for is known, the removal is done, refused or
/// aborted: nothing more is asked.
pub proof fn law_removal_ends(
    args: RmArgs,
    scan: Result<Seq<CachedEntry>, CacheErrorView>,
    facts: RmFacts,
)
    requires
        facts.is_symlink is Some,
        facts.exists is Some,
        facts.answer is Some,
    ensures
        match rm_step(args, Some(scan), facts) {
            RmStepView::Unlink(_, _) => true,
            RmStepView::RemoveTree(_, _) => true,
            RmStepView::Aborted => true,
            RmStepView::Failed(_) => true,
            _ => false,
        },
{
}

proof fn lemma_sole_match_removed(
    before: Seq<CachedEntry>,
    after: Seq<CachedEntry>,
    p: spec_fn(CachedEntry) -> bool,
    e: CachedEntry,
)
    requires
        before.filter(p) == seq![e],
        after.to_multiset() == before.to_multiset().remove(e),
    ensures
        forall|i: int| 0 <= i < after.len() ==> !p(#[trigger] after[i]),
{
    broadcast use vstd::seq_lib::group_to_multiset_ensures;

    assert forall|i: int| 0 <= i < after.len() implies !p(#[trigger] after[i]) by {
        let x = after[i];
        if p(x) {
            assert(after.contains(x));
            assert(after.to_multiset().count(x) > 0);
            lemma_filter_keeps_count(before, p, x);
            assert(seq![e] =~= Seq::<CachedEntry>::empty().push(e));
            assert(before.to_multiset().count(x) == seq![e].to_multiset().count(x));
        }
    }
}

proof fn lemma_removed_entry_is_not_found(
    model: Seq<char>,
    before: Seq<CachedEntry>,
    after: Seq<CachedEntry>,
    e: CachedEntry,
)
    requires
        cached_resolution(model, before) == Ok::<CachedEntry, CacheErrorView>(e),
        cache_key(model).contains('/') ==> is_listed_once(before, cache_key(model)),
        after.to_multiset() == before.to_multiset().remove(e),
    ensures
        cached_resolution(model, after) == Err::<CachedEntry, CacheErrorView>(
            CacheErrorView::NotCached(cache_key(model)),
        ),
{
    let key = cache_key(model);
    if key.contains('/') {
        let p = |x: CachedEntry| x.repo == key;
        let i = choose|i: int| is_first_listed(before, key, i);
        lemma_filter_sole(before, p, i);
        lemma_sole_match_removed(before, after, p, e);
        if exists|j: int| is_first_listed(after, key, j) {
            let j = choose|j: int| is_first_listed(after, key, j);
            assert(!p(after[j]));
        }
        assert(first_listed(after, key) is None);
    } else {
        let p = has_shorthand(key);
        assert(shorthand_matches(before, key) =~= seq![e]);
        lemma_sole_match_removed(before, after, p, e);
        lemma_filter_none(after, p);
    }
}

proof fn lemma_made_entry_is_listed<A>(
    listed: Seq<CachedEntry>,
    items: Seq<A>,
    f: spec_fn(A) -> Option<CachedEntry>,
    k: int,
    e: CachedEntry,
)
    requires
        listed.to_multiset() == items.filter_map(f).to_multiset(),
        0 <= k < items.len(),
        f(items[k]) == Some(e),
    ensures
        listed.to_multiset().count(e) > 0,
{
    lemma_filter_map_holds(items, f, k, e);
    vstd::seq_lib::to_multiset_contains(items.filter_map(f), e);
}

/// Once the directory of the entry that a name stands for is gone from the hub
/// cache, the name is not cached any more, and removing it again is refused.
pub proof fn law_removed_hub_vindex_is_not_cached(
    args: RmArgs,
    facts: RmFacts,
    hub: Seq<char>,
    items: Vec<Result<HubDir, String>>,
    rest: Vec<Result<HubDir, String>>,
    k: int,
    local: Seq<char>,
    local_listing: Listing<LocalDir>,
)
    requires
        0 <= k < items@.len(),
        rest@ == items@.remove(k),
        hub_names_are_apart(items@),
        local_names_are_plain(local_listing),
        hub_scan(hub, Listing::Entries(items)) is Ok,
        local_scan(local, local_listing) is Ok,
        merged(
            hub_scan(hub, Listing::Entries(items)),
            local_scan(local, local_listing),
        ) matches Ok(cache) && (cached_resolution(args.model@, cache) matches Ok(e) && hub_entry_of(
            hub,
        )(items@[k]) == Some(e)),
    ensures
        rm_step(
            args,
            Some(
                merged(hub_scan(hub, Listing::Entries(rest)), local_scan(local, local_listing)),
            ),
            facts,
        ) == RmStepView::Failed(CacheErrorView::NotCached(cache_key(args.model@))),
{
    broadcast use vstd::seq_lib::group_to_multiset_ensures;

    law_removed_hub_directory_is_not_listed(hub, items, rest, k);
    law_merged_is_hub_then_local(hub, Listing::Entries(items), local, local_listing);
    law_merged_is_hub_then_local(hub, Listing::Entries(rest), local, local_listing);
    let h = hub_scan(hub, Listing::Entries(items))->Ok_0;
    let h1 = hub_scan(hub, Listing::Entries(rest))->Ok_0;
    let l = local_scan(local, local_listing)->Ok_0;
    let e = hub_entry_of(hub)(items@[k])->0;
    vstd::seq_lib::lemma_multiset_commutative(h, l);
    vstd::seq_lib::lemma_multiset_commutative(h1, l);
    law_stable_sort_keeps_entries(items@.filter_map(hub_entry_of(hub)));
    lemma_made_entry_is_listed(h, items@, hub_entry_of(hub), k, e);
    assert((h1 + l).to_multiset() =~= (h + l).to_multiset().remove(e));
    let key = cache_key(args.model@);
    if key.contains('/') {
        law_full_names_are_listed_once(hub, Listing::Entries(items), local, local_listing, key);
    }
    lemma_removed_entry_is_not_found(args.model@, h + l, h1 + l, e);
}

/// Once the symlink or the directory of the entry that a name stands for is gone
/// from the local cache, the name is not cached any more, and removing it again
/// is refused.
pub proof fn law_removed_local_vindex_is_not_cached(
    args: RmArgs,
    facts: RmFacts,
    hub: Seq<char>,
    hub_listing: Listing<HubDir>,
    local: Seq<char>,
    items: Vec<Result<LocalDir, String>>,
    rest: Vec<Result<LocalDir, String>>,
    k: int,
)
    requires
        0 <= k < items@.len(),
        rest@ == items@.remove(k),
        hub_listing matches Listing::Entries(dirs) ==> hub_names_are_apart(dirs@),
        local_names_are_plain(Listing::Entries(items)),
        hub_scan(hub, hub_listing) is Ok,
        local_scan(local, Listing::Entries(items)) is Ok,
        merged(
            hub_scan(hub, hub_listing),
            local_scan(local, Listing::Entries(items)),
        ) matches Ok(cache) && (cached_resolution(args.model@, cache) matches Ok(e) && local_entry_of(
            local,
        )(items@[k]) == Some(e)),
    ensures
        rm_step(
            args,
            Some(merged(hub_scan(hub, hub_listing), local_scan(local, Listing::Entries(rest)))),
            facts,
        ) == RmStepView::Failed(CacheErrorView::NotCached(cache_key(args.model@))),
{
    broadcast use vstd::seq_lib::group_to_multiset_ensures;

    law_removed_local_directory_is_not_listed(local, items, rest, k);
    law_merged_is_hub_then_local(hub, hub_listing, local, Listing::Entries(items));
    law_merged_is_hub_then_local(hub, hub_listing, local, Listing::Entries(rest));
    let h = hub_scan(hub, hub_listing)->Ok_0;
    let l = local_scan(local, Listing::Entries(items))->Ok_0;
    let l1 = local_scan(local, Listing::Entries(rest))->Ok_0;
    let e = local_entry_of(local)(items@[k])->0;
    vstd::seq_lib::lemma_multiset_commutative(h, l);
    vstd::seq_lib::lemma_multiset_commutative(h, l1);
    law_stable_sort_keeps_entries(items@.filter_map(local_entry_of(local)));
    lemma_made_entry_is_listed(l, items@, local_entry_of(local), k, e);
    assert((h + l1).to_multiset() =~= (h + l).to_multiset().remove(e));
    let key = cache_key(args.model@);
    if key.contains('/') {
        law_full_names_are_listed_once(hub, hub_listing, local, Listing::Entries(items), key);
    }
    lemma_removed_entry_is_not_found(args.model@, h + l, h + l1, e);
}

/// The line is white space, then one of `y`, `Y` and `yes` from index `a` up to
/// `b`, then white space.
pub open spec fn spells_yes(line: Seq<char>, a: int, b: int) -> bool {
    &&& 0 <= a <= b <= line.len()
    &&& forall|i: int| 0 <= i < a || b <= i < line.len() ==> is_white_space(#[trigger] line[i])
    &&& {
        ||| b == a + 1 && (line[a] == 'y' || line[a] == 'Y')
        ||| b == a + 3 && line[a] == 'y' && line[a + 1] == 'e' && line[a + 2] == 's'
    }
}

proof fn lemma_consent_is_spelled(line: Seq<char>)
    ensures
        confirms(line) <==> exists|a: int, b: int| spells_yes(line, a, b),
{
    reveal_strlit("y");
    reveal_strlit("Y");
    reveal_strlit("yes");
    if confirms(line) {
        let (a, b) = law_trimmed_leaves_the_middle(line);
        let word = line.subrange(a, b);
        assert(word == trimmed(line));
        assert(word[0] == line[a]);
        if word.len() == 3 {
            assert(word[1] == line[a + 1]);
            assert(word[2] == line[a + 2]);
        }
        assert(spells_yes(line, a, b));
    }
    if exists|a: int, b: int| spells_yes(line, a, b) {
        let (a, b) = choose|a: int, b: int| spells_yes(line, a, b);
        let word = line.subrange(a, b);
        let head = line.take(a);
        let tail = line.skip(b);
        assert(line =~= head + word + tail);
        assert forall|i: int| 0 <= i < tail.len() implies is_white_space(#[trigger] tail[i]) by {
            assert(tail[i] == line[b + i]);
        }
        law_white_space_is_trimmed(head, word, tail);
        if b == a + 3 {
            assert(word =~= "yes"@);
        } else if line[a] == 'y' {
            assert(word =~= "y"@);
        } else {
            assert(word =~= "Y"@);
        }
    }
}

/// Without `-y` something is removed only where the line that the user typed is
/// `y`, `Y` or `yes`, with nothing but white space around it. A line whose first
/// character other than white space is no `y` or `Y`, such as `n` or `N`, and a
/// line of nothing but white space remove nothing.
pub proof fn law_removal_needs_a_typed_yes(
    args: RmArgs,
    scan: Option<Result<Seq<CachedEntry>, CacheErrorView>>,
    facts: RmFacts,
    i: int,
)
    ensures
        !args.yes && (rm_step(args, scan, facts) is Unlink || rm_step(args, scan, facts) is RemoveTree)
            ==> (facts.answer matches Some(line) && exists|a: int, b: int|
            spells_yes(line@, a, b)),
        !args.yes && (facts.answer matches Some(line) && 0 <= i < line@.len() && (forall|k: int|
            0 <= k < i ==> is_white_space(#[trigger] line@[k])) && !is_white_space(line@[i])
            && line@[i] != 'y' && line@[i] != 'Y') ==> !(rm_step(args, scan, facts) is Unlink) && !(
        rm_step(args, scan, facts) is RemoveTree),
        !args.yes && (facts.answer matches Some(line) && forall|k: int|
            0 <= k < line@.len() ==> is_white_space(#[trigger] line@[k])) ==> !(rm_step(
            args,
            scan,
            facts,
        ) is Unlink) && !(rm_step(args, scan, facts) is RemoveTree),
{
    let step = rm_step(args, scan, facts);
    if !args.yes && (step is Unlink || step is RemoveTree) {
        law_removal_needs_consent(args, scan, facts);
        let line = facts.answer->0@;
        lemma_consent_is_spelled(line);
        let (a, b) = choose|a: int, b: int| spells_yes(line, a, b);
        assert(!is_white_space(line[a]));
    }
}

/// The removal of `e` takes away `path`: of a local entry its own, and of a hub
/// entry the one two above its snapshot.
pub open spec fn is_path_to_remove(e: CachedEntry, path: Seq<char>) -> bool {
    if e.source is Local {
        path == e.snapshot
    } else {
        parent_of(e.snapshot) matches Some(up) && parent_of(up) == Some(path)
    }
}

/// The removal of an entry takes away its own path in the local cache and the
/// directory two above its snapshot in the hub cache. It first asks whether a
/// local path is a symlink, then whether there is anything at the path, and where
/// there is not the removal is refused, but for a symlink, which may dangle.
/// Without `-y` it asks the user, with what is to go and its size, and goes on
/// only on a yes. A symlink is unlinked, and anything else is removed as a tree.
pub proof fn law_removal_goes_step_by_step(
    e: CachedEntry,
    yes: bool,
    facts: RmFacts,
    path: Seq<char>,
)
    requires
        is_path_to_remove(e, path),
    ensures
        e.source is Local && facts.is_symlink is None ==> removal_step(e, yes, facts)
            == RmStepView::ProbeSymlink(path),
        !(e.source is Local && facts.is_symlink is None) ==> {
            let link = e.source is Local && facts.is_symlink == Some(true);
            let there = facts.exists == Some(true) || (facts.exists == Some(false) && link);
            let gone = if link {
                RmStepView::Unlink(path, e.repo)
            } else {
                RmStepView::RemoveTree(path, e.repo)
            };
            &&& facts.exists is None ==> removal_step(e, yes, facts) == RmStepView::ProbeExists(path)
            &&& facts.exists == Some(false) && !link ==> removal_step(e, yes, facts)
                == RmStepView::Failed(CacheErrorView::NotCached(path))
            &&& there && yes ==> removal_step(e, yes, facts) == gone
            &&& there && !yes && facts.answer is None ==> removal_step(e, yes, facts)
                == RmStepView::Confirm(
                (if e.source is Local {
                    "local link `"@
                } else {
                    "HF cache `"@
                }) + e.repo + "`"@,
                e.size_bytes,
            )
            &&& there && !yes ==> (facts.answer matches Some(line) ==> {
                &&& (exists|a: int, b: int| spells_yes(line@, a, b)) ==> removal_step(e, yes, facts)
                    == gone
                &&& !(exists|a: int, b: int| spells_yes(line@, a, b)) ==> removal_step(e, yes, facts)
                    is Aborted
            })
        },
{
    if facts.answer is Some {
        lemma_consent_is_spelled(facts.answer->0@);
    }
}

/// A hub entry whose snapshot does not lie two directories deep is not removed.
pub proof fn law_shallow_snapshot_is_refused(e: CachedEntry, yes: bool, facts: RmFacts)
    requires
        e.source is HuggingFace,
        forall|path: Seq<char>| !is_path_to_remove(e, path),
    ensures
        removal_step(e, yes, facts) == RmStepView::Failed(CacheErrorView::UnexpectedHubPath),
{
    if parent_of(e.snapshot) is Some && parent_of(parent_of(e.snapshot)->0) is Some {
        assert(is_path_to_remove(e, parent_of(parent_of(e.snapshot)->0)->0));
    }
}

/// The command scans the caches, removes the entry that its name stands for
/// there, and is refused where the scan or the lookup is.
pub proof fn law_command_removes_the_named_entry(
    args: RmArgs,
    cache: Seq<CachedEntry>,
    e: CacheErrorView,
    facts: RmFacts,
)
    ensures
        rm_step(args, None, facts) is ScanCache,
        rm_step(args, Some(Err(e)), facts) == RmStepView::Failed(e),
        cached_resolution(args.model@, cache) matches Ok(entry) ==> rm_step(
            args,
            Some(Ok(cache)),
            facts,
        ) == removal_step(entry, args.yes, facts),
        cached_resolution(args.model@, cache) matches Err(why) ==> rm_step(
            args,
            Some(Ok(cache)),
            facts,
        ) == RmStepView::Failed(why),
{
}

/// What a step of the command says is what it holds.
pub proof fn law_removal_step_says_what_it_holds(
    step: RmStep,
    scan: Result<Vec<CachedVindex>, CacheError>,
)
    ensures
        match step {
            RmStep::ScanCache => step@ is ScanCache,
            RmStep::ProbeSymlink(path) => step@ == RmStepView::ProbeSymlink(path@),
            RmStep::ProbeExists(path) => step@ == RmStepView::ProbeExists(path@),
            RmStep::Confirm { what, size_bytes } => step@ == RmStepView::Confirm(what@, size_bytes),
            RmStep::Unlink { path, repo } => step@ == RmStepView::Unlink(path@, repo@),
            RmStep::RemoveTree { path, repo } => step@ == RmStepView::RemoveTree(path@, repo@),
            RmStep::Aborted => step@ is Aborted,
            RmStep::Failed(e) => step@ == RmStepView::Failed(e@),
        },
        borrowed_scan(None) is None,
        scan matches Ok(v) ==> borrowed_scan(Some(&scan)) == Some(
            Ok::<Seq<CachedEntry>, CacheErrorView>(entries(v@)),
        ),
        scan matches Err(e) ==> borrowed_scan(Some(&scan)) == Some(
            Err::<Seq<CachedEntry>, CacheErrorView>(e@),
        ),
{
}

} // verus!
