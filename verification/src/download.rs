//! Fetching a vindex from the hub: what is cached already, which files to
//! fetch, and the steps on the way.

use vstd::prelude::*;

use crate::dirs::{hf_cache_repo_dir, hub_folder, CacheEnv};
use crate::entry::CachedEntry;
use crate::error::CacheErrorView;
use crate::hub::{
    failure, files_outcome, hf_parts, law_hf_path_round_trip, parse_hf_path, str_text, HfRef, VindexError,
};
use crate::path::{join, joined, law_joined_tells_apart, root_len};
use crate::resolve::model_step;
use crate::text::{same_text, strip_suffix, text_of, texts};

verus! {

/// The file that makes a directory a vindex.
pub const INDEX_JSON: &'static str = "index.json";

/// Where the hub cache keeps the bytes of a file, by their hash.
pub open spec fn blob_of(repo_dir: Seq<char>, etag: Seq<char>) -> Seq<char> {
    joined(joined(repo_dir, "blobs"@), etag)
}

/// Where a snapshot of a repository keeps a file.
pub open spec fn snapshot_file_of(
    repo_dir: Seq<char>,
    snapshot: Seq<char>,
    filename: Seq<char>,
) -> Seq<char> {
    joined(joined(joined(repo_dir, "snapshots"@), snapshot), filename)
}

pub fn blob_path(repo_dir: &str, etag: &str) -> (path: String)
    ensures
        path@ == blob_of(repo_dir@, etag@),
{
    join(join(repo_dir, "blobs").as_str(), etag)
}

pub fn snapshot_file(repo_dir: &str, snapshot: &str, filename: &str) -> (path: String)
    ensures
        path@ == snapshot_file_of(repo_dir@, snapshot@, filename@),
{
    join(join(join(repo_dir, "snapshots").as_str(), snapshot).as_str(), filename)
}

/// What lies at the path of a blob.
#[derive(Debug)]
pub struct BlobFacts {
    pub is_file: bool,
    pub len: u64,
}

/// A snapshot of a repository in the hub cache.
#[derive(Debug)]
pub struct SnapshotProbe {
    pub name: String,
    /// It has the file in question, as a link to the blob in question.
    pub links_blob: bool,
}

/// What the hub cache holds of a file.
#[derive(Debug)]
pub struct CacheProbe {
    /// What lies at the path of its blob, if anything.
    pub blob: Option<BlobFacts>,
    /// The snapshots of the repository, in the order read, where they could be.
    pub snapshots: Option<Vec<SnapshotProbe>>,
    /// The snapshot named like the pinned revision, if any is, has the file as a
    /// link to its blob.
    pub pinned_links_blob: bool,
}

/// The first snapshot that has the file as a link to the blob. The file of an
/// older commit may have the same name and link to another blob.
pub open spec fn first_linking(snapshots: Seq<SnapshotProbe>) -> Option<Seq<char>>
    decreases snapshots.len(),
{
    if snapshots.len() == 0 {
        None
    } else if snapshots.first().links_blob {
        Some(snapshots.first().name@)
    } else {
        first_linking(snapshots.drop_first())
    }
}

/// The path by which to open a file whose bytes are cached: in the first
/// snapshot that links to them, else in that of the pinned revision where it
/// does, else the blob.
pub open spec fn ready_path(
    repo_dir: Seq<char>,
    etag: Seq<char>,
    revision: Option<Seq<char>>,
    filename: Seq<char>,
    probe: CacheProbe,
) -> Seq<char> {
    let first = match probe.snapshots {
        Some(snapshots) => first_linking(snapshots@),
        None => None,
    };
    match (first, revision) {
        (Some(snapshot), _) => snapshot_file_of(repo_dir, snapshot, filename),
        (None, Some(rev)) => if probe.pinned_links_blob {
            snapshot_file_of(repo_dir, rev, filename)
        } else {
            blob_of(repo_dir, etag)
        },
        (None, None) => blob_of(repo_dir, etag),
    }
}

/// The blob is there, a file, and of the size that the hub gives.
pub open spec fn blob_is_ready(size: u64, probe: CacheProbe) -> bool {
    probe.blob matches Some(blob) && blob.is_file && blob.len == size
}

/// The ready-to-use copy of a file in the hub cache, and its size.
pub open spec fn cached_file(
    env: CacheEnv,
    repo_id: Seq<char>,
    revision: Option<Seq<char>>,
    filename: Seq<char>,
    head: Option<(Seq<char>, u64)>,
    probe: CacheProbe,
) -> Option<(Seq<char>, u64)> {
    match (head, env.download_dir()) {
        (Some((etag, size)), Some(root)) => if blob_is_ready(size, probe) {
            Some(
                (
                    ready_path(
                        joined(root, hub_folder(repo_id)),
                        etag,
                        revision,
                        filename,
                        probe,
                    ),
                    size,
                ),
            )
        } else {
            None
        },
        _ => None,
    }
}

/// What the hub says of a file, as mathematical values.
pub open spec fn head_view(head: Option<(String, u64)>) -> Option<(Seq<char>, u64)> {
    match head {
        Some((etag, size)) => Some((etag@, size)),
        None => None,
    }
}

fn find_linking(snapshots: &Vec<SnapshotProbe>) -> (r: Option<&str>)
    ensures
        str_text(r) == first_linking(snapshots@),
{
    let mut i: usize = 0;
    assert(snapshots@.skip(0) =~= snapshots@);
    while i < snapshots.len()
        invariant
            i <= snapshots.len(),
            first_linking(snapshots@) == first_linking(snapshots@.skip(i as int)),
        decreases snapshots.len() - i,
    {
        assert(snapshots@.skip(i as int).drop_first() =~= snapshots@.skip(i + 1));
        if snapshots[i].links_blob {
            return Some(snapshots[i].name.as_str());
        }
        i = i + 1;
    }
    None
}

/// Check the hub cache for `filename` and return its path and size iff a
/// ready-to-use copy exists whose content hash matches what the hub reports.
///
/// The cache is laid out as:
///
/// ```text
/// ~/.cache/huggingface/hub/models--{owner}--{name}/
///   blobs/<etag>            actual file bytes
///   snapshots/<commit>/     symlinks to blobs
///     <filename>
/// ```
///
/// `head` is the content hash and the size that the hub reports, where it does,
/// and `probe` what the cache holds at the paths that follow from them. The path
/// is one in a snapshot where a snapshot links to that content, else the blob's.
pub fn cached_snapshot_file(
    env: &CacheEnv,
    repo_id: &str,
    revision: Option<&str>,
    filename: &str,
    head: &Option<(String, u64)>,
    probe: &CacheProbe,
) -> (r: Option<(String, u64)>)
    ensures
        head_view(r) == cached_file(
            *env,
            repo_id@,
            str_text(revision),
            filename@,
            head_view(*head),
            *probe,
        ),
{
    let (etag, size): (&str, u64) = match head {
        Some((etag, size)) => (etag.as_str(), *size),
        None => {
            return None;
        },
    };
    let repo_dir: String = match hf_cache_repo_dir(env, repo_id) {
        Some(dir) => dir,
        None => {
            return None;
        },
    };
    match &probe.blob {
        Some(blob) => {
            if !blob.is_file || blob.len != size {
                return None;
            }
        },
        None => {
            return None;
        },
    }
    let first: Option<&str> = match &probe.snapshots {
        Some(snapshots) => find_linking(snapshots),
        None => None,
    };
    match first {
        Some(snapshot) => {
            return Some((snapshot_file(repo_dir.as_str(), snapshot, filename), size));
        },
        None => {},
    }
    match revision {
        Some(rev) => {
            if probe.pinned_links_blob {
                return Some((snapshot_file(repo_dir.as_str(), rev, filename), size));
            }
        },
        None => {},
    }
    Some((blob_path(repo_dir.as_str(), etag), size))
}

/// How a file comes to be on disk.
#[derive(Debug)]
pub enum FetchStep {
    /// It is there; report it as done under this message.
    Cached { path: String, size: u64, message: String },
    Download,
}

/// What an `index.json` on disk ends in, where it lies under that name.
pub const INDEX_END: &'static str = "/index.json";

/// Whether the cached copy at `path` can stand for the file. The directory of
/// `index.json` is that of the vindex, so it has to lie under its own name, as it
/// does in a snapshot and as the mere blob does not.
pub open spec fn can_serve(filename: Seq<char>, path: Seq<char>) -> bool {
    filename == INDEX_JSON@ ==> INDEX_END@.is_suffix_of(path)
}

/// Whether a file is downloaded, by what the cache holds of it. The message
/// tells a file that was cached from one that was just downloaded very fast.
pub fn fetch_step(filename: &str, cached: Option<(String, u64)>) -> (step: FetchStep)
    ensures
        match head_view(cached) {
            Some((p, n)) => if can_serve(filename@, p) {
                step matches FetchStep::Cached { path, size, message } && path@ == p && size == n
                    && message@ == filename@ + " [cached]"@
            } else {
                step is Download
            },
            None => step is Download,
        },
{
    match cached {
        Some((path, size)) => {
            if same_text(filename, INDEX_JSON) && strip_suffix(path.as_str(), INDEX_END).is_none() {
                return FetchStep::Download;
            }
            let mut message = filename.to_owned();
            message.append(" [cached]");
            FetchStep::Cached { path, size, message }
        },
        None => FetchStep::Download,
    }
}

/// The files that a list names, else those that vindexes are known to have.
pub open spec fn files_to_fetch(
    listing: Result<Seq<Seq<char>>, Seq<char>>,
    core: Seq<Seq<char>>,
    weights: Seq<Seq<char>>,
) -> Seq<Seq<char>> {
    match listing {
        Ok(files) => files,
        Err(_) => core + weights,
    }
}

fn append_copies(to: &mut Vec<String>, from: &Vec<String>)
    ensures
        texts(final(to)@) == texts(old(to)@) + texts(from@),
{
    let ghost start = texts(to@);
    let mut i: usize = 0;
    assert(start + texts(from@).take(0) =~= start);
    while i < from.len()
        invariant
            i <= from.len(),
            texts(to@) == start + texts(from@).take(i as int),
        decreases from.len() - i,
    {
        let ghost before = to@;
        to.push(from[i].clone());
        proof {
            assert(texts(to@) =~= texts(before).push(from@[i as int]@));
            assert(start + texts(from@).take(i + 1) =~= (start + texts(from@).take(i as int)).push(
                texts(from@)[i as int],
            ));
        }
        i = i + 1;
    }
    assert(texts(from@).take(from.len() as int) =~= texts(from@));
}

/// The files that the hub lists; where it could not be asked, the names that
/// vindexes are known to have: those of the core files, then those of the
/// weights. Better to attempt those than to bail with no files at all.
pub fn repo_files_or_fallback(
    listing: Result<Vec<String>, VindexError>,
    core: &Vec<String>,
    weights: &Vec<String>,
) -> (files: Vec<String>)
    ensures
        texts(files@) == files_to_fetch(files_outcome(listing), texts(core@), texts(weights@)),
{
    match listing {
        Ok(files) => files,
        Err(_) => {
            let mut files: Vec<String> = Vec::new();
            append_copies(&mut files, core);
            append_copies(&mut files, weights);
            assert(texts(files@) =~= texts(core@) + texts(weights@));
            files
        },
    }
}

/// A file on disk: the directory that it lies in, where there is one, and its
/// name there.
#[derive(Debug)]
pub struct FileOnDisk {
    pub dir: Option<String>,
    pub name: String,
}

impl FileOnDisk {
    /// The path of the file.
    pub open spec fn path_text(self) -> Seq<char> {
        match self.dir {
            Some(dir) => joined(dir@, self.name@),
            None => self.name@,
        }
    }
}

/// The directory of the vindex whose `index.json` was found at `index`.
pub open spec fn vindex_dir(index: FileOnDisk) -> Option<Seq<char>> {
    if index.name@ == INDEX_JSON@ {
        text_of(index.dir)
    } else {
        None
    }
}

/// What is known on the way, each where it was found out.
#[derive(Debug)]
pub struct HfFacts {
    /// The hub's client was made, or why not.
    pub client: Option<Result<(), String>>,
    /// Where `index.json` lies on disk now, or why it could not be fetched.
    pub index: Option<Result<FileOnDisk, String>>,
    /// The files of the repository.
    pub files: Option<Vec<String>>,
}

/// What is to be done next to fetch a vindex from the hub.
#[derive(Debug)]
pub enum HfStep {
    /// Make a client for the hub.
    MakeClient,
    /// Fetch `index.json` of this repository.
    FetchIndex(HfRef),
    /// List the files of this repository.
    ListFiles(HfRef),
    /// Fetch these files, whatever comes of each; the vindex lies in `dir`.
    Finish { dir: String, fetch: Vec<String> },
    Failed(VindexError),
}

/// What an [`HfStep`] says, as mathematical values.
pub enum HfStepView {
    MakeClient,
    FetchIndex(Seq<char>, Option<Seq<char>>),
    ListFiles(Seq<char>, Option<Seq<char>>),
    Finish(Seq<char>, Seq<Seq<char>>),
    Failed(Seq<char>),
}

impl View for HfStep {
    type V = HfStepView;

    open spec fn view(&self) -> HfStepView {
        match *self {
            HfStep::MakeClient => HfStepView::MakeClient,
            HfStep::FetchIndex(hf) => HfStepView::FetchIndex(hf.repo_id@, text_of(hf.revision)),
            HfStep::ListFiles(hf) => HfStepView::ListFiles(hf.repo_id@, text_of(hf.revision)),
            HfStep::Finish { dir, fetch } => HfStepView::Finish(dir@, texts(fetch@)),
            HfStep::Failed(e) => HfStepView::Failed(e@),
        }
    }
}

/// The property to be a file other than `index.json`.
pub open spec fn is_not_index() -> spec_fn(Seq<char>) -> bool {
    |f: Seq<char>| f != INDEX_JSON@
}

/// How it is worded that `index.json` could not be fetched for the reason
/// `why`; a fetch that reports its progress leaves the reason out.
pub open spec fn index_failure(repo_id: Seq<char>, why: Seq<char>, progress: bool) -> Seq<char> {
    if progress {
        "failed to fetch index.json from hf://"@ + repo_id
    } else {
        "failed to download index.json from hf://"@ + repo_id + ": "@ + why
    }
}

/// How far fetching a vindex has come by what is known.
pub open spec fn hf_step(path: Seq<char>, facts: HfFacts, progress: bool) -> HfStepView {
    match hf_parts(path) {
        None => HfStepView::Failed("not an hf:// path: "@ + path),
        Some((repo_id, revision)) => match (facts.client, facts.index) {
            (None, _) => HfStepView::MakeClient,
            (Some(Err(why)), _) => HfStepView::Failed("HuggingFace API init failed: "@ + why@),
            (Some(Ok(_)), None) => HfStepView::FetchIndex(repo_id, revision),
            (Some(Ok(_)), Some(Err(why))) => HfStepView::Failed(
                index_failure(repo_id, why@, progress),
            ),
            (Some(Ok(_)), Some(Ok(index))) => match (vindex_dir(index), facts.files) {
                (None, _) => HfStepView::Failed("cannot determine vindex directory"@),
                (Some(_), None) => HfStepView::ListFiles(repo_id, revision),
                (Some(dir), Some(files)) => HfStepView::Finish(
                    dir,
                    texts(files@).filter(is_not_index()),
                ),
            },
        },
    }
}

/// The files but for `index.json`, which is fetched before all others.
fn without_index(files: &Vec<String>) -> (rest: Vec<String>)
    ensures
        texts(rest@) == texts(files@).filter(is_not_index()),
{
    let mut rest: Vec<String> = Vec::new();
    let mut i: usize = 0;
    let ghost all = texts(files@);
    proof {
        reveal(Seq::filter);
        assert(texts(rest@) =~= all.take(0).filter(is_not_index()));
    }
    while i < files.len()
        invariant
            i <= files.len(),
            all == texts(files@),
            texts(rest@) == all.take(i as int).filter(is_not_index()),
        decreases files.len() - i,
    {
        proof {
            reveal(Seq::filter);
            assert(all.take(i + 1).drop_last() =~= all.take(i as int));
            assert(all.take(i + 1).last() == files@[i as int]@);
        }
        if !same_text(files[i].as_str(), INDEX_JSON) {
            let ghost before = rest@;
            rest.push(files[i].clone());
            assert(texts(rest@) =~= texts(before).push(files@[i as int]@));
        }
        i = i + 1;
    }
    assert(all.take(files.len() as int) =~= all);
    rest
}

fn next_hf_step(hf_path: &str, facts: &HfFacts, progress: bool) -> (step: HfStep)
    ensures
        step@ == hf_step(hf_path@, *facts, progress),
{
    let hf: HfRef = match parse_hf_path(hf_path) {
        Ok(hf) => hf,
        Err(e) => {
            return HfStep::Failed(e);
        },
    };
    match &facts.client {
        None => {
            return HfStep::MakeClient;
        },
        Some(Err(why)) => {
            return HfStep::Failed(failure("HuggingFace API init failed: ", why.as_str()));
        },
        Some(Ok(_)) => {},
    }
    // index.json comes first: the rest of the snapshot pivots off its parent
    // directory.
    let index: &FileOnDisk = match &facts.index {
        None => {
            return HfStep::FetchIndex(hf);
        },
        Some(Err(why)) => {
            if progress {
                return HfStep::Failed(
                    failure("failed to fetch index.json from hf://", hf.repo_id.as_str()),
                );
            }
            let mut head = "failed to download index.json from hf://".to_owned();
            head.append(hf.repo_id.as_str());
            head.append(": ");
            return HfStep::Failed(failure(head.as_str(), why.as_str()));
        },
        Some(Ok(file)) => file,
    };
    match &index.dir {
        Some(dir) => {
            if same_text(index.name.as_str(), INDEX_JSON) {
                return match &facts.files {
                    None => HfStep::ListFiles(hf),
                    Some(files) => HfStep::Finish { dir: dir.clone(), fetch: without_index(files) },
                };
            }
        },
        None => {},
    }
    HfStep::Failed(VindexError::Parse("cannot determine vindex directory".to_owned()))
}

/// The next step in resolving an `hf://` path to a local directory, downloading
/// if needed, from what is known so far.
///
/// Supports:
/// - `hf://user/repo`: the default revision
/// - `hf://user/repo@revision`: specific revision/tag
pub fn resolve_hf_vindex(hf_path: &str, facts: &HfFacts) -> (step: HfStep)
    ensures
        step@ == hf_step(hf_path@, *facts, false),
{
    next_hf_step(hf_path, facts, false)
}

/// Like [`resolve_hf_vindex`], where each file's progress is reported and files
/// that are cached already are not downloaded (see [`fetch_step`]).
pub fn resolve_hf_vindex_with_progress(hf_path: &str, facts: &HfFacts) -> (step: HfStep)
    ensures
        step@ == hf_step(hf_path@, *facts, true),
{
    next_hf_step(hf_path, facts, true)
}

/// Download additional weight files for inference/compile. Fetching a vindex
/// already includes its weights, so nothing but whether that went well is left.
pub fn download_hf_weights(resolved: Result<String, VindexError>) -> (r: Result<(), VindexError>)
    ensures
        match resolved {
            Ok(_) => r is Ok,
            Err(e) => r == Err::<(), VindexError>(e),
        },
{
    match resolved {
        Ok(_) => Ok(()),
        Err(e) => Err(e),
    }
}

/// A file is served from the cache only where its blob is there, a file, and of
/// the size that the hub reports, and it is served with that size.
pub proof fn law_cached_file_matches_the_hub(
    env: CacheEnv,
    repo_id: Seq<char>,
    revision: Option<Seq<char>>,
    filename: Seq<char>,
    head: Option<(Seq<char>, u64)>,
    probe: CacheProbe,
)
    requires
        cached_file(env, repo_id, revision, filename, head, probe) is Some,
    ensures
        head matches Some((_, size)) && blob_is_ready(size, probe) && (cached_file(
            env,
            repo_id,
            revision,
            filename,
            head,
            probe,
        ) matches Some((_, served)) && served == size),
{
}

/// The path that a file is served at leads to the blob of the hash that the hub
/// reports: it is that blob's own, or a file of a snapshot that links to it.
pub proof fn law_served_path_leads_to_the_blob(
    env: CacheEnv,
    repo_id: Seq<char>,
    revision: Option<Seq<char>>,
    filename: Seq<char>,
    head: Option<(Seq<char>, u64)>,
    probe: CacheProbe,
)
    requires
        cached_file(env, repo_id, revision, filename, head, probe) is Some,
    ensures
        ({
            let dir = joined(env.download_dir()->0, hub_folder(repo_id));
            cached_file(env, repo_id, revision, filename, head, probe) matches Some((path, _)) && (
            head matches Some((etag, _)) && {
                ||| path == blob_of(dir, etag)
                ||| probe.snapshots matches Some(v) && exists|i: int|
                    0 <= i < v@.len() && (#[trigger] v@[i]).links_blob && path == snapshot_file_of(
                        dir,
                        v@[i].name@,
                        filename,
                    )
                ||| revision matches Some(rev) && probe.pinned_links_blob && path
                    == snapshot_file_of(dir, rev, filename)
            })
        }),
{
    if let Some(v) = probe.snapshots {
        lemma_first_linking(v@);
    }
}

proof fn lemma_first_linking(snapshots: Seq<SnapshotProbe>)
    ensures
        first_linking(snapshots) matches Some(name) ==> exists|i: int|
            0 <= i < snapshots.len() && (#[trigger] snapshots[i]).links_blob && snapshots[i].name@
                == name,
    decreases snapshots.len(),
{
    if snapshots.len() > 0 && !snapshots.first().links_blob {
        let rest = snapshots.drop_first();
        lemma_first_linking(rest);
        if first_linking(rest) is Some {
            let i = choose|i: int|
                0 <= i < rest.len() && (#[trigger] rest[i]).links_blob && rest[i].name@
                    == first_linking(rest)->0;
            assert(snapshots[i + 1] == rest[i]);
        }
    }
}

/// An `index.json` of a snapshot can be served from the cache, and one that is
/// served lies under that name in a directory.
pub proof fn law_served_index_has_its_name(
    repo_dir: Seq<char>,
    snapshot: Seq<char>,
    path: Seq<char>,
)
    ensures
        can_serve(INDEX_JSON@, snapshot_file_of(repo_dir, snapshot, INDEX_JSON@)),
        can_serve(INDEX_JSON@, path) ==> exists|dir: Seq<char>| path == joined(dir, INDEX_JSON@),
{
    reveal_strlit("index.json");
    reveal_strlit("/index.json");
    reveal_strlit("snapshots");
    let n = INDEX_JSON@.len() as int;
    let base = joined(joined(repo_dir, "snapshots"@), snapshot);
    let file = snapshot_file_of(repo_dir, snapshot, INDEX_JSON@);
    assert(base.len() > 0);
    assert(INDEX_END@ =~= file.subrange(file.len() - n - 1, file.len() as int));
    if can_serve(INDEX_JSON@, path) {
        let dir = path.take(path.len() - n);
        let end = path.subrange(path.len() - n - 1, path.len() as int);
        assert(end == INDEX_END@);
        assert(dir.last() == end[0]);
        assert forall|k: int| 0 <= k < n implies path[path.len() - n + k] == INDEX_JSON@[k] by {
            assert(end[k + 1] == path[path.len() - n + k]);
        }
        assert(path =~= joined(dir, INDEX_JSON@));
    }
}

/// The directory that a fetch resolves to is one in which `index.json` lies, the
/// file that was found or fetched first.
pub proof fn law_resolved_directory_holds_index(path: Seq<char>, facts: HfFacts, progress: bool)
    requires
        hf_step(path, facts, progress) is Finish,
    ensures
        facts.index matches Some(Ok(index)) && index.path_text() == joined(
            hf_step(path, facts, progress)->Finish_0,
            INDEX_JSON@,
        ),
{
}

/// A file whose content hash changed on the hub is looked for under another
/// blob, so the old one is not taken for it.
pub proof fn law_changed_hash_changes_blob(repo_dir: Seq<char>, old_etag: Seq<char>, etag: Seq<char>)
    requires
        root_len(old_etag) == 0,
        root_len(etag) == 0,
        old_etag != etag,
    ensures
        blob_of(repo_dir, old_etag) != blob_of(repo_dir, etag),
{
    if blob_of(repo_dir, old_etag) == blob_of(repo_dir, etag) {
        law_joined_tells_apart(joined(repo_dir, "blobs"@), old_etag, etag);
    }
}

/// `index.json` is not fetched again with the other files, and every other file
/// is fetched.
pub proof fn law_every_other_file_is_fetched(
    path: Seq<char>,
    facts: HfFacts,
    progress: bool,
    file: Seq<char>,
)
    requires
        hf_step(path, facts, progress) is Finish,
    ensures
        facts.files is Some,
        hf_step(path, facts, progress)->Finish_1.contains(file) <==> file != INDEX_JSON@ && texts(
            facts.files->0@,
        ).contains(file),
{
    let all = texts(facts.files->0@);
    let p = is_not_index();
    let rest = all.filter(p);
    if rest.contains(file) {
        let k = rest.index_of(file);
        all.lemma_filter_pred(p, k);
        all.lemma_filter_contains_rev(p, file);
    }
    if file != INDEX_JSON@ && all.contains(file) {
        let i = all.index_of(file);
        all.lemma_filter_contains(p, i);
    }
}

/// Reporting progress changes neither what is fetched nor where the vindex
/// lies, nor whether the fetch fails.
pub proof fn law_progress_changes_no_outcome(path: Seq<char>, facts: HfFacts)
    ensures
        hf_step(path, facts, true) is Failed <==> hf_step(path, facts, false) is Failed,
        !(hf_step(path, facts, true) is Failed) ==> hf_step(path, facts, true) == hf_step(
            path,
            facts,
            false,
        ),
{
}

/// What resolving a model string asks to fetch is an `hf://` path, never one
/// that the fetch refuses as none.
pub proof fn law_fetch_gets_an_hf_path(
    model: Seq<char>,
    is_dir: Option<bool>,
    scan: Option<Result<Seq<CachedEntry>, CacheErrorView>>,
)
    requires
        model_step(model, is_dir, scan) is Fetch,
    ensures
        hf_parts(model_step(model, is_dir, scan)->Fetch_0) is Some,
{
    let uri = model_step(model, is_dir, scan)->Fetch_0;
    if uri != model {
        assert("hf://"@ =~= uri.subrange(0, "hf://"@.len() as int));
    }
}

/// Once all that is asked for is known, the fetch ends: with the directory and
/// the files to fetch into it, or with an error.
pub proof fn law_fetch_ends(path: Seq<char>, facts: HfFacts, progress: bool)
    requires
        facts.client is Some,
        facts.index is Some,
        facts.files is Some,
    ensures
        hf_step(path, facts, progress) is Finish || hf_step(path, facts, progress) is Failed,
{
}

/// The path of a hub repository, with a revision or without.
pub open spec fn hf_uri(repo: Seq<char>, revision: Option<Seq<char>>) -> Seq<char> {
    if revision is Some {
        "hf://"@ + repo + "@"@ + revision->0
    } else {
        "hf://"@ + repo
    }
}

/// `index.json` is fetched, and the files are listed, of the very repository and
/// revision that the path names. They come after the client was made, in this
/// order, and then all listed files but `index.json` are fetched, in the order of
/// the list, into the directory in which `index.json` lies.
pub proof fn law_fetch_is_of_the_named_revision(
    repo: Seq<char>,
    revision: Option<Seq<char>>,
    facts: HfFacts,
    progress: bool,
)
    requires
        !repo.contains('@'),
    ensures
        facts.client is None ==> hf_step(hf_uri(repo, revision), facts, progress) is MakeClient,
        facts.client == Some(Ok::<(), String>(())) && facts.index is None ==> hf_step(
            hf_uri(repo, revision),
            facts,
            progress,
        ) == HfStepView::FetchIndex(repo, revision),
        facts.client == Some(Ok::<(), String>(())) ==> (facts.index matches Some(Ok(index))
            ==> (index.name@ == "index.json"@ ==> (index.dir matches Some(dir) ==> {
            &&& facts.files is None ==> hf_step(hf_uri(repo, revision), facts, progress)
                == HfStepView::ListFiles(repo, revision)
            &&& facts.files matches Some(files) ==> hf_step(hf_uri(repo, revision), facts, progress)
                == HfStepView::Finish(
                dir@,
                files@.map_values(|f: String| f@).filter(|f: Seq<char>| f != "index.json"@),
            )
        }))),
{
    law_hf_path_round_trip(
        repo,
        match revision {
            Some(r) => r,
            None => repo,
        },
    );
    if let Some(files) = facts.files {
        assert(texts(files@) =~= files@.map_values(|f: String| f@));
        let p = |f: Seq<char>| f != "index.json"@;
        assert(p =~= is_not_index());
    }
}

/// A fetch fails where the path is none of the hub, where the client could not be
/// made, where `index.json` could not be fetched, and where it does not lie under
/// its name in a directory; the error says which, of which repository, and why,
/// but for the last reason where progress is reported.
pub proof fn law_failed_fetch_says_why(
    path: Seq<char>,
    repo: Seq<char>,
    revision: Option<Seq<char>>,
    facts: HfFacts,
    progress: bool,
)
    requires
        !repo.contains('@'),
    ensures
        !"hf://"@.is_prefix_of(path) ==> hf_step(path, facts, progress) == HfStepView::Failed(
            "not an hf:// path: "@ + path,
        ),
        facts.client matches Some(Err(why)) ==> hf_step(hf_uri(repo, revision), facts, progress)
            == HfStepView::Failed("HuggingFace API init failed: "@ + why@),
        facts.client == Some(Ok::<(), String>(())) ==> (facts.index matches Some(Err(why)) ==> {
            &&& hf_step(hf_uri(repo, revision), facts, false) == HfStepView::Failed(
                "failed to download index.json from hf://"@ + repo + ": "@ + why@,
            )
            &&& hf_step(hf_uri(repo, revision), facts, true) == HfStepView::Failed(
                "failed to fetch index.json from hf://"@ + repo,
            )
        }),
        facts.client == Some(Ok::<(), String>(())) ==> (facts.index matches Some(Ok(index)) ==> (
        index.name@ != "index.json"@ || index.dir is None ==> hf_step(
            hf_uri(repo, revision),
            facts,
            progress,
        ) == HfStepView::Failed("cannot determine vindex directory"@))),
{
    law_hf_path_round_trip(
        repo,
        match revision {
            Some(r) => r,
            None => repo,
        },
    );
}

/// The hub cache keeps the bytes of a hash in `blobs/` of the repository, and the
/// files of a snapshot in a directory of its own in `snapshots/`.
pub proof fn law_cache_layout(
    repo_dir: Seq<char>,
    etag: Seq<char>,
    snapshot: Seq<char>,
    filename: Seq<char>,
)
    ensures
        blob_of(repo_dir, etag) == joined(joined(repo_dir, "blobs"@), etag),
        snapshot_file_of(repo_dir, snapshot, filename) == joined(
            joined(joined(repo_dir, "snapshots"@), snapshot),
            filename,
        ),
{
}

/// A file is served from the cache iff the hub gives its hash and its size, there
/// is a place for the cache, and the blob of that hash is a file of that size. It
/// is served with that size, from the first snapshot that links to the blob, else
/// from that of the pinned revision where it does, else as the blob itself.
pub proof fn law_cached_file_is_served_by_its_hash(
    env: CacheEnv,
    repo_id: Seq<char>,
    revision: Option<Seq<char>>,
    filename: Seq<char>,
    head: Option<(Seq<char>, u64)>,
    probe: CacheProbe,
    i: int,
)
    ensures
        cached_file(env, repo_id, revision, filename, head, probe) is Some <==> (head matches Some(
            (_, size),
        ) && env.download_dir() is Some && (probe.blob matches Some(blob) && blob.is_file && blob.len
            == size)),
        cached_file(env, repo_id, revision, filename, head, probe) matches Some((path, served)) ==> {
            let dir = joined(env.download_dir()->0, hub_folder(repo_id));
            let (etag, size) = head->0;
            let none_links = probe.snapshots is None || forall|k: int|
                0 <= k < probe.snapshots->0@.len() ==> !(
                #[trigger] probe.snapshots->0@[k]).links_blob;
            &&& served == size
            &&& probe.snapshots matches Some(v) ==> (0 <= i < v@.len() && v@[i].links_blob && (forall|
                k: int,
            |
                0 <= k < i ==> !(#[trigger] v@[k]).links_blob) ==> path == snapshot_file_of(
                dir,
                v@[i].name@,
                filename,
            ))
            &&& none_links && revision is Some && probe.pinned_links_blob ==> path
                == snapshot_file_of(dir, revision->0, filename)
            &&& none_links && !(revision is Some && probe.pinned_links_blob) ==> path == blob_of(
                dir,
                etag,
            )
        },
{
    if let Some(v) = probe.snapshots {
        lemma_first_linking_at(v@, i);
    }
}

proof fn lemma_first_linking_at(snapshots: Seq<SnapshotProbe>, i: int)
    ensures
        0 <= i < snapshots.len() && snapshots[i].links_blob && (forall|k: int|
            0 <= k < i ==> !(#[trigger] snapshots[k]).links_blob) ==> first_linking(snapshots) == Some(
            snapshots[i].name@,
        ),
        (forall|k: int| 0 <= k < snapshots.len() ==> !(#[trigger] snapshots[k]).links_blob)
            ==> first_linking(snapshots) is None,
    decreases snapshots.len(),
{
    if snapshots.len() > 0 {
        let rest = snapshots.drop_first();
        lemma_first_linking_at(rest, i - 1);
        assert forall|k: int| 0 <= k < rest.len() implies #[trigger] rest[k] == snapshots[k + 1] by {}
        if 0 < i {
            assert(0 < i && snapshots[0].links_blob ==> !(forall|k: int|
                0 <= k < i ==> !(#[trigger] snapshots[k]).links_blob));
        }
    }
}

/// Of cached copies only one of `index.json` is turned down, and only where it
/// does not lie under that name.
pub proof fn law_only_a_nameless_index_is_turned_down(filename: Seq<char>, path: Seq<char>)
    ensures
        can_serve(filename, path) <==> filename != "index.json"@ || "/index.json"@.is_suffix_of(path),
        INDEX_JSON@ == "index.json"@,
{
}

/// The files to fetch are those that the hub lists, and where it does not, all
/// core files and then all weights.
pub proof fn law_listed_files_go_before_known_ones(
    listed: Seq<Seq<char>>,
    why: Seq<char>,
    core: Seq<Seq<char>>,
    weights: Seq<Seq<char>>,
)
    ensures
        files_to_fetch(Ok(listed), core, weights) == listed,
        files_to_fetch(Err(why), core, weights) == core + weights,
{
}

/// What a step of a fetch says is what it holds.
pub proof fn law_fetch_step_says_what_it_holds(step: HfStep, head: Option<(String, u64)>)
    ensures
        match step {
            HfStep::MakeClient => step@ is MakeClient,
            HfStep::FetchIndex(hf) => step@ == HfStepView::FetchIndex(
                hf.repo_id@,
                text_of(hf.revision),
            ),
            HfStep::ListFiles(hf) => step@ == HfStepView::ListFiles(
                hf.repo_id@,
                text_of(hf.revision),
            ),
            HfStep::Finish { dir, fetch } => step@ == HfStepView::Finish(
                dir@,
                fetch@.map_values(|f: String| f@),
            ),
            HfStep::Failed(e) => step@ == HfStepView::Failed(e@),
        },
        head is None <==> head_view(head) is None,
        head matches Some((etag, size)) ==> head_view(head) == Some((etag@, size)),
{
    if let HfStep::Finish { dir, fetch } = step {
        assert(texts(fetch@) =~= fetch@.map_values(|f: String| f@));
    }
}

} // verus!
