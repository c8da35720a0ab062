//! Talking to the hub: `hf://` paths, addresses, and what its answers say.

use vstd::prelude::*;

use crate::text::{
    find_char, is_white_space, law_character_is_trimmed, law_white_space_is_trimmed, number,
    parse_u64, same_as, same_text, strip_prefix, text_of, texts, trim, trim_of, trimmed,
    trimmed_end, trimmed_of, trimmed_start,
};
use crate::trusted::{
    json_rows, json_rows_of, repo_at, repo_at_default, repo_with_revision, row_texts, status_text,
    status_text_of, JsonRow, RepoKind,
};

verus! {

/// Why a vindex could not be fetched.
#[derive(Debug)]
pub enum VindexError {
    Parse(String),
}

impl View for VindexError {
    type V = Seq<char>;

    /// The wording of the error.
    open spec fn view(&self) -> Seq<char> {
        match *self {
            VindexError::Parse(text) => text@,
        }
    }
}

pub(crate) fn failure(head: &str, text: &str) -> (e: VindexError)
    ensures
        e@ == head@ + text@,
{
    let mut m = head.to_owned();
    m.append(text);
    VindexError::Parse(m)
}

/// A repository on the hub, and the revision or tag of it that was asked for.
#[derive(Debug)]
pub struct HfRef {
    pub repo_id: String,
    pub revision: Option<String>,
}

/// The repository that the part of an `hf://` path after the scheme names.
pub open spec fn repo_part(rest: Seq<char>) -> Seq<char> {
    match rest.index_of_first('@') {
        Some(i) => rest.take(i),
        None => rest,
    }
}

/// The revision that the part of an `hf://` path after the scheme names.
pub open spec fn revision_part(rest: Seq<char>) -> Option<Seq<char>> {
    match rest.index_of_first('@') {
        Some(i) => Some(rest.skip(i + 1)),
        None => None,
    }
}

/// What an `hf://` path names: `hf://user/repo`, or `hf://user/repo@revision`.
pub open spec fn hf_parts(path: Seq<char>) -> Option<(Seq<char>, Option<Seq<char>>)> {
    if "hf://"@.is_prefix_of(path) {
        let rest = path.skip("hf://"@.len() as int);
        Some((repo_part(rest), revision_part(rest)))
    } else {
        None
    }
}

/// Reads an `hf://` path.
pub fn parse_hf_path(hf_path: &str) -> (r: Result<HfRef, VindexError>)
    ensures
        match r {
            Ok(hf) => hf_parts(hf_path@) == Some((hf.repo_id@, text_of(hf.revision))),
            Err(e) => hf_parts(hf_path@) is None && e@ == "not an hf:// path: "@ + hf_path@,
        },
{
    match strip_prefix(hf_path, "hf://") {
        None => Err(failure("not an hf:// path: ", hf_path)),
        Some(rest) => {
            let n: usize = rest.unicode_len();
            match find_char(rest, '@') {
                Some(i) => Ok(
                    HfRef {
                        repo_id: rest.substring_char(0, i).to_owned(),
                        revision: Some(rest.substring_char(i + 1, n).to_owned()),
                    },
                ),
                None => Ok(HfRef { repo_id: rest.to_owned(), revision: None }),
            }
        },
    }
}

/// The revision to read where `revision` was asked for.
pub open spec fn revision_or_main(revision: Option<Seq<char>>) -> Seq<char> {
    match revision {
        Some(r) => r,
        None => "main"@,
    }
}

/// The characters of a text that may be missing.
pub open spec fn str_text(s: Option<&str>) -> Option<Seq<char>> {
    match s {
        Some(t) => Some(t@),
        None => None,
    }
}

/// The handle by which the hub's client knows a model repository.
pub fn open_repo(hf: &HfRef) -> (repo: hf_hub::Repo)
    ensures
        repo == repo_at(hf.repo_id@, RepoKind::Model, revision_or_main(text_of(hf.revision))),
{
    match &hf.revision {
        Some(rev) => repo_with_revision(hf.repo_id.clone(), RepoKind::Model, rev.clone()),
        None => repo_at_default(hf.repo_id.clone(), RepoKind::Model),
    }
}

/// The address at which the hub resolves a file of a model repository.
pub open spec fn head_address(
    repo_id: Seq<char>,
    revision: Option<Seq<char>>,
    filename: Seq<char>,
) -> Seq<char> {
    "https://huggingface.co/"@ + repo_id + "/resolve/"@ + revision_or_main(revision) + "/"@
        + filename
}

pub fn head_url(repo_id: &str, revision: Option<&str>, filename: &str) -> (url: String)
    ensures
        url@ == head_address(repo_id@, str_text(revision), filename@),
{
    let mut url = "https://huggingface.co/".to_owned();
    url.append(repo_id);
    url.append("/resolve/");
    match revision {
        Some(rev) => url.append(rev),
        None => url.append("main"),
    }
    url.append("/");
    url.append(filename);
    url
}

/// The address at which the hub lists the files of a model repository.
pub open spec fn tree_address(repo_id: Seq<char>, revision: Option<Seq<char>>) -> Seq<char> {
    "https://huggingface.co/api/models/"@ + repo_id + "/tree/"@ + revision_or_main(revision)
        + "?recursive=true"@
}

pub fn tree_url(repo_id: &str, revision: Option<&str>) -> (url: String)
    ensures
        url@ == tree_address(repo_id@, str_text(revision)),
{
    let mut url = "https://huggingface.co/api/models/".to_owned();
    url.append(repo_id);
    url.append("/tree/");
    match revision {
        Some(rev) => url.append(rev),
        None => url.append("main"),
    }
    url.append("?recursive=true");
    url
}

/// The `Authorization` header that carries a token.
pub fn bearer(token: &str) -> (value: String)
    ensures
        value@ == "Bearer "@ + token@,
{
    let mut value = "Bearer ".to_owned();
    value.append(token);
    value
}

/// A byte of a header's value that is text: visible ASCII, a blank or a tab.
pub open spec fn is_header_text(b: u8) -> bool {
    32 <= b < 127 || b == 9
}

/// The text of a header's value, where all of it is text.
pub open spec fn header_chars(bytes: Seq<u8>) -> Option<Seq<char>> {
    if forall|i: int| 0 <= i < bytes.len() ==> is_header_text(#[trigger] bytes[i]) {
        Some(bytes.map_values(|b: u8| b as char))
    } else {
        None
    }
}

/// The text of a header's value, where all of it is text.
pub fn header_text(bytes: &Vec<u8>) -> (r: Option<String>)
    ensures
        text_of(r) == header_chars(bytes@),
{
    let mut text = String::new();
    let mut i: usize = 0;
    while i < bytes.len()
        invariant
            i <= bytes.len(),
            forall|k: int| 0 <= k < i ==> is_header_text(#[trigger] bytes@[k]),
            text@ == bytes@.take(i as int).map_values(|b: u8| b as char),
        decreases bytes.len() - i,
    {
        let b: u8 = bytes[i];
        if !((32 <= b && b < 127) || b == 9) {
            return None;
        }
        text.push(b as char);
        assert(text@ =~= bytes@.take(i + 1).map_values(|b: u8| b as char));
        i = i + 1;
    }
    assert(bytes@.take(bytes.len() as int) =~= bytes@);
    Some(text)
}

/// The content hash that an HTTP ETag quotes.
pub open spec fn etag_hash(raw: Seq<char>) -> Seq<char> {
    let t = trimmed(raw);
    let strong = if "W/"@.is_prefix_of(t) { t.skip("W/"@.len() as int) } else { t };
    trimmed_of(strong, '"')
}

/// Normalise an HTTP ETag header to the raw content hash that names a blob in
/// the hub cache. Handles:
///   * strong etag: `"abc123"` to `abc123`
///   * weak etag:   `W/"abc123"` to `abc123`
pub fn strip_etag_quoting(raw: &str) -> (hash: String)
    ensures
        hash@ == etag_hash(raw@),
{
    let t: &str = trim(raw);
    let strong: &str = match strip_prefix(t, "W/") {
        Some(rest) => rest,
        None => t,
    };
    trim_of(strong, '"').to_owned()
}

/// What the hub answers to a HEAD request, redirects not followed: the status
/// and the raw values of the headers that it has.
#[derive(Debug)]
pub struct HeadReply {
    pub status: u16,
    pub linked_etag: Option<Vec<u8>>,
    pub etag: Option<Vec<u8>>,
    pub linked_size: Option<Vec<u8>>,
    pub content_length: Option<Vec<u8>>,
}

/// The value of the preferred header where there is one, else of the other.
pub open spec fn header_choice(preferred: Option<Vec<u8>>, other: Option<Vec<u8>>) -> Option<
    Seq<char>,
> {
    match (preferred, other) {
        (Some(bytes), _) => header_chars(bytes@),
        (None, Some(bytes)) => header_chars(bytes@),
        (None, None) => None,
    }
}

/// The content hash and the size that an answer gives of a file: the status is
/// that of a success or a redirection, the hash comes from `X-Linked-Etag`, else
/// `ETag`, and the size, a number of 64 bits, from `X-Linked-Size`, else
/// `Content-Length`.
pub open spec fn head_facts(reply: HeadReply) -> Option<(Seq<char>, nat)> {
    match (
        header_choice(reply.linked_etag, reply.etag),
        header_choice(reply.linked_size, reply.content_length),
    ) {
        (Some(raw), Some(size)) => match number(size) {
            Some(n) => if 200 <= reply.status < 400 && n <= u64::MAX {
                Some((etag_hash(raw), n))
            } else {
                None
            },
            None => None,
        },
        _ => None,
    }
}

fn choose_header(preferred: &Option<Vec<u8>>, other: &Option<Vec<u8>>) -> (r: Option<String>)
    ensures
        text_of(r) == header_choice(*preferred, *other),
{
    match preferred {
        Some(bytes) => header_text(bytes),
        None => match other {
            Some(bytes) => header_text(bytes),
            None => None,
        },
    }
}

/// The content hash and the size of a file as the hub's answer to a HEAD
/// request for it gives them.
pub fn head_etag_and_size(reply: &HeadReply) -> (r: Option<(String, u64)>)
    ensures
        match r {
            Some((etag, size)) => head_facts(*reply) == Some((etag@, size as nat)),
            None => head_facts(*reply) is None,
        },
{
    if !(200 <= reply.status && reply.status < 300) && !(300 <= reply.status && reply.status < 400) {
        return None;
    }
    match choose_header(&reply.linked_etag, &reply.etag) {
        None => None,
        Some(raw) => match choose_header(&reply.linked_size, &reply.content_length) {
            None => None,
            Some(text) => match parse_u64(text.as_str()) {
                Some(size) => Some((strip_etag_quoting(raw.as_str()), size)),
                None => None,
            },
        },
    }
}

/// What is said of a body that is no JSON, in the words of the HTTP client.
pub const UNDECODABLE: &'static str = "error decoding response body";

/// What came of asking the hub for the files of a repository.
#[derive(Debug)]
pub enum TreeReply {
    /// There is no client to ask with; the text says why.
    NoClient(String),
    /// There is no answer; the text says why.
    NoAnswer(String),
    /// The status, and the body where it could be read.
    Answer { status: u16, body: Result<Vec<u8>, String> },
}

/// A number that HTTP has for a status: one of three digits.
pub open spec fn is_status(code: u16) -> bool {
    100 <= code < 1000
}

impl TreeReply {
    /// The status of an answer is one that HTTP has.
    pub open spec fn is_http(self) -> bool {
        match self {
            TreeReply::Answer { status, .. } => is_status(status),
            _ => true,
        }
    }
}

/// The path in a row of the hub's list, where the row is of a file.
pub open spec fn file_path() -> spec_fn((Option<Seq<char>>, Option<Seq<char>>)) -> Option<
    Seq<char>,
> {
    |row: (Option<Seq<char>>, Option<Seq<char>>)|
        if row.0 == Some("file"@) {
            row.1
        } else {
            None
        }
}

/// The paths of the files among the rows of the hub's list, each row the `type`
/// and the `path` of an entry.
pub open spec fn file_paths(rows: Seq<(Option<Seq<char>>, Option<Seq<char>>)>) -> Seq<Seq<char>> {
    rows.filter_map(file_path())
}

/// The files that an answer lists, or what is wrong with it.
pub open spec fn listed_files(url: Seq<char>, reply: TreeReply) -> Result<
    Seq<Seq<char>>,
    Seq<char>,
> {
    match reply {
        TreeReply::NoClient(why) => Err("HF tree client init: "@ + why@),
        TreeReply::NoAnswer(why) => Err("HF tree fetch failed: "@ + why@),
        TreeReply::Answer { status, body } => if !(200 <= status < 300) {
            Err("HF tree "@ + url + " -> HTTP "@ + status_text_of(status))
        } else {
            match body {
                Err(why) => Err("HF tree JSON: "@ + why@),
                Ok(bytes) => match json_rows_of(bytes@, "type"@, "path"@) {
                    None => Err("HF tree JSON: "@ + UNDECODABLE@),
                    Some(Err(value)) => Err("HF tree response not an array: "@ + value),
                    Some(Ok(rows)) => Ok(file_paths(rows)),
                },
            }
        },
    }
}

/// What asking for a list of files gave, as mathematical values.
pub open spec fn files_outcome(r: Result<Vec<String>, VindexError>) -> Result<
    Seq<Seq<char>>,
    Seq<char>,
> {
    match r {
        Ok(files) => Ok(texts(files@)),
        Err(e) => Err(e@),
    }
}

/// The paths of the files among the rows of the hub's list. Directories are
/// left out, and so are rows without a path.
pub fn tree_files(rows: &Vec<JsonRow>) -> (files: Vec<String>)
    ensures
        texts(files@) == file_paths(row_texts(rows@)),
{
    let mut files: Vec<String> = Vec::new();
    let mut i: usize = 0;
    let ghost all = row_texts(rows@);
    assert(texts(files@) =~= all.take(0).filter_map(file_path()));
    while i < rows.len()
        invariant
            i <= rows.len(),
            all == row_texts(rows@),
            texts(files@) == all.take(i as int).filter_map(file_path()),
        decreases rows.len() - i,
    {
        proof {
            all.lemma_filter_map_take_succ(file_path(), i as int);
            assert(all[i as int] == (text_of(rows@[i as int].first), text_of(
                rows@[i as int].second,
            )));
        }
        let is_file: bool = match &rows[i].first {
            Some(kind) => same_text(kind.as_str(), "file"),
            None => false,
        };
        if is_file {
            match &rows[i].second {
                Some(path) => {
                    let ghost before = files@;
                    files.push(path.clone());
                    assert(texts(files@) =~= texts(before) + seq![path@]);
                },
                None => {},
            }
        }
        i = i + 1;
    }
    assert(all.take(rows.len() as int) =~= all);
    files
}

/// List every file path in the repository by the hub's answer to a request for
/// its tree, recursive. Returns paths relative to the repository's root (e.g.
/// `"index.json"`, `"layers/layer_00.weights"`).
pub fn list_repo_files(repo_id: &str, revision: Option<&str>, reply: &TreeReply) -> (r: Result<
    Vec<String>,
    VindexError,
>)
    requires
        reply.is_http(),
    ensures
        files_outcome(r) == listed_files(tree_address(repo_id@, str_text(revision)), *reply),
{
    match reply {
        TreeReply::NoClient(why) => Err(failure("HF tree client init: ", why.as_str())),
        TreeReply::NoAnswer(why) => Err(failure("HF tree fetch failed: ", why.as_str())),
        TreeReply::Answer { status, body } => {
            if !(200 <= *status && *status < 300) {
                let mut head = "HF tree ".to_owned();
                head.append(tree_url(repo_id, revision).as_str());
                head.append(" -> HTTP ");
                return Err(failure(head.as_str(), status_text(*status).as_str()));
            }
            match body {
                Err(why) => Err(failure("HF tree JSON: ", why.as_str())),
                Ok(bytes) => match json_rows(bytes.as_slice(), "type", "path") {
                    None => Err(failure("HF tree JSON: ", UNDECODABLE)),
                    Some(Err(value)) => Err(
                        failure("HF tree response not an array: ", value.as_str()),
                    ),
                    Some(Ok(rows)) => Ok(tree_files(&rows)),
                },
            }
        },
    }
}

/// A repository is named by `hf://repo`, and a revision of it by
/// `hf://repo@revision`.
pub proof fn law_hf_path_round_trip(repo: Seq<char>, revision: Seq<char>)
    requires
        !repo.contains('@'),
    ensures
        hf_parts("hf://"@ + repo) == Some((repo, None::<Seq<char>>)),
        hf_parts("hf://"@ + repo + "@"@ + revision) == Some((repo, Some(revision))),
{
    reveal_strlit("@");
    let scheme = "hf://"@;
    let bare = scheme + repo;
    assert(scheme =~= bare.subrange(0, scheme.len() as int));
    assert(bare.skip(scheme.len() as int) =~= repo);
    repo.index_of_first_ensures('@');
    let rest = repo + "@"@ + revision;
    let full = scheme + repo + "@"@ + revision;
    assert(scheme =~= full.subrange(0, scheme.len() as int));
    assert(full.skip(scheme.len() as int) =~= rest);
    rest.index_of_first_ensures('@');
    let at = repo.len() as int;
    assert(rest[at] == '@');
    assert(rest.contains('@'));
    let i = rest.index_of_first('@')->0;
    if i < at {
        assert(repo[i] == '@');
        assert(repo.contains('@'));
    }
    assert(rest.take(at) =~= repo);
    assert(rest.skip(at + 1) =~= revision);
}

/// Where no revision is asked for, the file that is looked up, the list that is
/// read and the repository that is opened are those of the revision `main`.
pub proof fn law_main_is_the_default(repo_id: Seq<char>, filename: Seq<char>)
    ensures
        head_address(repo_id, None, filename) == head_address(repo_id, Some("main"@), filename),
        tree_address(repo_id, None) == tree_address(repo_id, Some("main"@)),
        repo_at(repo_id, RepoKind::Model, revision_or_main(None)) == repo_at(
            repo_id,
            RepoKind::Model,
            revision_or_main(Some("main"@)),
        ),
{
}

/// A hash that is quoted as a strong or as a weak ETag is read back, unless a
/// quote stands at one of its own ends.
pub proof fn law_quoted_etag_is_read_back(hash: Seq<char>)
    requires
        hash.len() > 0 ==> hash.first() != '"' && hash.last() != '"',
    ensures
        etag_hash("\""@ + hash + "\""@) == hash,
        etag_hash("W/\""@ + hash + "\""@) == hash,
{
    reveal_strlit("\"");
    reveal_strlit("W/\"");
    reveal_strlit("W/");
    let quoted = "\""@ + hash + "\""@;
    let weak = "W/\""@ + hash + "\""@;
    assert(!"W/"@.is_prefix_of(quoted)) by {
        if "W/"@.is_prefix_of(quoted) {
            assert(quoted.subrange(0, 2)[0] == quoted[0]);
        }
    }
    assert("W/"@ =~= weak.subrange(0, 2));
    assert(weak.skip(2) =~= quoted);
    assert(trimmed_of(quoted, '"') == hash) by {
        reveal_with_fuel(trimmed_start, 3);
        reveal_with_fuel(trimmed_end, 3);
        let inner = quoted.drop_first();
        if hash.len() > 0 {
            assert(inner.first() == hash.first());
            assert(trimmed_start(quoted, same_as('"')) == inner);
            assert(inner.drop_last() =~= hash);
            assert(trimmed_end(inner, same_as('"')) == hash);
        } else {
            assert(inner =~= seq!['"']);
            assert(inner.drop_first() =~= hash);
        }
    }
    assert(trimmed(quoted) == quoted);
    assert(trimmed(weak) == weak);
}

/// A hash that is not quoted is left as it is.
pub proof fn law_bare_etag_is_kept(hash: Seq<char>)
    requires
        hash.len() > 0 ==> hash.first() != '"' && hash.last() != '"',
        hash.len() > 0 ==> !is_white_space(hash.first()) && !is_white_space(hash.last()),
        !"W/"@.is_prefix_of(hash),
    ensures
        etag_hash(hash) == hash,
{
}

/// Every path that the hub's list is read to hold is that of one of its files:
/// directories are left out.
pub proof fn law_only_files_are_listed(
    rows: Seq<(Option<Seq<char>>, Option<Seq<char>>)>,
    path: Seq<char>,
)
    ensures
        file_paths(rows).contains(path) <==> rows.contains((Some("file"@), Some(path))),
    decreases rows.len(),
{
    if file_paths(rows).contains(path) {
        rows.lemma_filter_map_contains(file_path(), path);
    }
    if rows.contains((Some("file"@), Some(path))) {
        let i = rows.index_of((Some("file"@), Some(path)));
        let rest = rows.drop_last();
        if i == rows.len() - 1 {
            assert(file_paths(rows).last() == path);
        } else {
            assert(rest[i] == (Some("file"@), Some(path)));
            law_only_files_are_listed(rest, path);
            let k = file_paths(rest).index_of(path);
            assert(file_paths(rows)[k] == path);
        }
    }
}

/// What is no `hf://` path names nothing, and what is one names the repository up
/// to its first `@` and the revision after it, where there is an `@`.
pub proof fn law_hf_path_names_repo_and_revision(path: Seq<char>, repo: Seq<char>, revision: Seq<char>)
    ensures
        hf_parts(path) is Some <==> "hf://"@.is_prefix_of(path),
        hf_parts(path) matches Some((r, Some(rev))) ==> !r.contains('@') && path == "hf://"@ + r + "@"@
            + rev,
        hf_parts(path) matches Some((r, None)) ==> !r.contains('@') && path == "hf://"@ + r,
        !repo.contains('@') ==> hf_parts("hf://"@ + repo) == Some((repo, None::<Seq<char>>)),
        !repo.contains('@') ==> hf_parts("hf://"@ + repo + "@"@ + revision) == Some(
            (repo, Some(revision)),
        ),
{
    reveal_strlit("@");
    if !repo.contains('@') {
        law_hf_path_round_trip(repo, revision);
    }
    if "hf://"@.is_prefix_of(path) {
        let n = "hf://"@.len() as int;
        let rest = path.skip(n);
        assert(path =~= path.subrange(0, n) + rest);
        rest.index_of_first_ensures('@');
        match rest.index_of_first('@') {
            Some(i) => {
                assert(!rest.take(i).contains('@')) by {
                    if rest.take(i).contains('@') {
                        let k = rest.take(i).index_of('@');
                        assert(rest[k] == '@');
                    }
                }
                assert(rest =~= rest.take(i) + "@"@ + rest.skip(i + 1));
                assert(path =~= "hf://"@ + rest.take(i) + "@"@ + rest.skip(i + 1));
            },
            None => {
                assert(path =~= "hf://"@ + rest);
            },
        }
    }
}

/// The addresses hold the repository, the revision and the file as they were
/// given, and `main` where no revision was.
pub proof fn law_addresses_hold_what_is_asked_for(
    repo_id: Seq<char>,
    revision: Seq<char>,
    filename: Seq<char>,
)
    ensures
        head_address(repo_id, Some(revision), filename) == "https://huggingface.co/"@ + repo_id
            + "/resolve/"@ + revision + "/"@ + filename,
        head_address(repo_id, None, filename) == "https://huggingface.co/"@ + repo_id
            + "/resolve/main/"@ + filename,
        tree_address(repo_id, Some(revision)) == "https://huggingface.co/api/models/"@ + repo_id
            + "/tree/"@ + revision + "?recursive=true"@,
        tree_address(repo_id, None) == "https://huggingface.co/api/models/"@ + repo_id
            + "/tree/main?recursive=true"@,
        revision_or_main(Some(revision)) == revision,
        revision_or_main(None) == "main"@,
{
    reveal_strlit("/resolve/");
    reveal_strlit("main");
    reveal_strlit("/");
    reveal_strlit("/resolve/main/");
    reveal_strlit("/tree/");
    reveal_strlit("?recursive=true");
    reveal_strlit("/tree/main?recursive=true");
    assert("/resolve/main/"@ =~= "/resolve/"@ + "main"@ + "/"@);
    assert("/tree/main?recursive=true"@ =~= "/tree/"@ + "main"@ + "?recursive=true"@);
    assert(head_address(repo_id, None, filename) =~= "https://huggingface.co/"@ + repo_id
        + "/resolve/main/"@ + filename);
    assert(tree_address(repo_id, None) =~= "https://huggingface.co/api/models/"@ + repo_id
        + "/tree/main?recursive=true"@);
}

/// The value of a header is text iff each of its bytes is visible ASCII, a blank
/// or a tab, and the text has the character of each byte.
pub proof fn law_header_is_read_by_bytes(bytes: Seq<u8>, i: int)
    ensures
        header_chars(bytes) is Some <==> forall|k: int|
            0 <= k < bytes.len() ==> 32 <= #[trigger] bytes[k] <= 126 || bytes[k] == 9,
        header_chars(bytes) matches Some(text) ==> text.len() == bytes.len() && (0 <= i < bytes.len()
            ==> text[i] as int == bytes[i] as int),
{
    if forall|k: int| 0 <= k < bytes.len() ==> 32 <= #[trigger] bytes[k] <= 126 || bytes[k] == 9 {
        assert forall|k: int| 0 <= k < bytes.len() implies is_header_text(#[trigger] bytes[k]) by {}
    }
    if forall|k: int| 0 <= k < bytes.len() ==> is_header_text(#[trigger] bytes[k]) {
        assert forall|k: int| 0 <= k < bytes.len() implies 32 <= #[trigger] bytes[k] <= 126
            || bytes[k] == 9 by {
            assert(is_header_text(bytes[k]));
        }
    }
}

/// A hash is read from an ETag whatever white space stands around it, with the
/// mark of a weak one or without, and however many quotes stand around the hash.
pub proof fn law_etag_is_read_in_any_quoting(
    lead: Seq<char>,
    weak: bool,
    open: Seq<char>,
    hash: Seq<char>,
    close: Seq<char>,
    trail: Seq<char>,
)
    requires
        forall|i: int| 0 <= i < lead.len() ==> is_white_space(#[trigger] lead[i]),
        forall|i: int| 0 <= i < trail.len() ==> is_white_space(#[trigger] trail[i]),
        forall|i: int| 0 <= i < open.len() ==> #[trigger] open[i] == '"',
        forall|i: int| 0 <= i < close.len() ==> #[trigger] close[i] == '"',
        hash.len() > 0 ==> hash.first() != '"' && hash.last() != '"',
        ({
            let quoted = open + hash + close;
            &&& quoted.len() > 0 ==> (weak || !is_white_space(quoted.first())) && !is_white_space(
                quoted.last(),
            )
            &&& !weak ==> !"W/"@.is_prefix_of(quoted)
        }),
    ensures
        etag_hash(
            lead + (if weak {
                "W/"@ + (open + hash + close)
            } else {
                open + hash + close
            }) + trail,
        ) == hash,
{
    reveal_strlit("W/");
    let quoted = open + hash + close;
    let core = if weak {
        "W/"@ + quoted
    } else {
        quoted
    };
    if weak {
        assert(core.first() == 'W');
        assert(core.last() == if quoted.len() > 0 {
            quoted.last()
        } else {
            '/'
        });
        assert("W/"@ =~= core.subrange(0, 2));
        assert(core.skip(2) =~= quoted);
    }
    law_white_space_is_trimmed(lead, core, trail);
    law_character_is_trimmed(open, hash, close, '"');
}

/// The hash and the size of a file are those of an answer with a status of 2xx or
/// 3xx. `X-Linked-Etag` and `X-Linked-Size` count wherever they are there, even
/// where they cannot be read, and `ETag` and `Content-Length` only where they are
/// not; each of the two has to be there, text, and the size a number of 64 bits.
pub proof fn law_head_is_read_from_the_linked_headers(reply: HeadReply, hash: Seq<char>, size: nat)
    ensures
        head_facts(reply) == Some((hash, size)) <==> {
            let tag = if reply.linked_etag is Some {
                reply.linked_etag
            } else {
                reply.etag
            };
            let len = if reply.linked_size is Some {
                reply.linked_size
            } else {
                reply.content_length
            };
            &&& 200 <= reply.status <= 399
            &&& tag is Some && header_chars(tag->0@) is Some && hash == etag_hash(
                header_chars(tag->0@)->0,
            )
            &&& len is Some && header_chars(len->0@) is Some && number(header_chars(len->0@)->0)
                == Some(size)
            &&& size <= u64::MAX
        },
{
}

proof fn lemma_filter_map_is_filter_then_map(rows: Seq<(Option<Seq<char>>, Option<Seq<char>>)>)
    ensures
        file_paths(rows) == rows.filter(
            |row: (Option<Seq<char>>, Option<Seq<char>>)| row.0 == Some("file"@) && row.1 is Some,
        ).map_values(|row: (Option<Seq<char>>, Option<Seq<char>>)| row.1->0),
    decreases rows.len(),
{
    reveal(Seq::filter);
    let p = |row: (Option<Seq<char>>, Option<Seq<char>>)| row.0 == Some("file"@) && row.1 is Some;
    let g = |row: (Option<Seq<char>>, Option<Seq<char>>)| row.1->0;
    if rows.len() > 0 {
        let rest = rows.drop_last();
        lemma_filter_map_is_filter_then_map(rest);
        if p(rows.last()) {
            assert(rows.filter(p) =~= rest.filter(p).push(rows.last()));
            assert(rows.filter(p).map_values(g) =~= rest.filter(p).map_values(g) + seq![
                g(rows.last()),
            ]);
        }
    }
    assert(file_paths(rows) =~= rows.filter(p).map_values(g));
}

/// An answer with a status of 2xx whose body is a JSON array lists the path of
/// every row of that array that has the type `file` and a path: no row is passed
/// over, none is added, and the paths stand in the order of the rows.
pub proof fn law_answer_lists_the_files_of_its_body(
    url: Seq<char>,
    status: u16,
    body: Vec<u8>,
    rows: Seq<(Option<Seq<char>>, Option<Seq<char>>)>,
    path: Seq<char>,
)
    requires
        200 <= status < 300,
        json_rows_of(body@, "type"@, "path"@) == Some(
            Ok::<Seq<(Option<Seq<char>>, Option<Seq<char>>)>, Seq<char>>(rows),
        ),
    ensures
        listed_files(url, TreeReply::Answer { status, body: Ok(body) }) matches Ok(files) && {
            &&& files.contains(path) <==> rows.contains((Some("file"@), Some(path)))
            &&& files == rows.filter(
                |row: (Option<Seq<char>>, Option<Seq<char>>)|
                    row.0 == Some("file"@) && row.1 is Some,
            ).map_values(|row: (Option<Seq<char>>, Option<Seq<char>>)| row.1->0)
        },
{
    law_only_files_are_listed(rows, path);
    lemma_filter_map_is_filter_then_map(rows);
}

/// Where the files cannot be listed the error says at which point and why: no
/// client, no answer, a status other than 2xx with the address that was asked, a
/// body that could not be read, one that is no JSON, and one that is no array.
pub proof fn law_unlisted_files_are_explained(
    url: Seq<char>,
    why: String,
    status: u16,
    body: Result<Vec<u8>, String>,
    bytes: Vec<u8>,
    value: Seq<char>,
)
    ensures
        listed_files(url, TreeReply::NoClient(why)) == Err::<Seq<Seq<char>>, Seq<char>>(
            "HF tree client init: "@ + why@,
        ),
        listed_files(url, TreeReply::NoAnswer(why)) == Err::<Seq<Seq<char>>, Seq<char>>(
            "HF tree fetch failed: "@ + why@,
        ),
        status < 200 || status >= 300 ==> listed_files(url, TreeReply::Answer { status, body }) == Err::<
            Seq<Seq<char>>,
            Seq<char>,
        >("HF tree "@ + url + " -> HTTP "@ + status_text_of(status)),
        200 <= status < 300 ==> listed_files(url, TreeReply::Answer { status, body: Err(why) }) == Err::<
            Seq<Seq<char>>,
            Seq<char>,
        >("HF tree JSON: "@ + why@),
        200 <= status < 300 && json_rows_of(bytes@, "type"@, "path"@) is None ==> listed_files(
            url,
            TreeReply::Answer { status, body: Ok(bytes) },
        ) == Err::<Seq<Seq<char>>, Seq<char>>(
            "HF tree JSON: "@ + "error decoding response body"@,
        ),
        200 <= status < 300 && json_rows_of(bytes@, "type"@, "path"@) == Some(
            Err::<Seq<(Option<Seq<char>>, Option<Seq<char>>)>, Seq<char>>(value),
        ) ==> listed_files(url, TreeReply::Answer { status, body: Ok(bytes) }) == Err::<
            Seq<Seq<char>>,
            Seq<char>,
        >("HF tree response not an array: "@ + value),
{
}

/// What an answer, an error and a row say is what they hold.
pub proof fn law_answers_say_what_they_hold(
    files: Result<Vec<String>, VindexError>,
    rows: Seq<JsonRow>,
    i: int,
    text: &str,
    word: String,
)
    ensures
        files matches Ok(v) ==> files_outcome(files) == Ok::<Seq<Seq<char>>, Seq<char>>(
            v@.map_values(|s: String| s@),
        ),
        files matches Err(VindexError::Parse(t)) ==> files_outcome(files) == Err::<
            Seq<Seq<char>>,
            Seq<char>,
        >(t@),
        VindexError::Parse(word)@ == word@,
        row_texts(rows).len() == rows.len(),
        0 <= i < rows.len() ==> row_texts(rows)[i] == (text_of(rows[i].first), text_of(
            rows[i].second,
        )),
        str_text(Some(text)) == Some(text@),
        str_text(None) is None,
{
    if let Ok(v) = files {
        assert(texts(v@) =~= v@.map_values(|s: String| s@));
    }
}

} // verus!
