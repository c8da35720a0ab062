//! What the library has from other crates and takes on trust.

use vstd::prelude::*;

use crate::text::text_of;

verus! {

/// `hf_hub::Repo`: which repository, of which type and at which revision.
#[verifier::external_type_specification]
#[verifier::external_body]
pub struct ExRepo(hf_hub::Repo);

/// The types of repository that the hub has, as `hf_hub::RepoType` lists them.
#[derive(Debug, Clone, Copy, PartialEq, Eq, Structural)]
pub enum RepoKind {
    Model,
    Dataset,
    Space,
}

/// What `hf_hub::Repo::with_revision` makes of a repository id, the type of the
/// repository and a revision.
pub uninterp spec fn repo_at(
    repo_id: Seq<char>,
    kind: RepoKind,
    revision: Seq<char>,
) -> hf_hub::Repo;

/// Calls `hf_hub::Repo::with_revision`. It stores its arguments, so the result
/// is settled by the id, the type and the revision.
#[verifier::external_body]
pub(crate) fn repo_with_revision(repo_id: String, kind: RepoKind, revision: String) -> (repo:
    hf_hub::Repo)
    ensures
        repo == repo_at(repo_id@, kind, revision@),
{
    let repo_type = match kind {
        RepoKind::Model => hf_hub::RepoType::Model,
        RepoKind::Dataset => hf_hub::RepoType::Dataset,
        RepoKind::Space => hf_hub::RepoType::Space,
    };
    hf_hub::Repo::with_revision(repo_id, repo_type, revision)
}

/// Calls `hf_hub::Repo::new`, which is `hf_hub::Repo::with_revision` with the
/// revision `main`.
#[verifier::external_body]
pub(crate) fn repo_at_default(repo_id: String, kind: RepoKind) -> (repo: hf_hub::Repo)
    ensures
        repo == repo_at(repo_id@, kind, "main"@),
{
    let repo_type = match kind {
        RepoKind::Model => hf_hub::RepoType::Model,
        RepoKind::Dataset => hf_hub::RepoType::Dataset,
        RepoKind::Space => hf_hub::RepoType::Space,
    };
    hf_hub::Repo::new(repo_id, repo_type)
}

/// Two fields of an element of a JSON array, each where it is there and a string.
pub struct JsonRow {
    pub first: Option<String>,
    pub second: Option<String>,
}

/// The characters of the two fields of each row.
pub open spec fn row_texts(rows: Seq<JsonRow>) -> Seq<(Option<Seq<char>>, Option<Seq<char>>)> {
    rows.map_values(|r: JsonRow| (text_of(r.first), text_of(r.second)))
}

/// What `serde_json::from_slice` reads in `body`: `None` where that is no JSON;
/// else, where it is an array, `Some(Ok(_))` with the strings under the keys
/// `first` and `second` of each element; else `Some(Err(_))` with the value
/// written out.
pub uninterp spec fn json_rows_of(
    body: Seq<u8>,
    first: Seq<char>,
    second: Seq<char>,
) -> Option<Result<Seq<(Option<Seq<char>>, Option<Seq<char>>)>, Seq<char>>>;

/// Calls `serde_json::from_slice` and hands out what it read as plain values.
/// The result is settled by the bytes and the two keys.
#[verifier::external_body]
pub(crate) fn json_rows(body: &[u8], first: &str, second: &str) -> (rows: Option<
    Result<Vec<JsonRow>, String>,
>)
    ensures
        json_rows_of(body@, first@, second@) == match rows {
            Some(Ok(r)) => Some(
                Ok::<Seq<(Option<Seq<char>>, Option<Seq<char>>)>, Seq<char>>(row_texts(r@)),
            ),
            Some(Err(text)) => Some(
                Err::<Seq<(Option<Seq<char>>, Option<Seq<char>>)>, Seq<char>>(text@),
            ),
            None => None,
        },
{
    let value: serde_json::Value = serde_json::from_slice(body).ok()?;
    let field = |v: &serde_json::Value, key: &str| v.get(key).and_then(|t| t.as_str()).map(str::to_owned);
    Some(match value.as_array() {
        Some(items) => Ok(
            items.iter().map(|v| JsonRow { first: field(v, first), second: field(v, second) }).collect(),
        ),
        None => Err(value.to_string()),
    })
}

/// What `reqwest::StatusCode` prints for the status `code`: the number and the
/// reason that goes with it.
pub uninterp spec fn status_text_of(code: u16) -> Seq<char>;

/// Calls `reqwest::StatusCode::from_u16`, which takes the numbers of three
/// digits and no others, and prints the status by its `Display`. The text is
/// settled by the number.
#[verifier::external_body]
pub(crate) fn status_text(code: u16) -> (text: String)
    requires
        100 <= code < 1000,
    ensures
        text@ == status_text_of(code),
{
    reqwest::StatusCode::from_u16(code).unwrap().to_string()
}

/// `String::push` appends the given character.
pub assume_specification[ String::push ](s: &mut String, c: char)
    ensures
        final(s)@ == old(s)@.push(c),
;

} // verus!
