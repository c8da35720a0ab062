//! What can go wrong when a vindex is looked up, and how it is worded.

use vstd::prelude::*;

use crate::text::{join_lines, joined_lines, texts};

verus! {

/// Why the caches could not answer.
#[derive(Debug)]
pub enum CacheError {
    /// Neither `HOME` nor `USERPROFILE` is set.
    NoHome,
    /// A directory could not be read; the text is the system's own.
    Io(String),
    /// A plain name that no cached vindex has.
    NoMatch { name: String },
    /// A plain name that more than one cached vindex has, each on a line.
    Ambiguous { name: String, candidates: Vec<String> },
    /// A name or a path that is in no cache.
    NotCached { key: String },
    /// A plain name to pick an entry by that more than one cached vindex has.
    AmbiguousKey { key: String, candidates: Vec<String> },
    /// The snapshot of a hub entry does not lie two directories deep.
    UnexpectedHubPath,
}

/// What a [`CacheError`] says, as mathematical values.
pub enum CacheErrorView {
    NoHome,
    Io(Seq<char>),
    NoMatch(Seq<char>),
    Ambiguous(Seq<char>, Seq<Seq<char>>),
    NotCached(Seq<char>),
    AmbiguousKey(Seq<char>, Seq<Seq<char>>),
    UnexpectedHubPath,
}

impl View for CacheError {
    type V = CacheErrorView;

    open spec fn view(&self) -> CacheErrorView {
        match *self {
            CacheError::NoHome => CacheErrorView::NoHome,
            CacheError::Io(text) => CacheErrorView::Io(text@),
            CacheError::NoMatch { name } => CacheErrorView::NoMatch(name@),
            CacheError::Ambiguous { name, candidates } => CacheErrorView::Ambiguous(
                name@,
                texts(candidates@),
            ),
            CacheError::NotCached { key } => CacheErrorView::NotCached(key@),
            CacheError::AmbiguousKey { key, candidates } => CacheErrorView::AmbiguousKey(
                key@,
                texts(candidates@),
            ),
            CacheError::UnexpectedHubPath => CacheErrorView::UnexpectedHubPath,
        }
    }
}

impl CacheErrorView {
    /// The wording of the error.
    pub open spec fn wording(self) -> Seq<char> {
        match self {
            CacheErrorView::NoHome => "no HOME env var"@,
            CacheErrorView::Io(text) => text,
            CacheErrorView::NoMatch(name) => "no cached vindex matches `"@ + name
                + "`.\nTry `larql pull hf://owner/"@ + name
                + "` (HF cache) or `larql link <path>` (local cache), or pass the full `owner/name` / path explicitly."@,
            CacheErrorView::Ambiguous(name, candidates) => "shorthand `"@ + name
                + "` is ambiguous — matches multiple cached vindexes:\n"@ + joined_lines(
                candidates,
                "\n"@,
            ) + "\nUse the full `owner/name` to disambiguate."@,
            CacheErrorView::NotCached(key) => "not cached: "@ + key,
            CacheErrorView::AmbiguousKey(key, candidates) => "shorthand `"@ + key
                + "` is ambiguous — matches:\n"@ + joined_lines(candidates, "\n"@),
            CacheErrorView::UnexpectedHubPath => "unexpected HF cache path structure"@,
        }
    }
}

fn copy_lines(lines: &Vec<String>) -> (copy: Vec<String>)
    ensures
        texts(copy@) == texts(lines@),
{
    let mut copy: Vec<String> = Vec::new();
    let mut i: usize = 0;
    while i < lines.len()
        invariant
            i <= lines.len(),
            texts(copy@) == texts(lines@).take(i as int),
        decreases lines.len() - i,
    {
        let ghost before = copy@;
        copy.push(lines[i].clone());
        proof {
            assert(texts(copy@) =~= texts(before).push(lines@[i as int]@));
            assert(texts(lines@).take(i + 1) =~= texts(lines@).take(i as int).push(
                texts(lines@)[i as int],
            ));
        }
        i = i + 1;
    }
    assert(texts(lines@).take(lines.len() as int) =~= texts(lines@));
    copy
}

impl Clone for CacheError {
    fn clone(&self) -> (copy: Self)
        ensures
            copy@ == self@,
    {
        match self {
            CacheError::NoHome => CacheError::NoHome,
            CacheError::Io(text) => CacheError::Io(text.clone()),
            CacheError::NoMatch { name } => CacheError::NoMatch { name: name.clone() },
            CacheError::Ambiguous { name, candidates } => CacheError::Ambiguous {
                name: name.clone(),
                candidates: copy_lines(candidates),
            },
            CacheError::NotCached { key } => CacheError::NotCached { key: key.clone() },
            CacheError::AmbiguousKey { key, candidates } => CacheError::AmbiguousKey {
                key: key.clone(),
                candidates: copy_lines(candidates),
            },
            CacheError::UnexpectedHubPath => CacheError::UnexpectedHubPath,
        }
    }
}

impl CacheError {
    /// The error in words, as shown to the user.
    pub fn message(&self) -> (text: String)
        ensures
            text@ == self@.wording(),
    {
        match self {
            CacheError::NoHome => "no HOME env var".to_owned(),
            CacheError::Io(text) => text.clone(),
            CacheError::NoMatch { name } => {
                let mut m = "no cached vindex matches `".to_owned();
                m.append(name.as_str());
                m.append("`.\nTry `larql pull hf://owner/");
                m.append(name.as_str());
                m.append(
                    "` (HF cache) or `larql link <path>` (local cache), or pass the full `owner/name` / path explicitly.",
                );
                m
            },
            CacheError::Ambiguous { name, candidates } => {
                let mut m = "shorthand `".to_owned();
                m.append(name.as_str());
                m.append("` is ambiguous — matches multiple cached vindexes:\n");
                m.append(join_lines(candidates, "\n").as_str());
                m.append("\nUse the full `owner/name` to disambiguate.");
                m
            },
            CacheError::NotCached { key } => {
                let mut m = "not cached: ".to_owned();
                m.append(key.as_str());
                m
            },
            CacheError::AmbiguousKey { key, candidates } => {
                let mut m = "shorthand `".to_owned();
                m.append(key.as_str());
                m.append("` is ambiguous — matches:\n");
                m.append(join_lines(candidates, "\n").as_str());
                m
            },
            CacheError::UnexpectedHubPath => "unexpected HF cache path structure".to_owned(),
        }
    }
}

/// The wording of an error quotes what it is about in full: the name or key as
/// it was given, every candidate on a line of its own, and the system's own text.
pub proof fn law_wording_quotes_its_subject(
    text: Seq<char>,
    candidates: Seq<Seq<char>>,
)
    ensures
        CacheErrorView::Io(text).wording() == text,
        CacheErrorView::NotCached(text).wording() == "not cached: "@ + text,
        ("no cached vindex matches `"@ + text + "`."@).is_prefix_of(
            CacheErrorView::NoMatch(text).wording(),
        ),
        CacheErrorView::NoMatch(text).wording() == "no cached vindex matches `"@ + text
            + "`.\nTry `larql pull hf://owner/"@ + text
            + "` (HF cache) or `larql link <path>` (local cache), or pass the full `owner/name` / path explicitly."@,
        CacheErrorView::Ambiguous(text, candidates).wording() == "shorthand `"@ + text
            + "` is ambiguous — matches multiple cached vindexes:\n"@ + joined_lines(
            candidates,
            "\n"@,
        ) + "\nUse the full `owner/name` to disambiguate."@,
        CacheErrorView::AmbiguousKey(text, candidates).wording() == "shorthand `"@ + text
            + "` is ambiguous — matches:\n"@ + joined_lines(candidates, "\n"@),
        CacheErrorView::NoHome.wording() == "no HOME env var"@,
        CacheErrorView::UnexpectedHubPath.wording() == "unexpected HF cache path structure"@,
{
    reveal_strlit("`.");
    reveal_strlit("`.\nTry `larql pull hf://owner/");
    let head = "no cached vindex matches `"@ + text + "`."@;
    let all = CacheErrorView::NoMatch(text).wording();
    assert(head =~= all.subrange(0, head.len() as int));
}

/// What an error says is what it holds.
pub proof fn law_error_says_what_it_holds(e: CacheError)
    ensures
        match e {
            CacheError::NoHome => e@ is NoHome,
            CacheError::Io(text) => e@ == CacheErrorView::Io(text@),
            CacheError::NoMatch { name } => e@ == CacheErrorView::NoMatch(name@),
            CacheError::Ambiguous { name, candidates } => e@ == CacheErrorView::Ambiguous(
                name@,
                candidates@.map_values(|c: String| c@),
            ),
            CacheError::NotCached { key } => e@ == CacheErrorView::NotCached(key@),
            CacheError::AmbiguousKey { key, candidates } => e@ == CacheErrorView::AmbiguousKey(
                key@,
                candidates@.map_values(|c: String| c@),
            ),
            CacheError::UnexpectedHubPath => e@ is UnexpectedHubPath,
        },
{
    match e {
        CacheError::Ambiguous { name, candidates } => {
            assert(texts(candidates@) =~= candidates@.map_values(|c: String| c@));
        },
        CacheError::AmbiguousKey { key, candidates } => {
            assert(texts(candidates@) =~= candidates@.map_values(|c: String| c@));
        },
        _ => {},
    }
}

} // verus!
