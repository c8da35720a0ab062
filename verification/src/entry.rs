//! A cached vindex and the cache it was found in.

use vstd::prelude::*;

verus! {

/// Which cache an entry came from.
#[derive(Debug, Clone, Copy, PartialEq, Eq, Structural)]
pub enum CacheSource {
    /// `~/.cache/huggingface/hub/models--<owner>--<name>/`
    HuggingFace,
    /// `~/.cache/larql/local/<name>.vindex/`
    Local,
}

impl CacheSource {
    /// The word that a list of candidates shows for the cache.
    pub open spec fn label_text(self) -> Seq<char> {
        match self {
            CacheSource::HuggingFace => "hf"@,
            CacheSource::Local => "local"@,
        }
    }

    pub fn label(self) -> (text: &'static str)
        ensures
            text@ == self.label_text(),
    {
        match self {
            CacheSource::HuggingFace => "hf",
            CacheSource::Local => "local",
        }
    }

    /// The place of the cache in a merged list.
    pub open spec fn rank(self) -> int {
        match self {
            CacheSource::HuggingFace => 0,
            CacheSource::Local => 1,
        }
    }
}

/// A vindex that already exists on disk (HF cache or local registry).
#[derive(Debug)]
pub struct CachedVindex {
    /// For HF entries: `owner/name`. For local entries: just `name`
    /// (owner-less).
    pub repo: String,
    /// Directory to load from. For HF this is the newest snapshot; for local it
    /// is the entry directory (or the symlink to it).
    pub snapshot: String,
    /// Total byte size on disk.
    pub size_bytes: u64,
    /// Which cache produced this entry.
    pub source: CacheSource,
}

/// What a [`CachedVindex`] says, as mathematical values.
pub struct CachedEntry {
    pub repo: Seq<char>,
    pub snapshot: Seq<char>,
    pub size_bytes: u64,
    pub source: CacheSource,
}

impl View for CachedVindex {
    type V = CachedEntry;

    open spec fn view(&self) -> CachedEntry {
        CachedEntry {
            repo: self.repo@,
            snapshot: self.snapshot@,
            size_bytes: self.size_bytes,
            source: self.source,
        }
    }
}

impl Clone for CachedVindex {
    fn clone(&self) -> (copy: Self)
        ensures
            copy == *self,
    {
        CachedVindex {
            repo: self.repo.clone(),
            snapshot: self.snapshot.clone(),
            size_bytes: self.size_bytes,
            source: self.source,
        }
    }
}

/// What each of some cached vindexes says.
pub open spec fn entries(cache: Seq<CachedVindex>) -> Seq<CachedEntry> {
    cache.map_values(|c: CachedVindex| c@)
}

/// What a cached vindex says is what its fields hold, and a list of them says
/// what each does, in their order.
pub proof fn law_entries_are_of_each(cache: Seq<CachedVindex>, i: int)
    ensures
        entries(cache).len() == cache.len(),
        0 <= i < cache.len() ==> {
            &&& entries(cache)[i].repo == cache[i].repo@
            &&& entries(cache)[i].snapshot == cache[i].snapshot@
            &&& entries(cache)[i].size_bytes == cache[i].size_bytes
            &&& entries(cache)[i].source == cache[i].source
        },
        CacheSource::HuggingFace.label_text() == "hf"@,
        CacheSource::Local.label_text() == "local"@,
{
}

} // verus!
