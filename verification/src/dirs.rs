//! Where the caches lie.

use vstd::prelude::*;

use crate::error::CacheError;
use crate::path::{join, joined};
use crate::text::{
    law_replaced_char_absent, law_replaced_char_of_one, law_replaced_char_of_parts, replace_char,
    replaced_char,
};

verus! {

/// The environment variables that decide where the caches lie, each where it
/// is set to valid text.
#[derive(Debug)]
pub struct CacheEnv {
    pub huggingface_hub_cache: Option<String>,
    pub hf_home: Option<String>,
    pub larql_home: Option<String>,
    pub home: Option<String>,
    pub userprofile: Option<String>,
}

impl CacheEnv {
    /// The home directory.
    pub open spec fn home_text(self) -> Option<Seq<char>> {
        match (self.home, self.userprofile) {
            (Some(h), _) => Some(h@),
            (None, Some(u)) => Some(u@),
            (None, None) => None,
        }
    }

    /// The root of the hub cache.
    pub open spec fn hub_dir(self) -> Option<Seq<char>> {
        match (self.hf_home, self.home_text()) {
            (Some(h), _) => Some(joined(h@, "hub"@)),
            (None, Some(home)) => Some(joined(home, ".cache/huggingface/hub"@)),
            (None, None) => None,
        }
    }

    /// The root of the local cache.
    pub open spec fn local_dir(self) -> Option<Seq<char>> {
        match (self.larql_home, self.home_text()) {
            (Some(h), _) => Some(joined(h@, "local"@)),
            (None, Some(home)) => Some(joined(home, ".cache/larql/local"@)),
            (None, None) => None,
        }
    }

    /// The root below which downloads are cached.
    pub open spec fn download_dir(self) -> Option<Seq<char>> {
        match (self.huggingface_hub_cache, self.hf_home, self.home) {
            (Some(hub), _, _) => Some(hub@),
            (None, Some(h), _) => Some(joined(h@, "hub"@)),
            (None, None, Some(home)) => Some(
                joined(joined(joined(home@, ".cache"@), "huggingface"@), "hub"@),
            ),
            (None, None, None) => None,
        }
    }

    /// The home directory: `HOME`, else `USERPROFILE`.
    fn home_dir(&self) -> (r: Option<&str>)
        ensures
            match r {
                Some(h) => self.home_text() == Some(h@),
                None => self.home_text() is None,
            },
    {
        match &self.home {
            Some(h) => Some(h.as_str()),
            None => match &self.userprofile {
                Some(u) => Some(u.as_str()),
                None => None,
            },
        }
    }
}

/// The directory of a repository in the hub cache.
pub open spec fn hub_folder(repo_id: Seq<char>) -> Seq<char> {
    "models--"@ + replaced_char(repo_id, '/', "--"@)
}

/// Return the HF hub cache root (`~/.cache/huggingface/hub/` by default,
/// honoring `HF_HOME`).
pub fn hf_hub_dir(env: &CacheEnv) -> (r: Result<String, CacheError>)
    ensures
        match r {
            Ok(dir) => env.hub_dir() == Some(dir@),
            Err(e) => env.hub_dir() is None && e is NoHome,
        },
{
    match &env.hf_home {
        Some(h) => Ok(join(h.as_str(), "hub")),
        None => match env.home_dir() {
            Some(home) => Ok(join(home, ".cache/huggingface/hub")),
            None => Err(CacheError::NoHome),
        },
    }
}

/// Return the LARQL local cache root (`~/.cache/larql/local/` by default,
/// honoring `LARQL_HOME`, which names the directory that holds `local/`).
pub fn larql_local_dir(env: &CacheEnv) -> (r: Result<String, CacheError>)
    ensures
        match r {
            Ok(dir) => env.local_dir() == Some(dir@),
            Err(e) => env.local_dir() is None && e is NoHome,
        },
{
    match &env.larql_home {
        Some(h) => Ok(join(h.as_str(), "local")),
        None => match env.home_dir() {
            Some(home) => Ok(join(home, ".cache/larql/local")),
            None => Err(CacheError::NoHome),
        },
    }
}

/// The cache directory of a model repository: the root of
/// `~/.cache/huggingface/hub/models--{owner}--{name}/`, honoring `HF_HOME` and
/// `HUGGINGFACE_HUB_CACHE`.
pub fn hf_cache_repo_dir(env: &CacheEnv, repo_id: &str) -> (r: Option<String>)
    ensures
        match r {
            Some(dir) => match env.download_dir() {
                Some(root) => dir@ == joined(root, hub_folder(repo_id@)),
                None => false,
            },
            None => env.download_dir() is None,
        },
{
    let root: String = match &env.huggingface_hub_cache {
        Some(hub) => hub.clone(),
        None => match &env.hf_home {
            Some(h) => join(h.as_str(), "hub"),
            None => match &env.home {
                Some(home) => join(
                    join(join(home.as_str(), ".cache").as_str(), "huggingface").as_str(),
                    "hub",
                ),
                None => {
                    return None;
                },
            },
        },
    };
    let mut folder = "models--".to_owned();
    folder.append(replace_char(repo_id, '/', "--").as_str());
    Some(join(root.as_str(), folder.as_str()))
}

/// Downloads land below the directory that is scanned for cached vindexes,
/// unless `HUGGINGFACE_HUB_CACHE` moves them, or there is neither `HF_HOME` nor
/// `HOME` to place them by.
pub proof fn law_downloads_land_where_scanned(env: CacheEnv)
    requires
        env.huggingface_hub_cache is None,
        env.hf_home is Some || env.home is Some,
    ensures
        env.download_dir() is Some,
        env.download_dir() == env.hub_dir(),
{
    if env.hf_home is None {
        reveal_strlit(".cache/huggingface/hub");
        reveal_strlit(".cache");
        reveal_strlit("huggingface");
        reveal_strlit("hub");
        let home = env.home->0@;
        assert(joined(joined(joined(home, ".cache"@), "huggingface"@), "hub"@) =~= joined(
            home,
            ".cache/huggingface/hub"@,
        ));
    }
}

/// Each root follows its own variable where that is set and the home directory
/// else; `HOME` goes before `USERPROFILE`, which no download follows. Without any
/// of them there is no root.
pub proof fn law_roots_follow_the_environment(env: CacheEnv)
    ensures
        env.hf_home matches Some(h) ==> env.hub_dir() == Some(joined(h@, "hub"@)),
        env.larql_home matches Some(h) ==> env.local_dir() == Some(joined(h@, "local"@)),
        env.hf_home is None ==> (env.home matches Some(h) ==> env.hub_dir() == Some(
            joined(h@, ".cache/huggingface/hub"@),
        )),
        env.larql_home is None ==> (env.home matches Some(h) ==> env.local_dir() == Some(
            joined(h@, ".cache/larql/local"@),
        )),
        env.hf_home is None && env.home is None ==> (env.userprofile matches Some(u)
            ==> env.hub_dir() == Some(joined(u@, ".cache/huggingface/hub"@))),
        env.larql_home is None && env.home is None ==> (env.userprofile matches Some(u)
            ==> env.local_dir() == Some(joined(u@, ".cache/larql/local"@))),
        env.home is None && env.userprofile is None ==> (env.hf_home is None ==> env.hub_dir() is None)
            && (env.larql_home is None ==> env.local_dir() is None),
        env.huggingface_hub_cache matches Some(c) ==> env.download_dir() == Some(c@),
        env.huggingface_hub_cache is None ==> (env.hf_home matches Some(h) ==> env.download_dir()
            == Some(joined(h@, "hub"@))),
        env.huggingface_hub_cache is None && env.hf_home is None ==> (env.home matches Some(h)
            ==> env.download_dir() == Some(joined(h@, ".cache/huggingface/hub"@))),
        env.huggingface_hub_cache is None && env.hf_home is None && env.home is None
            ==> env.download_dir() is None,
{
    if env.huggingface_hub_cache is None && (env.hf_home is Some || env.home is Some) {
        law_downloads_land_where_scanned(env);
    }
}

/// The directory of a repository is `models--`, then the segments of its id with
/// `--` between them.
pub proof fn law_hub_folder_is_by_segments(front: Seq<char>, segment: Seq<char>)
    requires
        !segment.contains('/'),
    ensures
        hub_folder(segment) == "models--"@ + segment,
        hub_folder(front + "/"@ + segment) == hub_folder(front) + "--"@ + segment,
{
    reveal_strlit("/");
    law_replaced_char_absent(segment, '/', "--"@);
    law_replaced_char_of_parts(front + "/"@, segment, '/', "--"@);
    law_replaced_char_of_parts(front, "/"@, '/', "--"@);
    assert("/"@ =~= seq!['/']);
    law_replaced_char_of_one('/', '/', "--"@);
    assert(hub_folder(front + "/"@ + segment) =~= hub_folder(front) + "--"@ + segment);
}

} // verus!
