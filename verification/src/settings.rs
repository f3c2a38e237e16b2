//! Runtime settings shared by the command line and the cache: where the
//! cache root directory is.
//!
//! Paths are held as strings and joined with `/`.

use vstd::prelude::*;
use crate::text::{append_str, chars_of, string_of};

verus! {

/// Home-directory fallback directory name when the OS cache root cannot be
/// resolved.
pub const FALLBACK_CACHE_DIR: &'static str = ".flowmark-cache";

/// Temp-directory fallback directory name when neither the OS cache root nor
/// the home directory can be resolved.
pub const TEMP_FALLBACK_CACHE_DIR: &'static str = "flowmark-cache";

/// Application-specific cache directory name under the cache root.
pub const APP_CACHE_DIR: &'static str = "flowmark";

/// Subdirectory containing incremental cache manifests.
pub const INCREMENTAL_CACHE_SUBDIR: &'static str = "incremental";

/// Source used to resolve the default cache root directory.
#[derive(Clone, Copy, PartialEq, Eq, Debug, Structural)]
pub enum CacheRootSource {
    /// The OS-native user cache directory.
    OsCacheDir,
    /// Home directory fallback: `<home>/.flowmark-cache/flowmark`.
    HomeFallback,
    /// Temp directory fallback: `<temp>/flowmark-cache/flowmark`.
    TempFallback,
}

/// Resolved cache root path and the source used to derive it.
#[derive(Debug)]
pub struct CacheRootResolution {
    /// Absolute or relative cache root path.
    pub path: String,
    /// Resolution source for path diagnostics.
    pub source: CacheRootSource,
}

/// `Path::join` with a relative name: the name after the base and a `/`
/// (no `/` is added after an empty base or one that ends with `/`).
pub open spec fn path_join(base: Seq<char>, name: Seq<char>) -> Seq<char> {
    if base.len() == 0 {
        name
    } else if base.last() == '/' {
        base + name
    } else {
        base + seq!['/'] + name
    }
}

pub fn join_path(base: &str, name: &str) -> (r: String)
    ensures
        r@ == path_join(base@, name@),
{
    let mut v = chars_of(base);
    if v.len() > 0 && v[v.len() - 1] != '/' {
        v.push('/');
    }
    append_str(&mut v, name);
    let r = string_of(&v);
    assert(r@ =~= path_join(base@, name@));
    r
}

pub open spec fn app_dir() -> Seq<char> {
    seq!['f', 'l', 'o', 'w', 'm', 'a', 'r', 'k']
}

pub open spec fn home_fallback_dir() -> Seq<char> {
    seq!['.', 'f', 'l', 'o', 'w', 'm', 'a', 'r', 'k', '-', 'c', 'a', 'c', 'h', 'e']
}

pub open spec fn temp_fallback_dir() -> Seq<char> {
    seq!['f', 'l', 'o', 'w', 'm', 'a', 'r', 'k', '-', 'c', 'a', 'c', 'h', 'e']
}

/// The cache root chosen from the OS cache directory, the home directory and
/// the temp directory, in that order of preference.
pub open spec fn cache_root_of(os_cache: Option<Seq<char>>, home: Option<Seq<char>>, temp_dir: Seq<char>) -> (
    Seq<char>,
    CacheRootSource,
) {
    match os_cache {
        Some(c) => (path_join(c, app_dir()), CacheRootSource::OsCacheDir),
        None => match home {
            Some(h) => (path_join(path_join(h, home_fallback_dir()), app_dir()), CacheRootSource::HomeFallback),
            None => (
                path_join(path_join(temp_dir, temp_fallback_dir()), app_dir()),
                CacheRootSource::TempFallback,
            ),
        },
    }
}

pub open spec fn opt_str_view(o: Option<String>) -> Option<Seq<char>> {
    match o {
        Some(s) => Some(s@),
        None => None,
    }
}

/// Resolve the cache root from the given OS cache directory, home directory
/// and temp directory.
pub fn resolve_default_cache_root_with(
    os_cache: Option<String>,
    home: Option<String>,
    temp_dir: &str,
) -> (r: CacheRootResolution)
    ensures
        (r.path@, r.source) == cache_root_of(opt_str_view(os_cache), opt_str_view(home), temp_dir@),
{
    proof {
        reveal_strlit("flowmark");
        reveal_strlit(".flowmark-cache");
        reveal_strlit("flowmark-cache");
    }
    match os_cache {
        Some(cache_dir) => CacheRootResolution {
            path: join_path(cache_dir.as_str(), APP_CACHE_DIR),
            source: CacheRootSource::OsCacheDir,
        },
        None => match home {
            Some(home_dir) => {
                let base = join_path(home_dir.as_str(), FALLBACK_CACHE_DIR);
                CacheRootResolution {
                    path: join_path(base.as_str(), APP_CACHE_DIR),
                    source: CacheRootSource::HomeFallback,
                }
            },
            None => {
                let base = join_path(temp_dir, TEMP_FALLBACK_CACHE_DIR);
                CacheRootResolution {
                    path: join_path(base.as_str(), APP_CACHE_DIR),
                    source: CacheRootSource::TempFallback,
                }
            },
        },
    }
}

/// `dirs::cache_dir`: the user's cache directory, when the platform has one
/// (read from the environment, so nothing is claimed of it). A path that is
/// not valid Unicode is converted lossily.
#[verifier::external_body]
fn os_cache_dir() -> (r: Option<String>) {
    dirs::cache_dir().map(|p| p.to_string_lossy().into_owned())
}

/// `dirs::home_dir`: the user's home directory, when it can be found (read
/// from the environment, so nothing is claimed of it). A path that is not
/// valid Unicode is converted lossily.
#[verifier::external_body]
fn user_home_dir() -> (r: Option<String>) {
    dirs::home_dir().map(|p| p.to_string_lossy().into_owned())
}

/// Resolve the default cache root directory with source metadata, given the
/// temp directory: the OS cache directory, else the home directory, else the
/// temp directory, each with the application directory under it.
pub fn resolve_default_cache_root(temp_dir: &str) -> (r: CacheRootResolution)
    ensures
        exists|os_cache: Option<Seq<char>>, home: Option<Seq<char>>|
            (r.path@, r.source) == cache_root_of(os_cache, home, temp_dir@),
{
    let os_cache = os_cache_dir();
    let home = user_home_dir();
    let ghost o = opt_str_view(os_cache);
    let ghost h = opt_str_view(home);
    let r = resolve_default_cache_root_with(os_cache, home, temp_dir);
    assert((r.path@, r.source) == cache_root_of(o, h, temp_dir@));
    r
}

/// Resolve only the cache root path (given the temp directory).
pub fn default_cache_root(temp_dir: &str) -> (r: String)
    ensures
        exists|os_cache: Option<Seq<char>>, home: Option<Seq<char>>|
            r@ == cache_root_of(os_cache, home, temp_dir@).0,
{
    let res = resolve_default_cache_root(temp_dir);
    res.path
}

} // verus!
