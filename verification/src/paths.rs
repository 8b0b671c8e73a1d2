//! Cookie and cache paths, as text, joined the way `PathBuf::join` joins on Unix.
use vstd::prelude::*;
use crate::text::{chars_of, extend_chars, string_of};

verus! {

broadcast use vstd::string::group_string_axioms;

/// The home directory that `directories::BaseDirs` finds (from `$HOME` or the password
/// database), as lossily converted text. It depends on the environment, so nothing is
/// promised of it.
#[verifier::external_body]
fn base_home_dir() -> (r: Option<String>) {
    directories::BaseDirs::new().map(|d| d.home_dir().to_string_lossy().into_owned())
}

/// `base.join(rel)` on Unix: an absolute `rel` replaces `base`; otherwise `rel` is
/// appended after a `/` unless `base` is empty or already ends with one.
pub open spec fn join_path(base: Seq<char>, rel: Seq<char>) -> Seq<char> {
    if rel.len() > 0 && rel[0] == '/' {
        rel
    } else if base.len() == 0 || base.last() == '/' {
        base + rel
    } else {
        base + seq!['/'] + rel
    }
}

fn join_path_chars(base: &[char], rel: &[char]) -> (r: Vec<char>)
    ensures
        r@ == join_path(base@, rel@),
{
    let mut out: Vec<char> = Vec::new();
    if rel.len() > 0 && rel[0] == '/' {
        extend_chars(&mut out, rel);
        assert(out@ == rel@);
        return out;
    }
    extend_chars(&mut out, base);
    if base.len() > 0 && base[base.len() - 1] != '/' {
        out.push('/');
    }
    extend_chars(&mut out, rel);
    out
}

pub open spec fn config_subdir() -> Seq<char> {
    seq!['.', 'c', 'o', 'n', 'f', 'i', 'g', '/', 't', 'h', 'u', '-', 'l', 'e', 'a', 'r', 'n', '-', 'c', 'l', 'i']
}

pub open spec fn cache_subdir() -> Seq<char> {
    seq!['.', 'c', 'a', 'c', 'h', 'e', '/', 't', 'h', 'u', '-', 'l', 'e', 'a', 'r', 'n', '-', 'c', 'l', 'i']
}

pub open spec fn cookie_file_name() -> Seq<char> {
    seq!['c', 'o', 'o', 'k', 'i', 'e', 's', '.', 'j', 's', 'o', 'n']
}

/// `<home>/.config/thu-learn-cli/cookies.json`.
pub open spec fn cookie_path_spec(home: Seq<char>) -> Seq<char> {
    join_path(join_path(home, config_subdir()), cookie_file_name())
}

/// `<home>/.cache/thu-learn-cli`.
pub open spec fn cache_dir_spec(home: Seq<char>) -> Seq<char> {
    join_path(home, cache_subdir())
}

/// `<cache dir>/<key>.json`.
pub open spec fn cache_file_spec(dir: Seq<char>, key: Seq<char>) -> Seq<char> {
    join_path(dir, key + seq!['.', 'j', 's', 'o', 'n'])
}

/// The cookie file under a given home directory.
pub fn cookie_path_in(home: &str) -> (r: String)
    ensures
        r@ == cookie_path_spec(home@),
{
    let h = chars_of(home);
    let c = join_path_chars(&h, &vec!['.', 'c', 'o', 'n', 'f', 'i', 'g', '/', 't', 'h', 'u', '-', 'l', 'e', 'a', 'r', 'n', '-', 'c', 'l', 'i']);
    let p = join_path_chars(&c, &vec!['c', 'o', 'o', 'k', 'i', 'e', 's', '.', 'j', 's', 'o', 'n']);
    string_of(&p)
}

/// The cache directory under a given home directory.
pub fn cache_dir_in(home: &str) -> (r: String)
    ensures
        r@ == cache_dir_spec(home@),
{
    let h = chars_of(home);
    let p = join_path_chars(&h, &vec!['.', 'c', 'a', 'c', 'h', 'e', '/', 't', 'h', 'u', '-', 'l', 'e', 'a', 'r', 'n', '-', 'c', 'l', 'i']);
    string_of(&p)
}

/// The cache file for `key` in a given cache directory.
pub fn cache_file_in(dir: &str, key: &str) -> (r: String)
    ensures
        r@ == cache_file_spec(dir@, key@),
{
    let d = chars_of(dir);
    let mut k = chars_of(key);
    let ghost key_chars = k@;
    k.push('.');
    k.push('j');
    k.push('s');
    k.push('o');
    k.push('n');
    assert(k@ == key_chars + seq!['.', 'j', 's', 'o', 'n']);
    let p = join_path_chars(&d, &k);
    string_of(&p)
}

/// Where session cookies are kept: `~/.config/thu-learn-cli/cookies.json`; `None` when
/// no home directory can be found.
pub fn cookie_path() -> (r: Option<String>)
    ensures
        r matches Some(p) ==> exists|h: Seq<char>| p@ == cookie_path_spec(h),
{
    match base_home_dir() {
        Some(h) => Some(cookie_path_in(h.as_str())),
        None => None,
    }
}

/// Cache directory for slow-changing semester and course-list data:
/// `~/.cache/thu-learn-cli`; `None` when no home directory can be found.
pub fn cache_dir() -> (r: Option<String>)
    ensures
        r matches Some(p) ==> exists|h: Seq<char>| p@ == cache_dir_spec(h),
{
    match base_home_dir() {
        Some(h) => Some(cache_dir_in(h.as_str())),
        None => None,
    }
}

/// The cache file for `key`; `None` when no home directory can be found.
pub fn cache_file(key: &str) -> (r: Option<String>)
    ensures
        r matches Some(p) ==> exists|h: Seq<char>| p@ == cache_file_spec(cache_dir_spec(h), key@),
{
    match base_home_dir() {
        Some(h) => {
            let d = cache_dir_in(h.as_str());
            Some(cache_file_in(d.as_str(), key))
        },
        None => None,
    }
}

// ---------------------------------------------------------------------------
// Cache freshness
// ---------------------------------------------------------------------------

/// How long the semester and the course lists are kept: six hours, in milliseconds.
pub const CACHE_TTL_MS: u64 = 21_600_000;

/// Whether a cached entry is used: only when its age is known and below the time it is
/// kept (an entry dated in the future has no known age).
pub fn use_cached(age_ms: Option<u64>, ttl_ms: u64) -> (r: bool)
    ensures
        r == (age_ms matches Some(a) && a < ttl_ms),
{
    match age_ms {
        Some(a) => a < ttl_ms,
        None => false,
    }
}

} // verus!
