//! The pure parts of the best-effort TTL file cache: when an entry is fresh,
//! and where an entry lives (`<cache base>/<tool>/<key>.json`).

use vstd::prelude::*;
use crate::common::xdg::base_dir;
use crate::path::{join, join_path};
use crate::text::{append_str, chars_of, string_of};

verus! {

/// An entry stamped at `stored_at` is fresh at `now` when it is younger than
/// `ttl_secs`; a stamp in the future (clock skew) counts as age 0.
pub open spec fn is_fresh_spec(stored_at: u64, now: u64, ttl_secs: u64) -> bool {
    (if now >= stored_at { now - stored_at } else { 0 }) < ttl_secs
}

/// Whether an entry stamped at `stored_at` is fresh at `now` for a TTL of
/// `ttl_secs` seconds.
pub fn is_fresh(stored_at: u64, now: u64, ttl_secs: u64) -> (r: bool)
    ensures
        r == is_fresh_spec(stored_at, now, ttl_secs),
{
    now.saturating_sub(stored_at) < ttl_secs
}

/// With a TTL of zero nothing is ever fresh.
pub proof fn lemma_zero_ttl_never_fresh(stored_at: u64, now: u64)
    ensures
        !is_fresh_spec(stored_at, now, 0),
{
}

/// A stamp from the future (clock skew) is fresh for any positive TTL.
pub proof fn lemma_future_stamp_fresh(stored_at: u64, now: u64, ttl_secs: u64)
    requires
        stored_at > now,
        ttl_secs > 0,
    ensures
        is_fresh_spec(stored_at, now, ttl_secs),
{
}

/// An entry fresh at `now` was fresh at every earlier moment since it was
/// stamped, and a longer TTL keeps it fresh.
pub proof fn lemma_fresh_monotone(stored_at: u64, now: u64, earlier: u64, ttl_secs: u64, longer: u64)
    requires
        is_fresh_spec(stored_at, now, ttl_secs),
        stored_at <= earlier <= now,
        ttl_secs <= longer,
    ensures
        is_fresh_spec(stored_at, earlier, ttl_secs),
        is_fresh_spec(stored_at, now, longer),
{
}

/// A character kept in a cache key: ASCII letters and digits, `-` and `_`.
pub open spec fn safe_char(c: char) -> bool {
    ('a' <= c <= 'z') || ('A' <= c <= 'Z') || ('0' <= c <= '9') || c == '-' || c == '_'
}

/// `key` as a safe single path segment: other characters become `_`.
pub open spec fn sanitize_spec(key: Seq<char>) -> Seq<char> {
    key.map_values(|c: char| if safe_char(c) { c } else { '_' })
}

/// Keep `key` a safe single path segment.
pub fn sanitize(key: &str) -> (r: String)
    ensures
        r@ == sanitize_spec(key@),
{
    let cs = chars_of(key);
    let mut out: Vec<char> = Vec::new();
    let mut i: usize = 0;
    while i < cs.len()
        invariant
            cs@ == key@,
            i <= cs@.len(),
            out@ == sanitize_spec(key@).take(i as int),
        decreases cs.len() - i,
    {
        let c = cs[i];
        let keep = ('a' <= c && c <= 'z') || ('A' <= c && c <= 'Z') || ('0' <= c && c <= '9') || c == '-' || c == '_';
        out.push(if keep { c } else { '_' });
        proof {
            assert(sanitize_spec(key@).take(i + 1) =~= sanitize_spec(key@).take(i as int).push(sanitize_spec(key@)[i as int]));
        }
        i += 1;
    }
    proof {
        assert(sanitize_spec(key@).take(i as int) =~= sanitize_spec(key@));
    }
    string_of(out.as_slice())
}

/// A sanitized key has the key's length, only safe characters, and is its
/// own sanitization.
pub proof fn lemma_sanitize_safe(key: Seq<char>)
    ensures
        sanitize_spec(key).len() == key.len(),
        forall|i: int| 0 <= i < key.len() ==> safe_char(#[trigger] sanitize_spec(key)[i]),
        sanitize_spec(sanitize_spec(key)) == sanitize_spec(key),
        forall|i: int| 0 <= i < key.len() && safe_char(key[i]) ==> #[trigger] sanitize_spec(key)[i] == key[i],
{
    assert(sanitize_spec(sanitize_spec(key)) =~= sanitize_spec(key));
}

/// Where the entry for `(tool, key)` lives under the cache base `base`.
pub open spec fn cache_file_spec(base: Seq<char>, tool: Seq<char>, key: Seq<char>) -> Seq<char> {
    join_path(join_path(base, tool), sanitize_spec(key) + ".json"@)
}

/// The entry's file under the cache base `base`.
pub fn cache_file(base: &str, tool: &str, key: &str) -> (r: String)
    ensures
        r@ == cache_file_spec(base@, tool@, key@),
{
    let dir = join(base, tool);
    let s = sanitize(key);
    let mut name = chars_of(s.as_str());
    append_str(&mut name, ".json");
    let n = string_of(name.as_slice());
    join(dir.as_str(), n.as_str())
}

/// The entry's file, under `$XDG_CACHE_HOME` (its value is `xdg_cache`) or
/// `~/.cache`; nothing when neither can be determined.
pub fn cache_path(tool: &str, key: &str, xdg_cache: Option<&str>) -> (r: Option<String>)
    ensures
        (xdg_cache matches Some(d) && d@.len() > 0) ==> (r matches Some(p) && p@ == cache_file_spec(xdg_cache->0@, tool@, key@)),
        !(xdg_cache matches Some(d) && d@.len() > 0) ==> (r is None || exists|b: Seq<char>|
            r->0@ == #[trigger] cache_file_spec(join_path(b, ".cache"@), tool@, key@)),
{
    match base_dir(xdg_cache, ".cache") {
        Some(b) => Some(cache_file(b.as_str(), tool, key)),
        None => None,
    }
}

} // verus!
