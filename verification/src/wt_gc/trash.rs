//! The trash's bookkeeping: where a reclaimed worktree is moved, which
//! trashed worktrees are purged, and where the manifest and the log live.

use vstd::prelude::*;
use crate::common::xdg::base_dir;
use crate::path::{join, join_path};
use crate::text::{append_chars, chars_of, decimal, decimal_chars, owned, string_of};
use crate::wt_gc::git::day_secs;

verus! {

/// One trashed worktree, as recorded in the manifest.
#[derive(Debug, Clone)]
pub struct TrashEntry {
    pub repo: String,
    pub repo_name: String,
    pub branch: String,
    pub original_path: String,
    pub trashed_path: String,
    pub trashed_at: u64,
}

/// The record of everything currently in the trash, and where it is kept.
#[derive(Debug)]
pub struct Manifest {
    pub entries: Vec<TrashEntry>,
    pub path: String,
}

impl Manifest {
    /// Record a worktree just moved to the trash: its entry goes last, the
    /// earlier entries and the file stay.
    pub fn record(&mut self, entry: TrashEntry)
        ensures
            final(self).entries@ == old(self).entries@.push(entry),
            final(self).path == old(self).path,
    {
        self.entries.push(entry);
    }
}

/// `days` in seconds, saturating at the largest `u64`.
pub open spec fn day_secs_spec(days: u64) -> int {
    if days * 86400 > u64::MAX { u64::MAX as int } else { days * 86400 }
}

/// An entry is expired at `now` once it has been in the trash for the
/// retention period (a future stamp has age 0).
pub open spec fn expired(e: TrashEntry, retention_days: u64, now: u64) -> bool {
    (if now >= e.trashed_at { now - e.trashed_at } else { 0 }) >= day_secs_spec(retention_days)
}

/// The first `n` entries split into those kept and those purged: entries
/// whose directory is gone (`present` false) are dropped from both; the
/// expired ones are purged; the rest are kept; order is preserved.
pub open spec fn purge_split(
    es: Seq<TrashEntry>,
    present: Seq<bool>,
    retention_days: u64,
    now: u64,
    n: int,
) -> (Seq<TrashEntry>, Seq<TrashEntry>)
    decreases n,
{
    if n <= 0 {
        (seq![], seq![])
    } else {
        let (kept, removed) = purge_split(es, present, retention_days, now, n - 1);
        let e = es[n - 1];
        if !present[n - 1] {
            (kept, removed)
        } else if expired(e, retention_days, now) {
            (kept, removed.push(e))
        } else {
            (kept.push(e), removed)
        }
    }
}

/// `x` is one of the first `n` entries, present, and expired or not as `exp` says.
pub open spec fn came_from(x: TrashEntry, es: Seq<TrashEntry>, present: Seq<bool>, retention_days: u64, now: u64, n: int, exp: bool) -> bool {
    exists|j: int| #![trigger es[j]] 0 <= j < n && present[j] && expired(es[j], retention_days, now) == exp && es[j] == x
}

/// What a purge keeps and removes: kept entries are present and not
/// expired, removed ones are present and expired, and every present entry
/// lands in exactly one of the two.
pub proof fn lemma_purge_split(es: Seq<TrashEntry>, present: Seq<bool>, retention_days: u64, now: u64, n: int)
    requires
        0 <= n <= es.len(),
        present.len() == es.len(),
    ensures
        forall|i: int| 0 <= i < purge_split(es, present, retention_days, now, n).0.len() ==> came_from(
            #[trigger] purge_split(es, present, retention_days, now, n).0[i], es, present, retention_days, now, n, false),
        forall|i: int| 0 <= i < purge_split(es, present, retention_days, now, n).1.len() ==> came_from(
            #[trigger] purge_split(es, present, retention_days, now, n).1[i], es, present, retention_days, now, n, true),
        purge_split(es, present, retention_days, now, n).0.len() + purge_split(es, present, retention_days, now, n).1.len()
            == present_count(present, n),
    decreases n,
{
    if n > 0 {
        lemma_purge_split(es, present, retention_days, now, n - 1);
        let (kept, removed) = purge_split(es, present, retention_days, now, n - 1);
        let (k2, r2) = purge_split(es, present, retention_days, now, n);
        assert forall|i: int| 0 <= i < k2.len() implies came_from(#[trigger] k2[i], es, present, retention_days, now, n, false) by {
            if i < kept.len() {
                assert(k2[i] == kept[i]);
                assert(came_from(kept[i], es, present, retention_days, now, n - 1, false));
                let j = choose|j: int| #![trigger es[j]] 0 <= j < n - 1 && present[j] && expired(es[j], retention_days, now) == false && es[j] == kept[i];
                assert(es[j] == k2[i]);
            } else {
                assert(k2[i] == es[n - 1]);
            }
        }
        assert forall|i: int| 0 <= i < r2.len() implies came_from(#[trigger] r2[i], es, present, retention_days, now, n, true) by {
            if i < removed.len() {
                assert(r2[i] == removed[i]);
                assert(came_from(removed[i], es, present, retention_days, now, n - 1, true));
                let j = choose|j: int| #![trigger es[j]] 0 <= j < n - 1 && present[j] && expired(es[j], retention_days, now) == true && es[j] == removed[i];
                assert(es[j] == r2[i]);
            } else {
                assert(r2[i] == es[n - 1]);
            }
        }
    }
}

/// An entry is expired exactly when its age (`now - trashed_at`, or 0 for a
/// stamp in the future) is at least the retention period in seconds
/// (`retention_days * 86400`, capped at the largest `u64`), whatever the
/// retention.
pub proof fn lemma_expired_by_age(e: TrashEntry, retention_days: u64, now: u64)
    ensures
        expired(e, retention_days, now) <==> trash_age(e, now) >= retention_secs(retention_days),
{
}

/// How long an entry has been in the trash at `now` (0 for a stamp in the
/// future).
pub open spec fn trash_age(e: TrashEntry, now: u64) -> int {
    if now >= e.trashed_at {
        now - e.trashed_at
    } else {
        0
    }
}

/// The retention period in seconds, capped at the largest `u64`.
pub open spec fn retention_secs(retention_days: u64) -> int {
    if retention_days * 86400 <= u64::MAX {
        retention_days * 86400
    } else {
        u64::MAX as int
    }
}

/// `x` is a present entry of `es` that has been in the trash at least the
/// retention period at `now` (`aged`), or less (`!aged`).
pub open spec fn present_aged(x: TrashEntry, es: Seq<TrashEntry>, present: Seq<bool>, retention_days: u64, now: u64, aged: bool) -> bool {
    exists|j: int| #![trigger es[j]]
        0 <= j < es.len() && present[j] && es[j] == x && (trash_age(es[j], now) >= retention_secs(retention_days)) == aged
}

/// What a purge does with the manifest, by age: every entry it removes was
/// present and at least `retention_days` old at `now`; every entry it keeps
/// was present and younger; every present entry is kept or removed.
pub proof fn lemma_purge_by_age(es: Seq<TrashEntry>, present: Seq<bool>, retention_days: u64, now: u64)
    requires
        present.len() == es.len(),
    ensures
        forall|i: int| 0 <= i < purge_split(es, present, retention_days, now, es.len() as int).1.len() ==> present_aged(
            #[trigger] purge_split(es, present, retention_days, now, es.len() as int).1[i], es, present, retention_days, now, true),
        forall|i: int| 0 <= i < purge_split(es, present, retention_days, now, es.len() as int).0.len() ==> present_aged(
            #[trigger] purge_split(es, present, retention_days, now, es.len() as int).0[i], es, present, retention_days, now, false),
        purge_split(es, present, retention_days, now, es.len() as int).0.len() + purge_split(
            es,
            present,
            retention_days,
            now,
            es.len() as int,
        ).1.len() == present_count(present, es.len() as int),
{
    let n = es.len() as int;
    lemma_purge_split(es, present, retention_days, now, n);
    let split = purge_split(es, present, retention_days, now, n);
    assert forall|i: int| 0 <= i < split.1.len() implies present_aged(#[trigger] split.1[i], es, present, retention_days, now, true) by {
        assert(came_from(split.1[i], es, present, retention_days, now, n, true));
        let j = choose|j: int| #![trigger es[j]] 0 <= j < n && present[j] && expired(es[j], retention_days, now) == true && es[j] == split.1[i];
        assert(es[j] == split.1[i]);
    }
    assert forall|i: int| 0 <= i < split.0.len() implies present_aged(#[trigger] split.0[i], es, present, retention_days, now, false) by {
        assert(came_from(split.0[i], es, present, retention_days, now, n, false));
        let j = choose|j: int| #![trigger es[j]] 0 <= j < n && present[j] && expired(es[j], retention_days, now) == false && es[j] == split.0[i];
        assert(es[j] == split.0[i]);
    }
}

/// How many of the first `n` entries are present.
pub open spec fn present_count(present: Seq<bool>, n: int) -> nat
    decreases n,
{
    if n <= 0 {
        0
    } else {
        present_count(present, n - 1) + if present[n - 1] { 1nat } else { 0nat }
    }
}

/// Purge the entries older than `retention_days` at `now` and forget those
/// whose directory has vanished (`present[i]` tells whether entry `i`'s
/// directory still exists). The manifest keeps the rest; the purged entries
/// are returned (their directories are for the caller to delete).
pub fn purge_expired(manifest: &mut Manifest, retention_days: u64, now: u64, present: &Vec<bool>) -> (removed: Vec<TrashEntry>)
    requires
        present@.len() == old(manifest).entries@.len(),
    ensures
        (final(manifest).entries@, removed@) == purge_split(
            old(manifest).entries@,
            present@,
            retention_days,
            now,
            old(manifest).entries@.len() as int,
        ),
        final(manifest).path == old(manifest).path,
{
    let cutoff = day_secs(retention_days);
    let mut rest: Vec<TrashEntry> = Vec::new();
    std::mem::swap(&mut rest, &mut manifest.entries);
    let ghost es = rest@;
    assert(es.len() == rest.len());
    let mut kept: Vec<TrashEntry> = Vec::new();
    let mut removed: Vec<TrashEntry> = Vec::new();
    let mut i: usize = 0;
    while rest.len() > 0
        invariant
            i <= es.len(),
            es.len() <= usize::MAX,
            rest@ == es.skip(i as int),
            present@.len() == es.len(),
            cutoff == day_secs_spec(retention_days),
            (kept@, removed@) == purge_split(es, present@, retention_days, now, i as int),
        decreases rest.len(),
    {
        let e = rest.remove(0);
        proof {
            assert(es.skip(i as int)[0] == es[i as int]);
            assert(rest@ =~= es.skip(i + 1));
        }
        let is_expired = now.saturating_sub(e.trashed_at) >= cutoff;
        if !present[i] {
        } else if is_expired {
            removed.push(e);
        } else {
            kept.push(e);
        }
        i += 1;
    }
    proof {
        assert(i == es.len()) by {
            assert(es.skip(i as int).len() == 0);
        }
    }
    manifest.entries = kept;
    removed
}

/// Where a reclaimed worktree goes: `<trash>/<repo name>/<branch>`, or, when
/// that is taken, `<trash>/<repo name>/<branch>-<now>`.
pub open spec fn trash_dest_spec(trash_dir: Seq<char>, repo_name: Seq<char>, branch: Seq<char>, taken: bool, now: u64) -> Seq<char> {
    let dir = join_path(trash_dir, repo_name);
    if taken {
        join_path(dir, branch + "-"@ + decimal(now as nat))
    } else {
        join_path(dir, branch)
    }
}

/// The destination of a reclaimed worktree.
pub fn trash_dest(trash_dir: &str, repo_name: &str, branch: &str, taken: bool, now: u64) -> (r: String)
    ensures
        r@ == trash_dest_spec(trash_dir@, repo_name@, branch@, taken, now),
{
    let dir = join(trash_dir, repo_name);
    if taken {
        let mut name = chars_of(branch);
        name.push('-');
        let d = decimal_chars(now);
        append_chars(&mut name, d.as_slice());
        proof {
            assert(name@ =~= branch@ + "-"@ + decimal(now as nat)) by {
                reveal_strlit("-");
            }
        }
        let n = string_of(name.as_slice());
        join(dir.as_str(), n.as_str())
    } else {
        join(dir.as_str(), branch)
    }
}

/// A file of the tool's state: `<base>/wt-gc/<name>`.
pub open spec fn state_file_spec(base: Seq<char>, name: Seq<char>) -> Seq<char> {
    join_path(join_path(base, "wt-gc"@), name)
}

/// A file of the tool's state under `$XDG_CACHE_HOME` (its value is
/// `xdg_cache`), else `~/.cache`, else `/tmp`.
pub fn state_file(xdg_cache: Option<&str>, name: &str) -> (r: String)
    ensures
        (xdg_cache matches Some(d) && d@.len() > 0) ==> r@ == state_file_spec(xdg_cache->0@, name@),
        !(xdg_cache matches Some(d) && d@.len() > 0) ==> (r@ == state_file_spec("/tmp"@, name@) || exists|h: Seq<char>|
            r@ == #[trigger] state_file_spec(join_path(h, ".cache"@), name@)),
{
    let base = match base_dir(xdg_cache, ".cache") {
        Some(b) => b,
        None => owned("/tmp"),
    };
    let dir = join(base.as_str(), "wt-gc");
    let f = join(dir.as_str(), name);
    proof {
        if !(xdg_cache matches Some(d) && d@.len() > 0) && base@ != "/tmp"@ {
            let h = choose|h: Seq<char>| base@ == #[trigger] join_path(h, ".cache"@);
            assert(f@ == state_file_spec(join_path(h, ".cache"@), name@));
        }
    }
    f
}

/// The manifest: `trash.json` in the tool's state directory.
pub fn manifest_path(xdg_cache: Option<&str>) -> (r: String)
    ensures
        (xdg_cache matches Some(d) && d@.len() > 0) ==> r@ == state_file_spec(xdg_cache->0@, "trash.json"@),
{
    state_file(xdg_cache, "trash.json")
}

/// The run log: `wt-gc.log` in the tool's state directory.
pub fn log_path(xdg_cache: Option<&str>) -> (r: String)
    ensures
        (xdg_cache matches Some(d) && d@.len() > 0) ==> r@ == state_file_spec(xdg_cache->0@, "wt-gc.log"@),
{
    state_file(xdg_cache, "wt-gc.log")
}

} // verus!
