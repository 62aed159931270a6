//! Reading `git`'s output: the linked worktrees of `git worktree list
//! --porcelain`, a commit time, a clean status, the push state, and the
//! staleness test. Running `git` is the driver's job.

use vstd::prelude::*;
use crate::path::{components, same_path};
use crate::text::{opt_string, chars_eq, chars_of, lines, lines_of, parse_u64, parse_u64_chars, string_of, sub_chars};
use crate::wt_gc::model::PushState;

verus! {

/// A linked worktree as `git worktree list --porcelain` reports it.
#[derive(Debug, Clone)]
pub struct LinkedWorktree {
    pub path: String,
    pub branch: String,
}

/// Whether `s` starts with `pre`.
pub open spec fn has_prefix(s: Seq<char>, pre: Seq<char>) -> bool {
    pre.len() <= s.len() && s.take(pre.len() as int) == pre
}

/// The record being read: its path, its branch, whether it is locked, and
/// the worktrees kept so far (path and branch).
pub type WtScan = (Option<Seq<char>>, Option<Seq<char>>, bool, Seq<(Seq<char>, Seq<char>)>);

/// End a record: keep it when it has a path and a branch, is not locked and
/// is not the main working tree `repo`; then start afresh.
pub open spec fn wt_flush(st: WtScan, repo: Seq<char>) -> WtScan {
    let keep = st.0 is Some && st.1 is Some && !st.2 && components(st.0->0) != components(repo);
    (None, None, false, if keep { st.3.push((st.0->0, st.1->0)) } else { st.3 })
}

/// Read one line of the porcelain output: a blank line ends a record;
/// `worktree P`, `branch refs/heads/B` and `locked` (with or without a
/// reason) fill it in; other lines are ignored.
pub open spec fn wt_step(st: WtScan, line: Seq<char>, repo: Seq<char>) -> WtScan {
    if line.len() == 0 {
        wt_flush(st, repo)
    } else if has_prefix(line, "worktree "@) {
        (Some(line.skip(9)), st.1, st.2, st.3)
    } else if has_prefix(line, "branch refs/heads/"@) {
        (st.0, Some(line.skip(18)), st.2, st.3)
    } else if line == "locked"@ || has_prefix(line, "locked "@) {
        (st.0, st.1, true, st.3)
    } else {
        st
    }
}

/// The scan after the first `n` lines.
pub open spec fn wt_run(ls: Seq<Seq<char>>, n: int, repo: Seq<char>) -> WtScan
    decreases n,
{
    if n <= 0 {
        (None, None, false, seq![])
    } else {
        wt_step(wt_run(ls, n - 1, repo), ls[n - 1], repo)
    }
}

/// Ending a record forgets it: the next record starts with no path, no
/// branch and no lock; the record itself is listed exactly when it had a
/// path and a branch, no lock of its own and is not the main tree.
pub proof fn lemma_flush_forgets(st: WtScan, repo: Seq<char>)
    ensures
        wt_flush(st, repo).0 is None,
        wt_flush(st, repo).1 is None,
        !wt_flush(st, repo).2,
        wt_flush(st, repo).3 == (if st.0 is Some && st.1 is Some && !st.2 && components(st.0->0) != components(repo) {
            st.3.push((st.0->0, st.1->0))
        } else {
            st.3
        }),
{
}

/// Each record is judged on its own lines: right after a blank line the scan
/// holds no path, no branch and no lock, whatever came before it, and the
/// worktrees listed so far are only ever added to.
pub proof fn lemma_record_starts_afresh(ls: Seq<Seq<char>>, n: int, repo: Seq<char>)
    requires
        1 <= n <= ls.len(),
        ls[n - 1].len() == 0,
    ensures
        wt_run(ls, n, repo).0 is None,
        wt_run(ls, n, repo).1 is None,
        !wt_run(ls, n, repo).2,
        wt_run(ls, n - 1, repo).3.is_prefix_of(wt_run(ls, n, repo).3),
{
    assert(wt_run(ls, n, repo) == wt_flush(wt_run(ls, n - 1, repo), repo));
    let prev = wt_run(ls, n - 1, repo);
    if prev.0 is Some && prev.1 is Some && !prev.2 && components(prev.0->0) != components(repo) {
        assert(prev.3.is_prefix_of(prev.3.push((prev.0->0, prev.1->0))));
    } else {
        assert(prev.3.is_prefix_of(prev.3));
    }
}

/// A record of a path line and a branch line, standing after the start or
/// a blank line and ended by a blank line, adds that worktree to the list
/// when it is not the main tree, and nothing otherwise, whatever records
/// came before it.
pub proof fn lemma_plain_record_listed(ls: Seq<Seq<char>>, n: int, repo: Seq<char>, path: Seq<char>, branch: Seq<char>)
    requires
        0 <= n,
        n + 3 <= ls.len(),
        n == 0 || ls[n - 1].len() == 0,
        ls[n] == "worktree "@ + path,
        ls[n + 1] == "branch refs/heads/"@ + branch,
        ls[n + 2].len() == 0,
    ensures
        wt_run(ls, n + 3, repo).3 == (if components(path) != components(repo) {
            wt_run(ls, n, repo).3.push((path, branch))
        } else {
            wt_run(ls, n, repo).3
        }),
{
    reveal_strlit("worktree ");
    reveal_strlit("branch refs/heads/");
    reveal_strlit("locked");
    reveal_strlit("locked ");
    if n > 0 {
        lemma_record_starts_afresh(ls, n, repo);
    }
    let s0 = wt_run(ls, n, repo);
    let l0 = ls[n];
    let l1 = ls[n + 1];
    assert(l0.len() > 0);
    assert(has_prefix(l0, "worktree "@)) by {
        assert(l0.take(9) =~= "worktree "@);
    }
    assert(l0.skip(9) =~= path);
    let s1 = wt_run(ls, n + 1, repo);
    assert(s1 == (Some(path), s0.1, s0.2, s0.3));
    assert(l1.len() > 0);
    assert(l1[0] == 'b');
    assert(!has_prefix(l1, "worktree "@)) by {
        assert(l1.take(9)[0] != "worktree "@[0]);
    }
    assert(has_prefix(l1, "branch refs/heads/"@)) by {
        assert(l1.take(18) =~= "branch refs/heads/"@);
    }
    assert(l1.skip(18) =~= branch);
    let s2 = wt_run(ls, n + 2, repo);
    assert(s2 == (Some(path), Some(branch), s0.2, s0.3));
}

/// The linked worktrees in `porcelain` (path and branch): records with a
/// path and a branch that are not locked and are not `repo` itself.
pub open spec fn worktrees_spec(porcelain: Seq<char>, repo: Seq<char>) -> Seq<(Seq<char>, Seq<char>)> {
    let ls = lines(porcelain);
    wt_flush(wt_run(ls, ls.len() as int, repo), repo).3
}

/// The worktrees as values.
pub open spec fn wt_views(v: Seq<LinkedWorktree>) -> Seq<(Seq<char>, Seq<char>)> {
    v.map_values(|w: LinkedWorktree| (w.path@, w.branch@))
}

fn starts_with_str(s: &[char], pre: &str) -> (r: bool)
    ensures
        r == has_prefix(s@, pre@),
{
    let p = chars_of(pre);
    if p.len() > s.len() {
        return false;
    }
    let head = sub_chars(s, 0, p.len());
    let r = chars_eq(head.as_slice(), p.as_slice());
    proof {
        assert(head@ == s@.take(p@.len() as int));
    }
    r
}

fn flush(path: &mut Option<String>, branch: &mut Option<String>, locked: &mut bool, out: &mut Vec<LinkedWorktree>, repo: &str)
    ensures
        (opt_string(*final(path)), opt_string(*final(branch)), *final(locked), wt_views(final(out)@)) == wt_flush(
            (opt_string(*old(path)), opt_string(*old(branch)), *old(locked), wt_views(old(out)@)),
            repo@,
        ),
{
    let mut p: Option<String> = None;
    let mut b: Option<String> = None;
    std::mem::swap(&mut p, path);
    std::mem::swap(&mut b, branch);
    match (p, b) {
        (Some(p), Some(b)) => {
            if !*locked && !same_path(p.as_str(), repo) {
                let ghost before = out@;
                out.push(LinkedWorktree { path: p, branch: b });
                proof {
                    assert(wt_views(out@) =~= wt_views(before).push((out@.last().path@, out@.last().branch@)));
                }
            }
        },
        _ => {},
    }
    *locked = false;
}

/// List the linked worktrees in `porcelain`, the output of `git worktree list
/// --porcelain` for `repo` (locked ones, detached heads and the main working
/// tree left out). Whether each directory still exists is settled by
/// `keep_present`.
pub fn linked_worktrees(porcelain: &str, repo: &str) -> (r: Vec<LinkedWorktree>)
    ensures
        wt_views(r@) == worktrees_spec(porcelain@, repo@),
{
    let pc = chars_of(porcelain);
    let ls = lines_of(pc.as_slice());
    let mut out: Vec<LinkedWorktree> = Vec::new();
    let mut path: Option<String> = None;
    let mut branch: Option<String> = None;
    let mut locked = false;
    let mut i: usize = 0;
    proof {
        assert(wt_views(out@) =~= Seq::<(Seq<char>, Seq<char>)>::empty());
    }
    while i < ls.len()
        invariant
            i <= ls@.len(),
            pc@ == porcelain@,
            ls@.len() == lines(pc@).len(),
            forall|k: int| 0 <= k < ls@.len() ==> #[trigger] ls@[k]@ == lines(pc@)[k],
            (opt_string(path), opt_string(branch), locked, wt_views(out@)) == wt_run(lines(pc@), i as int, repo@),
        decreases ls.len() - i,
    {
        let line = &ls[i];
        proof {
            assert(line@ == lines(pc@)[i as int]);
            reveal_strlit("worktree ");
            reveal_strlit("branch refs/heads/");
        }
        if line.len() == 0 {
            flush(&mut path, &mut branch, &mut locked, &mut out, repo);
        } else if starts_with_str(line.as_slice(), "worktree ") {
            let rest = sub_chars(line.as_slice(), 9, line.len());
            proof {
                assert(rest@ =~= line@.skip(9));
            }
            path = Some(string_of(rest.as_slice()));
        } else if starts_with_str(line.as_slice(), "branch refs/heads/") {
            let rest = sub_chars(line.as_slice(), 18, line.len());
            proof {
                assert(rest@ =~= line@.skip(18));
            }
            branch = Some(string_of(rest.as_slice()));
        } else {
            let lk = chars_of("locked");
            if chars_eq(line.as_slice(), lk.as_slice()) || starts_with_str(line.as_slice(), "locked ") {
                locked = true;
            }
        }
        i += 1;
    }
    flush(&mut path, &mut branch, &mut locked, &mut out, repo);
    out
}

/// The first `n` worktrees of `ws` whose flag in `present` is set, in order.
pub open spec fn present_prefix(
    ws: Seq<(Seq<char>, Seq<char>)>,
    present: Seq<bool>,
    n: int,
) -> Seq<(Seq<char>, Seq<char>)>
    decreases n,
{
    if n <= 0 {
        seq![]
    } else if present[n - 1] {
        present_prefix(ws, present, n - 1).push(ws[n - 1])
    } else {
        present_prefix(ws, present, n - 1)
    }
}

/// The worktrees of `ws` whose directory exists (`present[i]` for `ws[i]`).
pub open spec fn present_only(ws: Seq<(Seq<char>, Seq<char>)>, present: Seq<bool>) -> Seq<(Seq<char>, Seq<char>)> {
    present_prefix(ws, present, ws.len() as int)
}

/// Drop the worktrees whose directory has vanished: `present[i]` tells
/// whether the directory of `wts[i]` exists. The rest keep their order.
pub fn keep_present(wts: Vec<LinkedWorktree>, present: &Vec<bool>) -> (r: Vec<LinkedWorktree>)
    requires
        present@.len() == wts@.len(),
    ensures
        wt_views(r@) == present_only(wt_views(wts@), present@),
{
    let mut out: Vec<LinkedWorktree> = Vec::new();
    let mut i: usize = 0;
    let n = wts.len();
    let ghost all = wt_views(wts@);
    while i < n
        invariant
            n == wts@.len(),
            present@.len() == n,
            i <= n,
            all == wt_views(wts@),
            wt_views(out@) == present_prefix(all, present@, i as int),
        decreases n - i,
    {
        if present[i] {
            let ghost before = out@;
            let path = wts[i].path.clone();
            let branch = wts[i].branch.clone();
            out.push(LinkedWorktree { path, branch });
            proof {
                assert(wt_views(out@) =~= wt_views(before).push(all[i as int]));
            }
        }
        i += 1;
    }
    out
}

/// The committer time from `git log -1 --format=%ct` output (trimmed), as
/// `u64` parsing reads it.
pub fn head_commit_time(output: &str) -> (r: Option<u64>)
    ensures
        match r {
            Some(n) => parse_u64(output@) == Some(n as nat),
            None => parse_u64(output@) is None,
        },
{
    let cs = chars_of(output);
    parse_u64_chars(cs.as_slice())
}

/// Whether `git status --porcelain` output (trimmed) reports no changes.
pub fn is_clean(output: &str) -> (r: bool)
    ensures
        r == (output@.len() == 0),
{
    output.is_empty()
}

/// The push state from whether an upstream exists and the output of `git
/// rev-list --count @{u}..HEAD` (trimmed; `None` when it failed): no
/// upstream, or an unreadable count, is `NoUpstream`; a count of 0 is
/// `Pushed`; otherwise `Ahead` by the count.
pub fn push_state(has_upstream: bool, count: Option<&str>) -> (r: PushState)
    ensures
        !has_upstream ==> r == PushState::NoUpstream,
        has_upstream ==> r == match count {
            Some(c) => match parse_u64(c@) {
                Some(n) => if n == 0 { PushState::Pushed } else { PushState::Ahead(n as u64) },
                None => PushState::NoUpstream,
            },
            None => PushState::NoUpstream,
        },
{
    if !has_upstream {
        return PushState::NoUpstream;
    }
    match count {
        Some(c) => {
            let cs = chars_of(c);
            match parse_u64_chars(cs.as_slice()) {
                Some(0) => PushState::Pushed,
                Some(n) => PushState::Ahead(n),
                None => PushState::NoUpstream,
            }
        },
        None => PushState::NoUpstream,
    }
}

/// Whether a timestamp `ts` is at least `days` days before `now` (both unix
/// seconds; a future timestamp has age 0, and the day count saturates).
pub open spec fn older_than_spec(ts: u64, days: u64, now: u64) -> bool {
    (if now >= ts { now - ts } else { 0 }) >= (if days * 86400 > u64::MAX { u64::MAX as int } else { days * 86400 })
}

/// Whether `ts` is older than `days` days at `now`.
pub fn older_than(ts: u64, days: u64, now: u64) -> (r: bool)
    ensures
        r == older_than_spec(ts, days, now),
{
    let cutoff = day_secs(days);
    now.saturating_sub(ts) >= cutoff
}

/// `days` in seconds, saturating at the largest `u64`.
pub fn day_secs(days: u64) -> (r: u64)
    ensures
        r == (if days * 86400 > u64::MAX { u64::MAX as int } else { days * 86400 }),
{
    if days > u64::MAX / 86_400 {
        u64::MAX
    } else {
        days * 86_400
    }
}

} // verus!
