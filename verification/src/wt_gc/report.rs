//! What `wt-gc` decides and says per worktree: its verdict, the dry-run
//! listing, the log lines of a run, the review prompt and its answer.

use vstd::prelude::*;
use crate::path::{components, file_name, file_name_of, starts_with};
use crate::text::{
    append_chars, append_str, chars_of, decimal, decimal_chars, join, join_strings, owned,
    string_of, strings_v, trim, trim_chars,
};
use crate::wt_gc::git::{LinkedWorktree, older_than, older_than_spec};
use crate::wt_gc::model::{Bucket, Candidate, PushState, classify, classify_spec, reasons_spec};

verus! {

/// A repository's display name: its directory's name, else `repo`.
pub open spec fn repo_name_spec(repo: Seq<char>) -> Seq<char> {
    match file_name(repo) {
        Some(n) => n,
        None => "repo"@,
    }
}

/// The display name of the repository at `repo`.
pub fn repo_name(repo: &str) -> (r: String)
    ensures
        r@ == repo_name_spec(repo@),
{
    match file_name_of(repo) {
        Some(n) => n,
        None => owned("repo"),
    }
}

/// Whether a worktree lies inside the trash directory (such ones are skipped).
pub fn in_trash(wt_path: &str, trash: &str) -> (r: bool)
    ensures
        r == (components(trash@).len() <= components(wt_path@).len()
            && components(wt_path@).take(components(trash@).len() as int) == components(trash@)),
{
    starts_with(wt_path, trash)
}

/// Whether a worktree is stale: its head commit time is known and at least
/// `stale_days` old at `now`.
pub open spec fn stale_spec(head_time: Option<u64>, stale_days: u64, now: u64) -> bool {
    match head_time {
        Some(ts) => older_than_spec(ts, stale_days, now),
        None => false,
    }
}

/// Judge one linked worktree from the facts gathered about it: an unknown
/// commit time is not stale, an unknown status is not clean.
pub fn assess(
    repo: &str,
    repo_name: &str,
    wt: LinkedWorktree,
    head_time: Option<u64>,
    clean: Option<bool>,
    push: PushState,
    stale_days: u64,
    now: u64,
) -> (c: Candidate)
    ensures
        c.repo@ == repo@,
        c.repo_name@ == repo_name@,
        c.path@ == wt.path@,
        c.branch@ == wt.branch@,
        c.clean == (clean == Some(true)),
        c.push == push,
        c.bucket == classify_spec(stale_spec(head_time, stale_days, now), clean == Some(true), push is Pushed),
{
    let stale = match head_time {
        Some(ts) => older_than(ts, stale_days, now),
        None => false,
    };
    let is_clean = match clean {
        Some(b) => b,
        None => false,
    };
    let bucket = classify(stale, is_clean, push.is_pushed());
    Candidate {
        repo: owned(repo),
        repo_name: owned(repo_name),
        path: wt.path,
        branch: wt.branch,
        clean: is_clean,
        push,
        bucket,
    }
}

/// One listed worktree: `  <repo>/<branch>`, with its reasons in parentheses
/// in the review section.
pub open spec fn list_row(b: Bucket, c: Candidate) -> Seq<char> {
    let why = reasons_spec(c.clean, c.push);
    "  "@ + c.repo_name@ + "/"@ + c.branch@ + if b == Bucket::Confirm && why.len() > 0 {
        "  ("@ + join(why, ", "@) + ")"@
    } else {
        seq![]
    }
}

/// The rows of the first `n` candidates in bucket `b`, in order.
pub open spec fn section_rows(cs: Seq<Candidate>, b: Bucket, n: int) -> Seq<Seq<char>>
    decreases n,
{
    if n <= 0 {
        seq![]
    } else if cs[n - 1].bucket == b {
        section_rows(cs, b, n - 1).push(list_row(b, cs[n - 1]))
    } else {
        section_rows(cs, b, n - 1)
    }
}

/// A section of the listing: a blank line, the header and the rows, or
/// nothing when no candidate is in the bucket.
pub open spec fn section(cs: Seq<Candidate>, b: Bucket, header: Seq<char>) -> Seq<Seq<char>> {
    let rows = section_rows(cs, b, cs.len() as int);
    if rows.len() == 0 {
        seq![]
    } else {
        seq![seq![], header] + rows
    }
}

/// The dry-run listing, line by line: auto-trash, review and keep sections.
pub open spec fn list_report_spec(cs: Seq<Candidate>) -> Seq<Seq<char>> {
    if cs.len() == 0 {
        seq!["No linked worktrees found under the configured roots."@]
    } else {
        section(cs, Bucket::Auto, "would auto-trash (stale, clean, pushed):"@)
            + section(cs, Bucket::Confirm, "needs review (stale, but has pending work):"@)
            + section(cs, Bucket::Skip, "keeping (active):"@)
    }
}

fn row_text(b: Bucket, c: &Candidate) -> (r: String)
    ensures
        r@ == list_row(b, *c),
{
    let mut t = chars_of("  ");
    append_str(&mut t, c.repo_name.as_str());
    append_str(&mut t, "/");
    append_str(&mut t, c.branch.as_str());
    let why = c.reasons();
    if b == Bucket::Confirm && why.len() > 0 {
        append_str(&mut t, "  (");
        let j = join_strings(&why, ", ");
        append_str(&mut t, j.as_str());
        append_str(&mut t, ")");
    }
    proof {
        assert(t@ =~= list_row(b, *c));
    }
    string_of(t.as_slice())
}

fn push_section(out: &mut Vec<String>, cs: &Vec<Candidate>, b: Bucket, header: &str)
    ensures
        strings_v(final(out)@) == strings_v(old(out)@) + section(cs@, b, header@),
{
    let mut rows: Vec<String> = Vec::new();
    let mut i: usize = 0;
    while i < cs.len()
        invariant
            i <= cs@.len(),
            strings_v(rows@) == section_rows(cs@, b, i as int),
        decreases cs.len() - i,
    {
        if cs[i].bucket == b {
            let ghost before = rows@;
            rows.push(row_text(b, &cs[i]));
            proof {
                assert(strings_v(rows@) =~= strings_v(before).push(list_row(b, cs@[i as int])));
            }
        }
        i += 1;
    }
    if rows.len() > 0 {
        let ghost before = out@;
        out.push(String::new());
        out.push(owned(header));
        let ghost mid = out@;
        let ghost rv = rows@;
        out.append(&mut rows);
        proof {
            assert(out@ == mid + rv);
            assert(strings_v(out@) =~= strings_v(before) + (seq![seq![], header@] + strings_v(rv)));
        }
    } else {
        proof {
            assert(strings_v(out@) =~= strings_v(out@) + Seq::<Seq<char>>::empty());
        }
    }
}

/// The dry-run listing of `cs`, one line per entry.
pub fn list_report(cs: &Vec<Candidate>) -> (r: Vec<String>)
    ensures
        strings_v(r@) == list_report_spec(cs@),
{
    let mut out: Vec<String> = Vec::new();
    if cs.len() == 0 {
        out.push(owned("No linked worktrees found under the configured roots."));
        proof {
            assert(strings_v(out@) =~= list_report_spec(cs@));
        }
        return out;
    }
    proof {
        assert(strings_v(out@) =~= Seq::<Seq<char>>::empty());
    }
    push_section(&mut out, cs, Bucket::Auto, "would auto-trash (stale, clean, pushed):");
    push_section(&mut out, cs, Bucket::Confirm, "needs review (stale, but has pending work):");
    push_section(&mut out, cs, Bucket::Skip, "keeping (active):");
    proof {
        assert(strings_v(out@) =~= list_report_spec(cs@));
    }
    out
}

/// The log line of a purged trash entry.
pub fn purged_line(retention_days: u64, trashed_path: &str) -> (r: String)
    ensures
        r@ == "purged (>"@ + decimal(retention_days as nat) + "d): "@ + trashed_path@,
{
    let mut t = chars_of("purged (>");
    let d = decimal_chars(retention_days);
    append_chars(&mut t, d.as_slice());
    append_str(&mut t, "d): ");
    append_str(&mut t, trashed_path);
    string_of(t.as_slice())
}

/// The log line of a worktree moved to the trash.
pub fn trashed_line(path: &str, dest: &str) -> (r: String)
    ensures
        r@ == "trashed "@ + path@ + " → "@ + dest@,
{
    let mut t = chars_of("trashed ");
    append_str(&mut t, path);
    append_str(&mut t, " → ");
    append_str(&mut t, dest);
    string_of(t.as_slice())
}

/// The log line of a worktree that could not be trashed.
pub fn failed_line(path: &str, err: &str) -> (r: String)
    ensures
        r@ == "FAILED to trash "@ + path@ + ": "@ + err@,
{
    let mut t = chars_of("FAILED to trash ");
    append_str(&mut t, path);
    append_str(&mut t, ": ");
    append_str(&mut t, err);
    string_of(t.as_slice())
}

/// The log line of a worktree left for review, with its reasons.
pub fn review_line(c: &Candidate) -> (r: String)
    ensures
        r@ == "needs review: "@ + c.path@ + " ("@ + join(reasons_spec(c.clean, c.push), ", "@) + ")"@,
{
    let mut t = chars_of("needs review: ");
    append_str(&mut t, c.path.as_str());
    append_str(&mut t, " (");
    let why = c.reasons();
    let j = join_strings(&why, ", ");
    append_str(&mut t, j.as_str());
    append_str(&mut t, ")");
    string_of(t.as_slice())
}

/// The last log line of a run.
pub fn done_line(trashed: u64, review: u64) -> (r: String)
    ensures
        r@ == "done: "@ + decimal(trashed as nat) + " trashed, "@ + decimal(review as nat)
            + " need review (run `wt-gc review`)"@,
{
    let mut t = chars_of("done: ");
    let a = decimal_chars(trashed);
    append_chars(&mut t, a.as_slice());
    append_str(&mut t, " trashed, ");
    let b = decimal_chars(review);
    append_chars(&mut t, b.as_slice());
    append_str(&mut t, " need review (run `wt-gc review`)");
    string_of(t.as_slice())
}

/// How a worktree is introduced for review: its path, its repository and
/// branch, and its reasons, on separate lines after a blank one.
pub fn review_intro(c: &Candidate) -> (r: String)
    ensures
        r@ == "\n"@ + c.path@ + "\n  repo "@ + c.repo_name@ + "  branch "@ + c.branch@ + "\n  "@
            + join(reasons_spec(c.clean, c.push), ", "@),
{
    let mut t = chars_of("\n");
    append_str(&mut t, c.path.as_str());
    append_str(&mut t, "\n  repo ");
    append_str(&mut t, c.repo_name.as_str());
    append_str(&mut t, "  branch ");
    append_str(&mut t, c.branch.as_str());
    append_str(&mut t, "\n  ");
    let why = c.reasons();
    let j = join_strings(&why, ", ");
    append_str(&mut t, j.as_str());
    string_of(t.as_slice())
}

/// The review question for a worktree's branch.
pub fn trash_question(branch: &str) -> (r: String)
    ensures
        r@ == "Trash "@ + branch@ + "?"@,
{
    let mut t = chars_of("Trash ");
    append_str(&mut t, branch);
    append_str(&mut t, "?");
    string_of(t.as_slice())
}

/// ASCII lower case of one character.
pub open spec fn lower(c: char) -> char {
    if 'A' <= c <= 'Z' { ((c as u8) + 32) as char } else { c }
}

/// An answer counts as yes when, trimmed and in ASCII lower case, it is `y`
/// or `yes`.
pub open spec fn is_yes_spec(answer: Seq<char>) -> bool {
    let a = trim(answer).map_values(|c: char| lower(c));
    a == "y"@ || a == "yes"@
}

/// Whether a typed answer is an explicit yes.
pub fn is_yes(answer: &str) -> (r: bool)
    ensures
        r == is_yes_spec(answer@),
{
    let cs = chars_of(answer);
    let t = trim_chars(cs.as_slice());
    let mut low: Vec<char> = Vec::new();
    let mut i: usize = 0;
    while i < t.len()
        invariant
            i <= t@.len(),
            low@ == t@.take(i as int).map_values(|c: char| lower(c)),
        decreases t.len() - i,
    {
        let c = t[i];
        let l = if 'A' <= c && c <= 'Z' { ((c as u8) + 32) as char } else { c };
        low.push(l);
        proof {
            assert(t@.take(i + 1).map_values(|c: char| lower(c)) =~= t@.take(i as int).map_values(|c: char| lower(c)).push(lower(c)));
        }
        i += 1;
    }
    proof {
        assert(t@.take(i as int) =~= t@);
        reveal_strlit("y");
        reveal_strlit("yes");
    }
    let r = (low.len() == 1 && low[0] == 'y') || (low.len() == 3 && low[0] == 'y' && low[1] == 'e' && low[2] == 's');
    proof {
        if low@.len() == 1 && low@[0] == 'y' {
            assert(low@ =~= "y"@);
        }
        if low@.len() == 3 && low@[0] == 'y' && low@[1] == 'e' && low@[2] == 's' {
            assert(low@ =~= "yes"@);
        }
    }
    r
}

/// What a run does with one candidate.
#[derive(Debug, Clone, Copy, PartialEq, Eq, Structural)]
pub enum RunStep {
    /// Move candidate `i` to the trash (stale, clean and pushed).
    Trash(usize),
    /// Log candidate `i` as needing review (stale with pending work).
    Review(usize),
}

/// The steps of a run over the first `n` candidates, in their order: the
/// automatic ones are trashed, those to confirm are logged for review, and
/// the rest are left alone.
pub open spec fn run_steps_spec(cs: Seq<Candidate>, n: int) -> Seq<RunStep>
    decreases n,
{
    if n <= 0 {
        seq![]
    } else {
        let s = run_steps_spec(cs, n - 1);
        match cs[n - 1].bucket {
            Bucket::Auto => s.push(RunStep::Trash((n - 1) as usize)),
            Bucket::Confirm => s.push(RunStep::Review((n - 1) as usize)),
            Bucket::Skip => s,
        }
    }
}

/// How many of the first `n` candidates need review.
pub open spec fn review_count(cs: Seq<Candidate>, n: int) -> nat
    decreases n,
{
    if n <= 0 {
        0
    } else {
        review_count(cs, n - 1) + if cs[n - 1].bucket == Bucket::Confirm { 1nat } else { 0nat }
    }
}

/// Plan a run: the steps for the candidates, and how many need review.
pub fn run_steps(cs: &Vec<Candidate>) -> (r: (Vec<RunStep>, u64))
    ensures
        r.0@ == run_steps_spec(cs@, cs@.len() as int),
        r.1 == review_count(cs@, cs@.len() as int),
{
    let mut steps: Vec<RunStep> = Vec::new();
    let mut review: u64 = 0;
    let mut i: usize = 0;
    while i < cs.len()
        invariant
            i <= cs@.len(),
            steps@ == run_steps_spec(cs@, i as int),
            review == review_count(cs@, i as int),
            review <= i,
        decreases cs.len() - i,
    {
        match cs[i].bucket {
            Bucket::Auto => steps.push(RunStep::Trash(i)),
            Bucket::Confirm => {
                steps.push(RunStep::Review(i));
                assert(review < i + 1 <= usize::MAX);
                review = review + 1;
            },
            Bucket::Skip => {},
        }
        i += 1;
    }
    (steps, review)
}

} // verus!
