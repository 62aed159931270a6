//! The decision model: turn git facts about a worktree into a bucket.

use vstd::prelude::*;
use crate::text::strings_v;
use crate::text::{append_chars, chars_of, decimal, decimal_chars, owned, string_of};

verus! {

/// What should happen to a discovered worktree.
#[derive(Debug, Clone, Copy, PartialEq, Eq, Structural)]
pub enum Bucket {
    /// Stale, clean, and pushed: safe to reclaim automatically.
    Auto,
    /// Stale but has work that isn't safely throwaway: ask before reclaiming.
    Confirm,
    /// Not stale: leave it alone.
    Skip,
}

/// How a worktree's branch relates to its upstream.
#[derive(Debug, Clone, Copy, PartialEq, Eq, Structural)]
pub enum PushState {
    /// Upstream exists and HEAD is not ahead of it.
    Pushed,
    /// Upstream exists but HEAD is ahead by this many commits.
    Ahead(u64),
    /// No upstream is configured at all.
    NoUpstream,
}

impl PushState {
    /// Whether HEAD is on its upstream.
    pub fn is_pushed(self) -> (r: bool)
        ensures
            r == (self is Pushed),
    {
        match self {
            PushState::Pushed => true,
            _ => false,
        }
    }
}

/// The bucket for the three facts the GC keys on: not stale is skipped;
/// stale, clean and pushed is automatic; any other stale one needs a look.
pub open spec fn classify_spec(stale: bool, clean: bool, pushed: bool) -> Bucket {
    if !stale {
        Bucket::Skip
    } else if clean && pushed {
        Bucket::Auto
    } else {
        Bucket::Confirm
    }
}

/// Decide a worktree's bucket.
pub fn classify(stale: bool, clean: bool, pushed: bool) -> (r: Bucket)
    ensures
        r == classify_spec(stale, clean, pushed),
{
    if !stale {
        Bucket::Skip
    } else if clean && pushed {
        Bucket::Auto
    } else {
        Bucket::Confirm
    }
}

/// A linked worktree under consideration, with the facts and the verdict.
#[derive(Debug, Clone)]
pub struct Candidate {
    /// The main repository this worktree belongs to (its toplevel).
    pub repo: String,
    pub repo_name: String,
    /// The worktree's own directory.
    pub path: String,
    pub branch: String,
    pub clean: bool,
    pub push: PushState,
    pub bucket: Bucket,
}

/// Why a worktree needs confirmation: uncommitted changes, then unpushed
/// commits or a missing upstream.
pub open spec fn reasons_spec(clean: bool, push: PushState) -> Seq<Seq<char>> {
    let first: Seq<Seq<char>> = if clean { seq![] } else { seq!["uncommitted changes"@] };
    match push {
        PushState::Ahead(n) => first.push(decimal(n as nat) + " unpushed commit(s)"@),
        PushState::NoUpstream => first.push("no upstream branch"@),
        PushState::Pushed => first,
    }
}

/// Only a stale worktree is ever reclaimed, and only one that is clean and
/// pushed is reclaimed without asking; such a one has no reasons to show.
pub proof fn lemma_auto_is_safe(stale: bool, clean: bool, push: PushState)
    ensures
        classify_spec(stale, clean, push is Pushed) == Bucket::Auto <==> (stale && clean && push is Pushed),
        classify_spec(stale, clean, push is Pushed) == Bucket::Skip <==> !stale,
        classify_spec(stale, clean, push is Pushed) == Bucket::Auto ==> reasons_spec(clean, push).len() == 0,
        classify_spec(stale, clean, push is Pushed) == Bucket::Confirm ==> reasons_spec(clean, push).len() > 0,
{
}

impl Candidate {
    /// Human-readable reasons a stale worktree needs confirmation (none for a
    /// clean, pushed one).
    pub fn reasons(&self) -> (r: Vec<String>)
        ensures
            strings_v(r@) == reasons_spec(self.clean, self.push),
    {
        let mut out: Vec<String> = Vec::new();
        if !self.clean {
            out.push(owned("uncommitted changes"));
        }
        let ghost first = strings_v(out@);
        match self.push {
            PushState::Ahead(n) => {
                let mut t = decimal_chars(n);
                let tail = chars_of(" unpushed commit(s)");
                append_chars(&mut t, tail.as_slice());
                out.push(string_of(t.as_slice()));
            },
            PushState::NoUpstream => out.push(owned("no upstream branch")),
            PushState::Pushed => {},
        }
        proof {
            assert(strings_v(out@) =~= reasons_spec(self.clean, self.push));
        }
        out
    }
}

} // verus!
