//! `wt-gc`'s configuration, with `~/` expanded against the home directory.

use vstd::prelude::*;
use crate::text::strings_v;
use crate::path::{join, join_path};
use crate::text::{chars_of, owned, string_of, sub_chars};

verus! {

/// The tool's configuration.
#[derive(Debug, Clone)]
pub struct Config {
    /// Directories whose immediate children are scanned for git repos. `~/`
    /// is expanded.
    pub repo_roots: Vec<String>,
    /// Where reclaimed worktrees are moved (a grace area before deletion).
    pub trash_dir: String,
    /// A worktree is stale after this many days without a commit.
    pub stale_days: u64,
    /// Trashed worktrees are deleted for good after this many days.
    pub trash_retention_days: u64,
}

impl Default for Config {
    fn default() -> (r: Self)
        ensures
            strings_v(r.repo_roots@) == seq!["~/dev"@, "~/dev/repos"@],
            r.trash_dir@ == "~/dev/.worktree-trash"@,
            r.stale_days == 30,
            r.trash_retention_days == 7,
    {
        let mut repo_roots: Vec<String> = Vec::new();
        repo_roots.push(owned("~/dev"));
        repo_roots.push(owned("~/dev/repos"));
        proof {
            assert(strings_v(repo_roots@) =~= seq!["~/dev"@, "~/dev/repos"@]);
        }
        Config { repo_roots, trash_dir: owned("~/dev/.worktree-trash"), stale_days: 30, trash_retention_days: 7 }
    }
}

/// A leading `~/` replaced by the home directory `home` (when known);
/// anything else is left as it is.
pub open spec fn expand_tilde_spec(path: Seq<char>, home: Option<Seq<char>>) -> Seq<char> {
    if path.len() >= 2 && path[0] == '~' && path[1] == '/' && home is Some {
        join_path(home->0, path.skip(2))
    } else {
        path
    }
}

/// Expand a leading `~/` against the home directory `home`.
pub fn expand_tilde(path: &str, home: Option<&str>) -> (r: String)
    ensures
        r@ == expand_tilde_spec(path@, crate::text::opt_str(home)),
{
    let pc = chars_of(path);
    if pc.len() >= 2 && pc[0] == '~' && pc[1] == '/' {
        match home {
            Some(h) => {
                let rest = sub_chars(pc.as_slice(), 2, pc.len());
                proof {
                    assert(rest@ =~= path@.skip(2));
                }
                let rs = string_of(rest.as_slice());
                return join(h, rs.as_str());
            },
            None => {},
        }
    }
    owned(path)
}

impl Config {
    /// The configured repo roots, with `~/` expanded.
    pub fn roots(&self, home: Option<&str>) -> (r: Vec<String>)
        ensures
            r@.len() == self.repo_roots@.len(),
            forall|i: int| 0 <= i < r@.len() ==> #[trigger] r@[i]@ == expand_tilde_spec(
                self.repo_roots@[i]@,
                crate::text::opt_str(home),
            ),
    {
        let mut out: Vec<String> = Vec::new();
        let mut i: usize = 0;
        while i < self.repo_roots.len()
            invariant
                i <= self.repo_roots@.len(),
                out@.len() == i,
                forall|j: int| 0 <= j < i ==> #[trigger] out@[j]@ == expand_tilde_spec(
                    self.repo_roots@[j]@,
                    crate::text::opt_str(home),
                ),
            decreases self.repo_roots.len() - i,
        {
            out.push(expand_tilde(self.repo_roots[i].as_str(), home));
            i += 1;
        }
        out
    }

    /// The trash directory, with `~/` expanded.
    pub fn trash_path(&self, home: Option<&str>) -> (r: String)
        ensures
            r@ == expand_tilde_spec(self.trash_dir@, crate::text::opt_str(home)),
    {
        expand_tilde(self.trash_dir.as_str(), home)
    }
}

} // verus!
