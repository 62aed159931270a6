//! XDG base directories: the value of the variable when it is set and not
//! empty, else a directory under the home directory (`~/.config`,
//! `~/.cache`) on every platform.

use vstd::prelude::*;
use crate::path::{join, join_path};
use crate::text::{opt_str, owned};

verus! {

/// `dirs::home_dir`, as text (lossily converted). It reads the environment
/// and the user database, so nothing is promised of what comes back.
#[verifier::external_body]
fn home_dir() -> (r: Option<String>) {
    dirs::home_dir().map(|p| p.to_string_lossy().into_owned())
}

/// The base directory for a variable's value `env_value` and the home
/// directory `home`: the value when set and not empty, else `home/fallback`,
/// else nothing.
pub open spec fn base_dir_spec(env_value: Option<Seq<char>>, home: Option<Seq<char>>, fallback: Seq<char>) -> Option<Seq<char>> {
    match env_value {
        Some(d) if d.len() > 0 => Some(d),
        _ => match home {
            Some(h) => Some(join_path(h, fallback)),
            None => None,
        },
    }
}

/// The base directory from the variable's value and a known home directory.
pub fn base_dir_from(env_value: Option<&str>, home: Option<&str>, fallback: &str) -> (r: Option<String>)
    ensures
        match r {
            Some(s) => base_dir_spec(opt_str(env_value), opt_str(home), fallback@) == Some(s@),
            None => base_dir_spec(opt_str(env_value), opt_str(home), fallback@) is None,
        },
{
    match env_value {
        Some(d) => {
            if !d.is_empty() {
                return Some(owned(d));
            }
        },
        None => {},
    }
    match home {
        Some(h) => Some(join(h, fallback)),
        None => None,
    }
}

/// Resolve a base directory: the variable's value `env_value` when set and
/// not empty, otherwise `~/fallback` (nothing when the home directory cannot
/// be determined).
pub fn base_dir(env_value: Option<&str>, fallback: &str) -> (r: Option<String>)
    ensures
        (env_value matches Some(d) && d@.len() > 0) ==> (r matches Some(s) && s@ == env_value->0@),
        !(env_value matches Some(d) && d@.len() > 0) ==> (r is None || exists|h: Seq<char>|
            r->0@ == #[trigger] join_path(h, fallback@)),
{
    let set = match env_value {
        Some(d) => !d.is_empty(),
        None => false,
    };
    let home = if set {
        None
    } else {
        home_dir()
    };
    match &home {
        Some(h) => base_dir_from(env_value, Some(h.as_str()), fallback),
        None => base_dir_from(env_value, None, fallback),
    }
}

} // verus!
