//! Where a tool's configuration file is looked for: an explicit path, else
//! the tool's variable, else `$XDG_CONFIG_HOME/<tool>/config.toml` (falling
//! back to `~/.config/<tool>/config.toml`).

use vstd::prelude::*;
use crate::common::xdg::base_dir;
use crate::path::{join, join_path};
use crate::text::owned;

verus! {

/// The config file under the config base `base`.
pub open spec fn config_file_spec(base: Seq<char>, tool: Seq<char>) -> Seq<char> {
    join_path(join_path(base, tool), "config.toml"@)
}

/// Resolve the config path for `tool`: `explicit` when given and not empty,
/// else the tool variable's value `env_value` when set and not empty, else
/// the file under the XDG config base (`xdg_config` is `$XDG_CONFIG_HOME`).
pub fn resolve_path(tool: &str, explicit: Option<&str>, env_value: Option<&str>, xdg_config: Option<&str>) -> (r: Option<String>)
    ensures
        (explicit matches Some(p) && p@.len() > 0) ==> (r matches Some(s) && s@ == explicit->0@),
        !(explicit matches Some(p) && p@.len() > 0) && (env_value matches Some(p) && p@.len() > 0)
            ==> (r matches Some(s) && s@ == env_value->0@),
        !(explicit matches Some(p) && p@.len() > 0) && !(env_value matches Some(p) && p@.len() > 0)
            && (xdg_config matches Some(d) && d@.len() > 0)
            ==> (r matches Some(s) && s@ == config_file_spec(xdg_config->0@, tool@)),
        !(explicit matches Some(p) && p@.len() > 0) && !(env_value matches Some(p) && p@.len() > 0)
            && !(xdg_config matches Some(d) && d@.len() > 0)
            ==> (r is None || exists|b: Seq<char>| r->0@ == #[trigger] config_file_spec(join_path(b, ".config"@), tool@)),
{
    match explicit {
        Some(p) => {
            if !p.is_empty() {
                return Some(owned(p));
            }
        },
        None => {},
    }
    match env_value {
        Some(p) => {
            if !p.is_empty() {
                return Some(owned(p));
            }
        },
        None => {},
    }
    match base_dir(xdg_config, ".config") {
        Some(b) => {
            let dir = join(b.as_str(), tool);
            let f = join(dir.as_str(), "config.toml");
            proof {
                if !(xdg_config matches Some(d) && d@.len() > 0) {
                    let h = choose|h: Seq<char>| b@ == #[trigger] join_path(h, ".config"@);
                    assert(f@ == config_file_spec(join_path(h, ".config"@), tool@));
                }
            }
            Some(f)
        },
        None => None,
    }
}

} // verus!
