//! The `aws-switch` tool: `~/.aws/config` editing, SSO sessions and cached
//! tokens, timestamps, and the account and role choices.

pub mod ini;
pub mod sso;
pub mod switch;
pub mod time;
pub mod stamp;
