//! Building blocks shared by the tools: fuzzy ranking, the picker's state,
//! the TTL cache's pure parts, spinner frames and the colour theme.

pub mod cache;
pub mod config;
pub mod fuzzy;
pub mod keys;
pub mod styled;
pub mod picker;
pub mod refresh;
pub mod spinner;
pub mod theme;
pub mod xdg;
