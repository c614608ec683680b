use vstd::prelude::*;

pub mod apps;
pub mod command_line;
pub mod config;
pub mod desktop_entry;
pub mod desktop_keys;
pub mod fuzzy;
pub mod launch;
pub mod paths;
pub mod search;
pub mod style;
pub mod text;
pub mod ui;

verus! {

} // verus!
