use vstd::prelude::*;

pub mod deletion;
pub mod editor;
pub mod fuzzy_search;
pub mod mod_loader;
pub mod id_lists;
pub mod labels;
pub mod load_order;
pub mod mod_sorter;
pub mod mod_watcher;
pub mod no_version_warning;
pub mod settings;
pub mod models;
pub mod paths;
pub mod text;
pub mod workshop;

verus! {
}
