//! On-disk lifecycle logic for addon packages: sanitizing untrusted archive
//! entry paths, locating manifest files among extracted entries, ordering and
//! deduplicating the resulting folder records, and deciding which saved-state
//! files belong to installed addons.
//!
//! Everything here is pure computation over plain values; the surrounding
//! application performs the actual archive and filesystem work and feeds the
//! results of these functions back into it.
use vstd::prelude::*;

mod folder;
mod manifest;
mod order;
mod sanitize;
mod saved;

pub use folder::{
    AddonFolder, finalize_folders, folder_key_eq, folder_lt, has_key,
    lemma_sorted_no_duplicate_keys, lemma_sorted_unique,
    strictly_sorted,
};
pub use manifest::{
    contains_str, entry_is_manifest, has_manifest_ext, is_top_segment, spec_is_manifest,
    top_level_segments,
};
pub use order::{seq_lt, str_lt};
pub use sanitize::{
    lemma_sanitize_contained, safe_component, sanitize_entry_name, spec_keep, spec_sanitize,
};
pub use saved::{
    candidate_id, candidate_state_id, ends_lua, ends_lua_bak, id_matches, is_saved_variables_dir,
    saved_variable_matches,
};
