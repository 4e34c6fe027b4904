//! Bulk re-labelling of the severity level of detection rules.
//!
//! The library holds the logic of a tuning run: the validation of the
//! override table, the lookup of a rule's new level, and the exact text
//! substitution applied to a rule file. Reading and writing files and
//! printing are left to the caller.
pub mod level;
pub mod text;
pub mod ident;
pub mod mapping;
pub mod rewrite;
pub mod rule;

use vstd::prelude::*;

verus! {

/// A tuning run: the override table is parsed with `mapping::parse`, each
/// rule's new level comes from `mapping::OverrideMap::target_for`, and a
/// matched rule file's new text from `rewrite::rewrite_level`. Rules with
/// no override are left alone.
pub struct LevelTuning {}

} // verus!
