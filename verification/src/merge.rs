//! Moving an unpacked directory into place: which directory holds the
//! content, and what to do with each entry when merging into a target.
//! The caller reads directories and moves files.

use vstd::prelude::*;
use crate::path::BmsPath;

verus! {

/// What to do with one entry of a directory being merged.
#[derive(PartialEq, Eq, Structural, Clone, Copy, Debug)]
pub enum MergeStep {
    /// Both sides are directories: merge their contents.
    Recurse,
    /// Nothing is at the target: move the entry there.
    Move,
    /// Something else is at the target: leave the entry (and warn).
    Skip,
}

/// Merging a downloaded package into the library: directories on both
/// sides are merged first; otherwise the entry moves when the target is free.
pub fn merge_dir_step(source_is_dir: bool, target_is_dir: bool, target_exists: bool) -> (r: MergeStep)
    ensures
        r == if source_is_dir && target_is_dir {
            MergeStep::Recurse
        } else if !target_exists {
            MergeStep::Move
        } else {
            MergeStep::Skip
        },
{
    if source_is_dir && target_is_dir {
        MergeStep::Recurse
    } else if !target_exists {
        MergeStep::Move
    } else {
        MergeStep::Skip
    }
}

/// Merging an extraction into the bundle: a free target takes the entry;
/// directories on both sides are merged.
pub fn merge_entry_step(target_exists: bool, source_is_dir: bool, target_is_dir: bool) -> (r: MergeStep)
    ensures
        r == if !target_exists {
            MergeStep::Move
        } else if source_is_dir && target_is_dir {
            MergeStep::Recurse
        } else {
            MergeStep::Skip
        },
{
    if !target_exists {
        MergeStep::Move
    } else if source_is_dir && target_is_dir {
        MergeStep::Recurse
    } else {
        MergeStep::Skip
    }
}

/// The directory whose contents are merged: the only entry of `source`
/// when that is a directory (a package wrapped in one folder), else
/// `source` itself. `entries` lists `source`'s entries with whether each is
/// a directory.
pub fn source_root(source: &BmsPath, entries: &Vec<(BmsPath, bool)>) -> (r: BmsPath)
    ensures
        r@ == if entries@.len() == 1 && entries@[0].1 {
            entries@[0].0@
        } else {
            source@
        },
{
    if entries.len() == 1 && entries[0].1 {
        entries[0].0.duplicate()
    } else {
        source.duplicate()
    }
}

} // verus!
