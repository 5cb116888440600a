//! Coarse change classification of a path, read from the flag word that the
//! status source reports for it.

use vstd::prelude::*;

verus! {

/// The path is new in the index.
pub const INDEX_NEW: u32 = 0x0001;

/// The path is modified in the index.
pub const INDEX_MODIFIED: u32 = 0x0002;

/// The path is deleted from the index.
pub const INDEX_DELETED: u32 = 0x0004;

/// The path is renamed in the index.
pub const INDEX_RENAMED: u32 = 0x0008;

/// The path changed its type in the index.
pub const INDEX_TYPECHANGE: u32 = 0x0010;

/// The path is new in the working directory (untracked).
pub const WT_NEW: u32 = 0x0080;

/// The path is modified in the working directory.
pub const WT_MODIFIED: u32 = 0x0100;

/// The path is deleted from the working directory.
pub const WT_DELETED: u32 = 0x0200;

/// The path changed its type in the working directory.
pub const WT_TYPECHANGE: u32 = 0x0400;

/// The path is renamed in the working directory.
pub const WT_RENAMED: u32 = 0x0800;

/// The path is in conflict.
pub const CONFLICTED: u32 = 0x8000;

/// Every flag that records a change.
pub const CHANGE_MASK: u32 = 0x8f9f;

/// How a path differs from the last recorded snapshot.
#[derive(Clone, Copy, Debug, PartialEq, Eq, Structural)]
pub enum FileStatus {
    /// Tracked and unchanged.
    Current,
    New,
    Modified,
    Deleted,
    Renamed,
    TypeChanged,
    Conflicted,
}

/// Whether `flags` has a flag of `mask` set.
pub open spec fn has_any(flags: u32, mask: u32) -> bool {
    flags & mask != 0
}

/// The classification of a flag word. Where several flags are set the
/// first of conflict, addition, deletion, rename, type change and
/// modification decides; flags that record no change are ignored.
pub open spec fn classify(flags: u32) -> FileStatus {
    if has_any(flags, CONFLICTED) {
        FileStatus::Conflicted
    } else if has_any(flags, INDEX_NEW | WT_NEW) {
        FileStatus::New
    } else if has_any(flags, INDEX_DELETED | WT_DELETED) {
        FileStatus::Deleted
    } else if has_any(flags, INDEX_RENAMED | WT_RENAMED) {
        FileStatus::Renamed
    } else if has_any(flags, INDEX_TYPECHANGE | WT_TYPECHANGE) {
        FileStatus::TypeChanged
    } else if has_any(flags, INDEX_MODIFIED | WT_MODIFIED) {
        FileStatus::Modified
    } else {
        FileStatus::Current
    }
}

/// The classification of a per-path lookup: a lookup that failed counts as
/// a new path.
pub open spec fn classify_lookup(lookup: Option<u32>) -> FileStatus {
    match lookup {
        Some(flags) => classify(flags),
        None => FileStatus::New,
    }
}

impl FileStatus {
    /// Classifies a flag word.
    pub fn from_bits(flags: u32) -> (status: FileStatus)
        ensures
            status == classify(flags),
    {
        if flags & CONFLICTED != 0 {
            FileStatus::Conflicted
        } else if flags & (INDEX_NEW | WT_NEW) != 0 {
            FileStatus::New
        } else if flags & (INDEX_DELETED | WT_DELETED) != 0 {
            FileStatus::Deleted
        } else if flags & (INDEX_RENAMED | WT_RENAMED) != 0 {
            FileStatus::Renamed
        } else if flags & (INDEX_TYPECHANGE | WT_TYPECHANGE) != 0 {
            FileStatus::TypeChanged
        } else if flags & (INDEX_MODIFIED | WT_MODIFIED) != 0 {
            FileStatus::Modified
        } else {
            FileStatus::Current
        }
    }

    /// Classifies the outcome of a per-path lookup.
    pub fn from_lookup(lookup: Option<u32>) -> (status: FileStatus)
        ensures
            status == classify_lookup(lookup),
    {
        match lookup {
            Some(flags) => FileStatus::from_bits(flags),
            None => FileStatus::New,
        }
    }

    /// Whether the path carries a pending change.
    pub fn is_changed(self) -> (changed: bool)
        ensures
            changed == (self != FileStatus::Current),
    {
        !matches!(self, FileStatus::Current)
    }
}

/// A flag word classifies as current exactly when none of its change flags
/// is set.
pub proof fn lemma_current_iff_no_change_flag(flags: u32)
    ensures
        classify(flags) == FileStatus::Current <==> flags & CHANGE_MASK == 0,
{
    assert((flags & 0x8f9fu32 == 0) <==> (flags & 0x8000u32 == 0 && flags & 0x0081u32 == 0 && flags
        & 0x0204u32 == 0 && flags & 0x0808u32 == 0 && flags & 0x0410u32 == 0 && flags & 0x0102u32
        == 0)) by (bit_vector);
    assert(INDEX_NEW | WT_NEW == 0x0081u32) by (bit_vector);
    assert(INDEX_DELETED | WT_DELETED == 0x0204u32) by (bit_vector);
    assert(INDEX_RENAMED | WT_RENAMED == 0x0808u32) by (bit_vector);
    assert(INDEX_TYPECHANGE | WT_TYPECHANGE == 0x0410u32) by (bit_vector);
    assert(INDEX_MODIFIED | WT_MODIFIED == 0x0102u32) by (bit_vector);
}

} // verus!
