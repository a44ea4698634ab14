//! The description of one entry of an archive.

use vstd::prelude::*;

verus! {

/// One entry of an archive: its name, its size before and after
/// compression, whether it is a directory, and its last modification time,
/// where known, as whole seconds since the Unix epoch and the nanoseconds
/// past that second.
#[derive(Clone, Debug)]
pub struct ArchiveEntry {
    pub name: String,
    pub size: u64,
    pub compressed_size: u64,
    pub is_dir: bool,
    pub modified: Option<(i64, u32)>,
}

} // verus!
