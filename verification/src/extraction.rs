//! Planning an extraction: the total size that the progress report counts
//! against, and what becomes of each entry of the archive.

use vstd::prelude::*;
use crate::progress::{JobKind, JobTracker, ProgressState, nothing_to_do_message, nothing_to_do_state};
use crate::text::{ends_with, spec_ends_with};

verus! {

/// The sum of the sizes that are known; unknown sizes count as nothing.
pub open spec fn sum_known_sizes(sizes: Seq<Option<u64>>) -> nat
    decreases sizes.len(),
{
    if sizes.len() == 0 {
        0
    } else {
        sum_known_sizes(sizes.drop_last()) + match sizes.last() {
            Some(n) => n as nat,
            None => 0,
        }
    }
}

/// The total size of the entries whose size could be read, or `None` when
/// that total does not fit in 64 bits.
pub fn total_known_size(sizes: &Vec<Option<u64>>) -> (total: Option<u64>)
    ensures
        total matches Some(t) ==> t == sum_known_sizes(sizes@),
        total is None <==> sum_known_sizes(sizes@) > u64::MAX,
{
    let mut total: u64 = 0;
    let mut i: usize = 0;
    while i < sizes.len()
        invariant
            i <= sizes@.len(),
            total == sum_known_sizes(sizes@.subrange(0, i as int)),
        decreases sizes@.len() - i,
    {
        let ghost prefix = sizes@.subrange(0, i + 1);
        assert(prefix.drop_last() =~= sizes@.subrange(0, i as int));
        let n: u64 = match sizes[i] {
            Some(n) => n,
            None => 0,
        };
        if total > u64::MAX - n {
            proof {
                lemma_sum_known_monotone(sizes@, i + 1, sizes@.len() as int);
                assert(sizes@.subrange(0, sizes@.len() as int) =~= sizes@);
            }
            return None;
        }
        total = total + n;
        i = i + 1;
    }
    assert(sizes@.subrange(0, sizes@.len() as int) =~= sizes@);
    Some(total)
}

/// A longer prefix of the sizes never sums to less.
proof fn lemma_sum_known_monotone(sizes: Seq<Option<u64>>, i: int, j: int)
    requires
        0 <= i <= j <= sizes.len(),
    ensures
        sum_known_sizes(sizes.subrange(0, i)) <= sum_known_sizes(sizes.subrange(0, j)),
    decreases j - i,
{
    if i < j {
        lemma_sum_known_monotone(sizes, i, j - 1);
        assert(sizes.subrange(0, j).drop_last() =~= sizes.subrange(0, j - 1));
    }
}

/// Starts the extraction of an archive with `entry_count` entries whose
/// known sizes total `total_bytes`: an empty archive ends the job at once
/// with an error.
pub fn start_extraction(entry_count: usize, total_bytes: u64) -> (r: Result<JobTracker, ProgressState>)
    ensures
        entry_count == 0 ==> (r matches Err(ProgressState::Error(m)) && m@ == nothing_to_do_message(
            JobKind::Extraction,
        )),
        entry_count > 0 ==> (r matches Ok(t) && {
            &&& t.wf()
            &&& t.kind == JobKind::Extraction
            &&& t.files_processed == 0
            &&& t.total_files == entry_count
            &&& t.bytes_processed == 0
            &&& t.total_bytes == total_bytes
        }),
{
    if entry_count == 0 {
        Err(nothing_to_do_state(JobKind::Extraction))
    } else {
        Ok(JobTracker::new(JobKind::Extraction, entry_count, total_bytes))
    }
}

/// What to do with an archive entry when its turn comes.
#[derive(Clone, Copy, Debug, PartialEq, Eq, Structural)]
pub enum ExtractStep {
    /// Leave the entry out: its name would lead outside the destination.
    Skip,
    /// Create the directory the entry stands for.
    CreateDirectory,
    /// Write the entry's contents to a file.
    WriteFile,
}

/// The step for the entry `name`; `enclosed` tells whether the name stays
/// within the destination directory. Names that do not are skipped; names
/// ending in '/' are directories; all others are files.
pub fn extract_step(name: &str, enclosed: bool) -> (step: ExtractStep)
    ensures
        !enclosed ==> step == ExtractStep::Skip,
        enclosed && spec_ends_with(name@, "/"@) ==> step == ExtractStep::CreateDirectory,
        enclosed && !spec_ends_with(name@, "/"@) ==> step == ExtractStep::WriteFile,
{
    if !enclosed {
        ExtractStep::Skip
    } else if ends_with(name, "/") {
        ExtractStep::CreateDirectory
    } else {
        ExtractStep::WriteFile
    }
}

} // verus!
