//! Planning a compression: the items found under the chosen paths, the
//! names they get inside the archive, the totals the progress report
//! counts against, and the options each archive entry is written with.

use vstd::prelude::*;
use crate::progress::{JobKind, JobTracker, ProgressState, nothing_to_do_message, nothing_to_do_state};
use crate::paths::{PathStyle, file_name, name_under, spec_file_name, spec_name_under};
use crate::text::{is_empty_text, spec_with_forward_slashes, with_forward_slashes};
use zip::write::FileOptions;
use zip::CompressionMethod;

verus! {

/// The compression level that the compress dialog asks for.
pub const DEFAULT_COMPRESSION_LEVEL: i32 = 6;

/// The Unix permissions stored with every archive entry (rwxr-xr-x).
pub const ENTRY_UNIX_MODE: u32 = 0o755;

/// What a path turned out to be when it was examined.
#[derive(Clone, Copy, Debug, PartialEq, Eq, Structural)]
pub enum PathKind {
    File,
    Directory,
    Other,
}

/// One item to be put into the archive: the path it is read from and the
/// name it gets inside the archive.
#[derive(Clone, Debug)]
pub struct PlannedItem {
    pub source: String,
    pub archive_name: String,
}

/// The items found for a compression, in the order they were found, and the
/// total size of the files among them.
#[derive(Clone, Debug)]
pub struct CompressionPlan {
    pub items: Vec<PlannedItem>,
    pub total_bytes: u64,
}

impl CompressionPlan {
    /// A plan with nothing in it yet.
    pub fn new() -> (plan: CompressionPlan)
        ensures
            plan.items@.len() == 0,
            plan.total_bytes == 0,
    {
        CompressionPlan { items: Vec::new(), total_bytes: 0 }
    }

    /// Adds a file of `size` bytes read from `source`, stored under
    /// `relative_name` with its backslashes turned into forward slashes.
    pub fn add_file(&mut self, source: String, relative_name: &str, size: u64)
        requires
            old(self).total_bytes + size <= u64::MAX,
        ensures
            final(self).total_bytes == old(self).total_bytes + size,
            final(self).items@.len() == old(self).items@.len() + 1,
            final(self).items@.drop_last() == old(self).items@,
            final(self).items@.last().source == source,
            final(self).items@.last().archive_name@ == spec_with_forward_slashes(relative_name@),
    {
        let archive_name = with_forward_slashes(relative_name);
        self.items.push(PlannedItem { source, archive_name });
        self.total_bytes = self.total_bytes + size;
        assert(self.items@.drop_last() =~= old(self).items@);
    }

    /// Adds a directory read from `source`, stored under `relative_name`
    /// with its backslashes turned into forward slashes.
    pub fn add_directory(&mut self, source: String, relative_name: &str)
        ensures
            final(self).total_bytes == old(self).total_bytes,
            final(self).items@.len() == old(self).items@.len() + 1,
            final(self).items@.drop_last() == old(self).items@,
            final(self).items@.last().source == source,
            final(self).items@.last().archive_name@ == spec_with_forward_slashes(relative_name@),
    {
        let archive_name = with_forward_slashes(relative_name);
        self.items.push(PlannedItem { source, archive_name });
        assert(self.items@.drop_last() =~= old(self).items@);
    }

    /// Adds the file `path` of `size` bytes, found while walking the chosen
    /// directory `chosen`: it is named relative to the parent of `chosen`
    /// (see `name_under`), with its backslashes turned into forward
    /// slashes. When `path` does not lie there, nothing is added and the
    /// result is false.
    pub fn add_found_file(&mut self, chosen: &str, path: String, size: u64, style: PathStyle) -> (added: bool)
        requires
            old(self).total_bytes + size <= u64::MAX,
        ensures
            added == spec_name_under(style, chosen@, path@) is Some,
            added ==> {
                &&& final(self).total_bytes == old(self).total_bytes + size
                &&& final(self).items@.len() == old(self).items@.len() + 1
                &&& final(self).items@.drop_last() == old(self).items@
                &&& final(self).items@.last().source == path
                &&& final(self).items@.last().archive_name@ == spec_with_forward_slashes(
                    spec_name_under(style, chosen@, path@)->0,
                )
            },
            !added ==> *final(self) == *old(self),
    {
        match name_under(chosen, path.as_str(), style) {
            Some(name) => {
                self.add_file(path, name.as_str(), size);
                true
            },
            None => false,
        }
    }

    /// Adds the directory `path`, found while walking the chosen directory
    /// `chosen`, named as `add_found_file` names a file. When `path` does not
    /// lie under the parent of `chosen`, nothing is added and the result is
    /// false.
    pub fn add_found_directory(&mut self, chosen: &str, path: String, style: PathStyle) -> (added: bool)
        ensures
            added == spec_name_under(style, chosen@, path@) is Some,
            added ==> {
                &&& final(self).total_bytes == old(self).total_bytes
                &&& final(self).items@.len() == old(self).items@.len() + 1
                &&& final(self).items@.drop_last() == old(self).items@
                &&& final(self).items@.last().source == path
                &&& final(self).items@.last().archive_name@ == spec_with_forward_slashes(
                    spec_name_under(style, chosen@, path@)->0,
                )
            },
            !added ==> *final(self) == *old(self),
    {
        match name_under(chosen, path.as_str(), style) {
            Some(name) => {
                self.add_directory(path, name.as_str());
                true
            },
            None => false,
        }
    }

    /// Adds the chosen file `path` of `size` bytes under its own file name,
    /// with its backslashes turned into forward slashes. When the path has
    /// no file name, nothing is added and the result is false.
    pub fn add_chosen_file(&mut self, path: String, size: u64, style: PathStyle) -> (added: bool)
        requires
            old(self).total_bytes + size <= u64::MAX,
        ensures
            added == spec_file_name(style, path@) is Some,
            added ==> {
                &&& final(self).total_bytes == old(self).total_bytes + size
                &&& final(self).items@.len() == old(self).items@.len() + 1
                &&& final(self).items@.drop_last() == old(self).items@
                &&& final(self).items@.last().source == path
                &&& final(self).items@.last().archive_name@ == spec_with_forward_slashes(
                    spec_file_name(style, path@)->0,
                )
            },
            !added ==> *final(self) == *old(self),
    {
        match file_name(path.as_str(), style) {
            Some(name) => {
                self.add_file(path, name.as_str(), size);
                true
            },
            None => false,
        }
    }

    /// Starts the compression: with no items there is nothing to do and the
    /// job ends at once with an error; otherwise a job over all items and
    /// the total file size begins.
    pub fn start(&self) -> (r: Result<JobTracker, ProgressState>)
        ensures
            self.items@.len() == 0 ==> (r matches Err(ProgressState::Error(m)) && m@
                == nothing_to_do_message(JobKind::Compression)),
            self.items@.len() > 0 ==> (r matches Ok(t) && {
                &&& t.wf()
                &&& t.kind == JobKind::Compression
                &&& t.files_processed == 0
                &&& t.total_files == self.items@.len()
                &&& t.bytes_processed == 0
                &&& t.total_bytes == self.total_bytes
            }),
    {
        if self.items.len() == 0 {
            Err(nothing_to_do_state(JobKind::Compression))
        } else {
            Ok(JobTracker::new(JobKind::Compression, self.items.len(), self.total_bytes))
        }
    }
}

/// What to do with a planned item when its turn comes.
#[derive(Clone, Copy, Debug, PartialEq, Eq, Structural)]
pub enum CompressStep {
    /// Copy the file's contents into a new archive entry.
    WriteFile,
    /// Add a directory entry.
    AddDirectory,
    /// Add nothing; the item still counts as processed.
    Skip,
}

/// The step for an item that is now of `kind` and goes into the archive
/// as `archive_name`: files are written, directories with a name are added,
/// anything else is skipped.
pub fn compress_step(kind: PathKind, archive_name: &str) -> (step: CompressStep)
    ensures
        kind == PathKind::File ==> step == CompressStep::WriteFile,
        kind == PathKind::Directory && archive_name@.len() > 0 ==> step
            == CompressStep::AddDirectory,
        kind == PathKind::Directory && archive_name@.len() == 0 ==> step == CompressStep::Skip,
        kind == PathKind::Other ==> step == CompressStep::Skip,
{
    match kind {
        PathKind::File => CompressStep::WriteFile,
        PathKind::Directory => {
            if is_empty_text(archive_name) {
                CompressStep::Skip
            } else {
                CompressStep::AddDirectory
            }
        },
        PathKind::Other => CompressStep::Skip,
    }
}

#[verifier::external_type_specification]
#[verifier::external_body]
pub struct ExFileOptions(FileOptions);

#[verifier::external_type_specification]
#[verifier::external_body]
pub struct ExCompressionMethod(CompressionMethod);

/// The compression level that zip `FileOptions` record for an entry (the
/// private field `compression_level` of the zip crate's source; `None`
/// asks for the method's default level).
pub uninterp spec fn options_compression_level(options: FileOptions) -> Option<i32>;

/// The Unix permission bits that zip `FileOptions` record for an entry (the
/// private field `permissions`; `None` leaves them to the writer).
pub uninterp spec fn options_permissions(options: FileOptions) -> Option<u32>;

/// Whether zip `FileOptions` record deflate as the entry's compression
/// method (the private field `compression_method`).
pub uninterp spec fn options_use_deflate(options: FileOptions) -> bool;

/// Whether a zip compression method is deflate.
pub uninterp spec fn is_deflate(method: CompressionMethod) -> bool;

/// `FileOptions::default()` of the zip crate: options that record no
/// compression level and no permissions. The compression method and the
/// other fields it sets (time stamp, large-file flag) are left unsaid.
#[verifier::external_body]
fn default_file_options() -> (options: FileOptions)
    ensures
        options_compression_level(options) is None,
        options_permissions(options) is None,
{
    FileOptions::default()
}

/// The zip crate's `CompressionMethod::Deflated`.
#[verifier::external_body]
fn deflated_method() -> (method: CompressionMethod)
    ensures
        is_deflate(method),
{
    CompressionMethod::Deflated
}

/// `FileOptions::compression_method` of the zip crate: the options with
/// their compression method replaced by `method` and the level and the
/// permissions kept.
#[verifier::external_body]
fn with_compression_method(options: FileOptions, method: CompressionMethod) -> (r: FileOptions)
    ensures
        options_use_deflate(r) == is_deflate(method),
        options_compression_level(r) == options_compression_level(options),
        options_permissions(r) == options_permissions(options),
{
    options.compression_method(method)
}

/// `FileOptions::compression_level` of the zip crate: the options with
/// their compression level replaced by `level` and the method and the
/// permissions kept.
#[verifier::external_body]
fn with_compression_level(options: FileOptions, level: Option<i32>) -> (r: FileOptions)
    ensures
        options_compression_level(r) == level,
        options_use_deflate(r) == options_use_deflate(options),
        options_permissions(r) == options_permissions(options),
{
    options.compression_level(level)
}

/// `FileOptions::unix_permissions` of the zip crate: the options with their
/// permissions replaced by the permission bits of `mode` (`mode & 0o777`)
/// and the method and the level kept.
#[verifier::external_body]
fn with_unix_permissions(options: FileOptions, mode: u32) -> (r: FileOptions)
    ensures
        options_permissions(r) == Some(mode & 0o777u32),
        options_use_deflate(r) == options_use_deflate(options),
        options_compression_level(r) == options_compression_level(options),
{
    options.unix_permissions(mode)
}

/// The options every entry of a new archive is written with: deflate
/// compression at `level`, and the permissions rwxr-xr-x.
pub fn entry_options(level: i32) -> (options: FileOptions)
    ensures
        options_use_deflate(options),
        options_compression_level(options) == Some(level),
        options_permissions(options) == Some(ENTRY_UNIX_MODE),
{
    let options = default_file_options();
    let options = with_compression_method(options, deflated_method());
    let options = with_compression_level(options, Some(level));
    assert(ENTRY_UNIX_MODE & 0o777u32 == ENTRY_UNIX_MODE) by (bit_vector);
    with_unix_permissions(options, ENTRY_UNIX_MODE)
}

} // verus!
