//! Progress of a background archive job: the states that the user interface
//! shows, and the bookkeeping that a compression or extraction performs as it
//! walks its entries.

use vstd::prelude::*;
use crate::text::{decimal_digits, push_decimal};

verus! {

/// The byte interval between two progress reports while data is copied
/// (4 MiB).
pub const REPORT_INTERVAL: u64 = 4194304;

/// What a background job reports to the user interface.
///
/// Durations are counted in whole milliseconds; the wall-clock start of a
/// running job is kept by the caller that owns the clock.
#[derive(Clone, Debug)]
pub enum ProgressState {
    Idle,
    Scanning,
    Working {
        current_file: String,
        files_processed: usize,
        total_files: usize,
        bytes_processed: u64,
        total_bytes: u64,
    },
    Finished {
        success: bool,
        archive_name: String,
        file_count: usize,
        original_size: u64,
        compressed_size: u64,
        duration_millis: u64,
        message: String,
    },
    Error(String),
}

impl ProgressState {
    /// A job in this state has ended and its outcome is waiting to be shown.
    pub open spec fn spec_is_terminal(&self) -> bool {
        self is Finished || self is Error
    }

    /// A job in this state is still running.
    pub open spec fn spec_is_active(&self) -> bool {
        self is Scanning || self is Working
    }

    /// Whether the job has ended (finished or failed), so that its outcome
    /// is to be shown.
    pub fn is_terminal(&self) -> (r: bool)
        ensures
            r == self.spec_is_terminal(),
    {
        match self {
            ProgressState::Finished { .. } => true,
            ProgressState::Error(_) => true,
            _ => false,
        }
    }

    /// Whether the job is still scanning or copying data.
    pub fn is_active(&self) -> (r: bool)
        ensures
            r == self.spec_is_active(),
    {
        match self {
            ProgressState::Scanning => true,
            ProgressState::Working { .. } => true,
            _ => false,
        }
    }
}

/// Whether, after `count` more bytes brought the running total to
/// `bytes_processed`, a progress report is due.
pub open spec fn report_due(bytes_processed: int, count: int) -> bool {
    bytes_processed % (REPORT_INTERVAL as int) < count
}

/// Decides whether a progress report is due: the running total
/// `bytes_processed`, which already includes the last `count` bytes, lies
/// less than `count` bytes past a multiple of the report interval.
pub fn should_report(bytes_processed: u64, count: u64) -> (r: bool)
    ensures
        r == report_due(bytes_processed as int, count as int),
{
    bytes_processed % REPORT_INTERVAL < count
}

/// A report is due exactly when the running byte count passes a multiple of
/// the report interval: after `before` bytes, `count` more make the total
/// enter a new interval.
pub proof fn lemma_report_due_iff_interval_crossed(before: nat, count: nat)
    ensures
        report_due((before + count) as int, count as int) <==> (before + count)
            / (REPORT_INTERVAL as nat) > before / (REPORT_INTERVAL as nat),
{
    let m: int = REPORT_INTERVAL as int;
    let b: int = before as int;
    let c: int = count as int;
    let q: int = b / m;
    let r: int = b % m;
    vstd::arithmetic::div_mod::lemma_fundamental_div_mod(b, m);
    vstd::arithmetic::div_mod::lemma_fundamental_div_mod(r + c, m);
    let k: int = (r + c) / m;
    let rr: int = (r + c) % m;
    assert(0 <= r < m);
    assert(0 <= rr < m);
    assert(k >= 0) by {
        vstd::arithmetic::div_mod::lemma_div_pos_is_pos(r + c, m);
    }
    assert(b + c == (q + k) * m + rr) by (nonlinear_arith)
        requires
            b == m * q + r,
            r + c == m * k + rr,
    ;
    vstd::arithmetic::div_mod::lemma_fundamental_div_mod_converse(b + c, m, q + k, rr);
    if r + c < m {
        vstd::arithmetic::div_mod::lemma_fundamental_div_mod_converse(r + c, m, 0, r + c);
    } else if c < m {
        vstd::arithmetic::div_mod::lemma_fundamental_div_mod_converse(r + c, m, 1, r + c - m);
    } else {
        assert(k >= 1) by {
            vstd::arithmetic::div_mod::lemma_div_is_ordered(m, r + c, m);
            vstd::arithmetic::div_mod::lemma_div_by_self(m);
        }
    }
}

/// Which of the two archive jobs is running.
#[derive(Clone, Copy, Debug, PartialEq, Eq, Structural)]
pub enum JobKind {
    Compression,
    Extraction,
}

/// The message shown when a job of `kind` is cancelled.
pub open spec fn cancelled_message(kind: JobKind) -> Seq<char> {
    match kind {
        JobKind::Compression => "Compression cancelled."@,
        JobKind::Extraction => "Extraction cancelled."@,
    }
}

/// The message shown when a job of `kind` has nothing to work on.
pub open spec fn nothing_to_do_message(kind: JobKind) -> Seq<char> {
    match kind {
        JobKind::Compression => "No files found to compress."@,
        JobKind::Extraction => "Archive is empty."@,
    }
}

/// The message shown when a job of `kind` has processed `count` entries.
pub open spec fn success_message(kind: JobKind, count: nat) -> Seq<char> {
    match kind {
        JobKind::Compression => "Successfully created archive with "@ + decimal_digits(count)
            + " files."@,
        JobKind::Extraction => "Successfully extracted "@ + decimal_digits(count) + " files."@,
    }
}

/// The bookkeeping of a running job: the entry being processed and the
/// counts of entries and bytes processed so far, against the totals found
/// before the job started.
#[derive(Clone, Debug)]
pub struct JobTracker {
    pub kind: JobKind,
    pub current_file: String,
    pub files_processed: usize,
    pub total_files: usize,
    pub bytes_processed: u64,
    pub total_bytes: u64,
}

impl JobTracker {
    /// No more entries have been processed than the job has.
    pub open spec fn wf(&self) -> bool {
        self.files_processed <= self.total_files
    }

    /// The state that reports this job's progress.
    pub open spec fn spec_working_state(&self) -> ProgressState {
        ProgressState::Working {
            current_file: self.current_file,
            files_processed: self.files_processed,
            total_files: self.total_files,
            bytes_processed: self.bytes_processed,
            total_bytes: self.total_bytes,
        }
    }

    /// A job of `kind` over `total_files` entries holding `total_bytes` bytes,
    /// with nothing processed yet.
    pub fn new(kind: JobKind, total_files: usize, total_bytes: u64) -> (t: JobTracker)
        ensures
            t.wf(),
            t.kind == kind,
            t.current_file@ == Seq::<char>::empty(),
            t.files_processed == 0,
            t.total_files == total_files,
            t.bytes_processed == 0,
            t.total_bytes == total_bytes,
    {
        JobTracker {
            kind,
            current_file: String::new(),
            files_processed: 0,
            total_files,
            bytes_processed: 0,
            total_bytes,
        }
    }

    /// Starts work on the entry `name` and returns the report to publish.
    pub fn begin_entry(&mut self, name: String) -> (state: ProgressState)
        requires
            old(self).wf(),
            old(self).files_processed < old(self).total_files,
        ensures
            final(self).wf(),
            *final(self) == (JobTracker { current_file: name, ..*old(self) }),
            state == final(self).spec_working_state(),
            reports_job(state, *final(self)),
    {
        self.current_file = name;
        self.working_state()
    }

    /// The report of this job's progress.
    pub fn working_state(&self) -> (state: ProgressState)
        ensures
            state == self.spec_working_state(),
            state matches ProgressState::Working {
                current_file,
                files_processed,
                total_files,
                bytes_processed,
                total_bytes,
            } && {
                &&& current_file == self.current_file
                &&& files_processed == self.files_processed
                &&& total_files == self.total_files
                &&& bytes_processed == self.bytes_processed
                &&& total_bytes == self.total_bytes
            },
    {
        ProgressState::Working {
            current_file: self.current_file.clone(),
            files_processed: self.files_processed,
            total_files: self.total_files,
            bytes_processed: self.bytes_processed,
            total_bytes: self.total_bytes,
        }
    }

    /// Counts `count` more bytes of the current entry as copied, and returns
    /// a report exactly when one is due.
    pub fn record_chunk(&mut self, count: usize) -> (report: Option<ProgressState>)
        requires
            old(self).wf(),
            old(self).files_processed < old(self).total_files,
            old(self).bytes_processed + count <= u64::MAX,
        ensures
            final(self).wf(),
            *final(self) == (JobTracker {
                bytes_processed: (old(self).bytes_processed + count) as u64,
                ..*old(self)
            }),
            report is Some <==> report_due(final(self).bytes_processed as int, count as int),
            report matches Some(s) ==> s == final(self).spec_working_state() && reports_job(
                s,
                *final(self),
            ),
    {
        let c: u64 = count as u64;
        self.bytes_processed = self.bytes_processed + c;
        if should_report(self.bytes_processed, c) {
            Some(self.working_state())
        } else {
            None
        }
    }

    /// Counts the current entry as processed.
    pub fn complete_entry(&mut self)
        requires
            old(self).wf(),
            old(self).files_processed < old(self).total_files,
        ensures
            final(self).wf(),
            *final(self) == (JobTracker {
                files_processed: (old(self).files_processed + 1) as usize,
                ..*old(self)
            }),
    {
        self.files_processed = self.files_processed + 1;
    }

    /// The state that ends this job when the user cancelled it.
    pub fn cancelled_state(&self) -> (state: ProgressState)
        ensures
            state matches ProgressState::Error(m) && m@ == cancelled_message(self.kind),
    {
        match self.kind {
            JobKind::Compression => ProgressState::Error(String::from_str("Compression cancelled.")),
            JobKind::Extraction => ProgressState::Error(String::from_str("Extraction cancelled.")),
        }
    }

    /// The state that ends this job successfully. `archive_name` is the
    /// archive's file name; `archive_size` is the size of the archive that a
    /// compression wrote, and is not reported by an extraction.
    pub fn finished_state(&self, archive_name: String, archive_size: u64, duration_millis: u64) -> (state: ProgressState)
        ensures
            state matches ProgressState::Finished {
                success,
                archive_name: name,
                file_count,
                original_size,
                compressed_size,
                duration_millis: d,
                message,
            } && {
                &&& success
                &&& name == archive_name
                &&& file_count == self.files_processed
                &&& d == duration_millis
                &&& message@ == success_message(self.kind, self.files_processed as nat)
                &&& self.kind == JobKind::Compression ==> original_size == self.total_bytes
                    && compressed_size == archive_size
                &&& self.kind == JobKind::Extraction ==> original_size == 0 && compressed_size
                    == 0
            },
    {
        let mut message = match self.kind {
            JobKind::Compression => String::from_str("Successfully created archive with "),
            JobKind::Extraction => String::from_str("Successfully extracted "),
        };
        push_decimal(&mut message, self.files_processed);
        message.append(" files.");
        let (original_size, compressed_size) = match self.kind {
            JobKind::Compression => (self.total_bytes, archive_size),
            JobKind::Extraction => (0u64, 0u64),
        };
        ProgressState::Finished {
            success: true,
            archive_name,
            file_count: self.files_processed,
            original_size,
            compressed_size,
            duration_millis,
            message,
        }
    }
}

/// The state that ends a job of `kind` that found nothing to work on.
pub fn nothing_to_do_state(kind: JobKind) -> (state: ProgressState)
    ensures
        state matches ProgressState::Error(m) && m@ == nothing_to_do_message(kind),
{
    match kind {
        JobKind::Compression => ProgressState::Error(String::from_str("No files found to compress.")),
        JobKind::Extraction => ProgressState::Error(String::from_str("Archive is empty.")),
    }
}

/// What happens to a running job, as its caller observes it.
#[derive(Debug)]
pub enum JobEvent {
    /// Work on the entry with this name begins.
    EntryStarted(String),
    /// This many more bytes of the current entry were copied.
    ChunkCopied(usize),
    /// The current entry is done.
    EntryDone,
    /// The user asked the job to stop.
    Cancelled,
}

/// What the caller does after an event.
#[derive(Debug)]
pub enum JobAction {
    /// Publish this state and go on.
    Publish(ProgressState),
    /// Go on without publishing anything.
    Continue,
    /// Publish this state and end the job.
    Stop(ProgressState),
}

/// The event can happen to the job `t`: entries are started, copied and
/// finished only while some entry is still to be processed, and copied
/// bytes stay countable. A cancellation can come at any time.
pub open spec fn event_allowed(t: JobTracker, e: JobEvent) -> bool {
    match e {
        JobEvent::EntryStarted(_) => t.files_processed < t.total_files,
        JobEvent::ChunkCopied(c) => t.files_processed < t.total_files && t.bytes_processed + c
            <= u64::MAX,
        JobEvent::EntryDone => t.files_processed < t.total_files,
        JobEvent::Cancelled => true,
    }
}

/// The job after the event.
pub open spec fn spec_step(t: JobTracker, e: JobEvent) -> JobTracker {
    match e {
        JobEvent::EntryStarted(name) => JobTracker { current_file: name, ..t },
        JobEvent::ChunkCopied(c) => JobTracker {
            bytes_processed: (t.bytes_processed + c) as u64,
            ..t
        },
        JobEvent::EntryDone => JobTracker { files_processed: (t.files_processed + 1) as usize, ..t },
        JobEvent::Cancelled => t,
    }
}

/// `a` is what the job `t` asks of its caller on the event `e`: a new
/// entry is announced; a chunk is announced exactly when a report is due;
/// a finished entry asks for nothing; a cancellation ends the job with the
/// cancellation message.
pub open spec fn step_action(t: JobTracker, e: JobEvent, a: JobAction) -> bool {
    let n = spec_step(t, e);
    match e {
        JobEvent::EntryStarted(_) => a == JobAction::Publish(n.spec_working_state()),
        JobEvent::ChunkCopied(c) => if report_due(n.bytes_processed as int, c as int) {
            a == JobAction::Publish(n.spec_working_state())
        } else {
            a == JobAction::Continue
        },
        JobEvent::EntryDone => a == JobAction::Continue,
        JobEvent::Cancelled => a matches JobAction::Stop(ProgressState::Error(m)) && m@
            == cancelled_message(t.kind),
    }
}

impl JobTracker {
    /// Takes in one event of the running job and says what to do next.
    pub fn step(&mut self, event: JobEvent) -> (action: JobAction)
        requires
            old(self).wf(),
            event_allowed(*old(self), event),
        ensures
            final(self).wf(),
            *final(self) == spec_step(*old(self), event),
            step_action(*old(self), event, action),
    {
        match event {
            JobEvent::EntryStarted(name) => JobAction::Publish(self.begin_entry(name)),
            JobEvent::ChunkCopied(count) => match self.record_chunk(count) {
                Some(state) => JobAction::Publish(state),
                None => JobAction::Continue,
            },
            JobEvent::EntryDone => {
                self.complete_entry();
                JobAction::Continue
            },
            JobEvent::Cancelled => JobAction::Stop(self.cancelled_state()),
        }
    }
}

/// The job `t` after the events, one after the other.
pub open spec fn run(t: JobTracker, events: Seq<JobEvent>) -> JobTracker
    decreases events.len(),
{
    if events.len() == 0 {
        t
    } else {
        spec_step(run(t, events.drop_last()), events.last())
    }
}

/// Each of the events can happen when its turn comes.
pub open spec fn run_allowed(t: JobTracker, events: Seq<JobEvent>) -> bool
    decreases events.len(),
{
    if events.len() == 0 {
        true
    } else {
        run_allowed(t, events.drop_last()) && event_allowed(run(t, events.drop_last()), events.last())
    }
}

/// How many entries the events finish.
pub open spec fn entries_done(events: Seq<JobEvent>) -> nat
    decreases events.len(),
{
    if events.len() == 0 {
        0
    } else {
        entries_done(events.drop_last()) + if events.last() is EntryDone {
            1nat
        } else {
            0nat
        }
    }
}

/// How many bytes the events copy.
pub open spec fn bytes_copied(events: Seq<JobEvent>) -> nat
    decreases events.len(),
{
    if events.len() == 0 {
        0
    } else {
        bytes_copied(events.drop_last()) + match events.last() {
            JobEvent::ChunkCopied(c) => c as nat,
            _ => 0nat,
        }
    }
}

/// `s` is a working report that carries the fields of the job `r`
/// unchanged: its entry, its counts and its totals.
pub open spec fn reports_job(s: ProgressState, r: JobTracker) -> bool {
    s matches ProgressState::Working {
        current_file,
        files_processed,
        total_files,
        bytes_processed,
        total_bytes,
    } && {
        &&& current_file == r.current_file
        &&& files_processed == r.files_processed
        &&& total_files == r.total_files
        &&& bytes_processed == r.bytes_processed
        &&& total_bytes == r.total_bytes
    }
}

/// Every report that a step publishes is a working report of the job as
/// the step leaves it: the job's totals as they were, the bytes copied so
/// far and the entries finished so far, for both kinds of job.
pub proof fn lemma_published_report_fields(t: JobTracker, e: JobEvent, a: JobAction)
    requires
        t.wf(),
        event_allowed(t, e),
        step_action(t, e, a),
    ensures
        a matches JobAction::Publish(s) ==> {
            &&& reports_job(s, spec_step(t, e))
            &&& s matches ProgressState::Working { total_bytes, total_files, bytes_processed, .. }
                && total_bytes == t.total_bytes && total_files == t.total_files
                && bytes_processed == t.bytes_processed + (match e {
                JobEvent::ChunkCopied(c) => c as int,
                _ => 0int,
            })
        },
{
}

/// When `a` publishes a state, it is the working state of the job `r`,
/// which keeps the totals of the job `t` it started as and has finished
/// fewer entries than the job has.
pub open spec fn publishes_within(a: JobAction, t: JobTracker, r: JobTracker) -> bool {
    a matches JobAction::Publish(s) ==> {
        &&& s == r.spec_working_state()
        &&& reports_job(s, r)
        &&& r.total_files == t.total_files
        &&& r.total_bytes == t.total_bytes
        &&& r.files_processed < t.total_files
    }
}

/// The facts of one whole run.
proof fn lemma_run_end(t: JobTracker, events: Seq<JobEvent>)
    requires
        t.wf(),
        run_allowed(t, events),
    ensures
        run(t, events).wf(),
        run(t, events).kind == t.kind,
        run(t, events).total_files == t.total_files,
        run(t, events).total_bytes == t.total_bytes,
        run(t, events).files_processed == t.files_processed + entries_done(events),
        run(t, events).bytes_processed == t.bytes_processed + bytes_copied(events),
    decreases events.len(),
{
    if events.len() > 0 {
        lemma_run_end(t, events.drop_last());
    }
}

/// A prefix of an allowed run is allowed.
proof fn lemma_run_allowed_prefix(t: JobTracker, events: Seq<JobEvent>, k: int)
    requires
        run_allowed(t, events),
        0 <= k <= events.len(),
    ensures
        run_allowed(t, events.take(k)),
    decreases events.len(),
{
    if k == events.len() {
        assert(events.take(k) =~= events);
    } else {
        lemma_run_allowed_prefix(t, events.drop_last(), k);
        assert(events.drop_last().take(k) =~= events.take(k));
    }
}

/// The counts of a shorter prefix never exceed those of a longer one.
proof fn lemma_counts_grow(events: Seq<JobEvent>, i: int, j: int)
    requires
        0 <= i <= j <= events.len(),
    ensures
        entries_done(events.take(i)) <= entries_done(events.take(j)),
        bytes_copied(events.take(i)) <= bytes_copied(events.take(j)),
    decreases j - i,
{
    if i < j {
        lemma_counts_grow(events, i, j - 1);
        assert(events.take(j).drop_last() =~= events.take(j - 1));
    }
}

/// Over a whole run of a job: after every prefix of the events the job
/// keeps its kind and totals, has finished the entries and copied the bytes
/// that the prefix reports, and never more entries than it has; these
/// counts only grow; and every state the job publishes carries the job's
/// totals and its counts at that point, with fewer entries finished than
/// the job has. A job that starts from nothing
/// finishes with exactly as many entries as were reported done.
pub proof fn lemma_job_run(t: JobTracker, events: Seq<JobEvent>)
    requires
        t.wf(),
        run_allowed(t, events),
    ensures
        forall|k: int|
            0 <= k <= events.len() ==> {
                let r = #[trigger] run(t, events.take(k));
                &&& r.wf()
                &&& r.kind == t.kind
                &&& r.total_files == t.total_files
                &&& r.total_bytes == t.total_bytes
                &&& r.files_processed == t.files_processed + entries_done(events.take(k))
                &&& r.bytes_processed == t.bytes_processed + bytes_copied(events.take(k))
            },
        forall|i: int, j: int|
            0 <= i <= j <= events.len() ==> {
                &&& #[trigger] run(t, events.take(i)).files_processed <= #[trigger] run(
                    t,
                    events.take(j),
                ).files_processed
                &&& run(t, events.take(i)).bytes_processed <= run(t, events.take(j)).bytes_processed
            },
        forall|k: int, a: JobAction|
            0 <= k < events.len() && #[trigger] step_action(run(t, events.take(k)), events[k], a) ==>  publishes_within(
                a,
                t,
                run(t, events.take(k + 1)),
            ),
        t.files_processed == 0 ==> run(t, events).files_processed == entries_done(events),
{
    assert forall|k: int| 0 <= k <= events.len() implies {
        let r = #[trigger] run(t, events.take(k));
        &&& r.wf()
        &&& r.kind == t.kind
        &&& r.total_files == t.total_files
        &&& r.total_bytes == t.total_bytes
        &&& r.files_processed == t.files_processed + entries_done(events.take(k))
        &&& r.bytes_processed == t.bytes_processed + bytes_copied(events.take(k))
    } by {
        lemma_run_allowed_prefix(t, events, k);
        lemma_run_end(t, events.take(k));
    }
    assert forall|i: int, j: int| 0 <= i <= j <= events.len() implies {
        &&& #[trigger] run(t, events.take(i)).files_processed <= #[trigger] run(
            t,
            events.take(j),
        ).files_processed
        &&& run(t, events.take(i)).bytes_processed <= run(t, events.take(j)).bytes_processed
    } by {
        lemma_counts_grow(events, i, j);
        assert(run(t, events.take(i)).files_processed == t.files_processed + entries_done(
            events.take(i),
        ));
        assert(run(t, events.take(j)).files_processed == t.files_processed + entries_done(
            events.take(j),
        ));
        assert(run(t, events.take(i)).bytes_processed == t.bytes_processed + bytes_copied(
            events.take(i),
        ));
        assert(run(t, events.take(j)).bytes_processed == t.bytes_processed + bytes_copied(
            events.take(j),
        ));
    }
    assert forall|k: int, a: JobAction|
        0 <= k < events.len() && #[trigger] step_action(run(t, events.take(k)), events[k], a) implies  publishes_within(a, t, run(t, events.take(k + 1))) by {
        assert(events.take(k + 1).drop_last() =~= events.take(k));
        assert(events.take(k + 1).last() == events[k]);
        assert(run(t, events.take(k + 1)) == spec_step(run(t, events.take(k)), events[k]));
        lemma_run_allowed_prefix(t, events, k + 1);
        lemma_run_end(t, events.take(k + 1));
    }
    lemma_run_end(t, events);
    assert(events.take(events.len() as int) =~= events);
}

} // verus!
