//! The rules behind the application's commands: the errors they report, the single
//! running import and its cancellation, and the queue of background metadata refreshes.
use vstd::prelude::*;

use crate::library::DirtyTrack;
use crate::metadata::{error_text, YouTubePlaybackError};
use crate::text::decimal_seq;

verus! {

/// An error as the user interface receives it: a stable code and a message.
#[derive(Debug)]
pub struct CommandError {
    pub code: String,
    pub message: String,
}

impl CommandError {
    /// A playback or library failure.
    pub fn from_playback(error: YouTubePlaybackError) -> (res: CommandError)
        ensures
            res.code@ == "youtube_playback_failed"@,
            res.message@ == error_text(error),
    {
        CommandError { code: String::from_str("youtube_playback_failed"), message: error.message() }
    }

    /// A malformed request on the local control socket.
    pub fn protocol_error(message: String) -> (res: CommandError)
        ensures
            res.code@ == "agent_protocol_failed"@,
            res.message == message,
    {
        CommandError { code: String::from_str("agent_protocol_failed"), message }
    }

    /// The service is shutting down or its state is unavailable.
    pub fn unavailable() -> (res: CommandError)
        ensures
            res.code@ == "service_unavailable"@,
            res.message@ == "The music service is unavailable."@,
    {
        CommandError {
            code: String::from_str("service_unavailable"),
            message: String::from_str("The music service is unavailable."),
        }
    }
}

/// Where an exported library backup was written.
#[derive(Debug)]
pub struct LibraryBackup {
    pub path: String,
}

/// The most sources one import may name.
pub const MAX_IMPORT_SOURCES: usize = 100;

/// An import names 1 to 100 sources (`invalid_import` otherwise).
pub fn validate_import_request(source_count: usize) -> (res: Result<(), CommandError>)
    ensures
        1 <= source_count <= MAX_IMPORT_SOURCES ==> res is Ok,
        !(1 <= source_count <= MAX_IMPORT_SOURCES) ==> (res matches Err(e) && e.code@
            == "invalid_import"@ && e.message@ == "Provide 1 to 100 YouTube sources."@),
{
    if source_count == 0 || source_count > MAX_IMPORT_SOURCES {
        return Err(
            CommandError {
                code: String::from_str("invalid_import"),
                message: String::from_str("Provide 1 to 100 YouTube sources."),
            },
        );
    }
    Ok(())
}

/// The import that is running, if any, by its run ID.
pub struct ImportSlot {
    pub active: Option<u64>,
}

impl ImportSlot {
    /// No import running.
    pub fn new() -> (res: ImportSlot)
        ensures
            res.active is None,
    {
        ImportSlot { active: None }
    }

    /// Starts run `run_id`; only one import runs at a time (`import_in_progress`).
    pub fn begin(&mut self, run_id: u64) -> (res: Result<(), CommandError>)
        ensures
            old(self).active is Some ==> (res matches Err(e) && e.code@ == "import_in_progress"@
                && e.message@ == "A library import is already running."@ && final(self).active
                == old(self).active),
            old(self).active is None ==> (res is Ok && final(self).active == Some(run_id)),
    {
        if self.active.is_some() {
            return Err(
                CommandError {
                    code: String::from_str("import_in_progress"),
                    message: String::from_str("A library import is already running."),
                },
            );
        }
        self.active = Some(run_id);
        Ok(())
    }

    /// Whether run `run_id` may be cancelled: only the running one (`stale_import`).
    pub fn cancel(&self, run_id: u64) -> (res: Result<(), CommandError>)
        ensures
            self.active == Some(run_id) ==> res is Ok,
            self.active != Some(run_id) ==> (res matches Err(e) && e.code@ == "stale_import"@
                && e.message@ == "This import is no longer running."@),
    {
        match self.active {
            Some(id) => if id == run_id {
                return Ok(());
            },
            None => {},
        }
        Err(
            CommandError {
                code: String::from_str("stale_import"),
                message: String::from_str("This import is no longer running."),
            },
        )
    }

    /// Run `run_id` ended; a newer run that took the slot keeps it.
    pub fn complete(&mut self, run_id: u64) -> (cleared: bool)
        ensures
            cleared == (old(self).active == Some(run_id)),
            cleared ==> final(self).active is None,
            !cleared ==> final(self).active == old(self).active,
    {
        if self.active == Some(run_id) {
            self.active = None;
            true
        } else {
            false
        }
    }
}

/// How an import ended.
#[derive(Debug, PartialEq, Eq)]
pub enum ImportOutcome {
    Completed,
    Cancelled,
    Failed(YouTubePlaybackError),
}

/// The last progress report of an import: its phase and message.
pub open spec fn final_report(outcome: ImportOutcome, saved: usize) -> (Seq<char>, Seq<char>) {
    match outcome {
        ImportOutcome::Completed => (
            "completed"@,
            "Imported "@ + decimal_seq(saved as nat) + " tracks."@,
        ),
        ImportOutcome::Cancelled => (
            "cancelled"@,
            "Import cancelled. Saved discoveries remain in the library."@,
        ),
        ImportOutcome::Failed(e) => ("failed"@, error_text(e)),
    }
}

/// The phase and message of an import's last progress report (see `final_report`).
pub fn final_progress(outcome: ImportOutcome, saved: usize) -> (res: (String, String))
    ensures
        (res.0@, res.1@) == final_report(outcome, saved),
{
    match outcome {
        ImportOutcome::Completed => {
            let mut m = String::from_str("Imported ");
            let n = crate::text::decimal_text(saved as u64);
            m.append(n.as_str());
            m.append(" tracks.");
            (String::from_str("completed"), m)
        },
        ImportOutcome::Cancelled => (
            String::from_str("cancelled"),
            String::from_str("Import cancelled. Saved discoveries remain in the library."),
        ),
        ImportOutcome::Failed(e) => (String::from_str("failed"), e.message()),
    }
}

/// Where an import run stands. Each source is resolved twice, first to discover its tracks,
/// then to refresh their metadata, and each pass is committed to the library before the
/// next one starts; the source being resolved is the one after the completed ones.
#[derive(Clone, Copy, Debug, PartialEq, Eq, Structural)]
pub struct ImportRun {
    pub total_sources: usize,
    /// Sources done with both passes.
    pub completed: usize,
    /// Whether the pass under way discovers tracks (else it refreshes their metadata).
    pub discovery: bool,
    /// Tracks saved by the committed discovery passes.
    pub saved: usize,
    /// Member-only entries that the refresh passes skipped.
    pub skipped_member_only: usize,
    /// The tracks of the pass being committed.
    pub pending: usize,
}

/// What the application reports back after it performed an import action.
#[derive(Debug)]
pub enum ImportEvent {
    /// A pass resolved: its tracks, the member-only entries it skipped, and whether the run
    /// was cancelled meanwhile.
    Resolved { tracks: usize, skipped_member_only: usize, cancelled: bool },
    /// The pass was committed to the library.
    Committed,
    /// Resolving or committing failed; whether the run was cancelled meanwhile.
    Failed { error: YouTubePlaybackError, cancelled: bool },
}

/// What the application does next in an import run.
#[derive(Debug, PartialEq, Eq)]
pub enum ImportAction {
    /// Resolve a source: discover its tracks, or refresh their metadata.
    Resolve { source: usize, discovery: bool },
    /// Commit the resolved pass to the library.
    Commit,
    /// The run ended this way.
    Finish(ImportOutcome),
}

/// An import run before its first pass.
pub open spec fn import_first(total_sources: usize) -> (ImportRun, ImportAction) {
    let run = ImportRun {
        total_sources,
        completed: 0,
        discovery: true,
        saved: 0,
        skipped_member_only: 0,
        pending: 0,
    };
    if total_sources == 0 {
        (run, ImportAction::Finish(ImportOutcome::Completed))
    } else {
        (run, ImportAction::Resolve { source: 0, discovery: true })
    }
}

/// One step of an import run. A resolved pass is committed unless the run was cancelled;
/// only refresh passes count skipped member-only entries, and only committed discovery
/// passes count saved tracks. After the discovery pass of a source comes its refresh pass,
/// then the next source; the run completes after the last one. A failure ends the run as
/// cancelled when the run was cancelled, else as failed with that error.
pub open spec fn import_next(run: ImportRun, event: ImportEvent) -> (ImportRun, ImportAction) {
    match event {
        ImportEvent::Resolved { tracks, skipped_member_only, cancelled } => {
            let counted = if run.discovery {
                run.skipped_member_only
            } else {
                (run.skipped_member_only + skipped_member_only) as usize
            };
            let next = ImportRun { skipped_member_only: counted, pending: tracks, ..run };
            if cancelled {
                (next, ImportAction::Finish(ImportOutcome::Cancelled))
            } else {
                (next, ImportAction::Commit)
            }
        },
        ImportEvent::Committed => if run.discovery {
            (
                ImportRun { saved: (run.saved + run.pending) as usize, discovery: false, pending: 0, ..run },
                ImportAction::Resolve { source: run.completed, discovery: false },
            )
        } else {
            let next = ImportRun {
                completed: (run.completed + 1) as usize,
                discovery: true,
                pending: 0,
                ..run
            };
            if run.completed + 1 < run.total_sources {
                (next, ImportAction::Resolve { source: (run.completed + 1) as usize, discovery: true })
            } else {
                (next, ImportAction::Finish(ImportOutcome::Completed))
            }
        },
        ImportEvent::Failed { error, cancelled } => (
            run,
            ImportAction::Finish(
                if cancelled {
                    ImportOutcome::Cancelled
                } else {
                    ImportOutcome::Failed(error)
                },
            ),
        ),
    }
}

/// The counts of a run fit: the pass under way, and every count it can reach, stay
/// within `usize`.
pub open spec fn import_step_fits(run: ImportRun, event: ImportEvent) -> bool {
    &&& run.completed < run.total_sources
    &&& event matches ImportEvent::Resolved { skipped_member_only, .. } ==> run.skipped_member_only
        + skipped_member_only <= usize::MAX
    &&& event is Committed ==> run.saved + run.pending <= usize::MAX
}

/// A cancelled run ends as cancelled and keeps what it saved: the tracks of the discovery
/// passes committed before the cancellation stay counted, and nothing more is committed.
pub proof fn lemma_cancel_keeps_saved_discoveries(run: ImportRun, event: ImportEvent)
    requires
        (event matches ImportEvent::Resolved { cancelled, .. } && cancelled) || (
        event matches ImportEvent::Failed { cancelled, .. } && cancelled),
    ensures
        import_next(run, event).1 matches ImportAction::Finish(ImportOutcome::Cancelled),
        import_next(run, event).0.saved == run.saved,
        import_next(run, event).0.completed == run.completed,
{
}

/// Starts an import run over `total_sources` sources (see `import_first`).
pub fn import_begin(total_sources: usize) -> (res: (ImportRun, ImportAction))
    ensures
        res == import_first(total_sources),
{
    let run = ImportRun {
        total_sources,
        completed: 0,
        discovery: true,
        saved: 0,
        skipped_member_only: 0,
        pending: 0,
    };
    if total_sources == 0 {
        (run, ImportAction::Finish(ImportOutcome::Completed))
    } else {
        (run, ImportAction::Resolve { source: 0, discovery: true })
    }
}

/// The next state and action of an import run, given what the last action gave (see
/// `import_next`); called while a pass is under way.
pub fn import_step(run: ImportRun, event: ImportEvent) -> (res: (ImportRun, ImportAction))
    requires
        import_step_fits(run, event),
    ensures
        res == import_next(run, event),
{
    match event {
        ImportEvent::Resolved { tracks, skipped_member_only, cancelled } => {
            let counted = if run.discovery {
                run.skipped_member_only
            } else {
                run.skipped_member_only + skipped_member_only
            };
            let next = ImportRun { skipped_member_only: counted, pending: tracks, ..run };
            if cancelled {
                (next, ImportAction::Finish(ImportOutcome::Cancelled))
            } else {
                (next, ImportAction::Commit)
            }
        },
        ImportEvent::Committed => if run.discovery {
            (
                ImportRun { saved: run.saved + run.pending, discovery: false, pending: 0, ..run },
                ImportAction::Resolve { source: run.completed, discovery: false },
            )
        } else {
            let next = ImportRun { completed: run.completed + 1, discovery: true, pending: 0, ..run };
            if run.completed + 1 < run.total_sources {
                (next, ImportAction::Resolve { source: run.completed + 1, discovery: true })
            } else {
                (next, ImportAction::Finish(ImportOutcome::Completed))
            }
        },
        ImportEvent::Failed { error, cancelled } => (
            run,
            ImportAction::Finish(
                if cancelled {
                    ImportOutcome::Cancelled
                } else {
                    ImportOutcome::Failed(error)
                },
            ),
        ),
    }
}

/// The progress of an import, as the import window shows it.
#[derive(Debug)]
pub struct ImportProgress {
    pub completed_sources: usize,
    pub imported_tracks: usize,
    pub message: String,
    pub phase: String,
    pub run_id: u64,
    pub skipped_member_only: usize,
    pub total_sources: usize,
}

/// The state of a metadata refresh job.
#[derive(Clone, Copy, Debug, PartialEq, Eq, Structural)]
pub enum JobState {
    Queued,
    Refreshing,
    Completed,
    Failed,
}

pub open spec fn job_state_name(s: JobState) -> Seq<char> {
    match s {
        JobState::Queued => "queued"@,
        JobState::Refreshing => "refreshing"@,
        JobState::Completed => "completed"@,
        JobState::Failed => "failed"@,
    }
}

impl JobState {
    /// The state's name in the user interface.
    pub fn as_str(self) -> (res: &'static str)
        ensures
            res@ == job_state_name(self),
    {
        proof {
            reveal_strlit("queued");
            reveal_strlit("refreshing");
            reveal_strlit("completed");
            reveal_strlit("failed");
        }
        match self {
            JobState::Queued => "queued",
            JobState::Refreshing => "refreshing",
            JobState::Completed => "completed",
            JobState::Failed => "failed",
        }
    }
}

/// One track's background metadata refresh.
#[derive(Debug)]
pub struct MetadataRefreshJob {
    pub message: String,
    pub state: JobState,
    pub track_id: String,
    pub title: String,
}

/// The mathematical value of a job.
pub struct JobView {
    pub message: Seq<char>,
    pub state: JobState,
    pub track_id: Seq<char>,
    pub title: Seq<char>,
}

impl View for MetadataRefreshJob {
    type V = JobView;

    open spec fn view(&self) -> JobView {
        JobView {
            message: self.message@,
            state: self.state,
            track_id: self.track_id@,
            title: self.title@,
        }
    }
}

impl MetadataRefreshJob {
    fn duplicate(&self) -> (res: MetadataRefreshJob)
        ensures
            res@ == self@,
    {
        MetadataRefreshJob {
            message: self.message.clone(),
            state: self.state,
            track_id: self.track_id.clone(),
            title: self.title.clone(),
        }
    }
}

pub open spec fn jobs_view(jobs: Seq<MetadataRefreshJob>) -> Seq<JobView> {
    jobs.map_values(|j: MetadataRefreshJob| j@)
}

/// What the refresh window shows.
#[derive(Debug)]
pub struct MetadataRefreshSnapshot {
    pub completed_tracks: usize,
    pub jobs: Vec<MetadataRefreshJob>,
    pub total_tracks: usize,
}

/// The queue of background metadata refreshes: every job ever queued (with its state),
/// the tracks still waiting, the IDs queued and not yet finished, whether a worker runs,
/// and the counts.
pub struct MetadataRefreshState {
    completed_tracks: usize,
    jobs: Vec<MetadataRefreshJob>,
    pending: Vec<DirtyTrack>,
    queued_ids: Vec<String>,
    running: bool,
    total_tracks: usize,
}

/// The mathematical value of the refresh queue.
#[verifier::ext_equal]
pub struct RefreshView {
    pub completed_tracks: nat,
    pub jobs: Seq<JobView>,
    pub pending: Seq<(Seq<char>, Seq<char>)>,
    pub queued_ids: Seq<Seq<char>>,
    pub running: bool,
    pub total_tracks: nat,
}

pub open spec fn dirty_view(d: DirtyTrack) -> (Seq<char>, Seq<char>) {
    (d.id@, d.title@)
}

/// A queued job of a track, waiting.
pub open spec fn queued_job(id: Seq<char>, title: Seq<char>) -> JobView {
    JobView {
        message: "Waiting for metadata refresh."@,
        state: JobState::Queued,
        track_id: id,
        title,
    }
}

/// The queue after tracks are offered: each track not queued already gets a waiting job.
pub open spec fn enqueued(v: RefreshView, tracks: Seq<(Seq<char>, Seq<char>)>) -> RefreshView
    decreases tracks.len(),
{
    if tracks.len() == 0 {
        v
    } else {
        let prev = enqueued(v, tracks.drop_last());
        let (id, title) = tracks.last();
        if prev.queued_ids.contains(id) {
            prev
        } else {
            RefreshView {
                queued_ids: prev.queued_ids.push(id),
                total_tracks: prev.total_tracks + 1,
                jobs: prev.jobs.push(queued_job(id, title)),
                pending: prev.pending.push((id, title)),
                ..prev
            }
        }
    }
}

proof fn lemma_enqueued_keeps_running(v: RefreshView, tracks: Seq<(Seq<char>, Seq<char>)>)
    ensures
        enqueued(v, tracks).running == v.running,
    decreases tracks.len(),
{
    if tracks.len() > 0 {
        lemma_enqueued_keeps_running(v, tracks.drop_last());
    }
}

/// The queue with the worker marked running or not.
pub open spec fn with_running(v: RefreshView, running: bool) -> RefreshView {
    RefreshView { running, ..v }
}

/// Taking the next waiting track: the job that starts running (if its waiting job is
/// found) and the queue after it.
pub open spec fn taken(v: RefreshView) -> (Option<JobView>, RefreshView) {
    if v.pending.len() == 0 {
        (None, v)
    } else {
        let id = v.pending[0].0;
        let rest = RefreshView { pending: v.pending.drop_first(), ..v };
        match job_index(v.jobs, id, JobState::Queued) {
            None => (None, rest),
            Some(k) => {
                let job = JobView {
                    message: "Fetching full YouTube metadata."@,
                    state: JobState::Refreshing,
                    ..v.jobs[k]
                };
                (Some(job), RefreshView { jobs: rest.jobs.update(k, job), ..rest })
            },
        }
    }
}

/// The first job of a track in a state.
pub open spec fn job_index(jobs: Seq<JobView>, id: Seq<char>, state: JobState) -> Option<int>
    decreases jobs.len(),
{
    if jobs.len() == 0 {
        None
    } else {
        match job_index(jobs.drop_last(), id, state) {
            Some(k) => Some(k),
            None => if jobs.last().track_id == id && jobs.last().state == state {
                Some(jobs.len() - 1)
            } else {
                None
            },
        }
    }
}

proof fn lemma_job_index_prefix(jobs: Seq<JobView>, id: Seq<char>, state: JobState, k: int)
    requires
        0 <= k <= jobs.len(),
        job_index(jobs.take(k), id, state) is Some,
    ensures
        job_index(jobs, id, state) == job_index(jobs.take(k), id, state),
    decreases jobs.len() - k,
{
    if k < jobs.len() {
        assert(jobs.take(k + 1).drop_last() =~= jobs.take(k));
        lemma_job_index_prefix(jobs, id, state, k + 1);
    } else {
        assert(jobs.take(k) =~= jobs);
    }
}

proof fn lemma_job_index_bounds(jobs: Seq<JobView>, id: Seq<char>, state: JobState)
    ensures
        job_index(jobs, id, state) matches Some(k) ==> 0 <= k < jobs.len() && jobs[k].track_id
            == id && jobs[k].state == state,
    decreases jobs.len(),
{
    if jobs.len() > 0 {
        lemma_job_index_bounds(jobs.drop_last(), id, state);
    }
}

/// The message and state of a finished refresh: saved, already fresh, or failed with the
/// error's text.
pub open spec fn finished_job(result: Result<bool, YouTubePlaybackError>) -> (Seq<char>, JobState) {
    match result {
        Ok(true) => ("Full metadata saved to the library."@, JobState::Completed),
        Ok(false) => ("Metadata was already refreshed."@, JobState::Completed),
        Err(e) => (error_text(e), JobState::Failed),
    }
}

/// The queue after a track's refresh ended (see `finish`).
pub open spec fn refresh_finished(v: RefreshView, id: Seq<char>, result: Result<bool, YouTubePlaybackError>) -> RefreshView {
    match job_index(v.jobs, id, JobState::Refreshing) {
        None => v,
        Some(k) => RefreshView {
            queued_ids: v.queued_ids.filter(|x: Seq<char>| x != id),
            completed_tracks: v.completed_tracks + 1,
            jobs: v.jobs.update(
                k,
                JobView { message: finished_job(result).0, state: finished_job(result).1, ..v.jobs[k] },
            ),
            ..v
        },
    }
}

/// A job that was waiting or running once the worker stopped.
pub open spec fn stopped_job(j: JobView) -> JobView {
    if j.state == JobState::Queued || j.state == JobState::Refreshing {
        JobView {
            state: JobState::Failed,
            message: "Metadata worker stopped. Retry the refresh."@,
            ..j
        }
    } else {
        j
    }
}

/// How many jobs were waiting or running.
pub open spec fn open_jobs(jobs: Seq<JobView>) -> nat
    decreases jobs.len(),
{
    if jobs.len() == 0 {
        0
    } else {
        open_jobs(jobs.drop_last()) + if jobs.last().state == JobState::Queued || jobs.last().state
            == JobState::Refreshing {
            1nat
        } else {
            0nat
        }
    }
}

/// A job waits or runs.
pub open spec fn is_open(j: JobView) -> bool {
    j.state == JobState::Queued || j.state == JobState::Refreshing
}

proof fn lemma_open_jobs_update(jobs: Seq<JobView>, k: int, j: JobView)
    requires
        0 <= k < jobs.len(),
    ensures
        open_jobs(jobs.update(k, j)) + (if is_open(jobs[k]) {
            1int
        } else {
            0int
        }) == open_jobs(jobs) + (if is_open(j) {
            1int
        } else {
            0int
        }),
    decreases jobs.len(),
{
    if k == jobs.len() - 1 {
        assert(jobs.update(k, j).drop_last() =~= jobs.drop_last());
    } else {
        lemma_open_jobs_update(jobs.drop_last(), k, j);
        assert(jobs.update(k, j).drop_last() =~= jobs.drop_last().update(k, j));
    }
}

proof fn lemma_open_jobs_prefix_bounded(jobs: Seq<JobView>, k: int)
    requires
        0 <= k <= jobs.len(),
    ensures
        open_jobs(jobs.take(k)) <= open_jobs(jobs),
    decreases jobs.len() - k,
{
    if k < jobs.len() {
        lemma_open_jobs_prefix_bounded(jobs, k + 1);
        assert(jobs.take(k + 1).drop_last() =~= jobs.take(k));
    } else {
        assert(jobs.take(k) =~= jobs);
    }
}

proof fn lemma_stopped_none_open(jobs: Seq<JobView>)
    ensures
        open_jobs(jobs.map_values(|j: JobView| stopped_job(j))) == 0,
    decreases jobs.len(),
{
    if jobs.len() > 0 {
        lemma_stopped_none_open(jobs.drop_last());
        assert(jobs.map_values(|j: JobView| stopped_job(j)).drop_last() =~= jobs.drop_last().map_values(
            |j: JobView| stopped_job(j),
        ));
    }
}

proof fn lemma_open_jobs_bounded(jobs: Seq<JobView>)
    ensures
        open_jobs(jobs) <= jobs.len(),
    decreases jobs.len(),
{
    if jobs.len() > 0 {
        lemma_open_jobs_bounded(jobs.drop_last());
    }
}

/// How many jobs failed.
pub open spec fn failed_jobs(jobs: Seq<JobView>) -> nat
    decreases jobs.len(),
{
    if jobs.len() == 0 {
        0
    } else {
        failed_jobs(jobs.drop_last()) + if jobs.last().state == JobState::Failed {
            1nat
        } else {
            0nat
        }
    }
}

/// The jobs that did not fail, in order.
pub open spec fn unfailed(jobs: Seq<JobView>) -> Seq<JobView> {
    jobs.filter(|j: JobView| j.state != JobState::Failed)
}

/// The tracks of the failed jobs, each once, in the order of their first failed job.
pub open spec fn failed_track_ids(jobs: Seq<JobView>) -> Seq<Seq<char>>
    decreases jobs.len(),
{
    if jobs.len() == 0 {
        seq![]
    } else {
        let prev = failed_track_ids(jobs.drop_last());
        if jobs.last().state == JobState::Failed && !prev.contains(jobs.last().track_id) {
            prev.push(jobs.last().track_id)
        } else {
            prev
        }
    }
}

/// The queue once its failed jobs are cleared for a retry: they leave the list and the
/// counts.
pub open spec fn retried(v: RefreshView) -> RefreshView {
    let n = failed_jobs(v.jobs);
    RefreshView {
        jobs: unfailed(v.jobs),
        completed_tracks: (v.completed_tracks - n) as nat,
        total_tracks: (v.total_tracks - n) as nat,
        ..v
    }
}

proof fn lemma_unfailed_counts(jobs: Seq<JobView>)
    ensures
        open_jobs(jobs) + failed_jobs(jobs) <= jobs.len(),
        unfailed(jobs).len() + failed_jobs(jobs) == jobs.len(),
        open_jobs(unfailed(jobs)) == open_jobs(jobs),
    decreases jobs.len(),
{
    reveal_with_fuel(Seq::filter, 1);
    if jobs.len() > 0 {
        lemma_unfailed_counts(jobs.drop_last());
        let pred = |j: JobView| j.state != JobState::Failed;
        let prev = jobs.drop_last().filter(pred);
        if pred(jobs.last()) {
            assert(unfailed(jobs) == prev.push(jobs.last()));
            assert(prev.push(jobs.last()).drop_last() =~= prev);
        } else {
            assert(unfailed(jobs) == prev);
        }
    }
}

fn find_job(jobs: &Vec<MetadataRefreshJob>, id: &String, state: JobState) -> (res: Option<usize>)
    ensures
        match res {
            Some(k) => job_index(jobs_view(jobs@), id@, state) == Some(k as int),
            None => job_index(jobs_view(jobs@), id@, state) is None,
        },
        res matches Some(k) ==> k < jobs@.len(),
{
    let ghost v = jobs_view(jobs@);
    let mut k: usize = 0;
    while k < jobs.len()
        invariant
            k <= jobs@.len(),
            v == jobs_view(jobs@),
            job_index(v.take(k as int), id@, state) is None,
        decreases jobs@.len() - k,
    {
        assert(v.take(k + 1).drop_last() =~= v.take(k as int));
        assert(v[k as int] == jobs@[k as int]@);
        if jobs[k].track_id == *id && jobs[k].state == state {
            proof {
                lemma_job_index_prefix(v, id@, state, k + 1);
            }
            return Some(k);
        }
        k = k + 1;
    }
    assert(v.take(v.len() as int) =~= v);
    None
}

impl MetadataRefreshState {
    /// The mathematical value of the queue.
    pub closed spec fn view_of(&self) -> RefreshView {
        RefreshView {
            completed_tracks: self.completed_tracks as nat,
            jobs: jobs_view(self.jobs@),
            pending: self.pending@.map_values(|d: DirtyTrack| dirty_view(d)),
            queued_ids: self.queued_ids.deep_view(),
            running: self.running,
            total_tracks: self.total_tracks as nat,
        }
    }

    /// The counts stay within the number of jobs.
    pub closed spec fn wf(&self) -> bool {
        &&& self.total_tracks == self.jobs@.len()
        &&& self.completed_tracks + open_jobs(jobs_view(self.jobs@)) == self.jobs@.len()
    }

    /// An empty queue.
    pub fn new() -> (res: MetadataRefreshState)
        ensures
            res.wf(),
            res.view_of().jobs.len() == 0,
            res.view_of().pending.len() == 0,
            res.view_of().queued_ids.len() == 0,
            !res.view_of().running,
            res.view_of().total_tracks == 0,
            res.view_of().completed_tracks == 0,
    {
        MetadataRefreshState {
            completed_tracks: 0,
            jobs: Vec::new(),
            pending: Vec::new(),
            queued_ids: Vec::new(),
            running: false,
            total_tracks: 0,
        }
    }

    /// Whether a worker runs.
    pub fn is_running(&self) -> (r: bool)
        ensures
            r == self.view_of().running,
    {
        self.running
    }

    /// Queues the tracks that are not queued already (see `enqueued`). Returns whether a
    /// worker must start: something waits and none runs (it is then marked running).
    pub fn enqueue(&mut self, tracks: Vec<DirtyTrack>) -> (start: bool)
        requires
            old(self).wf(),
            old(self).view_of().jobs.len() + tracks@.len() <= usize::MAX,
        ensures
            final(self).wf(),
            start == (enqueued(old(self).view_of(), tracks@.map_values(|d: DirtyTrack| dirty_view(d))).pending.len()
                > 0 && !old(self).view_of().running),
            final(self).view_of() == with_running(
                enqueued(old(self).view_of(), tracks@.map_values(|d: DirtyTrack| dirty_view(d))),
                old(self).view_of().running || start,
            ),
    {
        let ghost start_view = self.view_of();
        let ghost tv = tracks@.map_values(|d: DirtyTrack| dirty_view(d));
        let ghost n0 = self.jobs@.len();
        for track in it: tracks.into_iter()
            invariant
                it.seq().map_values(|d: DirtyTrack| dirty_view(d)) == tv,
                self.wf(),
                self.jobs@.len() <= n0 + it.index(),
                n0 + tv.len() <= usize::MAX,
                self.view_of() == enqueued(start_view, tv.take(it.index() as int)),
        {
            let ghost k = it.index();
            assert(tv.take(k + 1).drop_last() =~= tv.take(k as int));
            assert(tv.take(k + 1).last() == dirty_view(track));
            if !crate::library::ids_have_pub(&self.queued_ids, &track.id) {
                let ghost before = self.view_of();
                let ghost d = dirty_view(track);
                let ghost qbefore = self.queued_ids.deep_view();
                let ghost pbefore = self.pending@;
                self.queued_ids.push(track.id.clone());
                assert(self.queued_ids.deep_view() =~= qbefore.push(d.0));
                self.total_tracks = self.total_tracks + 1;
                let job = MetadataRefreshJob {
                    message: String::from_str("Waiting for metadata refresh."),
                    state: JobState::Queued,
                    track_id: track.id.clone(),
                    title: track.title.clone(),
                };
                let ghost jbefore = self.jobs@;
                self.jobs.push(job);
                assert(jobs_view(self.jobs@) =~= jobs_view(jbefore).push(queued_job(d.0, d.1)));
                assert(jobs_view(self.jobs@).drop_last() =~= jobs_view(jbefore));
                self.pending.push(track);
                assert(self.pending@.map_values(|x: DirtyTrack| dirty_view(x)) =~= pbefore.map_values(
                    |x: DirtyTrack| dirty_view(x),
                ).push(d));
                assert(self.view_of() =~= enqueued(start_view, tv.take(k + 1)));
            }
        }
        assert(tv.take(tv.len() as int) =~= tv);
        proof {
            lemma_enqueued_keeps_running(start_view, tv);
        }
        if self.pending.len() == 0 || self.running {
            return false;
        }
        self.running = true;
        true
    }

    /// Takes the next waiting track and marks its job running; `None` when nothing waits
    /// or the track's waiting job is gone.
    pub fn take_next(&mut self) -> (res: Option<MetadataRefreshJob>)
        requires
            old(self).wf(),
        ensures
            final(self).wf(),
            final(self).view_of() == taken(old(self).view_of()).1,
            match taken(old(self).view_of()).0 {
                Some(job) => res matches Some(j) && j@ == job,
                None => res is None,
            },
    {
        if self.pending.len() == 0 {
            return None;
        }
        let ghost pv = self.pending@.map_values(|d: DirtyTrack| dirty_view(d));
        let track = self.pending.remove(0);
        assert(self.pending@.map_values(|d: DirtyTrack| dirty_view(d)) =~= pv.drop_first());
        let k = match find_job(&self.jobs, &track.id, JobState::Queued) {
            Some(k) => k,
            None => return None,
        };
        let ghost jv = jobs_view(self.jobs@);
        proof {
            lemma_job_index_bounds(jv, track.id@, JobState::Queued);
        }
        let mut job = self.jobs.remove(k);
        job.message = String::from_str("Fetching full YouTube metadata.");
        job.state = JobState::Refreshing;
        let copy = job.duplicate();
        self.jobs.insert(k, job);
        assert(jobs_view(self.jobs@) =~= jv.update(k as int, copy@));
        proof {
            lemma_open_jobs_update(jv, k as int, copy@);
        }
        Some(copy)
    }

    /// Records the end of a track's refresh (see `refresh_finished`): its running job
    /// completes or fails (see `finished_job`), its ID may be queued again, and one more
    /// track is done. Nothing changes when the track has no running job.
    pub fn finish(&mut self, track_id: &str, result: Result<bool, YouTubePlaybackError>)
        requires
            old(self).wf(),
        ensures
            final(self).wf(),
            final(self).view_of() == refresh_finished(old(self).view_of(), track_id@, result),
    {
        let ghost v0 = self.view_of();
        let key = String::from_str(track_id);
        let k = match find_job(&self.jobs, &key, JobState::Refreshing) {
            Some(k) => k,
            None => return,
        };
        proof {
            lemma_job_index_bounds(jobs_view(self.jobs@), key@, JobState::Refreshing);
        }
        let ghost qv = self.queued_ids.deep_view();
        let ghost pred = |x: Seq<char>| x != track_id@;
        let mut kept: Vec<String> = Vec::new();
        let mut i: usize = 0;
        while i < self.queued_ids.len()
            invariant
                i <= self.queued_ids@.len(),
                qv == self.queued_ids.deep_view(),
                key@ == track_id@,
                pred == (|x: Seq<char>| x != track_id@),
                kept.deep_view() == qv.take(i as int).filter(pred),
            decreases self.queued_ids@.len() - i,
        {
            assert(qv.take(i + 1).drop_last() =~= qv.take(i as int));
            assert(qv[i as int] == self.queued_ids@[i as int]@);
            reveal_with_fuel(Seq::filter, 1);
            if self.queued_ids[i] != key {
                let ghost before = kept.deep_view();
                kept.push(self.queued_ids[i].clone());
                assert(kept.deep_view() =~= before.push(qv[i as int]));
            }
            i = i + 1;
        }
        assert(qv.take(qv.len() as int) =~= qv);
        self.queued_ids = kept;
        let ghost jv = jobs_view(self.jobs@);
        let mut job = self.jobs.remove(k);
        match result {
            Ok(true) => {
                job.message = String::from_str("Full metadata saved to the library.");
                job.state = JobState::Completed;
            },
            Ok(false) => {
                job.message = String::from_str("Metadata was already refreshed.");
                job.state = JobState::Completed;
            },
            Err(e) => {
                job.message = e.message();
                job.state = JobState::Failed;
            },
        }
        let ghost nj = job@;
        self.jobs.insert(k, job);
        assert(jobs_view(self.jobs@) =~= jv.update(k as int, nj));
        proof {
            lemma_open_jobs_update(jv, k as int, nj);
            lemma_open_jobs_bounded(jobs_view(self.jobs@));
        }
        self.completed_tracks = self.completed_tracks + 1;
        assert(self.view_of() =~= refresh_finished(v0, track_id@, result));
    }

    /// The worker ended normally.
    pub fn finish_worker(&mut self)
        requires
            old(self).wf(),
        ensures
            final(self).wf(),
            final(self).view_of() == with_running(old(self).view_of(), false),
    {
        self.running = false;
    }

    /// The worker stopped unexpectedly: every waiting or running job fails (and counts as
    /// done), nothing waits or stays queued, and no worker runs.
    pub fn fail_worker(&mut self)
        requires
            old(self).wf(),
        ensures
            final(self).wf(),
            final(self).view_of().jobs == old(self).view_of().jobs.map_values(
                |j: JobView| stopped_job(j),
            ),
            final(self).view_of().pending.len() == 0,
            final(self).view_of().queued_ids.len() == 0,
            !final(self).view_of().running,
            final(self).view_of().total_tracks == old(self).view_of().total_tracks,
            final(self).view_of().completed_tracks == old(self).view_of().completed_tracks
                + open_jobs(old(self).view_of().jobs),
    {
        let ghost jv = jobs_view(self.jobs@);
        let ghost c0 = self.completed_tracks as nat;
        let mut i: usize = 0;
        while i < self.jobs.len()
            invariant
                i <= self.jobs@.len(),
                jv.len() == self.jobs@.len(),
                self.total_tracks == self.jobs@.len(),
                c0 + open_jobs(jv) == jv.len(),
                jobs_view(self.jobs@) =~= jv.take(i as int).map_values(|j: JobView| stopped_job(j))
                    + jv.subrange(i as int, jv.len() as int),
                self.completed_tracks == c0 + open_jobs(jv.take(i as int)),
            decreases self.jobs@.len() - i,
        {
            assert(jv.take(i + 1).drop_last() =~= jv.take(i as int));
            assert(jobs_view(self.jobs@)[i as int] == jv[i as int]);
            proof {
                lemma_open_jobs_prefix_bounded(jv, i + 1);
            }
            let st = self.jobs[i].state;
            let ghost before = jobs_view(self.jobs@);
            if st == JobState::Queued || st == JobState::Refreshing {
                let mut job = self.jobs.remove(i);
                job.state = JobState::Failed;
                job.message = String::from_str("Metadata worker stopped. Retry the refresh.");
                let ghost jv2 = job@;
                self.jobs.insert(i, job);
                assert(jobs_view(self.jobs@) =~= before.update(i as int, jv2));
                assert(jv2 == stopped_job(jv[i as int]));
                self.completed_tracks = self.completed_tracks + 1;
            }
            assert(jobs_view(self.jobs@) =~= jv.take(i + 1).map_values(|j: JobView| stopped_job(j))
                + jv.subrange(i + 1, jv.len() as int));
            i = i + 1;
        }
        assert(jv.take(jv.len() as int) =~= jv);
        assert(jv.subrange(jv.len() as int, jv.len() as int) =~= Seq::<JobView>::empty());
        proof {
            lemma_stopped_none_open(jv);
        }
        self.pending = Vec::new();
        self.queued_ids = Vec::new();
        self.running = false;
        assert(self.view_of().pending =~= Seq::<(Seq<char>, Seq<char>)>::empty());
        assert(self.view_of().queued_ids =~= Seq::<Seq<char>>::empty());
    }

    /// Clears the failed jobs for a retry (see `retried`) and returns their tracks, each
    /// once, for queueing again.
    pub fn retry_failed(&mut self) -> (res: Vec<String>)
        requires
            old(self).wf(),
        ensures
            final(self).wf(),
            final(self).view_of() == retried(old(self).view_of()),
            res.deep_view() == failed_track_ids(old(self).view_of().jobs),
    {
        let ghost v0 = self.view_of();
        let ghost jv = jobs_view(self.jobs@);
        let ghost pred = |j: JobView| j.state != JobState::Failed;
        let mut kept: Vec<MetadataRefreshJob> = Vec::new();
        let mut ids: Vec<String> = Vec::new();
        let mut removed: usize = 0;
        let mut i: usize = 0;
        while i < self.jobs.len()
            invariant
                i <= self.jobs@.len(),
                jv == jobs_view(self.jobs@),
                pred == (|j: JobView| j.state != JobState::Failed),
                jobs_view(kept@) == jv.take(i as int).filter(pred),
                ids.deep_view() == failed_track_ids(jv.take(i as int)),
                removed == failed_jobs(jv.take(i as int)),
                removed <= i,
            decreases self.jobs@.len() - i,
        {
            assert(jv.take(i + 1).drop_last() =~= jv.take(i as int));
            assert(jv[i as int] == self.jobs@[i as int]@);
            reveal_with_fuel(Seq::filter, 1);
            if self.jobs[i].state == JobState::Failed {
                if !crate::library::ids_have_pub(&ids, &self.jobs[i].track_id) {
                    let ghost before = ids.deep_view();
                    ids.push(self.jobs[i].track_id.clone());
                    assert(ids.deep_view() =~= before.push(jv[i as int].track_id));
                }
                removed = removed + 1;
            } else {
                let ghost before = jobs_view(kept@);
                kept.push(self.jobs[i].duplicate());
                assert(jobs_view(kept@) =~= before.push(jv[i as int]));
            }
            i = i + 1;
        }
        assert(jv.take(jv.len() as int) =~= jv);
        proof {
            lemma_unfailed_counts(jv);
        }
        self.jobs = kept;
        self.completed_tracks = self.completed_tracks - removed;
        self.total_tracks = self.total_tracks - removed;
        assert(self.view_of() =~= retried(v0));
        ids
    }

    /// What the refresh window shows: the counts and every job.
    pub fn snapshot(&self) -> (res: MetadataRefreshSnapshot)
        ensures
            res.completed_tracks == self.view_of().completed_tracks,
            res.total_tracks == self.view_of().total_tracks,
            jobs_view(res.jobs@) == self.view_of().jobs,
    {
        let mut jobs: Vec<MetadataRefreshJob> = Vec::new();
        let mut i: usize = 0;
        while i < self.jobs.len()
            invariant
                i <= self.jobs@.len(),
                jobs_view(jobs@) =~= jobs_view(self.jobs@).take(i as int),
            decreases self.jobs@.len() - i,
        {
            let ghost before = jobs_view(jobs@);
            jobs.push(self.jobs[i].duplicate());
            assert(jobs_view(jobs@) =~= before.push(self.jobs@[i as int]@));
            i = i + 1;
        }
        assert(jobs_view(self.jobs@).take(self.jobs@.len() as int) =~= jobs_view(self.jobs@));
        MetadataRefreshSnapshot {
            completed_tracks: self.completed_tracks,
            jobs,
            total_tracks: self.total_tracks,
        }
    }
}

/// A request of the local control socket.
#[derive(Clone, Copy, Debug, PartialEq, Eq, Structural)]
pub enum AgentMethod {
    InspectLibrary,
    UpdateTrack,
    UpsertPlaylist,
    DeletePlaylist,
    MoveQueueItem,
}

pub open spec fn agent_method_of(name: Seq<char>) -> Option<AgentMethod> {
    if name == "library.inspect"@ {
        Some(AgentMethod::InspectLibrary)
    } else if name == "track.update"@ {
        Some(AgentMethod::UpdateTrack)
    } else if name == "playlist.upsert"@ {
        Some(AgentMethod::UpsertPlaylist)
    } else if name == "playlist.delete"@ {
        Some(AgentMethod::DeletePlaylist)
    } else if name == "queue.move"@ {
        Some(AgentMethod::MoveQueueItem)
    } else {
        None
    }
}

/// The method a control request names; an unknown one is a protocol error naming it.
pub fn agent_method(name: &str) -> (res: Result<AgentMethod, CommandError>)
    ensures
        match agent_method_of(name@) {
            Some(m) => res == Ok::<AgentMethod, CommandError>(m),
            None => res matches Err(e) && e.code@ == "agent_protocol_failed"@ && e.message@
                == "unknown method "@ + name@,
        },
{
    if crate::text::str_equal(name, "library.inspect") {
        Ok(AgentMethod::InspectLibrary)
    } else if crate::text::str_equal(name, "track.update") {
        Ok(AgentMethod::UpdateTrack)
    } else if crate::text::str_equal(name, "playlist.upsert") {
        Ok(AgentMethod::UpsertPlaylist)
    } else if crate::text::str_equal(name, "playlist.delete") {
        Ok(AgentMethod::DeletePlaylist)
    } else if crate::text::str_equal(name, "queue.move") {
        Ok(AgentMethod::MoveQueueItem)
    } else {
        let mut m = String::from_str("unknown method ");
        m.append(name);
        Err(CommandError::protocol_error(m))
    }
}

} // verus!
