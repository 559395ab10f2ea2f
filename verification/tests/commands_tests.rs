use gmusic::commands::{
    agent_method, final_progress, import_begin, import_step, validate_import_request, AgentMethod,
    CommandError, ImportAction, ImportEvent, ImportOutcome, ImportRun, ImportSlot, JobState,
    MetadataRefreshState,
};
use gmusic::library::DirtyTrack;
use gmusic::metadata::YouTubePlaybackError;

#[test]
fn worker_cleanup_preserves_new_import_runs_and_releases_failed_jobs() {
    let mut active = ImportSlot { active: Some(2) };
    assert!(!active.complete(1));
    assert_eq!(active.active, Some(2));
    assert!(active.complete(2));
    assert!(active.active.is_none());

    let mut refreshes = MetadataRefreshState::new();
    assert!(refreshes.enqueue(vec![DirtyTrack { id: "fixture".into(), title: "Fixture".into() }]));
    refreshes.take_next().unwrap();
    refreshes.fail_worker();
    assert!(!refreshes.is_running());
    let snapshot = refreshes.snapshot();
    assert_eq!(snapshot.jobs[0].state.as_str(), "failed");
    assert_eq!(snapshot.completed_tracks, 1);
    assert!(refreshes.take_next().is_none());
}

#[test]
fn cancellation_rejects_stale_runs_without_cancelling_the_current_child() {
    let mut active = ImportSlot::new();
    active.begin(2).unwrap();
    assert!(active.cancel(1).is_err());
    assert!(active.cancel(2).is_ok());
    active.complete(2);
    let error = active.cancel(2).err().unwrap();
    assert_eq!(error.code, "stale_import");
    assert_eq!(error.message, "This import is no longer running.");
}

#[test]
fn malformed_requests_return_a_structured_protocol_error() {
    let error = agent_method("not json").err().unwrap();

    assert_eq!(error.code, "agent_protocol_failed");
    assert_eq!(error.message, "unknown method not json");
    assert_eq!(agent_method("queue.move").unwrap(), AgentMethod::MoveQueueItem);
}

#[test]
fn only_one_import_runs_and_sources_are_limited() {
    let mut active = ImportSlot::new();
    active.begin(1).unwrap();
    let error = active.begin(2).err().unwrap();
    assert_eq!(error.code, "import_in_progress");
    assert_eq!(active.active, Some(1));
    assert!(validate_import_request(0).is_err());
    assert!(validate_import_request(1).is_ok());
    assert!(validate_import_request(100).is_ok());
    assert_eq!(validate_import_request(101).err().unwrap().message, "Provide 1 to 100 YouTube sources.");
}

#[test]
fn imports_end_with_a_phase_and_message() {
    assert_eq!(
        final_progress(ImportOutcome::Completed, 12),
        ("completed".to_string(), "Imported 12 tracks.".to_string())
    );
    assert_eq!(final_progress(ImportOutcome::Cancelled, 0).0, "cancelled");
    assert_eq!(
        final_progress(ImportOutcome::Failed(YouTubePlaybackError::UnsupportedUrl), 0),
        ("failed".to_string(), "only YouTube URLs are supported".to_string())
    );
    let error = CommandError::from_playback(YouTubePlaybackError::InvalidVolume);
    assert_eq!(error.code, "youtube_playback_failed");
    assert_eq!(error.message, "volume must be between 0 and 100");
}

#[test]
fn metadata_refreshes_run_each_track_once() {
    let mut refreshes = MetadataRefreshState::new();
    let track = |id: &str| DirtyTrack { id: id.into(), title: id.to_uppercase() };
    assert!(refreshes.enqueue(vec![track("a"), track("b"), track("a")]));
    assert!(!refreshes.enqueue(vec![track("b"), track("c")]));
    assert_eq!(refreshes.snapshot().total_tracks, 3);
    let job = refreshes.take_next().unwrap();
    assert_eq!(job.track_id, "a");
    assert_eq!(job.state, JobState::Refreshing);
    refreshes.finish("a", Ok(true));
    let job = refreshes.take_next().unwrap();
    refreshes.finish(&job.track_id, Err(YouTubePlaybackError::Metadata("gone".into())));
    refreshes.finish("c", Ok(false));
    let snapshot = refreshes.snapshot();
    assert_eq!(snapshot.completed_tracks, 2);
    assert_eq!(snapshot.jobs[0].message, "Full metadata saved to the library.");
    assert_eq!(snapshot.jobs[1].state, JobState::Failed);
    assert_eq!(snapshot.jobs[1].message, "could not resolve YouTube metadata: gone");
    assert_eq!(snapshot.jobs[2].state, JobState::Queued);
    refreshes.finish_worker();
    assert!(!refreshes.is_running());
    assert!(refreshes.enqueue(vec![track("a")]));
}

#[test]
fn retrying_clears_failed_jobs_from_the_counts() {
    let mut refreshes = MetadataRefreshState::new();
    refreshes.enqueue(vec![
        DirtyTrack { id: "a".into(), title: "A".into() },
        DirtyTrack { id: "b".into(), title: "B".into() },
    ]);
    refreshes.take_next().unwrap();
    refreshes.finish("a", Err(YouTubePlaybackError::Metadata("offline".into())));
    refreshes.take_next().unwrap();
    refreshes.finish("b", Ok(true));
    let before = refreshes.snapshot();
    assert_eq!((before.completed_tracks, before.total_tracks), (2, 2));

    assert_eq!(refreshes.retry_failed(), vec!["a".to_string()]);
    let after = refreshes.snapshot();
    assert_eq!((after.completed_tracks, after.total_tracks), (1, 1));
    assert_eq!(after.jobs.len(), 1);
    assert_eq!(after.jobs[0].track_id, "b");
    assert_eq!(after.jobs[0].state, JobState::Completed);
    assert!(refreshes.retry_failed().is_empty());
}

fn resolved(tracks: usize, skipped_member_only: usize) -> ImportEvent {
    ImportEvent::Resolved { tracks, skipped_member_only, cancelled: false }
}

/// Runs an import from its start, answering each action with the given events.
fn run_import(total_sources: usize, events: Vec<ImportEvent>) -> (ImportRun, Vec<ImportAction>) {
    let (mut run, action) = import_begin(total_sources);
    let mut actions = vec![action];
    for event in events {
        let (next, action) = import_step(run, event);
        run = next;
        actions.push(action);
    }
    (run, actions)
}

#[test]
fn each_source_is_discovered_then_refreshed_and_committed_after_each_pass() {
    let (run, actions) = run_import(
        2,
        vec![
            resolved(3, 0),
            ImportEvent::Committed,
            resolved(3, 1),
            ImportEvent::Committed,
            resolved(2, 0),
            ImportEvent::Committed,
            resolved(1, 2),
            ImportEvent::Committed,
        ],
    );
    assert_eq!(
        actions,
        vec![
            ImportAction::Resolve { source: 0, discovery: true },
            ImportAction::Commit,
            ImportAction::Resolve { source: 0, discovery: false },
            ImportAction::Commit,
            ImportAction::Resolve { source: 1, discovery: true },
            ImportAction::Commit,
            ImportAction::Resolve { source: 1, discovery: false },
            ImportAction::Commit,
            ImportAction::Finish(ImportOutcome::Completed),
        ]
    );
    // Saved tracks come from the discovery passes, skipped entries from the refresh passes.
    assert_eq!((run.saved, run.completed, run.skipped_member_only), (5, 2, 3));
    assert_eq!(final_progress(ImportOutcome::Completed, run.saved).1, "Imported 5 tracks.");
}

#[test]
fn an_import_without_sources_completes_at_once() {
    let (run, action) = import_begin(0);
    assert_eq!(action, ImportAction::Finish(ImportOutcome::Completed));
    assert_eq!((run.saved, run.completed), (0, 0));
}

#[test]
fn a_cancelled_import_keeps_its_saved_discoveries() {
    let (run, actions) = run_import(
        2,
        vec![
            resolved(4, 0),
            ImportEvent::Committed,
            ImportEvent::Resolved { tracks: 4, skipped_member_only: 1, cancelled: true },
        ],
    );
    assert_eq!(actions.last(), Some(&ImportAction::Finish(ImportOutcome::Cancelled)));
    assert_eq!((run.saved, run.completed, run.skipped_member_only), (4, 0, 1));
    let (_, actions) = run_import(
        1,
        vec![ImportEvent::Failed { error: YouTubePlaybackError::Metadata("import cancelled".into()), cancelled: true }],
    );
    assert_eq!(actions.last(), Some(&ImportAction::Finish(ImportOutcome::Cancelled)));
}

#[test]
fn a_failed_pass_ends_the_import_with_its_error() {
    let (run, actions) = run_import(
        3,
        vec![
            resolved(2, 0),
            ImportEvent::Committed,
            resolved(2, 0),
            ImportEvent::Committed,
            ImportEvent::Failed { error: YouTubePlaybackError::UnsupportedUrl, cancelled: false },
        ],
    );
    assert_eq!(
        actions.last(),
        Some(&ImportAction::Finish(ImportOutcome::Failed(YouTubePlaybackError::UnsupportedUrl)))
    );
    assert_eq!((run.saved, run.completed), (2, 1));
}
