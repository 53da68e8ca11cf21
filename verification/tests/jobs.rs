use kdj_server::analysis::{
    share_out, yield_analysis_permits, AnalysisBatch, AnalysisGate, AnalysisRegistry,
    AnalysisWorker, AnalysisWriteTarget, CancelReport, InteractiveYield, WorkerAction, WorkerEvent,
};
use kdj_server::jobs::{
    backfill_unavailable, scan_done_event, scan_end, unreadable_roots_message, upgrade_end,
    upgrade_step, BackfillOutcome, MaintenanceRegistry, ScanReport, System, UpgradeReport,
    WaveformBackfill,
};
use kdj_server::rhythm::{
    job_name_of, start_decision, video_file, Request, RhythmAction, RhythmClaim, RhythmRun,
    RhythmStatuses, StartDecision,
};

#[test]
fn maintenance_jobs_are_singleflight_per_kind() {
    let mut registry = MaintenanceRegistry::default();
    assert_eq!(registry.claim_folder("folder-a".into()), ("folder-a".into(), true));
    assert_eq!(registry.claim_folder("folder-b".into()), ("folder-a".into(), false));
    assert_eq!(registry.claim_waveform("wave-a".into()), ("wave-a".into(), true));
    registry.finish_folder("wrong-id");
    assert_eq!(registry.claim_folder("folder-c".into()), ("folder-a".into(), false));
    registry.finish_folder("folder-a");
    assert_eq!(registry.claim_folder("folder-c".into()), ("folder-c".into(), true));
}

fn register(
    registry: &mut AnalysisRegistry,
    job_id: &str,
    total: usize,
    done: usize,
) -> u64 {
    registry.register(job_id, total, done, false)
}

#[test]
fn cancelling_by_id_fires_the_token_and_counts_what_is_left() {
    let mut registry = AnalysisRegistry::default();
    let cancel = register(&mut registry, "job-a", 10, 3);

    let report = registry.cancel("job-a");
    assert_eq!(report, CancelReport { canceled: 1, remaining: 7 });
    assert!(registry.is_cancelled(cancel), "分析线程要靠这个 token 停下来");
}

#[test]
fn remaining_tracks_the_live_counter() {
    let mut registry = AnalysisRegistry::default();
    register(&mut registry, "job-a", 10, 0);
    registry.record_done("job-a", 9);
    assert_eq!(registry.cancel("job-a").remaining, 1);
}

#[test]
fn an_empty_job_id_cancels_every_running_batch() {
    let mut registry = AnalysisRegistry::default();
    let a = register(&mut registry, "job-a", 10, 4);
    let b = register(&mut registry, "job-b", 5, 5);

    let report = registry.cancel("");
    assert_eq!(
        report,
        CancelReport { canceled: 2, remaining: 6 },
        "两批加起来还剩 6 首没处理"
    );
    assert!(registry.is_cancelled(a) && registry.is_cancelled(b));
}

#[test]
fn an_unknown_job_id_also_cancels_everything() {
    let mut registry = AnalysisRegistry::default();
    let a = register(&mut registry, "job-a", 8, 0);

    let report = registry.cancel("已经跑完的旧 id");
    assert_eq!(report.canceled, 1);
    assert_eq!(report.remaining, 8);
    assert!(registry.is_cancelled(a));
}

#[test]
fn cancelling_with_nothing_running_is_a_no_op() {
    let mut registry = AnalysisRegistry::default();
    let empty = CancelReport { canceled: 0, remaining: 0 };
    assert_eq!(registry.cancel(""), empty);
    assert_eq!(registry.cancel("job-a"), empty);
}

#[test]
fn a_finished_batch_is_no_longer_cancellable() {
    let mut registry = AnalysisRegistry::default();
    register(&mut registry, "job-a", 10, 10);
    assert_eq!(registry.running(), 1);

    registry.unregister("job-a");
    assert_eq!(registry.running(), 0, "跑完要注销，否则注册表只涨不减");
    assert_eq!(
        registry.cancel("job-a").canceled,
        0,
        "已结束的批次不能再被算成「停止了 1 个任务」"
    );
}

#[test]
fn stopping_analysis_does_not_kill_the_track_that_is_playing() {
    let mut registry = AnalysisRegistry::default();
    let batch = register(&mut registry, "job-batch", 500, 0);
    let now_playing = registry.register("job-now", 1, 0, true);

    let report = registry.cancel("");
    assert_eq!(report.canceled, 1, "只停批量那一批");
    assert_eq!(report.remaining, 500);
    assert!(registry.is_cancelled(batch));
    assert!(!registry.is_cancelled(now_playing), "插队分析不能被一起掐掉");
    assert_eq!(registry.running(), 1, "插队批次不占注册表");
}

#[test]
fn a_priority_batch_cannot_be_cancelled_by_its_own_id_either() {
    let mut registry = AnalysisRegistry::default();
    let now_playing = registry.register("job-now", 1, 0, true);
    assert_eq!(registry.cancel("job-now").canceled, 0);
    assert!(!registry.is_cancelled(now_playing));
}

#[test]
fn remaining_never_goes_negative() {
    let mut registry = AnalysisRegistry::default();
    register(&mut registry, "job-a", 3, 5);
    assert_eq!(registry.cancel("job-a").remaining, 0);
}

#[test]
fn a_failed_import_says_why_in_the_final_event() {
    let event = scan_done_event("job-x", 0, 0, Some("目录读不了：Permission denied".into()));
    assert_eq!(event.phase, "done");
    assert_eq!(event.error.as_deref(), Some("目录读不了：Permission denied"));
}

#[test]
fn a_successful_import_still_carries_the_error_key_as_null() {
    let event = scan_done_event("job-x", 7, 7, None);
    assert!(event.error.is_none());
    assert_eq!(event.done, 7);
    assert_eq!(event.total, 7);
}

#[test]
fn the_gate_caps_concurrency_across_batches_not_within_one() {
    let mut gate = AnalysisGate::new(2);
    let mut running = 0;
    let mut peak = 0;
    for _ in 0..12 {
        if gate.acquire() {
            running += 1;
            peak = peak.max(running);
        } else {
            gate.release();
            running -= 1;
        }
    }
    assert!(peak <= 2, "峰值 {peak}");
    while running > 0 {
        gate.release();
        running -= 1;
    }
    assert_eq!(gate.permits, 2);
}

#[test]
fn giving_way_lasts_as_long_as_someone_asks_for_it() {
    let mut state = InteractiveYield::default();
    assert!(!state.must_wait(false));
    let first = yield_analysis_permits(&mut state);
    let second = yield_analysis_permits(&mut state);
    assert!(state.must_wait(false));
    assert!(!state.must_wait(true));
    state.end(first);
    assert!(state.must_wait(false));
    state.end(second);
    assert!(!state.must_wait(false));
}

#[test]
fn work_is_shared_out_without_losing_any() {
    let shares = share_out(&vec![1, 2, 3, 4, 5], 2);
    let mut all: Vec<i64> = shares.iter().flatten().copied().collect();
    all.sort_unstable();
    assert_eq!(all, vec![1, 2, 3, 4, 5]);
    assert!(shares.len() <= 2);
}

#[test]
fn a_batch_reports_every_track_and_its_end() {
    let ids = vec![11, 12];
    let mut batch = AnalysisBatch::begin_as("job", &ids, AnalysisWriteTarget::V1).unwrap();
    let first = batch.record(11, "a.mp3");
    assert_eq!((first.done, first.total, first.track_id), (1, 2, Some(11)));
    assert_eq!(first.current, "a.mp3");
    batch.record(12, "b.mp3");
    let end = batch.end();
    assert_eq!((end.done, end.total, end.track_id), (2, 2, None));
    assert!(AnalysisBatch::begin_as("job", &Vec::new(), AnalysisWriteTarget::V1).is_none());
    let (name, batch) = AnalysisBatch::begin(&ids, AnalysisWriteTarget::BpmKeyV2);
    assert!(!name.is_empty() && batch.is_some());
}

#[test]
fn a_stopped_worker_takes_no_further_track() {
    let mut worker = AnalysisWorker::begin(vec![1, 2], false, AnalysisWriteTarget::V1, false);
    assert!(matches!(worker.action(), WorkerAction::CheckStopped));
    let action = worker.step(WorkerEvent::Stopped(true));
    assert!(matches!(action, WorkerAction::Finish));
}

#[test]
fn an_unreadable_folder_is_named() {
    let all = unreadable_roots_message(&vec!["/a".into()], true, System::Other);
    let some = unreadable_roots_message(&vec!["/a".into()], false, System::Other);
    assert!(all.contains("/a") && some.contains("/a"));
    assert_ne!(all, some);
    let android = unreadable_roots_message(&vec!["/a".into()], true, System::Android);
    assert_ne!(android, all);
}

#[test]
fn a_scan_ends_with_its_tracks_or_its_reason() {
    let report = ScanReport { track_ids: vec![3, 4], unreadable_roots: Vec::new() };
    let end = scan_end("job", Ok(report), true, false, System::Other);
    assert_eq!(end.updated, Some(vec![3, 4]));
    assert_eq!(end.event.done, 2);
    assert!(end.event.error.is_none());
    let end = scan_end("job", Err("broken".into()), true, true, System::Other);
    assert!(end.updated.is_none());
    assert_eq!(end.event.error.as_deref(), Some("broken"));
    assert!(!end.analyze);
}

#[test]
fn upgrades_and_backfills_count_what_they_did() {
    let step = upgrade_step("job", 1, 3, "/a");
    assert_eq!((step.done, step.total), (1, 3));
    let report = UpgradeReport { changed: 2, failed: 0, errors: Vec::new() };
    let end = upgrade_end("job", 3, 3, Some(report));
    assert_eq!(end.changed, Some(2));

    let (mut run, first) =
        WaveformBackfill::begin("job".into(), vec![(1, "a.mp3".into()), (2, "b.mp3".into())]);
    assert_eq!((first.done, first.total), (0, 2));
    assert_eq!(run.pending(), Some((1, "a.mp3")));
    run.record(BackfillOutcome::Prepared);
    let last = run.record(BackfillOutcome::Failed("broken".into()));
    assert_eq!(last.done, 2);
    assert_eq!(run.pending(), None);
    let end = run.end();
    assert_eq!(end.failed, Some(1));
    assert!(backfill_unavailable("job", "no tool").error.is_some());
}

#[test]
fn a_track_joins_the_rhythm_job_that_already_has_it() {
    let mut statuses = RhythmStatuses::new();
    assert!(matches!(statuses.claim("a", &vec![1, 2]), RhythmClaim::Queued(ids) if ids == vec![1, 2]));
    assert!(matches!(statuses.claim("b", &vec![1]), RhythmClaim::Joined(job) if job == "a"));
    statuses.close_job("a", &vec![1, 2]);
    assert!(matches!(statuses.claim("b", &vec![1]), RhythmClaim::Queued(_)));
}

#[test]
fn a_rhythm_run_goes_through_its_tracks() {
    let mut statuses = RhythmStatuses::new();
    statuses.claim("job", &vec![5]);
    let (mut run, action) = RhythmRun::begin("job".into(), vec![5]);
    assert!(matches!(action, RhythmAction::Admit(5)));
    assert!(matches!(run.admitted(&mut statuses, true), RhythmAction::Analyze(5)));
    let (progress, action) = run.analyzed(&mut statuses, Ok(()), false);
    assert_eq!((progress.done, progress.total), (1, 1));
    assert!(matches!(action, RhythmAction::Finish));
    run.end(&mut statuses, false);
    assert_eq!(job_name_of(0), job_name_of(0));
    assert_ne!(job_name_of(0), job_name_of(1));
}

#[test]
fn rhythm_starts_only_where_it_adds_something() {
    let plain = Request::default();
    assert!(matches!(start_decision(false, None, plain), StartDecision::Unknown));
    assert!(matches!(start_decision(true, None, plain), StartDecision::Begin));
    assert!(matches!(
        start_decision(true, Some(true), Request { precise: false, force: true }),
        StartDecision::Begin
    ));
    assert!(video_file("/a/clip.mp4"));
    assert!(!video_file("/a/song.flac"));
}

#[test]
fn no_two_batches_share_a_token() {
    let mut registry = AnalysisRegistry::default();
    let playing = registry.register("now", 1, 0, true);
    let batch = register(&mut registry, "now", 4, 1);
    assert_ne!(playing, batch);
    assert_eq!(registry.cancel("now"), CancelReport { canceled: 1, remaining: 3 });
    assert!(registry.is_cancelled(batch));
    assert!(!registry.is_cancelled(playing));
    assert_eq!(registry.take_fired(), vec![batch]);
    assert!(!registry.is_cancelled(batch));
}

#[test]
fn a_worker_gives_way_while_a_request_runs() {
    let mut requests = InteractiveYield::default();
    let first = yield_analysis_permits(&mut requests);
    let second = yield_analysis_permits(&mut requests);
    let mut worker = AnalysisWorker::begin(vec![1], false, AnalysisWriteTarget::V1, false);
    assert!(matches!(worker.step(WorkerEvent::Stopped(false)), WorkerAction::GiveWay));
    let claims = WorkerEvent::Claims(requests.active, false);
    assert!(matches!(worker.step(claims), WorkerAction::GiveWay));
    requests.end(first);
    let claims = WorkerEvent::Claims(requests.active, false);
    assert!(matches!(worker.step(claims), WorkerAction::GiveWay));
    requests.end(second);
    let claims = WorkerEvent::Claims(requests.active, false);
    assert!(matches!(worker.step(claims), WorkerAction::TakePermit));
    let mut stopped = AnalysisWorker::begin(vec![1], false, AnalysisWriteTarget::V1, false);
    stopped.step(WorkerEvent::Stopped(false));
    assert!(matches!(stopped.step(WorkerEvent::Claims(1, true)), WorkerAction::Finish));
}

#[test]
fn a_long_list_of_rhythm_states_forgets_what_has_ended() {
    let mut statuses = RhythmStatuses::new();
    let many: Vec<i64> = (0..2_001).collect();
    statuses.claim("old", &many);
    for id in 1..2_001 {
        statuses.mark_ended(id, "complete", "");
    }
    assert!(statuses.get(1).is_some());
    statuses.claim("new", &vec![5_000]);
    assert!(statuses.get(1).is_none());
    assert!(statuses.get(0).is_some_and(|status| status.job_id == "old"));
    assert!(statuses.get(5_000).is_some_and(|status| status.phase == "queued"));
}
