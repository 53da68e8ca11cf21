use kdj_server::library_watch::{
    containing_root, is_internal_metadata, path_tasks, publish_report, rename_tasks,
    safe_to_remove, Change, ChangeBuffer, ChangeKind, PathFacts, RawChange, ReconcileReport,
    WatchList, WatchedRoot, SETTLE_TIME,
};

fn facts(path: &str, exists: bool) -> PathFacts {
    PathFacts {
        path: path.into(),
        exists,
        is_folder: false,
        is_file: exists,
        is_media: true,
    }
}

fn folder(path: &str, exists: bool) -> PathFacts {
    PathFacts {
        path: path.into(),
        exists,
        is_folder: exists,
        is_file: false,
        is_media: false,
    }
}

fn root(readable: bool) -> Vec<WatchedRoot> {
    vec![WatchedRoot { path: "/music".into(), readable }]
}

#[test]
fn an_external_create_is_imported_and_an_external_remove_is_forgotten() {
    let created = Change { kind: ChangeKind::Create, paths: vec![facts("/music/new.mp3", true)] };
    let plan = path_tasks(&vec![created], &root(true), &Vec::new());
    assert_eq!(plan.scan_paths, vec!["/music/new.mp3"]);
    assert!(plan.forget.is_empty());
    let mut report = ReconcileReport::begin(plan.folder_changed);
    report.scanned(&vec![7], &Vec::new());
    assert!(report.updated_ids.contains(&7));
    assert_eq!(report.analysis_ids, vec![7]);

    let removed = Change { kind: ChangeKind::Remove, paths: vec![facts("/music/new.mp3", false)] };
    let plan = path_tasks(&vec![removed], &root(true), &Vec::new());
    assert!(plan.scan_paths.is_empty());
    assert_eq!(plan.forget.len(), 1);
    assert_eq!(plan.forget[0].path, "/music/new.mp3");
    assert!(!plan.forget[0].folder);
    let mut report = ReconcileReport::begin(plan.folder_changed);
    report.forgot(&vec![7]);
    assert_eq!(report.removed_ids, vec![7]);
}

#[test]
fn a_complete_rename_keeps_the_track_identity_and_metadata() {
    let renamed = vec![Change {
        kind: ChangeKind::RenameBoth,
        paths: vec![facts("/music/before.mp3", false), facts("/music/after.mp3", true)],
    }];
    let tasks = rename_tasks(&renamed, &root(true));
    assert_eq!(tasks.len(), 1);
    assert_eq!(tasks[0].old_path, "/music/before.mp3");
    assert_eq!(tasks[0].new_path, "/music/after.mp3");
    assert!(!tasks[0].folder);
    let plan = path_tasks(&renamed, &root(true), &vec!["/music/before.mp3".into()]);
    assert!(plan.forget.is_empty());
    let mut report = ReconcileReport::begin(plan.folder_changed);
    report.renamed(&vec![7]);
    assert!(report.updated_ids.contains(&7));
    assert!(report.removed_ids.is_empty());
}

#[test]
fn losing_a_library_root_never_erases_its_database_records() {
    let removed = Change { kind: ChangeKind::Remove, paths: vec![folder("/music", false)] };
    let plan = path_tasks(&vec![removed], &root(false), &Vec::new());
    assert!(plan.forget.is_empty());
    assert!(!safe_to_remove("/music", &root(true)));
    assert!(!safe_to_remove("/music/a.mp3", &root(false)));
    assert!(safe_to_remove("/music/a.mp3", &root(true)));
}

#[test]
fn a_file_of_the_system_is_no_track() {
    assert!(is_internal_metadata("/music/.kdj/index.json") || is_internal_metadata("/music/.kdj"));
    assert!(!is_internal_metadata("/music/a.mp3"));
    assert!(containing_root("/music/a.mp3", &root(true)).is_some());
    assert!(containing_root("/elsewhere/a.mp3", &root(true)).is_none());
}

#[test]
fn changes_are_handed_out_when_they_have_settled() {
    let mut buffer = ChangeBuffer::new();
    assert!(buffer.take_settled(0).is_none());
    buffer.receive(
        RawChange { kind: ChangeKind::Create, paths: vec!["/music/a.mp3".into()] },
        1_000,
    );
    assert!(buffer.take_settled(1_000).is_none());
    let settled = buffer.take_settled(1_000 + SETTLE_TIME).unwrap();
    assert_eq!(settled.len(), 1);
    assert!(buffer.take_settled(u64::MAX).is_none());
    buffer.receive(
        RawChange { kind: ChangeKind::Access, paths: vec!["/music/a.mp3".into()] },
        1_000,
    );
    assert!(buffer.take_settled(u64::MAX).is_none());
}

#[test]
fn a_new_root_is_scanned_once() {
    let mut list = WatchList::new();
    assert!(list.is_new("/music"));
    list.begin_watching("/music", true);
    assert!(!list.is_new("/music"));
    assert_eq!(list.stale(&Vec::new()), vec!["/music"]);
    let mut buffer = ChangeBuffer::new();
    buffer.queue_initial_scan(&mut list, 1, 5);
    let settled = buffer.take_settled(5 + SETTLE_TIME).unwrap();
    assert_eq!(settled[0].paths, vec!["/music"]);
    buffer.queue_initial_scan(&mut list, 1, 5);
    assert!(buffer.take_settled(u64::MAX).is_none());
    list.forget("/music");
    assert!(list.is_new("/music"));
}

#[test]
fn only_unknown_tracks_are_analysed() {
    let mut report = ReconcileReport::begin(true);
    report.scanned(&vec![3, 1, 2], &vec![2]);
    report.forgot(&vec![9]);
    let plan = publish_report(&report, true);
    assert!(plan.folders);
    assert!(plan.analyze.contains(&3) && plan.analyze.contains(&1));
    assert!(!plan.analyze.contains(&2));
    assert!(publish_report(&report, false).analyze.is_empty());
}
