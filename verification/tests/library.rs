use kdj_server::duplicates::{
    check_duplicate_request, duplicate_folders, duplicate_groups, duplicate_quality,
    duplicate_text, put_in_order, quality_label, unavailable_library_tracks, ConfiguredRoot, FoundTrack, Track,
    TrackSweep, TRACK_PAGE,
};
use kdj_server::folder_merge::{
    check_merge_request, check_merge_sources, check_merge_target, merge_sources, MergeAction,
    MergeRun, MergeSource,
};
use kdj_server::folder_ops::{
    delete_disposal, finish_delete, parse_disposal, DeleteResult, DeleteRun, DeletedTrack,
    FileDisposal, FileOp, FileStep, FolderRun, KnownTrack, TransferResult,
};
use kdj_server::folder_undo::{
    undo_folder_item, FolderUndoBatch, FolderUndoItem, FolderUndoOp, UndoFacts, UndoOutcome,
    UndoRun, UndoStack, UndoStep, MAX_FOLDER_UNDO_BATCHES,
};
use kdj_server::library_roots::{
    forget_root, merge_library_roots, merge_manifest_order, normalize_dest_dir,
    pick_library_roots, require_roots, scan_paths, unregister_library_roots, RegisteredRoot,
    RootCandidate,
};

fn texts(list: &[&str]) -> Vec<String> {
    list.iter().map(|text| text.to_string()).collect()
}

fn undo_item(op: FolderUndoOp) -> FolderUndoItem {
    FolderUndoItem {
        op,
        track_id: 7,
        source: "/library/source/song.mp3".into(),
        target: "/library/target/song.mp3".into(),
        created_track_id: None,
        source_platform: String::new(),
        source_key: String::new(),
        deleted: None,
    }
}

fn undo_facts(track_path: &str) -> UndoFacts {
    UndoFacts {
        target_is_file: true,
        track_path: Some(track_path.into()),
        target_path: "/library/target/song.mp3".into(),
        source_exists: false,
        parent_is_folder: true,
    }
}

#[test]
fn undo_move_restores_the_file_and_track_path() {
    let item = undo_item(FolderUndoOp::Move);
    let facts = undo_facts("/library/target/song.mp3");
    assert!(matches!(
        undo_folder_item(&item, &facts),
        UndoStep::MoveBack { folder } if folder == "/library/source"
    ));
}

#[test]
fn undo_copy_removes_the_new_file_and_track() {
    let mut item = undo_item(FolderUndoOp::Copy);
    item.created_track_id = Some(8);
    let mut facts = undo_facts("/library/target/song.mp3");
    facts.source_exists = true;
    assert!(matches!(undo_folder_item(&item, &facts), UndoStep::RemoveCopy { track_id: 8 }));
}

#[test]
fn undo_delete_restores_the_file_and_library_record() {
    let mut item = undo_item(FolderUndoOp::Delete);
    item.target = String::new();
    item.deleted = Some(3);
    let facts = UndoFacts {
        target_is_file: false,
        track_path: None,
        target_path: String::new(),
        source_exists: false,
        parent_is_folder: false,
    };
    assert!(matches!(undo_folder_item(&item, &facts), UndoStep::Restore(3)));
    item.deleted = None;
    assert!(matches!(undo_folder_item(&item, &facts), UndoStep::Refuse(_)));
}

#[test]
fn an_undo_refuses_what_changed_since() {
    let item = undo_item(FolderUndoOp::Move);
    let mut facts = undo_facts("/library/target/song.mp3");
    facts.source_exists = true;
    assert!(matches!(undo_folder_item(&item, &facts), UndoStep::Refuse(_)));
    let facts = undo_facts("/library/elsewhere.mp3");
    assert!(matches!(undo_folder_item(&item, &facts), UndoStep::Refuse(_)));
    let mut facts = undo_facts("/library/target/song.mp3");
    facts.parent_is_folder = false;
    assert!(matches!(
        undo_folder_item(&item, &facts),
        UndoStep::Refuse(reason) if reason == "原文件夹不存在：/library/source"
    ));
    let copy = undo_item(FolderUndoOp::Copy);
    let facts = undo_facts("/library/target/song.mp3");
    assert!(matches!(
        undo_folder_item(&copy, &facts),
        UndoStep::Refuse(reason) if reason == "复制操作缺少新曲目记录"
    ));
}

#[test]
fn empty_undo_status_is_not_available() {
    let stack = UndoStack::new();
    assert!(!stack.folder_undo_status().available);
    assert_eq!(stack.folder_undo_status().count, 0);
}

#[test]
fn the_oldest_batch_leaves_a_full_undo_stack() {
    let mut stack = UndoStack::new();
    for _ in 0..MAX_FOLDER_UNDO_BATCHES + 5 {
        let items = vec![undo_item(FolderUndoOp::Move), undo_item(FolderUndoOp::Move)];
        let status = stack.push_folder_undo(FolderUndoBatch { op: FolderUndoOp::Move, items });
        assert!(status.available);
        assert_eq!(status.count, 2);
        assert_eq!(status.op, Some(FolderUndoOp::Move));
    }
    assert_eq!(stack.batches.len(), MAX_FOLDER_UNDO_BATCHES);
    stack.clear_folder_undo();
    assert!(!stack.folder_undo_status().available);
    assert!(matches!(stack.latest(), Err(error) if error.status == 404 || error.status == 409));
}

#[test]
fn what_could_not_be_undone_stays() {
    let mut stack = UndoStack::new();
    let mut first = undo_item(FolderUndoOp::Move);
    first.track_id = 1;
    let mut second = undo_item(FolderUndoOp::Move);
    second.track_id = 2;
    stack.push_folder_undo(FolderUndoBatch {
        op: FolderUndoOp::Move,
        items: vec![first, second],
    });
    let batch = match stack.latest() {
        Ok(batch) => batch,
        Err(_) => panic!("a batch was pushed"),
    };
    let mut run = UndoRun::begin(&batch);
    assert_eq!(run.next().map(|item| item.track_id), Some(2));
    run.record(UndoOutcome::Undone(vec![2]));
    assert_eq!(run.next().map(|item| item.track_id), Some(1));
    run.record(UndoOutcome::Stuck("busy".into()));
    assert!(run.next().is_none());
    let reply = run.finish(&mut stack);
    assert_eq!(reply.undone, 1);
    assert_eq!(reply.track_ids, vec![2]);
    assert_eq!(reply.errors.len(), 1);
    assert_eq!(reply.status.count, 1);
}

fn known(path: &str) -> KnownTrack {
    KnownTrack {
        path: path.into(),
        is_file: true,
        source_platform: String::new(),
        source_key: String::new(),
    }
}

#[test]
fn a_transfer_is_noted_for_its_undo() {
    let mut stack = UndoStack::new();
    let mut run = FolderRun::begin(FileOp::Copy, "/library/b".into(), vec![1, 2, 3]);
    assert_eq!(run.next_id(), Some(1));
    let track = Some(known("/library/a/one.mp3"));
    assert_eq!(run.look(&track), FileStep::Transfer);
    run.record(
        &known("/library/a/one.mp3"),
        TransferResult::Done { target: "/library/b/one.mp3".into(), new_id: Some(11) },
    );
    assert_eq!(run.next_id(), Some(2));
    assert_eq!(run.look(&None), FileStep::Pass);
    assert_eq!(run.next_id(), Some(3));
    assert_eq!(run.look(&Some(known("/library/a/three.mp3"))), FileStep::Transfer);
    run.record(&known("/library/a/three.mp3"), TransferResult::Failed("full".into()));
    assert_eq!(run.next_id(), None);
    let result = run.finish(&mut stack);
    assert_eq!(result.track_ids, vec![11]);
    assert_eq!(result.errors.len(), 2);
    assert_eq!(result.undo.count, 1);
    assert_eq!(result.undo.op, Some(FolderUndoOp::Copy));
}

#[test]
fn a_deletion_goes_on_after_a_failure() {
    let mut stack = UndoStack::new();
    let mut run = DeleteRun::begin(vec![1, 2, 3, 4]);
    let deleted = |id: i64| DeletedTrack {
        id,
        path: format!("/library/{id}.mp3"),
        source_platform: String::new(),
        source_key: String::new(),
        snapshot: 40 + id as u64,
    };
    run.record(DeleteResult::Deleted(Some(deleted(1))));
    run.record(DeleteResult::Failed("locked".into()));
    run.record(DeleteResult::Unknown);
    assert_eq!(run.next_id(), Some(4));
    run.record(DeleteResult::Deleted(Some(deleted(4))));
    assert_eq!(run.next_id(), None);
    let reply = run.finish(&mut stack);
    assert_eq!(reply.removed, vec![1, 3, 4]);
    assert_eq!(reply.errors, vec![("2".to_string(), "locked".to_string())]);
    assert!(reply.undo.available);
    assert_eq!(reply.undo.count, 2);

    assert!(matches!(finish_delete(&mut stack, true, &Some(deleted(9))), Ok(s) if s.count == 1));
    assert!(matches!(finish_delete(&mut stack, true, &None), Ok(s) if !s.available));
    assert!(matches!(finish_delete(&mut stack, false, &None), Err(error) if error.status == 404));
}

#[test]
fn a_deletion_says_what_becomes_of_the_file() {
    assert!(matches!(parse_disposal("keep"), Ok(FileDisposal::Keep)));
    assert!(matches!(parse_disposal("trash"), Ok(FileDisposal::Trash)));
    assert!(matches!(parse_disposal("burn"), Err(error) if error.status == 400));
    assert!(matches!(delete_disposal(&None, false), Ok(FileDisposal::Keep)));
    assert!(delete_disposal(&Some("burn".into()), true).is_err());
}

fn candidate(path: &str, is_folder: bool) -> RootCandidate {
    RootCandidate { text: path.into(), path: path.into(), is_folder }
}

#[test]
fn adding_a_folder_registers_it_as_a_library_root() {
    let merged =
        merge_library_roots(&Vec::new(), &Vec::new(), &vec![candidate("/base/music", true)]);
    assert_eq!(merged, vec!["/base/music"]);
}

#[test]
fn a_subdirectory_of_an_existing_root_is_not_registered_again() {
    let existing = texts(&["/base"]);
    let merged = merge_library_roots(&existing, &existing, &vec![candidate("/base/温州", true)]);
    assert_eq!(merged, existing, "已经在根里的子目录不再登记");
}

#[test]
fn an_unreachable_configured_root_is_never_replaced_by_an_inferred_one() {
    let configured = texts(&["/Volumes/没插的移动硬盘/Music"]);
    let picked = pick_library_roots(&configured, &Vec::new());
    assert!(picked.roots.is_empty(), "目录不可达就是没有根，不该悄悄换一个");
    assert!(picked.adopt.is_none(), "更不能把设置改掉");
}

#[test]
fn an_empty_configuration_adopts_the_inferred_roots() {
    let picked = pick_library_roots(&Vec::new(), &texts(&["/base/music"]));
    assert_eq!(picked.roots.len(), 1);
    assert_eq!(
        picked.adopt,
        Some(vec![picked.roots[0].clone()]),
        "反推出来的要写回设置，否则设置页永远显示还没配目录"
    );
}

#[test]
fn an_empty_library_infers_nothing_and_leaves_the_settings_alone() {
    let picked = pick_library_roots(&Vec::new(), &Vec::new());
    assert!(picked.roots.is_empty());
    assert!(picked.adopt.is_none());
}

#[test]
fn nonexistent_paths_and_duplicates_are_ignored() {
    let existing = texts(&["/base/music"]);
    let merged = merge_library_roots(
        &existing,
        &existing,
        &vec![candidate("/base/music", true), candidate("/base/不存在", false)],
    );
    assert_eq!(merged, vec!["/base/music"], "重复的和不存在的都不该进去");
}

fn registered(path: &str) -> RegisteredRoot {
    RegisteredRoot { text: path.into(), path: path.into() }
}

#[test]
fn forgetting_a_root_drops_it_and_nested_registered_paths() {
    let existing = vec![
        registered("/base/music"),
        registered("/base/music/set"),
        registered("/base/other"),
    ];
    let next = unregister_library_roots(&existing, "/base/music");
    assert_eq!(next, vec!["/base/other"], "移出根目录时，登记在它底下的子路径一并拿掉");
}

#[test]
fn forgetting_a_subdir_does_not_unregister_its_root() {
    let next = unregister_library_roots(&vec![registered("/base")], "/base/温州");
    assert_eq!(next, vec!["/base"], "移出子目录只摘曲目，根目录登记还在");
}

#[test]
fn forgetting_a_root_moves_the_download_folders_below_it() {
    let settings = forget_root(
        &vec![registered("/base/music"), registered("/base/other")],
        &registered("/base/music/in"),
        &registered("/base/video"),
        "/base/music",
    )
    .unwrap();
    assert_eq!(settings.library_dirs, vec!["/base/other"]);
    assert_eq!(settings.download_dir, "/base/other");
    assert_eq!(settings.video_download_dir, "/base/video");
    assert!(forget_root(
        &vec![registered("/base/other")],
        &registered("/in"),
        &registered("/video"),
        "/base/music",
    )
    .is_none());
}

#[test]
fn reordering_folders_keeps_the_track_order_in_the_same_manifest() {
    let existing = texts(&["a.mp3", "b.mp3", "温州", "杭州"]);
    let merged = merge_manifest_order(&existing, &texts(&["杭州", "温州"]));
    assert_eq!(merged, vec!["a.mp3", "b.mp3", "杭州", "温州"]);

    let merged = merge_manifest_order(&merged, &texts(&["b.mp3", "a.mp3"]));
    assert_eq!(merged, vec!["杭州", "温州", "b.mp3", "a.mp3"]);
}

#[test]
fn empty_names_are_dropped_from_the_manifest() {
    let merged = merge_manifest_order(&texts(&["a"]), &texts(&["", "b"]));
    assert_eq!(merged, vec!["a", "b"]);
}

#[test]
fn a_library_needs_a_root() {
    assert!(matches!(require_roots(Vec::new()), Err(error) if error.status == 400));
    assert!(matches!(require_roots(texts(&["/a"])), Ok(roots) if roots == vec!["/a"]));
    assert!(scan_paths(Vec::new(), &Vec::new()).is_err());
    assert!(matches!(scan_paths(Vec::new(), &texts(&["/a"])), Ok(paths) if paths == vec!["/a"]));
    assert!(matches!(normalize_dest_dir(" ", Ok("/a".into()), true), Ok(dir) if dir.is_empty()));
    assert!(matches!(normalize_dest_dir("/a", Ok("/a".into()), true), Ok(dir) if dir == "/a"));
    assert!(normalize_dest_dir("/a", Ok("/a".into()), false).is_err());
}

fn track(id: i64) -> Track {
    Track {
        id,
        path: String::new(),
        filename: String::new(),
        title: String::new(),
        artist: String::new(),
        duration_us: None,
        format: String::new(),
        samplerate: None,
        samplerate_label: String::new(),
        bitrate: None,
        channels: None,
        size: 0,
        source_platform: String::new(),
        source_key: String::new(),
    }
}

#[test]
fn duplicate_analysis_recommends_the_lossless_copy() {
    let make = |id: i64, format: &str, bitrate: i64, size: i64| Track {
        title: "Same Song".into(),
        artist: "Artist".into(),
        duration_us: Some(180_000_000),
        format: format.into(),
        bitrate: Some(bitrate),
        samplerate: Some(44_100),
        samplerate_label: "44.1 kHz".into(),
        size,
        source_platform: "wyy".into(),
        source_key: "same".into(),
        ..track(id)
    };
    let lossy = make(1, "mp3", 320, 8_000_000);
    let lossless = make(2, "flac", 900, 30_000_000);
    let groups = duplicate_groups(&vec![lossy, lossless]);
    assert_eq!(groups.len(), 1);
    assert_eq!(groups[0].keep_id, 2);
    assert_eq!(groups[0].confidence, "high");
}

#[test]
fn optimization_distinguishes_missing_files_from_an_offline_library_root() {
    let missing = Track {
        path: "/base/online/moved.mp3".into(),
        filename: "moved.mp3".into(),
        ..track(1)
    };
    let offline = Track {
        path: "/base/offline-usb/song.mp3".into(),
        filename: "song.mp3".into(),
        ..track(2)
    };
    let state = unavailable_library_tracks(
        &vec![
            FoundTrack { track: missing, present: false },
            FoundTrack { track: offline, present: false },
        ],
        &vec![
            ConfiguredRoot { path: "/base/online".into(), online: true },
            ConfiguredRoot { path: "/base/offline-usb".into(), online: false },
        ],
        false,
    );
    assert_eq!(state.missing_tracks.len(), 1);
    assert_eq!(state.missing_tracks[0].id, 1);
    assert_eq!(state.offline_roots, vec!["/base/offline-usb"]);
    assert!(state.available_tracks.is_empty());
}

#[test]
fn duplicate_analysis_does_not_merge_different_length_versions() {
    let make = |id: i64, duration_us: u64| Track {
        title: "Same Song".into(),
        artist: "Artist".into(),
        duration_us: Some(duration_us),
        format: "flac".into(),
        ..track(id)
    };
    assert!(duplicate_groups(&vec![make(1, 180_000_000), make(2, 240_000_000)]).is_empty());
}

#[test]
fn texts_are_compared_without_case_or_marks() {
    assert_eq!(duplicate_text("Same  SONG!"), duplicate_text("same song"));
    assert_eq!(duplicate_text("ÄÖ-1"), duplicate_text("äö 1"));
    assert_ne!(duplicate_text("one"), duplicate_text("two"));
}

#[test]
fn a_better_file_scores_higher() {
    let mut low = track(1);
    low.format = "mp3".into();
    low.bitrate = Some(128);
    let mut high = track(2);
    high.format = "flac".into();
    high.bitrate = Some(900);
    assert!(duplicate_quality(&high).0 > duplicate_quality(&low).0);
    low.samplerate = Some(44_100);
    low.samplerate_label = "44.1 kHz".into();
    assert_eq!(duplicate_quality(&low).1, "MP3 · 44.1 kHz · 128 kbps");
    assert_eq!(quality_label("FLAC".into(), &high), "FLAC");
    assert_eq!(put_in_order(&vec![(1, 9), (3, 9), (3, 2)]), vec![0, 2, 1]);
}

#[test]
fn duplicates_are_looked_for_in_named_folders() {
    assert!(check_duplicate_request(false, &Vec::new()).is_err());
    assert!(check_duplicate_request(true, &Vec::new()).is_ok());
    assert_eq!(duplicate_folders(&texts(&["/a", "/a/b"]), true), vec!["/a"]);
    let mut sweep = TrackSweep::begin(false, &texts(&["/a"]));
    let page = sweep.next().unwrap();
    assert_eq!((page.folder.as_str(), page.limit, page.offset), ("/a", TRACK_PAGE, 0));
    sweep.take_page(&vec![track(1), track(2)], 2);
    assert!(sweep.next().is_none());
    assert_eq!(sweep.tracks.len(), 2);
}

#[test]
fn a_failed_merge_goes_back_step_by_step() {
    assert!(check_merge_request(&texts(&["/a"])).is_err());
    assert_eq!(merge_sources(&texts(&["/r/a", "/r/a/b", "/r/c"])), vec!["/r/a", "/r/c"]);
    let source = |path: &str| MergeSource { path: path.into(), is_folder: true };
    assert!(check_merge_sources(&vec![source("/r/a"), source("/r/c")], &texts(&["/r"])).is_ok());
    assert!(check_merge_sources(&vec![source("/r"), source("/r/c")], &texts(&["/r"])).is_err());
    assert!(check_merge_target(&texts(&["/r/a"]), "/r/a/new").is_err());

    let mut run = MergeRun::begin(texts(&["/r/a", "/r/c"]));
    assert!(matches!(run.action(), MergeAction::Move { source } if source == "/r/a"));
    run.moved("/r/a".into(), "/r/new/a".into(), &vec![5]);
    assert!(matches!(run.action(), MergeAction::Move { source } if source == "/r/c"));
    run.failed("busy".into());
    assert!(matches!(
        run.action(),
        MergeAction::PutBack { from, to } if from == "/r/new/a" && to.as_deref() == Some("/r")
    ));
    run.put_back();
    assert!(matches!(run.action(), MergeAction::GiveUp(_)));

    let mut run = MergeRun::begin(texts(&["/r/a"]));
    run.moved("/r/a".into(), "/r/new/a".into(), &vec![5]);
    assert!(matches!(run.action(), MergeAction::Finish(ids) if ids == vec![5]));
}
