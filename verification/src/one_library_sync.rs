//! External music libraries on removable drives: what they change here, and what is taken over.

use vstd::prelude::*;

use crate::error::{bad, check_result, plain, ApiError};
use crate::paths::{put_note, with_note};
use crate::table::Table;
use crate::text::{append_signed, same, signed_decimal};
use crate::urls::pair_views;

verus! {

// ---------------------------------------------------------------- choosing tracks

/// The numbers of tracks: each once, and none that is no number of a track.
pub open spec fn chosen(ids: Seq<i64>) -> Seq<i64>
    decreases ids.len(),
{
    if ids.len() == 0 {
        Seq::empty()
    } else {
        let before = chosen(ids.drop_last());
        if ids.last() <= 0 || before.contains(ids.last()) {
            before
        } else {
            before.push(ids.last())
        }
    }
}

fn holds_id(list: &Vec<i64>, id: i64) -> (r: bool)
    ensures
        r == list@.contains(id),
{
    let mut i: usize = 0;
    while i < list.len()
        invariant
            i <= list@.len(),
            forall|j: int| 0 <= j < i ==> list@[j] != id,
        decreases list@.len() - i,
    {
        if list[i] == id {
            return true;
        }
        i += 1;
    }
    false
}

pub fn chosen_tracks(ids: &Vec<i64>) -> (r: Vec<i64>)
    ensures
        r@ == chosen(ids@),
{
    let mut r: Vec<i64> = Vec::new();
    let mut i: usize = 0;
    assert(ids@.take(0).len() == 0);
    while i < ids.len()
        invariant
            i <= ids@.len(),
            r@ == chosen(ids@.take(i as int)),
        decreases ids@.len() - i,
    {
        assert(ids@.take(i + 1).drop_last() =~= ids@.take(i as int));
        if ids[i] > 0 && !holds_id(&r, ids[i]) {
            r.push(ids[i]);
        }
        i += 1;
    }
    assert(ids@.take(i as int) =~= ids@);
    r
}

/// A chosen track has to be known.
pub fn require_track(id: i64, known: bool) -> (r: Result<(), ApiError>)
    ensures
        check_result(r) == (if known {
            Ok(())
        } else {
            Err(plain(404, "曲目不存在："@ + signed_decimal(id as int)))
        }),
{
    if known {
        return Ok(());
    }
    let mut detail = "曲目不存在：".to_owned();
    append_signed(&mut detail, id);
    Err(ApiError::not_found(detail))
}

/// A rating between none and five.
pub open spec fn clamped_rating(rating: i64) -> i64 {
    if rating < 0 {
        0
    } else if rating > 5 {
        5
    } else {
        rating
    }
}

pub fn rating_in_range(rating: i64) -> (r: i64)
    ensures
        r == clamped_rating(rating),
        0 <= r <= 5,
{
    if rating < 0 {
        0
    } else if rating > 5 {
        5
    } else {
        rating
    }
}

// ---------------------------------------------------------------- changes on the other side

/// What was last seen of an external track.
pub struct OneLibrarySyncSnapshot {
    pub rating: i64,
    pub cover_version: String,
    pub update_count: i32,
}

#[verifier::ext_equal]
pub struct SnapshotModel {
    pub rating: i64,
    pub cover_version: Seq<char>,
    pub update_count: i32,
}

impl View for OneLibrarySyncSnapshot {
    type V = SnapshotModel;

    open spec fn view(&self) -> SnapshotModel {
        SnapshotModel {
            rating: self.rating,
            cover_version: self.cover_version@,
            update_count: self.update_count,
        }
    }
}

/// An external track as it is now.
pub struct ExternalTrack {
    pub content_id: i32,
    pub rating: i64,
    pub cover_version: String,
    pub update_count: i32,
    /// It was changed by another program.
    pub modified: bool,
}

pub open spec fn seen_of(track: ExternalTrack) -> SnapshotModel {
    SnapshotModel {
        rating: track.rating,
        cover_version: track.cover_version@,
        update_count: track.update_count,
    }
}

/// What is taken over from an external track.
#[derive(Clone, Copy, Debug, PartialEq, Eq, Structural)]
pub struct SyncPlan {
    pub rating: Option<i64>,
    pub cover: bool,
}

/// What is taken over. A track that is seen for the first time counts only where another program
/// changed it; later every difference counts.
pub open spec fn sync_plan(
    previous: Option<SnapshotModel>,
    now: SnapshotModel,
    modified: bool,
    local_rating: i64,
) -> SyncPlan {
    let (rating_changed, cover_changed) = match previous {
        None => (modified, modified),
        Some(p) => (
            p.rating != now.rating,
            p.cover_version != now.cover_version || p.update_count != now.update_count,
        ),
    };
    SyncPlan {
        rating: if rating_changed && local_rating != now.rating {
            Some(clamped_rating(now.rating))
        } else {
            None
        },
        cover: cover_changed,
    }
}

pub open spec fn sync_key(device: Seq<char>, content_id: i32) -> Seq<char> {
    device + seq!['\0'] + signed_decimal(content_id as int)
}

/// What was last seen of every external track.
pub struct OneLibrarySync {
    pub table: Table<String, OneLibrarySyncSnapshot>,
}

impl View for OneLibrarySync {
    type V = Map<Seq<char>, SnapshotModel>;

    open spec fn view(&self) -> Map<Seq<char>, SnapshotModel> {
        self.table@.map_values(|s: OneLibrarySyncSnapshot| s@)
    }
}

pub open spec fn last_seen(seen: Map<Seq<char>, SnapshotModel>, key: Seq<char>) -> Option<
    SnapshotModel,
> {
    if seen.contains_key(key) {
        Some(seen[key])
    } else {
        None
    }
}

impl OneLibrarySync {
    pub open spec fn well_formed(self) -> bool {
        self.table.well_formed()
    }

    pub fn new() -> (r: Self)
        ensures
            r.well_formed(),
            r@ == Map::<Seq<char>, SnapshotModel>::empty(),
    {
        let r = OneLibrarySync { table: Table::new() };
        assert(r@ =~= Map::<Seq<char>, SnapshotModel>::empty());
        r
    }

    /// Takes note of an external track and decides what is taken over from it.
    pub fn observe(&mut self, device: &str, track: &ExternalTrack, local_rating: i64) -> (r: SyncPlan)
        requires
            old(self).well_formed(),
        ensures
            final(self).well_formed(),
            final(self)@ == old(self)@.insert(sync_key(device@, track.content_id), seen_of(*track)),
            r == sync_plan(
                last_seen(old(self)@, sync_key(device@, track.content_id)),
                seen_of(*track),
                track.modified,
                local_rating,
            ),
    {
        let ghost before = self@;
        let mut key = device.to_owned();
        key.push('\0');
        append_signed(&mut key, track.content_id as i64);
        assert(key@ =~= sync_key(device@, track.content_id));
        let (rating_changed, cover_changed): (bool, bool) = match self.table.get(&key) {
            None => (track.modified, track.modified),
            Some(p) => {
                assert(before[key@] == p@);
                (
                    p.rating != track.rating,
                    !same(p.cover_version.as_str(), track.cover_version.as_str())
                        || p.update_count != track.update_count,
                )
            },
        };
        let seen = OneLibrarySyncSnapshot {
            rating: track.rating,
            cover_version: track.cover_version.clone(),
            update_count: track.update_count,
        };
        let ghost entry = seen@;
        let ghost name = key@;
        self.table.set(key, seen);
        assert(self@ =~= before.insert(name, entry));
        let rating = if rating_changed && local_rating != track.rating {
            Some(rating_in_range(track.rating))
        } else {
            None
        };
        SyncPlan { rating, cover: cover_changed }
    }
}

/// Looking at the same external track twice takes nothing over the second time, whatever was taken
/// over the first time.
pub proof fn an_unchanged_track_is_left_alone(
    seen: Map<Seq<char>, SnapshotModel>,
    key: Seq<char>,
    now: SnapshotModel,
    modified: bool,
    local_rating: i64,
)
    ensures
        sync_plan(last_seen(seen.insert(key, now), key), now, modified, local_rating) == (SyncPlan {
            rating: None,
            cover: false,
        }),
{
}

// ---------------------------------------------------------------- taking tracks over

/// The tracks that are asked for: each once, and none that is no number of a track.
pub open spec fn requested_ids(ids: Seq<i32>) -> Seq<i32>
    decreases ids.len(),
{
    if ids.len() == 0 {
        Seq::empty()
    } else {
        let before = requested_ids(ids.drop_last());
        if ids.last() <= 0 || before.contains(ids.last()) {
            before
        } else {
            before.push(ids.last())
        }
    }
}

fn has_content(list: &Vec<i32>, id: i32) -> (r: bool)
    ensures
        r == list@.contains(id),
{
    let mut i: usize = 0;
    while i < list.len()
        invariant
            i <= list@.len(),
            forall|j: int| 0 <= j < i ==> list@[j] != id,
        decreases list@.len() - i,
    {
        if list[i] == id {
            return true;
        }
        i += 1;
    }
    false
}

/// Takes tracks over one by one.
pub struct ImportRun {
    pub requested: Vec<i32>,
    /// The tracks of the external list.
    pub listed: Vec<i32>,
    pub next: usize,
    pub track_ids: Vec<i64>,
    pub errors: Vec<(String, String)>,
}

#[verifier::ext_equal]
pub struct ImportModel {
    pub requested: Seq<i32>,
    pub listed: Seq<i32>,
    pub next: nat,
    pub track_ids: Seq<i64>,
    pub errors: Seq<(Seq<char>, Seq<char>)>,
}

impl View for ImportRun {
    type V = ImportModel;

    open spec fn view(&self) -> ImportModel {
        ImportModel {
            requested: self.requested@,
            listed: self.listed@,
            next: self.next as nat,
            track_ids: self.track_ids@,
            errors: pair_views(self.errors@),
        }
    }
}

/// The next track of the list that is asked for.
pub open spec fn next_wanted(listed: Seq<i32>, requested: Seq<i32>, from: nat) -> nat
    decreases listed.len() - from,
{
    if from >= listed.len() || requested.contains(listed[from as int]) {
        from
    } else {
        next_wanted(listed, requested, from + 1)
    }
}

/// What came of one track.
pub enum ImportResult {
    Done(i64),
    Failed(String),
}

pub enum ImportEvent {
    Done(i64),
    Failed(Seq<char>),
}

pub open spec fn import_event(r: ImportResult) -> ImportEvent {
    match r {
        ImportResult::Done(id) => ImportEvent::Done(id),
        ImportResult::Failed(reason) => ImportEvent::Failed(reason@),
    }
}

/// Notes for the first `n` tracks that are asked for and are not in the list.
pub open spec fn with_missing(
    errors: Seq<(Seq<char>, Seq<char>)>,
    requested: Seq<i32>,
    listed: Seq<i32>,
    n: nat,
) -> Seq<(Seq<char>, Seq<char>)>
    decreases n,
{
    if n == 0 {
        errors
    } else {
        let before = with_missing(errors, requested, listed, (n - 1) as nat);
        let id = requested[n - 1];
        if listed.contains(id) {
            before
        } else {
            with_note(before, signed_decimal(id as int), "曲目不在来源 OneLibrary 列表中"@)
        }
    }
}

impl ImportModel {
    pub open spec fn after(self, event: ImportEvent) -> ImportModel {
        let id = self.listed[self.next as int];
        let next = next_wanted(self.listed, self.requested, self.next + 1);
        match event {
            ImportEvent::Done(made) => ImportModel {
                next,
                track_ids: self.track_ids.push(made),
                ..self
            },
            ImportEvent::Failed(reason) => ImportModel {
                next,
                errors: with_note(self.errors, signed_decimal(id as int), reason),
                ..self
            },
        }
    }
}

impl ImportRun {
    /// Begins with the first track that is asked for. Nothing at all is refused.
    pub fn begin(content_ids: &Vec<i32>, listed: Vec<i32>) -> (r: Result<Self, ApiError>)
        ensures
            match r {
                Ok(run) => requested_ids(content_ids@).len() > 0 && run@ == (ImportModel {
                    requested: requested_ids(content_ids@),
                    listed: listed@,
                    next: next_wanted(listed@, requested_ids(content_ids@), 0),
                    track_ids: Seq::empty(),
                    errors: Seq::empty(),
                }),
                Err(e) => requested_ids(content_ids@).len() == 0 && e@ == bad(
                    "没有选中要导入的 OneLibrary 曲目"@,
                ),
            },
    {
        let mut requested: Vec<i32> = Vec::new();
        let mut i: usize = 0;
        assert(content_ids@.take(0).len() == 0);
        while i < content_ids.len()
            invariant
                i <= content_ids@.len(),
                requested@ == requested_ids(content_ids@.take(i as int)),
            decreases content_ids@.len() - i,
        {
            assert(content_ids@.take(i + 1).drop_last() =~= content_ids@.take(i as int));
            if content_ids[i] > 0 && !has_content(&requested, content_ids[i]) {
                requested.push(content_ids[i]);
            }
            i += 1;
        }
        assert(content_ids@.take(i as int) =~= content_ids@);
        if requested.len() == 0 {
            return Err(ApiError::bad_request("没有选中要导入的 OneLibrary 曲目".to_owned()));
        }
        let next: usize = find_wanted(&listed, &requested, 0);
        let run = ImportRun { requested, listed, next, track_ids: Vec::new(), errors: Vec::new() };
        assert(run@.errors =~= Seq::<(Seq<char>, Seq<char>)>::empty());
        Ok(run)
    }

    /// The place of the next track in the list.
    pub fn next_track(&self) -> (r: Option<usize>)
        ensures
            r == (if self@.next < self@.listed.len() {
                Some(self.next)
            } else {
                None
            }),
            r matches Some(i) ==> i == self@.next,
    {
        if self.next < self.listed.len() {
            Some(self.next)
        } else {
            None
        }
    }

    pub fn record(&mut self, result: ImportResult)
        requires
            old(self)@.next < old(self)@.listed.len(),
        ensures
            final(self)@ == old(self)@.after(import_event(result)),
    {
        let total: usize = self.listed.len();
        assert(self.next < total);
        let id: i32 = self.listed[self.next];
        match result {
            ImportResult::Done(made) => {
                self.track_ids.push(made);
            },
            ImportResult::Failed(reason) => {
                let mut key = String::new();
                append_signed(&mut key, id as i64);
                assert(key@ =~= signed_decimal(id as int));
                put_note(&mut self.errors, key, reason);
            },
        }
        self.next = find_wanted(&self.listed, &self.requested, self.next + 1);
    }

    /// Notes the tracks that were asked for and are not in the list.
    pub fn finish(&mut self)
        ensures
            final(self)@ == (ImportModel {
                errors: with_missing(
                    old(self)@.errors,
                    old(self)@.requested,
                    old(self)@.listed,
                    old(self)@.requested.len(),
                ),
                ..old(self)@
            }),
    {
        let ghost before = self@;
        let mut i: usize = 0;
        while i < self.requested.len()
            invariant
                i <= self.requested@.len(),
                self@ == (ImportModel {
                    errors: with_missing(
                        before.errors,
                        before.requested,
                        before.listed,
                        i as nat,
                    ),
                    ..before
                }),
            decreases self.requested@.len() - i,
        {
            let id: i32 = self.requested[i];
            if !has_content(&self.listed, id) {
                let mut key = String::new();
                append_signed(&mut key, id as i64);
                assert(key@ =~= signed_decimal(id as int));
                put_note(&mut self.errors, key, "曲目不在来源 OneLibrary 列表中".to_owned());
            }
            i += 1;
        }
    }
}

fn find_wanted(listed: &Vec<i32>, requested: &Vec<i32>, from: usize) -> (r: usize)
    requires
        from <= listed@.len(),
    ensures
        r == next_wanted(listed@, requested@, from as nat),
{
    let mut i: usize = from;
    while i < listed.len() && !has_content(requested, listed[i])
        invariant
            i <= listed@.len(),
            next_wanted(listed@, requested@, from as nat) == next_wanted(
                listed@,
                requested@,
                i as nat,
            ),
        decreases listed@.len() - i,
    {
        i += 1;
    }
    i
}

// ---------------------------------------------------------------- one track

/// How far the import of one track has come.
pub enum ImportStage {
    Copy,
    Register { target: String },
    Describe { target: String, id: i64 },
    Ended,
}

/// What is to be done for a track.
pub enum ImportStep {
    /// Copies its file.
    Copy,
    /// Makes a track of the copy.
    Register { target: String },
    /// Gives the track what is known of it.
    Describe { id: i64 },
    Done(i64),
    /// Takes back what was done: the track, the copy.
    Fail { reason: String, delete: Option<i64>, remove: Option<String> },
}

/// What came of a step.
pub enum StepResult {
    Copied(String),
    Registered(i64),
    Described,
    Failed(String),
}

pub enum StageModel {
    Copy,
    Register { target: Seq<char> },
    Describe { target: Seq<char>, id: i64 },
    Ended,
}

pub enum StepModel {
    Copy,
    Register { target: Seq<char> },
    Describe { id: i64 },
    Done(i64),
    Fail { reason: Seq<char>, delete: Option<i64>, remove: Option<Seq<char>> },
}

pub enum StepEvent {
    Copied(Seq<char>),
    Registered(i64),
    Described,
    Failed(Seq<char>),
}

pub open spec fn stage_of(s: ImportStage) -> StageModel {
    match s {
        ImportStage::Copy => StageModel::Copy,
        ImportStage::Register { target } => StageModel::Register { target: target@ },
        ImportStage::Describe { target, id } => StageModel::Describe { target: target@, id },
        ImportStage::Ended => StageModel::Ended,
    }
}

pub open spec fn step_of(s: ImportStep) -> StepModel {
    match s {
        ImportStep::Copy => StepModel::Copy,
        ImportStep::Register { target } => StepModel::Register { target: target@ },
        ImportStep::Describe { id } => StepModel::Describe { id },
        ImportStep::Done(id) => StepModel::Done(id),
        ImportStep::Fail { reason, delete, remove } => StepModel::Fail {
            reason: reason@,
            delete,
            remove: crate::models::text_of(remove),
        },
    }
}

pub open spec fn step_event(r: StepResult) -> StepEvent {
    match r {
        StepResult::Copied(target) => StepEvent::Copied(target@),
        StepResult::Registered(id) => StepEvent::Registered(id),
        StepResult::Described => StepEvent::Described,
        StepResult::Failed(reason) => StepEvent::Failed(reason@),
    }
}

/// After a step. A failure takes back what the steps before it did, so that no half-made track is
/// left behind.
pub open spec fn after_step(stage: StageModel, event: StepEvent) -> (StageModel, StepModel) {
    match (stage, event) {
        (StageModel::Copy, StepEvent::Copied(target)) => (
            StageModel::Register { target },
            StepModel::Register { target },
        ),
        (StageModel::Register { target }, StepEvent::Registered(id)) => (
            StageModel::Describe { target, id },
            StepModel::Describe { id },
        ),
        (StageModel::Describe { target, id }, StepEvent::Described) => (
            StageModel::Ended,
            StepModel::Done(id),
        ),
        (StageModel::Register { target }, StepEvent::Failed(reason)) => (
            StageModel::Ended,
            StepModel::Fail { reason, delete: None, remove: Some(target) },
        ),
        (StageModel::Describe { target, id }, StepEvent::Failed(reason)) => (
            StageModel::Ended,
            StepModel::Fail { reason, delete: Some(id), remove: Some(target) },
        ),
        (_, StepEvent::Failed(reason)) => (
            StageModel::Ended,
            StepModel::Fail { reason, delete: None, remove: None },
        ),
        _ => (
            StageModel::Ended,
            StepModel::Fail { reason: ""@, delete: None, remove: None },
        ),
    }
}

/// The import of one track.
pub struct TrackImport {
    pub stage: ImportStage,
}

/// A step and what comes of it belong together.
pub open spec fn fits_stage(stage: StageModel, event: StepEvent) -> bool {
    event is Failed || match stage {
        StageModel::Copy => event is Copied,
        StageModel::Register { .. } => event is Registered,
        StageModel::Describe { .. } => event is Described,
        StageModel::Ended => false,
    }
}

impl TrackImport {
    /// Begins with the copy; a file that is gone cannot be copied.
    pub fn begin(is_file: bool) -> (r: (Self, ImportStep))
        ensures
            is_file ==> stage_of(r.0.stage) == StageModel::Copy && step_of(r.1) == StepModel::Copy,
            !is_file ==> stage_of(r.0.stage) == StageModel::Ended && step_of(r.1)
                == (StepModel::Fail {
                reason: "外置音频文件已丢失"@,
                delete: None,
                remove: None,
            }),
    {
        if is_file {
            (TrackImport { stage: ImportStage::Copy }, ImportStep::Copy)
        } else {
            (
                TrackImport { stage: ImportStage::Ended },
                ImportStep::Fail {
                    reason: "外置音频文件已丢失".to_owned(),
                    delete: None,
                    remove: None,
                },
            )
        }
    }

    pub fn step(self, result: StepResult) -> (r: (Self, ImportStep))
        requires
            fits_stage(stage_of(self.stage), step_event(result)),
        ensures
            (stage_of(r.0.stage), step_of(r.1)) == after_step(
                stage_of(self.stage),
                step_event(result),
            ),
    {
        match (self.stage, result) {
            (ImportStage::Copy, StepResult::Copied(target)) => (
                TrackImport { stage: ImportStage::Register { target: target.clone() } },
                ImportStep::Register { target },
            ),
            (ImportStage::Register { target }, StepResult::Registered(id)) => (
                TrackImport { stage: ImportStage::Describe { target, id } },
                ImportStep::Describe { id },
            ),
            (ImportStage::Describe { target: _, id }, StepResult::Described) => (
                TrackImport { stage: ImportStage::Ended },
                ImportStep::Done(id),
            ),
            (ImportStage::Register { target }, StepResult::Failed(reason)) => (
                TrackImport { stage: ImportStage::Ended },
                ImportStep::Fail { reason, delete: None, remove: Some(target) },
            ),
            (ImportStage::Describe { target, id }, StepResult::Failed(reason)) => (
                TrackImport { stage: ImportStage::Ended },
                ImportStep::Fail { reason, delete: Some(id), remove: Some(target) },
            ),
            (_, StepResult::Failed(reason)) => (
                TrackImport { stage: ImportStage::Ended },
                ImportStep::Fail { reason, delete: None, remove: None },
            ),
            _ => (
                TrackImport { stage: ImportStage::Ended },
                ImportStep::Fail { reason: "".to_owned(), delete: None, remove: None },
            ),
        }
    }
}

/// A failed import leaves nothing behind: the copy goes once it was made, and the track once it was
/// made.
pub proof fn a_failed_import_leaves_nothing(stage: StageModel, reason: Seq<char>)
    ensures
        match after_step(stage, StepEvent::Failed(reason)).1 {
            StepModel::Fail { reason: r, delete, remove } => {
                &&& r == reason
                &&& (stage matches StageModel::Describe { id, .. } ==> delete == Some(id))
                &&& (stage matches StageModel::Describe { target, .. } ==> remove == Some(target))
                &&& (stage matches StageModel::Register { target } ==> remove == Some(target))
            },
            _ => false,
        },
{
}

/// The name under which the source of an imported track is kept.
pub fn import_key(device: &str, content_id: i32) -> (r: String)
    ensures
        r@ == device@ + ":"@ + signed_decimal(content_id as int),
{
    let mut r = device.to_owned();
    r.append(":");
    append_signed(&mut r, content_id as i64);
    r
}

// ---------------------------------------------------------------- waveforms

/// The number under which an external track plays is negative, so that it is never taken for one of
/// the library's own.
pub fn check_playback_id(playback_id: i64) -> (r: Result<(), ApiError>)
    ensures
        check_result(r) == (if playback_id >= 0 {
            Err(bad("OneLibrary 播放 id 必须是负数"@))
        } else {
            Ok(())
        }),
{
    if playback_id >= 0 {
        return Err(ApiError::bad_request("OneLibrary 播放 id 必须是负数".to_owned()));
    }
    Ok(())
}

/// How many columns a waveform gets.
pub open spec fn column_count(asked: usize, most: usize) -> usize {
    if asked < 64 {
        64
    } else if asked > most {
        most
    } else {
        asked
    }
}

/// How many columns a waveform gets: 64 at least.
pub fn waveform_columns(asked: usize, most: usize) -> (r: usize)
    requires
        64 <= most,
    ensures
        r == column_count(asked, most),
        r == (if asked < 64 {
            64
        } else if asked > most {
            most
        } else {
            asked
        }),
{
    if asked < 64 {
        64
    } else if asked > most {
        most
    } else {
        asked
    }
}

} // verus!
