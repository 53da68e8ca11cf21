//! Copying, moving and deleting the files of tracks.

use vstd::prelude::*;

use crate::error::{bad, plain, ApiError, ErrorModel};
use crate::folder_undo::{
    after_delete, item_views, pushed, status_of, BatchModel, FolderUndoBatch, FolderUndoItem,
    FolderUndoOp, FolderUndoStatus, UndoItemModel, UndoStack,
};
use crate::paths::{is_directly_in, lies_directly_in, put_note, with_note};
use crate::text::{append_signed, same, signed_decimal};
use crate::urls::pair_views;

verus! {

// ---------------------------------------------------------------- copies and moves

#[derive(Clone, Copy, Debug, PartialEq, Eq, Structural)]
pub enum FileOp {
    Move,
    Copy,
}

pub open spec fn undo_op(op: FileOp) -> FolderUndoOp {
    match op {
        FileOp::Move => FolderUndoOp::Move,
        FileOp::Copy => FolderUndoOp::Copy,
    }
}

pub open spec fn op_name(op: FileOp) -> Seq<char> {
    match op {
        FileOp::Move => "move"@,
        FileOp::Copy => "copy"@,
    }
}

/// A track that is known, and whether its file is there.
pub struct KnownTrack {
    pub path: String,
    pub is_file: bool,
    pub source_platform: String,
    pub source_key: String,
}

#[verifier::ext_equal]
pub struct KnownModel {
    pub path: Seq<char>,
    pub is_file: bool,
    pub source_platform: Seq<char>,
    pub source_key: Seq<char>,
}

impl View for KnownTrack {
    type V = KnownModel;

    open spec fn view(&self) -> KnownModel {
        KnownModel {
            path: self.path@,
            is_file: self.is_file,
            source_platform: self.source_platform@,
            source_key: self.source_key@,
        }
    }
}

/// What is done with one track.
#[derive(Clone, Copy, Debug, PartialEq, Eq, Structural)]
pub enum FileStep {
    /// Nothing: it is noted why, or the file is there already.
    Pass,
    /// Its file is moved or copied.
    Transfer,
}

/// What came of a transfer.
pub enum TransferResult {
    /// The file is at its target; a copy has a track of its own.
    Done { target: String, new_id: Option<i64> },
    Failed(String),
}

pub enum TransferEvent {
    Done { target: Seq<char>, new_id: Option<i64> },
    Failed(Seq<char>),
}

pub open spec fn transfer_event(r: TransferResult) -> TransferEvent {
    match r {
        TransferResult::Done { target, new_id } => TransferEvent::Done { target: target@, new_id },
        TransferResult::Failed(reason) => TransferEvent::Failed(reason@),
    }
}

/// Goes through tracks and collects what was done to their files.
pub struct FolderRun {
    pub op: FileOp,
    pub dest: String,
    pub ids: Vec<i64>,
    pub next: usize,
    pub track_ids: Vec<i64>,
    pub done: usize,
    pub errors: Vec<(String, String)>,
    pub undo_items: Vec<FolderUndoItem>,
}

#[verifier::ext_equal]
pub struct FolderRunModel {
    pub op: FileOp,
    pub dest: Seq<char>,
    pub ids: Seq<i64>,
    pub next: nat,
    pub track_ids: Seq<i64>,
    pub done: nat,
    pub errors: Seq<(Seq<char>, Seq<char>)>,
    pub undo_items: Seq<UndoItemModel>,
}

impl View for FolderRun {
    type V = FolderRunModel;

    open spec fn view(&self) -> FolderRunModel {
        FolderRunModel {
            op: self.op,
            dest: self.dest@,
            ids: self.ids@,
            next: self.next as nat,
            track_ids: self.track_ids@,
            done: self.done as nat,
            errors: pair_views(self.errors@),
            undo_items: item_views(self.undo_items@),
        }
    }
}

pub open spec fn known_of(t: Option<KnownTrack>) -> Option<KnownModel> {
    match t {
        Some(t) => Some(t@),
        None => None,
    }
}

impl FolderRunModel {
    pub open spec fn ok(self) -> bool {
        &&& self.next <= self.ids.len()
        &&& self.done == self.undo_items.len()
        &&& self.done <= self.next
    }

    pub open spec fn noted(self, reason: Seq<char>) -> FolderRunModel {
        FolderRunModel {
            next: self.next + 1,
            errors: with_note(
                self.errors,
                signed_decimal(self.ids[self.next as int] as int),
                reason,
            ),
            ..self
        }
    }

    /// A track that is unknown or whose file is gone is noted; one whose file is in the folder
    /// already is passed over in silence.
    pub open spec fn after_look(self, track: Option<KnownModel>) -> (FolderRunModel, FileStep) {
        match track {
            None => (self.noted("曲目不存在"@), FileStep::Pass),
            Some(t) => if !t.is_file {
                (self.noted("文件已丢失"@), FileStep::Pass)
            } else if lies_directly_in(t.path, self.dest) {
                (FolderRunModel { next: self.next + 1, ..self }, FileStep::Pass)
            } else {
                (self, FileStep::Transfer)
            },
        }
    }

    /// The track that the reply names: the moved one, or the one that the copy made.
    pub open spec fn named_id(self, new_id: Option<i64>) -> i64 {
        match (self.op, new_id) {
            (FileOp::Copy, Some(id)) => id,
            _ => self.ids[self.next as int],
        }
    }

    pub open spec fn after_transfer(self, track: KnownModel, event: TransferEvent) -> FolderRunModel {
        match event {
            TransferEvent::Failed(reason) => self.noted(reason),
            TransferEvent::Done { target, new_id } => FolderRunModel {
                next: self.next + 1,
                track_ids: self.track_ids.push(self.named_id(new_id)),
                done: self.done + 1,
                undo_items: self.undo_items.push(
                    UndoItemModel {
                        op: undo_op(self.op),
                        track_id: self.ids[self.next as int],
                        source: track.path,
                        target,
                        created_track_id: match self.op {
                            FileOp::Copy => new_id,
                            FileOp::Move => None,
                        },
                        source_platform: track.source_platform,
                        source_key: track.source_key,
                        deleted: None,
                    },
                ),
                ..self
            },
        }
    }
}

/// The reply to a batch of copies or moves.
pub struct FolderOpResult {
    pub track_ids: Vec<i64>,
    pub op: FileOp,
    /// The kind of transfer and how often it was made.
    pub methods: Vec<(String, usize)>,
    pub errors: Vec<(String, String)>,
    pub undo: FolderUndoStatus,
}

impl FolderRun {
    pub fn begin(op: FileOp, dest: String, ids: Vec<i64>) -> (r: Self)
        ensures
            r@ == (FolderRunModel {
                op,
                dest: dest@,
                ids: ids@,
                next: 0,
                track_ids: Seq::empty(),
                done: 0,
                errors: Seq::empty(),
                undo_items: Seq::empty(),
            }),
            r@.ok(),
    {
        let r = FolderRun {
            op,
            dest,
            ids,
            next: 0,
            track_ids: Vec::new(),
            done: 0,
            errors: Vec::new(),
            undo_items: Vec::new(),
        };
        assert(r@.errors =~= Seq::<(Seq<char>, Seq<char>)>::empty());
        assert(r@.undo_items =~= Seq::<UndoItemModel>::empty());
        r
    }

    /// The next track.
    pub fn next_id(&self) -> (r: Option<i64>)
        ensures
            r == (if self@.next < self@.ids.len() {
                Some(self@.ids[self@.next as int])
            } else {
                None
            }),
    {
        if self.next < self.ids.len() {
            Some(self.ids[self.next])
        } else {
            None
        }
    }

    fn note(&mut self, reason: String)
        requires
            old(self)@.ok(),
            old(self)@.next < old(self)@.ids.len(),
        ensures
            final(self)@ == old(self)@.noted(reason@),
            final(self)@.ok(),
    {
        let mut key = String::new();
        append_signed(&mut key, self.ids[self.next]);
        assert(key@ =~= signed_decimal(self@.ids[self@.next as int] as int));
        put_note(&mut self.errors, key, reason);
        let total: usize = self.ids.len();
        assert(self.next < total);
        self.next = self.next + 1;
    }

    /// Decides what is done with the next track.
    pub fn look(&mut self, track: &Option<KnownTrack>) -> (r: FileStep)
        requires
            old(self)@.ok(),
            old(self)@.next < old(self)@.ids.len(),
        ensures
            (final(self)@, r) == old(self)@.after_look(known_of(*track)),
            final(self)@.ok(),
    {
        match track {
            None => {
                self.note("曲目不存在".to_owned());
                FileStep::Pass
            },
            Some(t) => {
                if !t.is_file {
                    self.note("文件已丢失".to_owned());
                    return FileStep::Pass;
                }
                if is_directly_in(t.path.as_str(), self.dest.as_str()) {
                    let total: usize = self.ids.len();
                    assert(self.next < total);
                    self.next = self.next + 1;
                    return FileStep::Pass;
                }
                FileStep::Transfer
            },
        }
    }

    /// Takes note of what came of the transfer.
    pub fn record(&mut self, track: &KnownTrack, result: TransferResult)
        requires
            old(self)@.ok(),
            old(self)@.next < old(self)@.ids.len(),
        ensures
            final(self)@ == old(self)@.after_transfer(track@, transfer_event(result)),
            final(self)@.ok(),
    {
        match result {
            TransferResult::Failed(reason) => self.note(reason),
            TransferResult::Done { target, new_id } => {
                let ghost before = self@;
                let id: i64 = self.ids[self.next];
                let total: usize = self.ids.len();
                assert(self.next < total);
                let (kind, named, made) = match self.op {
                    FileOp::Move => (FolderUndoOp::Move, id, None),
                    FileOp::Copy => (
                        FolderUndoOp::Copy,
                        match new_id {
                            Some(made) => made,
                            None => id,
                        },
                        new_id,
                    ),
                };
                let item = FolderUndoItem {
                    op: kind,
                    track_id: id,
                    source: track.path.clone(),
                    target,
                    created_track_id: made,
                    source_platform: track.source_platform.clone(),
                    source_key: track.source_key.clone(),
                    deleted: None,
                };
                let ghost entry = item@;
                self.track_ids.push(named);
                self.undo_items.push(item);
                assert(self@.undo_items =~= before.undo_items.push(entry));
                self.done = self.done + 1;
                self.next = self.next + 1;
            },
        }
    }

    /// Keeps what was done for an undo and makes the reply. Where nothing was done, the stack stays
    /// as it is.
    pub fn finish(self, stack: &mut UndoStack) -> (r: FolderOpResult)
        requires
            self@.ok(),
        ensures
            final(stack)@ == (if self@.undo_items.len() == 0 {
                old(stack)@
            } else {
                pushed(
                    old(stack)@,
                    BatchModel { op: undo_op(self@.op), items: self@.undo_items },
                )
            }),
            r.track_ids@ == self@.track_ids,
            r.op == self@.op,
            r.methods@.len() == (if self@.done == 0 {
                0
            } else {
                1int
            }),
            self@.done > 0 ==> r.methods@[0].0@ == op_name(self@.op) && r.methods@[0].1
                == self@.done,
            pair_views(r.errors@) == self@.errors,
            r.undo == status_of(final(stack)@),
    {
        let op = self.op;
        let done: usize = self.done;
        let mut methods: Vec<(String, usize)> = Vec::new();
        if done > 0 {
            let name = match op {
                FileOp::Move => "move".to_owned(),
                FileOp::Copy => "copy".to_owned(),
            };
            methods.push((name, done));
        }
        assert(self@.undo_items.len() == self.undo_items@.len());
        let undo = if self.undo_items.len() == 0 {
            stack.folder_undo_status()
        } else {
            let kind = match op {
                FileOp::Move => FolderUndoOp::Move,
                FileOp::Copy => FolderUndoOp::Copy,
            };
            stack.push_folder_undo(FolderUndoBatch { op: kind, items: self.undo_items })
        };
        FolderOpResult { track_ids: self.track_ids, op, methods, errors: self.errors, undo }
    }
}

/// Every file that was moved or copied can be taken back: there is an item for each, and the reply
/// names as many tracks.
pub proof fn every_transfer_can_be_undone(run: FolderRunModel, track: KnownModel, event: TransferEvent)
    requires
        run.ok(),
        run.next < run.ids.len(),
    ensures
        run.after_transfer(track, event).ok(),
        event is Done ==> run.after_transfer(track, event).undo_items.last().source == track.path,
        event is Failed ==> run.after_transfer(track, event).undo_items == run.undo_items,
        run.track_ids.len() == run.undo_items.len() ==> run.after_transfer(
            track,
            event,
        ).track_ids.len() == run.after_transfer(track, event).undo_items.len(),
{
}

// ---------------------------------------------------------------- deletions

/// What becomes of the file of a deleted track.
#[derive(Clone, Copy, Debug, PartialEq, Eq, Structural)]
pub enum FileDisposal {
    Keep,
    Trash,
    Remove,
}

pub open spec fn disposal_of(name: Seq<char>) -> Result<FileDisposal, ErrorModel> {
    if name == ""@ || name == "keep"@ {
        Ok(FileDisposal::Keep)
    } else if name == "trash"@ {
        Ok(FileDisposal::Trash)
    } else if name == "remove"@ {
        Ok(FileDisposal::Remove)
    } else {
        Err(bad("file 只能是 keep/trash/remove，收到："@ + name))
    }
}

pub open spec fn disposal_result(r: Result<FileDisposal, ApiError>) -> Result<
    FileDisposal,
    ErrorModel,
> {
    match r {
        Ok(d) => Ok(d),
        Err(e) => Err(e@),
    }
}

pub fn parse_disposal(name: &str) -> (r: Result<FileDisposal, ApiError>)
    ensures
        disposal_result(r) == disposal_of(name@),
{
    if same(name, "") || same(name, "keep") {
        return Ok(FileDisposal::Keep);
    }
    if same(name, "trash") {
        return Ok(FileDisposal::Trash);
    }
    if same(name, "remove") {
        return Ok(FileDisposal::Remove);
    }
    let mut detail = "file 只能是 keep/trash/remove，收到：".to_owned();
    detail.append(name);
    Err(ApiError::bad_request(detail))
}

/// What becomes of the file: the named way, or else what the older switch says.
pub fn delete_disposal(file: &Option<String>, delete_file: bool) -> (r: Result<FileDisposal, ApiError>)
    ensures
        disposal_result(r) == (match *file {
            Some(name) => disposal_of(name@),
            None => Ok(
                if delete_file {
                    FileDisposal::Remove
                } else {
                    FileDisposal::Keep
                },
            ),
        }),
{
    match file {
        Some(name) => parse_disposal(name.as_str()),
        None => if delete_file {
            Ok(FileDisposal::Remove)
        } else {
            Ok(FileDisposal::Keep)
        },
    }
}

/// A deleted track that can be restored.
pub struct DeletedTrack {
    pub id: i64,
    pub path: String,
    pub source_platform: String,
    pub source_key: String,
    /// The kept snapshot.
    pub snapshot: u64,
}

#[verifier::ext_equal]
pub struct DeletedModel {
    pub id: i64,
    pub path: Seq<char>,
    pub source_platform: Seq<char>,
    pub source_key: Seq<char>,
    pub snapshot: u64,
}

impl View for DeletedTrack {
    type V = DeletedModel;

    open spec fn view(&self) -> DeletedModel {
        DeletedModel {
            id: self.id,
            path: self.path@,
            source_platform: self.source_platform@,
            source_key: self.source_key@,
            snapshot: self.snapshot,
        }
    }
}

pub open spec fn delete_item(d: DeletedModel) -> UndoItemModel {
    UndoItemModel {
        op: FolderUndoOp::Delete,
        track_id: d.id,
        source: d.path,
        target: ""@,
        created_track_id: None,
        source_platform: d.source_platform,
        source_key: d.source_key,
        deleted: Some(d.snapshot),
    }
}

pub fn delete_undo_item(deleted: &DeletedTrack) -> (r: FolderUndoItem)
    ensures
        r@ == delete_item(deleted@),
{
    FolderUndoItem {
        op: FolderUndoOp::Delete,
        track_id: deleted.id,
        source: deleted.path.clone(),
        target: "".to_owned(),
        created_track_id: None,
        source_platform: deleted.source_platform.clone(),
        source_key: deleted.source_key.clone(),
        deleted: Some(deleted.snapshot),
    }
}

/// What came of a deletion.
pub enum DeleteResult {
    /// The track is gone; what is kept of it can be restored.
    Deleted(Option<DeletedTrack>),
    /// There was no such track.
    Unknown,
    Failed(String),
}

pub enum DeleteEvent {
    Deleted(Option<DeletedModel>),
    Unknown,
    Failed(Seq<char>),
}

pub open spec fn delete_event(r: DeleteResult) -> DeleteEvent {
    match r {
        DeleteResult::Deleted(Some(d)) => DeleteEvent::Deleted(Some(d@)),
        DeleteResult::Deleted(None) => DeleteEvent::Deleted(None),
        DeleteResult::Unknown => DeleteEvent::Unknown,
        DeleteResult::Failed(reason) => DeleteEvent::Failed(reason@),
    }
}

pub open spec fn items_of(d: Option<DeletedModel>) -> Seq<UndoItemModel> {
    match d {
        Some(d) => seq![delete_item(d)],
        None => Seq::empty(),
    }
}

/// The reply to the deletion of one track. A track that is unknown is not found.
pub fn finish_delete(stack: &mut UndoStack, removed: bool, deleted: &Option<DeletedTrack>) -> (r: Result<
    FolderUndoStatus,
    ApiError,
>)
    ensures
        match r {
            Ok(status) => removed && status == status_of(final(stack)@) && final(stack)@
                == after_delete(
                old(stack)@,
                items_of(
                    match *deleted {
                        Some(d) => Some(d@),
                        None => None,
                    },
                ),
            ),
            Err(e) => !removed && e@ == plain(404, "曲目不存在"@) && final(stack)@ == old(stack)@,
        },
{
    if !removed {
        return Err(ApiError::not_found("曲目不存在".to_owned()));
    }
    let mut items: Vec<FolderUndoItem> = Vec::new();
    assert(item_views(items@) =~= Seq::<UndoItemModel>::empty());
    if let Some(d) = deleted {
        items.push(delete_undo_item(d));
        assert(item_views(items@) =~= seq![delete_item(d@)]);
    }
    Ok(stack.finish_delete_undo(items))
}

/// Deletes tracks one by one. One that fails does not stop the others.
pub struct DeleteRun {
    pub ids: Vec<i64>,
    pub next: usize,
    pub removed: Vec<i64>,
    pub undo_items: Vec<FolderUndoItem>,
    pub changed: bool,
    pub errors: Vec<(String, String)>,
}

#[verifier::ext_equal]
pub struct DeleteModel {
    pub ids: Seq<i64>,
    pub next: nat,
    pub removed: Seq<i64>,
    pub undo_items: Seq<UndoItemModel>,
    pub changed: bool,
    pub errors: Seq<(Seq<char>, Seq<char>)>,
}

impl View for DeleteRun {
    type V = DeleteModel;

    open spec fn view(&self) -> DeleteModel {
        DeleteModel {
            ids: self.ids@,
            next: self.next as nat,
            removed: self.removed@,
            undo_items: item_views(self.undo_items@),
            changed: self.changed,
            errors: pair_views(self.errors@),
        }
    }
}

impl DeleteModel {
    /// A track that was unknown counts as removed: what was asked for holds.
    pub open spec fn after(self, event: DeleteEvent) -> DeleteModel {
        let id = self.ids[self.next as int];
        match event {
            DeleteEvent::Deleted(d) => DeleteModel {
                next: self.next + 1,
                removed: self.removed.push(id),
                undo_items: self.undo_items + items_of(d),
                changed: true,
                ..self
            },
            DeleteEvent::Unknown => DeleteModel {
                next: self.next + 1,
                removed: self.removed.push(id),
                ..self
            },
            DeleteEvent::Failed(reason) => DeleteModel {
                next: self.next + 1,
                errors: with_note(self.errors, signed_decimal(id as int), reason),
                ..self
            },
        }
    }
}

/// The reply to the deletion of several tracks.
pub struct DeleteReply {
    pub removed: Vec<i64>,
    pub errors: Vec<(String, String)>,
    pub undo: FolderUndoStatus,
}

impl DeleteRun {
    pub fn begin(ids: Vec<i64>) -> (r: Self)
        ensures
            r@ == (DeleteModel {
                ids: ids@,
                next: 0,
                removed: Seq::empty(),
                undo_items: Seq::empty(),
                changed: false,
                errors: Seq::empty(),
            }),
    {
        let r = DeleteRun {
            ids,
            next: 0,
            removed: Vec::new(),
            undo_items: Vec::new(),
            changed: false,
            errors: Vec::new(),
        };
        assert(r@.errors =~= Seq::<(Seq<char>, Seq<char>)>::empty());
        assert(r@.undo_items =~= Seq::<UndoItemModel>::empty());
        r
    }

    pub fn next_id(&self) -> (r: Option<i64>)
        ensures
            r == (if self@.next < self@.ids.len() {
                Some(self@.ids[self@.next as int])
            } else {
                None
            }),
    {
        if self.next < self.ids.len() {
            Some(self.ids[self.next])
        } else {
            None
        }
    }

    pub fn record(&mut self, result: DeleteResult)
        requires
            old(self)@.next < old(self)@.ids.len(),
        ensures
            final(self)@ == old(self)@.after(delete_event(result)),
    {
        let ghost before = self@;
        let id: i64 = self.ids[self.next];
        let total: usize = self.ids.len();
        assert(self.next < total);
        match result {
            DeleteResult::Deleted(deleted) => {
                self.removed.push(id);
                self.changed = true;
                match deleted {
                    Some(d) => {
                        self.undo_items.push(delete_undo_item(&d));
                        assert(self@.undo_items =~= before.undo_items + seq![delete_item(d@)]);
                    },
                    None => {
                        assert(self@.undo_items =~= before.undo_items + Seq::<
                            UndoItemModel,
                        >::empty());
                    },
                }
            },
            DeleteResult::Unknown => {
                self.removed.push(id);
            },
            DeleteResult::Failed(reason) => {
                let mut key = String::new();
                append_signed(&mut key, id);
                assert(key@ =~= signed_decimal(id as int));
                put_note(&mut self.errors, key, reason);
            },
        }
        self.next = self.next + 1;
    }

    /// What can be restored is kept; where no track was deleted, the stack stays as it is.
    pub fn finish(self, stack: &mut UndoStack) -> (r: DeleteReply)
        ensures
            final(stack)@ == (if self@.changed {
                after_delete(old(stack)@, self@.undo_items)
            } else {
                old(stack)@
            }),
            r.removed@ == self@.removed,
            pair_views(r.errors@) == self@.errors,
            r.undo == status_of(final(stack)@),
    {
        let undo = if self.changed {
            stack.finish_delete_undo(self.undo_items)
        } else {
            stack.folder_undo_status()
        };
        DeleteReply { removed: self.removed, errors: self.errors, undo }
    }
}

/// One deletion that fails leaves the others as they are: it is noted, its track stays, and the next
/// one follows.
pub proof fn a_failed_deletion_stops_nothing(run: DeleteModel, reason: Seq<char>)
    requires
        run.next < run.ids.len(),
    ensures
        run.after(DeleteEvent::Failed(reason)).next == run.next + 1,
        run.after(DeleteEvent::Failed(reason)).removed == run.removed,
        run.after(DeleteEvent::Failed(reason)).undo_items == run.undo_items,
{
}

/// A deletion that cannot be restored leaves nothing to undo: the next undo never takes back
/// something older in its place.
pub proof fn a_final_deletion_clears_the_undo(stack: Seq<BatchModel>)
    ensures
        !status_of(after_delete(stack, Seq::empty())).available,
        after_delete(stack, Seq::empty()).len() == 0,
{
}

} // verus!
