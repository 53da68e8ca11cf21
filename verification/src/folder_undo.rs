//! Taking back what was done to the files of tracks: copies, moves and deletions.

use vstd::prelude::*;

use crate::error::{plain, ApiError};
use crate::models::{text_of};
use crate::paths::{ordered_ids, parent, parent_of, put_note, sort_ids, with_note};
use crate::text::{append_decimal, append_signed, decimal, same, signed_decimal};
use crate::urls::pair_views;

verus! {

#[derive(Clone, Copy, Debug, PartialEq, Eq, Structural)]
pub enum FolderUndoOp {
    Copy,
    Move,
    Delete,
}

/// One file operation, with what taking it back needs.
pub struct FolderUndoItem {
    pub op: FolderUndoOp,
    pub track_id: i64,
    /// Where the file was.
    pub source: String,
    /// Where the file is; not used for a deletion.
    pub target: String,
    /// The track that a copy made.
    pub created_track_id: Option<i64>,
    pub source_platform: String,
    pub source_key: String,
    /// The kept snapshot of a deleted track.
    pub deleted: Option<u64>,
}

#[verifier::ext_equal]
pub struct UndoItemModel {
    pub op: FolderUndoOp,
    pub track_id: i64,
    pub source: Seq<char>,
    pub target: Seq<char>,
    pub created_track_id: Option<i64>,
    pub source_platform: Seq<char>,
    pub source_key: Seq<char>,
    pub deleted: Option<u64>,
}

impl View for FolderUndoItem {
    type V = UndoItemModel;

    open spec fn view(&self) -> UndoItemModel {
        UndoItemModel {
            op: self.op,
            track_id: self.track_id,
            source: self.source@,
            target: self.target@,
            created_track_id: self.created_track_id,
            source_platform: self.source_platform@,
            source_key: self.source_key@,
            deleted: self.deleted,
        }
    }
}

impl Clone for FolderUndoItem {
    fn clone(&self) -> (r: Self)
        ensures
            r@ == self@,
    {
        FolderUndoItem {
            op: self.op,
            track_id: self.track_id,
            source: self.source.clone(),
            target: self.target.clone(),
            created_track_id: self.created_track_id,
            source_platform: self.source_platform.clone(),
            source_key: self.source_key.clone(),
            deleted: self.deleted,
        }
    }
}

pub open spec fn item_views(v: Seq<FolderUndoItem>) -> Seq<UndoItemModel> {
    v.map_values(|i: FolderUndoItem| i@)
}

fn clone_items(v: &Vec<FolderUndoItem>) -> (r: Vec<FolderUndoItem>)
    ensures
        item_views(r@) == item_views(v@),
{
    let mut r: Vec<FolderUndoItem> = Vec::new();
    let mut i: usize = 0;
    while i < v.len()
        invariant
            i <= v@.len(),
            item_views(r@) == item_views(v@).take(i as int),
        decreases v@.len() - i,
    {
        let ghost before = item_views(r@);
        r.push(v[i].clone());
        assert(item_views(v@)[i as int] == v@[i as int]@);
        assert(item_views(r@) =~= before.push(v@[i as int]@));
        i += 1;
        assert(item_views(r@) =~= item_views(v@).take(i as int));
    }
    assert(item_views(r@) =~= item_views(v@));
    r
}

/// What was done in one go.
pub struct FolderUndoBatch {
    pub op: FolderUndoOp,
    pub items: Vec<FolderUndoItem>,
}

#[verifier::ext_equal]
pub struct BatchModel {
    pub op: FolderUndoOp,
    pub items: Seq<UndoItemModel>,
}

impl View for FolderUndoBatch {
    type V = BatchModel;

    open spec fn view(&self) -> BatchModel {
        BatchModel { op: self.op, items: item_views(self.items@) }
    }
}

impl Clone for FolderUndoBatch {
    fn clone(&self) -> (r: Self)
        ensures
            r@ == self@,
    {
        FolderUndoBatch { op: self.op, items: clone_items(&self.items) }
    }
}

/// What can be taken back next.
#[derive(Clone, Copy, Debug, PartialEq, Eq, Structural)]
pub struct FolderUndoStatus {
    pub available: bool,
    pub op: Option<FolderUndoOp>,
    pub count: usize,
}

/// The batches that can be taken back, the latest one last.
pub struct UndoStack {
    pub batches: Vec<FolderUndoBatch>,
}

/// How many batches are kept.
pub const MAX_FOLDER_UNDO_BATCHES: usize = 50;

pub open spec fn batch_views(v: Seq<FolderUndoBatch>) -> Seq<BatchModel> {
    v.map_values(|b: FolderUndoBatch| b@)
}

impl View for UndoStack {
    type V = Seq<BatchModel>;

    open spec fn view(&self) -> Seq<BatchModel> {
        batch_views(self.batches@)
    }
}

pub open spec fn status_of(stack: Seq<BatchModel>) -> FolderUndoStatus {
    if stack.len() == 0 {
        FolderUndoStatus { available: false, op: None, count: 0 }
    } else {
        FolderUndoStatus {
            available: stack.last().items.len() > 0,
            op: Some(stack.last().op),
            count: stack.last().items.len() as usize,
        }
    }
}

/// The stack with one more batch; a full stack loses its oldest one.
pub open spec fn pushed(stack: Seq<BatchModel>, batch: BatchModel) -> Seq<BatchModel> {
    if stack.len() >= MAX_FOLDER_UNDO_BATCHES {
        stack.drop_first().push(batch)
    } else {
        stack.push(batch)
    }
}

impl UndoStack {
    pub fn new() -> (r: Self)
        ensures
            r@ == Seq::<BatchModel>::empty(),
    {
        let r = UndoStack { batches: Vec::new() };
        assert(r@ =~= Seq::<BatchModel>::empty());
        r
    }

    pub fn folder_undo_status(&self) -> (r: FolderUndoStatus)
        ensures
            r == status_of(self@),
    {
        let count: usize = self.batches.len();
        if count == 0 {
            return FolderUndoStatus { available: false, op: None, count: 0 };
        }
        let batch = &self.batches[count - 1];
        assert(self@.last() == self.batches@[count - 1]@);
        assert(batch@.items.len() == batch.items@.len());
        FolderUndoStatus {
            available: batch.items.len() > 0,
            op: Some(batch.op),
            count: batch.items.len(),
        }
    }

    pub fn push_folder_undo(&mut self, batch: FolderUndoBatch) -> (r: FolderUndoStatus)
        ensures
            final(self)@ == pushed(old(self)@, batch@),
            r == status_of(final(self)@),
    {
        let ghost before = self@;
        let ghost entry = batch@;
        if self.batches.len() >= MAX_FOLDER_UNDO_BATCHES {
            self.batches.remove(0);
            assert(self@ =~= before.drop_first());
        }
        let ghost middle = self@;
        self.batches.push(batch);
        assert(self@ =~= middle.push(entry));
        self.folder_undo_status()
    }

    pub fn clear_folder_undo(&mut self)
        ensures
            final(self)@ == Seq::<BatchModel>::empty(),
    {
        self.batches = Vec::new();
        assert(self@ =~= Seq::<BatchModel>::empty());
    }

    /// The batch to take back, or the refusal where there is none.
    pub fn latest(&self) -> (r: Result<FolderUndoBatch, ApiError>)
        ensures
            match r {
                Ok(batch) => self@.len() > 0 && batch@ == self@.last(),
                Err(e) => self@.len() == 0 && e@ == plain(404, "没有可撤回的曲库操作"@),
            },
    {
        let count: usize = self.batches.len();
        if count == 0 {
            return Err(ApiError::not_found("没有可撤回的曲库操作".to_owned()));
        }
        assert(self@.last() == self.batches@[count - 1]@);
        Ok(self.batches[count - 1].clone())
    }

    /// After a deletion: what can be restored is kept as a batch. Where nothing can, the whole stack
    /// goes, so that the next undo does not take back something older.
    pub fn finish_delete_undo(&mut self, items: Vec<FolderUndoItem>) -> (r: FolderUndoStatus)
        ensures
            final(self)@ == after_delete(old(self)@, item_views(items@)),
            r == status_of(final(self)@),
    {
        assert(item_views(items@).len() == items@.len());
        if items.len() == 0 {
            self.clear_folder_undo();
            self.folder_undo_status()
        } else {
            self.push_folder_undo(FolderUndoBatch { op: FolderUndoOp::Delete, items })
        }
    }
}

pub open spec fn after_delete(stack: Seq<BatchModel>, items: Seq<UndoItemModel>) -> Seq<BatchModel> {
    if items.len() == 0 {
        Seq::empty()
    } else {
        pushed(stack, BatchModel { op: FolderUndoOp::Delete, items })
    }
}

/// The stack never holds more batches than its limit, and the latest one is always on top.
pub proof fn the_undo_stack_is_limited(stack: Seq<BatchModel>, batch: BatchModel)
    requires
        stack.len() <= MAX_FOLDER_UNDO_BATCHES,
    ensures
        pushed(stack, batch).len() <= MAX_FOLDER_UNDO_BATCHES,
        pushed(stack, batch).last() == batch,
        stack.len() < MAX_FOLDER_UNDO_BATCHES ==> pushed(stack, batch).drop_last() == stack,
{
    if stack.len() < MAX_FOLDER_UNDO_BATCHES {
        assert(pushed(stack, batch).drop_last() =~= stack);
    }
}

// ---------------------------------------------------------------- taking a batch back

/// Takes the items of a batch back, the last one first.
pub struct UndoRun {
    pub op: FolderUndoOp,
    pub items: Vec<FolderUndoItem>,
    /// How many items are still to be taken back.
    pub left: usize,
    /// What could not be taken back, the last one first.
    pub stuck: Vec<FolderUndoItem>,
    pub changed: Vec<i64>,
    pub errors: Vec<(String, String)>,
    pub undone: usize,
}

#[verifier::ext_equal]
pub struct UndoModel {
    pub op: FolderUndoOp,
    pub items: Seq<UndoItemModel>,
    pub left: nat,
    pub stuck: Seq<UndoItemModel>,
    pub changed: Seq<i64>,
    pub errors: Seq<(Seq<char>, Seq<char>)>,
    pub undone: nat,
}

impl View for UndoRun {
    type V = UndoModel;

    open spec fn view(&self) -> UndoModel {
        UndoModel {
            op: self.op,
            items: item_views(self.items@),
            left: self.left as nat,
            stuck: item_views(self.stuck@),
            changed: self.changed@,
            errors: pair_views(self.errors@),
            undone: self.undone as nat,
        }
    }
}

/// What came of one item: the tracks that changed, or why it could not be taken back.
pub enum UndoOutcome {
    Undone(Vec<i64>),
    Stuck(String),
}

pub enum UndoEvent {
    Undone(Seq<i64>),
    Stuck(Seq<char>),
}

pub open spec fn undo_event(o: UndoOutcome) -> UndoEvent {
    match o {
        UndoOutcome::Undone(ids) => UndoEvent::Undone(ids@),
        UndoOutcome::Stuck(reason) => UndoEvent::Stuck(reason@),
    }
}

pub open spec fn item_name(track_id: i64, index: int) -> Seq<char> {
    signed_decimal(track_id as int) + ":"@ + decimal(index as nat)
}

impl UndoModel {
    pub open spec fn ok(self) -> bool {
        &&& self.left <= self.items.len()
        &&& self.undone + self.stuck.len() == self.items.len() - self.left
    }

    pub open spec fn after(self, event: UndoEvent) -> UndoModel {
        let index = self.left - 1;
        let item = self.items[index];
        match event {
            UndoEvent::Undone(ids) => UndoModel {
                left: index as nat,
                changed: self.changed + ids,
                undone: self.undone + 1,
                ..self
            },
            UndoEvent::Stuck(reason) => UndoModel {
                left: index as nat,
                stuck: self.stuck.push(item),
                errors: with_note(self.errors, item_name(item.track_id, index), reason),
                ..self
            },
        }
    }

    /// The stack after the batch: what is stuck stays on top, in its old order.
    pub open spec fn closes(self, stack: Seq<BatchModel>) -> Seq<BatchModel> {
        if stack.len() == 0 {
            stack
        } else if self.stuck.len() == 0 {
            stack.drop_last()
        } else {
            stack.update(
                stack.len() - 1,
                BatchModel { items: self.stuck.reverse(), ..stack.last() },
            )
        }
    }
}

/// The reply to an undo.
pub struct FolderUndoResponse {
    pub undone: usize,
    pub track_ids: Vec<i64>,
    pub op: FolderUndoOp,
    pub status: FolderUndoStatus,
    pub errors: Vec<(String, String)>,
}

impl UndoRun {
    pub fn begin(batch: &FolderUndoBatch) -> (r: Self)
        ensures
            r@ == (UndoModel {
                op: batch@.op,
                items: batch@.items,
                left: batch@.items.len(),
                stuck: Seq::empty(),
                changed: Seq::empty(),
                errors: Seq::empty(),
                undone: 0,
            }),
            r@.ok(),
    {
        let items = clone_items(&batch.items);
        assert(item_views(items@).len() == items@.len());
        let left: usize = items.len();
        let r = UndoRun {
            op: batch.op,
            items,
            left,
            stuck: Vec::new(),
            changed: Vec::new(),
            errors: Vec::new(),
            undone: 0,
        };
        assert(r@.stuck =~= Seq::<UndoItemModel>::empty());
        assert(r@.errors =~= Seq::<(Seq<char>, Seq<char>)>::empty());
        r
    }

    /// The item to take back next.
    pub fn next(&self) -> (r: Option<FolderUndoItem>)
        requires
            self@.ok(),
        ensures
            match r {
                Some(item) => self@.left > 0 && item@ == self@.items[self@.left - 1],
                None => self@.left == 0,
            },
    {
        assert(self@.items.len() == self.items@.len());
        if self.left == 0 {
            return None;
        }
        assert(self@.items[self.left - 1] == self.items@[self.left - 1]@);
        Some(self.items[self.left - 1].clone())
    }

    /// Takes note of what came of the item.
    pub fn record(&mut self, outcome: UndoOutcome)
        requires
            old(self)@.ok(),
            old(self)@.left > 0,
        ensures
            final(self)@ == old(self)@.after(undo_event(outcome)),
            final(self)@.ok(),
    {
        let ghost before = self@;
        assert(self@.items.len() == self.items@.len());
        let index: usize = self.left - 1;
        assert(self@.items[index as int] == self.items@[index as int]@);
        let total: usize = self.items.len();
        match outcome {
            UndoOutcome::Undone(ids) => {
                self.left = index;
                assert(self.undone < total);
                self.undone = self.undone + 1;
                let mut i: usize = 0;
                assert(before.changed + ids@.take(0) =~= before.changed);
                while i < ids.len()
                    invariant
                        i <= ids@.len(),
                        self@ == (UndoModel {
                            left: index as nat,
                            undone: before.undone + 1,
                            changed: before.changed + ids@.take(i as int),
                            ..before
                        }),
                    decreases ids@.len() - i,
                {
                    self.changed.push(ids[i]);
                    i += 1;
                    assert(self@.changed =~= before.changed + ids@.take(i as int));
                }
                assert(ids@.take(i as int) =~= ids@);
            },
            UndoOutcome::Stuck(reason) => {
                let item = self.items[index].clone();
                let ghost entry = item@;
                let mut name = String::new();
                append_signed(&mut name, item.track_id);
                name.append(":");
                append_decimal(&mut name, index as u64);
                assert(name@ =~= item_name(entry.track_id, index as int));
                put_note(&mut self.errors, name, reason);
                self.stuck.push(item);
                assert(self@.stuck =~= before.stuck.push(entry));
                self.left = index;
            },
        }
    }

    /// Puts what is left back on the stack and makes the reply.
    pub fn finish(&self, stack: &mut UndoStack) -> (r: FolderUndoResponse)
        requires
            self@.ok(),
            self@.left == 0,
        ensures
            final(stack)@ == self@.closes(old(stack)@),
            r.undone == self@.undone,
            r.track_ids@ == ordered_ids(self@.changed),
            r.op == self@.op,
            r.status == status_of(final(stack)@),
            pair_views(r.errors@) == self@.errors,
    {
        let ghost before = stack@;
        let count: usize = stack.batches.len();
        if count > 0 {
            assert(before.last() == stack.batches@[count - 1]@);
            assert(self@.stuck.len() == self.stuck@.len());
            if self.stuck.len() == 0 {
                stack.batches.pop();
                assert(stack@ =~= before.drop_last());
            } else {
                let mut items: Vec<FolderUndoItem> = Vec::new();
                let mut i: usize = self.stuck.len();
                let ghost turned = self@.stuck.reverse();
                while i > 0
                    invariant
                        i <= self.stuck@.len(),
                        self@.stuck.len() == self.stuck@.len(),
                        turned == self@.stuck.reverse(),
                        item_views(items@) == turned.take(self.stuck@.len() - i),
                    decreases i,
                {
                    i -= 1;
                    let ghost list = item_views(items@);
                    items.push(self.stuck[i].clone());
                    assert(turned[self.stuck@.len() - 1 - i] == self.stuck@[i as int]@);
                    assert(item_views(items@) =~= list.push(self.stuck@[i as int]@));
                    assert(item_views(items@) =~= turned.take(self.stuck@.len() - i));
                }
                assert(item_views(items@) =~= turned);
                let top = FolderUndoBatch { op: stack.batches[count - 1].op, items };
                let ghost entry = top@;
                stack.batches.set(count - 1, top);
                assert(stack@ =~= before.update(before.len() - 1, entry));
            }
        }
        let status = stack.folder_undo_status();
        FolderUndoResponse {
            undone: self.undone,
            track_ids: sort_ids(&self.changed),
            op: self.op,
            status,
            errors: clone_pairs(&self.errors),
        }
    }
}

fn clone_pairs(v: &Vec<(String, String)>) -> (r: Vec<(String, String)>)
    ensures
        pair_views(r@) == pair_views(v@),
{
    let mut r: Vec<(String, String)> = Vec::new();
    let mut i: usize = 0;
    while i < v.len()
        invariant
            i <= v@.len(),
            pair_views(r@) == pair_views(v@).take(i as int),
        decreases v@.len() - i,
    {
        let ghost before = pair_views(r@);
        r.push((v[i].0.clone(), v[i].1.clone()));
        assert(pair_views(v@)[i as int] == (v@[i as int].0@, v@[i as int].1@));
        assert(pair_views(r@) =~= before.push((v@[i as int].0@, v@[i as int].1@)));
        i += 1;
        assert(pair_views(r@) =~= pair_views(v@).take(i as int));
    }
    assert(pair_views(r@) =~= pair_views(v@));
    r
}

/// Every item is either taken back or kept: none is lost while a batch is taken back.
pub proof fn undo_loses_no_item(run: UndoModel, event: UndoEvent)
    requires
        run.ok(),
        run.left > 0,
    ensures
        run.after(event).ok(),
        run.after(event).items == run.items,
        event is Stuck ==> run.after(event).stuck.last() == run.items[run.left - 1],
        event is Undone ==> run.after(event).stuck == run.stuck,
{
}

// ---------------------------------------------------------------- one item

/// What is known of the files and the track of an item.
pub struct UndoFacts {
    /// The file at the target is there.
    pub target_is_file: bool,
    /// The path of the track in normal form, where the track is known: the moved one, or the one
    /// that a copy made.
    pub track_path: Option<String>,
    /// The path of the target in normal form.
    pub target_path: String,
    /// Something is where the file was.
    pub source_exists: bool,
    /// The folder where the file was is there.
    pub parent_is_folder: bool,
}

#[verifier::ext_equal]
pub struct FactsModel {
    pub target_is_file: bool,
    pub track_path: Option<Seq<char>>,
    pub target_path: Seq<char>,
    pub source_exists: bool,
    pub parent_is_folder: bool,
}

impl View for UndoFacts {
    type V = FactsModel;

    open spec fn view(&self) -> FactsModel {
        FactsModel {
            target_is_file: self.target_is_file,
            track_path: text_of(self.track_path),
            target_path: self.target_path@,
            source_exists: self.source_exists,
            parent_is_folder: self.parent_is_folder,
        }
    }
}

/// How an item is taken back.
pub enum UndoStep {
    /// The deleted track comes back from its snapshot.
    Restore(u64),
    /// The file, its lyrics and its track go back to this folder.
    MoveBack { folder: String },
    /// The copy goes, with its lyrics and its track.
    RemoveCopy { track_id: i64 },
    Refuse(String),
}

pub enum UndoStepModel {
    Restore(u64),
    MoveBack { folder: Seq<char> },
    RemoveCopy { track_id: i64 },
    Refuse(Seq<char>),
}

pub open spec fn undo_step_of(s: UndoStep) -> UndoStepModel {
    match s {
        UndoStep::Restore(snapshot) => UndoStepModel::Restore(snapshot),
        UndoStep::MoveBack { folder } => UndoStepModel::MoveBack { folder: folder@ },
        UndoStep::RemoveCopy { track_id } => UndoStepModel::RemoveCopy { track_id },
        UndoStep::Refuse(reason) => UndoStepModel::Refuse(reason@),
    }
}

pub open spec fn undo_of_move(item: UndoItemModel, facts: FactsModel) -> UndoStepModel {
    if !facts.target_is_file {
        UndoStepModel::Refuse("撤回目标文件不存在："@ + item.target)
    } else if facts.track_path is None {
        UndoStepModel::Refuse("移动曲目记录不存在："@ + signed_decimal(item.track_id as int))
    } else if facts.track_path != Some(facts.target_path) {
        UndoStepModel::Refuse("移动曲目路径已变化，拒绝覆盖："@ + item.target)
    } else if facts.source_exists {
        UndoStepModel::Refuse("原文件位置已有文件，未覆盖："@ + item.source)
    } else {
        match parent_of(item.source) {
            None => UndoStepModel::Refuse("原文件没有父目录："@ + item.source),
            Some(folder) => if facts.parent_is_folder {
                UndoStepModel::MoveBack { folder }
            } else {
                UndoStepModel::Refuse("原文件夹不存在："@ + folder)
            },
        }
    }
}

pub open spec fn undo_of_copy(item: UndoItemModel, facts: FactsModel) -> UndoStepModel {
    if !facts.target_is_file {
        UndoStepModel::Refuse("撤回目标文件不存在："@ + item.target)
    } else {
        match item.created_track_id {
            None => UndoStepModel::Refuse("复制操作缺少新曲目记录"@),
            Some(id) => if facts.track_path is None {
                UndoStepModel::Refuse("复制出来的曲目记录不存在："@ + signed_decimal(id as int))
            } else if facts.track_path != Some(facts.target_path) {
                UndoStepModel::Refuse("复制目标已被重新登记，拒绝删除："@ + item.target)
            } else {
                UndoStepModel::RemoveCopy { track_id: id }
            },
        }
    }
}

pub open spec fn undo_of(item: UndoItemModel, facts: FactsModel) -> UndoStepModel {
    match item.op {
        FolderUndoOp::Delete => match item.deleted {
            Some(snapshot) => UndoStepModel::Restore(snapshot),
            None => UndoStepModel::Refuse(
                "删除撤回缺少曲目快照："@ + signed_decimal(item.track_id as int),
            ),
        },
        FolderUndoOp::Move => undo_of_move(item, facts),
        FolderUndoOp::Copy => undo_of_copy(item, facts),
    }
}

fn refuse_text(head: &str, tail: &str) -> (r: UndoStep)
    ensures
        undo_step_of(r) == UndoStepModel::Refuse(head@ + tail@),
{
    let mut reason = head.to_owned();
    reason.append(tail);
    UndoStep::Refuse(reason)
}

fn refuse_id(head: &str, id: i64) -> (r: UndoStep)
    ensures
        undo_step_of(r) == UndoStepModel::Refuse(head@ + signed_decimal(id as int)),
{
    let mut reason = head.to_owned();
    append_signed(&mut reason, id);
    UndoStep::Refuse(reason)
}

fn same_track_path(track: &Option<String>, path: &str) -> (r: bool)
    ensures
        r == (text_of(*track) == Some(path@)),
{
    match track {
        Some(t) => same(t.as_str(), path),
        None => false,
    }
}

fn plan_move(item: &FolderUndoItem, facts: &UndoFacts) -> (r: UndoStep)
    ensures
        undo_step_of(r) == undo_of_move(item@, facts@),
{
    if !facts.target_is_file {
        return refuse_text("撤回目标文件不存在：", item.target.as_str());
    }
    if facts.track_path.is_none() {
        return refuse_id("移动曲目记录不存在：", item.track_id);
    }
    if !same_track_path(&facts.track_path, facts.target_path.as_str()) {
        return refuse_text("移动曲目路径已变化，拒绝覆盖：", item.target.as_str());
    }
    if facts.source_exists {
        return refuse_text("原文件位置已有文件，未覆盖：", item.source.as_str());
    }
    match parent(item.source.as_str()) {
        None => refuse_text("原文件没有父目录：", item.source.as_str()),
        Some(folder) => if facts.parent_is_folder {
            UndoStep::MoveBack { folder }
        } else {
            refuse_text("原文件夹不存在：", folder.as_str())
        },
    }
}

fn plan_copy(item: &FolderUndoItem, facts: &UndoFacts) -> (r: UndoStep)
    ensures
        undo_step_of(r) == undo_of_copy(item@, facts@),
{
    if !facts.target_is_file {
        return refuse_text("撤回目标文件不存在：", item.target.as_str());
    }
    match item.created_track_id {
        None => UndoStep::Refuse("复制操作缺少新曲目记录".to_owned()),
        Some(id) => {
            if facts.track_path.is_none() {
                return refuse_id("复制出来的曲目记录不存在：", id);
            }
            if !same_track_path(&facts.track_path, facts.target_path.as_str()) {
                return refuse_text("复制目标已被重新登记，拒绝删除：", item.target.as_str());
            }
            UndoStep::RemoveCopy { track_id: id }
        },
    }
}

/// Decides how an item is taken back. Paths and tracks are compared first, so that nothing is
/// overwritten or removed that came later.
pub fn undo_folder_item(item: &FolderUndoItem, facts: &UndoFacts) -> (r: UndoStep)
    ensures
        undo_step_of(r) == undo_of(item@, facts@),
{
    match item.op {
        FolderUndoOp::Delete => match item.deleted {
            Some(snapshot) => UndoStep::Restore(snapshot),
            None => refuse_id("删除撤回缺少曲目快照：", item.track_id),
        },
        FolderUndoOp::Move => plan_move(item, facts),
        FolderUndoOp::Copy => plan_copy(item, facts),
    }
}

/// Taking a move back never overwrites a file, and taking a copy back never removes a file that
/// belongs to another track.
pub proof fn undo_overwrites_nothing(item: UndoItemModel, facts: FactsModel)
    ensures
        undo_of(item, facts) is MoveBack ==> item.op == FolderUndoOp::Move && !facts.source_exists
            && facts.target_is_file && facts.track_path == Some(facts.target_path),
        undo_of(item, facts) is RemoveCopy ==> item.op == FolderUndoOp::Copy && facts.track_path
            == Some(facts.target_path) && item.created_track_id is Some,
{
}

} // verus!
