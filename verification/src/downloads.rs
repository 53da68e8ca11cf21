//! The download queue: states and phases, progress, cancelling, pausing and retrying.
//!
//! A queue holds its tasks under distinct ids. Whatever has to be told to the outside is written
//! into the queue itself: the events to publish, and the tokens of the workers to stop.

use std::collections::VecDeque;

use vstd::prelude::*;

use crate::models::{
    audio_of, clone_text, no_speed, page_titles, text_of, video_of, AudioRetry, AudioRetryModel,
    DownloadTask, DownloadVideoPage, Fraction, Moment, PageModel, Platform, Quality, Speed,
    TaskKind, TaskModel, TaskPhase, TaskState, VideoDownloadRequest, VideoInfo, VideoRequestModel,
    VideoRetry, VideoRetryModel,
};
use crate::text::{append_signed, extension, extension_of, has_prefix, lemma_less_irreflexive, less,
    lower, lower_ascii, same, signed_decimal, trim, trimmed};

verus! {

/// The queue keeps this many tasks; beyond that, finished ones leave, oldest first.
pub const MAX_HISTORY: usize = 200;

/// A quarter of a second, in microseconds.
pub const PROGRESS_MIN_INTERVAL: u64 = 250_000;

/// Three seconds, in microseconds.
pub const SPEED_WINDOW: u64 = 3_000_000;

pub const SPEED_SAMPLES: usize = 64;

pub open spec fn terminal(state: TaskState) -> bool {
    state is Done || state is Failed || state is Canceled
}

pub fn is_terminal(state: TaskState) -> (r: bool)
    ensures
        r == terminal(state),
{
    match state {
        TaskState::Done | TaskState::Failed | TaskState::Canceled => true,
        _ => false,
    }
}

/// A worker may no longer write to a task in this state.
pub open spec fn closed_to_workers(state: TaskState) -> bool {
    state is Paused || terminal(state)
}

pub fn stops_worker_updates(state: TaskState) -> (r: bool)
    ensures
        r == closed_to_workers(state),
{
    match state {
        TaskState::Paused => true,
        other => is_terminal(other),
    }
}

/// The samples that are still in the window; the last two always are.
pub open spec fn in_window(samples: Seq<(u64, u64)>, now: u64) -> Seq<(u64, u64)>
    decreases samples.len(),
{
    if samples.len() > 2 && now - samples[0].0 > SPEED_WINDOW {
        in_window(samples.drop_first(), now)
    } else {
        samples
    }
}

/// Bytes over time between the first and the last sample; none where they are too close.
pub open spec fn speed_of(samples: Seq<(u64, u64)>) -> Speed {
    if samples.len() < 2 {
        Speed::zero()
    } else {
        let first = samples[0];
        let last = samples[samples.len() - 1];
        if last.0 - first.0 <= 50_000 || last.1 < first.1 {
            Speed::zero()
        } else {
            Speed { bytes: (last.1 - first.1) as u64, micros: (last.0 - first.0) as u64 }
        }
    }
}

/// The speed over the window, after dropping the samples that left it.
pub fn window_speed(samples: &mut VecDeque<(u64, u64)>, now: u64) -> (speed: Speed)
    ensures
        final(samples)@ == in_window(old(samples)@, now),
        speed == speed_of(final(samples)@),
{
    while samples.len() > 2 && now > samples[0].0 && now - samples[0].0 > SPEED_WINDOW
        invariant
            in_window(samples@, now) == in_window(old(samples)@, now),
        decreases samples.len(),
    {
        let ghost before = samples@;
        let _ = samples.pop_front();
        assert(samples@ =~= before.drop_first());
    }
    if samples.len() < 2 {
        return no_speed();
    }
    let first: (u64, u64) = samples[0];
    let last: (u64, u64) = samples[samples.len() - 1];
    if last.0 <= first.0 || last.0 - first.0 <= 50_000 || last.1 < first.1 {
        return no_speed();
    }
    Speed { bytes: last.1 - first.1, micros: last.0 - first.0 }
}

/// The share that `downloaded` is of a known total; nothing while the total is unknown.
pub open spec fn share(downloaded: u64, total: u64) -> Fraction {
    if total == 0 {
        Fraction::none()
    } else if downloaded >= total {
        Fraction { done: total, whole: total }
    } else {
        Fraction { done: downloaded, whole: total }
    }
}

pub fn share_of(downloaded: u64, total: u64) -> (f: Fraction)
    ensures
        f == share(downloaded, total),
        f.well_formed(),
{
    if total == 0 {
        Fraction { done: 0, whole: 1 }
    } else if downloaded >= total {
        Fraction { done: total, whole: total }
    } else {
        Fraction { done: downloaded, whole: total }
    }
}

/// Whether `new` is ahead of `old` by a hundredth or more.
pub open spec fn ahead_by_percent(new: Fraction, old: Fraction) -> bool {
    100 * (new.done * old.whole - old.done * new.whole) >= new.whole * old.whole
}

pub fn is_ahead_by_percent(new: Fraction, old: Fraction) -> (r: bool)
    requires
        new.well_formed(),
        old.well_formed(),
    ensures
        r == ahead_by_percent(new, old),
{
    proof {
        let m: int = 0xffff_ffff_ffff_ffff;
        lemma_product(new.done as int, old.whole as int, m);
        lemma_product(old.done as int, new.whole as int, m);
        lemma_product(new.whole as int, old.whole as int, m);
        assert(m * m + 99 <= u128::MAX);
        assert(new.whole * old.whole >= 1) by (nonlinear_arith)
            requires
                new.whole >= 1,
                old.whole >= 1,
        ;
    }
    let gained: u128 = (new.done as u128) * (old.whole as u128);
    let had: u128 = (old.done as u128) * (new.whole as u128);
    let base: u128 = (new.whole as u128) * (old.whole as u128);
    gained >= had && gained - had >= (base + 99) / 100
}

proof fn lemma_product(a: int, b: int, m: int)
    requires
        0 <= a <= m,
        0 <= b <= m,
    ensures
        0 <= a * b <= m * m,
{
    assert(0 <= a * b <= m * m) by (nonlinear_arith)
        requires
            0 <= a <= m,
            0 <= b <= m,
    ;
}

/// One task with what its worker needs.
pub struct Entry {
    pub task: DownloadTask,
    /// Stands for the token that stops the worker.
    pub cancel: u64,
    pub audio_retry: Option<AudioRetry>,
    pub video_retry: Option<VideoRetry>,
    /// A short-lived source for the media, to be used once.
    pub prepared_source_url: Option<String>,
    /// Counts the starts that asked for a prepared source.
    pub preparation_attempt: u64,
    /// Moments with the bytes that had arrived by then.
    pub samples: VecDeque<(u64, u64)>,
    /// When the task was last published, and how far it was then.
    pub last_emit: Option<u64>,
    pub last_progress: Option<Fraction>,
}

#[verifier::ext_equal]
pub struct EntryModel {
    pub task: TaskModel,
    pub cancel: u64,
    pub audio_retry: Option<AudioRetryModel>,
    pub video_retry: Option<VideoRetryModel>,
    pub prepared_source_url: Option<Seq<char>>,
    pub preparation_attempt: u64,
    pub samples: Seq<(u64, u64)>,
    pub last_emit: Option<u64>,
    pub last_progress: Option<Fraction>,
}

impl View for Entry {
    type V = EntryModel;

    open spec fn view(&self) -> EntryModel {
        EntryModel {
            task: self.task@,
            cancel: self.cancel,
            audio_retry: audio_of(self.audio_retry),
            video_retry: video_of(self.video_retry),
            prepared_source_url: text_of(self.prepared_source_url),
            preparation_attempt: self.preparation_attempt,
            samples: self.samples@,
            last_emit: self.last_emit,
            last_progress: self.last_progress,
        }
    }
}

impl EntryModel {
    pub open spec fn well_formed(self) -> bool {
        &&& self.task.progress.well_formed()
        &&& self.last_progress matches Some(f) ==> f.well_formed()
    }

    pub open spec fn fresh(task: TaskModel, cancel: u64) -> EntryModel {
        EntryModel {
            task,
            cancel,
            audio_retry: None,
            video_retry: None,
            prepared_source_url: None,
            preparation_attempt: 0,
            samples: Seq::empty(),
            last_emit: None,
            last_progress: None,
        }
    }

    /// The media have to be prepared by someone outside the server.
    pub open spec fn external(self) -> bool {
        ||| self.audio_retry matches Some(r) && r.external_preparation
        ||| self.video_retry matches Some(r) && r.external_preparation
    }

    /// As it is once it was written to and published at `at`.
    pub open spec fn touched(self, at: Moment) -> EntryModel {
        EntryModel {
            task: TaskModel { updated_at: at.wall, ..self.task },
            last_emit: Some(at.mono),
            last_progress: Some(self.task.progress),
            ..self
        }
    }

    pub open spec fn with_task(self, task: TaskModel) -> EntryModel {
        EntryModel { task, ..self }
    }
}

impl Entry {
    pub fn new(task: DownloadTask, cancel: u64) -> (e: Self)
        ensures
            e@ == EntryModel::fresh(task@, cancel),
    {
        Entry {
            task,
            cancel,
            audio_retry: None,
            video_retry: None,
            prepared_source_url: None,
            preparation_attempt: 0,
            samples: VecDeque::new(),
            last_emit: None,
            last_progress: None,
        }
    }

    pub fn wants_prepared_source(&self) -> (r: bool)
        ensures
            r == self@.external(),
    {
        let audio: bool = match &self.audio_retry {
            Some(r) => r.external_preparation,
            None => false,
        };
        let video: bool = match &self.video_retry {
            Some(r) => r.external_preparation,
            None => false,
        };
        audio || video
    }

    fn touch(&mut self, at: Moment)
        ensures
            final(self)@ == old(self)@.touched(at),
    {
        self.task.updated_at = at.wall;
        self.last_emit = Some(at.mono);
        self.last_progress = Some(self.task.progress);
    }
}

/// What the queue wants published.
pub enum Event {
    Updated(DownloadTask),
    List,
}

#[verifier::ext_equal]
pub enum EventModel {
    Updated(TaskModel),
    List,
}

impl View for Event {
    type V = EventModel;

    open spec fn view(&self) -> EventModel {
        match self {
            Event::Updated(t) => EventModel::Updated(t@),
            Event::List => EventModel::List,
        }
    }
}

pub struct DownloadManager {
    pub entries: Vec<Entry>,
    /// How many downloads may run at once.
    pub concurrency: u32,
    pub auto_start: bool,
    /// Counts the explicit starts.
    pub start_generation: u64,
    /// What is to be published, in order.
    pub events: Vec<Event>,
    /// The tokens to fire, in order.
    pub fired: Vec<u64>,
}

#[verifier::ext_equal]
pub struct QueueModel {
    pub entries: Seq<EntryModel>,
    pub concurrency: u32,
    pub auto_start: bool,
    pub start_generation: u64,
    pub events: Seq<EventModel>,
    pub fired: Seq<u64>,
}

pub open spec fn entry_views(entries: Seq<Entry>) -> Seq<EntryModel> {
    entries.map_values(|e: Entry| e@)
}

pub open spec fn event_views(events: Seq<Event>) -> Seq<EventModel> {
    events.map_values(|e: Event| e@)
}

impl View for DownloadManager {
    type V = QueueModel;

    open spec fn view(&self) -> QueueModel {
        QueueModel {
            entries: entry_views(self.entries@),
            concurrency: self.concurrency,
            auto_start: self.auto_start,
            start_generation: self.start_generation,
            events: event_views(self.events@),
            fired: self.fired@,
        }
    }
}

/// Where the task with this id stands, or the length where there is none.
pub open spec fn place(entries: Seq<EntryModel>, id: Seq<char>) -> int
    decreases entries.len(),
{
    if entries.len() == 0 {
        0
    } else if entries[0].task.id == id {
        0
    } else {
        1 + place(entries.drop_first(), id)
    }
}

pub proof fn lemma_place(entries: Seq<EntryModel>, id: Seq<char>)
    ensures
        0 <= place(entries, id) <= entries.len(),
        place(entries, id) < entries.len() ==> entries[place(entries, id)].task.id == id,
        forall|j: int| 0 <= j < place(entries, id) ==> (#[trigger] entries[j]).task.id != id,
    decreases entries.len(),
{
    if entries.len() > 0 && entries[0].task.id != id {
        lemma_place(entries.drop_first(), id);
        assert forall|j: int| 0 <= j < place(entries, id) implies (
        #[trigger] entries[j]).task.id != id by {
            if j > 0 {
                assert(entries[j] == entries.drop_first()[j - 1]);
            }
        }
    }
}

pub proof fn lemma_place_is(entries: Seq<EntryModel>, id: Seq<char>, i: int)
    requires
        0 <= i <= entries.len(),
        i < entries.len() ==> entries[i].task.id == id,
        forall|j: int| 0 <= j < i ==> (#[trigger] entries[j]).task.id != id,
    ensures
        place(entries, id) == i,
    decreases entries.len(),
{
    if entries.len() > 0 && i > 0 {
        assert(entries[0].task.id != id);
        assert forall|j: int| 0 <= j < i - 1 implies (
        #[trigger] entries.drop_first()[j]).task.id != id by {
            assert(entries.drop_first()[j] == entries[j + 1]);
        }
        lemma_place_is(entries.drop_first(), id, i - 1);
    }
}

/// The entries stand in the order of their ids, none twice.
pub open spec fn in_order(entries: Seq<EntryModel>) -> bool {
    forall|i: int, j: int|
        #![trigger entries[i], entries[j]]
        0 <= i < j < entries.len() ==> less(entries[i].task.id, entries[j].task.id)
}

pub open spec fn all_well_formed(entries: Seq<EntryModel>) -> bool {
    forall|i: int| 0 <= i < entries.len() ==> (#[trigger] entries[i]).well_formed()
}

impl QueueModel {
    /// The entries stand in the order of their ids, none twice, and every fraction is one.
    pub open spec fn well_formed(self) -> bool {
        &&& in_order(self.entries)
        &&& all_well_formed(self.entries)
        &&& self.concurrency >= 1
    }

    pub open spec fn has(self, id: Seq<char>) -> bool {
        place(self.entries, id) < self.entries.len()
    }

    pub open spec fn entry(self, id: Seq<char>) -> EntryModel {
        self.entries[place(self.entries, id)]
    }

    /// The queue with another entry in the place of the one with this id.
    pub open spec fn with_entry(self, id: Seq<char>, e: EntryModel) -> QueueModel {
        QueueModel { entries: self.entries.update(place(self.entries, id), e), ..self }
    }

    pub open spec fn without(self, id: Seq<char>) -> QueueModel {
        QueueModel { entries: self.entries.remove(place(self.entries, id)), ..self }
    }

    pub open spec fn publishing(self, task: TaskModel) -> QueueModel {
        QueueModel { events: self.events.push(EventModel::Updated(task)), ..self }
    }

    pub open spec fn publishing_list(self) -> QueueModel {
        QueueModel { events: self.events.push(EventModel::List), ..self }
    }

    pub open spec fn firing(self, token: u64) -> QueueModel {
        QueueModel { fired: self.fired.push(token), ..self }
    }

    /// The entry of this id replaced and published.
    pub open spec fn updated(self, id: Seq<char>, e: EntryModel) -> QueueModel {
        self.with_entry(id, e).publishing(e.task)
    }
}

/// Replacing an entry by one of the same id keeps the queue well formed.
pub proof fn lemma_with_entry(q: QueueModel, id: Seq<char>, e: EntryModel)
    requires
        q.well_formed(),
        q.has(id),
        e.task.id == id,
        e.well_formed(),
    ensures
        q.with_entry(id, e).well_formed(),
        q.with_entry(id, e).has(id),
        q.with_entry(id, e).entry(id) == e,
        place(q.with_entry(id, e).entries, id) == place(q.entries, id),
{
    lemma_place(q.entries, id);
    let i = place(q.entries, id);
    let w = q.with_entry(id, e);
    assert forall|a: int, b: int|
        #![trigger w.entries[a], w.entries[b]]
        0 <= a < b < w.entries.len() implies less(w.entries[a].task.id, w.entries[b].task.id) by {
        assert(q.entries[a].task.id == w.entries[a].task.id);
        assert(q.entries[b].task.id == w.entries[b].task.id);
    }
    assert forall|j: int| 0 <= j < i implies (#[trigger] w.entries[j]).task.id != id by {
        assert(w.entries[j] == q.entries[j]);
    }
    lemma_place_is(w.entries, id, i);
}

pub proof fn lemma_without(q: QueueModel, id: Seq<char>)
    requires
        q.well_formed(),
        q.has(id),
    ensures
        q.without(id).well_formed(),
        !q.without(id).has(id),
{
    lemma_place(q.entries, id);
    let i = place(q.entries, id);
    let w = q.without(id);
    assert forall|a: int, b: int|
        #![trigger w.entries[a], w.entries[b]]
        0 <= a < b < w.entries.len() implies less(w.entries[a].task.id, w.entries[b].task.id) by {
        let x = if a < i {
            a
        } else {
            a + 1
        };
        let y = if b < i {
            b
        } else {
            b + 1
        };
        assert(w.entries[a] == q.entries[x]);
        assert(w.entries[b] == q.entries[y]);
    }
    assert forall|j: int| 0 <= j < w.entries.len() implies (#[trigger] w.entries[j]).well_formed()
        && w.entries[j].task.id != id by {
        let x = if j < i {
            j
        } else {
            j + 1
        };
        assert(w.entries[j] == q.entries[x]);
        lemma_less_irreflexive(id);
        if x < i {
            assert(less(q.entries[x].task.id, q.entries[i].task.id));
        } else {
            assert(less(q.entries[i].task.id, q.entries[x].task.id));
        }
    }
    lemma_place_is(w.entries, id, w.entries.len() as int);
}

impl QueueModel {
    /// The task is there and its worker may write to it.
    pub open spec fn open(self, id: Seq<char>) -> bool {
        self.has(id) && !closed_to_workers(self.entry(id).task.state)
    }
}

pub open spec fn settled(task: TaskModel, state: TaskState, error: Seq<char>) -> TaskModel {
    TaskModel {
        state,
        phase: if state is Done {
            TaskPhase::Completed
        } else {
            task.phase
        },
        error,
        speed_bps: Speed::zero(),
        ..task
    }
}

impl DownloadManager {
    fn find(&self, id: &str) -> (i: usize)
        ensures
            i == place(self@.entries, id@),
            i <= self.entries.len(),
            i < self.entries.len() ==> self@.entries[i as int].task.id == id@,
    {
        let mut i: usize = 0;
        while i < self.entries.len()
            invariant
                i <= self.entries.len(),
                forall|j: int| 0 <= j < i ==> (#[trigger] self@.entries[j]).task.id != id@,
            decreases self.entries.len() - i,
        {
            if same(self.entries[i].task.id.as_str(), id) {
                proof {
                    lemma_place_is(self@.entries, id@, i as int);
                }
                return i;
            }
            i += 1;
        }
        proof {
            lemma_place_is(self@.entries, id@, i as int);
        }
        i
    }

    pub fn get(&self, id: &str) -> (r: Option<DownloadTask>)
        ensures
            match r {
                Some(t) => self@.has(id@) && t@ == self@.entry(id@).task,
                None => !self@.has(id@),
            },
    {
        let i: usize = self.find(id);
        if i < self.entries.len() {
            Some(self.entries[i].task.clone())
        } else {
            None
        }
    }

    fn publish(&mut self, i: usize) -> (t: DownloadTask)
        requires
            i < old(self).entries.len(),
        ensures
            final(self)@ == old(self)@.publishing(old(self)@.entries[i as int].task),
            t@ == old(self)@.entries[i as int].task,
            final(self).entries == old(self).entries,
    {
        let task = self.entries[i].task.clone();
        self.events.push(Event::Updated(task.clone()));
        assert(event_views(self.events@) =~= event_views(old(self).events@).push(
            EventModel::Updated(task@),
        ));
        task
    }

    /// Brings a task to a final state, unless it is closed to its worker.
    pub fn settle(&mut self, id: &str, state: TaskState, error: &str, at: Moment) -> (r: Option<
        DownloadTask,
    >)
        requires
            old(self)@.well_formed(),
        ensures
            final(self)@.well_formed(),
            final(self)@ == settle_step(old(self)@, id@, state, error@, at),
            match r {
                Some(t) => old(self)@.open(id@) && t@ == final(self)@.entry(id@).task,
                None => !old(self)@.open(id@),
            },
    {
        let i: usize = self.find(id);
        if i >= self.entries.len() || stops_worker_updates(self.entries[i].task.state) {
            return None;
        }
        let ghost before = self@;
        let e: &mut Entry = &mut self.entries[i];
        e.task.state = state;
        if let TaskState::Done = state {
            e.task.phase = TaskPhase::Completed;
        }
        e.task.error = error.to_owned();
        e.task.speed_bps = no_speed();
        e.touch(at);
        proof {
            let done = before.entry(id@).with_task(
                settled(before.entry(id@).task, state, error@),
            ).touched(at);
            assert(self@.entries =~= before.entries.update(i as int, done));
            lemma_with_entry(before, id@, done);
        }
        Some(self.publish(i))
    }

    /// The worker enters another phase, unless the task is closed to it.
    pub fn phase(&mut self, id: &str, phase: TaskPhase, at: Moment)
        requires
            old(self)@.well_formed(),
        ensures
            final(self)@.well_formed(),
            final(self)@ == phase_step(old(self)@, id@, phase, at),
    {
        let i: usize = self.find(id);
        if i >= self.entries.len() || stops_worker_updates(self.entries[i].task.state) {
            return;
        }
        let ghost before = self@;
        let e: &mut Entry = &mut self.entries[i];
        e.task.phase = phase;
        e.touch(at);
        proof {
            let old_e = before.entry(id@);
            let new_e = old_e.with_task(TaskModel { phase, ..old_e.task }).touched(at);
            assert(self@.entries =~= before.entries.update(i as int, new_e));
            lemma_with_entry(before, id@, new_e);
        }
        let _ = self.publish(i);
    }

    /// The worker begins: it takes a first sample, unless the task is closed to it.
    pub fn start(&mut self, id: &str, phase: TaskPhase, at: Moment)
        requires
            old(self)@.well_formed(),
        ensures
            final(self)@.well_formed(),
            final(self)@ == start_step(old(self)@, id@, phase, at),
    {
        let i: usize = self.find(id);
        if i >= self.entries.len() || stops_worker_updates(self.entries[i].task.state) {
            return;
        }
        let ghost before = self@;
        let e: &mut Entry = &mut self.entries[i];
        e.samples.push_back((at.mono, 0));
        e.task.state = TaskState::Running;
        e.task.phase = phase;
        e.touch(at);
        proof {
            let new_e = started(before.entry(id@), phase, at);
            assert(self@.entries =~= before.entries.update(i as int, new_e));
            lemma_with_entry(before, id@, new_e);
        }
        let _ = self.publish(i);
    }

    /// Bytes have arrived.
    pub fn progress(&mut self, id: &str, downloaded: u64, total: u64, at: Moment)
        requires
            old(self)@.well_formed(),
        ensures
            final(self)@.well_formed(),
            final(self)@ == progress_step(old(self)@, id@, None, downloaded, total, at),
    {
        self.progress_inner(id, None, downloaded, total, at);
    }

    /// Bytes have arrived for the preparation with this attempt number.
    pub fn preparation_progress(
        &mut self,
        id: &str,
        attempt: u64,
        downloaded: u64,
        total: u64,
        at: Moment,
    )
        requires
            old(self)@.well_formed(),
        ensures
            final(self)@.well_formed(),
            final(self)@ == progress_step(old(self)@, id@, Some(attempt), downloaded, total, at),
    {
        self.progress_inner(id, Some(attempt), downloaded, total, at);
    }

    fn progress_inner(
        &mut self,
        id: &str,
        attempt: Option<u64>,
        downloaded: u64,
        total: u64,
        at: Moment,
    )
        requires
            old(self)@.well_formed(),
        ensures
            final(self)@.well_formed(),
            final(self)@ == progress_step(old(self)@, id@, attempt, downloaded, total, at),
    {
        let i: usize = self.find(id);
        if i >= self.entries.len() {
            return;
        }
        if let Some(n) = attempt {
            if n == 0 || self.entries[i].preparation_attempt != n {
                return;
            }
        }
        if stops_worker_updates(self.entries[i].task.state) {
            return;
        }
        let ghost before = self@;
        let ghost old_e = before.entry(id@);
        proof {
            assert(before.entries[i as int].well_formed());
        }
        let complete: bool = total > 0 && downloaded >= total;
        let progress = share_of(downloaded, total);
        let e: &mut Entry = &mut self.entries[i];
        let entered: bool = match (e.task.state, e.task.phase) {
            (TaskState::Running, TaskPhase::Downloading) => false,
            _ => true,
        };
        let waited: bool = match e.last_emit {
            Some(last) => at.mono >= last && at.mono - last >= PROGRESS_MIN_INTERVAL,
            None => true,
        };
        let moved: bool = match e.last_progress {
            Some(last) => is_ahead_by_percent(progress, last),
            None => true,
        };
        e.task.downloaded_bytes = downloaded;
        if total > 0 {
            e.task.total_bytes = total;
        }
        e.task.progress = progress;
        e.task.state = if complete {
            TaskState::Processing
        } else {
            TaskState::Running
        };
        e.task.phase = if complete {
            TaskPhase::PostProcessing
        } else {
            TaskPhase::Downloading
        };
        e.samples.push_back((at.mono, downloaded));
        let ghost pushed = e.samples@;
        if e.samples.len() > SPEED_SAMPLES {
            let _ = e.samples.pop_front();
            assert(e.samples@ =~= pushed.drop_first());
        }
        let speed = window_speed(&mut e.samples, at.mono);
        e.task.speed_bps = if complete {
            no_speed()
        } else {
            speed
        };
        e.task.updated_at = at.wall;
        let due: bool = entered || complete || waited || moved;
        if due {
            e.last_emit = Some(at.mono);
            e.last_progress = Some(progress);
        }
        proof {
            let new_e = progressed(old_e, downloaded, total, at);
            assert(due == progress_due(old_e, downloaded, total, at));
            assert(self@.entries[i as int].samples == new_e.samples);
            assert(self@.entries =~= before.entries.update(i as int, new_e));
            lemma_with_entry(before, id@, new_e);
        }
        if due {
            let _ = self.publish(i);
        }
    }

    /// The download is complete and stands at `path`.
    pub fn finish(&mut self, id: &str, path: &str, size: u64, track_id: Option<i64>, at: Moment)
        requires
            old(self)@.well_formed(),
        ensures
            final(self)@.well_formed(),
            final(self)@ == finish_step(
                old(self)@,
                id@,
                path@,
                size,
                TaskState::Done,
                Seq::empty(),
                track_id,
                at,
            ),
    {
        let none = String::new();
        assert(none@ =~= Seq::<char>::empty());
        self.finish_file(id, path, size, TaskState::Done, none.as_str(), track_id, at);
    }

    /// The file is there, but what follows failed: it keeps its path and is not done.
    pub fn fail_after_download(&mut self, id: &str, path: &str, size: u64, error: &str, at: Moment)
        requires
            old(self)@.well_formed(),
        ensures
            final(self)@.well_formed(),
            final(self)@ == finish_step(
                old(self)@,
                id@,
                path@,
                size,
                TaskState::Failed,
                error@,
                None,
                at,
            ),
    {
        self.finish_file(id, path, size, TaskState::Failed, error, None, at);
    }

    fn finish_file(
        &mut self,
        id: &str,
        path: &str,
        size: u64,
        state: TaskState,
        error: &str,
        track_id: Option<i64>,
        at: Moment,
    )
        requires
            old(self)@.well_formed(),
        ensures
            final(self)@.well_formed(),
            final(self)@ == finish_step(
                old(self)@,
                id@,
                path@,
                size,
                state,
                error@,
                track_id,
                at,
            ),
    {
        let i: usize = self.find(id);
        if i >= self.entries.len() || stops_worker_updates(self.entries[i].task.state) {
            return;
        }
        let suffix = lower_ascii(extension(path).as_str());
        let ghost before = self@;
        proof {
            assert(before.entries[i as int].well_formed());
        }
        let e: &mut Entry = &mut self.entries[i];
        e.task.state = state;
        if let TaskState::Done = state {
            e.task.phase = TaskPhase::Completed;
            e.task.progress = Fraction { done: 1, whole: 1 };
        }
        e.task.speed_bps = no_speed();
        e.task.path = path.to_owned();
        e.task.error = error.to_owned();
        e.task.track_id = track_id;
        let audio: bool = match e.task.kind {
            TaskKind::Audio => true,
            TaskKind::Video => false,
        };
        if size > 0 {
            e.task.downloaded_bytes = size;
            if audio || e.task.total_bytes < size {
                e.task.total_bytes = size;
            }
        }
        if audio && is_audio_suffix_text(suffix.as_str()) {
            e.task.quality = suffix;
        }
        e.touch(at);
        proof {
            let old_e = before.entry(id@);
            let new_e = old_e.with_task(
                finished(old_e.task, path@, size, state, error@, track_id),
            ).touched(at);
            assert(self@.entries =~= before.entries.update(i as int, new_e));
            lemma_with_entry(before, id@, new_e);
        }
        let _ = self.publish(i);
    }

    /// Takes a task out of the queue before it began, or stops it; a finished task stays as it is.
    pub fn cancel(&mut self, id: &str, at: Moment) -> (r: Option<DownloadTask>)
        requires
            old(self)@.well_formed(),
        ensures
            final(self)@.well_formed(),
            final(self)@ == cancel_step(old(self)@, id@, at),
            match r {
                Some(t) => old(self)@.has(id@) && t@ == if final(self)@.has(id@) {
                    final(self)@.entry(id@).task
                } else {
                    old(self)@.entry(id@).task
                },
                None => !old(self)@.has(id@),
            },
    {
        let i: usize = self.find(id);
        if i >= self.entries.len() {
            return None;
        }
        let ghost before = self@;
        let state = self.entries[i].task.state;
        if let TaskState::Queued = state {
            let removed = self.entries.remove(i);
            self.fired.push(removed.cancel);
            self.events.push(Event::List);
            proof {
                lemma_without(before, id@);
                assert(self@.entries =~= before.entries.remove(i as int));
                assert(self@.events =~= before.events.push(EventModel::List));
                assert(self@ == cancel_step(before, id@, at));
            }
            return Some(removed.task);
        }
        if is_terminal(state) {
            return Some(self.entries[i].task.clone());
        }
        self.fired.push(self.entries[i].cancel);
        let ghost stopped = self@;
        proof {
            assert(stopped == before.firing(before.entry(id@).cancel));
            if !closed_to_workers(state) {
                let e = before.entry(id@);
                let gone = e.with_task(
                    settled(e.task, TaskState::Canceled, "已取消"@),
                ).touched(at);
                lemma_with_entry(before, id@, gone);
            }
        }
        match self.settle(id, TaskState::Canceled, "已取消", at) {
            Some(task) => Some(task),
            None => self.get(id),
        }
    }

    /// Whether the task may be removed: it is finished or paused.
    pub fn remove_finished(&mut self, id: &str) -> (r: Option<DownloadTask>)
        requires
            old(self)@.well_formed(),
        ensures
            final(self)@.well_formed(),
            final(self)@ == remove_step(old(self)@, id@),
            if old(self)@.has(id@) && closed_to_workers(old(self)@.entry(id@).task.state) {
                &&& final(self)@ == old(self)@.without(id@).publishing_list()
                &&& r matches Some(t) && t@ == old(self)@.entry(id@).task
            } else {
                final(self)@ == old(self)@ && r is None
            },
    {
        let i: usize = self.find(id);
        if i >= self.entries.len() || !stops_worker_updates(self.entries[i].task.state) {
            return None;
        }
        let ghost before = self@;
        let removed = self.entries.remove(i);
        self.events.push(Event::List);
        proof {
            lemma_without(before, id@);
            assert(self@.entries =~= before.entries.remove(i as int));
            assert(self@.events =~= before.events.push(EventModel::List));
        }
        Some(removed.task)
    }
}

/// The worker brings an open task to a final state.
pub open spec fn settle_step(
    q: QueueModel,
    id: Seq<char>,
    state: TaskState,
    error: Seq<char>,
    at: Moment,
) -> QueueModel {
    if q.open(id) {
        let e = q.entry(id);
        q.updated(id, e.with_task(settled(e.task, state, error)).touched(at))
    } else {
        q
    }
}

/// The worker of an open task enters another phase.
pub open spec fn phase_step(q: QueueModel, id: Seq<char>, phase: TaskPhase, at: Moment) -> QueueModel {
    if q.open(id) {
        let e = q.entry(id);
        q.updated(id, e.with_task(TaskModel { phase, ..e.task }).touched(at))
    } else {
        q
    }
}

/// The worker of an open task begins.
pub open spec fn start_step(q: QueueModel, id: Seq<char>, phase: TaskPhase, at: Moment) -> QueueModel {
    if q.open(id) {
        q.updated(id, started(q.entry(id), phase, at))
    } else {
        q
    }
}

pub open spec fn started(e: EntryModel, phase: TaskPhase, at: Moment) -> EntryModel {
    EntryModel {
        samples: e.samples.push((at.mono, 0)),
        task: TaskModel { state: TaskState::Running, phase, ..e.task },
        ..e
    }.touched(at)
}

/// Whether a step of progress is worth publishing: a change of phase, a quarter of a second since
/// the last one, or another hundredth.
pub open spec fn progress_due(e: EntryModel, downloaded: u64, total: u64, at: Moment) -> bool {
    ||| !(e.task.state is Running && e.task.phase is Downloading)
    ||| total > 0 && downloaded >= total
    ||| (e.last_emit matches Some(last) ==> at.mono - last >= PROGRESS_MIN_INTERVAL)
    ||| (e.last_progress matches Some(last) ==> ahead_by_percent(share(downloaded, total), last))
}

pub open spec fn sampled(samples: Seq<(u64, u64)>, now: u64, downloaded: u64) -> Seq<(u64, u64)> {
    let all = samples.push((now, downloaded));
    in_window(
        if all.len() > SPEED_SAMPLES {
            all.drop_first()
        } else {
            all
        },
        now,
    )
}

/// The task after a step of progress: once everything of a known total is there, it is being
/// processed and no longer has a speed.
pub open spec fn progressed(e: EntryModel, downloaded: u64, total: u64, at: Moment) -> EntryModel {
    let complete = total > 0 && downloaded >= total;
    let samples = sampled(e.samples, at.mono, downloaded);
    let due = progress_due(e, downloaded, total, at);
    EntryModel {
        task: TaskModel {
            downloaded_bytes: downloaded,
            total_bytes: if total > 0 {
                total
            } else {
                e.task.total_bytes
            },
            progress: share(downloaded, total),
            state: if complete {
                TaskState::Processing
            } else {
                TaskState::Running
            },
            phase: if complete {
                TaskPhase::PostProcessing
            } else {
                TaskPhase::Downloading
            },
            speed_bps: if complete {
                Speed::zero()
            } else {
                speed_of(samples)
            },
            updated_at: at.wall,
            ..e.task
        },
        samples,
        last_emit: if due {
            Some(at.mono)
        } else {
            e.last_emit
        },
        last_progress: if due {
            Some(share(downloaded, total))
        } else {
            e.last_progress
        },
        ..e
    }
}

/// A report of progress counts where the task is open to its worker and the report, if it carries
/// an attempt number, carries the current one.
pub open spec fn progress_step(
    q: QueueModel,
    id: Seq<char>,
    attempt: Option<u64>,
    downloaded: u64,
    total: u64,
    at: Moment,
) -> QueueModel {
    if q.open(id) && (attempt matches Some(n) ==> n > 0 && q.entry(id).preparation_attempt == n) {
        let e = progressed(q.entry(id), downloaded, total, at);
        if progress_due(q.entry(id), downloaded, total, at) {
            q.updated(id, e)
        } else {
            q.with_entry(id, e)
        }
    } else {
        q
    }
}

pub open spec fn is_audio_suffix(s: Seq<char>) -> bool {
    s == "flac"@ || s == "mp3"@ || s == "m4a"@ || s == "wav"@ || s == "aac"@ || s == "ogg"@ || s
        == "opus"@ || s == "mp4"@
}

fn is_audio_suffix_text(s: &str) -> (r: bool)
    ensures
        r == is_audio_suffix(s@),
{
    same(s, "flac") || same(s, "mp3") || same(s, "m4a") || same(s, "wav") || same(s, "aac") || same(
        s,
        "ogg",
    ) || same(s, "opus") || same(s, "mp4")
}

/// The task whose file is complete: its size and, for audio, its quality are those of the file.
pub open spec fn finished(
    task: TaskModel,
    path: Seq<char>,
    size: u64,
    state: TaskState,
    error: Seq<char>,
    track_id: Option<i64>,
) -> TaskModel {
    let suffix = lower(extension_of(path));
    TaskModel {
        progress: if state is Done {
            Fraction::all()
        } else {
            task.progress
        },
        path,
        track_id,
        downloaded_bytes: if size > 0 {
            size
        } else {
            task.downloaded_bytes
        },
        total_bytes: if size > 0 && (task.kind is Audio || task.total_bytes < size) {
            size
        } else {
            task.total_bytes
        },
        quality: if task.kind is Audio && is_audio_suffix(suffix) {
            suffix
        } else {
            task.quality
        },
        ..settled(task, state, error)
    }
}

pub open spec fn finish_step(
    q: QueueModel,
    id: Seq<char>,
    path: Seq<char>,
    size: u64,
    state: TaskState,
    error: Seq<char>,
    track_id: Option<i64>,
    at: Moment,
) -> QueueModel {
    if q.open(id) {
        let e = q.entry(id);
        q.updated(
            id,
            e.with_task(finished(e.task, path, size, state, error, track_id)).touched(at),
        )
    } else {
        q
    }
}

/// Removing: a task that nobody works on leaves, any other stays.
pub open spec fn remove_step(q: QueueModel, id: Seq<char>) -> QueueModel {
    if q.has(id) && closed_to_workers(q.entry(id).task.state) {
        q.without(id).publishing_list()
    } else {
        q
    }
}

/// Cancelling: a queued task leaves, an active one is stopped and marked, a paused one is only
/// stopped, a finished one stays as it is.
pub open spec fn cancel_step(q: QueueModel, id: Seq<char>, at: Moment) -> QueueModel {
    if !q.has(id) || terminal(q.entry(id).task.state) {
        q
    } else if q.entry(id).task.state is Queued {
        q.without(id).firing(q.entry(id).cancel).publishing_list()
    } else if q.entry(id).task.state is Paused {
        q.firing(q.entry(id).cancel)
    } else {
        let e = q.entry(id);
        q.firing(e.cancel).updated(
            id,
            e.with_task(settled(e.task, TaskState::Canceled, "已取消"@)).touched(at),
        )
    }
}

/// Why the queue refuses a request.
#[derive(Debug, Clone, Copy, PartialEq, Eq, Structural)]
pub enum DownloadError {
    NotFound,
    OnlySongsRetry,
    NotASong,
    NotAVideo,
    NotRestartable,
    NoRetryParameters,
    NoDownloadParameters,
    QualityLocked,
    HeightLocked,
    HeightOutOfRange,
    AudioOnly,
    TakesNoPreparedSource,
    PreparationIsStale,
    NeedsNoPreparation,
}

impl DownloadError {
    pub open spec fn text(self) -> Seq<char> {
        match self {
            DownloadError::NotFound => "任务不存在"@,
            DownloadError::OnlySongsRetry => "只有歌曲下载支持重试"@,
            DownloadError::NotASong => "这条任务不是歌曲下载"@,
            DownloadError::NotAVideo => "这条任务不是视频下载"@,
            DownloadError::NotRestartable => "只有暂停或失败的任务可以重新开始"@,
            DownloadError::NoRetryParameters => "这条旧任务没有可用的重试参数"@,
            DownloadError::NoDownloadParameters => "这条旧任务没有可用的下载参数"@,
            DownloadError::QualityLocked => "只有待开始、已暂停或上次失败的歌曲可以改音质"@,
            DownloadError::HeightLocked => "只有待开始、已暂停或上次失败的视频可以改画质"@,
            DownloadError::HeightOutOfRange => "视频画质超出支持范围"@,
            DownloadError::AudioOnly => "纯音频任务没有视频画质"@,
            DownloadError::TakesNoPreparedSource => "这条任务不接受外部准备的媒体源"@,
            DownloadError::PreparationIsStale => "下载准备已经过期，不能替换当前来源"@,
            DownloadError::NeedsNoPreparation => "这条任务不需要外部媒体准备"@,
        }
    }

    pub fn message(self) -> (s: &'static str)
        ensures
            s@ == self.text(),
    {
        match self {
            DownloadError::NotFound => "任务不存在",
            DownloadError::OnlySongsRetry => "只有歌曲下载支持重试",
            DownloadError::NotASong => "这条任务不是歌曲下载",
            DownloadError::NotAVideo => "这条任务不是视频下载",
            DownloadError::NotRestartable => "只有暂停或失败的任务可以重新开始",
            DownloadError::NoRetryParameters => "这条旧任务没有可用的重试参数",
            DownloadError::NoDownloadParameters => "这条旧任务没有可用的下载参数",
            DownloadError::QualityLocked => "只有待开始、已暂停或上次失败的歌曲可以改音质",
            DownloadError::HeightLocked => "只有待开始、已暂停或上次失败的视频可以改画质",
            DownloadError::HeightOutOfRange => "视频画质超出支持范围",
            DownloadError::AudioOnly => "纯音频任务没有视频画质",
            DownloadError::TakesNoPreparedSource => "这条任务不接受外部准备的媒体源",
            DownloadError::PreparationIsStale => "下载准备已经过期，不能替换当前来源",
            DownloadError::NeedsNoPreparation => "这条任务不需要外部媒体准备",
        }
    }
}

/// The entry queued anew: nothing of the last run remains but its parameters.
pub open spec fn requeued(e: EntryModel, cancel: u64, at: Moment) -> EntryModel {
    EntryModel {
        cancel,
        samples: Seq::empty(),
        last_emit: Some(at.mono),
        last_progress: Some(Fraction::none()),
        prepared_source_url: None,
        task: TaskModel {
            state: TaskState::Queued,
            phase: TaskPhase::Waiting,
            progress: Fraction::none(),
            downloaded_bytes: 0,
            total_bytes: 0,
            speed_bps: Speed::zero(),
            path: Seq::empty(),
            error: Seq::empty(),
            track_id: None,
            updated_at: at.wall,
            ..e.task
        },
        ..e
    }
}

pub open spec fn restartable_state(state: TaskState) -> bool {
    state is Paused || state is Failed
}

/// A task whose parameters may still be changed.
pub open spec fn waits_for_start(state: TaskState) -> bool {
    state is Queued || state is Paused || state is Failed
}

pub open spec fn audio_retry_refusal(q: QueueModel, id: Seq<char>) -> Option<DownloadError> {
    if !q.has(id) {
        Some(DownloadError::NotFound)
    } else if q.entry(id).task.kind is Video {
        Some(DownloadError::OnlySongsRetry)
    } else if !restartable_state(q.entry(id).task.state) {
        Some(DownloadError::NotRestartable)
    } else if q.entry(id).audio_retry is None {
        Some(DownloadError::NoRetryParameters)
    } else {
        None
    }
}

pub open spec fn video_retry_refusal(q: QueueModel, id: Seq<char>) -> Option<DownloadError> {
    if !q.has(id) {
        Some(DownloadError::NotFound)
    } else if q.entry(id).task.kind is Audio {
        Some(DownloadError::NotAVideo)
    } else if !restartable_state(q.entry(id).task.state) {
        Some(DownloadError::NotRestartable)
    } else if q.entry(id).video_retry is None {
        Some(DownloadError::NoRetryParameters)
    } else {
        None
    }
}

pub open spec fn quality_refusal(q: QueueModel, id: Seq<char>) -> Option<DownloadError> {
    if !q.has(id) {
        Some(DownloadError::NotFound)
    } else if q.entry(id).task.kind is Video {
        Some(DownloadError::NotASong)
    } else if !waits_for_start(q.entry(id).task.state) {
        Some(DownloadError::QualityLocked)
    } else if q.entry(id).audio_retry is None {
        Some(DownloadError::NoDownloadParameters)
    } else {
        None
    }
}

pub open spec fn height_refusal(q: QueueModel, id: Seq<char>, height: i64) -> Option<
    DownloadError,
> {
    if !(144 <= height <= 4320) {
        Some(DownloadError::HeightOutOfRange)
    } else if !q.has(id) {
        Some(DownloadError::NotFound)
    } else if q.entry(id).task.kind is Audio {
        Some(DownloadError::NotAVideo)
    } else if !waits_for_start(q.entry(id).task.state) {
        Some(DownloadError::HeightLocked)
    } else if q.entry(id).video_retry is None {
        Some(DownloadError::NoDownloadParameters)
    } else if q.entry(id).video_retry->0.request.audio_only {
        Some(DownloadError::AudioOnly)
    } else {
        None
    }
}

pub open spec fn with_quality(e: EntryModel, quality: Quality, at: Moment) -> EntryModel {
    EntryModel {
        audio_retry: Some(AudioRetryModel { quality, ..e.audio_retry->0 }),
        prepared_source_url: None,
        task: TaskModel { quality: quality.name(), updated_at: at.wall, ..e.task },
        ..e
    }
}

pub open spec fn with_height(e: EntryModel, height: i64, at: Moment) -> EntryModel {
    let retry = e.video_retry->0;
    EntryModel {
        video_retry: Some(
            VideoRetryModel {
                request: VideoRequestModel { max_height: height, ..retry.request },
                ..retry
            },
        ),
        prepared_source_url: None,
        task: TaskModel {
            quality: signed_decimal(height as int) + "p"@,
            updated_at: at.wall,
            ..e.task
        },
        ..e
    }
}

pub open spec fn next_attempt(attempt: u64) -> u64 {
    if attempt == u64::MAX {
        attempt
    } else {
        (attempt + 1) as u64
    }
}

/// A queued audio task begins: it asks for its source to be prepared, or resolves it itself.
pub open spec fn audio_started(e: EntryModel, at: Moment) -> EntryModel {
    let external = e.audio_retry->0.external_preparation;
    EntryModel {
        preparation_attempt: if external {
            next_attempt(e.preparation_attempt)
        } else {
            e.preparation_attempt
        },
        ..started(
            e,
            if external {
                TaskPhase::Authorizing
            } else {
                TaskPhase::Resolving
            },
            at,
        )
    }
}

/// A queued video task begins: it is always resolved first.
pub open spec fn video_started(e: EntryModel, at: Moment) -> EntryModel {
    EntryModel {
        preparation_attempt: if e.video_retry->0.external_preparation {
            next_attempt(e.preparation_attempt)
        } else {
            e.preparation_attempt
        },
        ..started(e, TaskPhase::Resolving, at)
    }
}

pub open spec fn attach_refusal(q: QueueModel, id: Seq<char>, attempt: u64) -> Option<
    DownloadError,
> {
    if !q.has(id) {
        Some(DownloadError::NotFound)
    } else if !q.entry(id).external() {
        Some(DownloadError::TakesNoPreparedSource)
    } else if !(attempt > 0 && q.entry(id).preparation_attempt == attempt && (
    q.entry(id).task.state is Running || q.entry(id).task.state is Processing) && q.entry(
        id,
    ).prepared_source_url is None) {
        Some(DownloadError::PreparationIsStale)
    } else {
        None
    }
}

/// A report that a preparation failed counts for the current attempt of an open task.
pub open spec fn failure_counts(e: EntryModel, attempt: u64) -> bool {
    attempt > 0 && e.preparation_attempt == attempt && !closed_to_workers(e.task.state)
}

pub open spec fn preparation_failed(e: EntryModel, error: Seq<char>, at: Moment) -> EntryModel {
    e.with_task(
        TaskModel {
            state: TaskState::Failed,
            phase: TaskPhase::Authorizing,
            error,
            speed_bps: Speed::zero(),
            ..e.task
        },
    ).touched(at)
}

/// The title of a video task whose real title is not known yet.
pub open spec fn placeholder_title(bvid: Seq<char>, url: Seq<char>) -> Seq<char> {
    if trimmed(bvid).len() > 0 {
        trimmed(bvid)
    } else if trimmed(url).len() > 0 {
        trimmed(url)
    } else {
        "视频"@
    }
}

pub fn video_placeholder_title(req: &VideoDownloadRequest) -> (r: String)
    ensures
        r@ == placeholder_title(req.bvid@, req.url@),
{
    let bvid = trim(req.bvid.as_str());
    if !bvid.as_str().is_empty() {
        return bvid;
    }
    let url = trim(req.url.as_str());
    if !url.as_str().is_empty() {
        return url;
    }
    "视频".to_owned()
}

pub open spec fn is_placeholder(e: EntryModel) -> bool {
    let title = e.task.title;
    ||| title.len() == 0
    ||| title == "未命名"@
    ||| "BV"@.is_prefix_of(title)
    ||| e.video_retry matches Some(r) && placeholder_title(r.request.bvid, r.request.url) == title
}

pub open spec fn page_title_at(pages: Seq<Seq<char>>, index: usize) -> Seq<char> {
    if index < pages.len() {
        pages[index as int]
    } else {
        Seq::empty()
    }
}

/// The key always, title, artist and cover only where they are missing.
pub open spec fn with_identity(
    e: EntryModel,
    bvid: Seq<char>,
    title: Seq<char>,
    author: Seq<char>,
    cover: Seq<char>,
) -> EntryModel {
    let key = trimmed(bvid);
    EntryModel {
        task: TaskModel {
            source_key: if key.len() > 0 {
                key
            } else {
                e.task.source_key
            },
            title: if title.len() > 0 && is_placeholder(e) {
                title
            } else {
                e.task.title
            },
            artist: if trimmed(e.task.artist).len() == 0 {
                author
            } else {
                e.task.artist
            },
            cover: if trimmed(e.task.cover).len() == 0 && trimmed(cover).len() > 0 {
                cover
            } else {
                e.task.cover
            },
            ..e.task
        },
        video_retry: match e.video_retry {
            Some(r) if key.len() > 0 => Some(
                VideoRetryModel { request: VideoRequestModel { bvid: key, ..r.request }, ..r },
            ),
            other => other,
        },
        ..e
    }
}

/// For a video that comes in parts: which part the task is about, and how many there are.
pub open spec fn with_page(e: EntryModel, pages: Seq<Seq<char>>) -> EntryModel {
    let index: usize = match e.video_retry {
        Some(r) => r.request.page_index,
        None => 0,
    };
    let count = pages.len() as usize;
    let title = page_title_at(pages, index);
    if e.task.platform is Bilibili {
        EntryModel {
            task: TaskModel { video_page: Some(PageModel { index, count, title }), ..e.task },
            video_retry: match e.video_retry {
                Some(r) => Some(
                    VideoRetryModel {
                        request: VideoRequestModel {
                            page_count: count,
                            page_title: title,
                            ..r.request
                        },
                        ..r
                    },
                ),
                None => None,
            },
            ..e
        }
    } else {
        e
    }
}

/// What resolving a video fills in.
pub open spec fn resolved(
    e: EntryModel,
    bvid: Seq<char>,
    title: Seq<char>,
    author: Seq<char>,
    cover: Seq<char>,
    pages: Seq<Seq<char>>,
    at: Moment,
) -> EntryModel {
    with_page(with_identity(e, bvid, title, author, cover), pages).touched(at)
}

fn fill_identity(e: &mut Entry, info: &VideoInfo)
    ensures
        final(e)@ == with_identity(old(e)@, info.bvid@, info.title@, info.author@, info.cover@),
{
    let is_placeholder_title: bool = match &e.video_retry {
        Some(retry) => same(
            video_placeholder_title(&retry.request).as_str(),
            e.task.title.as_str(),
        ),
        None => false,
    };
    let replace_title: bool = !info.title.as_str().is_empty() && (e.task.title.as_str().is_empty()
        || same(e.task.title.as_str(), "未命名") || has_prefix(e.task.title.as_str(), "BV")
        || is_placeholder_title);
    assert(replace_title == (info.title@.len() > 0 && is_placeholder(old(e)@)));
    let key = trim(info.bvid.as_str());
    if !key.as_str().is_empty() {
        if let Some(retry) = &mut e.video_retry {
            retry.request.bvid = key.clone();
        }
        e.task.source_key = key;
    }
    if replace_title {
        e.task.title = info.title.clone();
    }
    if trim(e.task.artist.as_str()).as_str().is_empty() {
        e.task.artist = info.author.clone();
    }
    if trim(e.task.cover.as_str()).as_str().is_empty() && !trim(
        info.cover.as_str(),
    ).as_str().is_empty() {
        e.task.cover = info.cover.clone();
    }
}

fn fill_page(e: &mut Entry, info: &VideoInfo)
    ensures
        final(e)@ == with_page(old(e)@, page_titles(info.pages@)),
{
    if let Platform::Bilibili = e.task.platform {
        let index: usize = match &e.video_retry {
            Some(retry) => retry.request.page_index,
            None => 0,
        };
        let title: String = if index < info.pages.len() {
            info.pages[index].title.clone()
        } else {
            String::new()
        };
        assert(title@ =~= page_title_at(page_titles(info.pages@), index));
        let count: usize = info.pages.len();
        if let Some(retry) = &mut e.video_retry {
            retry.request.page_count = count;
            retry.request.page_title = title.clone();
        }
        e.task.video_page = Some(DownloadVideoPage { index, count, title });
    }
}

fn reset_for_retry(e: &mut Entry, cancel: u64, at: Moment)
    ensures
        final(e)@ == requeued(old(e)@, cancel, at),
{
    e.cancel = cancel;
    e.samples = VecDeque::new();
    e.last_emit = Some(at.mono);
    e.last_progress = Some(Fraction { done: 0, whole: 1 });
    e.prepared_source_url = None;
    e.task.state = TaskState::Queued;
    e.task.phase = TaskPhase::Waiting;
    e.task.progress = Fraction { done: 0, whole: 1 };
    e.task.downloaded_bytes = 0;
    e.task.total_bytes = 0;
    e.task.speed_bps = no_speed();
    e.task.path = String::new();
    e.task.error = String::new();
    e.task.track_id = None;
    e.task.updated_at = at.wall;
}

impl DownloadManager {
    /// Queues a paused or failed song again, under its old id and with its old parameters.
    pub fn prepare_audio_retry(&mut self, id: &str, cancel: u64, at: Moment) -> (r: Result<
        (DownloadTask, AudioRetry),
        DownloadError,
    >)
        requires
            old(self)@.well_formed(),
        ensures
            final(self)@.well_formed(),
            match audio_retry_refusal(old(self)@, id@) {
                Some(e) => r == Err::<(DownloadTask, AudioRetry), DownloadError>(e) && final(self)@
                    == old(self)@,
                None => {
                    let e = requeued(old(self)@.entry(id@), cancel, at);
                    &&& final(self)@ == old(self)@.updated(id@, e)
                    &&& r matches Ok(found) && found.0@ == e.task && Some(found.1@) == e.audio_retry
                },
            },
    {
        let i: usize = self.find(id);
        if i >= self.entries.len() {
            return Err(DownloadError::NotFound);
        }
        if let TaskKind::Video = self.entries[i].task.kind {
            return Err(DownloadError::OnlySongsRetry);
        }
        match self.entries[i].task.state {
            TaskState::Paused | TaskState::Failed => {},
            _ => return Err(DownloadError::NotRestartable),
        }
        let retry: AudioRetry = match &self.entries[i].audio_retry {
            Some(retry) => retry.clone(),
            None => return Err(DownloadError::NoRetryParameters),
        };
        let ghost before = self@;
        reset_for_retry(&mut self.entries[i], cancel, at);
        proof {
            let new_e = requeued(before.entry(id@), cancel, at);
            assert(self@.entries =~= before.entries.update(i as int, new_e));
            lemma_with_entry(before, id@, new_e);
        }
        let task = self.publish(i);
        Ok((task, retry))
    }

    /// Queues a paused or failed video again, under its old id and with its old parameters.
    pub fn prepare_video_retry(&mut self, id: &str, cancel: u64, at: Moment) -> (r: Result<
        (DownloadTask, VideoRetry),
        DownloadError,
    >)
        requires
            old(self)@.well_formed(),
        ensures
            final(self)@.well_formed(),
            match video_retry_refusal(old(self)@, id@) {
                Some(e) => r == Err::<(DownloadTask, VideoRetry), DownloadError>(e) && final(self)@
                    == old(self)@,
                None => {
                    let e = requeued(old(self)@.entry(id@), cancel, at);
                    &&& final(self)@ == old(self)@.updated(id@, e)
                    &&& r matches Ok(found) && found.0@ == e.task && Some(found.1@) == e.video_retry
                },
            },
    {
        let i: usize = self.find(id);
        if i >= self.entries.len() {
            return Err(DownloadError::NotFound);
        }
        if let TaskKind::Audio = self.entries[i].task.kind {
            return Err(DownloadError::NotAVideo);
        }
        match self.entries[i].task.state {
            TaskState::Paused | TaskState::Failed => {},
            _ => return Err(DownloadError::NotRestartable),
        }
        let retry: VideoRetry = match &self.entries[i].video_retry {
            Some(retry) => retry.clone(),
            None => return Err(DownloadError::NoRetryParameters),
        };
        let ghost before = self@;
        reset_for_retry(&mut self.entries[i], cancel, at);
        proof {
            let new_e = requeued(before.entry(id@), cancel, at);
            assert(self@.entries =~= before.entries.update(i as int, new_e));
            lemma_with_entry(before, id@, new_e);
        }
        let task = self.publish(i);
        Ok((task, retry))
    }

    /// Changes the quality of a song that has not begun: for the worker and for display at once.
    pub fn set_queued_audio_quality(&mut self, id: &str, quality: Quality, at: Moment) -> (r:
        Result<DownloadTask, DownloadError>)
        requires
            old(self)@.well_formed(),
        ensures
            final(self)@.well_formed(),
            match quality_refusal(old(self)@, id@) {
                Some(e) => r == Err::<DownloadTask, DownloadError>(e) && final(self)@ == old(
                    self,
                )@,
                None => {
                    let e = with_quality(old(self)@.entry(id@), quality, at);
                    &&& final(self)@ == old(self)@.updated(id@, e)
                    &&& r matches Ok(t) && t@ == e.task
                },
            },
    {
        let i: usize = self.find(id);
        if i >= self.entries.len() {
            return Err(DownloadError::NotFound);
        }
        if let TaskKind::Video = self.entries[i].task.kind {
            return Err(DownloadError::NotASong);
        }
        match self.entries[i].task.state {
            TaskState::Queued | TaskState::Paused | TaskState::Failed => {},
            _ => return Err(DownloadError::QualityLocked),
        }
        if self.entries[i].audio_retry.is_none() {
            return Err(DownloadError::NoDownloadParameters);
        }
        let ghost before = self@;
        proof {
            assert(before.entries[i as int].well_formed());
        }
        let e: &mut Entry = &mut self.entries[i];
        if let Some(retry) = &mut e.audio_retry {
            retry.quality = quality;
        }
        e.prepared_source_url = None;
        e.task.quality = quality.as_str().to_owned();
        e.task.updated_at = at.wall;
        proof {
            let new_e = with_quality(before.entry(id@), quality, at);
            assert(self@.entries =~= before.entries.update(i as int, new_e));
            lemma_with_entry(before, id@, new_e);
        }
        Ok(self.publish(i))
    }

    /// Changes the height of a video that has not begun.
    pub fn set_pending_video_height(&mut self, id: &str, max_height: i64, at: Moment) -> (r: Result<
        DownloadTask,
        DownloadError,
    >)
        requires
            old(self)@.well_formed(),
        ensures
            final(self)@.well_formed(),
            match height_refusal(old(self)@, id@, max_height) {
                Some(e) => r == Err::<DownloadTask, DownloadError>(e) && final(self)@ == old(
                    self,
                )@,
                None => {
                    let e = with_height(old(self)@.entry(id@), max_height, at);
                    &&& final(self)@ == old(self)@.updated(id@, e)
                    &&& r matches Ok(t) && t@ == e.task
                },
            },
    {
        if max_height < 144 || max_height > 4320 {
            return Err(DownloadError::HeightOutOfRange);
        }
        let i: usize = self.find(id);
        if i >= self.entries.len() {
            return Err(DownloadError::NotFound);
        }
        if let TaskKind::Audio = self.entries[i].task.kind {
            return Err(DownloadError::NotAVideo);
        }
        match self.entries[i].task.state {
            TaskState::Queued | TaskState::Paused | TaskState::Failed => {},
            _ => return Err(DownloadError::HeightLocked),
        }
        match &self.entries[i].video_retry {
            Some(retry) => if retry.request.audio_only {
                return Err(DownloadError::AudioOnly);
            },
            None => return Err(DownloadError::NoDownloadParameters),
        }
        let mut quality = String::new();
        append_signed(&mut quality, max_height);
        quality.append("p");
        assert(quality@ =~= signed_decimal(max_height as int) + "p"@);
        let ghost before = self@;
        proof {
            assert(before.entries[i as int].well_formed());
        }
        let e: &mut Entry = &mut self.entries[i];
        if let Some(retry) = &mut e.video_retry {
            retry.request.max_height = max_height;
        }
        e.prepared_source_url = None;
        e.task.quality = quality;
        e.task.updated_at = at.wall;
        proof {
            let new_e = with_height(before.entry(id@), max_height, at);
            assert(self@.entries =~= before.entries.update(i as int, new_e));
            lemma_with_entry(before, id@, new_e);
        }
        Ok(self.publish(i))
    }

    /// A worker takes up a queued song and learns its parameters.
    pub fn start_audio(&mut self, id: &str, at: Moment) -> (r: Option<AudioRetry>)
        requires
            old(self)@.well_formed(),
        ensures
            final(self)@.well_formed(),
            if old(self)@.has(id@) && old(self)@.entry(id@).task.state is Queued && old(
                self,
            )@.entry(id@).audio_retry is Some {
                &&& final(self)@ == old(self)@.updated(
                    id@,
                    audio_started(old(self)@.entry(id@), at),
                )
                &&& audio_of(r) == old(self)@.entry(id@).audio_retry
            } else {
                final(self)@ == old(self)@ && r is None
            },
    {
        let i: usize = self.find(id);
        if i >= self.entries.len() {
            return None;
        }
        match self.entries[i].task.state {
            TaskState::Queued => {},
            _ => return None,
        }
        let retry: AudioRetry = match &self.entries[i].audio_retry {
            Some(retry) => retry.clone(),
            None => return None,
        };
        let ghost before = self@;
        proof {
            assert(before.entries[i as int].well_formed());
        }
        let e: &mut Entry = &mut self.entries[i];
        if retry.external_preparation {
            e.preparation_attempt = e.preparation_attempt.saturating_add(1);
        }
        e.samples.push_back((at.mono, 0));
        e.task.state = TaskState::Running;
        e.task.phase = if retry.external_preparation {
            TaskPhase::Authorizing
        } else {
            TaskPhase::Resolving
        };
        e.touch(at);
        proof {
            let new_e = audio_started(before.entry(id@), at);
            assert(self@.entries =~= before.entries.update(i as int, new_e));
            lemma_with_entry(before, id@, new_e);
        }
        let _ = self.publish(i);
        Some(retry)
    }

    /// A worker takes up a queued video and learns its parameters.
    pub fn start_video(&mut self, id: &str, at: Moment) -> (r: Option<VideoRetry>)
        requires
            old(self)@.well_formed(),
        ensures
            final(self)@.well_formed(),
            if old(self)@.has(id@) && old(self)@.entry(id@).task.state is Queued && old(
                self,
            )@.entry(id@).video_retry is Some {
                &&& final(self)@ == old(self)@.updated(
                    id@,
                    video_started(old(self)@.entry(id@), at),
                )
                &&& video_of(r) == old(self)@.entry(id@).video_retry
            } else {
                final(self)@ == old(self)@ && r is None
            },
    {
        let i: usize = self.find(id);
        if i >= self.entries.len() {
            return None;
        }
        match self.entries[i].task.state {
            TaskState::Queued => {},
            _ => return None,
        }
        let retry: VideoRetry = match &self.entries[i].video_retry {
            Some(retry) => retry.clone(),
            None => return None,
        };
        let ghost before = self@;
        proof {
            assert(before.entries[i as int].well_formed());
        }
        let e: &mut Entry = &mut self.entries[i];
        if retry.external_preparation {
            e.preparation_attempt = e.preparation_attempt.saturating_add(1);
        }
        e.samples.push_back((at.mono, 0));
        e.task.state = TaskState::Running;
        e.task.phase = TaskPhase::Resolving;
        e.touch(at);
        proof {
            let new_e = video_started(before.entry(id@), at);
            assert(self@.entries =~= before.entries.update(i as int, new_e));
            lemma_with_entry(before, id@, new_e);
        }
        let _ = self.publish(i);
        Some(retry)
    }

    /// Writes what resolving the video brought into the task and its parameters.
    pub fn apply_video_resolution(&mut self, id: &str, info: &VideoInfo, at: Moment)
        requires
            old(self)@.well_formed(),
        ensures
            final(self)@.well_formed(),
            final(self)@ == if old(self)@.has(id@) {
                old(self)@.updated(
                    id@,
                    resolved(
                        old(self)@.entry(id@),
                        info.bvid@,
                        info.title@,
                        info.author@,
                        info.cover@,
                        page_titles(info.pages@),
                        at,
                    ),
                )
            } else {
                old(self)@
            },
    {
        let i: usize = self.find(id);
        if i >= self.entries.len() {
            return;
        }
        let ghost before = self@;
        let ghost old_e = before.entry(id@);
        proof {
            assert(before.entries[i as int].well_formed());
        }
        let e: &mut Entry = &mut self.entries[i];
        fill_identity(e, info);
        fill_page(e, info);
        e.touch(at);
        proof {
            let new_e = resolved(
                old_e,
                info.bvid@,
                info.title@,
                info.author@,
                info.cover@,
                page_titles(info.pages@),
                at,
            );
            assert(self@.entries =~= before.entries.update(i as int, new_e));
            lemma_with_entry(before, id@, new_e);
        }
        let _ = self.publish(i);
    }

    /// Whether a preparation with this attempt number is still waited for.
    pub fn preparation_is_current(&self, id: &str, attempt: u64) -> (r: bool)
        ensures
            r == (self@.has(id@) && {
                let e = self@.entry(id@);
                &&& attempt > 0
                &&& e.preparation_attempt == attempt
                &&& (e.task.state is Running || e.task.state is Processing)
                &&& !(e.task.phase is Waiting || e.task.phase is Resolving)
                &&& e.prepared_source_url is None
                &&& e.external()
            }),
    {
        let i: usize = self.find(id);
        if i >= self.entries.len() {
            return false;
        }
        let e = &self.entries[i];
        let running: bool = match e.task.state {
            TaskState::Running | TaskState::Processing => true,
            _ => false,
        };
        let early: bool = match e.task.phase {
            TaskPhase::Waiting | TaskPhase::Resolving => true,
            _ => false,
        };
        attempt > 0 && e.preparation_attempt == attempt && running && !early
            && e.prepared_source_url.is_none() && e.wants_prepared_source()
    }

    /// The request that a video preparation with this attempt number is for.
    pub fn video_preparation_request(&self, id: &str, attempt: u64) -> (r: Option<
        VideoDownloadRequest,
    >)
        ensures
            match r {
                Some(request) => self@.has(id@) && self@.entry(id@).preparation_attempt == attempt
                    && (self@.entry(id@).video_retry matches Some(v) && v.external_preparation
                    && v.request == request@),
                None => !(self@.has(id@) && self@.entry(id@).preparation_attempt == attempt && (
                self@.entry(id@).video_retry matches Some(v) && v.external_preparation)),
            },
    {
        let i: usize = self.find(id);
        if i >= self.entries.len() || self.entries[i].preparation_attempt != attempt {
            return None;
        }
        match &self.entries[i].video_retry {
            Some(retry) => if retry.external_preparation {
                Some(retry.request.clone())
            } else {
                None
            },
            None => None,
        }
    }

    /// Hands a prepared source to the task whose current attempt asked for it.
    pub fn attach_prepared_source(&mut self, id: &str, attempt: u64, url: String) -> (r: Result<
        (),
        DownloadError,
    >)
        requires
            old(self)@.well_formed(),
        ensures
            final(self)@.well_formed(),
            match attach_refusal(old(self)@, id@, attempt) {
                Some(e) => r == Err::<(), DownloadError>(e) && final(self)@ == old(self)@,
                None => r is Ok && final(self)@ == old(self)@.with_entry(
                    id@,
                    EntryModel { prepared_source_url: Some(url@), ..old(self)@.entry(id@) },
                ),
            },
    {
        let i: usize = self.find(id);
        if i >= self.entries.len() {
            return Err(DownloadError::NotFound);
        }
        if !self.entries[i].wants_prepared_source() {
            return Err(DownloadError::TakesNoPreparedSource);
        }
        let running: bool = match self.entries[i].task.state {
            TaskState::Running | TaskState::Processing => true,
            _ => false,
        };
        if !(attempt > 0 && self.entries[i].preparation_attempt == attempt && running
            && self.entries[i].prepared_source_url.is_none()) {
            return Err(DownloadError::PreparationIsStale);
        }
        let ghost before = self@;
        proof {
            assert(before.entries[i as int].well_formed());
        }
        let ghost given = url@;
        self.entries[i].prepared_source_url = Some(url);
        proof {
            let new_e = EntryModel { prepared_source_url: Some(given), ..before.entry(id@) };
            assert(self@.entries =~= before.entries.update(i as int, new_e));
            lemma_with_entry(before, id@, new_e);
        }
        Ok(())
    }

    /// Marks the task failed whose current attempt could not be prepared; a late report changes
    /// nothing.
    pub fn fail_preparation(&mut self, id: &str, attempt: u64, error: &str, at: Moment) -> (r:
        Result<DownloadTask, DownloadError>)
        requires
            old(self)@.well_formed(),
        ensures
            final(self)@.well_formed(),
            if !old(self)@.has(id@) {
                r == Err::<DownloadTask, DownloadError>(DownloadError::NotFound) && final(self)@
                    == old(self)@
            } else if !old(self)@.entry(id@).external() {
                r == Err::<DownloadTask, DownloadError>(DownloadError::NeedsNoPreparation)
                    && final(self)@ == old(self)@
            } else if !failure_counts(old(self)@.entry(id@), attempt) {
                &&& final(self)@ == old(self)@
                &&& r matches Ok(t) && t@ == old(self)@.entry(id@).task
            } else {
                let e = preparation_failed(old(self)@.entry(id@), error@, at);
                &&& final(self)@ == old(self)@.firing(old(self)@.entry(id@).cancel).updated(id@, e)
                &&& r matches Ok(t) && t@ == e.task
            },
    {
        let i: usize = self.find(id);
        if i >= self.entries.len() {
            return Err(DownloadError::NotFound);
        }
        if !self.entries[i].wants_prepared_source() {
            return Err(DownloadError::NeedsNoPreparation);
        }
        if attempt == 0 || self.entries[i].preparation_attempt != attempt || stops_worker_updates(
            self.entries[i].task.state,
        ) {
            return Ok(self.entries[i].task.clone());
        }
        let ghost before = self@;
        proof {
            assert(before.entries[i as int].well_formed());
        }
        self.fired.push(self.entries[i].cancel);
        let e: &mut Entry = &mut self.entries[i];
        e.task.state = TaskState::Failed;
        e.task.phase = TaskPhase::Authorizing;
        e.task.error = error.to_owned();
        e.task.speed_bps = no_speed();
        e.touch(at);
        proof {
            let new_e = preparation_failed(before.entry(id@), error@, at);
            assert(self@.entries =~= before.entries.update(i as int, new_e));
            lemma_with_entry(before, id@, new_e);
        }
        Ok(self.publish(i))
    }

    pub fn peek_prepared_source_url(&self, id: &str) -> (r: Option<String>)
        ensures
            text_of(r) == if self@.has(id@) {
                self@.entry(id@).prepared_source_url
            } else {
                None
            },
    {
        let i: usize = self.find(id);
        if i >= self.entries.len() {
            return None;
        }
        clone_text(&self.entries[i].prepared_source_url)
    }

    /// Takes the prepared source away: it is used once.
    pub fn take_prepared_source_url(&mut self, id: &str) -> (r: Option<String>)
        requires
            old(self)@.well_formed(),
        ensures
            final(self)@.well_formed(),
            if old(self)@.has(id@) {
                &&& text_of(r) == old(self)@.entry(id@).prepared_source_url
                &&& final(self)@ == old(self)@.with_entry(
                    id@,
                    EntryModel { prepared_source_url: None, ..old(self)@.entry(id@) },
                )
            } else {
                r is None && final(self)@ == old(self)@
            },
    {
        let i: usize = self.find(id);
        if i >= self.entries.len() {
            return None;
        }
        let ghost before = self@;
        proof {
            assert(before.entries[i as int].well_formed());
        }
        let taken = self.entries[i].prepared_source_url.take();
        proof {
            let new_e = EntryModel { prepared_source_url: None, ..before.entry(id@) };
            assert(self@.entries =~= before.entries.update(i as int, new_e));
            lemma_with_entry(before, id@, new_e);
        }
        taken
    }
}

} // verus!
