//! The download queue as a whole: adding tasks, keeping it short, listing it, and what is done to
//! all of its tasks at once.

use vstd::prelude::*;

use crate::downloads::{
    all_well_formed, entry_views, event_views, in_order, is_terminal, lemma_place_is, place,
    restartable_state, settled, terminal, DownloadManager, Entry, EntryModel, Event, EventModel,
    QueueModel, MAX_HISTORY,
};
use crate::models::{
    no_speed, AudioRetry, DownloadTask, Moment, Platform, Quality, SongSource, SongSourceModel,
    Speed, TaskKind, TaskModel, TaskPhase, TaskState, VideoDownloadRequest, VideoRequestModel,
    VideoRetry,
};
use crate::text::{lemma_less_irreflexive, lemma_less_total, lemma_less_transitive, less, less_text,
    same};

verus! {

/// How many entries stand before the place for an id.
pub open spec fn slot(entries: Seq<EntryModel>, id: Seq<char>) -> int
    decreases entries.len(),
{
    if entries.len() > 0 && less(entries[0].task.id, id) {
        1 + slot(entries.drop_first(), id)
    } else {
        0
    }
}

/// The entries with `e` under its id: in the place of the one that had it, or between its
/// neighbours.
pub open spec fn inserted(entries: Seq<EntryModel>, e: EntryModel) -> Seq<EntryModel> {
    let p = slot(entries, e.task.id);
    if p < entries.len() && entries[p].task.id == e.task.id {
        entries.update(p, e)
    } else {
        entries.insert(p, e)
    }
}

pub proof fn lemma_slot_is(entries: Seq<EntryModel>, id: Seq<char>, p: int)
    requires
        0 <= p <= entries.len(),
        forall|j: int| 0 <= j < p ==> less((#[trigger] entries[j]).task.id, id),
        p < entries.len() ==> !less(entries[p].task.id, id),
    ensures
        slot(entries, id) == p,
    decreases entries.len(),
{
    if p > 0 {
        assert(less(entries[0].task.id, id));
        assert forall|j: int| 0 <= j < p - 1 implies less(
            (#[trigger] entries.drop_first()[j]).task.id,
            id,
        ) by {
            assert(entries.drop_first()[j] == entries[j + 1]);
        }
        lemma_slot_is(entries.drop_first(), id, p - 1);
    }
}

pub proof fn lemma_slot(entries: Seq<EntryModel>, id: Seq<char>)
    ensures
        0 <= slot(entries, id) <= entries.len(),
        forall|j: int| 0 <= j < slot(entries, id) ==> less((#[trigger] entries[j]).task.id, id),
        slot(entries, id) < entries.len() ==> !less(entries[slot(entries, id)].task.id, id),
    decreases entries.len(),
{
    if entries.len() > 0 && less(entries[0].task.id, id) {
        lemma_slot(entries.drop_first(), id);
        assert forall|j: int| 0 <= j < slot(entries, id) implies less(
            (#[trigger] entries[j]).task.id,
            id,
        ) by {
            if j > 0 {
                assert(entries[j] == entries.drop_first()[j - 1]);
            }
        }
    }
}

/// Adding an entry keeps the order, and the entry is then the one under its id.
pub proof fn lemma_inserted(entries: Seq<EntryModel>, e: EntryModel)
    requires
        in_order(entries),
        all_well_formed(entries),
        e.well_formed(),
    ensures
        in_order(inserted(entries, e)),
        all_well_formed(inserted(entries, e)),
        place(inserted(entries, e), e.task.id) < inserted(entries, e).len(),
        inserted(entries, e)[place(inserted(entries, e), e.task.id)] == e,
{
    let id = e.task.id;
    let p = slot(entries, id);
    let w = inserted(entries, e);
    lemma_slot(entries, id);
    lemma_less_irreflexive(id);
    let replaces = p < entries.len() && entries[p].task.id == id;
    assert forall|k: int| p <= k < entries.len() && !(replaces && k == p) implies less(
        id,
        (#[trigger] entries[k]).task.id,
    ) by {
        if entries[p].task.id != id {
            lemma_less_total(entries[p].task.id, id);
        }
        if k > p {
            assert(less(entries[p].task.id, entries[k].task.id));
            if entries[p].task.id != id {
                lemma_less_transitive(id, entries[p].task.id, entries[k].task.id);
            }
        }
    }
    assert forall|a: int, b: int|
        #![trigger w[a], w[b]]
        0 <= a < b < w.len() implies less(w[a].task.id, w[b].task.id) by {
        if replaces {
            assert(w[a].task.id == entries[a].task.id);
            assert(w[b].task.id == entries[b].task.id);
        } else {
            let x = if a < p {
                a
            } else {
                a - 1
            };
            let y = if b < p {
                b
            } else {
                b - 1
            };
            if a != p {
                assert(w[a] == entries[x]);
            }
            if b != p {
                assert(w[b] == entries[y]);
            }
        }
    }
    assert forall|a: int| 0 <= a < w.len() implies (#[trigger] w[a]).well_formed() by {
        if a != p {
            let x = if a < p || replaces {
                a
            } else {
                a - 1
            };
            assert(w[a] == entries[x]);
        }
    }
    assert forall|j: int| 0 <= j < p implies (#[trigger] w[j]).task.id != id by {
        assert(w[j] == entries[j]);
    }
    assert(w[p] == e);
    lemma_place_is(w, id, p);
}

/// The oldest finished task, or -1 where none is finished. Among equals the first one counts.
pub open spec fn oldest_finished(entries: Seq<EntryModel>) -> int
    decreases entries.len(),
{
    if entries.len() == 0 {
        -1
    } else {
        let last = entries.len() - 1;
        let p = oldest_finished(entries.drop_last());
        if !terminal(entries[last].task.state) {
            p
        } else if p < 0 || entries[last].task.created_at < entries[p].task.created_at {
            last
        } else {
            p
        }
    }
}

/// The oldest finished task is finished, and none that is finished is older.
pub proof fn lemma_oldest_finished(entries: Seq<EntryModel>)
    ensures
        -1 <= oldest_finished(entries) < entries.len(),
        oldest_finished(entries) >= 0 ==> terminal(entries[oldest_finished(entries)].task.state),
        forall|k: int|
            #![trigger entries[k]]
            0 <= k < entries.len() && terminal(entries[k].task.state) ==> oldest_finished(entries)
                >= 0 && entries[oldest_finished(entries)].task.created_at
                <= entries[k].task.created_at,
    decreases entries.len(),
{
    if entries.len() > 0 {
        lemma_oldest_finished(entries.drop_last());
        let p = oldest_finished(entries.drop_last());
        assert(p >= 0 ==> entries.drop_last()[p] == entries[p]);
        assert forall|k: int|
            #![trigger entries[k]]
            0 <= k < entries.len() && terminal(entries[k].task.state) implies oldest_finished(
            entries,
        ) >= 0 && entries[oldest_finished(entries)].task.created_at
            <= entries[k].task.created_at by {
            if k < entries.len() - 1 {
                assert(entries.drop_last()[k] == entries[k]);
            }
        }
    }
}

/// The entries that stay: while there are too many, the oldest finished one leaves. What is not
/// finished never leaves.
pub open spec fn shortened(entries: Seq<EntryModel>) -> Seq<EntryModel>
    decreases entries.len(),
{
    let p = oldest_finished(entries);
    if entries.len() > MAX_HISTORY && 0 <= p < entries.len() {
        shortened(entries.remove(p))
    } else {
        entries
    }
}

proof fn lemma_remove_keeps(entries: Seq<EntryModel>, p: int)
    requires
        in_order(entries),
        all_well_formed(entries),
        0 <= p < entries.len(),
    ensures
        in_order(entries.remove(p)),
        all_well_formed(entries.remove(p)),
{
    let w = entries.remove(p);
    assert forall|a: int, b: int|
        #![trigger w[a], w[b]]
        0 <= a < b < w.len() implies less(w[a].task.id, w[b].task.id) by {
        let x = if a < p {
            a
        } else {
            a + 1
        };
        let y = if b < p {
            b
        } else {
            b + 1
        };
        assert(w[a] == entries[x]);
        assert(w[b] == entries[y]);
    }
    assert forall|a: int| 0 <= a < w.len() implies (#[trigger] w[a]).well_formed() by {
        let x = if a < p {
            a
        } else {
            a + 1
        };
        assert(w[a] == entries[x]);
    }
}

pub proof fn lemma_shortened(entries: Seq<EntryModel>)
    requires
        in_order(entries),
        all_well_formed(entries),
    ensures
        in_order(shortened(entries)),
        all_well_formed(shortened(entries)),
    decreases entries.len(),
{
    let p = oldest_finished(entries);
    if entries.len() > MAX_HISTORY && 0 <= p < entries.len() {
        lemma_remove_keeps(entries, p);
        lemma_shortened(entries.remove(p));
    }
}

impl QueueModel {
    pub open spec fn with_entries(self, entries: Seq<EntryModel>) -> QueueModel {
        QueueModel { entries, ..self }
    }
}

impl DownloadManager {
    /// An empty queue.
    pub fn new(concurrency: u32, auto_start: bool) -> (m: Self)
        ensures
            m@.well_formed(),
            m@ == (QueueModel {
                entries: Seq::empty(),
                concurrency: if concurrency == 0 {
                    1
                } else {
                    concurrency
                },
                auto_start,
                start_generation: 0,
                events: Seq::empty(),
                fired: Seq::empty(),
            }),
    {
        let m = DownloadManager {
            entries: Vec::new(),
            concurrency: if concurrency == 0 {
                1
            } else {
                concurrency
            },
            auto_start,
            start_generation: 0,
            events: Vec::new(),
            fired: Vec::new(),
        };
        assert(m@.entries =~= Seq::<EntryModel>::empty());
        assert(m@.events =~= Seq::<EventModel>::empty());
        m
    }

    /// Sets how many downloads may run at once, at least one. The result says whether the limiter
    /// has to be built anew: an unchanged number keeps the one that tasks already hold.
    pub fn set_concurrency(&mut self, concurrency: u32) -> (rebuild: bool)
        requires
            old(self)@.well_formed(),
        ensures
            final(self)@.well_formed(),
            final(self)@ == (QueueModel {
                concurrency: if concurrency == 0 {
                    1
                } else {
                    concurrency
                },
                ..old(self)@
            }),
            rebuild == (final(self).concurrency != old(self).concurrency),
    {
        let wanted: u32 = if concurrency == 0 {
            1
        } else {
            concurrency
        };
        if self.concurrency == wanted {
            return false;
        }
        self.concurrency = wanted;
        true
    }

    pub fn set_auto_start(&mut self, enabled: bool)
        requires
            old(self)@.well_formed(),
        ensures
            final(self)@.well_formed(),
            final(self)@ == (QueueModel { auto_start: enabled, ..old(self)@ }),
    {
        self.auto_start = enabled;
    }

    pub fn auto_start_enabled(&self) -> (r: bool)
        ensures
            r == self@.auto_start,
    {
        self.auto_start
    }

    pub fn start_generation(&self) -> (r: u64)
        ensures
            r == self@.start_generation,
    {
        self.start_generation
    }

    /// An explicit start: it releases what is queued now, and nothing that is queued later.
    pub fn release_queued(&mut self)
        requires
            old(self)@.well_formed(),
            old(self)@.start_generation < u64::MAX,
        ensures
            final(self)@.well_formed(),
            final(self)@ == (QueueModel {
                start_generation: (old(self)@.start_generation + 1) as u64,
                ..old(self)@
            }),
    {
        self.start_generation = self.start_generation + 1;
    }

    pub fn broadcast_list(&mut self)
        requires
            old(self)@.well_formed(),
        ensures
            final(self)@.well_formed(),
            final(self)@ == old(self)@.publishing_list(),
    {
        self.events.push(Event::List);
        assert(self@.events =~= old(self)@.events.push(EventModel::List));
    }

    /// Hands out what is to be published.
    pub fn take_events(&mut self) -> (r: Vec<Event>)
        requires
            old(self)@.well_formed(),
        ensures
            final(self)@.well_formed(),
            event_views(r@) == old(self)@.events,
            final(self)@ == (QueueModel { events: Seq::empty(), ..old(self)@ }),
    {
        let mut r: Vec<Event> = Vec::new();
        std::mem::swap(&mut r, &mut self.events);
        assert(self@.events =~= Seq::<EventModel>::empty());
        r
    }

    /// Hands out the tokens to fire.
    pub fn take_fired(&mut self) -> (r: Vec<u64>)
        requires
            old(self)@.well_formed(),
        ensures
            final(self)@.well_formed(),
            r@ == old(self)@.fired,
            final(self)@ == (QueueModel { fired: Seq::empty(), ..old(self)@ }),
    {
        let mut r: Vec<u64> = Vec::new();
        std::mem::swap(&mut r, &mut self.fired);
        r
    }

    pub(crate) fn put(&mut self, e: Entry)
        requires
            old(self)@.well_formed(),
            e@.well_formed(),
        ensures
            final(self)@.well_formed(),
            final(self)@ == old(self)@.with_entries(inserted(old(self)@.entries, e@)),
    {
        let ghost before = self@;
        let ghost added = e@;
        let mut p: usize = 0;
        while p < self.entries.len() && less_text(
            self.entries[p].task.id.as_str(),
            e.task.id.as_str(),
        )
            invariant
                p <= self.entries.len(),
                self@ == before,
                e@ == added,
                forall|j: int|
                    0 <= j < p ==> less((#[trigger] before.entries[j]).task.id, added.task.id),
            decreases self.entries.len() - p,
        {
            p += 1;
        }
        proof {
            lemma_slot_is(before.entries, added.task.id, p as int);
            lemma_inserted(before.entries, added);
        }
        if p < self.entries.len() && same(self.entries[p].task.id.as_str(), e.task.id.as_str()) {
            self.entries.set(p, e);
            assert(self@.entries =~= before.entries.update(p as int, added));
        } else {
            self.entries.insert(p, e);
            assert(self@.entries =~= before.entries.insert(p as int, added));
        }
    }

    pub(crate) fn trim(&mut self)
        requires
            old(self)@.well_formed(),
        ensures
            final(self)@.well_formed(),
            final(self)@ == old(self)@.with_entries(shortened(old(self)@.entries)),
    {
        let ghost start = self@;
        while self.entries.len() > MAX_HISTORY
            invariant
                self@.well_formed(),
                self@ == start.with_entries(self@.entries),
                shortened(self@.entries) == shortened(start.entries),
            ensures
                self@.well_formed(),
                self@ == start.with_entries(shortened(start.entries)),
            decreases self.entries.len(),
        {
            let ghost before = self@;
            let mut found: bool = false;
            let mut oldest: usize = 0;
            let mut k: usize = 0;
            while k < self.entries.len()
                invariant
                    k <= self.entries.len(),
                    self@ == before,
                    oldest_finished(before.entries.take(k as int)) == if found {
                        oldest as int
                    } else {
                        -1
                    },
                    found ==> oldest < k,
                decreases self.entries.len() - k,
            {
                let ghost seen = before.entries.take(k + 1);
                assert(seen.drop_last() =~= before.entries.take(k as int));
                assert(seen[k as int] == before.entries[k as int]);
                assert(found ==> seen[oldest as int] == before.entries[oldest as int]);
                if is_terminal(self.entries[k].task.state) {
                    if !found || self.entries[k].task.created_at
                        < self.entries[oldest].task.created_at {
                        oldest = k;
                        found = true;
                    }
                }
                k += 1;
            }
            assert(before.entries.take(k as int) =~= before.entries);
            if !found {
                break ;
            }
            proof {
                lemma_remove_keeps(before.entries, oldest as int);
            }
            let _ = self.entries.remove(oldest);
            assert(self@.entries =~= before.entries.remove(oldest as int));
        }
    }

    /// Adds a task with its parameters, publishes it, and keeps the queue short.
    pub fn insert_with_retry(
        &mut self,
        task: DownloadTask,
        cancel: u64,
        audio_retry: Option<AudioRetry>,
        video_retry: Option<VideoRetry>,
    )
        requires
            old(self)@.well_formed(),
            task.progress.well_formed(),
        ensures
            final(self)@.well_formed(),
            final(self)@ == insert_step(
                old(self)@,
                EntryModel {
                    audio_retry: crate::models::audio_of(audio_retry),
                    video_retry: crate::models::video_of(video_retry),
                    ..EntryModel::fresh(task@, cancel)
                },
            ),
    {
        let notice = task.clone();
        let mut e = Entry::new(task, cancel);
        e.audio_retry = audio_retry;
        e.video_retry = video_retry;
        self.put(e);
        self.trim();
        let ghost before = self@;
        self.events.push(Event::Updated(notice));
        assert(self@.events =~= before.events.push(EventModel::Updated(notice@)));
    }

    /// Adds a task without parameters.
    pub fn insert(&mut self, task: DownloadTask, cancel: u64)
        requires
            old(self)@.well_formed(),
            task.progress.well_formed(),
        ensures
            final(self)@.well_formed(),
            final(self)@ == insert_step(old(self)@, EntryModel::fresh(task@, cancel)),
    {
        self.insert_with_retry(task, cancel, None, None);
    }
}

/// Adding an entry: the queue holds it, is cut to its length, and publishes it.
pub open spec fn insert_step(q: QueueModel, e: EntryModel) -> QueueModel {
    q.with_entries(shortened(inserted(q.entries, e))).publishing(e.task)
}

pub open spec fn executing(state: TaskState) -> bool {
    state is Running || state is Processing
}

/// The task is queued or being worked on.
pub open spec fn unfinished(state: TaskState) -> bool {
    state is Queued || executing(state)
}

/// What is left of the entries where some leave and others change.
pub open spec fn sifted(
    entries: Seq<EntryModel>,
    f: spec_fn(EntryModel) -> Option<EntryModel>,
) -> Seq<EntryModel>
    decreases entries.len(),
{
    if entries.len() == 0 {
        Seq::empty()
    } else {
        match f(entries.last()) {
            Some(e) => sifted(entries.drop_last(), f).push(e),
            None => sifted(entries.drop_last(), f),
        }
    }
}

/// The tokens of the entries that `pick` picks, in order.
pub open spec fn tokens(
    entries: Seq<EntryModel>,
    pick: spec_fn(EntryModel) -> bool,
) -> Seq<u64>
    decreases entries.len(),
{
    if entries.len() == 0 {
        Seq::empty()
    } else if pick(entries.last()) {
        tokens(entries.drop_last(), pick).push(entries.last().cancel)
    } else {
        tokens(entries.drop_last(), pick)
    }
}

/// One notice for each entry that `pick` picks, of the task that `f` makes of it.
pub open spec fn notices(
    entries: Seq<EntryModel>,
    pick: spec_fn(EntryModel) -> bool,
    f: spec_fn(EntryModel) -> EntryModel,
) -> Seq<EventModel>
    decreases entries.len(),
{
    if entries.len() == 0 {
        Seq::empty()
    } else if pick(entries.last()) {
        notices(entries.drop_last(), pick, f).push(EventModel::Updated(f(entries.last()).task))
    } else {
        notices(entries.drop_last(), pick, f)
    }
}

/// A change that keeps ids and fractions.
pub open spec fn keeps_identity(f: spec_fn(EntryModel) -> Option<EntryModel>) -> bool {
    forall|e: EntryModel|
        #![trigger f(e)]
        f(e) matches Some(n) ==> n.task.id == e.task.id && (e.well_formed() ==> n.well_formed())
}

proof fn lemma_sifted_ids(
    entries: Seq<EntryModel>,
    f: spec_fn(EntryModel) -> Option<EntryModel>,
    k: int,
) -> (j: int)
    requires
        keeps_identity(f),
        0 <= k < sifted(entries, f).len(),
    ensures
        0 <= j < entries.len(),
        f(entries[j]) == Some(sifted(entries, f)[k]),
    decreases entries.len(),
{
    let sub = sifted(entries.drop_last(), f);
    if k < sub.len() {
        let j = lemma_sifted_ids(entries.drop_last(), f, k);
        assert(entries.drop_last()[j] == entries[j]);
        j
    } else {
        entries.len() - 1
    }
}

pub proof fn lemma_sifted(entries: Seq<EntryModel>, f: spec_fn(EntryModel) -> Option<EntryModel>)
    requires
        keeps_identity(f),
        in_order(entries),
        all_well_formed(entries),
    ensures
        in_order(sifted(entries, f)),
        all_well_formed(sifted(entries, f)),
        sifted(entries, f).len() <= entries.len(),
    decreases entries.len(),
{
    if entries.len() > 0 {
        let rest = entries.drop_last();
        lemma_sifted(rest, f);
        let sub = sifted(rest, f);
        let w = sifted(entries, f);
        let last = entries.last();
        if let Some(n) = f(last) {
            assert forall|a: int, b: int|
                #![trigger w[a], w[b]]
                0 <= a < b < w.len() implies less(w[a].task.id, w[b].task.id) by {
                if b == sub.len() {
                    let j = lemma_sifted_ids(rest, f, a);
                    assert(rest[j] == entries[j]);
                    assert(w[a] == sub[a]);
                    assert(less(entries[j].task.id, entries[entries.len() - 1].task.id));
                } else {
                    assert(w[a] == sub[a] && w[b] == sub[b]);
                }
            }
            assert(entries[entries.len() - 1].well_formed());
            assert forall|a: int| 0 <= a < w.len() implies (#[trigger] w[a]).well_formed() by {
                if a < sub.len() {
                    assert(w[a] == sub[a]);
                }
            }
        }
    }
}

pub open spec fn canceled(e: EntryModel, at: Moment) -> EntryModel {
    e.with_task(
        TaskModel {
            updated_at: at.wall,
            ..settled(e.task, TaskState::Canceled, "已取消"@)
        },
    )
}

pub open spec fn after_cancel_all(at: Moment) -> spec_fn(EntryModel) -> Option<EntryModel> {
    |e: EntryModel|
        if e.task.state is Queued {
            None
        } else if executing(e.task.state) {
            Some(canceled(e, at))
        } else {
            Some(e)
        }
}

/// Everything unfinished is stopped: what is queued leaves, what is being worked on is marked.
pub open spec fn cancel_all_step(q: QueueModel, at: Moment) -> QueueModel {
    QueueModel {
        entries: sifted(q.entries, after_cancel_all(at)),
        fired: q.fired + tokens(q.entries, |e: EntryModel| unfinished(e.task.state)),
        events: (q.events + notices(
            q.entries,
            |e: EntryModel| executing(e.task.state),
            |e: EntryModel| canceled(e, at),
        )).push(EventModel::List),
        ..q
    }
}

pub open spec fn paused(e: EntryModel, at: Moment) -> EntryModel {
    EntryModel {
        prepared_source_url: None,
        task: TaskModel {
            state: TaskState::Paused,
            phase: TaskPhase::Waiting,
            speed_bps: Speed::zero(),
            error: Seq::empty(),
            updated_at: at.wall,
            ..e.task
        },
        ..e
    }
}

pub open spec fn after_pause_all(at: Moment) -> spec_fn(EntryModel) -> Option<EntryModel> {
    |e: EntryModel|
        if unfinished(e.task.state) {
            Some(paused(e, at))
        } else {
            Some(e)
        }
}

/// Everything unfinished is stopped and paused, with its parameters.
pub open spec fn pause_all_step(q: QueueModel, at: Moment) -> QueueModel {
    let told = notices(
        q.entries,
        |e: EntryModel| unfinished(e.task.state),
        |e: EntryModel| paused(e, at),
    );
    QueueModel {
        entries: sifted(q.entries, after_pause_all(at)),
        fired: q.fired + tokens(q.entries, |e: EntryModel| unfinished(e.task.state)),
        events: if told.len() > 0 {
            (q.events + told).push(EventModel::List)
        } else {
            q.events
        },
        ..q
    }
}

pub open spec fn after_clear() -> spec_fn(EntryModel) -> Option<EntryModel> {
    |e: EntryModel|
        if executing(e.task.state) {
            Some(e)
        } else {
            None
        }
}

/// Only what is being worked on stays.
pub open spec fn clear_step(q: QueueModel) -> QueueModel {
    QueueModel {
        entries: sifted(q.entries, after_clear()),
        fired: q.fired + tokens(q.entries, |e: EntryModel| !executing(e.task.state)),
        events: q.events.push(EventModel::List),
        ..q
    }
}

fn is_executing(state: TaskState) -> (r: bool)
    ensures
        r == executing(state),
{
    match state {
        TaskState::Running | TaskState::Processing => true,
        _ => false,
    }
}

fn is_unfinished(state: TaskState) -> (r: bool)
    ensures
        r == unfinished(state),
{
    match state {
        TaskState::Queued | TaskState::Running | TaskState::Processing => true,
        _ => false,
    }
}

impl DownloadManager {
    /// Cancels the whole active queue at once; the result is the number of tasks it hit.
    pub fn cancel_all(&mut self, at: Moment) -> (count: usize)
        requires
            old(self)@.well_formed(),
        ensures
            final(self)@.well_formed(),
            final(self)@ == cancel_all_step(old(self)@, at),
            count == tokens(old(self)@.entries, |e: EntryModel| unfinished(e.task.state)).len(),
    {
        let ghost q = self@;
        let ghost f = after_cancel_all(at);
        let ghost stops = |e: EntryModel| unfinished(e.task.state);
        let ghost runs = |e: EntryModel| executing(e.task.state);
        let ghost change = |e: EntryModel| canceled(e, at);
        let mut old_entries: Vec<Entry> = Vec::new();
        std::mem::swap(&mut old_entries, &mut self.entries);
        let mut count: usize = 0;
        let ghost mut k: int = 0;
        assert(q.entries.len() == old_entries.len());
        assert(q.entries.skip(0) =~= q.entries);
        assert(self@.entries =~= sifted(q.entries.take(0), f));
        assert(self@.fired =~= q.fired + tokens(q.entries.take(0), stops));
        assert(self@.events =~= q.events + notices(q.entries.take(0), runs, change));
        while old_entries.len() > 0
            invariant
                0 <= k <= q.entries.len(),
                f == after_cancel_all(at),
                stops == (|e: EntryModel| unfinished(e.task.state)),
                runs == (|e: EntryModel| executing(e.task.state)),
                change == (|e: EntryModel| canceled(e, at)),
                entry_views(old_entries@) == q.entries.skip(k),
                old_entries.len() == q.entries.len() - k,
                self@.entries == sifted(q.entries.take(k), f),
                self@.fired == q.fired + tokens(q.entries.take(k), stops),
                self@.events == q.events + notices(q.entries.take(k), runs, change),
                self@.concurrency == q.concurrency,
                self@.auto_start == q.auto_start,
                self@.start_generation == q.start_generation,
                count == tokens(q.entries.take(k), stops).len(),
                count <= k,
                q.entries.len() <= usize::MAX,
            decreases old_entries.len(),
        {
            let ghost here = self@;
            let ghost left = entry_views(old_entries@);
            let mut e = old_entries.remove(0);
            assert(entry_views(old_entries@) =~= left.remove(0));
            assert(left.remove(0) =~= q.entries.skip(k + 1));
            assert(e@ == left[0]);
            assert(e@ == q.entries[k]);
            assert(q.entries.take(k + 1).drop_last() =~= q.entries.take(k));
            assert(q.entries.take(k + 1).last() == e@);
            proof {
                k = k + 1;
            }
            if is_unfinished(e.task.state) {
                self.fired.push(e.cancel);
                count += 1;
                assert(self@.fired =~= q.fired + tokens(q.entries.take(k), stops));
                if is_executing(e.task.state) {
                    e.task.state = TaskState::Canceled;
                    e.task.error = "已取消".to_owned();
                    e.task.speed_bps = no_speed();
                    e.task.updated_at = at.wall;
                    self.events.push(Event::Updated(e.task.clone()));
                    assert(e@ == canceled(q.entries[k - 1], at));
                    assert(self@.events =~= here.events.push(EventModel::Updated(e@.task)));
                    assert(self@.events =~= q.events + notices(q.entries.take(k), runs, change));
                    self.entries.push(e);
                    assert(self@.entries =~= here.entries.push(canceled(q.entries[k - 1], at)));
                }
            } else {
                self.entries.push(e);
                assert(self@.entries =~= here.entries.push(q.entries[k - 1]));
            }
        }
        assert(q.entries.take(k) =~= q.entries);
        let ghost told = self@;
        self.events.push(Event::List);
        proof {
            assert(self@.events =~= told.events.push(EventModel::List));
            lemma_sifted(q.entries, f);
        }
        count
    }

    /// Pauses everything that is not finished; the result is the number of tasks it hit.
    pub fn pause_all(&mut self, at: Moment) -> (count: usize)
        requires
            old(self)@.well_formed(),
        ensures
            final(self)@.well_formed(),
            final(self)@ == pause_all_step(old(self)@, at),
            count == tokens(old(self)@.entries, |e: EntryModel| unfinished(e.task.state)).len(),
    {
        let ghost q = self@;
        let ghost f = after_pause_all(at);
        let ghost stops = |e: EntryModel| unfinished(e.task.state);
        let ghost change = |e: EntryModel| paused(e, at);
        let mut old_entries: Vec<Entry> = Vec::new();
        std::mem::swap(&mut old_entries, &mut self.entries);
        let mut count: usize = 0;
        let ghost mut k: int = 0;
        assert(q.entries.len() == old_entries.len());
        assert(q.entries.skip(0) =~= q.entries);
        assert(self@.entries =~= sifted(q.entries.take(0), f));
        assert(self@.fired =~= q.fired + tokens(q.entries.take(0), stops));
        assert(self@.events =~= q.events + notices(q.entries.take(0), stops, change));
        while old_entries.len() > 0
            invariant
                0 <= k <= q.entries.len(),
                f == after_pause_all(at),
                stops == (|e: EntryModel| unfinished(e.task.state)),
                change == (|e: EntryModel| paused(e, at)),
                entry_views(old_entries@) == q.entries.skip(k),
                old_entries.len() == q.entries.len() - k,
                self@.entries == sifted(q.entries.take(k), f),
                self@.fired == q.fired + tokens(q.entries.take(k), stops),
                self@.events == q.events + notices(q.entries.take(k), stops, change),
                self@.concurrency == q.concurrency,
                self@.auto_start == q.auto_start,
                self@.start_generation == q.start_generation,
                count == tokens(q.entries.take(k), stops).len(),
                count == notices(q.entries.take(k), stops, change).len(),
                count <= k,
                q.entries.len() <= usize::MAX,
            decreases old_entries.len(),
        {
            let ghost here = self@;
            let ghost left = entry_views(old_entries@);
            let mut e = old_entries.remove(0);
            assert(entry_views(old_entries@) =~= left.remove(0));
            assert(left.remove(0) =~= q.entries.skip(k + 1));
            assert(e@ == left[0]);
            assert(e@ == q.entries[k]);
            assert(q.entries.take(k + 1).drop_last() =~= q.entries.take(k));
            assert(q.entries.take(k + 1).last() == e@);
            proof {
                k = k + 1;
            }
            if is_unfinished(e.task.state) {
                self.fired.push(e.cancel);
                count += 1;
                assert(self@.fired =~= q.fired + tokens(q.entries.take(k), stops));
                e.prepared_source_url = None;
                e.task.state = TaskState::Paused;
                e.task.phase = TaskPhase::Waiting;
                e.task.speed_bps = no_speed();
                e.task.error = String::new();
                e.task.updated_at = at.wall;
                self.events.push(Event::Updated(e.task.clone()));
                assert(e@ == paused(q.entries[k - 1], at));
                assert(self@.events =~= here.events.push(EventModel::Updated(e@.task)));
                assert(self@.events =~= q.events + notices(q.entries.take(k), stops, change));
                self.entries.push(e);
                assert(self@.entries =~= here.entries.push(paused(q.entries[k - 1], at)));
            } else {
                self.entries.push(e);
                assert(self@.entries =~= here.entries.push(q.entries[k - 1]));
            }
        }
        assert(q.entries.take(k) =~= q.entries);
        let ghost told = self@;
        if count > 0 {
            self.events.push(Event::List);
            assert(self@.events =~= told.events.push(EventModel::List));
        }
        proof {
            assert(q.events + Seq::<EventModel>::empty() =~= q.events);
            assert(count == 0 ==> notices(q.entries, stops, change) =~= Seq::<EventModel>::empty());
            lemma_sifted(q.entries, f);
        }
        count
    }

    /// Removes everything that is not being worked on; the result is the number of tasks removed.
    pub fn clear_inactive(&mut self) -> (removed: usize)
        requires
            old(self)@.well_formed(),
        ensures
            final(self)@.well_formed(),
            final(self)@ == clear_step(old(self)@),
            removed == old(self)@.entries.len() - final(self)@.entries.len(),
    {
        let ghost q = self@;
        let ghost f = after_clear();
        let ghost stops = |e: EntryModel| !executing(e.task.state);
        let before: usize = self.entries.len();
        let mut old_entries: Vec<Entry> = Vec::new();
        std::mem::swap(&mut old_entries, &mut self.entries);
        let ghost mut k: int = 0;
        assert(q.entries.skip(0) =~= q.entries);
        assert(self@.entries =~= sifted(q.entries.take(0), f));
        assert(self@.fired =~= q.fired + tokens(q.entries.take(0), stops));
        while old_entries.len() > 0
            invariant
                0 <= k <= q.entries.len(),
                f == after_clear(),
                stops == (|e: EntryModel| !executing(e.task.state)),
                entry_views(old_entries@) == q.entries.skip(k),
                old_entries.len() == q.entries.len() - k,
                self@.entries == sifted(q.entries.take(k), f),
                self@.fired == q.fired + tokens(q.entries.take(k), stops),
                self@.events == q.events,
                self@.concurrency == q.concurrency,
                self@.auto_start == q.auto_start,
                self@.start_generation == q.start_generation,
            decreases old_entries.len(),
        {
            let ghost here = self@;
            let ghost left = entry_views(old_entries@);
            let e = old_entries.remove(0);
            assert(entry_views(old_entries@) =~= left.remove(0));
            assert(left.remove(0) =~= q.entries.skip(k + 1));
            assert(e@ == left[0]);
            assert(e@ == q.entries[k]);
            assert(q.entries.take(k + 1).drop_last() =~= q.entries.take(k));
            assert(q.entries.take(k + 1).last() == e@);
            proof {
                k = k + 1;
            }
            if is_executing(e.task.state) {
                self.entries.push(e);
                assert(self@.entries =~= here.entries.push(q.entries[k - 1]));
            } else {
                self.fired.push(e.cancel);
                assert(self@.fired =~= q.fired + tokens(q.entries.take(k), stops));
            }
        }
        assert(q.entries.take(k) =~= q.entries);
        proof {
            lemma_sifted(q.entries, f);
        }
        self.events.push(Event::List);
        assert(self@.events =~= q.events.push(EventModel::List));
        before - self.entries.len()
    }
}

/// `e` added to entries that stand oldest first: behind all that are not younger.
pub open spec fn added_by_age(aged: Seq<EntryModel>, e: EntryModel) -> Seq<EntryModel>
    decreases aged.len(),
{
    if aged.len() > 0 && e.task.created_at < aged.last().task.created_at {
        added_by_age(aged.drop_last(), e).push(aged.last())
    } else {
        aged.push(e)
    }
}

/// The entries that `keep` keeps, oldest first; those of the same age stay in their order.
pub open spec fn by_age(
    entries: Seq<EntryModel>,
    keep: spec_fn(EntryModel) -> bool,
) -> Seq<EntryModel>
    decreases entries.len(),
{
    if entries.len() == 0 {
        Seq::empty()
    } else if keep(entries.last()) {
        added_by_age(by_age(entries.drop_last(), keep), entries.last())
    } else {
        by_age(entries.drop_last(), keep)
    }
}

proof fn lemma_added_by_age(aged: Seq<EntryModel>, e: EntryModel, p: int)
    requires
        0 <= p <= aged.len(),
        p > 0 ==> !(e.task.created_at < aged[p - 1].task.created_at),
        forall|j: int|
            p <= j < aged.len() ==> e.task.created_at < (#[trigger] aged[j]).task.created_at,
    ensures
        added_by_age(aged, e) == aged.insert(p, e),
    decreases aged.len(),
{
    if p < aged.len() {
        assert(aged.last() == aged[aged.len() - 1]);
        lemma_added_by_age(aged.drop_last(), e, p);
        assert(aged.drop_last().insert(p, e).push(aged.last()) =~= aged.insert(p, e));
    } else {
        if aged.len() > 0 {
            assert(aged.last() == aged[p - 1]);
        }
        assert(aged.push(e) =~= aged.insert(p, e));
    }
}

/// Which tasks a list is about.
#[derive(Debug, Clone, Copy, PartialEq, Eq, Structural)]
pub enum Selection {
    All,
    /// Running, waiting for a source that is to be prepared outside.
    Unprepared,
    /// Paused or failed, with parameters to run again.
    Restartable,
}

pub open spec fn unprepared(e: EntryModel) -> bool {
    &&& e.task.state is Running
    &&& e.task.phase is Authorizing
    &&& e.prepared_source_url is None
    &&& match e.task.kind {
        TaskKind::Audio => e.audio_retry matches Some(r) && r.external_preparation,
        TaskKind::Video => e.video_retry matches Some(r) && r.external_preparation,
    }
}

pub open spec fn restartable(e: EntryModel) -> bool {
    restartable_state(e.task.state) && (e.audio_retry is Some || e.video_retry is Some)
}

pub open spec fn selected(what: Selection) -> spec_fn(EntryModel) -> bool {
    |e: EntryModel|
        match what {
            Selection::All => true,
            Selection::Unprepared => unprepared(e),
            Selection::Restartable => restartable(e),
        }
}

fn is_selected(what: Selection, e: &Entry) -> (r: bool)
    ensures
        r == selected(what)(e@),
{
    match what {
        Selection::All => true,
        Selection::Unprepared => {
            let waiting: bool = match (e.task.state, e.task.phase) {
                (TaskState::Running, TaskPhase::Authorizing) => true,
                _ => false,
            };
            let external: bool = match e.task.kind {
                TaskKind::Audio => match &e.audio_retry {
                    Some(retry) => retry.external_preparation,
                    None => false,
                },
                TaskKind::Video => match &e.video_retry {
                    Some(retry) => retry.external_preparation,
                    None => false,
                },
            };
            waiting && e.prepared_source_url.is_none() && external
        },
        Selection::Restartable => {
            let stopped: bool = match e.task.state {
                TaskState::Paused | TaskState::Failed => true,
                _ => false,
            };
            stopped && (e.audio_retry.is_some() || e.video_retry.is_some())
        },
    }
}

/// What an adapter outside needs to prepare the source of a task.
pub enum PendingDownloadPreparation {
    Audio { id: String, attempt: u64, platform: Platform, source: SongSource, quality: Quality },
    Video { id: String, attempt: u64, platform: Platform, request: VideoDownloadRequest },
}

#[verifier::ext_equal]
pub enum PendingModel {
    Audio {
        id: Seq<char>,
        attempt: u64,
        platform: Platform,
        source: SongSourceModel,
        quality: Quality,
    },
    Video { id: Seq<char>, attempt: u64, platform: Platform, request: VideoRequestModel },
}

impl View for PendingDownloadPreparation {
    type V = PendingModel;

    open spec fn view(&self) -> PendingModel {
        match self {
            PendingDownloadPreparation::Audio { id, attempt, platform, source, quality } => {
                PendingModel::Audio {
                    id: id@,
                    attempt: *attempt,
                    platform: *platform,
                    source: source@,
                    quality: *quality,
                }
            },
            PendingDownloadPreparation::Video { id, attempt, platform, request } => {
                PendingModel::Video {
                    id: id@,
                    attempt: *attempt,
                    platform: *platform,
                    request: request@,
                }
            },
        }
    }
}

impl PendingDownloadPreparation {
    pub fn id(&self) -> (s: &str)
        ensures
            s@ == match self@ {
                PendingModel::Audio { id, .. } => id,
                PendingModel::Video { id, .. } => id,
            },
    {
        match self {
            PendingDownloadPreparation::Audio { id, .. } => id.as_str(),
            PendingDownloadPreparation::Video { id, .. } => id.as_str(),
        }
    }
}

/// The preparation that an entry waits for.
pub open spec fn pending_of(e: EntryModel) -> PendingModel {
    match e.task.kind {
        TaskKind::Audio => PendingModel::Audio {
            id: e.task.id,
            attempt: e.preparation_attempt,
            platform: e.task.platform,
            source: e.audio_retry->0.source,
            quality: e.audio_retry->0.quality,
        },
        TaskKind::Video => PendingModel::Video {
            id: e.task.id,
            attempt: e.preparation_attempt,
            platform: e.task.platform,
            request: e.video_retry->0.request,
        },
    }
}

pub open spec fn task_views(tasks: Seq<DownloadTask>) -> Seq<TaskModel> {
    tasks.map_values(|t: DownloadTask| t@)
}

pub open spec fn pending_views(items: Seq<PendingDownloadPreparation>) -> Seq<PendingModel> {
    items.map_values(|p: PendingDownloadPreparation| p@)
}

pub open spec fn at_indices(entries: Seq<EntryModel>, order: Seq<usize>) -> Seq<EntryModel> {
    order.map_values(|i: usize| entries[i as int])
}

impl DownloadManager {
    fn ordered(&self, what: Selection) -> (order: Vec<usize>)
        ensures
            at_indices(self@.entries, order@) == by_age(self@.entries, selected(what)),
            forall|i: int| 0 <= i < order.len() ==> (#[trigger] order[i]) < self.entries.len(),
    {
        let ghost all = self@.entries;
        let ghost keep = selected(what);
        let mut order: Vec<usize> = Vec::new();
        let mut k: usize = 0;
        assert(at_indices(all, order@) =~= by_age(all.take(0), keep));
        while k < self.entries.len()
            invariant
                k <= self.entries.len(),
                all == self@.entries,
                keep == selected(what),
                at_indices(all, order@) == by_age(all.take(k as int), keep),
                forall|i: int| 0 <= i < order.len() ==> (#[trigger] order[i]) < self.entries.len(),
            decreases self.entries.len() - k,
        {
            assert(all.take(k + 1).drop_last() =~= all.take(k as int));
            assert(all.take(k + 1).last() == all[k as int]);
            assert(all[k as int] == self.entries@[k as int]@);
            if is_selected(what, &self.entries[k]) {
                let ghost aged = at_indices(all, order@);
                let mut p: usize = order.len();
                while p > 0 && self.entries[k].task.created_at < self.entries[order[p
                    - 1]].task.created_at
                    invariant
                        p <= order.len(),
                        k < self.entries.len(),
                        all == self@.entries,
                        aged == at_indices(all, order@),
                        forall|i: int|
                            0 <= i < order.len() ==> (#[trigger] order[i]) < self.entries.len(),
                        forall|j: int|
                            p <= j < aged.len() ==> all[k as int].task.created_at < (
                            #[trigger] aged[j]).task.created_at,
                    decreases p,
                {
                    assert(aged[p - 1] == all[order@[p - 1] as int]);
                    p -= 1;
                }
                proof {
                    if p > 0 {
                        assert(aged[p - 1] == all[order@[p - 1] as int]);
                    }
                    lemma_added_by_age(aged, all[k as int], p as int);
                }
                order.insert(p, k);
                assert(at_indices(all, order@) =~= aged.insert(p as int, all[k as int]));
            }
            k += 1;
        }
        assert(all.take(k as int) =~= all);
        order
    }

    /// Every task, oldest first.
    pub fn list(&self) -> (r: Vec<DownloadTask>)
        ensures
            task_views(r@) == by_age(self@.entries, selected(Selection::All)).map_values(
                |e: EntryModel| e.task,
            ),
    {
        let order = self.ordered(Selection::All);
        let ghost want = by_age(self@.entries, selected(Selection::All)).map_values(
            |e: EntryModel| e.task,
        );
        let mut r: Vec<DownloadTask> = Vec::new();
        let mut i: usize = 0;
        while i < order.len()
            invariant
                i <= order.len(),
                want == by_age(self@.entries, selected(Selection::All)).map_values(
                    |e: EntryModel| e.task,
                ),
                at_indices(self@.entries, order@) == by_age(
                    self@.entries,
                    selected(Selection::All),
                ),
                forall|i: int| 0 <= i < order.len() ==> (#[trigger] order[i]) < self.entries.len(),
                task_views(r@) == want.take(i as int),
            decreases order.len() - i,
        {
            let ghost before = r@;
            let t = self.entries[order[i]].task.clone();
            assert(at_indices(self@.entries, order@)[i as int] == self@.entries[order@[i as int] as int]);
            assert(t@ == want[i as int]);
            r.push(t);
            i += 1;
            assert(task_views(r@) =~= task_views(before).push(t@));
            assert(want.take(i as int) =~= want.take(i - 1).push(want[i - 1]));
        }
        assert(want.len() == order.len()) by {
            assert(at_indices(self@.entries, order@).len() == order.len());
        }
        assert(want.take(i as int) =~= want);
        r
    }

    /// The preparations that are waited for, oldest task first.
    pub fn pending_download_preparations(&self) -> (r: Vec<PendingDownloadPreparation>)
        ensures
            pending_views(r@) == by_age(
                self@.entries,
                selected(Selection::Unprepared),
            ).map_values(|e: EntryModel| pending_of(e)),
    {
        let order = self.ordered(Selection::Unprepared);
        let ghost aged = by_age(self@.entries, selected(Selection::Unprepared));
        let ghost want = aged.map_values(|e: EntryModel| pending_of(e));
        proof {
            lemma_by_age_keeps(self@.entries, selected(Selection::Unprepared));
        }
        let mut r: Vec<PendingDownloadPreparation> = Vec::new();
        let mut i: usize = 0;
        while i < order.len()
            invariant
                i <= order.len(),
                aged == by_age(self@.entries, selected(Selection::Unprepared)),
                want == aged.map_values(|e: EntryModel| pending_of(e)),
                at_indices(self@.entries, order@) == aged,
                forall|i: int| 0 <= i < order.len() ==> (#[trigger] order[i]) < self.entries.len(),
                forall|i: int|
                    0 <= i < aged.len() ==> selected(Selection::Unprepared)(#[trigger] aged[i]),
                pending_views(r@) == want.take(i as int),
            decreases order.len() - i,
        {
            let ghost before = r@;
            let e = &self.entries[order[i]];
            assert(at_indices(self@.entries, order@)[i as int] == e@);
            assert(aged[i as int] == e@);
            assert(unprepared(e@));
            let item = match (e.task.kind, &e.audio_retry, &e.video_retry) {
                (TaskKind::Audio, Some(retry), _) => PendingDownloadPreparation::Audio {
                    id: e.task.id.clone(),
                    attempt: e.preparation_attempt,
                    platform: e.task.platform,
                    source: retry.source.clone(),
                    quality: retry.quality,
                },
                (TaskKind::Video, _, Some(retry)) => PendingDownloadPreparation::Video {
                    id: e.task.id.clone(),
                    attempt: e.preparation_attempt,
                    platform: e.task.platform,
                    request: retry.request.clone(),
                },
                _ => {
                    assert(false);
                    return r;
                },
            };
            assert(item@ == want[i as int]);
            r.push(item);
            i += 1;
            assert(pending_views(r@) =~= pending_views(before).push(item@));
            assert(want.take(i as int) =~= want.take(i - 1).push(want[i - 1]));
        }
        assert(want.len() == order.len()) by {
            assert(at_indices(self@.entries, order@).len() == order.len());
        }
        assert(want.take(i as int) =~= want);
        r
    }

    /// The ids of the tasks that a start brings back, oldest first.
    pub fn restartable_ids(&self) -> (r: Vec<String>)
        ensures
            crate::models::texts(r@) == by_age(
                self@.entries,
                selected(Selection::Restartable),
            ).map_values(|e: EntryModel| e.task.id),
    {
        let order = self.ordered(Selection::Restartable);
        let ghost aged = by_age(self@.entries, selected(Selection::Restartable));
        let ghost want = aged.map_values(|e: EntryModel| e.task.id);
        let mut r: Vec<String> = Vec::new();
        let mut i: usize = 0;
        while i < order.len()
            invariant
                i <= order.len(),
                aged == by_age(self@.entries, selected(Selection::Restartable)),
                want == aged.map_values(|e: EntryModel| e.task.id),
                at_indices(self@.entries, order@) == aged,
                forall|i: int| 0 <= i < order.len() ==> (#[trigger] order[i]) < self.entries.len(),
                crate::models::texts(r@) == want.take(i as int),
            decreases order.len() - i,
        {
            let ghost before = r@;
            let id = self.entries[order[i]].task.id.clone();
            assert(at_indices(self@.entries, order@)[i as int] == self@.entries[order@[i as int] as int]);
            assert(id@ == want[i as int]);
            r.push(id);
            i += 1;
            assert(crate::models::texts(r@) =~= crate::models::texts(before).push(id@));
            assert(want.take(i as int) =~= want.take(i - 1).push(want[i - 1]));
        }
        assert(want.len() == order.len()) by {
            assert(at_indices(self@.entries, order@).len() == order.len());
        }
        assert(want.take(i as int) =~= want);
        r
    }
}

proof fn lemma_added_elements(aged: Seq<EntryModel>, e: EntryModel)
    ensures
        added_by_age(aged, e).len() == aged.len() + 1,
        forall|x: EntryModel|
            #![trigger added_by_age(aged, e).contains(x)]
            added_by_age(aged, e).contains(x) <==> aged.contains(x) || x == e,
    decreases aged.len(),
{
    let w = added_by_age(aged, e);
    if aged.len() > 0 && e.task.created_at < aged.last().task.created_at {
        let rest = aged.drop_last();
        lemma_added_elements(rest, e);
        let sub = added_by_age(rest, e);
        assert forall|x: EntryModel| #![trigger w.contains(x)] w.contains(x) <==> aged.contains(x)
            || x == e by {
            if w.contains(x) {
                let i = choose|i: int| 0 <= i < w.len() && w[i] == x;
                if i < sub.len() {
                    assert(sub[i] == x);
                    assert(sub.contains(x));
                    if rest.contains(x) {
                        let j = choose|j: int| 0 <= j < rest.len() && rest[j] == x;
                        assert(aged[j] == x);
                    }
                } else {
                    assert(aged[aged.len() - 1] == x);
                }
            }
            if aged.contains(x) || x == e {
                if x != e {
                    let j = choose|j: int| 0 <= j < aged.len() && aged[j] == x;
                    if j < rest.len() {
                        assert(rest[j] == x);
                        assert(rest.contains(x));
                    }
                }
                if rest.contains(x) || x == e {
                    assert(sub.contains(x));
                    let i = choose|i: int| 0 <= i < sub.len() && sub[i] == x;
                    assert(w[i] == x);
                } else {
                    assert(w[w.len() - 1] == x);
                }
            }
        }
    } else {
        assert forall|x: EntryModel| #![trigger w.contains(x)] w.contains(x) <==> aged.contains(x)
            || x == e by {
            if w.contains(x) {
                let i = choose|i: int| 0 <= i < w.len() && w[i] == x;
                if i < aged.len() {
                    assert(aged[i] == x);
                }
            }
            if aged.contains(x) {
                let i = choose|i: int| 0 <= i < aged.len() && aged[i] == x;
                assert(w[i] == x);
            }
            if x == e {
                assert(w[aged.len() as int] == x);
            }
        }
    }
}

pub proof fn lemma_by_age_elements(entries: Seq<EntryModel>, keep: spec_fn(EntryModel) -> bool)
    ensures
        forall|x: EntryModel|
            #![trigger by_age(entries, keep).contains(x)]
            by_age(entries, keep).contains(x) <==> entries.contains(x) && keep(x),
    decreases entries.len(),
{
    let w = by_age(entries, keep);
    if entries.len() > 0 {
        let rest = entries.drop_last();
        lemma_by_age_elements(rest, keep);
        let last = entries.last();
        let sub = by_age(rest, keep);
        lemma_added_elements(sub, last);
        assert forall|x: EntryModel| #![trigger w.contains(x)] w.contains(x) <==> entries.contains(
            x,
        ) && keep(x) by {
            assert(sub.contains(x) <==> rest.contains(x) && keep(x));
            if entries.contains(x) {
                let i = choose|i: int| 0 <= i < entries.len() && entries[i] == x;
                if i < rest.len() {
                    assert(rest[i] == x);
                }
            }
            if rest.contains(x) {
                let i = choose|i: int| 0 <= i < rest.len() && rest[i] == x;
                assert(entries[i] == x);
            }
            if x == last {
                assert(entries[entries.len() - 1] == x);
            }
            assert(added_by_age(sub, last).contains(x) <==> sub.contains(x) || x == last);
        }
    }
}

proof fn lemma_by_age_keeps(entries: Seq<EntryModel>, keep: spec_fn(EntryModel) -> bool)
    ensures
        forall|i: int|
            0 <= i < by_age(entries, keep).len() ==> keep(#[trigger] by_age(entries, keep)[i]),
{
    lemma_by_age_elements(entries, keep);
    let w = by_age(entries, keep);
    assert forall|i: int| 0 <= i < w.len() implies keep(#[trigger] w[i]) by {
        assert(w.contains(w[i]));
    }
}

pub proof fn lemma_by_age_len(entries: Seq<EntryModel>, keep: spec_fn(EntryModel) -> bool)
    ensures
        by_age(entries, keep).len() <= entries.len(),
    decreases entries.len(),
{
    if entries.len() > 0 {
        lemma_by_age_len(entries.drop_last(), keep);
        lemma_added_elements(by_age(entries.drop_last(), keep), entries.last());
    }
}

} // verus!
