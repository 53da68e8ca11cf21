//! What the download queue keeps over a restart.

use vstd::prelude::*;

use crate::download_queue::{inserted, lemma_slot_is, shortened, unfinished};
use crate::downloads::{
    in_order, terminal, DownloadManager, Entry, EntryModel, QueueModel, MAX_HISTORY,
};
use crate::models::{
    audio_of, no_speed, video_of, AudioRetry, AudioRetryModel, DownloadTask, DownloadVideoPage,
    Fraction, PageModel, Platform, Speed, TaskKind, TaskModel, TaskPhase, TaskState, VideoRetry,
    VideoRetryModel,
};
use crate::text::{less, trim, trimmed};

verus! {

pub const DOWNLOAD_JOURNAL_VERSION: u32 = 1;

/// Sixteen mebibytes.
pub const DOWNLOAD_JOURNAL_MAX_BYTES: u64 = 16_777_216;

/// Whether what stands at the journal's path may be read: a file that is neither empty nor too
/// large. Anything else is put aside.
pub fn journal_is_readable(is_file: bool, len: u64) -> (r: bool)
    ensures
        r == (is_file && 0 < len <= DOWNLOAD_JOURNAL_MAX_BYTES),
{
    is_file && len != 0 && len <= DOWNLOAD_JOURNAL_MAX_BYTES
}

/// Whether a journal of this version is understood.
pub fn journal_version_is_supported(version: u32) -> (r: bool)
    ensures
        r == (version == DOWNLOAD_JOURNAL_VERSION),
{
    version == DOWNLOAD_JOURNAL_VERSION
}

/// Which numbers of a journal entry are not finite.
#[derive(Debug, Clone, Copy, PartialEq, Eq, Structural)]
pub struct NotFinite {
    pub progress: bool,
    pub created_at: bool,
    pub updated_at: bool,
}

/// One entry of the journal.
pub struct PersistedEntry {
    pub task: DownloadTask,
    pub audio_retry: Option<AudioRetry>,
    pub video_retry: Option<VideoRetry>,
    pub not_finite: NotFinite,
}

#[verifier::ext_equal]
pub struct PersistedModel {
    pub task: TaskModel,
    pub audio_retry: Option<AudioRetryModel>,
    pub video_retry: Option<VideoRetryModel>,
    pub not_finite: NotFinite,
}

impl View for PersistedEntry {
    type V = PersistedModel;

    open spec fn view(&self) -> PersistedModel {
        PersistedModel {
            task: self.task@,
            audio_retry: audio_of(self.audio_retry),
            video_retry: video_of(self.video_retry),
            not_finite: self.not_finite,
        }
    }
}

pub open spec fn clamped(f: Fraction) -> Fraction {
    if f.whole == 0 {
        Fraction::none()
    } else if f.done > f.whole {
        Fraction { done: f.whole, whole: f.whole }
    } else {
        f
    }
}

impl PersistedModel {
    /// The key of the task, taken from its parameters where the task itself has none.
    pub open spec fn key(self) -> Seq<char> {
        if trimmed(self.task.source_key).len() > 0 {
            self.task.source_key
        } else {
            match self.task.kind {
                TaskKind::Audio => match self.audio_retry {
                    Some(r) => trimmed(r.source.key),
                    None => Seq::empty(),
                },
                TaskKind::Video => match self.video_retry {
                    Some(r) => trimmed(r.request.bvid),
                    None => Seq::empty(),
                },
            }
        }
    }

    /// Parameters of the other kind are dropped.
    pub open spec fn audio(self) -> Option<AudioRetryModel> {
        if self.task.kind is Audio {
            self.audio_retry
        } else {
            None
        }
    }

    pub open spec fn video(self) -> Option<VideoRetryModel> {
        if self.task.kind is Video {
            match self.video_retry {
                Some(r) => Some(
                    VideoRetryModel {
                        external_preparation: r.external_preparation || self.task.platform is Youtube,
                        ..r
                    },
                ),
                None => None,
            }
        } else {
            None
        }
    }

    pub open spec fn page(self) -> Option<PageModel> {
        if self.task.kind is Video && self.task.platform is Bilibili && self.task.video_page is None
            && self.video_retry is Some {
            Some(
                PageModel {
                    index: self.video_retry->0.request.page_index,
                    count: self.video_retry->0.request.page_count,
                    title: self.video_retry->0.request.page_title,
                },
            )
        } else {
            self.task.video_page
        }
    }

    pub open spec fn created(self, now: i64) -> i64 {
        if self.not_finite.created_at {
            now
        } else {
            self.task.created_at
        }
    }

    pub open spec fn has_parameters(self) -> bool {
        self.audio() is Some || self.video() is Some
    }

    /// No worker survives a restart: what was unfinished is paused where it can be run again, and
    /// failed where it cannot.
    pub open spec fn restored(self, now: i64) -> TaskModel {
        let lost = unfinished(self.task.state);
        TaskModel {
            source_key: self.key(),
            video_page: self.page(),
            progress: if self.not_finite.progress {
                Fraction::none()
            } else {
                clamped(self.task.progress)
            },
            speed_bps: Speed::zero(),
            created_at: self.created(now),
            updated_at: if lost {
                now
            } else if self.not_finite.updated_at {
                self.created(now)
            } else {
                self.task.updated_at
            },
            state: if !lost {
                self.task.state
            } else if self.has_parameters() {
                TaskState::Paused
            } else {
                TaskState::Failed
            },
            phase: if lost {
                TaskPhase::Waiting
            } else if self.task.state is Done {
                TaskPhase::Completed
            } else {
                self.task.phase
            },
            error: if !lost {
                self.task.error
            } else if self.has_parameters() {
                Seq::empty()
            } else {
                "任务缺少可恢复的下载参数"@
            },
            ..self.task
        }
    }

    pub open spec fn restored_entry(self, cancel: u64, now: i64) -> EntryModel {
        EntryModel {
            audio_retry: self.audio(),
            video_retry: self.video(),
            ..EntryModel::fresh(self.restored(now), cancel)
        }
    }

    /// An entry without an id is not restored.
    pub open spec fn is_usable(self) -> bool {
        trimmed(self.task.id).len() > 0
    }
}

/// What the journal keeps of an entry.
pub open spec fn kept_of(e: EntryModel) -> PersistedModel {
    PersistedModel {
        task: e.task,
        audio_retry: e.audio_retry,
        video_retry: e.video_retry,
        not_finite: NotFinite { progress: false, created_at: false, updated_at: false },
    }
}

/// What the journal keeps of a queue.
pub open spec fn journal_of(entries: Seq<EntryModel>) -> Seq<PersistedModel> {
    entries.map_values(|e: EntryModel| kept_of(e))
}

impl PersistedEntry {
    /// What the journal keeps of an entry.
    pub fn snapshot(entry: &Entry) -> (r: Self)
        ensures
            r@ == kept_of(entry@),
    {
        PersistedEntry {
            task: entry.task.clone(),
            audio_retry: match &entry.audio_retry {
                Some(retry) => Some(retry.clone()),
                None => None,
            },
            video_retry: match &entry.video_retry {
                Some(retry) => Some(retry.clone()),
                None => None,
            },
            not_finite: NotFinite { progress: false, created_at: false, updated_at: false },
        }
    }

    fn fill_key(&mut self)
        ensures
            final(self)@ == (PersistedModel {
                task: TaskModel { source_key: old(self)@.key(), ..old(self)@.task },
                ..old(self)@
            }),
    {
        if !trim(self.task.source_key.as_str()).as_str().is_empty() {
            return;
        }
        let key: String = match self.task.kind {
            TaskKind::Audio => match &self.audio_retry {
                Some(retry) => trim(retry.source.key.as_str()),
                None => String::new(),
            },
            TaskKind::Video => match &self.video_retry {
                Some(retry) => trim(retry.request.bvid.as_str()),
                None => String::new(),
            },
        };
        assert(key@ =~= old(self)@.key());
        self.task.source_key = key;
    }

    fn drop_other_kind(&mut self)
        ensures
            final(self)@ == (PersistedModel {
                audio_retry: old(self)@.audio(),
                video_retry: old(self)@.video(),
                task: TaskModel { video_page: old(self)@.page(), ..old(self)@.task },
                ..old(self)@
            }),
    {
        match self.task.kind {
            TaskKind::Audio => {
                self.video_retry = None;
            },
            TaskKind::Video => {
                self.audio_retry = None;
            },
        }
        let video: bool = match self.task.kind {
            TaskKind::Audio => false,
            TaskKind::Video => true,
        };
        if let Platform::Bilibili = self.task.platform {
            if video && self.task.video_page.is_none() {
                if let Some(retry) = &self.video_retry {
                    self.task.video_page = Some(
                        DownloadVideoPage {
                            index: retry.request.page_index,
                            count: retry.request.page_count,
                            title: retry.request.page_title.clone(),
                        },
                    );
                }
            }
        }
        if let Platform::Youtube = self.task.platform {
            if let Some(retry) = &mut self.video_retry {
                retry.external_preparation = true;
            }
        }
    }

    fn settle_numbers(&mut self, now: i64)
        ensures
            final(self)@ == (PersistedModel {
                task: TaskModel {
                    progress: if old(self)@.not_finite.progress {
                        Fraction::none()
                    } else {
                        clamped(old(self)@.task.progress)
                    },
                    speed_bps: Speed::zero(),
                    created_at: old(self)@.created(now),
                    updated_at: if old(self)@.not_finite.updated_at {
                        old(self)@.created(now)
                    } else {
                        old(self)@.task.updated_at
                    },
                    ..old(self)@.task
                },
                ..old(self)@
            }),
            final(self)@.task.progress.well_formed(),
    {
        let f = self.task.progress;
        self.task.progress = if self.not_finite.progress || f.whole == 0 {
            Fraction { done: 0, whole: 1 }
        } else if f.done > f.whole {
            Fraction { done: f.whole, whole: f.whole }
        } else {
            f
        };
        self.task.speed_bps = no_speed();
        if self.not_finite.created_at {
            self.task.created_at = now;
        }
        if self.not_finite.updated_at {
            self.task.updated_at = self.task.created_at;
        }
    }

    /// The entry as it comes back after a restart.
    pub fn restore(self, cancel: u64, now: i64) -> (r: Option<Entry>)
        ensures
            match r {
                Some(e) => self@.is_usable() && e@ == self@.restored_entry(cancel, now)
                    && e@.well_formed(),
                None => !self@.is_usable(),
            },
    {
        let ghost given = self@;
        if trim(self.task.id.as_str()).as_str().is_empty() {
            return None;
        }
        let mut p = self;
        p.fill_key();
        p.drop_other_kind();
        p.settle_numbers(now);
        let ghost ready = p@;
        match p.task.state {
            TaskState::Queued | TaskState::Running | TaskState::Processing => {
                if p.audio_retry.is_some() || p.video_retry.is_some() {
                    p.task.state = TaskState::Paused;
                    p.task.error = String::new();
                } else {
                    p.task.state = TaskState::Failed;
                    p.task.error = "任务缺少可恢复的下载参数".to_owned();
                }
                p.task.phase = TaskPhase::Waiting;
                p.task.updated_at = now;
            },
            TaskState::Done => {
                p.task.phase = TaskPhase::Completed;
            },
            _ => {},
        }
        assert(p@.task == given.restored(now));
        let mut e = Entry::new(p.task, cancel);
        e.audio_retry = p.audio_retry;
        e.video_retry = p.video_retry;
        Some(e)
    }
}

pub open spec fn persisted_views(entries: Seq<PersistedEntry>) -> Seq<PersistedModel> {
    entries.map_values(|e: PersistedEntry| e@)
}

/// The usable entries of a journal, restored one after the other; of two with the same id the
/// later one counts.
pub open spec fn all_restored(
    entries: Seq<PersistedModel>,
    first_token: u64,
    now: i64,
) -> Seq<EntryModel>
    decreases entries.len(),
{
    if entries.len() == 0 {
        Seq::empty()
    } else {
        let rest = all_restored(entries.drop_last(), first_token, now);
        let last = entries.last();
        if last.is_usable() {
            inserted(
                rest,
                last.restored_entry((first_token + entries.len() - 1) as u64, now),
            )
        } else {
            rest
        }
    }
}

impl DownloadManager {
    /// The queue that a journal holds. The tokens of its entries count up from `first_token`.
    pub fn open(
        concurrency: u32,
        auto_start: bool,
        journal: Vec<PersistedEntry>,
        first_token: u64,
        now: i64,
    ) -> (m: Self)
        requires
            first_token + journal.len() <= u64::MAX,
        ensures
            m@.well_formed(),
            m@ == (QueueModel {
                entries: shortened(all_restored(persisted_views(journal@), first_token, now)),
                concurrency: if concurrency == 0 {
                    1
                } else {
                    concurrency
                },
                auto_start,
                start_generation: 0,
                events: Seq::empty(),
                fired: Seq::empty(),
            }),
    {
        let ghost all = persisted_views(journal@);
        let mut m = DownloadManager::new(concurrency, auto_start);
        let ghost empty = m@;
        let mut journal = journal;
        let mut k: u64 = 0;
        let ghost n = journal.len();
        assert(all.skip(0) =~= all);
        assert(m@.entries =~= all_restored(all.take(0), first_token, now));
        while journal.len() > 0
            invariant
                0 <= k <= n,
                n == all.len(),
                first_token + n <= u64::MAX,
                persisted_views(journal@) == all.skip(k as int),
                journal.len() == n - k,
                m@.well_formed(),
                m@ == empty.with_entries(all_restored(all.take(k as int), first_token, now)),
            decreases journal.len(),
        {
            let ghost left = persisted_views(journal@);
            let p = journal.remove(0);
            assert(persisted_views(journal@) =~= left.remove(0));
            assert(left.remove(0) =~= all.skip(k + 1));
            assert(p@ == left[0]);
            assert(all.take(k + 1).drop_last() =~= all.take(k as int));
            assert(all.take(k + 1).last() == p@);
            if let Some(e) = p.restore(first_token + k, now) {
                m.put(e);
            }
            k += 1;
        }
        assert(all.take(k as int) =~= all);
        m.trim();
        m
    }

    /// What the journal has to hold for this queue.
    pub fn journal(&self) -> (r: Vec<PersistedEntry>)
        ensures
            persisted_views(r@) == journal_of(self@.entries),
    {
        let ghost want = journal_of(self@.entries);
        let mut r: Vec<PersistedEntry> = Vec::new();
        let mut i: usize = 0;
        assert(want.take(0) =~= persisted_views(r@));
        while i < self.entries.len()
            invariant
                i <= self.entries.len(),
                want == journal_of(self@.entries),
                persisted_views(r@) == want.take(i as int),
            decreases self.entries.len() - i,
        {
            let ghost before = r@;
            let p = PersistedEntry::snapshot(&self.entries[i]);
            assert(p@ == want[i as int]);
            r.push(p);
            i += 1;
            assert(persisted_views(r@) =~= persisted_views(before).push(p@));
            assert(want.take(i as int) =~= want.take(i - 1).push(want[i - 1]));
        }
        assert(want.take(i as int) =~= want);
        r
    }
}

/// A restart leaves no task that looks as if somebody were working on it, and forgets every
/// prepared source.
pub proof fn nothing_runs_after_a_restart(p: PersistedModel, cancel: u64, now: i64)
    ensures
        !unfinished(p.restored_entry(cancel, now).task.state),
        p.restored_entry(cancel, now).prepared_source_url is None,
{
}

/// An unfinished task with parameters comes back paused, with the parameters of its kind.
pub proof fn unfinished_tasks_come_back_paused(e: EntryModel, cancel: u64, now: i64)
    requires
        unfinished(e.task.state),
        e.task.kind is Audio ==> e.audio_retry is Some,
        e.task.kind is Video ==> e.video_retry is Some,
    ensures
        ({
            let back = kept_of(e).restored_entry(cancel, now);
            &&& back.task.state is Paused
            &&& back.task.phase is Waiting
            &&& e.task.kind is Audio ==> back.audio_retry == e.audio_retry
            &&& e.task.kind is Video ==> back.video_retry is Some
                && back.video_retry->0.request == e.video_retry->0.request
        }),
{
}

/// A finished task comes back as it was, but for a missing key or part number.
pub proof fn finished_tasks_come_back_finished(e: EntryModel, cancel: u64, now: i64)
    requires
        e.well_formed(),
        terminal(e.task.state),
        e.task.state is Done ==> e.task.phase is Completed,
        e.task.speed_bps == Speed::zero(),
    ensures
        kept_of(e).restored(now) == (TaskModel {
            source_key: kept_of(e).key(),
            video_page: kept_of(e).page(),
            ..e.task
        }),
{
}

/// A queue that is written to the journal comes back from it entry by entry: none is lost, none is
/// added, and they stand in the same order.
pub proof fn the_journal_brings_the_queue_back(entries: Seq<EntryModel>, first_token: u64, now: i64)
    requires
        in_order(entries),
        entries.len() <= MAX_HISTORY,
        first_token + entries.len() <= u64::MAX,
        forall|i: int|
            0 <= i < entries.len() ==> trimmed((#[trigger] entries[i]).task.id).len() > 0,
    ensures
        ({
            let back = shortened(all_restored(journal_of(entries), first_token, now));
            &&& back.len() == entries.len()
            &&& forall|i: int|
                0 <= i < back.len() ==> #[trigger] back[i] == kept_of(entries[i]).restored_entry(
                    (first_token + i) as u64,
                    now,
                )
        }),
{
    lemma_all_come_back(entries, first_token, now);
}

proof fn lemma_all_come_back(entries: Seq<EntryModel>, first_token: u64, now: i64)
    requires
        in_order(entries),
        first_token + entries.len() <= u64::MAX,
        forall|i: int|
            0 <= i < entries.len() ==> trimmed((#[trigger] entries[i]).task.id).len() > 0,
    ensures
        ({
            let back = all_restored(journal_of(entries), first_token, now);
            &&& back.len() == entries.len()
            &&& forall|i: int|
                0 <= i < back.len() ==> #[trigger] back[i] == kept_of(entries[i]).restored_entry(
                    (first_token + i) as u64,
                    now,
                )
        }),
    decreases entries.len(),
{
    let kept = journal_of(entries);
    if entries.len() > 0 {
        let front = entries.drop_last();
        let last = entries.last();
        assert forall|i: int| 0 <= i < front.len() implies trimmed(
            (#[trigger] front[i]).task.id,
        ).len() > 0 by {
            assert(front[i] == entries[i]);
        }
        assert forall|a: int, b: int|
            #![trigger front[a], front[b]]
            0 <= a < b < front.len() implies less(front[a].task.id, front[b].task.id) by {
            assert(front[a] == entries[a] && front[b] == entries[b]);
        }
        lemma_all_come_back(front, first_token, now);
        assert(kept.drop_last() =~= journal_of(front));
        let rest = all_restored(kept.drop_last(), first_token, now);
        assert forall|j: int| 0 <= j < rest.len() implies less(
            (#[trigger] rest[j]).task.id,
            last.task.id,
        ) by {
            assert(rest[j].task.id == front[j].task.id);
            assert(less(entries[j].task.id, entries[entries.len() - 1].task.id));
        }
        lemma_slot_is(rest, last.task.id, rest.len() as int);
        assert(kept.last() == kept_of(last));
        let n = entries.len() - 1;
        let new = kept_of(last).restored_entry((first_token + n) as u64, now);
        assert(all_restored(kept, first_token, now) =~= rest.insert(rest.len() as int, new));
    }
}

} // verus!
