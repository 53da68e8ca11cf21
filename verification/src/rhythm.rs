//! The analysis of rhythm: who asked for it, how far it is, and how a batch runs.

use std::collections::HashMap;

use vstd::prelude::*;

use crate::ids::{id_of, id_text, random_u64};
use crate::text::{extension, extension_of, lower, lower_ascii, same};

verus! {

/// How far the analysis of one track is.
pub struct Status {
    pub job_id: String,
    pub phase: String,
    pub error: String,
}

impl Clone for Status {
    fn clone(&self) -> (r: Self)
        ensures
            r.job_id@ == self.job_id@,
            r.phase@ == self.phase@,
            r.error@ == self.error@,
    {
        Status {
            job_id: self.job_id.clone(),
            phase: self.phase.clone(),
            error: self.error.clone(),
        }
    }
}

/// What a client asks for.
#[derive(Clone, Copy, PartialEq, Eq, Debug, Structural)]
pub struct Request {
    pub precise: bool,
    pub force: bool,
}

impl Default for Request {
    fn default() -> (r: Self)
        ensures
            r == (Request { precise: false, force: false }),
    {
        Request { precise: false, force: false }
    }
}

#[verifier::ext_equal]
pub struct StatusModel {
    pub job_id: Seq<char>,
    pub phase: Seq<char>,
    pub error: Seq<char>,
}

impl View for Status {
    type V = StatusModel;

    open spec fn view(&self) -> StatusModel {
        StatusModel { job_id: self.job_id@, phase: self.phase@, error: self.error@ }
    }
}

/// A track that waits or is being analysed.
pub open spec fn is_live(phase: Seq<char>) -> bool {
    phase == "queued"@ || phase == "analyzing"@
}

fn live(status: &Status) -> (r: bool)
    ensures
        r == is_live(status@.phase),
{
    same(status.phase.as_str(), "queued") || same(status.phase.as_str(), "analyzing")
}

/// The states of all tracks that were asked for.
pub struct RhythmStatuses {
    pub map: HashMap<i64, Status>,
}

/// What is known of each track.
pub open spec fn models(m: Map<i64, Status>) -> Map<i64, StatusModel> {
    m.map_values(|status: Status| status@)
}

impl View for RhythmStatuses {
    type V = Map<i64, StatusModel>;

    open spec fn view(&self) -> Map<i64, StatusModel> {
        models(self.map@)
    }
}

pub open spec fn runs(m: Map<i64, StatusModel>, id: i64) -> bool {
    m.contains_key(id) && is_live(m[id].phase)
}

pub open spec fn only_live(m: Map<i64, StatusModel>) -> Map<i64, StatusModel> {
    m.restrict(Set::new(|id: i64| runs(m, id)))
}

/// The tracks of a request that do not run already.
pub open spec fn idle_of(m: Map<i64, StatusModel>, ids: Seq<i64>) -> Seq<i64>
    decreases ids.len(),
{
    if ids.len() == 0 {
        Seq::empty()
    } else if runs(m, ids.last()) {
        idle_of(m, ids.drop_last())
    } else {
        idle_of(m, ids.drop_last()).push(ids.last())
    }
}

pub open spec fn queued(job: Seq<char>) -> StatusModel {
    StatusModel { job_id: job, phase: "queued"@, error: ""@ }
}

pub open spec fn all_queued(m: Map<i64, StatusModel>, ids: Seq<i64>, job: Seq<char>) -> Map<
    i64,
    StatusModel,
>
    decreases ids.len(),
{
    if ids.len() == 0 {
        m
    } else {
        all_queued(m, ids.drop_last(), job).insert(ids.last(), queued(job))
    }
}

/// What becomes of a request.
pub enum RhythmClaim {
    /// The only track that was asked for runs already, in this job.
    Joined(String),
    /// These tracks were entered for the new job.
    Queued(Vec<i64>),
}

impl RhythmStatuses {
    pub fn new() -> (r: Self)
        ensures
            r@ == Map::<i64, StatusModel>::empty(),
    {
        let r = RhythmStatuses { map: HashMap::new() };
        assert(r@ =~= Map::<i64, StatusModel>::empty());
        r
    }

    /// What is known of a track.
    pub fn get(&self, id: i64) -> (r: Option<Status>)
        ensures
            match r {
                Some(status) => self@.contains_key(id) && status@ == self@[id],
                None => !self@.contains_key(id),
            },
    {
        match self.map.get(&id) {
            Some(status) => Some(status.clone()),
            None => None,
        }
    }

    fn is_running(&self, id: i64) -> (r: bool)
        ensures
            r == runs(self@, id),
    {
        match self.map.get(&id) {
            Some(status) => live(status),
            None => false,
        }
    }

    fn put(&mut self, id: i64, status: Status)
        ensures
            final(self)@ == old(self)@.insert(id, status@),
    {
        broadcast use vstd::std_specs::hash::group_hash_axioms;

        let ghost before = self@;
        self.map.insert(id, status);
        assert(self@ =~= before.insert(id, status@));
    }

    fn forget_ended(&mut self)
        ensures
            final(self)@ == only_live(old(self)@),
    {
        broadcast use vstd::std_specs::hash::group_hash_axioms;

        let ghost before = self.map@;
        let ghost known = self@;
        let ghost keys = vstd::std_specs::iter::IteratorSpec::remaining(
            &vstd::std_specs::hash::spec_keys_iter(&self.map),
        );
        let mut ended: Vec<i64> = Vec::new();
        for id in it: self.map.keys()
            invariant
                self.map@ == before,
                it.seq() == keys,
                keys.unref().to_set() == before.dom(),
                forall|j: int|
                    0 <= j < ended.len() ==> !is_live(before[#[trigger] ended@[j]]@.phase),
                forall|j: int|
                    0 <= j < it.index() ==> is_live(before[*(#[trigger] keys[j])]@.phase)
                        || ended@.contains(*keys[j]),
        {
            let ghost earlier = ended@;
            assert(keys.unref()[it.index() as int] == *id);
            assert(keys.unref().to_set().contains(*id));
            if let Some(status) = self.map.get(id) {
                if !live(status) {
                    ended.push(*id);
                    assert(ended@[earlier.len() as int] == *id);
                }
            }
            assert forall|k: i64| earlier.contains(k) implies ended@.contains(k) by {
                let n = choose|n: int| 0 <= n < earlier.len() && earlier[n] == k;
                assert(ended@[n] == k);
            }
        }
        assert forall|k: i64| before.contains_key(k) && !is_live(
            before[k]@.phase,
        ) implies ended@.contains(k) by {
            assert(keys.unref().to_set().contains(k));
            let n = choose|n: int| 0 <= n < keys.unref().len() && keys.unref()[n] == k;
            assert(*keys[n] == k);
        }
        let mut i: usize = 0;
        while i < ended.len()
            invariant
                i <= ended.len(),
                forall|k: i64| #[trigger]
                    self.map@.contains_key(k) <==> before.contains_key(k) && !ended@.take(
                        i as int,
                    ).contains(k),
                forall|k: i64| #[trigger]
                    self.map@.contains_key(k) ==> self.map@[k] == before[k],
            decreases ended.len() - i,
        {
            let ghost seen = ended@.take(i as int);
            let ghost next = ended@.take(i + 1);
            assert(next =~= seen.push(ended@[i as int]));
            assert forall|k: i64| next.contains(k) <==> seen.contains(k) || k == ended@[i as int] by {
                if seen.contains(k) {
                    let n = choose|n: int| 0 <= n < seen.len() && seen[n] == k;
                    assert(next[n] == k);
                }
                assert(next[i as int] == ended@[i as int]);
            }
            self.map.remove(&ended[i]);
            i += 1;
        }
        assert(ended@.take(i as int) =~= ended@);
        assert(self@ =~= only_live(known));
    }

    /// Enters a request under a job. A single track that runs already is not entered again; of
    /// several, only those that do not run. A long list forgets what has ended.
    pub fn claim(&mut self, job: &str, ids: &Vec<i64>) -> (r: RhythmClaim)
        ensures
            if ids@.len() == 1 && runs(old(self)@, ids@[0]) {
                &&& r matches RhythmClaim::Joined(running)
                &&& running@ == old(self)@[ids@[0]].job_id
                &&& final(self)@ == old(self)@
            } else {
                &&& r matches RhythmClaim::Queued(fresh)
                &&& fresh@ == idle_of(old(self)@, ids@)
                &&& final(self)@ == all_queued(
                    if old(self)@.dom().len() > 2000 {
                        only_live(old(self)@)
                    } else {
                        old(self)@
                    },
                    fresh@,
                    job@,
                )
            },
    {
        let ghost before = self@;
        if ids.len() == 1 {
            if let Some(status) = self.map.get(&ids[0]) {
                if live(status) {
                    return RhythmClaim::Joined(status.job_id.clone());
                }
            }
        }
        let mut fresh: Vec<i64> = Vec::new();
        let mut i: usize = 0;
        assert(fresh@ =~= idle_of(before, ids@.take(0)));
        while i < ids.len()
            invariant
                self@ == before,
                i <= ids@.len(),
                fresh@ == idle_of(before, ids@.take(i as int)),
            decreases ids@.len() - i,
        {
            assert(ids@.take(i + 1).drop_last() =~= ids@.take(i as int));
            if !self.is_running(ids[i]) {
                fresh.push(ids[i]);
            }
            i += 1;
        }
        assert(ids@.take(i as int) =~= ids@);
        assert(before.dom() =~= self.map@.dom());
        if self.map.len() > 2000 {
            self.forget_ended();
        }
        let ghost start = self@;
        let mut k: usize = 0;
        assert(fresh@.take(0) =~= Seq::<i64>::empty());
        while k < fresh.len()
            invariant
                k <= fresh@.len(),
                self@ == all_queued(start, fresh@.take(k as int), job@),
            decreases fresh@.len() - k,
        {
            assert(fresh@.take(k + 1).drop_last() =~= fresh@.take(k as int));
            self.put(
                fresh[k],
                Status {
                    job_id: job.to_owned(),
                    phase: "queued".to_owned(),
                    error: "".to_owned(),
                },
            );
            k += 1;
        }
        assert(fresh@.take(k as int) =~= fresh@);
        RhythmClaim::Queued(fresh)
    }

    /// Notes that a track is being analysed.
    pub fn mark_analyzing(&mut self, id: i64)
        ensures
            final(self)@ == if old(self)@.contains_key(id) {
                old(self)@.insert(
                    id,
                    StatusModel { phase: "analyzing"@, ..old(self)@[id] },
                )
            } else {
                old(self)@
            },
    {
        if let Some(status) = self.get(id) {
            self.put(id, Status { phase: "analyzing".to_owned(), ..status });
        }
    }

    /// Notes how the analysis of a track ended.
    pub fn mark_ended(&mut self, id: i64, phase: &str, error: &str)
        ensures
            final(self)@ == if old(self)@.contains_key(id) {
                old(self)@.insert(
                    id,
                    StatusModel { phase: phase@, error: error@, ..old(self)@[id] },
                )
            } else {
                old(self)@
            },
    {
        if let Some(status) = self.get(id) {
            self.put(
                id,
                Status { phase: phase.to_owned(), error: error.to_owned(), ..status },
            );
        }
    }

    /// Closes what a job has left open: its tracks that still wait count as canceled.
    pub fn close_job(&mut self, job: &str, ids: &Vec<i64>)
        ensures
            final(self)@ == closed(old(self)@, ids@, job@),
    {
        let ghost before = self@;
        let mut i: usize = 0;
        assert(ids@.take(0) =~= Seq::<i64>::empty());
        while i < ids.len()
            invariant
                i <= ids@.len(),
                self@ == closed(before, ids@.take(i as int), job@),
            decreases ids@.len() - i,
        {
            assert(ids@.take(i + 1).drop_last() =~= ids@.take(i as int));
            if let Some(status) = self.get(ids[i]) {
                if same(status.job_id.as_str(), job) && live(&status) {
                    self.put(ids[i], Status { phase: "canceled".to_owned(), ..status });
                }
            }
            i += 1;
        }
        assert(ids@.take(i as int) =~= ids@);
    }
}

/// The tracks of a job that still wait, closed.
pub open spec fn closed(m: Map<i64, StatusModel>, ids: Seq<i64>, job: Seq<char>) -> Map<
    i64,
    StatusModel,
>
    decreases ids.len(),
{
    if ids.len() == 0 {
        m
    } else {
        let before = closed(m, ids.drop_last(), job);
        let id = ids.last();
        if runs(before, id) && before[id].job_id == job {
            before.insert(id, StatusModel { phase: "canceled"@, ..before[id] })
        } else {
            before
        }
    }
}

/// After a job has been closed, none of its tracks waits or runs any more, and no other track has
/// changed.
pub proof fn a_closed_job_leaves_nothing_open(
    m: Map<i64, StatusModel>,
    ids: Seq<i64>,
    job: Seq<char>,
)
    ensures
        forall|i: int|
            0 <= i < ids.len() ==> !(runs(closed(m, ids, job), #[trigger] ids[i]) && closed(
                m,
                ids,
                job,
            )[ids[i]].job_id == job),
        forall|id: i64|
            (forall|i: int| 0 <= i < ids.len() ==> #[trigger] ids[i] != id) ==> #[trigger] closed(
                m,
                ids,
                job,
            ).contains_key(id) == m.contains_key(id) && closed(m, ids, job)[id] == m[id],
    decreases ids.len(),
{
    reveal_strlit("queued");
    reveal_strlit("analyzing");
    reveal_strlit("canceled");
    if ids.len() > 0 {
        let front = ids.drop_last();
        let before = closed(m, front, job);
        let after = closed(m, ids, job);
        let last = ids.last();
        a_closed_job_leaves_nothing_open(m, front, job);
        assert("canceled"@.len() == 8 && "queued"@.len() == 6 && "analyzing"@.len() == 9);
        assert(!is_live("canceled"@));
        assert forall|i: int| 0 <= i < ids.len() implies !(runs(
            after,
            #[trigger] ids[i],
        ) && after[ids[i]].job_id == job) by {
            if i < front.len() {
                assert(front[i] == ids[i]);
            }
        }
        assert forall|id: i64|
            (forall|i: int| 0 <= i < ids.len() ==> #[trigger] ids[i] != id) implies #[trigger] after.contains_key(id) == m.contains_key(id) && after[id] == m[id] by {
            assert(ids[ids.len() - 1] != id);
            assert forall|i: int| 0 <= i < front.len() implies #[trigger] front[i] != id by {
                assert(ids[i] == front[i]);
            }
            assert(before.contains_key(id) == m.contains_key(id));
        }
    }
}

/// The name of a job: a mark and sixteen digits.
pub open spec fn job_name(n: u64) -> Seq<char> {
    "rhythm-"@ + id_text(n)
}

pub fn job_name_of(n: u64) -> (r: String)
    ensures
        r@ == job_name(n),
{
    let mut r = "rhythm-".to_owned();
    r.append(id_of(n).as_str());
    r
}

pub fn new_job_name() -> (r: String)
    ensures
        exists|n: u64| r@ == #[trigger] job_name(n),
{
    job_name_of(random_u64())
}

/// The answer to a request for one track.
#[derive(Clone, Copy, PartialEq, Eq, Debug, Structural)]
pub enum StartDecision {
    /// The track is not in the library.
    Unknown,
    /// What is there is good enough.
    Enough,
    Begin,
}

/// The answer to a request for a track.
pub open spec fn decision_of(found: bool, known: Option<bool>, request: Request) -> StartDecision {
    if !found {
        StartDecision::Unknown
    } else if !request.force && known is Some && (!request.precise || known == Some(true)) {
        StartDecision::Enough
    } else {
        StartDecision::Begin
    }
}

/// Decides on a request. `known` says whether an analysis is there, and if so, whether a precise
/// one.
pub fn start_decision(found: bool, known: Option<bool>, request: Request) -> (r: StartDecision)
    ensures
        r == decision_of(found, known, request),
        r == if !found {
            StartDecision::Unknown
        } else if !request.force && known is Some && (!request.precise || known == Some(true)) {
            StartDecision::Enough
        } else {
            StartDecision::Begin
        },
{
    if !found {
        return StartDecision::Unknown;
    }
    let enough: bool = match known {
        Some(precise) => !request.precise || precise,
        None => false,
    };
    if !request.force && enough {
        StartDecision::Enough
    } else {
        StartDecision::Begin
    }
}

/// Whether an analysis has to stop at a checkpoint. Where more urgent work needs the place, it is
/// given up and taken again.
pub fn checkpoint_stops(
    cancelled: bool,
    allowed: bool,
    taken_again: bool,
    cancelled_since: bool,
) -> (r: bool)
    ensures
        r == (cancelled || (!allowed && !taken_again) || cancelled_since),
{
    cancelled || (!allowed && !taken_again) || cancelled_since
}

/// A container whose sound can be shifted against its picture.
pub open spec fn is_video_file(path: Seq<char>) -> bool {
    let ext = lower(extension_of(path));
    ||| ext == "mp4"@
    ||| ext == "m4v"@
    ||| ext == "mov"@
    ||| ext == "mkv"@
    ||| ext == "webm"@
    ||| ext == "avi"@
}

pub fn video_file(path: &str) -> (r: bool)
    ensures
        r == is_video_file(path@),
{
    let ext = lower_ascii(extension(path).as_str());
    let e = ext.as_str();
    same(e, "mp4") || same(e, "m4v") || same(e, "mov") || same(e, "mkv") || same(e, "webm") || same(
        e,
        "avi",
    )
}

/// How the analysis of one track ended.
pub open spec fn ended_phase(ok: bool, cancelled: bool) -> Seq<char> {
    if ok {
        "complete"@
    } else if cancelled {
        "canceled"@
    } else {
        "failed"@
    }
}

/// A line of progress.
pub struct RhythmProgress {
    pub job_id: String,
    pub done: usize,
    pub total: usize,
    pub track_id: Option<i64>,
    pub error: Option<String>,
    /// Only the last line says whether the batch was cancelled.
    pub cancelled: Option<bool>,
}

/// What a batch wants done next.
#[derive(Clone, Copy, PartialEq, Eq, Debug, Structural)]
pub enum RhythmAction {
    /// Wait for a place for this track, unless the batch is cancelled.
    Admit(i64),
    /// Analyse this track.
    Analyze(i64),
    Finish,
}

#[derive(Clone, Copy, PartialEq, Eq, Debug, Structural)]
pub enum RhythmStage {
    Admitting,
    Analyzing,
    Finished,
}

/// A batch of tracks.
pub struct RhythmRun {
    pub job_id: String,
    pub ids: Vec<i64>,
    pub next: usize,
    pub updated: Vec<i64>,
    pub stage: RhythmStage,
}

#[verifier::ext_equal]
pub struct RunModel {
    pub job_id: Seq<char>,
    pub ids: Seq<i64>,
    pub next: int,
    pub updated: Seq<i64>,
    pub stage: RhythmStage,
}

impl View for RhythmRun {
    type V = RunModel;

    open spec fn view(&self) -> RunModel {
        RunModel {
            job_id: self.job_id@,
            ids: self.ids@,
            next: self.next as int,
            updated: self.updated@,
            stage: self.stage,
        }
    }
}

impl RunModel {
    pub open spec fn well_formed(self) -> bool {
        &&& 0 <= self.next <= self.ids.len()
        &&& self.stage != RhythmStage::Finished ==> self.next < self.ids.len()
    }

    pub open spec fn wants(self) -> RhythmAction {
        match self.stage {
            RhythmStage::Admitting => RhythmAction::Admit(self.ids[self.next]),
            RhythmStage::Analyzing => RhythmAction::Analyze(self.ids[self.next]),
            RhythmStage::Finished => RhythmAction::Finish,
        }
    }

    /// The batch before the track with this number.
    pub open spec fn before(self, next: int) -> RunModel {
        RunModel {
            next,
            stage: if next < self.ids.len() {
                RhythmStage::Admitting
            } else {
                RhythmStage::Finished
            },
            ..self
        }
    }
}

impl RhythmRun {
    pub open spec fn well_formed(self) -> bool {
        self@.well_formed()
    }

    pub fn begin(job_id: String, ids: Vec<i64>) -> (r: (Self, RhythmAction))
        ensures
            r.0.well_formed(),
            r.0@ == (RunModel {
                job_id: job_id@,
                ids: ids@,
                next: 0,
                updated: Seq::empty(),
                stage: RhythmStage::Finished,
            }).before(0),
            r.1 == r.0@.wants(),
    {
        let stage = if ids.len() > 0 {
            RhythmStage::Admitting
        } else {
            RhythmStage::Finished
        };
        let run = RhythmRun { job_id, ids, next: 0, updated: Vec::new(), stage };
        assert(run@.updated =~= Seq::<i64>::empty());
        let action = run.action();
        (run, action)
    }

    pub fn action(&self) -> (r: RhythmAction)
        requires
            self.well_formed(),
        ensures
            r == self@.wants(),
    {
        match self.stage {
            RhythmStage::Admitting => RhythmAction::Admit(self.ids[self.next]),
            RhythmStage::Analyzing => RhythmAction::Analyze(self.ids[self.next]),
            RhythmStage::Finished => RhythmAction::Finish,
        }
    }

    /// Takes in whether the track got a place; a cancelled batch gets none and ends.
    pub fn admitted(&mut self, statuses: &mut RhythmStatuses, ok: bool) -> (r: RhythmAction)
        requires
            old(self).well_formed(),
            old(self)@.stage == RhythmStage::Admitting,
        ensures
            final(self).well_formed(),
            final(self)@ == (RunModel {
                stage: if ok {
                    RhythmStage::Analyzing
                } else {
                    RhythmStage::Finished
                },
                ..old(self)@
            }),
            r == final(self)@.wants(),
            ({
                let id = old(self)@.ids[old(self)@.next];
                final(statuses)@ == if ok && old(statuses)@.contains_key(id) {
                    old(statuses)@.insert(
                        id,
                        StatusModel { phase: "analyzing"@, ..old(statuses)@[id] },
                    )
                } else {
                    old(statuses)@
                }
            }),
    {
        if ok {
            statuses.mark_analyzing(self.ids[self.next]);
            self.stage = RhythmStage::Analyzing;
        } else {
            self.stage = RhythmStage::Finished;
        }
        self.action()
    }

    /// Takes in how the analysis of the track ended, and goes on.
    pub fn analyzed(
        &mut self,
        statuses: &mut RhythmStatuses,
        result: Result<(), String>,
        cancelled: bool,
    ) -> (r: (RhythmProgress, RhythmAction))
        requires
            old(self).well_formed(),
            old(self)@.stage == RhythmStage::Analyzing,
        ensures
            final(self).well_formed(),
            ({
                let id = old(self)@.ids[old(self)@.next];
                let error = match result {
                    Ok(()) => ""@,
                    Err(e) => e@,
                };
                let phase = ended_phase(result is Ok, cancelled);
                &&& final(self)@ == (RunModel {
                    updated: if result is Ok {
                        old(self)@.updated.push(id)
                    } else {
                        old(self)@.updated
                    },
                    ..old(self)@
                }).before(old(self)@.next + 1)
                &&& final(statuses)@ == if old(statuses)@.contains_key(id) {
                    old(statuses)@.insert(
                        id,
                        StatusModel { phase, error, ..old(statuses)@[id] },
                    )
                } else {
                    old(statuses)@
                }
                &&& r.0.job_id@ == old(self)@.job_id
                &&& r.0.done == old(self)@.next + 1
                &&& r.0.total == old(self)@.ids.len()
                &&& r.0.track_id == Some(id)
                &&& crate::models::text_of(r.0.error) == Some(error)
                &&& r.0.cancelled is None
                &&& r.1 == final(self)@.wants()
            }),
    {
        let id: i64 = self.ids[self.next];
        let total: usize = self.ids.len();
        let (phase, error): (&'static str, String) = match result {
            Ok(()) => {
                self.updated.push(id);
                ("complete", "".to_owned())
            },
            Err(e) => (
                if cancelled {
                    "canceled"
                } else {
                    "failed"
                },
                e,
            ),
        };
        statuses.mark_ended(id, phase, error.as_str());
        assert(self.next < total);
        self.next = self.next + 1;
        self.stage = if self.next < total {
            RhythmStage::Admitting
        } else {
            RhythmStage::Finished
        };
        let progress = RhythmProgress {
            job_id: self.job_id.clone(),
            done: self.next,
            total,
            track_id: Some(id),
            error: Some(error),
            cancelled: None,
        };
        (progress, self.action())
    }

    /// Closes the batch, with its last line.
    pub fn end(&self, statuses: &mut RhythmStatuses, cancelled: bool) -> (r: RhythmProgress)
        ensures
            final(statuses)@ == closed(old(statuses)@, self@.ids, self@.job_id),
            r.job_id@ == self@.job_id,
            r.done == self@.ids.len(),
            r.total == self@.ids.len(),
            r.track_id is None,
            r.error is None,
            r.cancelled == Some(cancelled),
    {
        statuses.close_job(self.job_id.as_str(), &self.ids);
        RhythmProgress {
            job_id: self.job_id.clone(),
            done: self.ids.len(),
            total: self.ids.len(),
            track_id: None,
            error: None,
            cancelled: Some(cancelled),
        }
    }
}

} // verus!
