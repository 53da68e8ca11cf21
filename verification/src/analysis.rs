//! The analysis of tracks in the background: how many run at once, how they give way to the
//! player, how they are stopped, and what one worker does with each track.

use vstd::prelude::*;

use crate::ids::{id_text, new_id};
use crate::text::same;

verus! {

/// What every analysed track passes through, whatever batch it belongs to: it hands out permits.
pub struct AnalysisGate {
    pub permits: usize,
    pub capacity: usize,
}

impl AnalysisGate {
    pub open spec fn well_formed(self) -> bool {
        self.permits <= self.capacity
    }

    /// How many hold a permit.
    pub open spec fn running(self) -> int {
        self.capacity - self.permits
    }

    pub fn new(permits: usize) -> (r: Self)
        ensures
            r.well_formed(),
            r.capacity == permits,
            r.running() == 0,
    {
        AnalysisGate { permits, capacity: permits }
    }

    /// Takes a permit. Where none is left the caller waits for the next release and asks again.
    pub fn acquire(&mut self) -> (r: bool)
        requires
            old(self).well_formed(),
        ensures
            final(self).well_formed(),
            final(self).capacity == old(self).capacity,
            r == (old(self).running() < old(self).capacity),
            final(self).running() == old(self).running() + if r {
                1int
            } else {
                0
            },
    {
        if self.permits == 0 {
            false
        } else {
            self.permits = self.permits - 1;
            true
        }
    }

    /// Gives a permit back.
    pub fn release(&mut self)
        requires
            old(self).well_formed(),
            old(self).running() > 0,
        ensures
            final(self).well_formed(),
            final(self).capacity == old(self).capacity,
            final(self).running() == old(self).running() - 1,
    {
        self.permits = self.permits + 1;
    }
}

/// However many batches there are, no more tracks are analysed at once than there are permits;
/// and once all permits are back it is as wide as before.
pub proof fn the_gate_caps_what_runs(gate: AnalysisGate)
    requires
        gate.well_formed(),
    ensures
        0 <= gate.running() <= gate.capacity,
        gate.running() == 0 ==> gate.permits == gate.capacity,
{
}

/// How many interactive requests want the analysis to give way.
pub struct InteractiveYield {
    pub active: usize,
}

/// The claim of one interactive request; handed back with [`InteractiveYield::end`].
pub struct AnalysisYield;

impl Default for InteractiveYield {
    fn default() -> (r: Self)
        ensures
            r.active == 0,
    {
        InteractiveYield { active: 0 }
    }
}

/// Marks that an interactive request runs: no further track is begun until it has ended.
pub fn yield_analysis_permits(state: &mut InteractiveYield) -> (r: AnalysisYield)
    requires
        old(state).active < usize::MAX,
    ensures
        final(state).active == old(state).active + 1,
{
    state.active = state.active + 1;
    AnalysisYield
}

impl InteractiveYield {
    /// Ends the claim of one interactive request.
    pub fn end(&mut self, claim: AnalysisYield)
        requires
            old(self).active > 0,
        ensures
            final(self).active == old(self).active - 1,
    {
        self.active = self.active - 1;
    }

    /// Whether a worker has to wait before its next track; a cancelled one never waits.
    pub fn must_wait(&self, cancelled: bool) -> (r: bool)
        ensures
            r == (self.active > 0 && !cancelled),
    {
        self.active > 0 && !cancelled
    }
}

/// A batch that can be stopped.
pub struct AnalysisJob {
    pub id: String,
    pub cancel: u64,
    pub total: usize,
    pub done: usize,
}

#[verifier::ext_equal]
pub struct JobModel {
    pub id: Seq<char>,
    pub cancel: u64,
    pub total: usize,
    pub done: usize,
}

impl View for AnalysisJob {
    type V = JobModel;

    open spec fn view(&self) -> JobModel {
        JobModel { id: self.id@, cancel: self.cancel, total: self.total, done: self.done }
    }
}

pub open spec fn job_views(jobs: Seq<AnalysisJob>) -> Seq<JobModel> {
    jobs.map_values(|j: AnalysisJob| j@)
}

/// What stopping did: how many batches, and how many tracks they had left.
#[derive(Clone, Copy, PartialEq, Eq, Debug, Structural)]
pub struct CancelReport {
    pub canceled: usize,
    pub remaining: usize,
}

/// The batches that can be stopped.
pub struct AnalysisRegistry {
    pub jobs: Vec<AnalysisJob>,
    /// The tokens that stopping has fired and nobody has taken yet.
    pub fired: Vec<u64>,
    /// How many tokens were given out; it is the next one.
    pub issued: u64,
}

#[verifier::ext_equal]
pub struct RegistryModel {
    pub jobs: Seq<JobModel>,
    pub fired: Seq<u64>,
    pub issued: u64,
}

impl View for AnalysisRegistry {
    type V = RegistryModel;

    open spec fn view(&self) -> RegistryModel {
        RegistryModel { jobs: job_views(self.jobs@), fired: self.fired@, issued: self.issued }
    }
}

/// Where a job stands in the list, or the length of the list.
pub open spec fn job_at(jobs: Seq<JobModel>, id: Seq<char>) -> int
    decreases jobs.len(),
{
    if jobs.len() == 0 {
        0
    } else if jobs[0].id == id {
        0
    } else {
        1 + job_at(jobs.drop_first(), id)
    }
}

pub open spec fn has_job(jobs: Seq<JobModel>, id: Seq<char>) -> bool {
    exists|i: int| 0 <= i < jobs.len() && (#[trigger] jobs[i]).id == id
}

/// No two jobs have the same name.
pub open spec fn distinct_jobs(jobs: Seq<JobModel>) -> bool {
    forall|i: int, j: int|
        0 <= i < j < jobs.len() ==> (#[trigger] jobs[i]).id != (#[trigger] jobs[j]).id
}

/// What a job has left; a count beyond the total counts as none.
pub open spec fn left_of(job: JobModel) -> nat {
    if job.done >= job.total {
        0
    } else {
        (job.total - job.done) as nat
    }
}

pub open spec fn left_in(jobs: Seq<JobModel>) -> nat
    decreases jobs.len(),
{
    if jobs.len() == 0 {
        0
    } else {
        left_in(jobs.drop_last()) + left_of(jobs.last())
    }
}

pub open spec fn tokens_of(jobs: Seq<JobModel>) -> Seq<u64> {
    jobs.map_values(|j: JobModel| j.cancel)
}

/// What a request to stop is about: the named job, or all of them where the name is not known.
pub open spec fn stopped(jobs: Seq<JobModel>, id: Seq<char>) -> Seq<JobModel> {
    if has_job(jobs, id) {
        seq![jobs[job_at(jobs, id)]]
    } else {
        jobs
    }
}

pub proof fn lemma_job_at_is(jobs: Seq<JobModel>, id: Seq<char>, i: int)
    requires
        0 <= i <= jobs.len(),
        forall|j: int| 0 <= j < i ==> (#[trigger] jobs[j]).id != id,
        i < jobs.len() ==> jobs[i].id == id,
    ensures
        job_at(jobs, id) == i,
        has_job(jobs, id) == (i < jobs.len()),
    decreases jobs.len(),
{
    if jobs.len() > 0 && jobs[0].id != id {
        assert forall|j: int| 0 <= j < i - 1 implies (#[trigger] jobs.drop_first()[j]).id != id by {
            assert(jobs.drop_first()[j] == jobs[j + 1]);
        }
        lemma_job_at_is(jobs.drop_first(), id, i - 1);
    }
    if i < jobs.len() {
        assert(jobs[i].id == id);
    }
}

proof fn lemma_job_at_found(jobs: Seq<JobModel>, id: Seq<char>)
    requires
        has_job(jobs, id),
    ensures
        0 <= job_at(jobs, id) < jobs.len(),
        jobs[job_at(jobs, id)].id == id,
    decreases jobs.len(),
{
    let k = choose|i: int| 0 <= i < jobs.len() && (#[trigger] jobs[i]).id == id;
    if jobs[0].id != id {
        assert(jobs.drop_first()[k - 1] == jobs[k]);
        lemma_job_at_found(jobs.drop_first(), id);
    }
}

proof fn lemma_left_grows(jobs: Seq<JobModel>, i: int)
    requires
        0 <= i <= jobs.len(),
    ensures
        left_in(jobs.take(i)) <= left_in(jobs),
    decreases jobs.len() - i,
{
    if i == jobs.len() {
        assert(jobs.take(i) =~= jobs);
    } else {
        lemma_left_grows(jobs.drop_last(), i);
        assert(jobs.drop_last().take(i) =~= jobs.take(i));
    }
}

/// The list after a job has been entered: it takes the place of one with the same name.
pub open spec fn registered(jobs: Seq<JobModel>, job: JobModel) -> Seq<JobModel> {
    if has_job(jobs, job.id) {
        jobs.update(job_at(jobs, job.id), job)
    } else {
        jobs.push(job)
    }
}

pub open spec fn unregistered(jobs: Seq<JobModel>, id: Seq<char>) -> Seq<JobModel> {
    if has_job(jobs, id) {
        jobs.remove(job_at(jobs, id))
    } else {
        jobs
    }
}

impl RegistryModel {
    /// No two batches have the same name, and every token was given out.
    pub open spec fn well_formed(self) -> bool {
        &&& distinct_jobs(self.jobs)
        &&& forall|i: int| 0 <= i < self.jobs.len() ==> (#[trigger] self.jobs[i]).cancel < self.issued
        &&& forall|i: int| 0 <= i < self.fired.len() ==> #[trigger] self.fired[i] < self.issued
    }

    /// After a batch began under a new token. The batch of the track that plays is not entered.
    pub open spec fn after_register(
        self,
        id: Seq<char>,
        total: usize,
        done: usize,
        priority: bool,
    ) -> RegistryModel {
        RegistryModel {
            jobs: if priority {
                self.jobs
            } else {
                registered(self.jobs, JobModel { id, cancel: self.issued, total, done })
            },
            issued: (self.issued + 1) as u64,
            ..self
        }
    }

    /// After it was noted how far a batch has come.
    pub open spec fn after_progress(self, id: Seq<char>, done: usize) -> RegistryModel {
        if has_job(self.jobs, id) {
            let at = job_at(self.jobs, id);
            RegistryModel {
                jobs: self.jobs.update(at, JobModel { done, ..self.jobs[at] }),
                ..self
            }
        } else {
            self
        }
    }

    /// After a batch has ended.
    pub open spec fn after_end(self, id: Seq<char>) -> RegistryModel {
        RegistryModel { jobs: unregistered(self.jobs, id), ..self }
    }

    /// After the analysis was stopped: the tokens of what was stopped are fired.
    pub open spec fn after_cancel(self, id: Seq<char>) -> RegistryModel {
        RegistryModel { fired: self.fired + tokens_of(stopped(self.jobs, id)), ..self }
    }

    /// A token was given out, no batch is entered under it, and it is not fired.
    pub open spec fn leaves_alone(self, token: u64) -> bool {
        &&& token < self.issued
        &&& !self.fired.contains(token)
        &&& forall|i: int| 0 <= i < self.jobs.len() ==> (#[trigger] self.jobs[i]).cancel != token
    }
}

proof fn lemma_new_token(
    r: RegistryModel,
    id: Seq<char>,
    total: usize,
    done: usize,
    priority: bool,
)
    requires
        r.well_formed(),
        r.issued < u64::MAX,
    ensures
        r.after_register(id, total, done, priority).well_formed(),
        !r.fired.contains(r.issued),
{
    let after = r.after_register(id, total, done, priority);
    assert forall|i: int| 0 <= i < after.jobs.len() implies (#[trigger] after.jobs[i]).cancel
        < after.issued by {
        if has_job(r.jobs, id) {
            lemma_job_at_found(r.jobs, id);
        }
        if i < r.jobs.len() {
            assert(r.jobs[i].cancel < r.issued);
        }
    }
    if !priority {
        if has_job(r.jobs, id) {
            lemma_job_at_found(r.jobs, id);
        }
        assert forall|i: int, j: int| 0 <= i < j < after.jobs.len() implies (
        #[trigger] after.jobs[i]).id != (#[trigger] after.jobs[j]).id by {
            if j < r.jobs.len() {
                assert(r.jobs[i].id != r.jobs[j].id);
            } else {
                assert(after.jobs[i] == r.jobs[i]);
            }
        }
    }
}

proof fn lemma_one_less(jobs: Seq<JobModel>, at: int, issued: u64)
    requires
        0 <= at < jobs.len(),
        distinct_jobs(jobs),
        forall|i: int| 0 <= i < jobs.len() ==> (#[trigger] jobs[i]).cancel < issued,
    ensures
        distinct_jobs(jobs.remove(at)),
        forall|i: int|
            0 <= i < jobs.remove(at).len() ==> (#[trigger] jobs.remove(at)[i]).cancel < issued,
{
    let rest = jobs.remove(at);
    assert forall|i: int| 0 <= i < rest.len() implies (#[trigger] rest[i]).cancel < issued by {
        assert(rest[i] == if i < at {
            jobs[i]
        } else {
            jobs[i + 1]
        });
    }
    assert forall|i: int, j: int| 0 <= i < j < rest.len() implies (#[trigger] rest[i]).id != (
    #[trigger] rest[j]).id by {
        let a = if i < at {
            i
        } else {
            i + 1
        };
        let b = if j < at {
            j
        } else {
            j + 1
        };
        assert(rest[i] == jobs[a] && rest[j] == jobs[b]);
    }
}

proof fn lemma_fired_were_issued(r: RegistryModel, id: Seq<char>)
    requires
        r.well_formed(),
    ensures
        r.after_cancel(id).well_formed(),
{
    let all = stopped(r.jobs, id);
    let after = r.after_cancel(id);
    if has_job(r.jobs, id) {
        lemma_job_at_found(r.jobs, id);
    }
    assert forall|i: int| 0 <= i < after.fired.len() implies #[trigger] after.fired[i]
        < after.issued by {
        if i < r.fired.len() {
            assert(after.fired[i] == r.fired[i]);
        } else {
            let k = i - r.fired.len();
            assert(after.fired[i] == all[k].cancel);
            if has_job(r.jobs, id) {
                assert(all[k] == r.jobs[job_at(r.jobs, id)]);
            } else {
                assert(all[k] == r.jobs[k]);
            }
        }
    }
}

impl Default for AnalysisRegistry {
    fn default() -> (r: Self)
        ensures
            r.well_formed(),
            r@ == (RegistryModel { jobs: Seq::empty(), fired: Seq::empty(), issued: 0 }),
    {
        let r = AnalysisRegistry { jobs: Vec::new(), fired: Vec::new(), issued: 0 };
        assert(r@.jobs =~= Seq::<JobModel>::empty());
        assert(r@.fired =~= Seq::<u64>::empty());
        r
    }
}

impl AnalysisRegistry {
    pub open spec fn well_formed(self) -> bool {
        self@.well_formed()
    }

    fn find(&self, job_id: &str) -> (r: usize)
        ensures
            r == job_at(self@.jobs, job_id@),
            r <= self@.jobs.len(),
            self@.jobs.len() == self.jobs@.len(),
            has_job(self@.jobs, job_id@) == (r < self@.jobs.len()),
            forall|j: int| 0 <= j < r ==> (#[trigger] self@.jobs[j]).id != job_id@,
            r < self@.jobs.len() ==> self@.jobs[r as int].id == job_id@,
    {
        let mut i: usize = 0;
        while i < self.jobs.len() && !same(self.jobs[i].id.as_str(), job_id)
            invariant
                i <= self.jobs.len(),
                forall|j: int| 0 <= j < i ==> (#[trigger] self@.jobs[j]).id != job_id@,
            decreases self.jobs.len() - i,
        {
            i += 1;
        }
        proof {
            lemma_job_at_is(self@.jobs, job_id@, i as int);
        }
        i
    }

    /// Enters a batch under a new token, which is the result. The batch of the track that plays is
    /// not entered, so that stopping the analysis leaves it alone.
    pub fn register(&mut self, job_id: &str, total: usize, done: usize, priority: bool) -> (r: u64)
        requires
            old(self).well_formed(),
            old(self)@.issued < u64::MAX,
        ensures
            final(self).well_formed(),
            r == old(self)@.issued,
            !final(self)@.fired.contains(r),
            final(self)@ == old(self)@.after_register(job_id@, total, done, priority),
    {
        let cancel: u64 = self.issued;
        proof {
            lemma_new_token(self@, job_id@, total, done, priority);
        }
        self.issued = cancel + 1;
        if priority {
            return cancel;
        }
        let at: usize = self.find(job_id);
        let job = AnalysisJob { id: job_id.to_owned(), cancel, total, done };
        let ghost before = self@.jobs;
        if at < self.jobs.len() {
            self.jobs.set(at, job);
            assert(self@.jobs =~= before.update(at as int, job@));
        } else {
            self.jobs.push(job);
            assert(self@.jobs =~= before.push(job@));
        }
        cancel
    }

    /// Notes how far a batch has come.
    pub fn record_done(&mut self, job_id: &str, done: usize)
        requires
            old(self).well_formed(),
        ensures
            final(self).well_formed(),
            final(self)@ == old(self)@.after_progress(job_id@, done),
    {
        let at: usize = self.find(job_id);
        let ghost before = self@.jobs;
        if at < self.jobs.len() {
            let job: &mut AnalysisJob = &mut self.jobs[at];
            job.done = done;
            assert(self@.jobs =~= before.update(at as int, JobModel { done, ..before[at as int] }));
        }
    }

    /// Takes a batch off the list once it has ended.
    pub fn unregister(&mut self, job_id: &str)
        requires
            old(self).well_formed(),
        ensures
            final(self).well_formed(),
            final(self)@ == old(self)@.after_end(job_id@),
    {
        let at: usize = self.find(job_id);
        let ghost fired = self@.fired;
        let ghost before = self@.jobs;
        if at < self.jobs.len() {
            let gone = self.jobs.remove(at);
            assert(self@.jobs =~= before.remove(at as int));
            proof {
                lemma_one_less(before, at as int, self@.issued);
            }
        }
        assert(self@.fired == fired);
    }

    /// Stops the named batch; a name that is not known stops them all. The tokens of what was
    /// stopped are fired.
    pub fn cancel(&mut self, job_id: &str) -> (r: CancelReport)
        requires
            old(self).well_formed(),
            left_in(old(self)@.jobs) <= usize::MAX,
        ensures
            final(self).well_formed(),
            final(self)@ == old(self)@.after_cancel(job_id@),
            r.canceled == stopped(old(self)@.jobs, job_id@).len(),
            r.remaining == left_in(stopped(old(self)@.jobs, job_id@)),
    {
        proof {
            lemma_fired_were_issued(self@, job_id@);
        }
        let at: usize = self.find(job_id);
        let ghost jobs = self@.jobs;
        let ghost fired = self.fired@;
        let count: usize = self.jobs.len();
        if at < count {
            let left: usize = left_of_job(&self.jobs[at]);
            let token: u64 = self.jobs[at].cancel;
            self.fired.push(token);
            let ghost one = seq![jobs[at as int]];
            assert(one.drop_last() =~= Seq::<JobModel>::empty());
            assert(left_in(one) == left_in(one.drop_last()) + left_of(one.last()));
            assert(left_in(Seq::<JobModel>::empty()) == 0);
            assert(self.fired@ =~= fired + tokens_of(one));
            return CancelReport { canceled: 1, remaining: left };
        }
        let mut remaining: usize = 0;
        let mut i: usize = 0;
        assert(tokens_of(jobs.take(0)) =~= Seq::<u64>::empty());
        assert(self.fired@ =~= fired + tokens_of(jobs.take(0)));
        while i < count
            invariant
                i <= count,
                count == self.jobs@.len(),
                jobs == job_views(self.jobs@),
                left_in(jobs) <= usize::MAX,
                remaining == left_in(jobs.take(i as int)),
                self.fired@ == fired + tokens_of(jobs.take(i as int)),
                self.jobs@ == old(self).jobs@,
                self.issued == old(self).issued,
            decreases count - i,
        {
            assert(jobs.take(i + 1).drop_last() =~= jobs.take(i as int));
            proof {
                lemma_left_grows(jobs, i + 1);
            }
            let left: usize = left_of_job(&self.jobs[i]);
            let token: u64 = self.jobs[i].cancel;
            self.fired.push(token);
            remaining = remaining + left;
            assert(tokens_of(jobs.take(i + 1)) =~= tokens_of(jobs.take(i as int)).push(token));
            assert(self.fired@ =~= fired + tokens_of(jobs.take(i + 1)));
            i += 1;
        }
        assert(jobs.take(i as int) =~= jobs);
        CancelReport { canceled: count, remaining }
    }

    /// How many batches can be stopped.
    pub fn running(&self) -> (r: usize)
        ensures
            r == self@.jobs.len(),
    {
        self.jobs.len()
    }

    /// Whether stopping has fired a token that nobody has taken yet.
    pub fn is_cancelled(&self, token: u64) -> (r: bool)
        ensures
            r == self@.fired.contains(token),
    {
        let mut i: usize = 0;
        while i < self.fired.len()
            invariant
                i <= self.fired.len(),
                forall|j: int| 0 <= j < i ==> self.fired@[j] != token,
            decreases self.fired.len() - i,
        {
            if self.fired[i] == token {
                assert(self.fired@[i as int] == token);
                return true;
            }
            i += 1;
        }
        false
    }

    /// Hands out the tokens that were fired.
    pub fn take_fired(&mut self) -> (r: Vec<u64>)
        ensures
            r@ == old(self)@.fired,
            final(self)@ == (RegistryModel { fired: Seq::empty(), ..old(self)@ }),
            old(self).well_formed() ==> final(self).well_formed(),
    {
        let mut taken: Vec<u64> = Vec::new();
        std::mem::swap(&mut taken, &mut self.fired);
        assert(self.fired@ =~= Seq::<u64>::empty());
        taken
    }
}

fn left_of_job(job: &AnalysisJob) -> (r: usize)
    ensures
        r == left_of(job@),
{
    if job.done >= job.total {
        0
    } else {
        job.total - job.done
    }
}

/// A name that nobody knows stops everything that runs.
pub proof fn an_unknown_name_stops_everything(jobs: Seq<JobModel>, id: Seq<char>)
    requires
        !has_job(jobs, id),
    ensures
        stopped(jobs, id) == jobs,
{
}

/// The batch of the track that plays gets a token that nothing fires: it is not fired when the
/// batch begins, and whatever is begun, noted, ended or stopped afterwards, under whatever name,
/// leaves it alone and does not count it.
pub proof fn the_playing_track_is_never_stopped(
    r: RegistryModel,
    token: u64,
    id: Seq<char>,
    total: usize,
    done: usize,
    priority: bool,
)
    requires
        r.well_formed(),
        r.issued < u64::MAX,
    ensures
        r.after_register(id, total, done, true).leaves_alone(r.issued),
        r.after_register(id, total, done, true).jobs == r.jobs,
        r.leaves_alone(token) ==> {
            &&& r.after_register(id, total, done, priority).leaves_alone(token)
            &&& r.after_progress(id, done).leaves_alone(token)
            &&& r.after_end(id).leaves_alone(token)
            &&& r.after_cancel(id).leaves_alone(token)
            &&& !tokens_of(stopped(r.jobs, id)).contains(token)
        },
{
    if r.leaves_alone(token) {
        let all = stopped(r.jobs, id);
        if has_job(r.jobs, id) {
            lemma_job_at_found(r.jobs, id);
        }
        assert forall|i: int| 0 <= i < tokens_of(all).len() implies #[trigger] tokens_of(all)[i]
            != token by {
            if has_job(r.jobs, id) {
                assert(all[i] == r.jobs[job_at(r.jobs, id)]);
            } else {
                assert(all[i] == r.jobs[i]);
            }
        }
        let after = r.after_cancel(id).fired;
        assert forall|i: int| 0 <= i < after.len() implies #[trigger] after[i] != token by {
            if i >= r.fired.len() {
                assert(after[i] == tokens_of(all)[i - r.fired.len()]);
            } else {
                assert(r.fired.contains(r.fired[i]));
            }
        }
    }
}

/// A batch that has ended can no longer be stopped under its name.
pub proof fn an_ended_batch_is_forgotten(jobs: Seq<JobModel>, id: Seq<char>)
    requires
        distinct_jobs(jobs),
    ensures
        !has_job(unregistered(jobs, id), id),
{
    if has_job(jobs, id) {
        let k = choose|i: int| 0 <= i < jobs.len() && (#[trigger] jobs[i]).id == id;
        assert forall|j: int| 0 <= j < k implies (#[trigger] jobs[j]).id != id by {
            assert(jobs[j].id != jobs[k].id);
        }
        lemma_job_at_is(jobs, id, k);
        let rest = jobs.remove(k);
        assert forall|i: int| 0 <= i < rest.len() implies (#[trigger] rest[i]).id != id by {
            if i < k {
                assert(rest[i] == jobs[i]);
            } else {
                assert(rest[i] == jobs[i + 1]);
                assert(jobs[k].id != jobs[i + 1].id);
            }
        }
    }
}

/// Where the results of an analysis are kept.
#[derive(Clone, Copy, PartialEq, Eq, Debug, Structural)]
pub enum AnalysisWriteTarget {
    V1,
    BpmKeyV2,
}

impl AnalysisWriteTarget {
    pub open spec fn name(self) -> Seq<char> {
        match self {
            AnalysisWriteTarget::V1 => "v1"@,
            AnalysisWriteTarget::BpmKeyV2 => "v2"@,
        }
    }

    pub fn version(self) -> (r: &'static str)
        ensures
            r@ == self.name(),
    {
        match self {
            AnalysisWriteTarget::V1 => "v1",
            AnalysisWriteTarget::BpmKeyV2 => "v2",
        }
    }
}

/// How many tracks each worker of a batch gets.
pub open spec fn chunk_size(count: nat, workers: nat) -> nat {
    let size = count / workers + if count % workers > 0 {
        1nat
    } else {
        0nat
    };
    if size > 1 {
        size
    } else {
        1
    }
}

pub open spec fn flat(chunks: Seq<Vec<i64>>) -> Seq<i64>
    decreases chunks.len(),
{
    if chunks.len() == 0 {
        Seq::empty()
    } else {
        flat(chunks.drop_last()) + chunks.last()@
    }
}

/// Shares the tracks of a batch among its workers, in order: all but the last get the same number.
pub fn share_out(ids: &Vec<i64>, workers: usize) -> (r: Vec<Vec<i64>>)
    requires
        workers > 0,
    ensures
        flat(r@) == ids@,
        forall|i: int|
            0 <= i < r@.len() - 1 ==> (#[trigger] r@[i])@.len() == chunk_size(
                ids@.len(),
                workers as nat,
            ),
        r@.len() > 0 ==> 0 < r@.last()@.len() <= chunk_size(ids@.len(), workers as nat),
        r@.len() <= workers,
{
    let count: usize = ids.len();
    let mut size: usize = count / workers;
    proof {
        lemma_enough_workers(count as int, workers as int);
    }
    if count % workers > 0 {
        size = size + 1;
    }
    if size < 1 {
        size = 1;
    }
    let mut chunks: Vec<Vec<i64>> = Vec::new();
    let mut at: usize = 0;
    assert(flat(chunks@) =~= ids@.take(0));
    while at < count
        invariant
            at <= count,
            count == ids@.len(),
            size >= 1,
            size == chunk_size(ids@.len(), workers as nat),
            count <= size * workers,
            flat(chunks@) == ids@.take(at as int),
            at < count ==> at == chunks@.len() * size,
            at == count && count > 0 ==> chunks@.len() > 0 && (chunks@.len() - 1) * size < count,
            at == count && count == 0 ==> chunks@.len() == 0,
            forall|i: int|
                0 <= i < chunks@.len() ==> 0 < (#[trigger] chunks@[i])@.len() <= size,
            forall|i: int|
                0 <= i < chunks@.len() - 1 ==> (#[trigger] chunks@[i])@.len() == size,
            at < count ==> (forall|i: int|
                0 <= i < chunks@.len() ==> (#[trigger] chunks@[i])@.len() == size),
        decreases count - at,
    {
        let end: usize = if count - at > size {
            at + size
        } else {
            count
        };
        let mut chunk: Vec<i64> = Vec::new();
        let mut i: usize = at;
        while i < end
            invariant
                at <= i <= end <= count,
                count == ids@.len(),
                chunk@ == ids@.subrange(at as int, i as int),
            decreases end - i,
        {
            chunk.push(ids[i]);
            i += 1;
            assert(chunk@ =~= ids@.subrange(at as int, i as int));
        }
        let ghost before = chunks@;
        let ghost taken = at as int;
        chunks.push(chunk);
        proof {
            assert(chunks@.drop_last() =~= before);
            assert(flat(chunks@) =~= ids@.take(end as int));
            assert(end < count ==> end == taken + size);
            let n = before.len() as int;
            let s = size as int;
            assert((n + 1) * s == n * s + s) by (nonlinear_arith);
        }
        at = end;
    }
    assert(ids@.take(at as int) =~= ids@);
    proof {
        if count > 0 {
            let n = chunks@.len() as int;
            let s = size as int;
            let w = workers as int;
            assert(n <= w) by (nonlinear_arith)
                requires
                    (n - 1) * s < count,
                    count <= s * w,
                    s >= 1,
            ;
        }
    }
    chunks
}

proof fn lemma_enough_workers(count: int, workers: int)
    requires
        count >= 0,
        workers > 0,
    ensures
        count <= chunk_size(count as nat, workers as nat) * workers,
        0 <= count / workers <= count,
        count % workers > 0 ==> count / workers < count,
{
    let q = count / workers;
    let rem = count % workers;
    vstd::arithmetic::div_mod::lemma_fundamental_div_mod(count, workers);
    vstd::arithmetic::mul::lemma_mul_is_commutative(q, workers);
    assert(q >= 0 && 0 <= rem < workers) by (nonlinear_arith)
        requires
            count >= 0,
            workers > 0,
            q == count / workers,
            rem == count % workers,
    ;
    assert(q <= count && (rem > 0 ==> q < count)) by (nonlinear_arith)
        requires
            count == q * workers + rem,
            workers > 0,
            rem >= 0,
            q >= 0,
    ;
    let size = chunk_size(count as nat, workers as nat) as int;
    assert(count <= size * workers) by (nonlinear_arith)
        requires
            count == q * workers + rem,
            0 <= rem < workers,
            size >= q + if rem > 0 {
                1int
            } else {
                0int
            },
            q >= 0,
    ;
}

/// A line of progress of an analysis.
pub struct AnalyzeProgress {
    pub job_id: String,
    pub done: usize,
    pub total: usize,
    pub current: String,
    pub track_id: Option<i64>,
    pub version: Option<&'static str>,
}

#[verifier::ext_equal]
pub struct AnalyzeModel {
    pub job_id: Seq<char>,
    pub done: usize,
    pub total: usize,
    pub current: Seq<char>,
    pub track_id: Option<i64>,
    pub version: Option<Seq<char>>,
}

impl View for AnalyzeProgress {
    type V = AnalyzeModel;

    open spec fn view(&self) -> AnalyzeModel {
        AnalyzeModel {
            job_id: self.job_id@,
            done: self.done,
            total: self.total,
            current: self.current@,
            track_id: self.track_id,
            version: crate::error::label_of(self.version),
        }
    }
}

/// A batch of tracks under analysis.
pub struct AnalysisBatch {
    pub job_id: String,
    pub total: usize,
    pub target: AnalysisWriteTarget,
    /// The tracks that are finished, in the order in which they finished.
    pub updated: Vec<i64>,
}

impl AnalysisBatch {
    /// A batch under a given name; without tracks there is none.
    pub fn begin_as(job_id: &str, ids: &Vec<i64>, target: AnalysisWriteTarget) -> (r: Option<Self>)
        ensures
            match r {
                Some(batch) => ids@.len() > 0 && batch.job_id@ == job_id@ && batch.total
                    == ids@.len() && batch.target == target && batch.updated@ == Seq::<i64>::empty(),
                None => ids@.len() == 0,
            },
    {
        if ids.len() == 0 {
            return None;
        }
        Some(
            AnalysisBatch {
                job_id: job_id.to_owned(),
                total: ids.len(),
                target,
                updated: Vec::new(),
            },
        )
    }

    /// A batch under a fresh name. The name is given back even where there is nothing to do.
    pub fn begin(ids: &Vec<i64>, target: AnalysisWriteTarget) -> (r: (String, Option<Self>))
        ensures
            exists|n: u64| r.0@ == id_text(n),
            match r.1 {
                Some(batch) => ids@.len() > 0 && batch.job_id@ == r.0@ && batch.total == ids@.len()
                    && batch.target == target && batch.updated@ == Seq::<i64>::empty(),
                None => ids@.len() == 0,
            },
    {
        let job_id = new_id();
        let batch = Self::begin_as(job_id.as_str(), ids, target);
        (job_id, batch)
    }

    /// Notes that a track is finished.
    pub fn record(&mut self, track_id: i64, filename: &str) -> (r: AnalyzeProgress)
        ensures
            final(self).job_id == old(self).job_id,
            final(self).total == old(self).total,
            final(self).target == old(self).target,
            final(self).updated@ == old(self).updated@.push(track_id),
            r@ == (AnalyzeModel {
                job_id: old(self).job_id@,
                done: final(self).updated@.len() as usize,
                total: old(self).total,
                current: filename@,
                track_id: Some(track_id),
                version: Some(old(self).target.name()),
            }),
    {
        self.updated.push(track_id);
        AnalyzeProgress {
            job_id: self.job_id.clone(),
            done: self.updated.len(),
            total: self.total,
            current: filename.to_owned(),
            track_id: Some(track_id),
            version: Some(self.target.version()),
        }
    }

    /// The last line. It counts every track as done, also after a stop, so that the bar closes.
    pub fn end(&self) -> (r: AnalyzeProgress)
        ensures
            r@ == (AnalyzeModel {
                job_id: self.job_id@,
                done: self.total,
                total: self.total,
                current: ""@,
                track_id: None,
                version: None,
            }),
    {
        AnalyzeProgress {
            job_id: self.job_id.clone(),
            done: self.total,
            total: self.total,
            current: "".to_owned(),
            track_id: None,
            version: None,
        }
    }
}

/// Where a worker stands with its track.
#[derive(Clone, Copy, PartialEq, Eq, Debug, Structural)]
pub enum WorkerStage {
    /// Before a track.
    Top,
    /// Giving way to the player.
    Yielding,
    /// Before a permit is held.
    Gate,
    Loading,
    Analyzing,
    Saving,
    Tagging,
    Syncing,
    Warming,
    Reporting,
    /// Stopped for good.
    Stopped,
}

/// What a worker wants done next.
#[derive(Clone, Copy, PartialEq, Eq, Debug, Structural)]
pub enum WorkerAction {
    /// Look whether the batch has been stopped.
    CheckStopped,
    /// Look how many interactive requests run, and whether the batch has been stopped. Asked for
    /// again, after a moment, until the worker may go on.
    GiveWay,
    /// Wait for a permit, then look whether the batch has been stopped.
    TakePermit,
    Load(i64),
    Analyze(i64),
    Save(i64, AnalysisWriteTarget),
    WriteTags(i64),
    SyncFile(i64),
    WarmWaveform(i64),
    Report(i64),
    /// Nothing more.
    Finish,
}

/// What became of what a worker wanted done.
#[derive(Clone, Copy, PartialEq, Eq, Debug, Structural)]
pub enum WorkerEvent {
    /// Whether the batch has been stopped.
    Stopped(bool),
    /// How many interactive requests want the analysis to give way, and whether the batch has been
    /// stopped.
    Claims(usize, bool),
    /// Whether the track is in the library.
    Loaded(bool),
    Analyzed,
    /// Whether the result could be kept.
    Saved(bool),
    /// Whether the tags could be written.
    Tagged(bool),
    Synced,
    Warmed,
    Reported,
}

/// One worker of a batch.
pub struct AnalysisWorker {
    pub ids: Vec<i64>,
    pub next: usize,
    pub priority: bool,
    pub target: AnalysisWriteTarget,
    pub write_tags: bool,
    pub stage: WorkerStage,
}

#[verifier::ext_equal]
pub struct WorkerModel {
    pub ids: Seq<i64>,
    pub next: int,
    pub priority: bool,
    pub target: AnalysisWriteTarget,
    pub write_tags: bool,
    pub stage: WorkerStage,
}

impl View for AnalysisWorker {
    type V = WorkerModel;

    open spec fn view(&self) -> WorkerModel {
        WorkerModel {
            ids: self.ids@,
            next: self.next as int,
            priority: self.priority,
            target: self.target,
            write_tags: self.write_tags,
            stage: self.stage,
        }
    }
}

impl WorkerModel {
    /// A worker within a track has one; tags are written only where that is wanted; the batch of
    /// the track that plays gives way to nothing.
    pub open spec fn well_formed(self) -> bool {
        &&& 0 <= self.next <= self.ids.len()
        &&& self.stage == WorkerStage::Top || self.stage == WorkerStage::Stopped || self.next
            < self.ids.len()
        &&& self.stage == WorkerStage::Tagging || self.stage == WorkerStage::Syncing
            ==> self.target == AnalysisWriteTarget::V1 && self.write_tags
        &&& self.stage == WorkerStage::Warming ==> self.target == AnalysisWriteTarget::V1
        &&& self.stage == WorkerStage::Yielding ==> !self.priority
    }

    pub open spec fn at(self, stage: WorkerStage) -> WorkerModel {
        WorkerModel { stage, ..self }
    }

    /// The worker after it is done with its track.
    pub open spec fn onward(self) -> WorkerModel {
        WorkerModel { next: self.next + 1, stage: WorkerStage::Top, ..self }
    }

    /// What follows a result that was kept.
    pub open spec fn kept(self) -> WorkerModel {
        match self.target {
            AnalysisWriteTarget::V1 => self.at(
                if self.write_tags {
                    WorkerStage::Tagging
                } else {
                    WorkerStage::Warming
                },
            ),
            AnalysisWriteTarget::BpmKeyV2 => self.at(WorkerStage::Reporting),
        }
    }

    pub open spec fn wants(self) -> WorkerAction {
        let id = self.ids[self.next];
        match self.stage {
            WorkerStage::Top => if self.next < self.ids.len() {
                WorkerAction::CheckStopped
            } else {
                WorkerAction::Finish
            },
            WorkerStage::Yielding => WorkerAction::GiveWay,
            WorkerStage::Gate => if self.priority {
                WorkerAction::CheckStopped
            } else {
                WorkerAction::TakePermit
            },
            WorkerStage::Loading => WorkerAction::Load(id),
            WorkerStage::Analyzing => WorkerAction::Analyze(id),
            WorkerStage::Saving => WorkerAction::Save(id, self.target),
            WorkerStage::Tagging => WorkerAction::WriteTags(id),
            WorkerStage::Syncing => WorkerAction::SyncFile(id),
            WorkerStage::Warming => WorkerAction::WarmWaveform(id),
            WorkerStage::Reporting => WorkerAction::Report(id),
            WorkerStage::Stopped => WorkerAction::Finish,
        }
    }

    /// The worker after an event; an event that answers nothing it wants changes nothing.
    pub open spec fn after(self, event: WorkerEvent) -> WorkerModel {
        match (self.stage, event) {
            (WorkerStage::Top, WorkerEvent::Stopped(stopped)) => if self.next >= self.ids.len() {
                self
            } else if stopped {
                self.at(WorkerStage::Stopped)
            } else if self.priority {
                self.at(WorkerStage::Gate)
            } else {
                self.at(WorkerStage::Yielding)
            },
            (WorkerStage::Yielding, WorkerEvent::Claims(active, stopped)) => if stopped {
                self.at(WorkerStage::Stopped)
            } else if active > 0 {
                self
            } else {
                self.at(WorkerStage::Gate)
            },
            (WorkerStage::Gate, WorkerEvent::Stopped(stopped)) => self.at(
                if stopped {
                    WorkerStage::Stopped
                } else {
                    WorkerStage::Loading
                },
            ),
            (WorkerStage::Loading, WorkerEvent::Loaded(found)) => if found {
                self.at(WorkerStage::Analyzing)
            } else {
                self.onward()
            },
            (WorkerStage::Analyzing, WorkerEvent::Analyzed) => self.at(WorkerStage::Saving),
            (WorkerStage::Saving, WorkerEvent::Saved(ok)) => if ok {
                self.kept()
            } else {
                self.onward()
            },
            (WorkerStage::Tagging, WorkerEvent::Tagged(ok)) => self.at(
                if ok {
                    WorkerStage::Syncing
                } else {
                    WorkerStage::Warming
                },
            ),
            (WorkerStage::Syncing, WorkerEvent::Synced) => self.at(WorkerStage::Warming),
            (WorkerStage::Warming, WorkerEvent::Warmed) => self.at(WorkerStage::Reporting),
            (WorkerStage::Reporting, WorkerEvent::Reported) => self.onward(),
            _ => self,
        }
    }
}

impl AnalysisWorker {
    pub open spec fn well_formed(self) -> bool {
        self@.well_formed()
    }

    pub fn begin(
        ids: Vec<i64>,
        priority: bool,
        target: AnalysisWriteTarget,
        write_tags: bool,
    ) -> (r: Self)
        ensures
            r.well_formed(),
            r@ == (WorkerModel {
                ids: ids@,
                next: 0,
                priority,
                target,
                write_tags,
                stage: WorkerStage::Top,
            }),
    {
        AnalysisWorker { ids, next: 0, priority, target, write_tags, stage: WorkerStage::Top }
    }

    /// What the worker wants done.
    pub fn action(&self) -> (r: WorkerAction)
        requires
            self.well_formed(),
        ensures
            r == self@.wants(),
    {
        match self.stage {
            WorkerStage::Top => if self.next < self.ids.len() {
                WorkerAction::CheckStopped
            } else {
                WorkerAction::Finish
            },
            WorkerStage::Yielding => WorkerAction::GiveWay,
            WorkerStage::Gate => if self.priority {
                WorkerAction::CheckStopped
            } else {
                WorkerAction::TakePermit
            },
            WorkerStage::Loading => WorkerAction::Load(self.ids[self.next]),
            WorkerStage::Analyzing => WorkerAction::Analyze(self.ids[self.next]),
            WorkerStage::Saving => WorkerAction::Save(self.ids[self.next], self.target),
            WorkerStage::Tagging => WorkerAction::WriteTags(self.ids[self.next]),
            WorkerStage::Syncing => WorkerAction::SyncFile(self.ids[self.next]),
            WorkerStage::Warming => WorkerAction::WarmWaveform(self.ids[self.next]),
            WorkerStage::Reporting => WorkerAction::Report(self.ids[self.next]),
            WorkerStage::Stopped => WorkerAction::Finish,
        }
    }

    fn go_on(&mut self)
        requires
            old(self)@.well_formed(),
            old(self)@.next < old(self)@.ids.len(),
        ensures
            final(self)@ == old(self)@.onward(),
    {
        let count: usize = self.ids.len();
        assert(self.next < count);
        self.next = self.next + 1;
        self.stage = WorkerStage::Top;
    }

    /// Takes in what became of the last action and says what to do next.
    pub fn step(&mut self, event: WorkerEvent) -> (r: WorkerAction)
        requires
            old(self).well_formed(),
        ensures
            final(self).well_formed(),
            final(self)@ == old(self)@.after(event),
            r == final(self)@.wants(),
    {
        match (self.stage, event) {
            (WorkerStage::Top, WorkerEvent::Stopped(stopped)) => {
                if self.next < self.ids.len() {
                    self.stage = if stopped {
                        WorkerStage::Stopped
                    } else if self.priority {
                        WorkerStage::Gate
                    } else {
                        WorkerStage::Yielding
                    };
                }
            },
            (WorkerStage::Yielding, WorkerEvent::Claims(active, stopped)) => {
                let claims = InteractiveYield { active };
                if !claims.must_wait(stopped) {
                    self.stage = if stopped {
                        WorkerStage::Stopped
                    } else {
                        WorkerStage::Gate
                    };
                }
            },
            (WorkerStage::Gate, WorkerEvent::Stopped(stopped)) => {
                self.stage = if stopped {
                    WorkerStage::Stopped
                } else {
                    WorkerStage::Loading
                };
            },
            (WorkerStage::Loading, WorkerEvent::Loaded(found)) => {
                if found {
                    self.stage = WorkerStage::Analyzing;
                } else {
                    self.go_on();
                }
            },
            (WorkerStage::Analyzing, WorkerEvent::Analyzed) => {
                self.stage = WorkerStage::Saving;
            },
            (WorkerStage::Saving, WorkerEvent::Saved(ok)) => {
                if ok {
                    self.stage = match self.target {
                        AnalysisWriteTarget::V1 => if self.write_tags {
                            WorkerStage::Tagging
                        } else {
                            WorkerStage::Warming
                        },
                        AnalysisWriteTarget::BpmKeyV2 => WorkerStage::Reporting,
                    };
                } else {
                    self.go_on();
                }
            },
            (WorkerStage::Tagging, WorkerEvent::Tagged(ok)) => {
                self.stage = if ok {
                    WorkerStage::Syncing
                } else {
                    WorkerStage::Warming
                };
            },
            (WorkerStage::Syncing, WorkerEvent::Synced) => {
                self.stage = WorkerStage::Warming;
            },
            (WorkerStage::Warming, WorkerEvent::Warmed) => {
                self.stage = WorkerStage::Reporting;
            },
            (WorkerStage::Reporting, WorkerEvent::Reported) => {
                self.go_on();
            },
            _ => {},
        }
        self.action()
    }
}

/// A worker that learns before a track that its batch was stopped does nothing more, whatever
/// happens afterwards.
pub proof fn a_stopped_worker_begins_nothing(
    worker: WorkerModel,
    learned: WorkerEvent,
    event: WorkerEvent,
)
    requires
        worker.well_formed(),
        worker.wants() == WorkerAction::CheckStopped || worker.wants() == WorkerAction::TakePermit
            ==> learned == WorkerEvent::Stopped(true),
        worker.wants() == WorkerAction::GiveWay ==> (learned matches WorkerEvent::Claims(_, stopped)
            && stopped),
        worker.wants() == WorkerAction::CheckStopped || worker.wants() == WorkerAction::GiveWay
            || worker.wants() == WorkerAction::TakePermit,
    ensures
        worker.after(learned).wants() == WorkerAction::Finish,
        worker.after(learned).after(event) == worker.after(learned),
{
}

/// While an interactive request runs, a worker that gives way does not come to its next track,
/// whatever else happens, unless its batch is stopped.
pub proof fn work_gives_way_while_a_request_runs(worker: WorkerModel, active: usize)
    requires
        worker.stage == WorkerStage::Yielding,
    ensures
        active > 0 ==> worker.after(WorkerEvent::Claims(active, false)) == worker,
        worker.after(WorkerEvent::Claims(0, false)).stage == WorkerStage::Gate,
        worker.after(WorkerEvent::Claims(active, true)).stage == WorkerStage::Stopped,
        forall|event: WorkerEvent|
            !(event is Claims) ==> #[trigger] worker.after(event) == worker,
{
}

/// The worker of the track that plays neither gives way nor waits for a permit.
pub proof fn the_playing_track_does_not_wait(worker: WorkerModel)
    requires
        worker.well_formed(),
        worker.priority,
    ensures
        worker.wants() != WorkerAction::GiveWay,
        worker.wants() != WorkerAction::TakePermit,
{
}

/// Files are touched only where the results are kept in the first form and writing tags is wanted.
pub proof fn tags_are_written_only_on_request(worker: WorkerModel, id: i64)
    requires
        worker.well_formed(),
        worker.wants() == WorkerAction::WriteTags(id),
    ensures
        worker.target == AnalysisWriteTarget::V1,
        worker.write_tags,
{
}

} // verus!
