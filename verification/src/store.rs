//! The in-memory ledger of research threads, their requests and read-only captures, with
//! idempotent admission, the ten-prompt budget, the single browser slot and expiry.
//! Persistence is the caller's: the ledger is restored from and saved to storage whole.
use crate::config::{
    clone_opt_string, config_error, config_ok, Config, ConfigError, ConfigView, PROMPT_LIMIT,
};
use crate::links::{new_uuid, ChatReference};
use crate::records::{
    byte_len, pacing, inactivity_deadline, inactivity_window_of, submit_error, Job, JobState, JobView, ReadRequest,
    ReadState, ReadView, Submit, SubmitError, Thread, ThreadState,
};
use crate::text::{chars_of, has_prefix, same_text, string_of};
use vstd::prelude::*;

verus! {

broadcast use vstd::std_specs::vec::group_vec_axioms;

/// A request together with the project it was submitted under.
pub struct StoredJob {
    pub project: String,
    pub job: Job,
}

/// `StoredJob` as a value.
pub struct JobEntry {
    pub project: String,
    pub job: JobView,
}

/// The whole ledger.
pub struct Store {
    threads: Vec<Thread>,
    jobs: Vec<StoredJob>,
    reads: Vec<ReadRequest>,
    last_finished: i64,
}

/// `Store` as a value. Sequences are in storage (insertion) order.
pub struct StoreView {
    pub threads: Seq<Thread>,
    pub jobs: Seq<JobEntry>,
    pub reads: Seq<ReadView>,
    pub last_finished: i64,
}

/// The ledger that stored records describe.
pub open spec fn ledger_of(threads: Seq<Thread>, jobs: Seq<StoredJob>, reads: Seq<ReadRequest>, last_finished: i64) -> StoreView {
    StoreView {
        threads: threads,
        jobs: Seq::new(jobs.len(), |i: int| JobEntry { project: jobs[i].project, job: jobs[i].job@ }),
        reads: Seq::new(reads.len(), |i: int| reads[i]@),
        last_finished: last_finished,
    }
}

impl View for Store {
    type V = StoreView;

    closed spec fn view(&self) -> StoreView {
        StoreView {
            threads: self.threads@,
            jobs: Seq::new(
                self.jobs@.len(),
                |i: int| JobEntry { project: self.jobs@[i].project, job: self.jobs@[i].job@ },
            ),
            reads: Seq::new(self.reads@.len(), |i: int| self.reads@[i]@),
            last_finished: self.last_finished,
        }
    }
}

/// Why the ledger refused an operation.
#[derive(Clone, Copy, Debug, PartialEq, Eq, Structural)]
pub enum StoreError {
    InvalidSubmit(SubmitError),
    InvalidConfig(ConfigError),
    IdempotencyConflict,
    NotFound,
    ThreadRetired,
    PromptLimitReached,
    ThreadBusy,
    /// A thread asked to retire still has unfinished requests.
    UnfinishedWork,
    ThreadExpired,
    RetryOrderConflict,
    SlotTaken,
    NotReconcilable,
    MissingEvidence,
    AlreadyStarted,
    IdCollision,
    InvalidReadScope,
    InvalidReadCount,
    Overflow,
    NonterminalWork,
    ProjectMismatch,
}

/// The message reported for `e`.
pub open spec fn store_error_text(e: StoreError) -> Seq<char> {
    match e {
        StoreError::InvalidSubmit(e) => crate::records::submit_error_text(e),
        StoreError::InvalidConfig(e) => crate::config::config_error_text(e),
        StoreError::IdempotencyConflict => "idempotency_conflict"@,
        StoreError::NotFound => "Query returned no rows"@,
        StoreError::ThreadRetired => "thread_retired"@,
        StoreError::PromptLimitReached => "prompt_limit_reached"@,
        StoreError::ThreadBusy => "thread_busy: wait for the existing request"@,
        StoreError::UnfinishedWork => "thread_busy"@,
        StoreError::ThreadExpired => "thread_expired"@,
        StoreError::RetryOrderConflict => "retry_order_conflict: a later request already follows this one"@,
        StoreError::SlotTaken => "another request already holds the browser slot"@,
        StoreError::NotReconcilable => "Request does not need reconciliation"@,
        StoreError::MissingEvidence => "Missing submission evidence"@,
        StoreError::AlreadyStarted => "already_started: submission is being reconciled; cannot safely cancel yet"@,
        StoreError::IdCollision => "generated identifier already in use"@,
        StoreError::InvalidReadScope => "Invalid read request scope or key"@,
        StoreError::InvalidReadCount => "Supply 1–10 chats per read request"@,
        StoreError::Overflow => "timestamp out of range"@,
        StoreError::NonterminalWork => "Cannot archive nonterminal work"@,
        StoreError::ProjectMismatch => "project_mismatch"@,
    }
}

impl StoreError {
    pub fn message(&self) -> (r: String)
        ensures
            r@ == store_error_text(*self),
    {
        match self {
            StoreError::InvalidSubmit(e) => e.message(),
            StoreError::InvalidConfig(e) => e.message(),
            StoreError::IdempotencyConflict => "idempotency_conflict".to_owned(),
            StoreError::NotFound => "Query returned no rows".to_owned(),
            StoreError::ThreadRetired => "thread_retired".to_owned(),
            StoreError::PromptLimitReached => "prompt_limit_reached".to_owned(),
            StoreError::ThreadBusy => "thread_busy: wait for the existing request".to_owned(),
            StoreError::UnfinishedWork => "thread_busy".to_owned(),
            StoreError::ThreadExpired => "thread_expired".to_owned(),
            StoreError::RetryOrderConflict => "retry_order_conflict: a later request already follows this one".to_owned(),
            StoreError::SlotTaken => "another request already holds the browser slot".to_owned(),
            StoreError::NotReconcilable => "Request does not need reconciliation".to_owned(),
            StoreError::MissingEvidence => "Missing submission evidence".to_owned(),
            StoreError::AlreadyStarted => "already_started: submission is being reconciled; cannot safely cancel yet".to_owned(),
            StoreError::IdCollision => "generated identifier already in use".to_owned(),
            StoreError::InvalidReadScope => "Invalid read request scope or key".to_owned(),
            StoreError::InvalidReadCount => "Supply 1–10 chats per read request".to_owned(),
            StoreError::Overflow => "timestamp out of range".to_owned(),
            StoreError::NonterminalWork => "Cannot archive nonterminal work".to_owned(),
            StoreError::ProjectMismatch => "project_mismatch".to_owned(),
        }
    }
}

// ----- lookups -----

pub open spec fn has_thread(v: StoreView, id: Seq<char>) -> bool {
    exists|i: int| 0 <= i < v.threads.len() && (#[trigger] v.threads[i]).id@ == id
}

/// Position of the thread with this id.
pub open spec fn thread_at(v: StoreView, id: Seq<char>) -> Option<int> {
    if has_thread(v, id) {
        Some(choose|i: int| 0 <= i < v.threads.len() && (#[trigger] v.threads[i]).id@ == id)
    } else {
        None
    }
}

pub open spec fn has_job(v: StoreView, id: Seq<char>) -> bool {
    exists|i: int| 0 <= i < v.jobs.len() && (#[trigger] v.jobs[i]).job.id@ == id
}

/// Position of the request with this id.
pub open spec fn job_at(v: StoreView, id: Seq<char>) -> Option<int> {
    if has_job(v, id) {
        Some(choose|i: int| 0 <= i < v.jobs.len() && (#[trigger] v.jobs[i]).job.id@ == id)
    } else {
        None
    }
}

pub open spec fn key_match(e: JobEntry, project: Seq<char>, key: Seq<char>) -> bool {
    e.project@ == project && e.job.key@ == key
}

pub open spec fn has_key(v: StoreView, project: Seq<char>, key: Seq<char>) -> bool {
    exists|i: int| 0 <= i < v.jobs.len() && key_match(#[trigger] v.jobs[i], project, key)
}

/// Position of the request submitted under this project and idempotency key.
pub open spec fn key_at(v: StoreView, project: Seq<char>, key: Seq<char>) -> Option<int> {
    if has_key(v, project, key) {
        Some(choose|i: int| 0 <= i < v.jobs.len() && key_match(#[trigger] v.jobs[i], project, key))
    } else {
        None
    }
}

pub open spec fn has_read(v: StoreView, id: Seq<char>) -> bool {
    exists|i: int| 0 <= i < v.reads.len() && (#[trigger] v.reads[i]).id@ == id
}

pub open spec fn read_at(v: StoreView, id: Seq<char>) -> Option<int> {
    if has_read(v, id) {
        Some(choose|i: int| 0 <= i < v.reads.len() && (#[trigger] v.reads[i]).id@ == id)
    } else {
        None
    }
}

pub open spec fn read_key_match(r: ReadView, project: Seq<char>, key: Seq<char>) -> bool {
    r.project@ == project && r.key@ == key
}

pub open spec fn has_read_key(v: StoreView, project: Seq<char>, key: Seq<char>) -> bool {
    exists|i: int| 0 <= i < v.reads.len() && read_key_match(#[trigger] v.reads[i], project, key)
}

pub open spec fn read_key_at(v: StoreView, project: Seq<char>, key: Seq<char>) -> Option<int> {
    if has_read_key(v, project, key) {
        Some(
            choose|i: int|
                0 <= i < v.reads.len() && read_key_match(#[trigger] v.reads[i], project, key),
        )
    } else {
        None
    }
}

/// The ledger's invariant: identifiers and idempotency keys are unique, every request's
/// thread exists, and at most one request holds the browser slot.
pub open spec fn wf(v: StoreView) -> bool {
    &&& forall|i: int, j: int|
        #![trigger v.threads[i], v.threads[j]]
        0 <= i < v.threads.len() && 0 <= j < v.threads.len() && i != j ==> v.threads[i].id@
            != v.threads[j].id@
    &&& forall|i: int, j: int|
        #![trigger v.jobs[i], v.jobs[j]]
        0 <= i < v.jobs.len() && 0 <= j < v.jobs.len() && i != j ==> v.jobs[i].job.id@
            != v.jobs[j].job.id@ && !key_match(v.jobs[i], v.jobs[j].project@, v.jobs[j].job.key@)
            && !(v.jobs[i].job.state.holds_slot() && v.jobs[j].job.state.holds_slot())
    &&& forall|i: int| 0 <= i < v.jobs.len() ==> has_thread(v, (#[trigger] v.jobs[i]).job.thread_id@)
    &&& forall|i: int, j: int|
        #![trigger v.reads[i], v.reads[j]]
        0 <= i < v.reads.len() && 0 <= j < v.reads.len() && i != j ==> v.reads[i].id@
            != v.reads[j].id@ && !read_key_match(v.reads[i], v.reads[j].project@, v.reads[j].key@)
}

// ----- listings -----

/// Threads of `project` (all threads when `None`), most recently stored first.
pub open spec fn listed(s: Seq<Thread>, project: Option<Seq<char>>) -> Seq<Thread>
    decreases s.len(),
{
    if s.len() == 0 {
        Seq::empty()
    } else {
        listed(s.drop_first(), project) + if project is None || s[0].project@ == project->0 {
            seq![s[0]]
        } else {
            Seq::empty()
        }
    }
}

/// Requests of thread `tid`, in submission order.
pub open spec fn jobs_of(s: Seq<JobEntry>, tid: Seq<char>) -> Seq<JobView>
    decreases s.len(),
{
    if s.len() == 0 {
        Seq::empty()
    } else {
        jobs_of(s.drop_last(), tid) + if s.last().job.thread_id@ == tid {
            seq![s.last().job]
        } else {
            Seq::empty()
        }
    }
}

impl Store {
    pub closed spec fn wf(&self) -> bool {
        wf(self@)
    }

    /// An empty ledger.
    pub fn new() -> (r: Store)
        ensures
            r.wf(),
            r@.threads.len() == 0,
            r@.jobs.len() == 0,
            r@.reads.len() == 0,
            r@.last_finished == 0,
    {
        let r = Store { threads: Vec::new(), jobs: Vec::new(), reads: Vec::new(), last_finished: 0 };
        assert(r@.jobs =~= Seq::<JobEntry>::empty());
        assert(r@.reads =~= Seq::<ReadView>::empty());
        r
    }

    /// What `wf` asks of a store is the ledger invariant `wf` of its view.
    pub proof fn lemma_wf(&self)
        ensures
            self.wf() <==> wf(self@),
    {
    }

    proof fn lemma_view(&self)
        ensures
            self@.threads == self.threads@,
            self@.jobs.len() == self.jobs@.len(),
            forall|i: int|
                0 <= i < self.jobs@.len() ==> #[trigger] self@.jobs[i] == (JobEntry {
                    project: self.jobs@[i].project,
                    job: self.jobs@[i].job@,
                }),
            self@.reads.len() == self.reads@.len(),
            forall|i: int| 0 <= i < self.reads@.len() ==> #[trigger] self@.reads[i] == self.reads@[i]@,
            self@.last_finished == self.last_finished,
    {
    }

    fn find_thread(&self, id: &str) -> (r: Option<usize>)
        requires
            self.wf(),
        ensures
            match r {
                Some(k) => k < self@.threads.len() && thread_at(self@, id@) == Some(k as int),
                None => thread_at(self@, id@) is None,
            },
    {
        proof {
            self.lemma_view();
        }
        let mut i: usize = 0;
        while i < self.threads.len()
            invariant
                i <= self.threads@.len(),
                self.wf(),
                self@.threads == self.threads@,
                forall|k: int| 0 <= k < i ==> (#[trigger] self.threads@[k]).id@ != id@,
            decreases self.threads@.len() - i,
        {
            if same_text(self.threads[i].id.as_str(), id) {
                assert(self@.threads[i as int].id@ == id@);
                assert(has_thread(self@, id@));
                proof {
                    let c = choose|j: int|
                        0 <= j < self@.threads.len() && (#[trigger] self@.threads[j]).id@ == id@;
                    if c != i as int {
                        assert(self@.threads[c].id@ != self@.threads[i as int].id@);
                    }
                }
                return Some(i);
            }
            i = i + 1;
        }
        None
    }

    fn find_job(&self, id: &str) -> (r: Option<usize>)
        requires
            self.wf(),
        ensures
            match r {
                Some(k) => k < self@.jobs.len() && job_at(self@, id@) == Some(k as int),
                None => job_at(self@, id@) is None,
            },
    {
        proof {
            self.lemma_view();
        }
        let mut i: usize = 0;
        while i < self.jobs.len()
            invariant
                i <= self.jobs@.len(),
                self.wf(),
                self@.jobs.len() == self.jobs@.len(),
                forall|k: int|
                    0 <= k < self.jobs@.len() ==> #[trigger] self@.jobs[k] == (JobEntry {
                        project: self.jobs@[k].project,
                        job: self.jobs@[k].job@,
                    }),
                forall|k: int| 0 <= k < i ==> (#[trigger] self@.jobs[k]).job.id@ != id@,
            decreases self.jobs@.len() - i,
        {
            if same_text(self.jobs[i].job.id.as_str(), id) {
                assert(self@.jobs[i as int].job.id@ == id@);
                assert(has_job(self@, id@));
                proof {
                    let c = choose|j: int|
                        0 <= j < self@.jobs.len() && (#[trigger] self@.jobs[j]).job.id@ == id@;
                    if c != i as int {
                        assert(self@.jobs[c].job.id@ != self@.jobs[i as int].job.id@);
                    }
                }
                return Some(i);
            }
            i = i + 1;
        }
        None
    }

    /// The thread with this id.
    pub fn thread(&self, id: &str) -> (r: Result<Thread, StoreError>)
        requires
            self.wf(),
        ensures
            match thread_at(self@, id@) {
                Some(i) => r == Ok::<Thread, StoreError>(self@.threads[i]),
                None => r == Err::<Thread, StoreError>(StoreError::NotFound),
            },
    {
        proof {
            self.lemma_view();
        }
        match self.find_thread(id) {
            Some(i) => Ok(self.threads[i].clone()),
            None => Err(StoreError::NotFound),
        }
    }

    /// The request with this id.
    pub fn job(&self, id: &str) -> (r: Result<Job, StoreError>)
        requires
            self.wf(),
        ensures
            match job_at(self@, id@) {
                Some(i) => r matches Ok(j) && j@ == self@.jobs[i].job,
                None => r == Err::<Job, StoreError>(StoreError::NotFound),
            },
    {
        proof {
            self.lemma_view();
        }
        match self.find_job(id) {
            Some(i) => Ok(self.jobs[i].job.clone()),
            None => Err(StoreError::NotFound),
        }
    }

    /// Threads of `project` (or of every project), most recently stored first.
    pub fn threads(&self, project: Option<&str>) -> (r: Vec<Thread>)
        ensures
            r@ == listed(
                self@.threads,
                match project {
                    Some(p) => Some(p@),
                    None => None,
                },
            ),
    {
        proof {
            self.lemma_view();
        }
        let ghost p = match project {
            Some(p) => Some(p@),
            None => None::<Seq<char>>,
        };
        let ghost s = self.threads@;
        let mut r: Vec<Thread> = Vec::new();
        let mut k: usize = self.threads.len();
        assert(s.skip(k as int) =~= Seq::<Thread>::empty());
        while k > 0
            invariant
                k <= s.len(),
                s == self.threads@,
                p == match project {
                    Some(p) => Some(p@),
                    None => None::<Seq<char>>,
                },
                r@ == listed(s.skip(k as int), p),
            decreases k,
        {
            k = k - 1;
            let t = &self.threads[k];
            let keep = match project {
                Some(q) => same_text(t.project.as_str(), q),
                None => true,
            };
            assert(s.skip(k as int).drop_first() =~= s.skip(k + 1));
            assert(s.skip(k as int)[0] == s[k as int]);
            if keep {
                r.push(t.clone());
            }
            assert(r@ =~= listed(s.skip(k as int), p));
        }
        assert(s.skip(0) =~= s);
        r
    }

    /// Requests of thread `thread_id`, in submission order.
    pub fn jobs(&self, thread_id: &str) -> (r: Vec<Job>)
        ensures
            r@.len() == jobs_of(self@.jobs, thread_id@).len(),
            forall|i: int| 0 <= i < r@.len() ==> #[trigger] r@[i]@ == jobs_of(self@.jobs, thread_id@)[i],
    {
        proof {
            self.lemma_view();
        }
        let ghost s = self@.jobs;
        let mut r: Vec<Job> = Vec::new();
        let mut i: usize = 0;
        assert(s.take(0) =~= Seq::<JobEntry>::empty());
        while i < self.jobs.len()
            invariant
                i <= s.len(),
                s == self@.jobs,
                s.len() == self.jobs@.len(),
                forall|k: int|
                    0 <= k < s.len() ==> #[trigger] s[k] == (JobEntry {
                        project: self.jobs@[k].project,
                        job: self.jobs@[k].job@,
                    }),
                r@.len() == jobs_of(s.take(i as int), thread_id@).len(),
                forall|k: int|
                    0 <= k < r@.len() ==> #[trigger] r@[k]@ == jobs_of(s.take(i as int), thread_id@)[k],
            decreases s.len() - i,
        {
            let e = &self.jobs[i];
            assert(s.take(i + 1).drop_last() =~= s.take(i as int));
            assert(s.take(i + 1).last() == s[i as int]);
            if same_text(e.job.thread_id.as_str(), thread_id) {
                r.push(e.job.clone());
            }
            i = i + 1;
        }
        assert(s.take(s.len() as int) =~= s);
        r
    }

    /// When the last request finished (zero before any did).
    pub fn last_finished(&self) -> (r: i64)
        ensures
            r == self@.last_finished,
    {
        self.last_finished
    }
}

// ----- updates -----

/// `j` with the identity (id, thread, key) of the request it replaces.
pub open spec fn keep_identity(old: JobView, j: JobView) -> JobView {
    JobView { id: old.id, thread_id: old.thread_id, key: old.key, ..j }
}

/// The ledger with request `i` replaced by `j` (its identity kept).
pub open spec fn set_job(v: StoreView, i: int, j: JobView) -> StoreView {
    StoreView {
        jobs: v.jobs.update(
            i,
            JobEntry { project: v.jobs[i].project, job: keep_identity(v.jobs[i].job, j) },
        ),
        ..v
    }
}

/// The ledger with thread `i` replaced by `t` (its id kept).
pub open spec fn set_thread(v: StoreView, i: int, t: Thread) -> StoreView {
    StoreView { threads: v.threads.update(i, Thread { id: v.threads[i].id, ..t }), ..v }
}

/// Some request other than `i` holds the browser slot.
pub open spec fn other_holds_slot(v: StoreView, i: int) -> bool {
    exists|k: int| 0 <= k < v.jobs.len() && k != i && (#[trigger] v.jobs[k]).job.state.holds_slot()
}

pub open spec fn any_unresolved(v: StoreView) -> bool {
    exists|k: int| 0 <= k < v.jobs.len() && (#[trigger] v.jobs[k]).job.state.is_unresolved()
}

pub open spec fn any_holder(v: StoreView) -> bool {
    exists|k: int| 0 <= k < v.jobs.len() && (#[trigger] v.jobs[k]).job.state.holds_slot()
}

/// The request holding the browser slot.
pub open spec fn holder_at(v: StoreView) -> Option<int> {
    if any_holder(v) {
        Some(choose|k: int| 0 <= k < v.jobs.len() && (#[trigger] v.jobs[k]).job.state.holds_slot())
    } else {
        None
    }
}

/// The earliest queued request.
pub open spec fn first_queued(s: Seq<JobEntry>) -> Option<int>
    decreases s.len(),
{
    if s.len() == 0 {
        None
    } else {
        match first_queued(s.drop_last()) {
            Some(k) => Some(k),
            None => if s.last().job.state is Queued {
                Some(s.len() - 1)
            } else {
                None
            },
        }
    }
}

proof fn lemma_first_queued(s: Seq<JobEntry>)
    ensures
        match first_queued(s) {
            Some(k) => 0 <= k < s.len() && s[k].job.state is Queued && forall|j: int|
                0 <= j < k ==> !((#[trigger] s[j]).job.state is Queued),
            None => forall|j: int| 0 <= j < s.len() ==> !((#[trigger] s[j]).job.state is Queued),
        },
    decreases s.len(),
{
    if s.len() > 0 {
        lemma_first_queued(s.drop_last());
        assert forall|j: int| 0 <= j < s.len() - 1 implies s.drop_last()[j] == s[j] by {}
    }
}

/// The request the worker handles next: nothing while a submission is unresolved; otherwise
/// the request holding the browser slot; otherwise the earliest queued one.
pub open spec fn next_index(v: StoreView) -> Option<int> {
    if any_unresolved(v) {
        None
    } else if any_holder(v) {
        holder_at(v)
    } else {
        first_queued(v.jobs)
    }
}

/// Whether releasing the reservation applies: the request had certainly not been sent and it
/// ends failed or cancelled.
pub open spec fn releases(from: JobState, to: JobState) -> bool {
    from.is_unsent() && (to is Failed || to is Cancelled)
}

/// The ledger after request `job` ends in `state`: the request is stored with its new state and
/// error, its thread's reservation is released when `releases` applies, the thread's activity
/// time becomes `at`, and so does the ledger's last-finished time.
pub open spec fn finished(
    v: StoreView,
    job: JobView,
    state: JobState,
    error: Option<String>,
    at: i64,
    ti: int,
) -> StoreView {
    let done = JobView { state: state, error: error, ..job };
    let t = v.threads[ti];
    let prompts: u32 = if releases(job.state, state) && t.prompts > 0 {
        (t.prompts - 1) as u32
    } else {
        t.prompts
    };
    let v1 = match job_at(v, job.id@) {
        Some(i) => set_job(v, i, done),
        None => v,
    };
    StoreView {
        threads: v1.threads.update(ti, Thread { prompts: prompts, active_at: at, ..t }),
        last_finished: at,
        ..v1
    }
}

proof fn lemma_set_job_wf(v: StoreView, i: int, j: JobView)
    requires
        wf(v),
        0 <= i < v.jobs.len(),
        j.state.holds_slot() ==> !other_holds_slot(v, i),
    ensures
        wf(set_job(v, i, j)),
        set_job(v, i, j).threads == v.threads,
{
    let w = set_job(v, i, j);
    assert forall|a: int, b: int|
        #![trigger w.jobs[a], w.jobs[b]]
        0 <= a < w.jobs.len() && 0 <= b < w.jobs.len() && a != b implies w.jobs[a].job.id@
        != w.jobs[b].job.id@ && !key_match(w.jobs[a], w.jobs[b].project@, w.jobs[b].job.key@)
        && !(w.jobs[a].job.state.holds_slot() && w.jobs[b].job.state.holds_slot()) by {
        assert(v.jobs[a] == v.jobs[a]);
        assert(v.jobs[b] == v.jobs[b]);
        if a == i && w.jobs[a].job.state.holds_slot() && w.jobs[b].job.state.holds_slot() {
            assert(v.jobs[b].job.state.holds_slot());
        }
        if b == i && w.jobs[a].job.state.holds_slot() && w.jobs[b].job.state.holds_slot() {
            assert(v.jobs[a].job.state.holds_slot());
        }
    }
    assert forall|a: int| 0 <= a < w.jobs.len() implies has_thread(w, (#[trigger] w.jobs[a]).job.thread_id@) by {
        assert(v.jobs[a] == v.jobs[a]);
        assert(has_thread(v, v.jobs[a].job.thread_id@));
    }
}

proof fn lemma_set_thread_wf(v: StoreView, i: int, t: Thread)
    requires
        wf(v),
        0 <= i < v.threads.len(),
    ensures
        wf(set_thread(v, i, t)),
{
    let w = set_thread(v, i, t);
    assert forall|a: int| 0 <= a < w.jobs.len() implies has_thread(w, (#[trigger] w.jobs[a]).job.thread_id@) by {
        assert(has_thread(v, v.jobs[a].job.thread_id@));
        let k = choose|k: int| 0 <= k < v.threads.len() && (#[trigger] v.threads[k]).id@ == v.jobs[a].job.thread_id@;
        assert(w.threads[k].id@ == v.threads[k].id@);
    }
    assert forall|a: int, b: int|
        #![trigger w.threads[a], w.threads[b]]
        0 <= a < w.threads.len() && 0 <= b < w.threads.len() && a != b implies w.threads[a].id@
        != w.threads[b].id@ by {
        assert(v.threads[a].id@ != v.threads[b].id@);
    }
}

impl Store {
    /// Replaces request `i`, keeping its identity.
    fn replace_job(&mut self, i: usize, job: &Job)
        requires
            i < old(self)@.jobs.len(),
        ensures
            final(self)@ == set_job(old(self)@, i as int, job@),
    {
        proof {
            self.lemma_view();
        }
        let project = self.jobs[i].project.clone();
        let mut j = job.clone();
        j.id = self.jobs[i].job.id.clone();
        j.thread_id = self.jobs[i].job.thread_id.clone();
        j.key = self.jobs[i].job.key.clone();
        self.jobs.set(i, StoredJob { project, job: j });
        proof {
            self.lemma_view();
            assert(self@.jobs =~= set_job(old(self)@, i as int, job@).jobs);
            assert(self@.reads =~= old(self)@.reads);
        }
    }

    /// Replaces thread `i`, keeping its id.
    fn replace_thread(&mut self, i: usize, thread: &Thread)
        requires
            i < old(self)@.threads.len(),
        ensures
            final(self)@ == set_thread(old(self)@, i as int, *thread),
    {
        proof {
            self.lemma_view();
        }
        let mut t = thread.clone();
        t.id = self.threads[i].id.clone();
        self.threads.set(i, t);
        proof {
            self.lemma_view();
            assert(self@.threads =~= set_thread(old(self)@, i as int, *thread).threads);
            assert(self@.jobs =~= old(self)@.jobs);
            assert(self@.reads =~= old(self)@.reads);
        }
    }

    /// Whether some request other than `i` holds the browser slot.
    fn slot_taken_besides(&self, i: usize) -> (r: bool)
        ensures
            r == other_holds_slot(self@, i as int),
    {
        proof {
            self.lemma_view();
        }
        let mut k: usize = 0;
        while k < self.jobs.len()
            invariant
                k <= self.jobs@.len(),
                self@.jobs.len() == self.jobs@.len(),
                forall|a: int|
                    0 <= a < self.jobs@.len() ==> #[trigger] self@.jobs[a] == (JobEntry {
                        project: self.jobs@[a].project,
                        job: self.jobs@[a].job@,
                    }),
                forall|a: int|
                    0 <= a < k && a != i ==> !(#[trigger] self@.jobs[a]).job.state.holds_slot(),
            decreases self.jobs@.len() - k,
        {
            if k != i && self.jobs[k].job.state.slot() {
                assert(self@.jobs[k as int].job.state.holds_slot());
                return true;
            }
            k = k + 1;
        }
        false
    }

    /// Stores a thread over the one with the same id (nothing happens when there is none).
    pub fn save_thread(&mut self, thread: &Thread)
        requires
            old(self).wf(),
        ensures
            final(self).wf(),
            match thread_at(old(self)@, thread.id@) {
                Some(i) => final(self)@ == set_thread(old(self)@, i, *thread),
                None => final(self)@ == old(self)@,
            },
    {
        if let Some(i) = self.find_thread(thread.id.as_str()) {
            self.replace_thread(i, thread);
            proof {
                lemma_set_thread_wf(old(self)@, i as int, *thread);
            }
        }
    }

    /// Stores a request over the one with the same id, keeping its identity. Refused when it
    /// would take the browser slot while another request holds it; nothing happens when no
    /// request has this id.
    pub fn save_job(&mut self, job: &Job) -> (r: Result<(), StoreError>)
        requires
            old(self).wf(),
        ensures
            final(self).wf(),
            match job_at(old(self)@, job.id@) {
                Some(i) => if job.state.holds_slot() && other_holds_slot(old(self)@, i) {
                    r == Err::<(), StoreError>(StoreError::SlotTaken) && final(self)@ == old(self)@
                } else {
                    r is Ok && final(self)@ == set_job(old(self)@, i, job@)
                },
                None => r is Ok && final(self)@ == old(self)@,
            },
    {
        match self.find_job(job.id.as_str()) {
            Some(i) => {
                if job.state.slot() && self.slot_taken_besides(i) {
                    return Err(StoreError::SlotTaken);
                }
                self.replace_job(i, job);
                proof {
                    lemma_set_job_wf(old(self)@, i as int, job@);
                }
                Ok(())
            },
            None => Ok(()),
        }
    }

    /// Positions of an unresolved request, the slot holder and the earliest queued request.
    fn scan(&self) -> (r: (bool, Option<usize>, Option<usize>))
        requires
            self.wf(),
        ensures
            r.0 == any_unresolved(self@),
            match r.1 {
                Some(k) => k < self@.jobs.len() && holder_at(self@) == Some(k as int),
                None => holder_at(self@) is None,
            },
            match r.2 {
                Some(k) => k < self@.jobs.len() && first_queued(self@.jobs) == Some(k as int),
                None => first_queued(self@.jobs) is None,
            },
    {
        proof {
            self.lemma_view();
        }
        let ghost s = self@.jobs;
        let mut unresolved = false;
        let mut holder: Option<usize> = None;
        let mut queued: Option<usize> = None;
        let mut i: usize = 0;
        while i < self.jobs.len()
            invariant
                i <= s.len(),
                self.wf(),
                s == self@.jobs,
                s.len() == self.jobs@.len(),
                forall|a: int|
                    0 <= a < s.len() ==> #[trigger] s[a] == (JobEntry {
                        project: self.jobs@[a].project,
                        job: self.jobs@[a].job@,
                    }),
                unresolved == exists|k: int| 0 <= k < i && (#[trigger] s[k]).job.state.is_unresolved(),
                match holder {
                    Some(h) => h < i && s[h as int].job.state.holds_slot(),
                    None => forall|k: int| 0 <= k < i ==> !(#[trigger] s[k]).job.state.holds_slot(),
                },
                queued == match first_queued(s.take(i as int)) {
                    Some(k) => Some(k as usize),
                    None => None::<usize>,
                },
                queued matches Some(k) ==> k < i,
            decreases s.len() - i,
        {
            let st = self.jobs[i].job.state;
            assert(s[i as int].job.state == st);
            proof {
                assert(s.take(i + 1).drop_last() =~= s.take(i as int));
                lemma_first_queued(s.take(i as int));
            }
            if st.unresolved() {
                unresolved = true;
            }
            if st.slot() {
                holder = Some(i);
            }
            if queued.is_none() && matches!(st, JobState::Queued) {
                queued = Some(i);
            }
            i = i + 1;
        }
        proof {
            assert(s.take(s.len() as int) =~= s);
            lemma_first_queued(s);
            if let Some(h) = holder {
                let c = choose|k: int| 0 <= k < s.len() && (#[trigger] s[k]).job.state.holds_slot();
                if c != h as int {
                    assert(!(s[c].job.state.holds_slot() && s[h as int].job.state.holds_slot()));
                }
            }
        }
        (unresolved, holder, queued)
    }

    /// The request the worker should handle next (see `next_index`).
    pub fn next_job(&self) -> (r: Option<Job>)
        requires
            self.wf(),
        ensures
            match next_index(self@) {
                Some(i) => r matches Some(j) && j@ == self@.jobs[i].job,
                None => r is None,
            },
    {
        proof {
            self.lemma_view();
        }
        let (unresolved, holder, queued) = self.scan();
        if unresolved {
            return None;
        }
        match holder {
            Some(h) => Some(self.jobs[h].job.clone()),
            None => match queued {
                Some(q) => Some(self.jobs[q].job.clone()),
                None => None,
            },
        }
    }

    /// Like `next_job`, but a queued request is claimed: it starts pacing, with `send_after`
    /// set to its pacing delay after the latest of `at`, the last finish and its admission.
    pub fn claim_next_job(&mut self, at: i64) -> (r: Result<Option<Job>, StoreError>)
        requires
            old(self).wf(),
        ensures
            final(self).wf(),
            match next_index(old(self)@) {
                None => r == Ok::<Option<Job>, StoreError>(None) && final(self)@ == old(self)@,
                Some(i) => {
                    let j = old(self)@.jobs[i].job;
                    let base = max3(at as int, old(self)@.last_finished as int, j.created_at as int);
                    if !(j.state is Queued) {
                        r matches Ok(Some(x)) && x@ == j && final(self)@ == old(self)@
                    } else if j.config.words_per_minute == 0 {
                        r == Err::<Option<Job>, StoreError>(
                            StoreError::InvalidConfig(ConfigError::WordsPerMinute),
                        ) && final(self)@ == old(self)@
                    } else if base + pacing(j) > i64::MAX {
                        r == Err::<Option<Job>, StoreError>(StoreError::Overflow) && final(self)@
                            == old(self)@
                    } else {
                        let claimed = JobView {
                            state: JobState::Pacing,
                            send_after: Some((base + pacing(j)) as i64),
                            ..j
                        };
                        r matches Ok(Some(x)) && x@ == claimed && final(self)@ == set_job(
                            old(self)@,
                            i,
                            claimed,
                        )
                    }
                },
            },
    {
        proof {
            self.lemma_view();
        }
        let (unresolved, holder, queued) = self.scan();
        if unresolved {
            return Ok(None);
        }
        if let Some(h) = holder {
            return Ok(Some(self.jobs[h].job.clone()));
        }
        let q = match queued {
            Some(q) => q,
            None => return Ok(None),
        };
        proof {
            lemma_first_queued(self@.jobs);
        }
        let mut job = self.jobs[q].job.clone();
        if job.config.words_per_minute == 0 {
            return Err(StoreError::InvalidConfig(ConfigError::WordsPerMinute));
        }
        let mut base: i64 = at;
        if self.last_finished > base {
            base = self.last_finished;
        }
        if job.created_at > base {
            base = job.created_at;
        }
        let delay = job.pacing_exact();
        if delay > (i64::MAX as i128 - base as i128) as u128 {
            return Err(StoreError::Overflow);
        }
        let send_after: i128 = base as i128 + delay as i128;
        job.state = JobState::Pacing;
        job.send_after = Some(send_after as i64);
        proof {
            assert(!other_holds_slot(old(self)@, q as int));
        }
        self.replace_job(q, &job);
        proof {
            lemma_set_job_wf(old(self)@, q as int, job@);
            assert(keep_identity(old(self)@.jobs[q as int].job, job@) == job@);
        }
        Ok(Some(job))
    }
}

pub open spec fn max3(a: int, b: int, c: int) -> int {
    let m = if a >= b {
        a
    } else {
        b
    };
    if m >= c {
        m
    } else {
        c
    }
}

proof fn lemma_finished_wf(v: StoreView, job: JobView, state: JobState, error: Option<String>, at: i64, ti: int)
    requires
        wf(v),
        0 <= ti < v.threads.len(),
        state.is_terminal(),
    ensures
        wf(finished(v, job, state, error, at, ti)),
{
    let done = JobView { state: state, error: error, ..job };
    let v1 = match job_at(v, job.id@) {
        Some(i) => set_job(v, i, done),
        None => v,
    };
    if let Some(i) = job_at(v, job.id@) {
        lemma_set_job_wf(v, i, done);
    }
    lemma_set_thread_wf(v1, ti, Thread { prompts: 0, active_at: at, ..v1.threads[ti] });
    let t = v.threads[ti];
    let prompts: u32 = if releases(job.state, state) && t.prompts > 0 {
        (t.prompts - 1) as u32
    } else {
        t.prompts
    };
    let w = finished(v, job, state, error, at, ti);
    let w2 = set_thread(v1, ti, Thread { prompts: prompts, active_at: at, ..t });
    lemma_set_thread_wf(v1, ti, Thread { prompts: prompts, active_at: at, ..t });
    assert(v1.threads[ti] == t);
    assert(w.threads =~= w2.threads);
    assert(w.jobs == w2.jobs);
    assert(w.reads == w2.reads);
}

impl Store {
    /// Ends `job` in `state` (completed, failed or cancelled), recording `error`; see `finished`.
    pub fn finish(&mut self, job: &mut Job, state: JobState, error: Option<String>, at: i64) -> (r: Result<(), StoreError>)
        requires
            old(self).wf(),
            state.is_terminal(),
        ensures
            final(self).wf(),
            match thread_at(old(self)@, old(job).thread_id@) {
                None => r == Err::<(), StoreError>(StoreError::NotFound) && final(self)@ == old(self)@
                    && *final(job) == *old(job),
                Some(ti) => r is Ok && final(job)@ == (JobView { state: state, error: error, ..old(job)@ })
                    && final(self)@ == finished(old(self)@, old(job)@, state, error, at, ti),
            },
    {
        let ti = match self.find_thread(job.thread_id.as_str()) {
            Some(ti) => ti,
            None => return Err(StoreError::NotFound),
        };
        let release = job.state.unsent() && matches!(state, JobState::Failed | JobState::Cancelled);
        let mut thread = self.threads[ti].clone();
        if release && thread.prompts > 0 {
            thread.prompts = thread.prompts - 1;
        }
        thread.active_at = at;
        job.state = state;
        job.error = error;
        let ghost v = old(self)@;
        let ghost done = final(job)@;
        if let Some(i) = self.find_job(job.id.as_str()) {
            self.replace_job(i, job);
            proof {
                lemma_set_job_wf(v, i as int, done);
            }
        }
        let ghost v1 = self@;
        proof {
            self.lemma_view();
            assert(v1.threads == v.threads);
        }
        self.threads.set(ti, thread);
        self.last_finished = at;
        proof {
            self.lemma_view();
            lemma_finished_wf(v, old(job)@, state, error, at, ti as int);
            assert(self@.threads =~= finished(v, old(job)@, state, error, at, ti as int).threads);
            assert(self@.jobs =~= v1.jobs);
            assert(self@.reads =~= v1.reads);
        }
        Ok(())
    }

    /// Cancels request `id`. A finished request is returned as it is; one waiting for its answer
    /// is asked to stop (`cancel_requested`); one not yet sent ends cancelled and gives back its
    /// reservation; any other is refused, since its submission may be in flight.
    pub fn cancel(&mut self, id: &str, at: i64) -> (r: Result<Job, StoreError>)
        requires
            old(self).wf(),
        ensures
            final(self).wf(),
            match job_at(old(self)@, id@) {
                None => r == Err::<Job, StoreError>(StoreError::NotFound) && final(self)@ == old(self)@,
                Some(i) => {
                    let j = old(self)@.jobs[i].job;
                    if j.state.is_terminal() {
                        r matches Ok(x) && x@ == j && final(self)@ == old(self)@
                    } else if j.state is Waiting || j.state is TimedOut {
                        let c = JobView { state: JobState::CancelRequested, ..j };
                        r matches Ok(x) && x@ == c && final(self)@ == set_job(old(self)@, i, c)
                    } else if !(j.state is Queued || j.state is Pacing) {
                        r == Err::<Job, StoreError>(StoreError::AlreadyStarted) && final(self)@
                            == old(self)@
                    } else {
                        let c = JobView { state: JobState::Cancelled, error: None, ..j };
                        &&& r matches Ok(x) && x@ == c
                        &&& thread_at(old(self)@, j.thread_id@) matches Some(ti) && final(self)@ == finished(old(self)@, j, JobState::Cancelled, None, at, ti)
                    }
                },
            },
    {
        proof {
            self.lemma_view();
        }
        let i = match self.find_job(id) {
            Some(i) => i,
            None => return Err(StoreError::NotFound),
        };
        let mut job = self.jobs[i].job.clone();
        if job.terminal() {
            return Ok(job);
        }
        if matches!(job.state, JobState::Waiting | JobState::TimedOut) {
            job.state = JobState::CancelRequested;
            proof {
                if other_holds_slot(old(self)@, i as int) {
                    let k = choose|k: int| 0 <= k < old(self)@.jobs.len() && k != i && (#[trigger] old(self)@.jobs[k]).job.state.holds_slot();
                    assert(old(self)@.jobs[i as int].job.state.holds_slot());
                }
            }
            self.replace_job(i, &job);
            proof {
                lemma_set_job_wf(old(self)@, i as int, job@);
            }
            return Ok(job);
        }
        if !matches!(job.state, JobState::Queued | JobState::Pacing) {
            return Err(StoreError::AlreadyStarted);
        }
        proof {
            assert(has_thread(old(self)@, old(self)@.jobs[i as int].job.thread_id@));
        }
        match self.finish(&mut job, JobState::Cancelled, None, at) {
            Ok(()) => Ok(job),
            Err(e) => Err(e),
        }
    }

    /// Lets the worker observe (never resend) a request whose submission was ambiguous:
    /// it returns to `submitting` with its error cleared. Requires the recorded send time and
    /// turn baseline.
    pub fn reconcile(&mut self, id: &str) -> (r: Result<Job, StoreError>)
        requires
            old(self).wf(),
        ensures
            final(self).wf(),
            match job_at(old(self)@, id@) {
                None => r == Err::<Job, StoreError>(StoreError::NotFound) && final(self)@ == old(self)@,
                Some(i) => {
                    let j = old(self)@.jobs[i].job;
                    if !j.state.is_unresolved() {
                        r == Err::<Job, StoreError>(StoreError::NotReconcilable) && final(self)@
                            == old(self)@
                    } else if j.submitted_at is None || j.baseline is None {
                        r == Err::<Job, StoreError>(StoreError::MissingEvidence) && final(self)@
                            == old(self)@
                    } else {
                        let c = JobView { state: JobState::Submitting, error: None, ..j };
                        r matches Ok(x) && x@ == c && final(self)@ == set_job(old(self)@, i, c)
                    }
                },
            },
    {
        proof {
            self.lemma_view();
        }
        let i = match self.find_job(id) {
            Some(i) => i,
            None => return Err(StoreError::NotFound),
        };
        let mut job = self.jobs[i].job.clone();
        if !job.state.unresolved() {
            return Err(StoreError::NotReconcilable);
        }
        if job.submitted_at.is_none() || job.baseline.is_none() {
            return Err(StoreError::MissingEvidence);
        }
        job.state = JobState::Submitting;
        job.error = None;
        proof {
            if other_holds_slot(old(self)@, i as int) {
                let k = choose|k: int| 0 <= k < old(self)@.jobs.len() && k != i && (#[trigger] old(self)@.jobs[k]).job.state.holds_slot();
                assert(old(self)@.jobs[i as int].job.state.holds_slot());
            }
        }
        self.replace_job(i, &job);
        proof {
            lemma_set_job_wf(old(self)@, i as int, job@);
        }
        Ok(job)
    }
}

// ----- admission -----

/// How `submit` handles a submission.
pub enum SubmitPlan {
    /// Refused with this error; nothing changes.
    Refuse(StoreError),
    /// The same submission was already admitted as request `i`: it is returned unchanged.
    Replay(int),
    /// Request `i`, which failed before it was sent, is queued again in thread `t`.
    Retry(int, int),
    /// A new follow-up request in thread `t`.
    FollowUp(int),
    /// A new thread with its first request.
    Fresh,
}

/// Thread `tid` has a request that has not finished.
pub open spec fn pending_in(v: StoreView, tid: Seq<char>) -> bool {
    exists|k: int|
        0 <= k < v.jobs.len() && (#[trigger] v.jobs[k]).job.thread_id@ == tid
            && !v.jobs[k].job.state.is_terminal()
}

/// Thread `tid` has a request stored after request `i`.
pub open spec fn later_in(v: StoreView, i: int, tid: Seq<char>) -> bool {
    exists|k: int| i < k < v.jobs.len() && (#[trigger] v.jobs[k]).job.thread_id@ == tid
}

/// Why thread `t` cannot take another prompt at `at`, if it cannot.
pub open spec fn admission(v: StoreView, t: Thread, c: ConfigView, at: i64) -> Option<StoreError> {
    if !(t.state is Active) {
        Some(StoreError::ThreadRetired)
    } else if t.prompts >= PROMPT_LIMIT {
        Some(StoreError::PromptLimitReached)
    } else if pending_in(v, t.id@) {
        Some(StoreError::ThreadBusy)
    } else if at >= inactivity_deadline(t, c) {
        Some(StoreError::ThreadExpired)
    } else {
        None
    }
}

/// A retry with the same key may not change the prompt, the thread, the session, whether it
/// starts a thread, or (for a new thread) the research mode.
pub open spec fn conflicts(j: JobView, t: Thread, s: Submit) -> bool {
    !{
        &&& j.prompt@ == s.prompt@
        &&& (s.thread_id is None || s.thread_id->0@ == j.thread_id@)
        &&& j.session@ == s.session@
        &&& j.new_thread == (s.thread_id is None)
        &&& (s.thread_id is Some || t.deep_research == s.deep_research)
    }
}

pub open spec fn submit_plan(v: StoreView, s: Submit, c: ConfigView, at: i64) -> SubmitPlan {
    if submit_error(s) is Some {
        SubmitPlan::Refuse(StoreError::InvalidSubmit(submit_error(s)->0))
    } else if config_error(c) is Some {
        SubmitPlan::Refuse(StoreError::InvalidConfig(config_error(c)->0))
    } else {
        match key_at(v, s.project@, s.key@) {
            Some(i) => {
                let j = v.jobs[i].job;
                let ti = thread_at(v, j.thread_id@)->0;
                let t = v.threads[ti];
                if conflicts(j, t, s) {
                    SubmitPlan::Refuse(StoreError::IdempotencyConflict)
                } else if j.state is Failed && j.submitted_at is None {
                    if later_in(v, i, j.thread_id@) {
                        SubmitPlan::Refuse(StoreError::RetryOrderConflict)
                    } else {
                        match admission(v, t, c, at) {
                            Some(e) => SubmitPlan::Refuse(e),
                            None => SubmitPlan::Retry(i, ti),
                        }
                    }
                } else {
                    SubmitPlan::Replay(i)
                }
            },
            None => match s.thread_id {
                Some(tid) => match thread_at(v, tid@) {
                    Some(ti) => if v.threads[ti].project@ != s.project@ {
                        SubmitPlan::Refuse(StoreError::NotFound)
                    } else {
                        match admission(v, v.threads[ti], c, at) {
                            Some(e) => SubmitPlan::Refuse(e),
                            None => SubmitPlan::FollowUp(ti),
                        }
                    },
                    None => SubmitPlan::Refuse(StoreError::NotFound),
                },
                None => SubmitPlan::Fresh,
            },
        }
    }
}

/// `t` with one more prompt reserved and its activity time set to `at`.
pub open spec fn reserve(t: Thread, at: i64) -> Thread {
    Thread { prompts: (t.prompts + 1) as u32, active_at: at, ..t }
}

/// Request `j` queued again at `at`.
pub open spec fn retried(j: JobView, at: i64) -> JobView {
    JobView { state: JobState::Queued, created_at: at, error: None, send_after: None, ..j }
}

/// The first 100 characters of a prompt.
pub open spec fn title_of(p: Seq<char>) -> Seq<char> {
    if p.len() <= 100 {
        p
    } else {
        p.take(100)
    }
}

/// A new request `id` of thread `tid` for submission `s`.
pub open spec fn fresh_job(id: String, tid: String, s: Submit, c: ConfigView, at: i64) -> JobView {
    JobView {
        id: id,
        thread_id: tid,
        key: s.key,
        session: s.session,
        new_thread: s.thread_id is None,
        prompt: s.prompt,
        config: c,
        state: JobState::Queued,
        created_at: at,
        send_after: None,
        submitted_at: None,
        baseline: None,
        selection: None,
        response: None,
        error: None,
    }
}

/// `t` is the thread a new submission `s` opens at `at`, its first prompt reserved.
pub open spec fn fresh_thread(t: Thread, s: Submit, c: ConfigView, at: i64) -> bool {
    &&& t.chatgpt_project_url == c.chatgpt_project_url
    &&& t.project == s.project
    &&& t.session == s.session
    &&& t.title@ == title_of(s.prompt@)
    &&& t.deep_research == s.deep_research
    &&& t.url is None
    &&& t.target is None
    &&& t.created_at == at
    &&& t.active_at == at
    &&& t.prompts == 1
    &&& t.state is Active
    &&& t.cleanup_error is None
    &&& t.cleanup_attempts == 0
    &&& t.cleanup_retry_at == 0
}

impl Store {
    fn find_key(&self, project: &str, key: &str) -> (r: Option<usize>)
        requires
            self.wf(),
        ensures
            match r {
                Some(k) => k < self@.jobs.len() && key_at(self@, project@, key@) == Some(k as int),
                None => key_at(self@, project@, key@) is None,
            },
    {
        proof {
            self.lemma_view();
        }
        let mut i: usize = 0;
        while i < self.jobs.len()
            invariant
                i <= self.jobs@.len(),
                self.wf(),
                self@.jobs.len() == self.jobs@.len(),
                forall|k: int|
                    0 <= k < self.jobs@.len() ==> #[trigger] self@.jobs[k] == (JobEntry {
                        project: self.jobs@[k].project,
                        job: self.jobs@[k].job@,
                    }),
                forall|k: int| 0 <= k < i ==> !key_match(#[trigger] self@.jobs[k], project@, key@),
            decreases self.jobs@.len() - i,
        {
            if same_text(self.jobs[i].project.as_str(), project) && same_text(
                self.jobs[i].job.key.as_str(),
                key,
            ) {
                assert(key_match(self@.jobs[i as int], project@, key@));
                proof {
                    let c = choose|j: int|
                        0 <= j < self@.jobs.len() && key_match(#[trigger] self@.jobs[j], project@, key@);
                    if c != i as int {
                        assert(!key_match(self@.jobs[c], self@.jobs[i as int].project@, self@.jobs[i as int].job.key@));
                    }
                }
                return Some(i);
            }
            i = i + 1;
        }
        None
    }

    /// Whether thread `tid` has an unfinished request.
    fn pending(&self, tid: &str) -> (r: bool)
        ensures
            r == pending_in(self@, tid@),
    {
        proof {
            self.lemma_view();
        }
        let mut i: usize = 0;
        while i < self.jobs.len()
            invariant
                i <= self.jobs@.len(),
                self@.jobs.len() == self.jobs@.len(),
                forall|k: int|
                    0 <= k < self.jobs@.len() ==> #[trigger] self@.jobs[k] == (JobEntry {
                        project: self.jobs@[k].project,
                        job: self.jobs@[k].job@,
                    }),
                forall|k: int|
                    0 <= k < i ==> !((#[trigger] self@.jobs[k]).job.thread_id@ == tid@
                        && !self@.jobs[k].job.state.is_terminal()),
            decreases self.jobs@.len() - i,
        {
            if same_text(self.jobs[i].job.thread_id.as_str(), tid) && !self.jobs[i].job.terminal() {
                assert(self@.jobs[i as int].job.thread_id@ == tid@);
                return true;
            }
            i = i + 1;
        }
        false
    }

    /// Whether thread `tid` has a request stored after position `i`.
    fn later(&self, i: usize, tid: &str) -> (r: bool)
        requires
            i < self@.jobs.len(),
        ensures
            r == later_in(self@, i as int, tid@),
    {
        proof {
            self.lemma_view();
        }
        let n = self.jobs.len();
        assert(i < n);
        let mut k: usize = i + 1;
        while k < self.jobs.len()
            invariant
                i < k,
                k <= self.jobs@.len(),
                self@.jobs.len() == self.jobs@.len(),
                forall|a: int|
                    0 <= a < self.jobs@.len() ==> #[trigger] self@.jobs[a] == (JobEntry {
                        project: self.jobs@[a].project,
                        job: self.jobs@[a].job@,
                    }),
                forall|a: int| i < a < k && a < self.jobs@.len() ==> (#[trigger] self@.jobs[a]).job.thread_id@ != tid@,
            decreases self.jobs@.len() - k,
        {
            if same_text(self.jobs[k].job.thread_id.as_str(), tid) {
                assert(self@.jobs[k as int].job.thread_id@ == tid@);
                return true;
            }
            k = k + 1;
        }
        false
    }

    /// Why `t` cannot take another prompt at `at`, if it cannot.
    fn admission_check(&self, t: &Thread, config: &Config, at: i64) -> (r: Option<StoreError>)
        requires
            config_ok(config@),
        ensures
            r == admission(self@, *t, config@, at),
    {
        if !matches!(t.state, ThreadState::Active) {
            return Some(StoreError::ThreadRetired);
        }
        if t.prompts >= PROMPT_LIMIT {
            return Some(StoreError::PromptLimitReached);
        }
        if self.pending(t.id.as_str()) {
            return Some(StoreError::ThreadBusy);
        }
        let window = inactivity_window_of(t.id.as_str(), config);
        if at as i128 >= t.active_at as i128 + window as i128 {
            return Some(StoreError::ThreadExpired);
        }
        None
    }
}

/// The first 100 characters of `prompt`.
fn title(prompt: &str) -> (r: String)
    ensures
        r@ == title_of(prompt@),
{
    let chars = chars_of(prompt);
    let mut out: Vec<char> = Vec::new();
    let mut i: usize = 0;
    while i < chars.len() && i < 100
        invariant
            i <= chars@.len(),
            i <= 100,
            chars@ == prompt@,
            out@ == chars@.take(i as int),
        decreases chars@.len() - i,
    {
        out.push(chars[i]);
        i = i + 1;
        assert(out@ =~= chars@.take(i as int));
    }
    if chars.len() <= 100 {
        assert(out@ =~= chars@);
    }
    string_of(&out)
}

/// Adding request `e` to a ledger whose thread list became `threads` keeps it well formed when
/// every old thread id is still present, the thread ids stay distinct, and `e` is fresh.
proof fn lemma_add_job_wf(v: StoreView, threads: Seq<Thread>, e: JobEntry)
    requires
        wf(v),
        forall|i: int, j: int|
            #![trigger threads[i], threads[j]]
            0 <= i < threads.len() && 0 <= j < threads.len() && i != j ==> threads[i].id@
                != threads[j].id@,
        forall|i: int|
            0 <= i < v.threads.len() ==> exists|j: int|
                0 <= j < threads.len() && (#[trigger] threads[j]).id@ == (#[trigger] v.threads[i]).id@,
        exists|j: int| 0 <= j < threads.len() && (#[trigger] threads[j]).id@ == e.job.thread_id@,
        !has_job(v, e.job.id@),
        !has_key(v, e.project@, e.job.key@),
        !e.job.state.holds_slot(),
    ensures
        wf(StoreView { threads: threads, jobs: v.jobs.push(e), ..v }),
{
    let w = StoreView { threads: threads, jobs: v.jobs.push(e), ..v };
    let n = v.jobs.len();
    assert forall|a: int, b: int|
        #![trigger w.jobs[a], w.jobs[b]]
        0 <= a < w.jobs.len() && 0 <= b < w.jobs.len() && a != b implies w.jobs[a].job.id@
        != w.jobs[b].job.id@ && !key_match(w.jobs[a], w.jobs[b].project@, w.jobs[b].job.key@)
        && !(w.jobs[a].job.state.holds_slot() && w.jobs[b].job.state.holds_slot()) by {
        if a < n && b < n {
            assert(v.jobs[a] == w.jobs[a] && v.jobs[b] == w.jobs[b]);
        } else if a == n {
            assert(w.jobs[b] == v.jobs[b]);
            assert(key_match(v.jobs[b], e.project@, e.job.key@) ==> has_key(v, e.project@, e.job.key@));
            assert(v.jobs[b].job.id@ == e.job.id@ ==> has_job(v, e.job.id@));
        } else {
            assert(w.jobs[a] == v.jobs[a]);
            assert(key_match(v.jobs[a], e.project@, e.job.key@) ==> has_key(v, e.project@, e.job.key@));
            assert(v.jobs[a].job.id@ == e.job.id@ ==> has_job(v, e.job.id@));
        }
    }
    assert forall|a: int| 0 <= a < w.jobs.len() implies has_thread(w, (#[trigger] w.jobs[a]).job.thread_id@) by {
        if a < n {
            assert(w.jobs[a] == v.jobs[a]);
            assert(has_thread(v, v.jobs[a].job.thread_id@));
            let k = choose|k: int| 0 <= k < v.threads.len() && (#[trigger] v.threads[k]).id@ == v.jobs[a].job.thread_id@;
            assert(exists|j: int| 0 <= j < threads.len() && (#[trigger] threads[j]).id@ == v.threads[k].id@);
        }
    }
}

impl Store {
    #[verifier::rlimit(60)]
    /// Admits a submission with the identifiers a new thread and a new request would get; see
    /// `submit_plan` for the cases. A new request is queued with the configuration `config` as
    /// its snapshot, and its thread's prompt reservation grows by one. A new request (or thread)
    /// is refused only when its identifier is already in use.
    pub fn submit_with_ids(&mut self, input: &Submit, config: Config, at: i64, thread_id: String, job_id: String) -> (r: Result<Job, StoreError>)
        requires
            old(self).wf(),
        ensures
            final(self).wf(),
            match submit_plan(old(self)@, *input, config@, at) {
                SubmitPlan::Refuse(e) => r == Err::<Job, StoreError>(e) && final(self)@ == old(self)@,
                SubmitPlan::Replay(i) => r matches Ok(x) && x@ == old(self)@.jobs[i].job && final(self)@
                    == old(self)@,
                SubmitPlan::Retry(i, ti) => {
                    let j = retried(old(self)@.jobs[i].job, at);
                    &&& r matches Ok(x) && x@ == j
                    &&& final(self)@ == set_thread(
                        set_job(old(self)@, i, j),
                        ti,
                        reserve(old(self)@.threads[ti], at),
                    )
                },
                SubmitPlan::FollowUp(ti) => if has_job(old(self)@, job_id@) {
                    r == Err::<Job, StoreError>(StoreError::IdCollision) && final(self)@ == old(self)@
                } else {
                    &&& r matches Ok(x)
                    &&& x@ == fresh_job(job_id, old(self)@.threads[ti].id, *input, config@, at)
                    &&& final(self)@ == (StoreView {
                        threads: old(self)@.threads.remove(ti).push(reserve(old(self)@.threads[ti], at)),
                        jobs: old(self)@.jobs.push(JobEntry { project: input.project, job: x@ }),
                        ..old(self)@
                    })
                },
                SubmitPlan::Fresh => if has_thread(old(self)@, thread_id@) || has_job(old(self)@, job_id@) {
                    r == Err::<Job, StoreError>(StoreError::IdCollision) && final(self)@ == old(self)@
                } else {
                    let t = final(self)@.threads.last();
                    &&& r matches Ok(x)
                    &&& t.id == thread_id
                    &&& fresh_thread(t, *input, config@, at)
                    &&& x@ == fresh_job(job_id, thread_id, *input, config@, at)
                    &&& final(self)@ == (StoreView {
                        threads: old(self)@.threads.push(t),
                        jobs: old(self)@.jobs.push(JobEntry { project: input.project, job: x@ }),
                        ..old(self)@
                    })
                },
            },
    {
        proof {
            self.lemma_view();
        }
        if let Err(e) = input.validate() {
            return Err(StoreError::InvalidSubmit(e));
        }
        if let Err(e) = config.validate() {
            return Err(StoreError::InvalidConfig(e));
        }
        let ghost v = old(self)@;
        if let Some(i) = self.find_key(input.project.as_str(), input.key.as_str()) {
            proof {
                assert(has_thread(v, v.jobs[i as int].job.thread_id@));
            }
            let ti = match self.find_thread(self.jobs[i].job.thread_id.as_str()) {
                Some(ti) => ti,
                None => return Err(StoreError::NotFound),
            };
            let job = &self.jobs[i].job;
            let thread = &self.threads[ti];
            let same_thread = match &input.thread_id {
                Some(tid) => same_text(tid.as_str(), job.thread_id.as_str()),
                None => true,
            };
            let same_mode = input.thread_id.is_some() || thread.deep_research == input.deep_research;
            if !(same_text(job.prompt.as_str(), input.prompt.as_str()) && same_thread && same_text(
                job.session.as_str(),
                input.session.as_str(),
            ) && job.new_thread == input.thread_id.is_none() && same_mode) {
                return Err(StoreError::IdempotencyConflict);
            }
            if !(matches!(job.state, JobState::Failed) && job.submitted_at.is_none()) {
                return Ok(job.clone());
            }
            if self.later(i, job.thread_id.as_str()) {
                return Err(StoreError::RetryOrderConflict);
            }
            if let Some(e) = self.admission_check(thread, &config, at) {
                return Err(e);
            }
            let mut again = job.clone();
            again.state = JobState::Queued;
            again.created_at = at;
            again.error = None;
            again.send_after = None;
            let mut reserved = thread.clone();
            reserved.prompts = reserved.prompts + 1;
            reserved.active_at = at;
            self.replace_job(i, &again);
            proof {
                lemma_set_job_wf(v, i as int, again@);
                assert(keep_identity(v.jobs[i as int].job, again@) == again@);
            }
            self.replace_thread(ti, &reserved);
            proof {
                lemma_set_thread_wf(set_job(v, i as int, again@), ti as int, reserved);
            }
            return Ok(again);
        }
        match &input.thread_id {
            Some(tid) => {
                let ti = match self.find_thread(tid.as_str()) {
                    Some(ti) => ti,
                    None => return Err(StoreError::NotFound),
                };
                if !same_text(self.threads[ti].project.as_str(), input.project.as_str()) {
                    return Err(StoreError::NotFound);
                }
                if let Some(e) = self.admission_check(&self.threads[ti], &config, at) {
                    return Err(e);
                }
                if self.find_job(job_id.as_str()).is_some() {
                    return Err(StoreError::IdCollision);
                }
                let mut thread = self.threads.remove(ti);
                thread.prompts = thread.prompts + 1;
                thread.active_at = at;
                let job = Job {
                    id: job_id,
                    thread_id: thread.id.clone(),
                    key: input.key.clone(),
                    session: input.session.clone(),
                    new_thread: false,
                    prompt: input.prompt.clone(),
                    config,
                    state: JobState::Queued,
                    created_at: at,
                    send_after: None,
                    submitted_at: None,
                    baseline: None,
                    selection: None,
                    response: None,
                    error: None,
                };
                let ghost t2 = thread;
                self.threads.push(thread);
                self.jobs.push(StoredJob { project: input.project.clone(), job: job.clone() });
                proof {
                    self.lemma_view();
                    let threads = v.threads.remove(ti as int).push(t2);
                    assert(self@.threads =~= threads);
                    let e = JobEntry { project: input.project, job: job@ };
                    assert(self@.jobs =~= v.jobs.push(e));
                    assert(self@.reads =~= v.reads);
                    assert forall|a: int| 0 <= a < v.threads.len() implies exists|b: int|
                        0 <= b < threads.len() && (#[trigger] threads[b]).id@ == (#[trigger] v.threads[a]).id@ by {
                        if a < ti {
                            assert(threads[a] == v.threads[a]);
                        } else if a > ti {
                            assert(threads[a - 1] == v.threads[a]);
                        } else {
                            assert(threads[threads.len() - 1].id@ == v.threads[a].id@);
                        }
                    }
                    assert(threads[threads.len() - 1].id@ == e.job.thread_id@);
                    assert forall|a: int, b: int|
                        #![trigger threads[a], threads[b]]
                        0 <= a < threads.len() && 0 <= b < threads.len() && a != b implies threads[a].id@
                            != threads[b].id@ by {
                        let oa = if a == threads.len() - 1 { ti as int } else if a < ti { a } else { a + 1 };
                        let ob = if b == threads.len() - 1 { ti as int } else if b < ti { b } else { b + 1 };
                        assert(threads[a].id@ == v.threads[oa].id@);
                        assert(threads[b].id@ == v.threads[ob].id@);
                        assert(v.threads[oa].id@ != v.threads[ob].id@);
                    }
                    lemma_add_job_wf(v, threads, e);
                }
                Ok(job)
            },
            None => {
                if self.find_thread(thread_id.as_str()).is_some() {
                    return Err(StoreError::IdCollision);
                }
                if self.find_job(job_id.as_str()).is_some() {
                    return Err(StoreError::IdCollision);
                }
                let thread = Thread {
                    chatgpt_project_url: clone_opt_string(&config.chatgpt_project_url),
                    id: thread_id,
                    project: input.project.clone(),
                    session: input.session.clone(),
                    title: title(input.prompt.as_str()),
                    deep_research: input.deep_research,
                    url: None,
                    target: None,
                    created_at: at,
                    active_at: at,
                    prompts: 1,
                    state: ThreadState::Active,
                    cleanup_error: None,
                    cleanup_attempts: 0,
                    cleanup_retry_at: 0,
                };
                let job = Job {
                    id: job_id,
                    thread_id: thread.id.clone(),
                    key: input.key.clone(),
                    session: input.session.clone(),
                    new_thread: true,
                    prompt: input.prompt.clone(),
                    config,
                    state: JobState::Queued,
                    created_at: at,
                    send_after: None,
                    submitted_at: None,
                    baseline: None,
                    selection: None,
                    response: None,
                    error: None,
                };
                let ghost t = thread;
                self.threads.push(thread);
                self.jobs.push(StoredJob { project: input.project.clone(), job: job.clone() });
                proof {
                    self.lemma_view();
                    let threads = v.threads.push(t);
                    assert(self@.threads =~= threads);
                    let e = JobEntry { project: input.project, job: job@ };
                    assert(self@.jobs =~= v.jobs.push(e));
                    assert(self@.reads =~= v.reads);
                    assert forall|a: int| 0 <= a < v.threads.len() implies exists|b: int|
                        0 <= b < threads.len() && (#[trigger] threads[b]).id@ == (#[trigger] v.threads[a]).id@ by {
                        assert(threads[a] == v.threads[a]);
                    }
                    assert(threads[threads.len() - 1].id@ == e.job.thread_id@);
                    assert forall|a: int, b: int|
                        #![trigger threads[a], threads[b]]
                        0 <= a < threads.len() && 0 <= b < threads.len() && a != b implies threads[a].id@
                            != threads[b].id@ by {
                        if a < v.threads.len() && b < v.threads.len() {
                            assert(v.threads[a].id@ != v.threads[b].id@);
                        } else if a < v.threads.len() {
                            assert(threads[a] == v.threads[a]);
                        } else {
                            assert(threads[b] == v.threads[b]);
                        }
                    }
                    lemma_add_job_wf(v, threads, e);
                }
                Ok(job)
            },
        }
    }
}

impl Store {
    /// Admits a submission; see `submit_plan` for the cases. The identifiers of a new thread
    /// and a new request are drawn at random (`Store::submit_with_ids` says what follows for each draw).
    /// A new request is refused only when a drawn identifier is already in use, which cannot
    /// happen when the ledger holds no thread and no request (nor, for a follow-up, any
    /// request).
    pub fn submit(&mut self, input: &Submit, config: Config, at: i64) -> (r: Result<Job, StoreError>)
        requires
            old(self).wf(),
        ensures
            final(self).wf(),
            match submit_plan(old(self)@, *input, config@, at) {
                SubmitPlan::Refuse(e) => r == Err::<Job, StoreError>(e) && final(self)@ == old(self)@,
                SubmitPlan::Replay(i) => r matches Ok(x) && x@ == old(self)@.jobs[i].job && final(self)@
                    == old(self)@,
                SubmitPlan::Retry(i, ti) => {
                    let j = retried(old(self)@.jobs[i].job, at);
                    &&& r matches Ok(x) && x@ == j
                    &&& final(self)@ == set_thread(
                        set_job(old(self)@, i, j),
                        ti,
                        reserve(old(self)@.threads[ti], at),
                    )
                },
                SubmitPlan::FollowUp(ti) => {
                    &&& old(self)@.jobs.len() == 0 ==> r is Ok
                    &&& match r {
                        Err(e) => e == StoreError::IdCollision && final(self)@ == old(self)@,
                        Ok(x) => {
                            &&& !has_job(old(self)@, x.id@)
                            &&& x@ == fresh_job(x.id, old(self)@.threads[ti].id, *input, config@, at)
                            &&& final(self)@ == (StoreView {
                                threads: old(self)@.threads.remove(ti).push(
                                    reserve(old(self)@.threads[ti], at),
                                ),
                                jobs: old(self)@.jobs.push(JobEntry { project: input.project, job: x@ }),
                                ..old(self)@
                            })
                        },
                    }
                },
                SubmitPlan::Fresh => {
                    &&& old(self)@.threads.len() == 0 && old(self)@.jobs.len() == 0 ==> r is Ok
                    &&& match r {
                        Err(e) => e == StoreError::IdCollision && final(self)@ == old(self)@,
                        Ok(x) => {
                            let t = final(self)@.threads.last();
                            &&& !has_thread(old(self)@, t.id@)
                            &&& !has_job(old(self)@, x.id@)
                            &&& fresh_thread(t, *input, config@, at)
                            &&& x@ == fresh_job(x.id, t.id, *input, config@, at)
                            &&& final(self)@ == (StoreView {
                                threads: old(self)@.threads.push(t),
                                jobs: old(self)@.jobs.push(JobEntry { project: input.project, job: x@ }),
                                ..old(self)@
                            })
                        },
                    }
                },
            },
    {
        let thread_id = new_uuid();
        let job_id = new_uuid();
        self.submit_with_ids(input, config, at, thread_id, job_id)
    }
}

// ----- read-only captures -----

/// Two chat lists name the same conversations in the same order.
pub open spec fn same_chats(a: Seq<ChatReference>, b: Seq<ChatReference>) -> bool {
    a.len() == b.len() && forall|i: int|
        0 <= i < a.len() ==> (#[trigger] a[i]).id@ == b[i].id@ && a[i].url@ == b[i].url@
}

/// The read batch `v` holds under this project and key, or why `submit_read` refuses.
pub open spec fn read_plan(
    v: StoreView,
    project: Seq<char>,
    session: Seq<char>,
    key: Seq<char>,
    chats: Seq<ChatReference>,
) -> Result<Option<int>, StoreError> {
    if project.len() == 0 || session.len() == 0 || key.len() == 0 || byte_len(key) > 512 {
        Err(StoreError::InvalidReadScope)
    } else if !(1 <= chats.len() <= 10) {
        Err(StoreError::InvalidReadCount)
    } else {
        match read_key_at(v, project, key) {
            Some(i) => if v.reads[i].session@ == session && same_chats(v.reads[i].chats, chats) {
                Ok(Some(i))
            } else {
                Err(StoreError::IdempotencyConflict)
            },
            None => Ok(None),
        }
    }
}

/// The earliest batch still queued or being read.
pub open spec fn first_open_read(s: Seq<ReadView>) -> Option<int>
    decreases s.len(),
{
    if s.len() == 0 {
        None
    } else {
        match first_open_read(s.drop_last()) {
            Some(k) => Some(k),
            None => if !s.last().state.is_terminal() {
                Some(s.len() - 1)
            } else {
                None
            },
        }
    }
}

/// Ids of finished batches last updated before `cutoff`, in storage order.
pub open spec fn expired_reads(s: Seq<ReadView>, cutoff: i64) -> Seq<Seq<char>>
    decreases s.len(),
{
    if s.len() == 0 {
        Seq::empty()
    } else {
        expired_reads(s.drop_last(), cutoff) + if s.last().state.is_terminal() && s.last().updated_at
            < cutoff {
            seq![s.last().id@]
        } else {
            Seq::empty()
        }
    }
}

/// Ids of threads whose local copies may be deleted: remote deletion confirmed, inactive since
/// before `cutoff`, and every request finished. Most recently stored first.
pub open spec fn expired_threads(v: StoreView, s: Seq<Thread>, cutoff: i64) -> Seq<Seq<char>>
    decreases s.len(),
{
    if s.len() == 0 {
        Seq::empty()
    } else {
        expired_threads(v, s.drop_first(), cutoff) + if s[0].state is RemoteDeleted && s[0].active_at
            < cutoff && !pending_in(v, s[0].id@) {
            seq![s[0].id@]
        } else {
            Seq::empty()
        }
    }
}

proof fn lemma_first_open_read(s: Seq<ReadView>)
    ensures
        match first_open_read(s) {
            Some(k) => 0 <= k < s.len() && !s[k].state.is_terminal(),
            None => forall|j: int| 0 <= j < s.len() ==> (#[trigger] s[j]).state.is_terminal(),
        },
    decreases s.len(),
{
    if s.len() > 0 {
        lemma_first_open_read(s.drop_last());
        assert forall|j: int| 0 <= j < s.len() - 1 implies s.drop_last()[j] == s[j] by {}
    }
}

impl Store {
    fn find_read(&self, id: &str) -> (r: Option<usize>)
        requires
            self.wf(),
        ensures
            match r {
                Some(k) => k < self@.reads.len() && read_at(self@, id@) == Some(k as int),
                None => read_at(self@, id@) is None,
            },
    {
        proof {
            self.lemma_view();
        }
        let mut i: usize = 0;
        while i < self.reads.len()
            invariant
                i <= self.reads@.len(),
                self.wf(),
                self@.reads.len() == self.reads@.len(),
                forall|k: int| 0 <= k < self.reads@.len() ==> #[trigger] self@.reads[k] == self.reads@[k]@,
                forall|k: int| 0 <= k < i ==> (#[trigger] self@.reads[k]).id@ != id@,
            decreases self.reads@.len() - i,
        {
            if same_text(self.reads[i].id.as_str(), id) {
                assert(self@.reads[i as int].id@ == id@);
                assert(has_read(self@, id@));
                proof {
                    let c = choose|j: int| 0 <= j < self@.reads.len() && (#[trigger] self@.reads[j]).id@ == id@;
                    if c != i as int {
                        assert(self@.reads[c].id@ != self@.reads[i as int].id@);
                    }
                }
                return Some(i);
            }
            i = i + 1;
        }
        None
    }

    fn find_read_key(&self, project: &str, key: &str) -> (r: Option<usize>)
        requires
            self.wf(),
        ensures
            match r {
                Some(k) => k < self@.reads.len() && read_key_at(self@, project@, key@) == Some(k as int),
                None => read_key_at(self@, project@, key@) is None,
            },
    {
        proof {
            self.lemma_view();
        }
        let mut i: usize = 0;
        while i < self.reads.len()
            invariant
                i <= self.reads@.len(),
                self.wf(),
                self@.reads.len() == self.reads@.len(),
                forall|k: int| 0 <= k < self.reads@.len() ==> #[trigger] self@.reads[k] == self.reads@[k]@,
                forall|k: int| 0 <= k < i ==> !read_key_match(#[trigger] self@.reads[k], project@, key@),
            decreases self.reads@.len() - i,
        {
            if same_text(self.reads[i].project.as_str(), project) && same_text(self.reads[i].key.as_str(), key) {
                assert(read_key_match(self@.reads[i as int], project@, key@));
                proof {
                    let c = choose|j: int| 0 <= j < self@.reads.len() && read_key_match(#[trigger] self@.reads[j], project@, key@);
                    if c != i as int {
                        assert(!read_key_match(self@.reads[c], self@.reads[i as int].project@, self@.reads[i as int].key@));
                    }
                }
                return Some(i);
            }
            i = i + 1;
        }
        None
    }

    /// Admits a batch of 1–10 conversations to capture. The same project and key return the
    /// batch already admitted, provided the session and the chats are the same. A new batch gets
    /// the identifier `read-` followed by `drawn`, and is refused only when that identifier is
    /// already in use.
    pub fn submit_read_with_id(
        &mut self,
        project: &str,
        session: &str,
        key: &str,
        chats: Vec<ChatReference>,
        at: i64,
        drawn: String,
    ) -> (r: Result<ReadRequest, StoreError>)
        requires
            old(self).wf(),
        ensures
            final(self).wf(),
            match read_plan(old(self)@, project@, session@, key@, chats@) {
                Err(e) => r == Err::<ReadRequest, StoreError>(e) && final(self)@ == old(self)@,
                Ok(Some(i)) => r matches Ok(x) && x@ == old(self)@.reads[i] && final(self)@ == old(self)@,
                Ok(None) => if has_read(old(self)@, "read-"@ + drawn@) {
                    r == Err::<ReadRequest, StoreError>(StoreError::IdCollision) && final(self)@ == old(self)@
                } else {
                    &&& r matches Ok(x)
                    &&& x.id@ == "read-"@ + drawn@
                    &&& x.project@ == project@ && x.session@ == session@ && x.key@ == key@
                    &&& x.chats@ == chats@
                    &&& x.state is Queued
                    &&& x.created_at == at && x.updated_at == at
                    &&& x.results@.len() == 0
                    &&& final(self)@ == (StoreView { reads: old(self)@.reads.push(x@), ..old(self)@ })
                },
            },
    {
        proof {
            self.lemma_view();
        }
        if project.is_empty() || session.is_empty() || key.is_empty() || key.len() > 512 {
            return Err(StoreError::InvalidReadScope);
        }
        if !(1 <= chats.len() && chats.len() <= 10) {
            return Err(StoreError::InvalidReadCount);
        }
        if let Some(i) = self.find_read_key(project, key) {
            let prior = &self.reads[i];
            let mut same = prior.chats.len() == chats.len();
            let mut k: usize = 0;
            while same && k < chats.len()
                invariant
                    k <= chats@.len(),
                    same ==> prior.chats@.len() == chats@.len(),
                    same ==> forall|a: int| 0 <= a < k ==> (#[trigger] prior.chats@[a]).id@ == chats@[a].id@
                        && prior.chats@[a].url@ == chats@[a].url@,
                    !same ==> !same_chats(prior.chats@, chats@),
                decreases chats@.len() - k,
            {
                if !(same_text(prior.chats[k].id.as_str(), chats[k].id.as_str()) && same_text(
                    prior.chats[k].url.as_str(),
                    chats[k].url.as_str(),
                )) {
                    same = false;
                }
                k = k + 1;
            }
            if same_text(prior.session.as_str(), session) && same {
                return Ok(prior.clone());
            }
            return Err(StoreError::IdempotencyConflict);
        }
        let mut id = "read-".to_owned();
        id.append(drawn.as_str());
        if self.find_read(id.as_str()).is_some() {
            return Err(StoreError::IdCollision);
        }
        let request = ReadRequest {
            id,
            project: project.to_owned(),
            session: session.to_owned(),
            key: key.to_owned(),
            chats,
            state: ReadState::Queued,
            created_at: at,
            updated_at: at,
            results: Vec::new(),
        };
        let ghost v = old(self)@;
        proof {
            reveal_strlit("read-");
            assert(request.id@.take(5) =~= "read-"@);
        }
        self.reads.push(request.clone());
        proof {
            self.lemma_view();
            assert(self@.reads =~= v.reads.push(request@));
            assert(self@.jobs =~= v.jobs);
            let w = self@;
            assert forall|a: int, b: int|
                #![trigger w.reads[a], w.reads[b]]
                0 <= a < w.reads.len() && 0 <= b < w.reads.len() && a != b implies w.reads[a].id@
                != w.reads[b].id@ && !read_key_match(w.reads[a], w.reads[b].project@, w.reads[b].key@) by {
                let n = v.reads.len();
                if a < n && b < n {
                    assert(v.reads[a] == w.reads[a] && v.reads[b] == w.reads[b]);
                } else if a == n {
                    assert(w.reads[b] == v.reads[b]);
                    assert(v.reads[b].id@ == request.id@ ==> has_read(v, request.id@));
                    assert(read_key_match(v.reads[b], project@, key@) ==> has_read_key(v, project@, key@));
                } else {
                    assert(w.reads[a] == v.reads[a]);
                    assert(v.reads[a].id@ == request.id@ ==> has_read(v, request.id@));
                    assert(read_key_match(v.reads[a], project@, key@) ==> has_read_key(v, project@, key@));
                }
            }
            assert forall|a: int| 0 <= a < w.jobs.len() implies has_thread(w, (#[trigger] w.jobs[a]).job.thread_id@) by {
                assert(has_thread(v, v.jobs[a].job.thread_id@));
            }
        }
        Ok(request)
    }

    /// Admits a batch of 1–10 conversations to capture; see `read_plan` for the cases. A new
    /// batch is named `read-` followed by a random UUID (`Store::submit_read_with_id` says what
    /// follows for each draw); it is refused only when that name is already in use, which
    /// cannot happen when the ledger holds no batch.
    pub fn submit_read(
        &mut self,
        project: &str,
        session: &str,
        key: &str,
        chats: Vec<ChatReference>,
        at: i64,
    ) -> (r: Result<ReadRequest, StoreError>)
        requires
            old(self).wf(),
        ensures
            final(self).wf(),
            match read_plan(old(self)@, project@, session@, key@, chats@) {
                Err(e) => r == Err::<ReadRequest, StoreError>(e) && final(self)@ == old(self)@,
                Ok(Some(i)) => r matches Ok(x) && x@ == old(self)@.reads[i] && final(self)@ == old(self)@,
                Ok(None) => {
                    &&& old(self)@.reads.len() == 0 ==> r is Ok
                    &&& match r {
                        Err(e) => e == StoreError::IdCollision && final(self)@ == old(self)@,
                        Ok(x) => {
                            &&& !has_read(old(self)@, x.id@)
                            &&& has_prefix(x.id@, "read-"@)
                            &&& x.project@ == project@ && x.session@ == session@ && x.key@ == key@
                            &&& x.chats@ == chats@
                            &&& x.state is Queued
                            &&& x.created_at == at && x.updated_at == at
                            &&& x.results@.len() == 0
                            &&& final(self)@ == (StoreView { reads: old(self)@.reads.push(x@), ..old(self)@ })
                        },
                    }
                },
            },
    {
        let ghost plan = read_plan(self@, project@, session@, key@, chats@);
        let drawn = new_uuid();
        let r = self.submit_read_with_id(project, session, key, chats, at, drawn);
        proof {
            reveal_strlit("read-");
            if plan matches Ok(None) && r is Ok {
                assert(r->Ok_0.id@.take(5) =~= "read-"@);
            }
        }
        r
    }

    /// The read batch with this id.
    pub fn read_request(&self, id: &str) -> (r: Result<ReadRequest, StoreError>)
        requires
            self.wf(),
        ensures
            match read_at(self@, id@) {
                Some(i) => r matches Ok(x) && x@ == self@.reads[i],
                None => r == Err::<ReadRequest, StoreError>(StoreError::NotFound),
            },
    {
        proof {
            self.lemma_view();
        }
        match self.find_read(id) {
            Some(i) => Ok(self.reads[i].clone()),
            None => Err(StoreError::NotFound),
        }
    }

    /// Read batch `id`, provided it belongs to `project`.
    pub fn scoped_read(&self, id: &str, project: &str) -> (r: Result<ReadRequest, StoreError>)
        requires
            self.wf(),
        ensures
            match read_at(self@, id@) {
                None => r == Err::<ReadRequest, StoreError>(StoreError::NotFound),
                Some(i) => if self@.reads[i].project@ == project@ {
                    r matches Ok(x) && x@ == self@.reads[i]
                } else {
                    r == Err::<ReadRequest, StoreError>(StoreError::ProjectMismatch)
                },
            },
    {
        let request = match self.read_request(id) {
            Ok(x) => x,
            Err(e) => return Err(e),
        };
        if same_text(request.project.as_str(), project) {
            Ok(request)
        } else {
            Err(StoreError::ProjectMismatch)
        }
    }

    /// Stores a batch over the one with the same id, keeping its id, project and key (nothing
    /// happens when there is none).
    pub fn save_read(&mut self, request: &ReadRequest)
        requires
            old(self).wf(),
        ensures
            final(self).wf(),
            match read_at(old(self)@, request.id@) {
                Some(i) => final(self)@ == (StoreView {
                    reads: old(self)@.reads.update(
                        i,
                        ReadView {
                            id: old(self)@.reads[i].id,
                            project: old(self)@.reads[i].project,
                            key: old(self)@.reads[i].key,
                            ..request@
                        },
                    ),
                    ..old(self)@
                }),
                None => final(self)@ == old(self)@,
            },
    {
        proof {
            self.lemma_view();
        }
        if let Some(i) = self.find_read(request.id.as_str()) {
            let mut r = request.clone();
            r.id = self.reads[i].id.clone();
            r.project = self.reads[i].project.clone();
            r.key = self.reads[i].key.clone();
            let ghost v = old(self)@;
            self.reads.set(i, r);
            proof {
                self.lemma_view();
                let w = self@;
                assert(w.reads =~= v.reads.update(i as int, ReadView {
                    id: v.reads[i as int].id,
                    project: v.reads[i as int].project,
                    key: v.reads[i as int].key,
                    ..request@
                }));
                assert(w.jobs =~= v.jobs);
                assert forall|a: int, b: int|
                    #![trigger w.reads[a], w.reads[b]]
                    0 <= a < w.reads.len() && 0 <= b < w.reads.len() && a != b implies w.reads[a].id@
                    != w.reads[b].id@ && !read_key_match(w.reads[a], w.reads[b].project@, w.reads[b].key@) by {
                    assert(v.reads[a].id@ != v.reads[b].id@);
                    assert(!read_key_match(v.reads[a], v.reads[b].project@, v.reads[b].key@));
                }
                assert forall|a: int| 0 <= a < w.jobs.len() implies has_thread(w, (#[trigger] w.jobs[a]).job.thread_id@) by {
                    assert(has_thread(v, v.jobs[a].job.thread_id@));
                }
            }
        }
    }

    /// The earliest batch still queued or being read.
    pub fn next_read(&self) -> (r: Option<ReadRequest>)
        ensures
            match first_open_read(self@.reads) {
                Some(i) => r matches Some(x) && x@ == self@.reads[i],
                None => r is None,
            },
    {
        proof {
            self.lemma_view();
        }
        let ghost s = self@.reads;
        let mut i: usize = 0;
        while i < self.reads.len()
            invariant
                i <= s.len(),
                s == self@.reads,
                s.len() == self.reads@.len(),
                forall|k: int| 0 <= k < s.len() ==> #[trigger] s[k] == self.reads@[k]@,
                first_open_read(s.take(i as int)) is None,
            decreases s.len() - i,
        {
            assert(s.take(i + 1).drop_last() =~= s.take(i as int));
            if !self.reads[i].terminal() {
                assert(first_open_read(s.take(i + 1)) == Some(i as int));
                proof {
                    lemma_first_open_read(s.take(i as int));
                    lemma_prefix_first_open(s, i as int);
                }
                return Some(self.reads[i].clone());
            }
            i = i + 1;
        }
        assert(s.take(s.len() as int) =~= s);
        None
    }

    /// Ids of finished batches last updated before `cutoff`, in storage order.
    pub fn expired_read_ids(&self, cutoff: i64) -> (r: Vec<String>)
        ensures
            r@.len() == expired_reads(self@.reads, cutoff).len(),
            forall|i: int| 0 <= i < r@.len() ==> #[trigger] r@[i]@ == expired_reads(self@.reads, cutoff)[i],
    {
        proof {
            self.lemma_view();
        }
        let ghost s = self@.reads;
        let mut r: Vec<String> = Vec::new();
        let mut i: usize = 0;
        assert(s.take(0) =~= Seq::<ReadView>::empty());
        while i < self.reads.len()
            invariant
                i <= s.len(),
                s == self@.reads,
                s.len() == self.reads@.len(),
                forall|k: int| 0 <= k < s.len() ==> #[trigger] s[k] == self.reads@[k]@,
                r@.len() == expired_reads(s.take(i as int), cutoff).len(),
                forall|k: int| 0 <= k < r@.len() ==> #[trigger] r@[k]@ == expired_reads(s.take(i as int), cutoff)[k],
            decreases s.len() - i,
        {
            assert(s.take(i + 1).drop_last() =~= s.take(i as int));
            assert(s.take(i + 1).last() == s[i as int]);
            if self.reads[i].terminal() && self.reads[i].updated_at < cutoff {
                r.push(self.reads[i].id.clone());
            }
            i = i + 1;
        }
        assert(s.take(s.len() as int) =~= s);
        r
    }

    /// Drops the batch with this id (nothing happens when there is none).
    pub fn remove_read(&mut self, id: &str)
        requires
            old(self).wf(),
        ensures
            final(self).wf(),
            match read_at(old(self)@, id@) {
                Some(i) => final(self)@ == (StoreView { reads: old(self)@.reads.remove(i), ..old(self)@ }),
                None => final(self)@ == old(self)@,
            },
    {
        proof {
            self.lemma_view();
        }
        if let Some(i) = self.find_read(id) {
            let ghost v = old(self)@;
            self.reads.remove(i);
            proof {
                self.lemma_view();
                let w = self@;
                assert(w.reads =~= v.reads.remove(i as int));
                assert(w.jobs =~= v.jobs);
                assert forall|a: int, b: int|
                    #![trigger w.reads[a], w.reads[b]]
                    0 <= a < w.reads.len() && 0 <= b < w.reads.len() && a != b implies w.reads[a].id@
                    != w.reads[b].id@ && !read_key_match(w.reads[a], w.reads[b].project@, w.reads[b].key@) by {
                    let oa = if a < i { a } else { a + 1 };
                    let ob = if b < i { b } else { b + 1 };
                    assert(w.reads[a] == v.reads[oa] && w.reads[b] == v.reads[ob]);
                }
                assert forall|a: int| 0 <= a < w.jobs.len() implies has_thread(w, (#[trigger] w.jobs[a]).job.thread_id@) by {
                    assert(has_thread(v, v.jobs[a].job.thread_id@));
                }
            }
        }
    }
}

proof fn lemma_prefix_first_open(s: Seq<ReadView>, i: int)
    requires
        0 <= i < s.len(),
        first_open_read(s.take(i + 1)) == Some(i),
    ensures
        first_open_read(s) == Some(i),
    decreases s.len() - i,
{
    if s.len() > i + 1 {
        assert(s.drop_last().take(i + 1) =~= s.take(i + 1));
        lemma_prefix_first_open(s.drop_last(), i);
    } else {
        assert(s.take(i + 1) =~= s);
    }
}

// ----- retention and persistence -----

/// `s` without the requests of thread `tid`.
pub open spec fn jobs_without(s: Seq<JobEntry>, tid: Seq<char>) -> Seq<JobEntry>
    decreases s.len(),
{
    if s.len() == 0 {
        Seq::empty()
    } else {
        jobs_without(s.drop_last(), tid) + if s.last().job.thread_id@ == tid {
            Seq::empty()
        } else {
            seq![s.last()]
        }
    }
}

proof fn lemma_jobs_without(s: Seq<JobEntry>, tid: Seq<char>)
    ensures
        forall|k: int|
            0 <= k < jobs_without(s, tid).len() ==> (#[trigger] jobs_without(s, tid)[k]).job.thread_id@ != tid,
    decreases s.len(),
{
    if s.len() > 0 {
        lemma_jobs_without(s.drop_last(), tid);
        let p = jobs_without(s.drop_last(), tid);
        let q = jobs_without(s, tid);
        assert forall|k: int| 0 <= k < p.len() implies q[k] == p[k] by {}
    }
}

proof fn lemma_remove_job_wf(v: StoreView, i: int)
    requires
        wf(v),
        0 <= i < v.jobs.len(),
    ensures
        wf(StoreView { jobs: v.jobs.remove(i), ..v }),
{
    let w = StoreView { jobs: v.jobs.remove(i), ..v };
    assert forall|a: int, b: int|
        #![trigger w.jobs[a], w.jobs[b]]
        0 <= a < w.jobs.len() && 0 <= b < w.jobs.len() && a != b implies w.jobs[a].job.id@
        != w.jobs[b].job.id@ && !key_match(w.jobs[a], w.jobs[b].project@, w.jobs[b].job.key@)
        && !(w.jobs[a].job.state.holds_slot() && w.jobs[b].job.state.holds_slot()) by {
        let oa = if a < i { a } else { a + 1 };
        let ob = if b < i { b } else { b + 1 };
        assert(w.jobs[a] == v.jobs[oa] && w.jobs[b] == v.jobs[ob]);
    }
    assert forall|a: int| 0 <= a < w.jobs.len() implies has_thread(w, (#[trigger] w.jobs[a]).job.thread_id@) by {
        let oa = if a < i { a } else { a + 1 };
        assert(w.jobs[a] == v.jobs[oa]);
        assert(has_thread(v, v.jobs[oa].job.thread_id@));
    }
}

impl Store {
    /// Whether every request of thread `tid` has finished (so it may be archived).
    pub fn all_finished(&self, tid: &str) -> (r: bool)
        ensures
            r == !pending_in(self@, tid@),
    {
        !self.pending(tid)
    }

    /// Ids of threads whose local copies may now be deleted (see `expired_threads`).
    pub fn expired_thread_ids(&self, cutoff: i64) -> (r: Vec<String>)
        ensures
            r@.len() == expired_threads(self@, self@.threads, cutoff).len(),
            forall|i: int| 0 <= i < r@.len() ==> #[trigger] r@[i]@ == expired_threads(self@, self@.threads, cutoff)[i],
    {
        proof {
            self.lemma_view();
        }
        let ghost s = self@.threads;
        let mut r: Vec<String> = Vec::new();
        let mut k: usize = self.threads.len();
        assert(s.skip(k as int) =~= Seq::<Thread>::empty());
        while k > 0
            invariant
                k <= s.len(),
                s == self.threads@,
                s == self@.threads,
                r@.len() == expired_threads(self@, s.skip(k as int), cutoff).len(),
                forall|a: int| 0 <= a < r@.len() ==> #[trigger] r@[a]@ == expired_threads(self@, s.skip(k as int), cutoff)[a],
            decreases k,
        {
            k = k - 1;
            let t = &self.threads[k];
            assert(s.skip(k as int).drop_first() =~= s.skip(k + 1));
            assert(s.skip(k as int)[0] == s[k as int]);
            if matches!(t.state, ThreadState::RemoteDeleted) && t.active_at < cutoff && !self.pending(t.id.as_str()) {
                r.push(t.id.clone());
            }
        }
        assert(s.skip(0) =~= s);
        r
    }

    /// Deletes thread `id` and all its requests (nothing happens when there is none).
    pub fn remove_thread(&mut self, id: &str)
        requires
            old(self).wf(),
        ensures
            final(self).wf(),
            match thread_at(old(self)@, id@) {
                Some(i) => final(self)@ == (StoreView {
                    threads: old(self)@.threads.remove(i),
                    jobs: jobs_without(old(self)@.jobs, id@),
                    ..old(self)@
                }),
                None => final(self)@ == old(self)@,
            },
    {
        proof {
            self.lemma_view();
        }
        let ti = match self.find_thread(id) {
            Some(ti) => ti,
            None => return,
        };
        let ghost v = old(self)@;
        let ghost s = v.jobs;
        let mut i: usize = 0;
        let mut p: usize = 0;
        assert(s.take(0) =~= Seq::<JobEntry>::empty());
        assert(s.skip(0) =~= s);
        let n = self.jobs.len();
        assert(s.len() == n);
        while p < self.jobs.len()
            invariant
                i <= s.len(),
                s.len() <= usize::MAX,
                wf(self@),
                self@.threads == v.threads,
                self@.reads == v.reads,
                self@.last_finished == v.last_finished,
                p == jobs_without(s.take(i as int), id@).len(),
                self@.jobs == jobs_without(s.take(i as int), id@) + s.skip(i as int),
                thread_at(self@, id@) == Some(ti as int),
                ti < self@.threads.len(),
            decreases s.len() - i,
        {
            proof {
                self.lemma_view();
                assert(self@.jobs[p as int] == s[i as int]);
                assert(s.take(i + 1).drop_last() =~= s.take(i as int));
                assert(s.take(i + 1).last() == s[i as int]);
            }
            if same_text(self.jobs[p].job.thread_id.as_str(), id) {
                let ghost before = self@;
                self.jobs.remove(p);
                proof {
                    self.lemma_view();
                    lemma_remove_job_wf(before, p as int);
                    assert(self@.jobs =~= before.jobs.remove(p as int));
                    assert(self@.reads =~= before.reads);
                    assert(self@.jobs =~= jobs_without(s.take(i + 1), id@) + s.skip(i + 1));
                }
            } else {
                p = p + 1;
                proof {
                    assert(self@.jobs =~= jobs_without(s.take(i + 1), id@) + s.skip(i + 1));
                }
            }
            i = i + 1;
        }
        proof {
            self.lemma_view();
            assert(i == s.len());
            assert(s.take(s.len() as int) =~= s);
            assert(self@.jobs =~= jobs_without(s, id@));
            lemma_jobs_without(s, id@);
        }
        let ghost mid = self@;
        self.threads.remove(ti);
        proof {
            self.lemma_view();
            let w = self@;
            assert(w.threads =~= v.threads.remove(ti as int));
            assert(w.jobs =~= mid.jobs);
            assert(w.reads =~= mid.reads);
            assert forall|a: int, b: int|
                #![trigger w.threads[a], w.threads[b]]
                0 <= a < w.threads.len() && 0 <= b < w.threads.len() && a != b implies w.threads[a].id@
                != w.threads[b].id@ by {
                let oa = if a < ti { a } else { a + 1 };
                let ob = if b < ti { b } else { b + 1 };
                assert(w.threads[a] == v.threads[oa] && w.threads[b] == v.threads[ob]);
            }
            assert forall|a: int, b: int|
                #![trigger w.jobs[a], w.jobs[b]]
                0 <= a < w.jobs.len() && 0 <= b < w.jobs.len() && a != b implies w.jobs[a].job.id@
                != w.jobs[b].job.id@ && !key_match(w.jobs[a], w.jobs[b].project@, w.jobs[b].job.key@)
                && !(w.jobs[a].job.state.holds_slot() && w.jobs[b].job.state.holds_slot()) by {
                assert(w.jobs[a] == mid.jobs[a] && w.jobs[b] == mid.jobs[b]);
            }
            assert forall|a: int| 0 <= a < w.jobs.len() implies has_thread(w, (#[trigger] w.jobs[a]).job.thread_id@) by {
                assert(w.jobs[a] == mid.jobs[a]);
                assert(has_thread(mid, mid.jobs[a].job.thread_id@));
                let t = choose|t: int| 0 <= t < mid.threads.len() && (#[trigger] mid.threads[t]).id@ == mid.jobs[a].job.thread_id@;
                assert(mid.jobs[a].job.thread_id@ != id@);
                assert(t != ti);
                let nt = if t < ti { t } else { t - 1 };
                assert(w.threads[nt] == v.threads[t]);
            }
        }

    }
}

pub open spec fn threads_distinct(t: Seq<Thread>) -> bool {
    forall|i: int, j: int|
        #![trigger t[i], t[j]]
        0 <= i < t.len() && 0 <= j < t.len() && i != j ==> t[i].id@ != t[j].id@
}

pub open spec fn jobs_compatible(a: JobEntry, b: JobEntry) -> bool {
    a.job.id@ != b.job.id@ && !key_match(a, b.project@, b.job.key@) && !(a.job.state.holds_slot()
        && b.job.state.holds_slot())
}

pub open spec fn reads_compatible(a: ReadView, b: ReadView) -> bool {
    a.id@ != b.id@ && !read_key_match(a, b.project@, b.key@)
}

impl Store {
    fn threads_ok(&self) -> (r: bool)
        ensures
            r == threads_distinct(self@.threads),
    {
        proof {
            self.lemma_view();
        }
        let ghost v = self@;
                let n = self.threads.len();
        let mut a: usize = 0;
        while a < n
            invariant
                n == v.threads.len(),
                v == self@,
                v.threads == self.threads@,
                a <= n,
                forall|i: int, j: int| #![trigger v.threads[i], v.threads[j]] 0 <= i < a && i < j < n ==> v.threads[i].id@ != v.threads[j].id@,
            decreases n - a,
        {
            let mut b: usize = a + 1;
            while b < n
                invariant
                    n == v.threads.len(),
                    v.threads == self.threads@,
                    a < n,
                    a < b <= n,
                    forall|j: int| #![trigger v.threads[j]] a < j < b ==> v.threads[a as int].id@ != v.threads[j].id@,
                decreases n - b,
            {
                if same_text(self.threads[a].id.as_str(), self.threads[b].id.as_str()) {
                    assert(!threads_distinct(v.threads)) by {
                        assert(v.threads[a as int].id@ == v.threads[b as int].id@);
                    }
                    return false;
                }
                b = b + 1;
            }
            a = a + 1;
        }
        assert(threads_distinct(v.threads)) by {
            assert forall|i: int, j: int| #![trigger v.threads[i], v.threads[j]] 0 <= i < n && 0 <= j < n && i != j implies v.threads[i].id@ != v.threads[j].id@ by {
                if i < j {
                } else {
                    assert(v.threads[j].id@ != v.threads[i].id@);
                }
            }
        }
        true
    }

    fn jobs_ok(&self) -> (r: bool)
        ensures
            r == (forall|i: int, j: int| #![trigger self@.jobs[i], self@.jobs[j]] 0 <= i < self@.jobs.len() && 0 <= j < self@.jobs.len() && i != j ==> jobs_compatible(self@.jobs[i], self@.jobs[j])),
    {
        proof {
            self.lemma_view();
        }
        let ghost v = self@;
                let m = self.jobs.len();
        let mut a: usize = 0;
        while a < m
            invariant
                m == v.jobs.len(),
                v == self@,
                m == self.jobs@.len(),
                forall|k: int| 0 <= k < m ==> #[trigger] v.jobs[k] == (JobEntry {
                    project: self.jobs@[k].project,
                    job: self.jobs@[k].job@,
                }),
                a <= m,
                forall|i: int, j: int| #![trigger v.jobs[i], v.jobs[j]] 0 <= i < a && i < j < m ==> jobs_compatible(v.jobs[i], v.jobs[j]),
            decreases m - a,
        {
            let mut b: usize = a + 1;
            while b < m
                invariant
                    m == v.jobs.len(),
                    v == self@,
                    m == self.jobs@.len(),
                    forall|k: int| 0 <= k < m ==> #[trigger] v.jobs[k] == (JobEntry {
                        project: self.jobs@[k].project,
                        job: self.jobs@[k].job@,
                    }),
                    a < m,
                    a < b <= m,
                    forall|j: int| #![trigger v.jobs[j]] a < j < b ==> jobs_compatible(v.jobs[a as int], v.jobs[j]),
                decreases m - b,
            {
                let x = &self.jobs[a];
                let y = &self.jobs[b];
                assert(v.jobs[a as int].job.id == x.job.id && v.jobs[b as int].job.id == y.job.id);
                if same_text(x.job.id.as_str(), y.job.id.as_str()) || (same_text(x.project.as_str(), y.project.as_str())
                    && same_text(x.job.key.as_str(), y.job.key.as_str())) || (x.job.state.slot() && y.job.state.slot()) {
                    assert(!jobs_compatible(v.jobs[a as int], v.jobs[b as int]));
                    return false;
                }
                b = b + 1;
            }
            a = a + 1;
        }
        proof {
            assert forall|i: int, j: int|
                #![trigger v.jobs[i], v.jobs[j]]
                0 <= i < m && 0 <= j < m && i != j implies jobs_compatible(v.jobs[i], v.jobs[j]) by {
                if j < i {
                    assert(jobs_compatible(v.jobs[j], v.jobs[i]));
                }
            }
        }
        true
    }

    fn links_ok(&self) -> (r: bool)
        ensures
            r == (forall|q: int| 0 <= q < self@.jobs.len() ==> has_thread(self@, (#[trigger] self@.jobs[q]).job.thread_id@)),
    {
        proof {
            self.lemma_view();
        }
        let ghost v = self@;
        let m = self.jobs.len();
                let mut k: usize = 0;
        while k < m
            invariant
                m == v.jobs.len(),
                v == self@,
                m == self.jobs@.len(),
                v.threads == self.threads@,
                forall|q: int| 0 <= q < m ==> #[trigger] v.jobs[q] == (JobEntry {
                    project: self.jobs@[q].project,
                    job: self.jobs@[q].job@,
                }),
                k <= m,
                forall|q: int| 0 <= q < k ==> has_thread(v, (#[trigger] v.jobs[q]).job.thread_id@),
            decreases m - k,
        {
            let tid = self.jobs[k].job.thread_id.as_str();
            let mut found = false;
            let mut t: usize = 0;
            while t < self.threads.len() && !found
                invariant
                    t <= v.threads.len(),
                    v.threads == self.threads@,
                    found ==> has_thread(v, tid@),
                    !found ==> forall|q: int| 0 <= q < t ==> (#[trigger] v.threads[q]).id@ != tid@,
                decreases v.threads.len() - t,
            {
                if same_text(self.threads[t].id.as_str(), tid) {
                    assert(v.threads[t as int].id@ == tid@);
                    found = true;
                }
                t = t + 1;
            }
            if !found {
                assert(!has_thread(v, v.jobs[k as int].job.thread_id@));
                assert(v.jobs[k as int].job.thread_id@ == tid@);
                return false;
            }
            k = k + 1;
        }
        true
    }

    fn reads_ok(&self) -> (r: bool)
        ensures
            r == (forall|i: int, j: int| #![trigger self@.reads[i], self@.reads[j]] 0 <= i < self@.reads.len() && 0 <= j < self@.reads.len() && i != j ==> reads_compatible(self@.reads[i], self@.reads[j])),
    {
        proof {
            self.lemma_view();
        }
        let ghost v = self@;
                let rn = self.reads.len();
        let mut a: usize = 0;
        while a < rn
            invariant
                rn == v.reads.len(),
                v == self@,
                rn == self.reads@.len(),
                forall|q: int| 0 <= q < rn ==> #[trigger] v.reads[q] == self.reads@[q]@,
                a <= rn,
                forall|i: int, j: int| #![trigger v.reads[i], v.reads[j]] 0 <= i < a && i < j < rn ==> reads_compatible(v.reads[i], v.reads[j]),
            decreases rn - a,
        {
            let mut b: usize = a + 1;
            while b < rn
                invariant
                    rn == v.reads.len(),
                    v == self@,
                    rn == self.reads@.len(),
                    forall|q: int| 0 <= q < rn ==> #[trigger] v.reads[q] == self.reads@[q]@,
                    a < rn,
                    a < b <= rn,
                    forall|j: int| #![trigger v.reads[j]] a < j < b ==> reads_compatible(v.reads[a as int], v.reads[j]),
                decreases rn - b,
            {
                let x = &self.reads[a];
                let y = &self.reads[b];
                if same_text(x.id.as_str(), y.id.as_str()) || (same_text(x.project.as_str(), y.project.as_str())
                    && same_text(x.key.as_str(), y.key.as_str())) {
                    assert(!reads_compatible(v.reads[a as int], v.reads[b as int]));
                    return false;
                }
                b = b + 1;
            }
            a = a + 1;
        }
        proof {
            assert forall|i: int, j: int|
                #![trigger v.reads[i], v.reads[j]]
                0 <= i < rn && 0 <= j < rn && i != j implies reads_compatible(v.reads[i], v.reads[j]) by {
                if j < i {
                    assert(reads_compatible(v.reads[j], v.reads[i]));
                }
            }
        }
        true
    }

    /// Decides `wf` for this ledger.
    fn check(&self) -> (r: bool)
        ensures
            r == wf(self@),
    {
        let r = self.threads_ok() && self.jobs_ok() && self.links_ok() && self.reads_ok();
        proof {
            let v = self@;
            if wf(v) {
                assert forall|i: int, j: int| #![trigger v.jobs[i], v.jobs[j]] 0 <= i < v.jobs.len() && 0 <= j < v.jobs.len() && i != j implies jobs_compatible(v.jobs[i], v.jobs[j]) by {}
                assert forall|i: int, j: int| #![trigger v.reads[i], v.reads[j]] 0 <= i < v.reads.len() && 0 <= j < v.reads.len() && i != j implies reads_compatible(v.reads[i], v.reads[j]) by {}
            }
        }
        r
    }

    /// Rebuilds a ledger from stored records, or `None` exactly when they break the ledger's
    /// invariant.
    pub fn restore(
        threads: Vec<Thread>,
        jobs: Vec<StoredJob>,
        reads: Vec<ReadRequest>,
        last_finished: i64,
    ) -> (r: Option<Store>)
        ensures
            match r {
                Some(s) => s.wf() && s@ == ledger_of(threads@, jobs@, reads@, last_finished),
                None => !wf(ledger_of(threads@, jobs@, reads@, last_finished)),
            },
    {
        let ghost v = ledger_of(threads@, jobs@, reads@, last_finished);
        let s = Store { threads, jobs, reads, last_finished };
        proof {
            s.lemma_view();
            assert(s@.jobs =~= v.jobs);
            assert(s@.reads =~= v.reads);
            assert(s@.threads =~= v.threads);
        }
        if s.check() {
            Some(s)
        } else {
            None
        }
    }

    /// Every stored thread, request and read batch, in storage order, for saving.
    pub fn contents(&self) -> (r: (Vec<Thread>, Vec<StoredJob>, Vec<ReadRequest>))
        ensures
            r.0@ == self@.threads,
            r.1@.len() == self@.jobs.len(),
            forall|i: int| 0 <= i < r.1@.len() ==> #[trigger] self@.jobs[i] == (JobEntry {
                project: r.1@[i].project,
                job: r.1@[i].job@,
            }),
            r.2@.len() == self@.reads.len(),
            forall|i: int| 0 <= i < r.2@.len() ==> #[trigger] self@.reads[i] == r.2@[i]@,
            ledger_of(r.0@, r.1@, r.2@, self@.last_finished) == self@,
    {
        proof {
            self.lemma_view();
        }
        let mut threads: Vec<Thread> = Vec::new();
        let mut i: usize = 0;
        while i < self.threads.len()
            invariant
                i <= self.threads@.len(),
                threads@ == self.threads@.take(i as int),
            decreases self.threads@.len() - i,
        {
            threads.push(self.threads[i].clone());
            i = i + 1;
            assert(threads@ =~= self.threads@.take(i as int));
        }
        assert(threads@ =~= self.threads@);
        let mut jobs: Vec<StoredJob> = Vec::new();
        let mut i: usize = 0;
        while i < self.jobs.len()
            invariant
                i <= self.jobs@.len(),
                jobs@.len() == i,
                forall|k: int| 0 <= k < i ==> (#[trigger] jobs@[k]).project == self.jobs@[k].project
                    && jobs@[k].job@ == self.jobs@[k].job@,
            decreases self.jobs@.len() - i,
        {
            jobs.push(StoredJob { project: self.jobs[i].project.clone(), job: self.jobs[i].job.clone() });
            i = i + 1;
        }
        let mut reads: Vec<ReadRequest> = Vec::new();
        let mut i: usize = 0;
        while i < self.reads.len()
            invariant
                i <= self.reads@.len(),
                reads@.len() == i,
                forall|k: int| 0 <= k < i ==> (#[trigger] reads@[k])@ == self.reads@[k]@,
            decreases self.reads@.len() - i,
        {
            reads.push(self.reads[i].clone());
            i = i + 1;
        }
        proof {
            let w = ledger_of(threads@, jobs@, reads@, self@.last_finished);
            assert(w.jobs =~= self@.jobs);
            assert(w.reads =~= self@.reads);
        }
        (threads, jobs, reads)
    }
}

/// The state a request takes when the worker fails while handling it: a request certainly not
/// sent fails (see `record_failure`); one being submitted becomes `submission_unknown`; any other
/// started request needs attention.
pub open spec fn failure_state(s: JobState) -> JobState {
    if s is Submitting {
        JobState::SubmissionUnknown
    } else {
        JobState::NeedsAttention
    }
}

impl Store {
    /// Records that handling request `id` failed with `error` at `at`. An unsent request ends
    /// failed and releases its reservation; a started one is marked for attention (never
    /// retried automatically); a finished one is left alone.
    pub fn record_failure(&mut self, id: &str, error: String, at: i64) -> (r: Result<(), StoreError>)
        requires
            old(self).wf(),
        ensures
            final(self).wf(),
            match job_at(old(self)@, id@) {
                None => r == Err::<(), StoreError>(StoreError::NotFound) && final(self)@ == old(self)@,
                Some(i) => {
                    let j = old(self)@.jobs[i].job;
                    &&& r is Ok
                    &&& if j.state.is_unsent() {
                        thread_at(old(self)@, j.thread_id@) matches Some(ti) && final(self)@ == finished(
                            old(self)@,
                            j,
                            JobState::Failed,
                            Some(error),
                            at,
                            ti,
                        )
                    } else if !j.state.is_terminal() {
                        final(self)@ == set_job(
                            old(self)@,
                            i,
                            JobView { state: failure_state(j.state), error: Some(error), ..j },
                        )
                    } else {
                        final(self)@ == old(self)@
                    }
                },
            },
    {
        proof {
            self.lemma_view();
        }
        let i = match self.find_job(id) {
            Some(i) => i,
            None => return Err(StoreError::NotFound),
        };
        let mut job = self.jobs[i].job.clone();
        if job.state.unsent() {
            proof {
                assert(has_thread(old(self)@, old(self)@.jobs[i as int].job.thread_id@));
            }
            return self.finish(&mut job, JobState::Failed, Some(error), at);
        }
        if job.terminal() {
            return Ok(());
        }
        job.state = if matches!(job.state, JobState::Submitting) {
            JobState::SubmissionUnknown
        } else {
            JobState::NeedsAttention
        };
        job.error = Some(error);
        proof {
            if other_holds_slot(old(self)@, i as int) {
                let k = choose|k: int| 0 <= k < old(self)@.jobs.len() && k != i && (#[trigger] old(self)@.jobs[k]).job.state.holds_slot();
                assert(old(self)@.jobs[i as int].job.state.holds_slot());
            }
        }
        self.replace_job(i, &job);
        proof {
            lemma_set_job_wf(old(self)@, i as int, job@);
        }
        Ok(())
    }

    /// Request `id`, provided its thread belongs to `project`.
    pub fn scoped_job(&self, id: &str, project: &str) -> (r: Result<Job, StoreError>)
        requires
            self.wf(),
        ensures
            match job_at(self@, id@) {
                None => r == Err::<Job, StoreError>(StoreError::NotFound),
                Some(i) => {
                    let j = self@.jobs[i].job;
                    let t = self@.threads[thread_at(self@, j.thread_id@)->0];
                    if t.project@ == project@ {
                        r matches Ok(x) && x@ == j
                    } else {
                        r == Err::<Job, StoreError>(StoreError::ProjectMismatch)
                    }
                },
            },
    {
        proof {
            self.lemma_view();
        }
        let i = match self.find_job(id) {
            Some(i) => i,
            None => return Err(StoreError::NotFound),
        };
        proof {
            assert(has_thread(self@, self@.jobs[i as int].job.thread_id@));
        }
        let ti = match self.find_thread(self.jobs[i].job.thread_id.as_str()) {
            Some(ti) => ti,
            None => return Err(StoreError::NotFound),
        };
        if same_text(self.threads[ti].project.as_str(), project) {
            Ok(self.jobs[i].job.clone())
        } else {
            Err(StoreError::ProjectMismatch)
        }
    }

    /// Thread `id`, provided it belongs to `project`.
    pub fn scoped_thread(&self, id: &str, project: &str) -> (r: Result<Thread, StoreError>)
        requires
            self.wf(),
        ensures
            match thread_at(self@, id@) {
                None => r == Err::<Thread, StoreError>(StoreError::NotFound),
                Some(i) => if self@.threads[i].project@ == project@ {
                    r == Ok::<Thread, StoreError>(self@.threads[i])
                } else {
                    r == Err::<Thread, StoreError>(StoreError::ProjectMismatch)
                },
            },
    {
        proof {
            self.lemma_view();
        }
        let i = match self.find_thread(id) {
            Some(i) => i,
            None => return Err(StoreError::NotFound),
        };
        if same_text(self.threads[i].project.as_str(), project) {
            Ok(self.threads[i].clone())
        } else {
            Err(StoreError::ProjectMismatch)
        }
    }

    /// Reopens thread `id` of `project` for follow-ups without sending anything: it must be
    /// active, below the prompt limit and not yet expired; its inactivity clock restarts at `now`.
    pub fn resume(&mut self, id: &str, project: &str, config: &Config, now: i64) -> (r: Result<Thread, StoreError>)
        requires
            old(self).wf(),
            config_ok(config@),
        ensures
            final(self).wf(),
            match thread_at(old(self)@, id@) {
                None => r == Err::<Thread, StoreError>(StoreError::NotFound) && final(self)@ == old(self)@,
                Some(i) => {
                    let t = old(self)@.threads[i];
                    if t.project@ != project@ {
                        r == Err::<Thread, StoreError>(StoreError::ProjectMismatch) && final(self)@ == old(self)@
                    } else if !(t.state is Active && t.prompts < PROMPT_LIMIT) {
                        r == Err::<Thread, StoreError>(StoreError::ThreadRetired) && final(self)@ == old(self)@
                    } else if now >= inactivity_deadline(t, config@) {
                        r == Err::<Thread, StoreError>(StoreError::ThreadExpired) && final(self)@ == old(self)@
                    } else {
                        let u = Thread { active_at: now, ..t };
                        r == Ok::<Thread, StoreError>(u) && final(self)@ == set_thread(old(self)@, i, u)
                    }
                },
            },
    {
        proof {
            self.lemma_view();
        }
        let i = match self.find_thread(id) {
            Some(i) => i,
            None => return Err(StoreError::NotFound),
        };
        let mut t = self.threads[i].clone();
        if !same_text(t.project.as_str(), project) {
            return Err(StoreError::ProjectMismatch);
        }
        if !(matches!(t.state, ThreadState::Active) && t.prompts < PROMPT_LIMIT) {
            return Err(StoreError::ThreadRetired);
        }
        let window = inactivity_window_of(t.id.as_str(), config);
        if now as i128 >= t.active_at as i128 + window as i128 {
            return Err(StoreError::ThreadExpired);
        }
        t.active_at = now;
        self.replace_thread(i, &t);
        proof {
            lemma_set_thread_wf(old(self)@, i as int, t);
        }
        Ok(t)
    }

    /// Asks cleanup to retire thread `id` of `project` early. Its requests must all have
    /// finished; an active thread becomes archive-pending, any other is returned as it is.
    pub fn retire(&mut self, id: &str, project: &str) -> (r: Result<Thread, StoreError>)
        requires
            old(self).wf(),
        ensures
            final(self).wf(),
            match thread_at(old(self)@, id@) {
                None => r == Err::<Thread, StoreError>(StoreError::NotFound) && final(self)@ == old(self)@,
                Some(i) => {
                    let t = old(self)@.threads[i];
                    if t.project@ != project@ {
                        r == Err::<Thread, StoreError>(StoreError::ProjectMismatch) && final(self)@ == old(self)@
                    } else if pending_in(old(self)@, t.id@) {
                        r == Err::<Thread, StoreError>(StoreError::UnfinishedWork) && final(self)@ == old(self)@
                    } else if t.state is Active {
                        let u = Thread { state: ThreadState::ArchivePending, ..t };
                        r == Ok::<Thread, StoreError>(u) && final(self)@ == set_thread(old(self)@, i, u)
                    } else {
                        r == Ok::<Thread, StoreError>(t) && final(self)@ == old(self)@
                    }
                },
            },
    {
        proof {
            self.lemma_view();
        }
        let i = match self.find_thread(id) {
            Some(i) => i,
            None => return Err(StoreError::NotFound),
        };
        let mut t = self.threads[i].clone();
        if !same_text(t.project.as_str(), project) {
            return Err(StoreError::ProjectMismatch);
        }
        if self.pending(t.id.as_str()) {
            return Err(StoreError::UnfinishedWork);
        }
        if matches!(t.state, ThreadState::Active) {
            t.state = ThreadState::ArchivePending;
            self.replace_thread(i, &t);
            proof {
                lemma_set_thread_wf(old(self)@, i as int, t);
            }
        }
        Ok(t)
    }
}

} // verus!
