//! Decisions of the background worker: pacing, failure recovery, and the retirement of
//! inactive or exhausted threads (archive locally, then delete remotely, with backoff).
use crate::config::{config_ok, Config, ConfigView, PROMPT_LIMIT};
use crate::json::{field, items_of, text_of, views, Json, JsonView};
use crate::links::opt_view;
use crate::records::{inactivity_deadline, inactivity_window_of, pacing, Job, JobState, JobView, Thread, ThreadState};
use crate::text::same_text;
use vstd::prelude::*;

verus! {

/// 60 seconds doubled `n` times.
pub open spec fn doubled(n: nat) -> int
    decreases n,
{
    if n == 0 {
        60
    } else {
        2 * doubled((n - 1) as nat)
    }
}

/// Backoff after the `attempts`-th failed cleanup: 1, 2, 4, ... minutes, capped at an hour.
pub open spec fn cleanup_backoff(attempts: u32) -> int {
    let k: nat = if attempts <= 1 {
        0
    } else if attempts - 1 > 10 {
        10
    } else {
        (attempts - 1) as nat
    };
    if doubled(k) > 3600 {
        3600
    } else {
        doubled(k)
    }
}

proof fn lemma_doubled_positive(n: nat)
    ensures
        doubled(n) >= 60,
    decreases n,
{
    if n > 0 {
        lemma_doubled_positive((n - 1) as nat);
    }
}

/// Seconds to wait before retrying a cleanup that has failed `attempts` times.
pub fn cleanup_delay(attempts: u32) -> (r: i64)
    ensures
        r == cleanup_backoff(attempts),
        60 <= r <= 3600,
{
    let k: u32 = if attempts <= 1 {
        0
    } else if attempts - 1 > 10 {
        10
    } else {
        attempts - 1
    };
    let mut d: i64 = 60;
    let mut i: u32 = 0;
    while i < k
        invariant
            i <= k <= 10,
            d == if doubled(i as nat) > 3600 {
                3600
            } else {
                doubled(i as nat)
            },
        decreases k - i,
    {
        proof {
            lemma_doubled_positive(i as nat);
            assert(doubled((i + 1) as nat) == 2 * doubled(i as nat));
        }
        d = if d * 2 > 3600 {
            3600
        } else {
            d * 2
        };
        i = i + 1;
    }
    proof {
        lemma_doubled_positive(k as nat);
    }
    d
}

/// `t` after another failed cleanup at `now`: one more attempt, retried after the backoff.
pub open spec fn rescheduled(t: Thread, now: i64) -> Thread {
    let attempts: u32 = if t.cleanup_attempts == u32::MAX {
        u32::MAX
    } else {
        (t.cleanup_attempts + 1) as u32
    };
    Thread {
        cleanup_attempts: attempts,
        cleanup_retry_at: (now + cleanup_backoff(attempts)) as i64,
        ..t
    }
}

/// Counts a failed cleanup and schedules the next try.
pub fn schedule_cleanup_retry(thread: &mut Thread, now: i64)
    requires
        now <= i64::MAX - 3600,
    ensures
        *final(thread) == rescheduled(*old(thread), now),
{
    thread.cleanup_attempts = thread.cleanup_attempts.saturating_add(1);
    thread.cleanup_retry_at = now + cleanup_delay(thread.cleanup_attempts);
}

/// Whether cleanup should retire `t` now: it is not already deleted, its retry time has come,
/// it is inactive past its deadline or has used its whole budget (or is already retiring), and
/// every request in it has finished.
pub open spec fn cleanup_due(t: Thread, c: ConfigView, now: i64, all_finished: bool) -> bool {
    &&& !(t.state is RemoteDeleted)
    &&& t.cleanup_retry_at <= now
    &&& !(t.state is Active && t.prompts < PROMPT_LIMIT && now < inactivity_deadline(t, c))
    &&& all_finished
}

/// Decides `cleanup_due`.
pub fn should_retire(thread: &Thread, config: &Config, now: i64, all_finished: bool) -> (r: bool)
    requires
        config_ok(config@),
    ensures
        r == cleanup_due(*thread, config@, now, all_finished),
{
    if matches!(thread.state, ThreadState::RemoteDeleted) || thread.cleanup_retry_at > now {
        return false;
    }
    let window = inactivity_window_of(thread.id.as_str(), config);
    if matches!(thread.state, ThreadState::Active) && thread.prompts < PROMPT_LIMIT && (now as i128)
        < thread.active_at as i128 + window as i128 {
        return false;
    }
    all_finished
}

/// The first thread at or after position `from` that cleanup should retire now, given for
/// each thread whether all of its requests have finished.
pub fn next_due(threads: &Vec<Thread>, finished: &Vec<bool>, config: &Config, now: i64, from: usize) -> (r: Option<usize>)
    requires
        config_ok(config@),
        finished@.len() == threads@.len(),
    ensures
        match r {
            Some(k) => {
                &&& from <= k < threads@.len()
                &&& cleanup_due(threads@[k as int], config@, now, finished@[k as int])
                &&& forall|j: int| from <= j < k ==> !cleanup_due(#[trigger] threads@[j], config@, now, finished@[j])
            },
            None => forall|j: int| from <= j < threads@.len() ==> !cleanup_due(#[trigger] threads@[j], config@, now, finished@[j]),
        },
{
    let mut k: usize = from;
    while k < threads.len()
        invariant
            config_ok(config@),
            finished@.len() == threads@.len(),
            from <= k || threads@.len() <= k,
            forall|j: int| from <= j < k && j < threads@.len() ==> !cleanup_due(#[trigger] threads@[j], config@, now, finished@[j]),
        decreases threads@.len() - k,
    {
        if should_retire(&threads[k], config, now, finished[k]) {
            return Some(k);
        }
        k = k + 1;
    }
    None
}

/// Whether a cleanup pass goes on after handling `thread`. It goes on only when the local
/// archive failed, so the thread is still waiting to be archived and no remote deletion was
/// tried; once a deletion was tried, the pass ends, so a pass retires at most one chat.
pub fn pass_goes_on(thread: &Thread) -> (r: bool)
    ensures
        r == (thread.state is ArchivePending),
{
    matches!(thread.state, ThreadState::ArchivePending)
}

/// The state a thread is frozen in before any outside work: archiving pending.
pub fn freeze(thread: &mut Thread)
    ensures
        *final(thread) == (Thread { state: ThreadState::ArchivePending, ..*old(thread) }),
{
    thread.state = ThreadState::ArchivePending;
}

/// `t` after the local archive attempt: on success remote deletion becomes pending; on failure
/// the error is kept and a retry scheduled.
pub open spec fn archived(t: Thread, outcome: Result<(), String>, now: i64) -> Thread {
    match outcome {
        Ok(()) => Thread { state: ThreadState::DeletionPending, ..t },
        Err(e) => rescheduled(Thread { cleanup_error: Some(e), ..t }, now),
    }
}

pub fn after_archive(thread: &mut Thread, outcome: Result<(), String>, now: i64)
    requires
        now <= i64::MAX - 3600,
    ensures
        *final(thread) == archived(*old(thread), outcome, now),
{
    match outcome {
        Ok(()) => {
            thread.state = ThreadState::DeletionPending;
        },
        Err(e) => {
            thread.cleanup_error = Some(e);
            schedule_cleanup_retry(thread, now);
        },
    }
}

/// `t` after the remote deletion attempt: on success it is remote-deleted with its cleanup
/// bookkeeping reset; on failure the error is kept and a retry scheduled.
pub open spec fn retired(t: Thread, outcome: Result<(), String>, now: i64) -> Thread {
    match outcome {
        Ok(()) => Thread {
            state: ThreadState::RemoteDeleted,
            cleanup_error: None,
            cleanup_attempts: 0,
            cleanup_retry_at: 0,
            ..t
        },
        Err(e) => rescheduled(Thread { cleanup_error: Some(e), ..t }, now),
    }
}

pub fn after_retire(thread: &mut Thread, outcome: Result<(), String>, now: i64)
    requires
        now <= i64::MAX - 3600,
    ensures
        *final(thread) == retired(*old(thread), outcome, now),
{
    match outcome {
        Ok(()) => {
            thread.state = ThreadState::RemoteDeleted;
            thread.cleanup_error = None;
            thread.cleanup_attempts = 0;
            thread.cleanup_retry_at = 0;
        },
        Err(e) => {
            thread.cleanup_error = Some(e);
            schedule_cleanup_retry(thread, now);
        },
    }
}

/// A thread without a conversation URL needs no remote deletion only if none of its requests
/// was ever submitted.
pub fn never_submitted(jobs: &Vec<Job>) -> (r: bool)
    ensures
        r == forall|i: int| 0 <= i < jobs@.len() ==> (#[trigger] jobs@[i]).submitted_at is None,
{
    let mut i: usize = 0;
    while i < jobs.len()
        invariant
            i <= jobs@.len(),
            forall|k: int| 0 <= k < i ==> (#[trigger] jobs@[k]).submitted_at is None,
        decreases jobs@.len() - i,
    {
        if jobs[i].submitted_at.is_some() {
            return false;
        }
        i = i + 1;
    }
    true
}

/// Per-request send deadlines on the worker's monotonic clock. A deadline is set the first
/// time a request is seen, so a restart always paces again and clock jumps cannot shorten it.
pub struct PacingClock {
    deadlines: Vec<(String, u128)>,
}

/// The deadline recorded for `id`, if any (the first entry wins).
pub open spec fn deadline_for(s: Seq<(String, u128)>, id: Seq<char>) -> Option<u128>
    decreases s.len(),
{
    if s.len() == 0 {
        None
    } else if s[0].0@ == id {
        Some(s[0].1)
    } else {
        deadline_for(s.drop_first(), id)
    }
}

impl View for PacingClock {
    type V = Seq<(String, u128)>;

    closed spec fn view(&self) -> Seq<(String, u128)> {
        self.deadlines@
    }
}

impl PacingClock {
    pub fn new() -> (r: PacingClock)
        ensures
            r@.len() == 0,
    {
        PacingClock { deadlines: Vec::new() }
    }

    fn lookup(&self, id: &str) -> (r: Option<u128>)
        ensures
            r == deadline_for(self@, id@),
    {
        let ghost s = self.deadlines@;
        let mut i: usize = 0;
        assert(s.skip(0) =~= s);
        while i < self.deadlines.len()
            invariant
                i <= s.len(),
                s == self.deadlines@,
                deadline_for(s, id@) == deadline_for(s.skip(i as int), id@),
            decreases s.len() - i,
        {
            assert(s.skip(i as int)[0] == s[i as int]);
            assert(s.skip(i as int).drop_first() =~= s.skip(i + 1));
            if same_text(self.deadlines[i].0.as_str(), id) {
                return Some(self.deadlines[i].1);
            }
            i = i + 1;
        }
        None
    }

    /// Whether `job` may be sent at monotonic second `clock`. The first call for a request
    /// fixes its deadline at `clock` plus its pacing delay.
    pub fn ready(&mut self, job: &Job, clock: u64) -> (r: bool)
        requires
            job.config.words_per_minute > 0,
        ensures
            match deadline_for(old(self)@, job.id@) {
                Some(d) => r == (clock >= d) && final(self)@ == old(self)@,
                None => r == (clock >= clock + pacing(job@)) && deadline_for(final(self)@, job.id@)
                    == Some((clock + pacing(job@)) as u128) && final(self)@ == old(self)@.push(
                    (job.id, (clock + pacing(job@)) as u128),
                ),
            },
    {
        match self.lookup(job.id.as_str()) {
            Some(d) => clock as u128 >= d,
            None => {
                let delay = job.pacing_exact();
                let d: u128 = clock as u128 + delay;
                let ghost before = self.deadlines@;
                self.deadlines.push((job.id.clone(), d));
                proof {
                    lemma_deadline_push(before, job.id, d);
                }
                clock as u128 >= d
            },
        }
    }
}

/// The recorded deadlines without those of `id`, in order.
pub open spec fn without_id(s: Seq<(String, u128)>, id: Seq<char>) -> Seq<(String, u128)>
    decreases s.len(),
{
    if s.len() == 0 {
        s
    } else if s.last().0@ == id {
        without_id(s.drop_last(), id)
    } else {
        without_id(s.drop_last(), id).push(s.last())
    }
}

proof fn lemma_no_deadline(s: Seq<(String, u128)>, id: Seq<char>)
    requires
        forall|i: int| 0 <= i < s.len() ==> (#[trigger] s[i]).0@ != id,
    ensures
        deadline_for(s, id) is None,
    decreases s.len(),
{
    if s.len() > 0 {
        assert(s[0].0@ != id);
        assert forall|i: int| 0 <= i < s.drop_first().len() implies (#[trigger] s.drop_first()[i]).0@ != id by {
            assert(s.drop_first()[i] == s[i + 1]);
        }
        lemma_no_deadline(s.drop_first(), id);
    }
}

impl PacingClock {
    /// Forgets the deadline of a request that has moved on from pacing.
    pub fn forget(&mut self, id: &str)
        ensures
            final(self)@ == without_id(old(self)@, id@),
            deadline_for(final(self)@, id@) is None,
    {
        let mut kept: Vec<(String, u128)> = Vec::new();
        let ghost s = self.deadlines@;
        let mut i: usize = 0;
        while i < self.deadlines.len()
            invariant
                i <= s.len(),
                s == self.deadlines@,
                kept@ == without_id(s.take(i as int), id@),
                forall|k: int| 0 <= k < kept@.len() ==> (#[trigger] kept@[k]).0@ != id@,
            decreases s.len() - i,
        {
            assert(s.take(i + 1).drop_last() =~= s.take(i as int));
            assert(s.take(i + 1).last() == s[i as int]);
            if !same_text(self.deadlines[i].0.as_str(), id) {
                let entry = (self.deadlines[i].0.clone(), self.deadlines[i].1);
                kept.push(entry);
            }
            i = i + 1;
        }
        assert(s.take(s.len() as int) =~= s);
        proof {
            lemma_no_deadline(kept@, id@);
        }
        self.deadlines = kept;
    }
}

proof fn lemma_deadline_push(s: Seq<(String, u128)>, id: String, d: u128)
    requires
        deadline_for(s, id@) is None,
    ensures
        deadline_for(s.push((id, d)), id@) == Some(d),
    decreases s.len(),
{
    if s.len() > 0 {
        lemma_deadline_push(s.drop_first(), id, d);
        assert(s.push((id, d)).drop_first() =~= s.drop_first().push((id, d)));
    } else {
        assert(s.push((id, d))[0] == (id, d));
    }
}

/// States in which the prompt may already have reached ChatGPT: the owned tab may then only be
/// found again through what was persisted, never by starting over.
pub open spec fn may_be_sent(s: JobState) -> bool {
    s is Submitting || s is Waiting || s is TimedOut || s is CancelRequested
}

/// Why a possibly sent request cannot be recovered.
#[derive(Clone, Copy, Debug, PartialEq, Eq, Structural)]
pub enum RecoveryError {
    /// Neither the tab nor the conversation URL was persisted.
    NoTarget,
    /// The tab is gone and the conversation URL was never saved.
    TargetLost,
}

/// The message reported for `e`.
pub open spec fn recovery_error_text(e: RecoveryError) -> Seq<char> {
    match e {
        RecoveryError::NoTarget => "No persisted target for submission recovery"@,
        RecoveryError::TargetLost => "submission_unknown: original target lost before conversation URL was saved"@,
    }
}

impl RecoveryError {
    pub fn message(&self) -> (r: String)
        ensures
            r@ == recovery_error_text(*self),
    {
        match self {
            RecoveryError::NoTarget => "No persisted target for submission recovery".to_owned(),
            RecoveryError::TargetLost => "submission_unknown: original target lost before conversation URL was saved".to_owned(),
        }
    }
}

/// Whether a listed DevTools target is the thread's persisted tab.
pub open spec fn lists_target(targets: Seq<JsonView>, target: Option<Seq<char>>) -> bool {
    exists|i: int| 0 <= i < targets.len() && text_of(field(#[trigger] targets[i], "id"@)) == target
}

/// Resuming a possibly sent request requires its persisted tab or conversation URL; without
/// the URL, the tab must still be listed.
pub open spec fn recovery(state: JobState, t: Thread, targets: Seq<JsonView>) -> Result<(), RecoveryError> {
    if !may_be_sent(state) {
        Ok(())
    } else if t.target is None && t.url is None {
        Err(RecoveryError::NoTarget)
    } else if t.url is None && !lists_target(targets, opt_view(t.target)) {
        Err(RecoveryError::TargetLost)
    } else {
        Ok(())
    }
}

/// Decides `recovery`.
pub fn recovery_check(job: &Job, thread: &Thread, targets: &Vec<Json>) -> (r: Result<(), RecoveryError>)
    ensures
        r == recovery(job.state, *thread, views(targets@)),
{
    let sent = matches!(job.state, JobState::Submitting | JobState::Waiting | JobState::TimedOut | JobState::CancelRequested);
    if !sent {
        return Ok(());
    }
    if thread.target.is_none() && thread.url.is_none() {
        return Err(RecoveryError::NoTarget);
    }
    if thread.url.is_some() {
        return Ok(());
    }
    let ghost tv = views(targets@);
    let ghost want = opt_view(thread.target);
    let mut i: usize = 0;
    while i < targets.len()
        invariant
            i <= targets@.len(),
            tv == views(targets@),
            want == opt_view(thread.target),
            thread.url is None,
            !(thread.target is None && thread.url is None),
            may_be_sent(job.state),
            forall|k: int| 0 <= k < i ==> text_of(field(#[trigger] tv[k], "id"@)) != want,
        decreases targets@.len() - i,
    {
        assert(tv[i as int] == targets@[i as int]@);
        let listed = match (targets[i].field_text("id"), &thread.target) {
            (Some(a), Some(b)) => same_text(a.as_str(), b.as_str()),
            (None, None) => true,
            _ => false,
        };
        if listed {
            assert(text_of(field(tv[i as int], "id"@)) == want);
            assert(lists_target(tv, want));
            return Ok(());
        }
        i = i + 1;
    }
    Err(RecoveryError::TargetLost)
}

/// Where the owned tab is reopened: the conversation, else the configured project page.
pub fn reconnect_url(thread: &Thread) -> (r: Option<String>)
    ensures
        opt_view(r) == (if thread.url is Some {
            opt_view(thread.url)
        } else {
            opt_view(thread.chatgpt_project_url)
        }),
{
    match &thread.url {
        Some(u) => Some(u.clone()),
        None => match &thread.chatgpt_project_url {
            Some(p) => Some(p.clone()),
            None => None,
        },
    }
}

/// Moves a paced request on to preparation, unless it was cancelled meanwhile (`stored` is
/// its state in the store); returns whether it moved.
pub fn begin_preparing(job: &mut Job, stored: JobState) -> (r: bool)
    ensures
        r == !(stored is Cancelled),
        final(job)@ == (if r {
            JobView { state: JobState::Preparing, ..old(job)@ }
        } else {
            old(job)@
        }),
{
    if matches!(stored, JobState::Cancelled) {
        false
    } else {
        job.state = JobState::Preparing;
        true
    }
}

/// How many turns the page showed before the prompt was typed.
pub fn baseline_of(setup: &Json) -> (r: usize)
    ensures
        r == (match items_of(field(field(setup@, "state"@), "turns"@)) {
            Some(t) => t.len() as int,
            None => 0,
        }),
{
    match setup.get("state") {
        Some(state) => match state.field_items("turns") {
            Some(t) => t.len(),
            None => 0,
        },
        None => 0,
    }
}

/// The model settings recorded with a submission: the reasoning effort chosen and the mode.
pub open spec fn selection_record(setup: JsonView, deep: bool) -> JsonView {
    JsonView::Object(
        seq![
            ("reasoning"@, field(setup, "reasoning"@)),
            ("mode"@, JsonView::Text(if deep {
                "deep_research"@
            } else {
                "auto"@
            })),
        ],
    )
}

/// Builds `selection_record`.
pub fn selection_of(setup: &Json, deep: bool) -> (r: Json)
    ensures
        r@ == selection_record(setup@, deep),
{
    let reasoning = match setup.get("reasoning") {
        Some(v) => v.duplicate(),
        None => Json::Null,
    };
    let mode = if deep {
        "deep_research".to_owned()
    } else {
        "auto".to_owned()
    };
    let mut m: Vec<(String, Json)> = Vec::new();
    m.push(("reasoning".to_owned(), reasoning));
    m.push(("mode".to_owned(), Json::Text(mode)));
    proof {
        crate::reads::lemma_object_view(m);
    }
    let r = Json::Object(m);
    assert(r@->Object_0 =~= selection_record(setup@, deep)->Object_0);
    r
}

/// Records the intent to send, before Send is pressed: past this point a crash never leads
/// to an automatic resubmission.
pub fn mark_submitting(job: &mut Job, baseline: usize, selection: Json, at: i64)
    ensures
        final(job)@ == (JobView {
            state: JobState::Submitting,
            submitted_at: Some(at),
            baseline: Some(baseline),
            selection: Some(selection@),
            ..old(job)@
        }),
{
    job.state = JobState::Submitting;
    job.submitted_at = Some(at);
    job.baseline = Some(baseline);
    job.selection = Some(selection);
}

/// The instant before which finished local copies expire: `days` days before `now`
/// (the earliest representable instant when that lies further back).
pub open spec fn retention_start(now: i64, days: u64) -> int {
    if now - days * 86400 < i64::MIN {
        i64::MIN as int
    } else {
        now - days * 86400
    }
}

/// Computes `retention_start`.
pub fn retention_cutoff(now: i64, days: u64) -> (r: i64)
    ensures
        r == retention_start(now, days),
{
    let span: i128 = days as i128 * 86400;
    let start: i128 = now as i128 - span;
    if start < i64::MIN as i128 {
        i64::MIN
    } else {
        start as i64
    }
}

} // verus!
