//! Watching a submitted prompt: each look at the page decides whether the submission is
//! confirmed, which conversation the thread owns, whether the answer is complete and stable,
//! and when a request has run past its deadline. Nothing here ever resends a prompt.
use crate::json::{field, text_of, Json, JsonView};
use crate::links::{conversation_url, conversation_url_ok, opt_view};
use crate::observation::{
    answer_index, complete_answer, completion_candidate, response_after, turn_confirmed, turns_of,
    user_turn_confirmed, ObservationError,
};
use crate::records::{Job, JobState, JobView, Thread};
use crate::text::{chars_of, has_prefix, same_text, starts_with};
use vstd::prelude::*;

verus! {

/// Why observation stops with an error.
pub enum ObserveError {
    /// ChatGPT asks for a sign-in.
    NeedsLogin,
    /// The owned tab shows another conversation than the thread's.
    ConversationChanged,
    /// The new conversation left the configured project.
    ProjectMismatch,
    /// The request has no recorded turn count from before it was sent.
    MissingBaseline,
    /// The page shows something that cannot be attributed to the request.
    Answer(ObservationError),
    /// The user turn never appeared: delivery is unknown, and the prompt is not resent.
    SubmissionUnknown,
}

/// The message reported for `e`.
pub open spec fn observe_error_text(e: ObserveError) -> Seq<char> {
    match e {
        ObserveError::NeedsLogin => "needs_login: cannot observe submitted request"@,
        ObserveError::ConversationChanged => "Owned conversation changed while observing"@,
        ObserveError::ProjectMismatch => "project_mismatch: submitted conversation left the configured project"@,
        ObserveError::MissingBaseline => "Missing submission baseline"@,
        ObserveError::Answer(e) => crate::observation::observation_error_text(e),
        ObserveError::SubmissionUnknown => "submission_unknown: cannot confirm the user turn; no automatic resend"@,
    }
}

impl ObserveError {
    pub fn message(&self) -> (r: String)
        ensures
            r@ == observe_error_text(*self),
    {
        match self {
            ObserveError::NeedsLogin => "needs_login: cannot observe submitted request".to_owned(),
            ObserveError::ConversationChanged => "Owned conversation changed while observing".to_owned(),
            ObserveError::ProjectMismatch => "project_mismatch: submitted conversation left the configured project".to_owned(),
            ObserveError::MissingBaseline => "Missing submission baseline".to_owned(),
            ObserveError::Answer(e) => e.message(),
            ObserveError::SubmissionUnknown => "submission_unknown: cannot confirm the user turn; no automatic resend".to_owned(),
        }
    }
}

/// What follows one look at the page.
#[derive(Clone, Copy, Debug, PartialEq, Eq, Structural)]
pub enum Progress {
    /// The answer is complete and has not changed for five seconds.
    Complete,
    /// A requested cancellation has stopped generation.
    Stopped,
    /// Look again shortly.
    Poll,
    /// This observation window (twenty seconds) is over: return to the queue, come back later.
    Yield,
}

/// What the observer remembers between looks: the last answer text, since when it has been
/// unchanged, and when this observation window began (monotonic milliseconds).
pub struct ObserveMemory {
    pub stable_text: String,
    pub stable_since_ms: u64,
    pub window_start_ms: u64,
}

/// Milliseconds from `since` to `now` (zero if the clock reads earlier).
pub open spec fn elapsed_ms(now: u64, since: u64) -> int {
    if now >= since {
        now - since
    } else {
        0
    }
}

/// `p` without a trailing "/project".
pub open spec fn project_prefix(p: Seq<char>) -> Seq<char> {
    let suffix = "/project"@;
    if p.len() >= suffix.len() && p.subrange(p.len() - suffix.len(), p.len() as int) == suffix {
        p.subrange(0, p.len() - suffix.len())
    } else {
        p
    }
}

/// The conversation URL the thread adopts from a snapshot, if any; a thread that already owns
/// another conversation, or a project thread whose conversation left the project, is refused.
pub open spec fn adopted_url(thread: Thread, snapshot: JsonView) -> Result<Option<Seq<char>>, ObserveError> {
    match text_of(field(snapshot, "url"@)) {
        Some(u) => if conversation_url_ok(u) && opt_view(thread.url) != Some(u) {
            if thread.url is Some {
                Err(ObserveError::ConversationChanged)
            } else {
                match opt_view(thread.chatgpt_project_url) {
                    Some(p) => if has_prefix(u, project_prefix(p) + "/c/"@) {
                        Ok(Some(u))
                    } else {
                        Err(ObserveError::ProjectMismatch)
                    },
                    None => Ok(Some(u)),
                }
            }
        } else {
            Ok(None)
        },
        None => Ok(None),
    }
}

/// Seconds since the request was submitted (zero when it has no submission time).
pub open spec fn since_submitted(job: JobView, wall: i64) -> int {
    match job.submitted_at {
        Some(t) => wall - t,
        None => 0,
    }
}

/// The response deadline: Deep Research or Search timeout.
pub open spec fn deadline_seconds(job: JobView, deep: bool) -> int {
    if deep {
        job.config.deep_research_timeout_seconds as int
    } else {
        job.config.search_timeout_seconds as int
    }
}

/// The result of one look: the outcome, the request's new state and response, whether it was
/// marked as past its deadline, the thread's conversation URL, and the observer's memory.
pub struct Observed {
    pub outcome: Result<Progress, ObserveError>,
    pub state: JobState,
    pub response: Option<JsonView>,
    pub timed_out: bool,
    pub url: Option<Seq<char>>,
    pub stable_text: Seq<char>,
    pub stable_since_ms: u64,
}

/// The error recorded on a request past its deadline.
pub open spec fn timed_out_message() -> Seq<char> {
    "Response deadline exceeded; still observing this request, not resending"@
}

/// After the answer checks: the deadline (a late request is marked timed out but still
/// observed, unless it is being cancelled), then the observation window.
pub open spec fn after_checks(
    job: JobView,
    deep: bool,
    state: JobState,
    response: Option<JsonView>,
    url: Option<Seq<char>>,
    text: Seq<char>,
    since: u64,
    window_start: u64,
    wall: i64,
    mono: u64,
) -> Observed {
    let late = since_submitted(job, wall) > deadline_seconds(job, deep) && !(state is CancelRequested);
    Observed {
        outcome: Ok(
            if elapsed_ms(mono, window_start) > 20000 {
                Progress::Yield
            } else {
                Progress::Poll
            },
        ),
        state: if late {
            JobState::TimedOut
        } else {
            state
        },
        response,
        timed_out: late,
        url,
        stable_text: text,
        stable_since_ms: since,
    }
}

/// A look that ends with `e`, changing nothing but the recorded state and URL.
pub open spec fn failed_look(e: ObserveError, state: JobState, job: JobView, url: Option<Seq<char>>, text: Seq<char>, since: u64) -> Observed {
    Observed { outcome: Err(e), state, response: job.response, timed_out: false, url, stable_text: text, stable_since_ms: since }
}

/// One look at the page (`snapshot`), at wall-clock second `wall` and monotonic millisecond
/// `mono`, for request `job` in `thread`, remembering answer `text` unchanged since `since`.
pub open spec fn observe(
    job: JobView,
    thread: Thread,
    snapshot: JsonView,
    text: Seq<char>,
    since: u64,
    window_start: u64,
    wall: i64,
    mono: u64,
) -> Observed {
    let url0 = opt_view(thread.url);
    if field(snapshot, "login_required"@) == JsonView::Bool(true) {
        failed_look(ObserveError::NeedsLogin, job.state, job, url0, text, since)
    } else {
        match adopted_url(thread, snapshot) {
            Err(e) => failed_look(e, job.state, job, url0, text, since),
            Ok(adopt) => {
                let url1 = match adopt {
                    Some(u) => Some(u),
                    None => url0,
                };
                match job.baseline {
                    None => failed_look(ObserveError::MissingBaseline, job.state, job, url1, text, since),
                    Some(b) => if turn_confirmed(snapshot, b as int, job.prompt@) {
                        let state1 = if job.state is Submitting {
                            JobState::Waiting
                        } else {
                            job.state
                        };
                        match answer_index(snapshot, b as int, job.prompt@) {
                            Err(e) => failed_look(ObserveError::Answer(e), state1, job, url1, text, since),
                            Ok(None) => if state1 is CancelRequested && field(snapshot, "busy"@) != JsonView::Bool(true)
                                && elapsed_ms(mono, window_start) >= 5000 {
                                Observed { outcome: Ok(Progress::Stopped), state: state1, response: job.response, timed_out: false, url: url1, stable_text: text, stable_since_ms: since }
                            } else {
                                after_checks(job, thread.deep_research, state1, job.response, url1, text, since, window_start, wall, mono)
                            },
                            Ok(Some(k)) => {
                                let response = turns_of(snapshot)->0[k];
                                let t = match text_of(field(response, "markdown"@)) {
                                    Some(s) => s,
                                    None => Seq::empty(),
                                };
                                let since2: u64 = if t != text {
                                    mono
                                } else {
                                    since
                                };
                                if complete_answer(snapshot, response) && elapsed_ms(mono, since2) >= 5000 {
                                    Observed { outcome: Ok(Progress::Complete), state: state1, response: Some(response), timed_out: false, url: url1, stable_text: t, stable_since_ms: since2 }
                                } else if state1 is CancelRequested && field(snapshot, "busy"@) != JsonView::Bool(true)
                                    && elapsed_ms(mono, window_start) >= 5000 {
                                    Observed { outcome: Ok(Progress::Stopped), state: state1, response: Some(response), timed_out: false, url: url1, stable_text: t, stable_since_ms: since2 }
                                } else {
                                    after_checks(job, thread.deep_research, state1, Some(response), url1, t, since2, window_start, wall, mono)
                                }
                            },
                        }
                    } else if since_submitted(job, wall) > 60 {
                        failed_look(ObserveError::SubmissionUnknown, job.state, job, url1, text, since)
                    } else {
                        after_checks(job, thread.deep_research, job.state, job.response, url1, text, since, window_start, wall, mono)
                    },
                }
            },
        }
    }
}

fn project_prefix_of(p: &str) -> (r: Vec<char>)
    ensures
        r@ == project_prefix(p@),
{
    let chars = chars_of(p);
    let suffix = chars_of("/project");
    let n = chars.len();
    let m = suffix.len();
    if n >= m {
        let mut same = true;
        let mut i: usize = 0;
        while i < m
            invariant
                i <= m,
                m <= n,
                m == suffix@.len(),
                n == chars@.len(),
                same == (forall|k: int| 0 <= k < i ==> chars@[n - m + k] == suffix@[k]),
            decreases m - i,
        {
            if chars[n - m + i] != suffix[i] {
                same = false;
            }
            i = i + 1;
        }
        if same {
            assert(chars@.subrange(n - m, n as int) =~= suffix@);
            let mut r: Vec<char> = Vec::new();
            let mut j: usize = 0;
            while j < n - m
                invariant
                    j <= n - m,
                    n == chars@.len(),
                    r@ == chars@.subrange(0, j as int),
                decreases n - m - j,
            {
                r.push(chars[j]);
                j = j + 1;
            }
            return r;
        } else {
            assert(chars@.subrange(n - m, n as int) != suffix@) by {
                let k = choose|k: int| 0 <= k < m && chars@[n - m + k] != suffix@[k];
                assert(chars@.subrange(n - m, n as int)[k] != suffix@[k]);
            }
        }
    }
    chars
}

fn adopt_url(thread: &Thread, snapshot: &Json) -> (r: Result<Option<String>, ObserveError>)
    ensures
        match r {
            Ok(u) => adopted_url(*thread, snapshot@) == Ok::<Option<Seq<char>>, ObserveError>(opt_view(u)),
            Err(e) => adopted_url(*thread, snapshot@) == Err::<Option<Seq<char>>, ObserveError>(e),
        },
{
    let u = match snapshot.field_text("url") {
        Some(u) => u,
        None => return Ok(None),
    };
    if !conversation_url(u.as_str()) {
        return Ok(None);
    }
    let same = match &thread.url {
        Some(x) => same_text(x.as_str(), u.as_str()),
        None => false,
    };
    if same {
        return Ok(None);
    }
    if thread.url.is_some() {
        return Err(ObserveError::ConversationChanged);
    }
    match &thread.chatgpt_project_url {
        Some(p) => {
            let mut prefix = project_prefix_of(p.as_str());
            prefix.push('/');
            prefix.push('c');
            prefix.push('/');
            proof {
                reveal_strlit("/c/");
            }
            assert(prefix@ =~= project_prefix(p@) + "/c/"@);
            if starts_with(&chars_of(u.as_str()), &prefix) {
                Ok(Some(u.clone()))
            } else {
                Err(ObserveError::ProjectMismatch)
            }
        },
        None => Ok(Some(u.clone())),
    }
}

fn elapsed_of(now: u64, since: u64) -> (r: u64)
    ensures
        r == elapsed_ms(now, since),
{
    if now >= since {
        now - since
    } else {
        0
    }
}

fn submitted_for(job: &Job, wall: i64) -> (r: i128)
    ensures
        r == since_submitted(job@, wall),
{
    match job.submitted_at {
        Some(t) => wall as i128 - t as i128,
        None => 0,
    }
}

/// Takes one look at the page and applies it to the request, the thread and the observer's
/// memory (`observe`).
#[verifier::rlimit(40)]
pub fn look(job: &mut Job, thread: &mut Thread, memory: &mut ObserveMemory, snapshot: &Json, wall: i64, mono: u64) -> (r: Result<Progress, ObserveError>)
    ensures
        ({
            let o = observe(
                old(job)@,
                *old(thread),
                snapshot@,
                old(memory).stable_text@,
                old(memory).stable_since_ms,
                old(memory).window_start_ms,
                wall,
                mono,
            );
            &&& r == o.outcome
            &&& final(job)@ == (JobView { state: o.state, response: o.response, error: final(job)@.error, ..old(job)@ })
            &&& if o.timed_out {
                opt_view(final(job).error) == Some(timed_out_message())
            } else {
                final(job).error == old(job).error
            }
            &&& *final(thread) == (Thread { url: final(thread).url, ..*old(thread) })
            &&& opt_view(final(thread).url) == o.url
            &&& final(memory).stable_text@ == o.stable_text
            &&& final(memory).stable_since_ms == o.stable_since_ms
            &&& final(memory).window_start_ms == old(memory).window_start_ms
        }),
{
    if snapshot.field_is_bool("login_required", true) {
        return Err(ObserveError::NeedsLogin);
    }
    match adopt_url(thread, snapshot) {
        Err(e) => return Err(e),
        Ok(Some(u)) => {
            thread.url = Some(u);
        },
        Ok(None) => {},
    }
    let b = match job.baseline {
        Some(b) => b,
        None => return Err(ObserveError::MissingBaseline),
    };
    if user_turn_confirmed(snapshot, b, job.prompt.as_str()) {
        if matches!(job.state, JobState::Submitting) {
            job.state = JobState::Waiting;
        }
        match response_after(snapshot, b, job.prompt.as_str()) {
            Err(e) => return Err(ObserveError::Answer(e)),
            Ok(None) => {},
            Ok(Some(response)) => {
                let t = match response.field_text("markdown") {
                    Some(s) => s.clone(),
                    None => String::new(),
                };
                if !same_text(t.as_str(), memory.stable_text.as_str()) {
                    memory.stable_text = t;
                    memory.stable_since_ms = mono;
                }
                job.response = Some(response.duplicate());
                if completion_candidate(snapshot, response) && elapsed_of(mono, memory.stable_since_ms) >= 5000 {
                    return Ok(Progress::Complete);
                }
            },
        }
        if matches!(job.state, JobState::CancelRequested) && !snapshot.field_is_bool("busy", true)
            && elapsed_of(mono, memory.window_start_ms) >= 5000 {
            return Ok(Progress::Stopped);
        }
    } else if submitted_for(job, wall) > 60 {
        return Err(ObserveError::SubmissionUnknown);
    }
    let timeout: u64 = if thread.deep_research {
        job.config.deep_research_timeout_seconds
    } else {
        job.config.search_timeout_seconds
    };
    if submitted_for(job, wall) > timeout as i128 && !matches!(job.state, JobState::CancelRequested) {
        job.state = JobState::TimedOut;
        job.error = Some("Response deadline exceeded; still observing this request, not resending".to_owned());
    }
    if elapsed_of(mono, memory.window_start_ms) > 20000 {
        Ok(Progress::Yield)
    } else {
        Ok(Progress::Poll)
    }
}

/// Notes a cancellation requested while observing; returns whether the page's stop button
/// must be pressed.
pub fn note_cancel(job: &mut Job, stored: JobState) -> (r: bool)
    ensures
        r == (stored is CancelRequested),
        final(job)@ == (if r {
            JobView { state: JobState::CancelRequested, ..old(job)@ }
        } else {
            old(job)@
        }),
{
    if matches!(stored, JobState::CancelRequested) {
        job.state = JobState::CancelRequested;
        true
    } else {
        false
    }
}

/// How a complete answer ends the request: cancelled if a cancellation was requested, else
/// completed.
pub fn final_state(state: JobState) -> (r: JobState)
    ensures
        r == (if state is CancelRequested {
            JobState::Cancelled
        } else {
            JobState::Completed
        }),
{
    if matches!(state, JobState::CancelRequested) {
        JobState::Cancelled
    } else {
        JobState::Completed
    }
}

} // verus!
