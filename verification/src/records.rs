//! The records the service keeps: research threads, their requests, submissions,
//! read-only chat captures and the daemon descriptor.
use crate::config::{clone_opt_string, composition, config_ok, Config, ConfigView};
use crate::json::{Json, JsonView};
use crate::links::{id_seed, seed_of, ChatReference};
use crate::text::{blank, count_words, is_blank, lemma_word_count_bound, same_text};
use vstd::prelude::*;
use vstd::utf8::encode_utf8;

verus! {

/// Lifecycle of one prompt submission.
#[derive(Clone, Copy, Debug, PartialEq, Eq, Structural)]
pub enum JobState {
    Queued,
    Pacing,
    Preparing,
    Submitting,
    Waiting,
    TimedOut,
    CancelRequested,
    SubmissionUnknown,
    NeedsAttention,
    Completed,
    Failed,
    Cancelled,
}

/// The name a state is stored and reported under.
pub open spec fn job_state_name(s: JobState) -> Seq<char> {
    match s {
        JobState::Queued => "queued"@,
        JobState::Pacing => "pacing"@,
        JobState::Preparing => "preparing"@,
        JobState::Submitting => "submitting"@,
        JobState::Waiting => "waiting"@,
        JobState::TimedOut => "timed_out"@,
        JobState::CancelRequested => "cancel_requested"@,
        JobState::SubmissionUnknown => "submission_unknown"@,
        JobState::NeedsAttention => "needs_attention"@,
        JobState::Completed => "completed"@,
        JobState::Failed => "failed"@,
        JobState::Cancelled => "cancelled"@,
    }
}

impl JobState {
    /// Completed, failed or cancelled: nothing further happens to the request.
    pub open spec fn is_terminal(self) -> bool {
        self is Completed || self is Failed || self is Cancelled
    }

    /// A started request that owns the single browser slot.
    pub open spec fn holds_slot(self) -> bool {
        !self.is_terminal() && !(self is Queued)
    }

    /// A submission whose delivery could not be established; new work waits for it.
    pub open spec fn is_unresolved(self) -> bool {
        self is SubmissionUnknown || self is NeedsAttention
    }

    /// States in which the prompt has certainly not reached ChatGPT.
    pub open spec fn is_unsent(self) -> bool {
        self is Queued || self is Pacing || self is Preparing
    }

    pub fn terminal(&self) -> (r: bool)
        ensures
            r == self.is_terminal(),
    {
        matches!(self, JobState::Completed | JobState::Failed | JobState::Cancelled)
    }

    pub fn unsent(&self) -> (r: bool)
        ensures
            r == self.is_unsent(),
    {
        matches!(self, JobState::Queued | JobState::Pacing | JobState::Preparing)
    }

    pub fn unresolved(&self) -> (r: bool)
        ensures
            r == self.is_unresolved(),
    {
        matches!(self, JobState::SubmissionUnknown | JobState::NeedsAttention)
    }

    pub fn slot(&self) -> (r: bool)
        ensures
            r == self.holds_slot(),
    {
        !self.terminal() && !matches!(self, JobState::Queued)
    }

    /// The stored name of the state.
    pub fn name(&self) -> (r: &'static str)
        ensures
            r@ == job_state_name(*self),
    {
        match self {
            JobState::Queued => "queued",
            JobState::Pacing => "pacing",
            JobState::Preparing => "preparing",
            JobState::Submitting => "submitting",
            JobState::Waiting => "waiting",
            JobState::TimedOut => "timed_out",
            JobState::CancelRequested => "cancel_requested",
            JobState::SubmissionUnknown => "submission_unknown",
            JobState::NeedsAttention => "needs_attention",
            JobState::Completed => "completed",
            JobState::Failed => "failed",
            JobState::Cancelled => "cancelled",
        }
    }

    /// The state stored under `name`, if any.
    pub fn from_name(name: &str) -> (r: Option<JobState>)
        ensures
            match r {
                Some(s) => job_state_name(s) == name@,
                None => forall|s: JobState| job_state_name(s) != name@,
            },
    {
        if same_text(name, "queued") {
            Some(JobState::Queued)
        } else if same_text(name, "pacing") {
            Some(JobState::Pacing)
        } else if same_text(name, "preparing") {
            Some(JobState::Preparing)
        } else if same_text(name, "submitting") {
            Some(JobState::Submitting)
        } else if same_text(name, "waiting") {
            Some(JobState::Waiting)
        } else if same_text(name, "timed_out") {
            Some(JobState::TimedOut)
        } else if same_text(name, "cancel_requested") {
            Some(JobState::CancelRequested)
        } else if same_text(name, "submission_unknown") {
            Some(JobState::SubmissionUnknown)
        } else if same_text(name, "needs_attention") {
            Some(JobState::NeedsAttention)
        } else if same_text(name, "completed") {
            Some(JobState::Completed)
        } else if same_text(name, "failed") {
            Some(JobState::Failed)
        } else if same_text(name, "cancelled") {
            Some(JobState::Cancelled)
        } else {
            None
        }
    }
}

/// Lifecycle of a research thread: active, then archived locally and deleted remotely.
#[derive(Clone, Copy, Debug, PartialEq, Eq, Structural)]
pub enum ThreadState {
    Active,
    ArchivePending,
    Archived,
    DeletionPending,
    RemoteDeleted,
}

pub open spec fn thread_state_name(s: ThreadState) -> Seq<char> {
    match s {
        ThreadState::Active => "active"@,
        ThreadState::ArchivePending => "archive_pending"@,
        ThreadState::Archived => "archived"@,
        ThreadState::DeletionPending => "deletion_pending"@,
        ThreadState::RemoteDeleted => "remote_deleted"@,
    }
}

impl ThreadState {
    pub fn name(&self) -> (r: &'static str)
        ensures
            r@ == thread_state_name(*self),
    {
        match self {
            ThreadState::Active => "active",
            ThreadState::ArchivePending => "archive_pending",
            ThreadState::Archived => "archived",
            ThreadState::DeletionPending => "deletion_pending",
            ThreadState::RemoteDeleted => "remote_deleted",
        }
    }

    pub fn from_name(name: &str) -> (r: Option<ThreadState>)
        ensures
            match r {
                Some(s) => thread_state_name(s) == name@,
                None => forall|s: ThreadState| thread_state_name(s) != name@,
            },
    {
        if same_text(name, "active") {
            Some(ThreadState::Active)
        } else if same_text(name, "archive_pending") {
            Some(ThreadState::ArchivePending)
        } else if same_text(name, "archived") {
            Some(ThreadState::Archived)
        } else if same_text(name, "deletion_pending") {
            Some(ThreadState::DeletionPending)
        } else if same_text(name, "remote_deleted") {
            Some(ThreadState::RemoteDeleted)
        } else {
            None
        }
    }
}

/// A cleanup attempt count that is not written out (zero).
pub fn zero_u32(value: &u32) -> (r: bool)
    ensures
        r == (*value == 0),
{
    *value == 0
}

/// A retry time that is not written out (zero).
pub fn zero_i64(value: &i64) -> (r: bool)
    ensures
        r == (*value == 0),
{
    *value == 0
}

/// One managed ChatGPT conversation.
pub struct Thread {
    pub chatgpt_project_url: Option<String>,
    pub id: String,
    pub project: String,
    pub session: String,
    pub title: String,
    pub deep_research: bool,
    pub url: Option<String>,
    pub target: Option<String>,
    pub created_at: i64,
    pub active_at: i64,
    pub prompts: u32,
    pub state: ThreadState,
    pub cleanup_error: Option<String>,
    pub cleanup_attempts: u32,
    pub cleanup_retry_at: i64,
}

impl Clone for Thread {
    fn clone(&self) -> (r: Self)
        ensures
            r == *self,
    {
        Thread {
            chatgpt_project_url: clone_opt_string(&self.chatgpt_project_url),
            id: self.id.clone(),
            project: self.project.clone(),
            session: self.session.clone(),
            title: self.title.clone(),
            deep_research: self.deep_research,
            url: clone_opt_string(&self.url),
            target: clone_opt_string(&self.target),
            created_at: self.created_at,
            active_at: self.active_at,
            prompts: self.prompts,
            state: self.state,
            cleanup_error: clone_opt_string(&self.cleanup_error),
            cleanup_attempts: self.cleanup_attempts,
            cleanup_retry_at: self.cleanup_retry_at,
        }
    }
}

/// Seconds of inactivity after which a thread retires: `inactivity_hours`, plus a per-thread
/// offset in `0..=(inactivity_max_hours - inactivity_hours) * 3600` drawn from its id.
pub open spec fn inactivity_window(id: Seq<char>, c: ConfigView) -> int {
    let span: int = if c.inactivity_max_hours > c.inactivity_hours {
        (c.inactivity_max_hours - c.inactivity_hours) * 3600
    } else {
        0
    };
    c.inactivity_hours * 3600 + (id_seed(id) as int) % (span + 1)
}

/// The first instant at which the thread counts as expired.
pub open spec fn inactivity_deadline(t: Thread, c: ConfigView) -> int {
    t.active_at + inactivity_window(t.id@, c)
}

/// Computes `inactivity_window` for a validated configuration.
pub fn inactivity_window_of(id: &str, config: &Config) -> (r: i64)
    requires
        config_ok(config@),
    ensures
        r == inactivity_window(id@, config@),
        0 <= r <= 8760 * 3600,
{
    let span: u128 = if config.inactivity_max_hours > config.inactivity_hours {
        ((config.inactivity_max_hours - config.inactivity_hours) * 3600) as u128
    } else {
        0
    };
    let offset: u128 = seed_of(id) % (span + 1);
    assert(offset <= span);
    (config.inactivity_hours * 3600 + offset as u64) as i64
}

impl Thread {
    /// When this thread stops accepting follow-ups under `config`.
    pub fn inactivity_deadline(&self, config: &Config) -> (r: i64)
        requires
            config_ok(config@),
            inactivity_deadline(*self, config@) <= i64::MAX,
        ensures
            r == inactivity_deadline(*self, config@),
    {
        self.active_at + inactivity_window_of(self.id.as_str(), config)
    }
}

/// One prompt in a thread, with the configuration captured when it was admitted.
pub struct Job {
    pub id: String,
    pub thread_id: String,
    pub key: String,
    pub session: String,
    pub new_thread: bool,
    pub prompt: String,
    pub config: Config,
    pub state: JobState,
    pub created_at: i64,
    pub send_after: Option<i64>,
    pub submitted_at: Option<i64>,
    pub baseline: Option<usize>,
    pub selection: Option<Json>,
    pub response: Option<Json>,
    pub error: Option<String>,
}

pub open spec fn opt_json_view(o: Option<Json>) -> Option<JsonView> {
    match o {
        Some(j) => Some(j@),
        None => None,
    }
}

/// `Job` with its configuration and payloads as values.
pub struct JobView {
    pub id: String,
    pub thread_id: String,
    pub key: String,
    pub session: String,
    pub new_thread: bool,
    pub prompt: String,
    pub config: ConfigView,
    pub state: JobState,
    pub created_at: i64,
    pub send_after: Option<i64>,
    pub submitted_at: Option<i64>,
    pub baseline: Option<usize>,
    pub selection: Option<JsonView>,
    pub response: Option<JsonView>,
    pub error: Option<String>,
}

impl View for Job {
    type V = JobView;

    open spec fn view(&self) -> JobView {
        JobView {
            id: self.id,
            thread_id: self.thread_id,
            key: self.key,
            session: self.session,
            new_thread: self.new_thread,
            prompt: self.prompt,
            config: self.config@,
            state: self.state,
            created_at: self.created_at,
            send_after: self.send_after,
            submitted_at: self.submitted_at,
            baseline: self.baseline,
            selection: opt_json_view(self.selection),
            response: opt_json_view(self.response),
            error: self.error,
        }
    }
}

pub fn clone_opt_json(o: &Option<Json>) -> (r: Option<Json>)
    ensures
        opt_json_view(r) == opt_json_view(*o),
{
    match o {
        Some(j) => Some(j.duplicate()),
        None => None,
    }
}

impl Clone for Job {
    fn clone(&self) -> (r: Self)
        ensures
            r@ == self@,
    {
        Job {
            id: self.id.clone(),
            thread_id: self.thread_id.clone(),
            key: self.key.clone(),
            session: self.session.clone(),
            new_thread: self.new_thread,
            prompt: self.prompt.clone(),
            config: self.config.clone(),
            state: self.state,
            created_at: self.created_at,
            send_after: self.send_after,
            submitted_at: self.submitted_at,
            baseline: self.baseline,
            selection: clone_opt_json(&self.selection),
            response: clone_opt_json(&self.response),
            error: clone_opt_string(&self.error),
        }
    }
}

/// Seconds a request waits before it is sent: its composition time plus a per-request extra
/// pause in `0..=pause_jitter_seconds` drawn from its id.
pub open spec fn pacing(j: JobView) -> int {
    composition(j.prompt@, j.config.words_per_minute, j.config.fixed_pause_seconds) + (id_seed(
        j.id@,
    ) as int) % (j.config.pause_jitter_seconds + 1)
}

impl Job {
    pub fn terminal(&self) -> (r: bool)
        ensures
            r == self.state.is_terminal(),
    {
        self.state.terminal()
    }

    /// `pacing` computed without overflow.
    pub fn pacing_exact(&self) -> (r: u128)
        requires
            self.config.words_per_minute > 0,
        ensures
            r == pacing(self@),
            r < 0x1_0000_0000_0000_0000_0000,
    {
        let words = count_words(self.prompt.as_str());
        proof {
            lemma_word_count_bound(self.prompt@);
        }
        let wpm: u128 = self.config.words_per_minute as u128;
        let typing: u128 = (words as u128 * 60 + wpm - 1) / wpm;
        assert(typing <= words as u128 * 60 + wpm);
        let jitter: u128 = seed_of(self.id.as_str()) % (self.config.pause_jitter_seconds as u128 + 1);
        typing + self.config.fixed_pause_seconds as u128 + jitter
    }

    /// Seconds between being claimed and being sent.
    pub fn pacing_seconds(&self) -> (r: u64)
        requires
            self.config.words_per_minute > 0,
            pacing(self@) <= u64::MAX,
        ensures
            r == pacing(self@),
    {
        self.pacing_exact() as u64
    }
}

/// A request to start a thread or add a follow-up to one.
pub struct Submit {
    pub project: String,
    pub session: String,
    pub key: String,
    pub thread_id: Option<String>,
    pub prompt: String,
    pub deep_research: bool,
}

impl Clone for Submit {
    fn clone(&self) -> (r: Self)
        ensures
            r == *self,
    {
        Submit {
            project: self.project.clone(),
            session: self.session.clone(),
            key: self.key.clone(),
            thread_id: clone_opt_string(&self.thread_id),
            prompt: self.prompt.clone(),
            deep_research: self.deep_research,
        }
    }
}

/// Why a submission was refused before anything was stored.
#[derive(Clone, Copy, Debug, PartialEq, Eq, Structural)]
pub enum SubmitError {
    PromptEmpty,
    PromptTooLong,
    Project,
    Session,
    Key,
}

/// The message reported for `e`.
pub open spec fn submit_error_text(e: SubmitError) -> Seq<char> {
    match e {
        SubmitError::PromptEmpty => "Prompt is empty"@,
        SubmitError::PromptTooLong => "Prompt exceeds 32000 bytes"@,
        SubmitError::Project => "Invalid project"@,
        SubmitError::Session => "Invalid session"@,
        SubmitError::Key => "Invalid idempotency key"@,
    }
}

impl SubmitError {
    pub fn message(&self) -> (r: String)
        ensures
            r@ == submit_error_text(*self),
    {
        match self {
            SubmitError::PromptEmpty => "Prompt is empty".to_owned(),
            SubmitError::PromptTooLong => "Prompt exceeds 32000 bytes".to_owned(),
            SubmitError::Project => "Invalid project".to_owned(),
            SubmitError::Session => "Invalid session".to_owned(),
            SubmitError::Key => "Invalid idempotency key".to_owned(),
        }
    }
}

/// Length in UTF-8 bytes, as `str::len` reports it.
pub open spec fn byte_len(s: Seq<char>) -> int {
    (encode_utf8(s).len() as usize) as int
}

/// The first rule that `s` breaks, in the order `validate` checks them.
pub open spec fn submit_error(s: Submit) -> Option<SubmitError> {
    if is_blank(s.prompt@) {
        Some(SubmitError::PromptEmpty)
    } else if byte_len(s.prompt@) > 32000 {
        Some(SubmitError::PromptTooLong)
    } else if s.project@.len() == 0 || byte_len(s.project@) > 4096 {
        Some(SubmitError::Project)
    } else if s.session@.len() == 0 || byte_len(s.session@) > 256 {
        Some(SubmitError::Session)
    } else if s.key@.len() == 0 || byte_len(s.key@) > 256 {
        Some(SubmitError::Key)
    } else {
        None
    }
}

impl Submit {
    /// Checks the prompt and the scope fields (lengths are in UTF-8 bytes).
    pub fn validate(&self) -> (r: Result<(), SubmitError>)
        ensures
            match submit_error(*self) {
                Some(e) => r == Err::<(), SubmitError>(e),
                None => r is Ok,
            },
    {
        if blank(self.prompt.as_str()) {
            return Err(SubmitError::PromptEmpty);
        }
        if self.prompt.as_str().len() > 32000 {
            return Err(SubmitError::PromptTooLong);
        }
        if self.project.as_str().is_empty() || self.project.as_str().len() > 4096 {
            return Err(SubmitError::Project);
        }
        if self.session.as_str().is_empty() || self.session.as_str().len() > 256 {
            return Err(SubmitError::Session);
        }
        if self.key.as_str().is_empty() || self.key.as_str().len() > 256 {
            return Err(SubmitError::Key);
        }
        Ok(())
    }
}

/// Progress of a read-only capture batch.
#[derive(Clone, Copy, Debug, PartialEq, Eq, Structural)]
pub enum ReadState {
    Queued,
    Reading,
    Completed,
    Cancelled,
}

pub open spec fn read_state_name(s: ReadState) -> Seq<char> {
    match s {
        ReadState::Queued => "queued"@,
        ReadState::Reading => "reading"@,
        ReadState::Completed => "completed"@,
        ReadState::Cancelled => "cancelled"@,
    }
}

impl ReadState {
    pub open spec fn is_terminal(self) -> bool {
        self is Completed || self is Cancelled
    }

    pub fn name(&self) -> (r: &'static str)
        ensures
            r@ == read_state_name(*self),
    {
        match self {
            ReadState::Queued => "queued",
            ReadState::Reading => "reading",
            ReadState::Completed => "completed",
            ReadState::Cancelled => "cancelled",
        }
    }

    pub fn from_name(name: &str) -> (r: Option<ReadState>)
        ensures
            match r {
                Some(s) => read_state_name(s) == name@,
                None => forall|s: ReadState| read_state_name(s) != name@,
            },
    {
        if same_text(name, "queued") {
            Some(ReadState::Queued)
        } else if same_text(name, "reading") {
            Some(ReadState::Reading)
        } else if same_text(name, "completed") {
            Some(ReadState::Completed)
        } else if same_text(name, "cancelled") {
            Some(ReadState::Cancelled)
        } else {
            None
        }
    }
}

/// A batch of existing conversations to capture without sending anything.
pub struct ReadRequest {
    pub id: String,
    pub project: String,
    pub session: String,
    pub key: String,
    pub chats: Vec<ChatReference>,
    pub state: ReadState,
    pub created_at: i64,
    pub updated_at: i64,
    pub results: Vec<Json>,
}

/// `ReadRequest` as a value.
pub struct ReadView {
    pub id: String,
    pub project: String,
    pub session: String,
    pub key: String,
    pub chats: Seq<ChatReference>,
    pub state: ReadState,
    pub created_at: i64,
    pub updated_at: i64,
    pub results: Seq<JsonView>,
}

impl View for ReadRequest {
    type V = ReadView;

    open spec fn view(&self) -> ReadView {
        ReadView {
            id: self.id,
            project: self.project,
            session: self.session,
            key: self.key,
            chats: self.chats@,
            state: self.state,
            created_at: self.created_at,
            updated_at: self.updated_at,
            results: Seq::new(self.results@.len(), |i: int| self.results@[i]@),
        }
    }
}

pub fn clone_chats(v: &Vec<ChatReference>) -> (r: Vec<ChatReference>)
    ensures
        r@ == v@,
{
    let mut r: Vec<ChatReference> = Vec::new();
    let mut i: usize = 0;
    while i < v.len()
        invariant
            i <= v@.len(),
            r@ == v@.take(i as int),
        decreases v@.len() - i,
    {
        r.push(v[i].clone());
        i = i + 1;
        assert(r@ =~= v@.take(i as int));
    }
    assert(r@ =~= v@);
    r
}

pub fn clone_results(v: &Vec<Json>) -> (r: Vec<Json>)
    ensures
        r@.len() == v@.len(),
        forall|i: int| 0 <= i < v@.len() ==> #[trigger] r@[i]@ == v@[i]@,
{
    let mut r: Vec<Json> = Vec::new();
    let mut i: usize = 0;
    while i < v.len()
        invariant
            i <= v@.len(),
            r@.len() == i,
            forall|k: int| 0 <= k < i ==> #[trigger] r@[k]@ == v@[k]@,
        decreases v@.len() - i,
    {
        r.push(v[i].duplicate());
        i = i + 1;
    }
    r
}

impl Clone for ReadRequest {
    fn clone(&self) -> (r: Self)
        ensures
            r@ == self@,
    {
        let r = ReadRequest {
            id: self.id.clone(),
            project: self.project.clone(),
            session: self.session.clone(),
            key: self.key.clone(),
            chats: clone_chats(&self.chats),
            state: self.state,
            created_at: self.created_at,
            updated_at: self.updated_at,
            results: clone_results(&self.results),
        };
        assert(r@.results =~= self@.results);
        r
    }
}

impl ReadRequest {
    pub fn terminal(&self) -> (r: bool)
        ensures
            r == self.state.is_terminal(),
    {
        matches!(self.state, ReadState::Completed | ReadState::Cancelled)
    }
}

/// What the daemon publishes so that clients can reach it.
pub struct ServiceDescriptor {
    pub protocol: u32,
    pub port: u16,
    pub token: String,
    pub instance: String,
    pub pid: u32,
}

impl Clone for ServiceDescriptor {
    fn clone(&self) -> (r: Self)
        ensures
            r == *self,
    {
        ServiceDescriptor {
            protocol: self.protocol,
            port: self.port,
            token: self.token.clone(),
            instance: self.instance.clone(),
            pid: self.pid,
        }
    }
}

} // verus!
