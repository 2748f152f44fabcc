//! The decisions behind the local JSON-RPC endpoint: who may call it, which operation a
//! request names, and how waiting, listing and paging answer.
use crate::config::PROMPT_LIMIT;
use crate::json::{field, items_of, text_of, unsigned_of, views, Json, JsonView};
use crate::links::{chat_reference, fault_of, ChatReference, ReferenceError, ReferenceFault};
use crate::records::{Job, JobState, ReadRequest, ReadState, ServiceDescriptor, Thread, ThreadState};
use crate::text::{chars_of, decimal, decimal_string, has_prefix, same_text, starts_with, string_of};
use vstd::prelude::*;

verus! {

broadcast use vstd::std_specs::vec::group_vec_axioms;

/// A caller is admitted only with the daemon's bearer token, the exact loopback `Host`, and no
/// `Origin` header (so no web page can reach the endpoint).
pub open spec fn admitted(
    authorization: Option<Seq<char>>,
    host: Option<Seq<char>>,
    has_origin: bool,
    token: Seq<char>,
    port: u16,
) -> bool {
    &&& authorization == Some("Bearer "@ + token)
    &&& host == Some("127.0.0.1:"@ + decimal(port as nat))
    &&& !has_origin
}

/// Decides `admitted` for the request headers (a header that is not visible ASCII is absent).
pub fn authorized(
    authorization: Option<&str>,
    host: Option<&str>,
    has_origin: bool,
    descriptor: &ServiceDescriptor,
) -> (r: bool)
    ensures
        r == admitted(
            match authorization {
                Some(a) => Some(a@),
                None => None,
            },
            match host {
                Some(h) => Some(h@),
                None => None,
            },
            has_origin,
            descriptor.token@,
            descriptor.port,
        ),
{
    let mut expected_auth = "Bearer ".to_owned();
    expected_auth.append(descriptor.token.as_str());
    let mut expected_host = "127.0.0.1:".to_owned();
    let port = decimal_string(descriptor.port as u64);
    expected_host.append(port.as_str());
    let auth_ok = match authorization {
        Some(a) => same_text(a, expected_auth.as_str()),
        None => false,
    };
    let host_ok = match host {
        Some(h) => same_text(h, expected_host.as_str()),
        None => false,
    };
    auth_ok && host_ok && !has_origin
}

/// The operations of the endpoint. Requests about read batches (ids starting `read-`) have
/// operations of their own.
#[derive(Clone, Copy, Debug, PartialEq, Eq, Structural)]
pub enum Operation {
    Health,
    Submit,
    ReadChats,
    Get,
    Wait,
    List,
    Archive,
    Resume,
    Cancel,
    Reconcile,
    Retire,
    Shutdown,
    ReadGet,
    ReadWait,
    ReadCancel,
    ReadContent,
}

/// Why a request was refused before any work.
pub enum ApiError {
    /// A required string member is absent; carries its name.
    Missing(String),
    UnknownOperation,
    /// `chats` is not an array.
    MissingChats,
    /// Not between one and ten chats.
    ChatCount,
    /// A chat reference that is not a string.
    ChatNotText,
    /// A chat reference that does not name a ChatGPT conversation.
    BadChat(ReferenceError),
    MissingChatIndex,
    /// No captured result at that index (yet).
    ResultNotReady,
    /// The capture at that index failed; carries its `error` member.
    ReadFailed(Json),
    OffsetTooLarge,
}

/// The message reported for `e`.
pub open spec fn api_error_text(e: ApiError) -> Seq<char> {
    match e {
        ApiError::Missing(name) => "Missing "@ + name@,
        ApiError::UnknownOperation => "Unknown research operation"@,
        ApiError::MissingChats => "Missing chats array"@,
        ApiError::ChatCount => "Supply 1–10 chats per read request"@,
        ApiError::ChatNotText => "Chat references must be strings"@,
        ApiError::BadChat(e) => crate::links::reference_error_text(e),
        ApiError::MissingChatIndex => "Missing chat_index"@,
        ApiError::ResultNotReady => "Chat result not ready or index out of range"@,
        ApiError::ReadFailed(_) => "Chat read failed"@,
        ApiError::OffsetTooLarge => "Offset exceeds transcript length"@,
    }
}

impl ApiError {
    pub fn message(&self) -> (r: String)
        ensures
            r@ == api_error_text(*self),
    {
        match self {
            ApiError::Missing(name) => {
                let mut m = "Missing ".to_owned();
                m.append(name.as_str());
                m
            },
            ApiError::UnknownOperation => "Unknown research operation".to_owned(),
            ApiError::MissingChats => "Missing chats array".to_owned(),
            ApiError::ChatCount => "Supply 1–10 chats per read request".to_owned(),
            ApiError::ChatNotText => "Chat references must be strings".to_owned(),
            ApiError::BadChat(e) => e.message(),
            ApiError::MissingChatIndex => "Missing chat_index".to_owned(),
            ApiError::ResultNotReady => "Chat result not ready or index out of range".to_owned(),
            ApiError::ReadFailed(_) => "Chat read failed".to_owned(),
            ApiError::OffsetTooLarge => "Offset exceeds transcript length".to_owned(),
        }
    }
}

/// Spec-level refusal of a request: `Missing` carries the member's name.
pub enum Refusal {
    Missing(Seq<char>),
    UnknownOperation,
    MissingChats,
    ChatCount,
    ChatNotText,
    BadChat(ReferenceFault),
    MissingChatIndex,
    ResultNotReady,
    ReadFailed(JsonView),
    OffsetTooLarge,
}

pub open spec fn refusal(e: ApiError) -> Refusal {
    match e {
        ApiError::Missing(n) => Refusal::Missing(n@),
        ApiError::UnknownOperation => Refusal::UnknownOperation,
        ApiError::MissingChats => Refusal::MissingChats,
        ApiError::ChatCount => Refusal::ChatCount,
        ApiError::ChatNotText => Refusal::ChatNotText,
        ApiError::BadChat(r) => Refusal::BadChat(fault_of(r)),
        ApiError::MissingChatIndex => Refusal::MissingChatIndex,
        ApiError::ResultNotReady => Refusal::ResultNotReady,
        ApiError::ReadFailed(j) => Refusal::ReadFailed(j@),
        ApiError::OffsetTooLarge => Refusal::OffsetTooLarge,
    }
}

/// The string member `name` of a request, or the refusal naming it.
pub open spec fn required(input: JsonView, name: Seq<char>) -> Result<Seq<char>, Refusal> {
    match text_of(field(input, name)) {
        Some(s) => Ok(s),
        None => Err(Refusal::Missing(name)),
    }
}

/// Reads the string member `name` of a request (`required`).
pub fn required_text(input: &Json, name: &str) -> (r: Result<String, ApiError>)
    ensures
        match r {
            Ok(s) => required(input@, name@) == Ok::<Seq<char>, Refusal>(s@),
            Err(e) => required(input@, name@) == Err::<Seq<char>, Refusal>(refusal(e)),
        },
{
    match input.field_text(name) {
        Some(s) => Ok(s.clone()),
        None => Err(ApiError::Missing(name.to_owned())),
    }
}

/// The operation named by `op` for a request that is not about a read batch.
pub open spec fn plain_operation(op: Seq<char>) -> Option<Operation> {
    if op == "health"@ {
        Some(Operation::Health)
    } else if op == "submit"@ {
        Some(Operation::Submit)
    } else if op == "read_chats"@ {
        Some(Operation::ReadChats)
    } else if op == "get"@ {
        Some(Operation::Get)
    } else if op == "wait"@ {
        Some(Operation::Wait)
    } else if op == "list"@ {
        Some(Operation::List)
    } else if op == "archive"@ {
        Some(Operation::Archive)
    } else if op == "resume"@ {
        Some(Operation::Resume)
    } else if op == "cancel"@ {
        Some(Operation::Cancel)
    } else if op == "reconcile"@ {
        Some(Operation::Reconcile)
    } else if op == "retire"@ {
        Some(Operation::Retire)
    } else if op == "shutdown"@ {
        Some(Operation::Shutdown)
    } else {
        None
    }
}

/// The operation named by `op` for a request about a read batch, if it has one.
pub open spec fn read_operation(op: Seq<char>) -> Option<Operation> {
    if op == "get"@ {
        Some(Operation::ReadGet)
    } else if op == "wait"@ {
        Some(Operation::ReadWait)
    } else if op == "cancel"@ {
        Some(Operation::ReadCancel)
    } else if op == "read_content"@ {
        Some(Operation::ReadContent)
    } else {
        None
    }
}

/// Routing of a request: `get`, `wait`, `cancel` and `read_content` need an `id`, and go to
/// the read batch when it starts `read-`; everything else by the name of `op`.
pub open spec fn route(input: JsonView) -> Result<Operation, Refusal> {
    match required(input, "op"@) {
        Err(e) => Err(e),
        Ok(op) => {
            let plain = match plain_operation(op) {
                Some(o) => Ok(o),
                None => Err(Refusal::UnknownOperation),
            };
            match read_operation(op) {
                Some(o) => match required(input, "id"@) {
                    Err(e) => Err(e),
                    Ok(id) => if has_prefix(id, "read-"@) {
                        Ok(o)
                    } else {
                        plain
                    },
                },
                None => plain,
            }
        },
    }
}

fn plain_op(op: &str) -> (r: Option<Operation>)
    ensures
        r == plain_operation(op@),
{
    if same_text(op, "health") {
        Some(Operation::Health)
    } else if same_text(op, "submit") {
        Some(Operation::Submit)
    } else if same_text(op, "read_chats") {
        Some(Operation::ReadChats)
    } else if same_text(op, "get") {
        Some(Operation::Get)
    } else if same_text(op, "wait") {
        Some(Operation::Wait)
    } else if same_text(op, "list") {
        Some(Operation::List)
    } else if same_text(op, "archive") {
        Some(Operation::Archive)
    } else if same_text(op, "resume") {
        Some(Operation::Resume)
    } else if same_text(op, "cancel") {
        Some(Operation::Cancel)
    } else if same_text(op, "reconcile") {
        Some(Operation::Reconcile)
    } else if same_text(op, "retire") {
        Some(Operation::Retire)
    } else if same_text(op, "shutdown") {
        Some(Operation::Shutdown)
    } else {
        None
    }
}

fn read_op(op: &str) -> (r: Option<Operation>)
    ensures
        r == read_operation(op@),
{
    if same_text(op, "get") {
        Some(Operation::ReadGet)
    } else if same_text(op, "wait") {
        Some(Operation::ReadWait)
    } else if same_text(op, "cancel") {
        Some(Operation::ReadCancel)
    } else if same_text(op, "read_content") {
        Some(Operation::ReadContent)
    } else {
        None
    }
}

/// Routes a request (`route`).
pub fn operation(input: &Json) -> (r: Result<Operation, ApiError>)
    ensures
        match r {
            Ok(o) => route(input@) == Ok::<Operation, Refusal>(o),
            Err(e) => route(input@) == Err::<Operation, Refusal>(refusal(e)),
        },
{
    let op = match required_text(input, "op") {
        Ok(op) => op,
        Err(e) => return Err(e),
    };
    let plain = match plain_op(op.as_str()) {
        Some(o) => Ok(o),
        None => Err(ApiError::UnknownOperation),
    };
    match read_op(op.as_str()) {
        Some(o) => {
            let id = match required_text(input, "id") {
                Ok(id) => id,
                Err(e) => return Err(e),
            };
            if starts_with(&chars_of(id.as_str()), &chars_of("read-")) {
                Ok(o)
            } else {
                plain
            }
        },
        None => plain,
    }
}

/// `seconds.unwrap_or(default).clamp(1, 60)`: how long a `wait` may block.
pub open spec fn wait_limit(seconds: Option<u64>, default: u64) -> u64 {
    let s = match seconds {
        Some(s) => s,
        None => default,
    };
    if s < 1 {
        1
    } else if s > 60 {
        60
    } else {
        s
    }
}

/// Computes `wait_limit` from the request's `seconds` member.
pub fn wait_seconds(input: &Json, default: u64) -> (r: u64)
    ensures
        r == wait_limit(unsigned_of(field(input@, "seconds"@)), default),
{
    let seconds = match input.get("seconds") {
        Some(v) => v.as_u64(),
        None => None,
    };
    let s = match seconds {
        Some(s) => s,
        None => default,
    };
    if s < 1 {
        1
    } else if s > 60 {
        60
    } else {
        s
    }
}

/// Prompts a thread may still take.
pub fn remaining_prompts(prompts: u32) -> (r: u32)
    ensures
        r == (if prompts >= PROMPT_LIMIT {
            0
        } else {
            PROMPT_LIMIT - prompts
        }),
{
    if prompts >= PROMPT_LIMIT {
        0
    } else {
        PROMPT_LIMIT - prompts
    }
}

/// A `wait` on a request blocks only while it can still change by itself: not finished and
/// not stopped for a person to look at.
pub open spec fn worth_waiting(s: JobState) -> bool {
    !s.is_terminal() && !s.is_unresolved()
}

/// Decides `worth_waiting` for a request.
pub fn should_wait(job: &Job) -> (r: bool)
    ensures
        r == worth_waiting(job.state),
{
    !job.state.terminal() && !job.state.unresolved()
}

/// A `wait` on a request ends when its state changed, it finished, or time ran out.
pub fn wait_over(initial: JobState, current: &Job, deadline_passed: bool) -> (r: bool)
    ensures
        r == (current.state != initial || current.state.is_terminal() || deadline_passed),
{
    current.state != initial || current.state.terminal() || deadline_passed
}

/// A `wait` on a read batch ends when it finished, changed state, gained a result, or time
/// ran out.
pub fn read_wait_over(initial: ReadState, results: usize, current: &ReadRequest, deadline_passed: bool) -> (r: bool)
    ensures
        r == (current.state.is_terminal() || current.state != initial || current.results@.len()
            != results || deadline_passed),
{
    current.terminal() || current.state != initial || current.results.len() != results
        || deadline_passed
}

/// Which projects `list` covers: all of them when `all_projects` is `true`, else the
/// required `project`.
pub open spec fn list_scope(input: JsonView) -> Result<Option<Seq<char>>, Refusal> {
    if field(input, "all_projects"@) == JsonView::Bool(true) {
        Ok(None)
    } else {
        match required(input, "project"@) {
            Ok(p) => Ok(Some(p)),
            Err(e) => Err(e),
        }
    }
}

/// Reads `list_scope`.
pub fn listed_projects(input: &Json) -> (r: Result<Option<String>, ApiError>)
    ensures
        match r {
            Ok(p) => list_scope(input@) == Ok::<Option<Seq<char>>, Refusal>(match p {
                Some(s) => Some(s@),
                None => None,
            }),
            Err(e) => list_scope(input@) == Err::<Option<Seq<char>>, Refusal>(refusal(e)),
        },
{
    if input.field_is_bool("all_projects", true) {
        Ok(None)
    } else {
        match required_text(input, "project") {
            Ok(p) => Ok(Some(p)),
            Err(e) => Err(e),
        }
    }
}

/// Whether `list` shows a thread: active threads normally, all others when `archived`.
pub open spec fn shown(t: Thread, archived: bool) -> bool {
    if archived {
        !(t.state is Active)
    } else {
        t.state is Active
    }
}

/// The threads `list` shows, in order.
pub open spec fn shown_threads(s: Seq<Thread>, archived: bool) -> Seq<Thread>
    decreases s.len(),
{
    if s.len() == 0 {
        s
    } else {
        let init = shown_threads(s.drop_last(), archived);
        if shown(s.last(), archived) {
            init.push(s.last())
        } else {
            init
        }
    }
}

/// Keeps the threads that `list` shows (`shown_threads`).
pub fn visible_threads(threads: Vec<Thread>, archived: bool) -> (r: Vec<Thread>)
    ensures
        r@ == shown_threads(threads@, archived),
{
    let mut r: Vec<Thread> = Vec::new();
    let mut i: usize = 0;
    while i < threads.len()
        invariant
            i <= threads@.len(),
            r@ == shown_threads(threads@.take(i as int), archived),
        decreases threads@.len() - i,
    {
        let t = &threads[i];
        assert(threads@.take(i + 1).drop_last() =~= threads@.take(i as int));
        let active = matches!(t.state, ThreadState::Active);
        if (archived && !active) || (!archived && active) {
            r.push(t.clone());
        }
        i = i + 1;
    }
    assert(threads@.take(threads@.len() as int) =~= threads@);
    r
}

/// A chat reference as the pair (canonical id, URL).
pub open spec fn chat_pair(c: ChatReference) -> (Seq<char>, Seq<char>) {
    (c.id@, c.url@)
}

/// The reading of one entry of `chats`.
pub open spec fn chat_entry(v: JsonView) -> Result<(Seq<char>, Seq<char>), Refusal> {
    match text_of(v) {
        None => Err(Refusal::ChatNotText),
        Some(t) => match chat_reference(t) {
            Ok(c) => Ok(c),
            Err(e) => Err(Refusal::BadChat(e)),
        },
    }
}

/// The readings of `chats` in order, stopping at the first refused entry.
pub open spec fn chat_entries(s: Seq<JsonView>) -> Result<Seq<(Seq<char>, Seq<char>)>, Refusal>
    decreases s.len(),
{
    if s.len() == 0 {
        Ok(Seq::empty())
    } else {
        match chat_entries(s.drop_last()) {
            Err(e) => Err(e),
            Ok(prev) => match chat_entry(s.last()) {
                Err(e) => Err(e),
                Ok(c) => Ok(prev.push(c)),
            },
        }
    }
}

/// The chats a `read_chats` request names: an array of one to ten conversation references.
pub open spec fn requested_chats(input: JsonView) -> Result<Seq<(Seq<char>, Seq<char>)>, Refusal> {
    match items_of(field(input, "chats"@)) {
        None => Err(Refusal::MissingChats),
        Some(items) => if !(1 <= items.len() <= 10) {
            Err(Refusal::ChatCount)
        } else {
            chat_entries(items)
        },
    }
}

/// Reads the chats of a `read_chats` request (`requested_chats`).
pub fn chat_list(input: &Json) -> (r: Result<Vec<ChatReference>, ApiError>)
    ensures
        match r {
            Ok(v) => requested_chats(input@) == Ok::<Seq<(Seq<char>, Seq<char>)>, Refusal>(
                v@.map_values(|c: ChatReference| chat_pair(c)),
            ),
            Err(e) => requested_chats(input@) == Err::<Seq<(Seq<char>, Seq<char>)>, Refusal>(
                refusal(e),
            ),
        },
{
    let items = match input.field_items("chats") {
        Some(items) => items,
        None => return Err(ApiError::MissingChats),
    };
    let ghost s = views(items@);
    if items.len() < 1 || items.len() > 10 {
        return Err(ApiError::ChatCount);
    }
    let mut r: Vec<ChatReference> = Vec::new();
    let mut i: usize = 0;
    assert(s.take(0) =~= Seq::<JsonView>::empty());
    assert(r@.map_values(|c: ChatReference| chat_pair(c)) =~= Seq::<(Seq<char>, Seq<char>)>::empty());
    while i < items.len()
        invariant
            i <= items@.len(),
            s == views(items@),
            items_of(field(input@, "chats"@)) == Some(s),
            1 <= s.len() <= 10,
            chat_entries(s.take(i as int)) == Ok::<Seq<(Seq<char>, Seq<char>)>, Refusal>(
                r@.map_values(|c: ChatReference| chat_pair(c)),
            ),
        decreases items@.len() - i,
    {
        assert(s.take(i + 1).drop_last() =~= s.take(i as int));
        assert(s.take(i + 1).last() == items@[i as int]@);
        let text = match &items[i] {
            Json::Text(t) => t,
            _ => {
                assert(!(items@[i as int]@ is Text));
                assert(chat_entry(s.take(i + 1).last()) == Err::<(Seq<char>, Seq<char>), Refusal>(Refusal::ChatNotText));
                proof { lemma_entries_stop(s, i as int + 1); }
                return Err(ApiError::ChatNotText);
            },
        };
        assert(items@[i as int]@ == JsonView::Text(text@));
        match ChatReference::parse(text.as_str()) {
            Ok(c) => {
                let ghost prev = r@.map_values(|c: ChatReference| chat_pair(c));
                assert(chat_reference(text@) matches Ok(p) && p == chat_pair(c));
                assert(chat_entry(s.take(i + 1).last()) == Ok::<(Seq<char>, Seq<char>), Refusal>(chat_pair(c)));
                r.push(c);
                assert(r@.map_values(|c: ChatReference| chat_pair(c)) =~= prev.push(chat_pair(c)));
                assert(chat_entries(s.take(i + 1)) == Ok::<Seq<(Seq<char>, Seq<char>)>, Refusal>(prev.push(chat_pair(c))));
            },
            Err(e) => {
                proof { lemma_entries_stop(s, i as int + 1); }
                return Err(ApiError::BadChat(e));
            },
        }
        i = i + 1;
    }
    assert(s.take(items@.len() as int) =~= s);
    Ok(r)
}

/// Once a prefix of `chats` is refused, so is the whole list, with the same refusal.
pub proof fn lemma_entries_stop(s: Seq<JsonView>, k: int)
    requires
        0 <= k <= s.len(),
        chat_entries(s.take(k)) is Err,
    ensures
        chat_entries(s) == chat_entries(s.take(k)),
    decreases s.len() - k,
{
    if k == s.len() {
        assert(s.take(k) =~= s);
    } else {
        assert(s.take(k + 1).drop_last() =~= s.take(k));
        lemma_entries_stop(s, k + 1);
    }
}

/// One page of a captured transcript.
pub struct ContentPage {
    pub chat_index: usize,
    pub offset: usize,
    pub total_chars: usize,
    pub next_offset: Option<usize>,
    pub markdown: String,
}

/// The page length asked for: `limit.unwrap_or(20000).clamp(1, 64000)`.
pub open spec fn page_limit(limit: Option<u64>) -> int {
    let l = match limit {
        Some(l) => l as int,
        None => 20000,
    };
    if l < 1 {
        1
    } else if l > 64000 {
        64000
    } else {
        l
    }
}

/// `read_content`: the `chat_index`-th captured result's markdown, from character `offset`
/// (default 0) for at most `page_limit` characters; refused when the index is missing or
/// not ready, the capture failed, or the offset lies past the end.
pub open spec fn content_page(input: JsonView, results: Seq<JsonView>) -> Result<
    (int, int, int, Option<int>, Seq<char>),
    Refusal,
> {
    match unsigned_of(field(input, "chat_index"@)) {
        None => Err(Refusal::MissingChatIndex),
        Some(index) => if index >= results.len() {
            Err(Refusal::ResultNotReady)
        } else {
            let result = results[index as int];
            match text_of(field(result, "markdown"@)) {
                None => Err(Refusal::ReadFailed(field(result, "error"@))),
                Some(md) => {
                    let offset: int = match unsigned_of(field(input, "offset"@)) {
                        Some(o) => o as int,
                        None => 0,
                    };
                    let limit = page_limit(unsigned_of(field(input, "limit"@)));
                    let total = md.len() as int;
                    if offset > total {
                        Err(Refusal::OffsetTooLarge)
                    } else {
                        let end = if offset + limit < total {
                            offset + limit
                        } else {
                            total
                        };
                        Ok(
                            (
                                index as int,
                                offset,
                                total,
                                if end < total {
                                    Some(end)
                                } else {
                                    None
                                },
                                md.subrange(offset, end),
                            ),
                        )
                    }
                },
            }
        },
    }
}

fn member_u64(input: &Json, name: &str) -> (r: Option<u64>)
    ensures
        r == unsigned_of(field(input@, name@)),
{
    match input.get(name) {
        Some(v) => v.as_u64(),
        None => None,
    }
}

/// Answers `read_content` for a batch (`content_page`).
pub fn read_page(input: &Json, request: &ReadRequest) -> (r: Result<ContentPage, ApiError>)
    ensures
        match r {
            Ok(p) => content_page(input@, request@.results) == Ok::<
                (int, int, int, Option<int>, Seq<char>),
                Refusal,
            >(
                (
                    p.chat_index as int,
                    p.offset as int,
                    p.total_chars as int,
                    match p.next_offset {
                        Some(n) => Some(n as int),
                        None => None,
                    },
                    p.markdown@,
                ),
            ),
            Err(e) => content_page(input@, request@.results) == Err::<
                (int, int, int, Option<int>, Seq<char>),
                Refusal,
            >(refusal(e)),
        },
{
    let index = match member_u64(input, "chat_index") {
        Some(i) => i,
        None => return Err(ApiError::MissingChatIndex),
    };
    if index >= request.results.len() as u64 {
        return Err(ApiError::ResultNotReady);
    }
    let index = index as usize;
    let result = &request.results[index];
    assert(request@.results[index as int] == result@);
    let markdown = match result.field_text("markdown") {
        Some(m) => m,
        None => {
            let error = match result.get("error") {
                Some(e) => e.duplicate(),
                None => Json::Null,
            };
            return Err(ApiError::ReadFailed(error));
        },
    };
    let offset = match member_u64(input, "offset") {
        Some(o) => o,
        None => 0,
    };
    let limit: u64 = match member_u64(input, "limit") {
        Some(l) => if l < 1 {
            1
        } else if l > 64000 {
            64000
        } else {
            l
        },
        None => 20000,
    };
    let chars = chars_of(markdown.as_str());
    let total = chars.len();
    if offset > total as u64 {
        return Err(ApiError::OffsetTooLarge);
    }
    let offset = offset as usize;
    let end = if (offset as u128) + (limit as u128) < total as u128 {
        offset + limit as usize
    } else {
        total
    };
    let mut text: Vec<char> = Vec::new();
    let mut j: usize = offset;
    while j < end
        invariant
            offset <= j <= end <= chars@.len(),
            text@ == chars@.subrange(offset as int, j as int),
        decreases end - j,
    {
        text.push(chars[j]);
        j = j + 1;
    }
    Ok(
        ContentPage {
            chat_index: index,
            offset,
            total_chars: total,
            next_offset: if end < total {
                Some(end)
            } else {
                None
            },
            markdown: string_of(&text),
        },
    )
}

} // verus!
