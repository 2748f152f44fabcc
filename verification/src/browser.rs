//! Decisions about the research Chrome instance: how it is launched, which DevTools
//! endpoints and tabs the service may use, and when an idle browser is shut down.
use crate::json::{field, text_of, Json, JsonView};
use crate::links::{chat_url_ok, parse_url, url_parse, valid_chat_url};
use crate::text::{chars_equal, chars_of, decimal, decimal_string, has_prefix, same_text, starts_with};
use vstd::prelude::*;

verus! {

broadcast use vstd::std_specs::vec::group_vec_axioms;

/// The texts of a list of strings.
pub open spec fn texts(v: Seq<String>) -> Seq<Seq<char>> {
    Seq::new(v.len(), |i: int| v[i]@)
}

/// The command line given to Chrome: an isolated profile, a loopback DevTools port, a
/// minimised off-screen window and the one-use ownership marker page. No automation switch.
pub open spec fn launch_line(profile: Seq<char>, port: u16, marker: Seq<char>) -> Seq<Seq<char>> {
    seq![
        "--user-data-dir="@ + profile,
        "--remote-debugging-port="@ + decimal(port as nat),
        "--remote-debugging-address=127.0.0.1"@,
        "--no-first-run"@,
        "--no-default-browser-check"@,
        "--start-minimized"@,
        "--window-position=-2000,-2000"@,
        marker,
    ]
}

fn joined(prefix: &str, rest: &str) -> (r: String)
    ensures
        r@ == prefix@ + rest@,
{
    let mut s = prefix.to_owned();
    s.append(rest);
    s
}

/// The arguments with which the research Chrome is started.
pub fn launch_arguments(profile: &str, port: u16, marker: &str) -> (r: Vec<String>)
    ensures
        texts(r@) == launch_line(profile@, port, marker@),
{
    let port_text = decimal_string(port as u64);
    let mut r: Vec<String> = Vec::new();
    r.push(joined("--user-data-dir=", profile));
    r.push(joined("--remote-debugging-port=", port_text.as_str()));
    r.push("--remote-debugging-address=127.0.0.1".to_owned());
    r.push("--no-first-run".to_owned());
    r.push("--no-default-browser-check".to_owned());
    r.push("--start-minimized".to_owned());
    r.push("--window-position=-2000,-2000".to_owned());
    r.push(marker.to_owned());
    assert(texts(r@) =~= launch_line(profile@, port, marker@));
    r
}

/// A DevTools websocket on the loopback interface.
pub open spec fn loopback_ok(websocket: Seq<char>) -> bool {
    match parse_url(websocket) {
        Ok(u) => u.scheme == "ws"@ && u.host == Some("127.0.0.1"@),
        Err(_) => false,
    }
}

/// Whether a page may be driven through `websocket`: only loopback `ws:` endpoints are.
pub fn loopback_endpoint(websocket: &str) -> (r: bool)
    ensures
        r == loopback_ok(websocket@),
{
    match url_parse(websocket) {
        Ok(u) => same_text(u.scheme.as_str(), "ws") && match &u.host {
            Some(h) => same_text(h.as_str(), "127.0.0.1"),
            None => false,
        },
        Err(_) => false,
    }
}

/// A recorded browser endpoint that can only belong to the Chrome this service launched on
/// `port`: loopback `ws:` on that port, under `/devtools/browser/`.
pub open spec fn saved_endpoint_ok(websocket: Seq<char>, port: u16) -> bool {
    match parse_url(websocket) {
        Ok(u) => u.scheme == "ws"@ && u.host == Some("127.0.0.1"@) && u.port == Some(port)
            && has_prefix(u.path, "/devtools/browser/"@),
        Err(_) => false,
    }
}

/// Decides `saved_endpoint_ok`.
pub fn saved_endpoint(websocket: &str, port: u16) -> (r: bool)
    ensures
        r == saved_endpoint_ok(websocket@, port),
{
    match url_parse(websocket) {
        Ok(u) => {
            let host_ok = match &u.host {
                Some(h) => same_text(h.as_str(), "127.0.0.1"),
                None => false,
            };
            same_text(u.scheme.as_str(), "ws") && host_ok && u.port == Some(port) && starts_with(
                &chars_of(u.path.as_str()),
                &chars_of("/devtools/browser/"),
            )
        },
        Err(_) => false,
    }
}

/// Whether a tab may be opened at `url`: a blank page or the ChatGPT origin.
pub open spec fn openable_url(url: Seq<char>) -> bool {
    url == "about:blank"@ || chat_url_ok(url)
}

/// Decides `openable_url`.
pub fn openable(url: &str) -> (r: bool)
    ensures
        r == openable_url(url@),
{
    same_text(url, "about:blank") || valid_chat_url(url)
}

/// An ASCII letter or digit.
pub open spec fn ascii_alphanumeric(c: char) -> bool {
    ('a' <= c && c <= 'z') || ('A' <= c && c <= 'Z') || ('0' <= c && c <= '9')
}

/// A DevTools target id that can be placed in a URL path: letters, digits and '-'.
pub open spec fn target_id_ok(id: Seq<char>) -> bool {
    forall|i: int| 0 <= i < id.len() ==> ascii_alphanumeric(#[trigger] id[i]) || id[i] == '-'
}

/// Decides `target_id_ok`.
pub fn valid_target_id(id: &str) -> (r: bool)
    ensures
        r == target_id_ok(id@),
{
    let chars = chars_of(id);
    let mut i: usize = 0;
    while i < chars.len()
        invariant
            i <= chars@.len(),
            chars@ == id@,
            forall|j: int| 0 <= j < i ==> ascii_alphanumeric(#[trigger] chars@[j]) || chars@[j]
                == '-',
        decreases chars@.len() - i,
    {
        let c = chars[i];
        if !(('a' <= c && c <= 'z') || ('A' <= c && c <= 'Z') || ('0' <= c && c <= '9') || c
            == '-') {
            return false;
        }
        i = i + 1;
    }
    true
}

/// The path prefix Windows puts before canonical ("verbatim") paths.
pub open spec fn verbatim_prefix() -> Seq<char> {
    seq!['\\', '\\', '?', '\\']
}

/// `s` with every leading verbatim prefix removed (`trim_start_matches(r"\\?\")`).
pub open spec fn without_verbatim(s: Seq<char>) -> Seq<char>
    decreases s.len(),
{
    if has_prefix(s, verbatim_prefix()) {
        without_verbatim(s.skip(4))
    } else {
        s
    }
}

/// Removes leading verbatim prefixes from a path, as Chrome expects ordinary paths.
pub fn strip_verbatim(path: &str) -> (r: Vec<char>)
    ensures
        r@ == without_verbatim(path@),
{
    let chars = chars_of(path);
    let mut i: usize = 0;
    assert(chars@.skip(0) =~= chars@);
    while chars.len() - i >= 4 && chars[i] == '\\' && chars[i + 1] == '\\' && chars[i + 2] == '?'
        && chars[i + 3] == '\\'
        invariant
            i <= chars@.len(),
            chars@ == path@,
            without_verbatim(chars@.skip(i as int)) == without_verbatim(path@),
        decreases chars@.len() - i,
    {
        let ghost s = chars@.skip(i as int);
        assert(s.take(4) =~= verbatim_prefix());
        assert(s.skip(4) =~= chars@.skip(i + 4));
        i = i + 4;
    }
    let ghost s = chars@.skip(i as int);
    if chars.len() - i >= 4 {
        assert(!has_prefix(s, verbatim_prefix())) by {
            if has_prefix(s, verbatim_prefix()) {
                assert(s.take(4)[0] == chars@[i as int]);
                assert(s.take(4)[1] == chars@[i + 1]);
                assert(s.take(4)[2] == chars@[i + 2]);
                assert(s.take(4)[3] == chars@[i + 3]);
            }
        }
    }
    let mut r: Vec<char> = Vec::new();
    let mut j: usize = i;
    while j < chars.len()
        invariant
            i <= j <= chars@.len(),
            r@ == chars@.subrange(i as int, j as int),
        decreases chars@.len() - j,
    {
        r.push(chars[j]);
        j = j + 1;
    }
    assert(r@ =~= s);
    r
}

/// Whether the profile recorded for a running browser is the profile directory this service
/// uses: the recorded text must equal the canonical path with its verbatim prefixes removed.
pub fn profile_matches(recorded: &str, canonical: &str) -> (r: bool)
    ensures
        r == (recorded@ == without_verbatim(canonical@)),
{
    let expected = strip_verbatim(canonical);
    chars_equal(&chars_of(recorded), &expected)
}

/// Records a window id seen while minimising; returns it when it was not seen before (each
/// window is minimised once, however many of its tabs are listed).
pub fn remember_window(seen: &mut Vec<i64>, window: Option<i64>) -> (r: Option<i64>)
    ensures
        r == (match window {
            Some(w) => if old(seen)@.contains(w) {
                None
            } else {
                Some(w)
            },
            None => None,
        }),
        final(seen)@ == (match r {
            Some(w) => old(seen)@.push(w),
            None => old(seen)@,
        }),
{
    match window {
        Some(w) => {
            let mut i: usize = 0;
            while i < seen.len()
                invariant
                    i <= seen@.len(),
                    seen@ == old(seen)@,
                    window == Some(w),
                    forall|j: int| 0 <= j < i ==> seen@[j] != w,
                decreases seen@.len() - i,
            {
                if seen[i] == w {
                    assert(old(seen)@[i as int] == w);
                    assert(old(seen)@.contains(w));
                    return None;
                }
                i = i + 1;
            }
            assert(!old(seen)@.contains(w));
            seen.push(w);
            Some(w)
        },
        None => None,
    }
}

/// Whether some listed DevTools target shows the launch marker page: proof that the
/// listener on the chosen port is the Chrome this service just started.
pub open spec fn marker_shown(targets: Seq<JsonView>, marker: Seq<char>) -> bool {
    exists|i: int| 0 <= i < targets.len() && field(#[trigger] targets[i], "url"@) == JsonView::Text(marker)
}

/// Decides `marker_shown`.
pub fn marker_present(targets: &Vec<Json>, marker: &str) -> (r: bool)
    ensures
        r == marker_shown(crate::json::views(targets@), marker@),
{
    let ghost s = crate::json::views(targets@);
    let mut i: usize = 0;
    while i < targets.len()
        invariant
            i <= targets@.len(),
            s == crate::json::views(targets@),
            forall|j: int| 0 <= j < i ==> field(#[trigger] s[j], "url"@) != JsonView::Text(marker@),
        decreases targets@.len() - i,
    {
        if targets[i].field_is_text("url", marker) {
            assert(s[i as int] == targets@[i as int]@);
            return true;
        }
        i = i + 1;
    }
    false
}

/// The part of a URL before its first '?' (what `split('?').next()` yields).
pub open spec fn before_query(s: Seq<char>) -> Seq<char>
    decreases s.len(),
{
    if s.len() == 0 {
        s
    } else if s[0] == '?' {
        Seq::empty()
    } else {
        seq![s[0]] + before_query(s.drop_first())
    }
}

fn before_query_of(s: &Vec<char>) -> (r: Vec<char>)
    ensures
        r@ == before_query(s@),
{
    let mut i: usize = 0;
    assert(s@.skip(0) =~= s@);
    while i < s.len() && s[i] != '?'
        invariant
            i <= s@.len(),
            before_query(s@) == s@.take(i as int) + before_query(s@.skip(i as int)),
        decreases s@.len() - i,
    {
        let ghost t = s@.skip(i as int);
        assert(t[0] == s@[i as int]);
        assert(t.drop_first() =~= s@.skip(i + 1));
        assert(s@.take(i + 1) =~= s@.take(i as int) + seq![s@[i as int]]);
        i = i + 1;
    }
    let ghost t = s@.skip(i as int);
    assert(before_query(t) =~= Seq::<char>::empty()) by {
        if t.len() > 0 {
            assert(t[0] == s@[i as int]);
        }
    }
    let mut r: Vec<char> = Vec::new();
    let mut j: usize = 0;
    while j < i
        invariant
            j <= i <= s@.len(),
            r@ == s@.take(j as int),
        decreases i - j,
    {
        r.push(s[j]);
        assert(s@.take(j + 1) =~= s@.take(j as int).push(s@[j as int]));
        j = j + 1;
    }
    assert(r@ =~= before_query(s@));
    r
}

/// A listed DevTools target that is the owned tab `target`: a page whose id is `target`
/// (as serde_json compares `entry["id"].as_str()` with it).
pub open spec fn owned_tab(e: JsonView, target: Option<Seq<char>>) -> bool {
    text_of(field(e, "id"@)) == target && field(e, "type"@) == JsonView::Text("page"@)
}

/// `i` is the first listed owned tab.
pub open spec fn first_owned(s: Seq<JsonView>, target: Option<Seq<char>>, i: int) -> bool {
    &&& 0 <= i < s.len()
    &&& owned_tab(s[i], target)
    &&& forall|j: int| 0 <= j < i ==> !owned_tab(#[trigger] s[j], target)
}

/// Why an owned tab may not be reused.
#[derive(Clone, Copy, Debug, PartialEq, Eq, Structural)]
pub enum TabError {
    /// The tab was navigated away from ChatGPT.
    LeftChatGpt,
    /// The tab shows another conversation than the one the thread owns.
    ConversationChanged,
}

/// The message reported for `e`.
pub open spec fn tab_error_text(e: TabError) -> Seq<char> {
    match e {
        TabError::LeftChatGpt => "Owned tab was navigated away from ChatGPT"@,
        TabError::ConversationChanged => "Owned conversation changed"@,
    }
}

impl TabError {
    pub fn message(&self) -> (r: String)
        ensures
            r@ == tab_error_text(*self),
    {
        match self {
            TabError::LeftChatGpt => "Owned tab was navigated away from ChatGPT".to_owned(),
            TabError::ConversationChanged => "Owned conversation changed".to_owned(),
        }
    }
}

/// What to do to get back to a thread's tab.
pub enum TabChoice {
    /// Attach to the listed target at this index.
    Attach(usize),
    /// The tab is gone: open a new background tab at this URL.
    Open(String),
    /// The tab exists but may not be used.
    Refuse(TabError),
}

/// Spec-level `TabChoice`.
pub enum TabPlan {
    Attach(int),
    Open(Seq<char>),
    Refuse(TabError),
}

/// The value of a `TabChoice`.
pub open spec fn tab_choice_view(c: TabChoice) -> TabPlan {
    match c {
        TabChoice::Attach(i) => TabPlan::Attach(i as int),
        TabChoice::Open(u) => TabPlan::Open(u@),
        TabChoice::Refuse(e) => TabPlan::Refuse(e),
    }
}

/// Reconnecting to the owned tab `target` among the listed `targets`: its URL must still be
/// on ChatGPT and, when the thread knows its conversation `url`, show that conversation
/// (query ignored); without such a tab a new one is opened at `url` or the ChatGPT home.
pub open spec fn tab_plan(s: Seq<JsonView>, target: Option<Seq<char>>, url: Option<Seq<char>>) -> TabPlan {
    if exists|i: int| first_owned(s, target, i) {
        let i = choose|i: int| first_owned(s, target, i);
        let current = match text_of(field(s[i], "url"@)) {
            Some(c) => c,
            None => Seq::empty(),
        };
        if !chat_url_ok(current) {
            TabPlan::Refuse(TabError::LeftChatGpt)
        } else if url is Some && before_query(current) != url->0 {
            TabPlan::Refuse(TabError::ConversationChanged)
        } else {
            TabPlan::Attach(i)
        }
    } else {
        TabPlan::Open(
            match url {
                Some(u) => u,
                None => "https://chatgpt.com/"@,
            },
        )
    }
}

fn owned_at(entry: &Json, target: Option<&str>) -> (r: bool)
    ensures
        r == owned_tab(entry@, match target {
            Some(t) => Some(t@),
            None => None,
        }),
{
    let id_ok = match (entry.field_text("id"), target) {
        (Some(a), Some(b)) => same_text(a.as_str(), b),
        (None, None) => true,
        _ => false,
    };
    id_ok && entry.field_is_text("type", "page")
}

/// Decides how to get back to the owned tab (`tab_plan`).
pub fn choose_tab(targets: &Vec<Json>, target: Option<&str>, url: Option<&str>) -> (r: TabChoice)
    ensures
        tab_choice_view(r) == tab_plan(
            crate::json::views(targets@),
            match target {
                Some(t) => Some(t@),
                None => None,
            },
            match url {
                Some(u) => Some(u@),
                None => None,
            },
        ),
{
    let ghost s = crate::json::views(targets@);
    let ghost tv: Option<Seq<char>> = match target {
        Some(t) => Some(t@),
        None => None,
    };
    let ghost uv: Option<Seq<char>> = match url {
        Some(u) => Some(u@),
        None => None,
    };
    let mut i: usize = 0;
    while i < targets.len()
        invariant
            i <= targets@.len(),
            s == crate::json::views(targets@),
            tv == (match target {
                Some(t) => Some(t@),
                None => None::<Seq<char>>,
            }),
            forall|j: int| 0 <= j < i ==> !owned_tab(#[trigger] s[j], tv),
        decreases targets@.len() - i,
    {
        if owned_at(&targets[i], target) {
            assert(s[i as int] == targets@[i as int]@);
            assert(first_owned(s, tv, i as int));
            assert forall|k: int| first_owned(s, tv, k) implies k == i as int by {
                if k < i {
                    assert(!owned_tab(s[k], tv));
                } else if k > i {
                    assert(!owned_tab(s[i as int], tv));
                }
            }
            let current: Vec<char> = match targets[i].field_text("url") {
                Some(c) => chars_of(c.as_str()),
                None => Vec::new(),
            };
            let current_text = crate::text::string_of(&current);
            if !valid_chat_url(current_text.as_str()) {
                return TabChoice::Refuse(TabError::LeftChatGpt);
            }
            if let Some(expected) = url {
                let head = before_query_of(&current);
                if !crate::text::chars_equal(&head, &chars_of(expected)) {
                    return TabChoice::Refuse(TabError::ConversationChanged);
                }
            }
            return TabChoice::Attach(i);
        }
        i = i + 1;
    }
    assert(!exists|k: int| first_owned(s, tv, k));
    match url {
        Some(u) => TabChoice::Open(u.to_owned()),
        None => TabChoice::Open("https://chatgpt.com/".to_owned()),
    }
}

/// Whether the browser has been idle for the configured time: the activity file's age is
/// known and at least `timeout_minutes` minutes.
pub open spec fn idle_for(elapsed: Option<u64>, timeout_minutes: u64) -> bool {
    match elapsed {
        Some(e) => e >= timeout_minutes * 60,
        None => false,
    }
}

/// Decides `idle_for`.
pub fn is_idle(elapsed: Option<u64>, timeout_minutes: u64) -> (r: bool)
    ensures
        r == idle_for(elapsed, timeout_minutes),
{
    match elapsed {
        Some(e) => match timeout_minutes.checked_mul(60) {
            Some(limit) => e >= limit,
            None => false,
        },
        None => false,
    }
}

/// The first decision of an idle check, made without launching Chrome or touching its
/// activity clock unless the clock is missing.
#[derive(Clone, Copy, Debug, PartialEq, Eq, Structural)]
pub enum IdleStep {
    /// Automatic closing is switched off.
    Disabled,
    /// No activity clock yet: start one now, so an upgraded install gets a full interval.
    StartClock,
    /// Used recently: leave it running.
    Busy,
    /// Idle long enough: go on to close it (the idle time is checked again after locking).
    Close,
}

/// The idle decision for the recorded activity.
pub open spec fn idle_plan(auto_close: bool, clock_exists: bool, elapsed: Option<u64>, timeout_minutes: u64) -> IdleStep {
    if !auto_close {
        IdleStep::Disabled
    } else if !clock_exists {
        IdleStep::StartClock
    } else if !idle_for(elapsed, timeout_minutes) {
        IdleStep::Busy
    } else {
        IdleStep::Close
    }
}

/// Decides `idle_plan`.
pub fn idle_step(auto_close: bool, clock_exists: bool, elapsed: Option<u64>, timeout_minutes: u64) -> (r: IdleStep)
    ensures
        r == idle_plan(auto_close, clock_exists, elapsed, timeout_minutes),
{
    if !auto_close {
        IdleStep::Disabled
    } else if !clock_exists {
        IdleStep::StartClock
    } else if !is_idle(elapsed, timeout_minutes) {
        IdleStep::Busy
    } else {
        IdleStep::Close
    }
}

/// What a DevTools message means to a command waiting for the reply numbered `id`.
pub enum Reply {
    /// The reply, carrying its `result` (null when absent).
    Done(Json),
    /// The reply reports an error.
    Failed(Json),
    /// An event or a reply to another command.
    Unrelated,
}

/// Spec-level `Reply`.
pub enum ReplyView {
    Done(JsonView),
    Failed(JsonView),
    Unrelated,
}

pub open spec fn reply_view(r: Reply) -> ReplyView {
    match r {
        Reply::Done(v) => ReplyView::Done(v@),
        Reply::Failed(e) => ReplyView::Failed(e@),
        Reply::Unrelated => ReplyView::Unrelated,
    }
}

/// The member `key` of an object, when present (serde_json's `get`).
pub open spec fn member(v: JsonView, key: Seq<char>) -> Option<JsonView> {
    match v {
        JsonView::Object(m) => crate::json::member_of(m, key),
        _ => None,
    }
}

/// A message answers command `id` when its `id` is that unsigned integer; it failed when it
/// carries an `error` member.
pub open spec fn reply_to(message: JsonView, id: u64) -> ReplyView {
    if field(message, "id"@) != JsonView::Number(decimal(id as nat)) {
        ReplyView::Unrelated
    } else {
        match member(message, "error"@) {
            Some(e) => ReplyView::Failed(e),
            None => ReplyView::Done(field(message, "result"@)),
        }
    }
}

/// Classifies a DevTools message for the command numbered `id`.
pub fn classify_reply(message: &Json, id: u64) -> (r: Reply)
    ensures
        reply_view(r) == reply_to(message@, id),
{
    let number = decimal_string(id);
    let matches = match message.get("id") {
        Some(Json::Number(n)) => same_text(n.as_str(), number.as_str()),
        _ => false,
    };
    if !matches {
        return Reply::Unrelated;
    }
    match message.get("error") {
        Some(e) => Reply::Failed(e.duplicate()),
        None => match message.get("result") {
            Some(v) => Reply::Done(v.duplicate()),
            None => Reply::Done(Json::Null),
        },
    }
}

/// What a `Runtime.evaluate` reply yields: the script's value, or the exception details when
/// the script threw.
pub open spec fn evaluation(reply: JsonView) -> Result<JsonView, JsonView> {
    match member(reply, "exceptionDetails"@) {
        Some(d) => Err(d),
        None => Ok(field(field(reply, "result"@), "value"@)),
    }
}

/// Reads the outcome of a `Runtime.evaluate` reply (`evaluation`).
pub fn eval_outcome(reply: &Json) -> (r: Result<Json, Json>)
    ensures
        match r {
            Ok(v) => evaluation(reply@) == Ok::<JsonView, JsonView>(v@),
            Err(d) => evaluation(reply@) == Err::<JsonView, JsonView>(d@),
        },
{
    match reply.get("exceptionDetails") {
        Some(d) => Err(d.duplicate()),
        None => match reply.get("result") {
            Some(result) => match result.get("value") {
                Some(v) => Ok(v.duplicate()),
                None => Ok(Json::Null),
            },
            None => Ok(Json::Null),
        },
    }
}

/// The state of a browser window as DevTools reports it, or "unknown".
pub open spec fn window_state_text(window: JsonView) -> Seq<char> {
    match text_of(field(field(window, "bounds"@), "windowState"@)) {
        Some(s) => s,
        None => "unknown"@,
    }
}

/// Reads `window_state_text`.
pub fn window_state_of(window: &Json) -> (r: String)
    ensures
        r@ == window_state_text(window@),
{
    let state = match window.get("bounds") {
        Some(b) => b.field_text("windowState"),
        None => None,
    };
    match state {
        Some(s) => s.clone(),
        None => "unknown".to_owned(),
    }
}

} // verus!
