//! Read-only capture batches: which chat is read next, how each outcome is recorded, and the
//! summary a client sees.
use crate::json::{field, items_of, member_of, text_of, Json, JsonView};
use crate::links::{chat_reference, fault_of, ChatReference, ReferenceError, ReferenceFault};
use crate::records::{read_state_name, ReadRequest, ReadState, ReadView};
use crate::text::{chars_of, decimal, decimal_string, same_text, signed_decimal, signed_decimal_string};
use vstd::prelude::*;

verus! {

broadcast use vstd::std_specs::vec::group_vec_axioms;

/// The values of object members.
pub open spec fn member_views(m: Seq<(String, Json)>) -> Seq<(Seq<char>, JsonView)> {
    Seq::new(m.len(), |i: int| (m[i].0@, m[i].1@))
}

/// The value of an object built from `m`.
pub proof fn lemma_object_view(m: Vec<(String, Json)>)
    ensures
        Json::Object(m)@ == JsonView::Object(member_views(m@)),
{
    assert(Json::Object(m)@->Object_0 =~= member_views(m@));
}

/// A JSON unsigned number.
pub open spec fn number(n: nat) -> JsonView {
    JsonView::Number(decimal(n))
}

fn number_json(n: u64) -> (r: Json)
    ensures
        r@ == number(n as nat),
{
    Json::Number(decimal_string(n))
}

fn signed_json(n: i64) -> (r: Json)
    ensures
        r@ == JsonView::Number(signed_decimal(n as int)),
{
    Json::Number(signed_decimal_string(n))
}

fn text_json(s: &str) -> (r: Json)
    ensures
        r@ == JsonView::Text(s@),
{
    Json::Text(s.to_owned())
}

impl ReadRequest {
    /// The chat to read next: the first one without a recorded result.
    pub fn pending_chat(&self) -> (r: Option<ChatReference>)
        ensures
            match r {
                Some(c) => self@.results.len() < self@.chats.len() && c == self@.chats[self@.results.len() as int],
                None => self@.results.len() >= self@.chats.len(),
            },
    {
        let n = self.results.len();
        if n < self.chats.len() {
            Some(self.chats[n].clone())
        } else {
            None
        }
    }

    /// Cancels a batch that has not finished; a finished one is left as it is.
    pub fn cancel(&mut self, at: i64)
        ensures
            if old(self)@.state.is_terminal() {
                final(self)@ == old(self)@
            } else {
                final(self)@ == (ReadView { state: ReadState::Cancelled, updated_at: at, ..old(self)@ })
            },
    {
        if !self.terminal() {
            self.state = ReadState::Cancelled;
            self.updated_at = at;
        }
    }

    /// Appends the outcome of reading the pending chat. The batch completes with its last
    /// result, unless it was cancelled meanwhile.
    pub fn record_result(&mut self, result: Json, at: i64)
        requires
            old(self)@.results.len() < old(self)@.chats.len(),
        ensures
            final(self)@ == (ReadView {
                results: old(self)@.results.push(result@),
                updated_at: at,
                state: if !(old(self)@.state is Cancelled) && old(self)@.results.len() + 1
                    == old(self)@.chats.len() {
                    ReadState::Completed
                } else {
                    old(self)@.state
                },
                ..old(self)@
            }),
    {
        let ghost before = self@;
        self.results.push(result);
        self.updated_at = at;
        if !matches!(self.state, ReadState::Cancelled) && self.results.len() == self.chats.len() {
            self.state = ReadState::Completed;
        }
        assert(self@.results =~= before.results.push(result@));
    }
}

/// Members that the summary recomputes or drops.
pub open spec fn replaced_key(k: Seq<char>) -> bool {
    k == "markdown"@ || k == "turns"@ || k == "total_chars"@ || k == "turn_count"@ || k
        == "chat_index"@
}

/// The members of a result that the summary keeps as they are, in order.
pub open spec fn kept_members(m: Seq<(Seq<char>, JsonView)>) -> Seq<(Seq<char>, JsonView)>
    decreases m.len(),
{
    if m.len() == 0 {
        m
    } else if replaced_key(m.last().0) {
        kept_members(m.drop_last())
    } else {
        kept_members(m.drop_last()).push(m.last())
    }
}

/// A result's entry in the batch summary: the bulky `markdown` and `turns` are replaced by
/// their sizes (`total_chars`, `turn_count`), and the entry records its `chat_index`.
pub open spec fn summary_members(m: Seq<(Seq<char>, JsonView)>, index: nat) -> Seq<(Seq<char>, JsonView)> {
    let chars: nat = match member_of(m, "markdown"@) {
        Some(JsonView::Text(s)) => s.len(),
        _ => 0,
    };
    let count: nat = match member_of(m, "turns"@) {
        Some(JsonView::Array(t)) => t.len(),
        _ => 0,
    };
    kept_members(m) + seq![
        ("total_chars"@, number(chars)),
        ("turn_count"@, number(count)),
        ("chat_index"@, number(index)),
    ]
}

/// The summary entry for the `index`-th result (results that are not objects stay as they are).
pub open spec fn summary_entry(result: JsonView, index: nat) -> JsonView {
    match result {
        JsonView::Object(m) => JsonView::Object(summary_members(m, index)),
        other => other,
    }
}

/// What a client sees of a batch.
pub open spec fn batch_summary(r: ReadView) -> JsonView {
    JsonView::Object(
        seq![
            ("id"@, JsonView::Text(r.id@)),
            ("kind"@, JsonView::Text("read_chats"@)),
            ("state"@, JsonView::Text(read_state_name(r.state))),
            ("created_at"@, JsonView::Number(signed_decimal(r.created_at as int))),
            ("chat_count"@, number(r.chats.len())),
            ("results"@, JsonView::Array(
                Seq::new(r.results.len(), |i: int| summary_entry(r.results[i], i as nat)),
            )),
        ],
    )
}

fn member_count(v: Option<&Json>) -> (r: u64)
    ensures
        r == (match v {
            Some(j) => match j@ {
                JsonView::Array(t) => t.len() as int,
                _ => 0,
            },
            None => 0,
        }),
{
    match v {
        Some(Json::Array(items)) => items.len() as u64,
        _ => 0,
    }
}

fn char_count(v: Option<&Json>) -> (r: u64)
    ensures
        r == (match v {
            Some(j) => match j@ {
                JsonView::Text(s) => s.len() as int,
                _ => 0,
            },
            None => 0,
        }),
{
    match v {
        Some(Json::Text(s)) => chars_of(s.as_str()).len() as u64,
        _ => 0,
    }
}

fn summary_of(result: &Json, index: usize) -> (r: Json)
    ensures
        r@ == summary_entry(result@, index as nat),
{
    let members = match result {
        Json::Object(members) => members,
        _ => return result.duplicate(),
    };
    proof {
        lemma_object_view(*members);
    }
    let ghost mv = member_views(members@);
    let mut kept: Vec<(String, Json)> = Vec::new();
    let mut i: usize = 0;
    while i < members.len()
        invariant
            i <= members@.len(),
            mv == member_views(members@),
            member_views(kept@) == kept_members(mv.take(i as int)),
        decreases members@.len() - i,
    {
        let (key, value) = &members[i];
        assert(mv.take(i + 1).drop_last() =~= mv.take(i as int));
        assert(mv.take(i + 1).last() == (key@, value@));
        let replaced = same_text(key.as_str(), "markdown") || same_text(key.as_str(), "turns")
            || same_text(key.as_str(), "total_chars") || same_text(key.as_str(), "turn_count")
            || same_text(key.as_str(), "chat_index");
        if !replaced {
            let ghost before = kept@;
            kept.push((key.clone(), value.duplicate()));
            assert(member_views(kept@) =~= member_views(before).push((key@, value@)));
        }
        i = i + 1;
    }
    assert(mv.take(members@.len() as int) =~= mv);
    let chars = char_count(result.get("markdown"));
    let count = member_count(result.get("turns"));
    let ghost before = kept@;
    kept.push(("total_chars".to_owned(), number_json(chars)));
    kept.push(("turn_count".to_owned(), number_json(count)));
    kept.push(("chat_index".to_owned(), number_json(index as u64)));
    assert(member_views(kept@) =~= member_views(before) + seq![
        ("total_chars"@, number(chars as nat)),
        ("turn_count"@, number(count as nat)),
        ("chat_index"@, number(index as nat)),
    ]);
    proof {
        lemma_object_view(kept);
    }
    Json::Object(kept)
}

impl ReadRequest {
    /// The batch as a client sees it (`batch_summary`).
    pub fn summary(&self) -> (r: Json)
        ensures
            r@ == batch_summary(self@),
    {
        let mut entries: Vec<Json> = Vec::new();
        let mut i: usize = 0;
        while i < self.results.len()
            invariant
                i <= self.results@.len(),
                entries@.len() == i,
                forall|k: int| 0 <= k < i ==> #[trigger] entries@[k]@ == summary_entry(self.results@[k]@, k as nat),
            decreases self.results@.len() - i,
        {
            entries.push(summary_of(&self.results[i], i));
            i = i + 1;
        }
        let results = Json::Array(entries);
        assert forall|k: int| 0 <= k < entries@.len() implies #[trigger] results@->Array_0[k]
            == summary_entry(self@.results[k], k as nat) by {
            assert(results@->Array_0[k] == entries@[k]@);
            assert(self@.results[k] == self.results@[k]@);
        }
        assert(results@->Array_0 =~= Seq::new(self@.results.len(), |k: int| summary_entry(self@.results[k], k as nat)));
        let mut members: Vec<(String, Json)> = Vec::new();
        members.push(("id".to_owned(), text_json(self.id.as_str())));
        members.push(("kind".to_owned(), text_json("read_chats")));
        members.push(("state".to_owned(), text_json(self.state.name())));
        members.push(("created_at".to_owned(), signed_json(self.created_at)));
        members.push(("chat_count".to_owned(), number_json(self.chats.len() as u64)));
        members.push(("results".to_owned(), results));
        proof {
            lemma_object_view(members);
        }
        let r = Json::Object(members);
        assert(r@->Object_0 =~= batch_summary(self@)->Object_0);
        r
    }
}

/// `m` without any member named `key`.
pub open spec fn without_key(m: Seq<(Seq<char>, JsonView)>, key: Seq<char>) -> Seq<(Seq<char>, JsonView)>
    decreases m.len(),
{
    if m.len() == 0 {
        m
    } else if m.last().0 == key {
        without_key(m.drop_last(), key)
    } else {
        without_key(m.drop_last(), key).push(m.last())
    }
}

/// `v[key] = x` on an object (or on null, which becomes an object).
pub open spec fn with_field(v: JsonView, key: Seq<char>, x: JsonView) -> JsonView {
    match v {
        JsonView::Object(m) => JsonView::Object(without_key(m, key).push((key, x))),
        _ => JsonView::Object(seq![(key, x)]),
    }
}

pub(crate) fn put_field(v: Json, key: &str, x: Json) -> (r: Json)
    requires
        v@ is Object || v@ is Null,
    ensures
        r@ == with_field(v@, key@, x@),
{
    let members = match v {
        Json::Object(members) => members,
        _ => {
            let mut m: Vec<(String, Json)> = Vec::new();
            m.push((key.to_owned(), x));
            proof {
                lemma_object_view(m);
            }
            assert(member_views(m@) =~= seq![(key@, x@)]);
            return Json::Object(m);
        },
    };
    proof {
        lemma_object_view(members);
    }
    let ghost mv = member_views(members@);
    let mut out: Vec<(String, Json)> = Vec::new();
    let mut i: usize = 0;
    while i < members.len()
        invariant
            i <= members@.len(),
            mv == member_views(members@),
            member_views(out@) == without_key(mv.take(i as int), key@),
        decreases members@.len() - i,
    {
        let (name, value) = &members[i];
        assert(mv.take(i + 1).drop_last() =~= mv.take(i as int));
        assert(mv.take(i + 1).last() == (name@, value@));
        if !same_text(name.as_str(), key) {
            let ghost before = out@;
            out.push((name.clone(), value.duplicate()));
            assert(member_views(out@) =~= member_views(before).push((name@, value@)));
        }
        i = i + 1;
    }
    assert(mv.take(members@.len() as int) =~= mv);
    let ghost before = out@;
    out.push((key.to_owned(), x));
    assert(member_views(out@) =~= member_views(before).push((key@, x@)));
    proof {
        lemma_object_view(out);
    }
    Json::Object(out)
}

/// The recorded outcome of a successful capture: the capture, tagged with the chat's id and
/// `completed`.
pub open spec fn completed_entry(capture: JsonView, chat_id: Seq<char>) -> JsonView {
    with_field(with_field(capture, "chat_id"@, JsonView::Text(chat_id)), "state"@, JsonView::Text("completed"@))
}

/// Builds `completed_entry`.
pub fn completed_result(capture: Json, chat_id: &str) -> (r: Json)
    requires
        capture@ is Object || capture@ is Null,
    ensures
        r@ == completed_entry(capture@, chat_id@),
{
    let tagged = put_field(capture, "chat_id", text_json(chat_id));
    put_field(tagged, "state", text_json("completed"))
}

/// The recorded outcome of a failed capture.
pub open spec fn failed_entry(chat: ChatReference, error: Seq<char>, at: i64) -> JsonView {
    JsonView::Object(
        seq![
            ("chat_id"@, JsonView::Text(chat.id@)),
            ("source_url"@, JsonView::Text(chat.url@)),
            ("state"@, JsonView::Text("failed"@)),
            ("error"@, JsonView::Text(error)),
            ("captured_at"@, JsonView::Number(signed_decimal(at as int))),
        ],
    )
}

/// Builds `failed_entry`.
pub fn failed_result(chat: &ChatReference, error: &str, at: i64) -> (r: Json)
    ensures
        r@ == failed_entry(*chat, error@, at),
{
    let mut m: Vec<(String, Json)> = Vec::new();
    m.push(("chat_id".to_owned(), text_json(chat.id.as_str())));
    m.push(("source_url".to_owned(), text_json(chat.url.as_str())));
    m.push(("state".to_owned(), text_json("failed")));
    m.push(("error".to_owned(), text_json(error)));
    m.push(("captured_at".to_owned(), signed_json(at)));
    proof {
        lemma_object_view(m);
    }
    let r = Json::Object(m);
    assert(r@->Object_0 =~= failed_entry(*chat, error@, at)->Object_0);
    r
}

/// The text of `v`, or the empty text (`as_str().unwrap_or_default()`).
pub open spec fn text_or_empty(v: JsonView) -> Seq<char> {
    match text_of(v) {
        Some(s) => s,
        None => Seq::empty(),
    }
}

/// The conversation id a page or capture shows, when its URL names a conversation.
pub open spec fn shown_chat(v: JsonView, key: Seq<char>) -> Result<Seq<char>, ReferenceFault> {
    match chat_reference(text_or_empty(field(v, key))) {
        Ok((id, _)) => Ok(id),
        Err(e) => Err(e),
    }
}

fn shown_chat_of(v: &Json, key: &str) -> (r: Result<String, ReferenceError>)
    ensures
        match r {
            Ok(id) => shown_chat(v@, key@) == Ok::<Seq<char>, ReferenceFault>(id@),
            Err(e) => shown_chat(v@, key@) == Err::<Seq<char>, ReferenceFault>(fault_of(e)),
        },
{
    let url = match v.field_text(key) {
        Some(u) => u.clone(),
        None => String::new(),
    };
    match ChatReference::parse(url.as_str()) {
        Ok(c) => Ok(c.id),
        Err(e) => Err(e),
    }
}

/// A tab opened for reading shows the requested conversation and some turns.
pub open spec fn chat_loaded(snapshot: JsonView, chat_id: Seq<char>) -> bool {
    &&& shown_chat(snapshot, "url"@) == Ok::<Seq<char>, ReferenceFault>(chat_id)
    &&& items_of(field(snapshot, "turns"@)) matches Some(t) && t.len() > 0
}

/// Decides `chat_loaded`.
pub fn loaded(snapshot: &Json, chat_id: &str) -> (r: bool)
    ensures
        r == chat_loaded(snapshot@, chat_id@),
{
    let same = match shown_chat_of(snapshot, "url") {
        Ok(id) => same_text(id.as_str(), chat_id),
        Err(_) => false,
    };
    same && match snapshot.field_items("turns") {
        Some(t) => t.len() > 0,
        None => false,
    }
}

/// Why a finished capture is not kept.
pub enum CaptureError {
    /// Its source URL does not name a conversation.
    Source(ReferenceError),
    /// It shows another conversation than the one requested.
    Changed,
}

/// The message reported for `e`.
pub open spec fn capture_error_text(e: CaptureError) -> Seq<char> {
    match e {
        CaptureError::Source(e) => crate::links::reference_error_text(e),
        CaptureError::Changed => "Chat changed during capture; refusing mismatched content"@,
    }
}

impl CaptureError {
    pub fn message(&self) -> (r: String)
        ensures
            r@ == capture_error_text(*self),
    {
        match self {
            CaptureError::Source(e) => e.message(),
            CaptureError::Changed => "Chat changed during capture; refusing mismatched content".to_owned(),
        }
    }
}

/// A capture is kept only when its `source_url` is the requested conversation.
pub fn capture_matches(capture: &Json, chat_id: &str) -> (r: Result<(), CaptureError>)
    ensures
        match shown_chat(capture@, "source_url"@) {
            Ok(id) => if id == chat_id@ {
                r is Ok
            } else {
                r matches Err(CaptureError::Changed)
            },
            Err(e) => r matches Err(CaptureError::Source(x)) && fault_of(x) == e,
        },
{
    match shown_chat_of(capture, "source_url") {
        Ok(id) => if same_text(id.as_str(), chat_id) {
            Ok(())
        } else {
            Err(CaptureError::Changed)
        },
        Err(e) => Err(CaptureError::Source(e)),
    }
}

} // verus!
