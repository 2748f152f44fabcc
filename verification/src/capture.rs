//! Read-only capture of a rendered conversation: turns seen while scrolling are merged by
//! identity, scrolling stops once the bottom is stable, and the result is written out as
//! markdown.
use crate::json::{field, text_of, views, Json, JsonView};
use crate::reads::lemma_object_view;
use crate::records::byte_len;
use crate::text::{same_text, signed_decimal, signed_decimal_string};
use vstd::prelude::*;

verus! {

broadcast use vstd::std_specs::vec::group_vec_axioms;

/// How a rendered turn is recognised again after scrolling: by its message id, or, when the
/// page gives none, by its role and markdown.
pub enum TurnKey {
    Id(String),
    Content(Json, Json),
}

/// Spec-level `TurnKey`.
pub enum KeyView {
    Id(Seq<char>),
    Content(JsonView, JsonView),
}

pub open spec fn key_view(k: TurnKey) -> KeyView {
    match k {
        TurnKey::Id(s) => KeyView::Id(s@),
        TurnKey::Content(r, m) => KeyView::Content(r@, m@),
    }
}

/// The values of a list of keys.
pub open spec fn key_views(s: Seq<TurnKey>) -> Seq<KeyView> {
    Seq::new(s.len(), |i: int| key_view(s[i]))
}

/// The key of a turn.
pub open spec fn turn_key(t: JsonView) -> KeyView {
    match text_of(field(t, "id"@)) {
        Some(id) => KeyView::Id(id),
        None => KeyView::Content(field(t, "role"@), field(t, "markdown"@)),
    }
}

/// The last position holding `k`.
pub open spec fn key_index(keys: Seq<KeyView>, k: KeyView) -> Option<int>
    decreases keys.len(),
{
    if keys.len() == 0 {
        None
    } else if keys.last() == k {
        Some(keys.len() - 1)
    } else {
        key_index(keys.drop_last(), k)
    }
}

/// One turn merged into the captured list: a turn seen before replaces its earlier
/// rendering in place; a new turn is appended with its key.
pub open spec fn merge_turn(turns: Seq<JsonView>, keys: Seq<KeyView>, t: JsonView) -> (Seq<JsonView>, Seq<KeyView>) {
    match key_index(keys, turn_key(t)) {
        Some(i) => (turns.update(i, t), keys),
        None => (turns.push(t), keys.push(turn_key(t))),
    }
}

/// A snapshot's turns merged, in order.
pub open spec fn merge_all(turns: Seq<JsonView>, keys: Seq<KeyView>, fresh: Seq<JsonView>) -> (Seq<JsonView>, Seq<KeyView>)
    decreases fresh.len(),
{
    if fresh.len() == 0 {
        (turns, keys)
    } else {
        let (t, k) = merge_all(turns, keys, fresh.drop_last());
        merge_turn(t, k, fresh.last())
    }
}

proof fn lemma_key_index_bound(keys: Seq<KeyView>, k: KeyView)
    ensures
        key_index(keys, k) matches Some(i) ==> 0 <= i < keys.len(),
    decreases keys.len(),
{
    if keys.len() > 0 && keys.last() != k {
        lemma_key_index_bound(keys.drop_last(), k);
    }
}

fn same_key(a: &TurnKey, b: &TurnKey) -> (r: bool)
    ensures
        r == (key_view(*a) == key_view(*b)),
{
    match (a, b) {
        (TurnKey::Id(x), TurnKey::Id(y)) => same_text(x.as_str(), y.as_str()),
        (TurnKey::Content(r1, m1), TurnKey::Content(r2, m2)) => r1.same(r2) && m1.same(m2),
        _ => false,
    }
}

fn key_of(t: &Json) -> (r: TurnKey)
    ensures
        key_view(r) == turn_key(t@),
{
    match t.field_text("id") {
        Some(id) => TurnKey::Id(id.clone()),
        None => {
            let role = match t.get("role") {
                Some(v) => v.duplicate(),
                None => Json::Null,
            };
            let markdown = match t.get("markdown") {
                Some(v) => v.duplicate(),
                None => Json::Null,
            };
            TurnKey::Content(role, markdown)
        },
    }
}

fn find_key(keys: &Vec<TurnKey>, k: &TurnKey) -> (r: Option<usize>)
    ensures
        match key_index(key_views(keys@), key_view(*k)) {
            Some(i) => r == Some(i as usize),
            None => r is None,
        },
{
    let ghost kv = key_views(keys@);
    let mut i: usize = keys.len();
    assert(kv.take(i as int) =~= kv);
    while i > 0
        invariant
            i <= keys@.len(),
            kv == key_views(keys@),
            key_index(kv, key_view(*k)) == key_index(kv.take(i as int), key_view(*k)),
        decreases i,
    {
        let j = i - 1;
        assert(kv.take(i as int).last() == key_view(keys@[j as int]));
        assert(kv.take(i as int).drop_last() =~= kv.take(j as int));
        if same_key(&keys[j], k) {
            return Some(j);
        }
        i = j;
    }
    None
}

/// Merges the turns of one snapshot into the captured list; returns whether some turn had
/// no message id.
pub fn merge_turns(turns: &mut Vec<Json>, keys: &mut Vec<TurnKey>, fresh: &Vec<Json>) -> (missing_ids: bool)
    requires
        old(turns)@.len() == old(keys)@.len(),
    ensures
        (views(final(turns)@), key_views(final(keys)@)) == merge_all(
            views(old(turns)@),
            key_views(old(keys)@),
            views(fresh@),
        ),
        final(turns)@.len() == final(keys)@.len(),
        missing_ids == exists|i: int| 0 <= i < fresh@.len() && text_of(field(#[trigger] views(fresh@)[i], "id"@)) is None,
{
    let ghost fv = views(fresh@);
    let ghost t0 = views(turns@);
    let ghost k0 = key_views(keys@);
    let mut missing = false;
    let mut i: usize = 0;
    assert(fv.take(0) =~= Seq::<JsonView>::empty());
    while i < fresh.len()
        invariant
            i <= fresh@.len(),
            fv == views(fresh@),
            turns@.len() == keys@.len(),
            (views(turns@), key_views(keys@)) == merge_all(t0, k0, fv.take(i as int)),
            missing == exists|j: int| 0 <= j < i && text_of(field(#[trigger] fv[j], "id"@)) is None,
        decreases fresh@.len() - i,
    {
        let t = &fresh[i];
        assert(fv[i as int] == t@);
        assert(fv.take(i + 1).drop_last() =~= fv.take(i as int));
        assert(fv.take(i + 1).last() == t@);
        let k = key_of(t);
        if t.field_text("id").is_none() {
            missing = true;
        }
        let ghost tv = views(turns@);
        let ghost kv = key_views(keys@);
        assert(merge_all(t0, k0, fv.take(i + 1)) == merge_turn(tv, kv, t@));
        match find_key(keys, &k) {
            Some(j) => {
                proof {
                    lemma_key_index_bound(kv, key_view(k));
                }
                assert(key_index(kv, key_view(k)) is Some);
                let ghost ii = key_index(kv, key_view(k))->0;
                assert(0 <= ii < kv.len());
                assert(kv.len() == keys@.len());
                let n = keys.len();
                assert(ii < n);
                assert(j == ii as usize);
                assert(j as int == ii);
                assert(key_index(kv, turn_key(t@)) == Some(j as int));
                turns.set(j, t.duplicate());
                assert(views(turns@) =~= tv.update(j as int, t@));
                assert(key_views(keys@) == kv);
            },
            None => {
                turns.push(t.duplicate());
                keys.push(k);
                assert(views(turns@) =~= tv.push(t@));
                assert(key_views(keys@) =~= kv.push(key_view(k)));
            },
        }
        i = i + 1;
    }
    assert(fv.take(fresh@.len() as int) =~= fv);
    missing
}

/// The markdown text of a turn, or nothing.
pub open spec fn turn_markdown(t: JsonView) -> Seq<char> {
    match text_of(field(t, "markdown"@)) {
        Some(s) => s,
        None => Seq::empty(),
    }
}

/// Total UTF-8 size of the captured markdown.
pub open spec fn markdown_bytes(turns: Seq<JsonView>) -> int
    decreases turns.len(),
{
    if turns.len() == 0 {
        0
    } else {
        markdown_bytes(turns.drop_last()) + byte_len(turn_markdown(turns.last()))
    }
}

/// The captured size only grows with more turns.
pub proof fn lemma_markdown_bytes_prefix(turns: Seq<JsonView>, i: int)
    requires
        0 <= i <= turns.len(),
    ensures
        0 <= markdown_bytes(turns.take(i)) <= markdown_bytes(turns),
    decreases turns.len(),
{
    if i == turns.len() {
        assert(turns.take(i) =~= turns);
        if turns.len() > 0 {
            lemma_markdown_bytes_prefix(turns.drop_last(), i - 1);
        }
    } else {
        lemma_markdown_bytes_prefix(turns.drop_last(), i);
        assert(turns.drop_last().take(i) =~= turns.take(i));
    }
}

/// The size above which a capture stops scrolling.
pub const CAPTURE_LIMIT_BYTES: u64 = 1000000;

/// Whether the captured markdown exceeds the capture limit.
pub fn over_capture_limit(turns: &Vec<Json>) -> (r: bool)
    ensures
        r == (markdown_bytes(views(turns@)) > CAPTURE_LIMIT_BYTES),
{
    let ghost tv = views(turns@);
    let mut total: u64 = 0;
    let mut i: usize = 0;
    while i < turns.len()
        invariant
            i <= turns@.len(),
            tv == views(turns@),
            total == markdown_bytes(tv.take(i as int)),
            total <= CAPTURE_LIMIT_BYTES,
        decreases turns@.len() - i,
    {
        let size: usize = match turns[i].field_text("markdown") {
            Some(s) => s.as_str().len(),
            None => 0,
        };
        assert(tv[i as int] == turns@[i as int]@);
        assert(tv.take(i + 1).drop_last() =~= tv.take(i as int));
        if size as u64 > CAPTURE_LIMIT_BYTES - total {
            proof {
                lemma_markdown_bytes_prefix(tv, i + 1);
            }
            return true;
        }
        total = total + size as u64;
        i = i + 1;
    }
    assert(tv.take(turns@.len() as int) =~= tv);
    false
}

/// What the capture compares between scroll steps: the page height and the rendered turns.
pub fn fingerprint(position: &Json, snapshot: &Json) -> (r: Json)
    ensures
        r@ == JsonView::Array(seq![field(position@, "height"@), field(snapshot@, "turns"@)]),
{
    let height = match position.get("height") {
        Some(h) => h.duplicate(),
        None => Json::Null,
    };
    let turns = match snapshot.get("turns") {
        Some(t) => t.duplicate(),
        None => Json::Null,
    };
    let mut items: Vec<Json> = Vec::new();
    items.push(height);
    items.push(turns);
    let r = Json::Array(items);
    assert(r@->Array_0[0] == items@[0]@);
    assert(r@->Array_0[1] == items@[1]@);
    assert(r@->Array_0 =~= seq![field(position@, "height"@), field(snapshot@, "turns"@)]);
    r
}

/// Scroll steps in a row that ended at the bottom with nothing new rendered; the capture is
/// complete at three.
pub fn settled_steps(at_bottom: bool, current: &Json, previous: &Option<Json>, stable: u32) -> (r: u32)
    requires
        stable < u32::MAX,
    ensures
        r == (if at_bottom && (previous matches Some(p) && p@ == current@) {
            stable + 1
        } else {
            0
        }),
{
    let same = match previous {
        Some(p) => p.same(current),
        None => false,
    };
    if at_bottom && same {
        stable + 1
    } else {
        0
    }
}

/// The text after "# " in the transcript heading.
pub open spec fn title_text(snapshot: JsonView) -> Seq<char> {
    match text_of(field(snapshot, "title"@)) {
        Some(s) => s,
        None => "ChatGPT conversation"@,
    }
}

/// One turn in the transcript.
pub open spec fn turn_section(t: JsonView) -> Seq<char> {
    let role = match text_of(field(t, "role"@)) {
        Some(r) => r,
        None => "unknown"@,
    };
    "## "@ + role + "\n\n"@ + turn_markdown(t) + "\n\n"@
}

/// All turns in the transcript, in order.
pub open spec fn turn_sections(turns: Seq<JsonView>) -> Seq<char>
    decreases turns.len(),
{
    if turns.len() == 0 {
        Seq::empty()
    } else {
        turn_sections(turns.drop_last()) + turn_section(turns.last())
    }
}

/// The markdown transcript of a capture: a heading, the source URL, the capture time, and
/// every captured turn under its role.
pub open spec fn transcript(snapshot: JsonView, captured_at: i64, turns: Seq<JsonView>) -> Seq<char> {
    let url = match text_of(field(snapshot, "url"@)) {
        Some(u) => u,
        None => Seq::empty(),
    };
    "# "@ + title_text(snapshot) + "\n\nSource: "@ + url + "\nCaptured at (Unix seconds): "@
        + signed_decimal(captured_at as int) + "\n\n"@ + turn_sections(turns)
}

fn push_str(s: &mut String, t: &str)
    ensures
        final(s)@ == old(s)@ + t@,
{
    s.append(t);
}

/// Writes `transcript`.
pub fn transcript_markdown(snapshot: &Json, captured_at: i64, turns: &Vec<Json>) -> (r: String)
    ensures
        r@ == transcript(snapshot@, captured_at, views(turns@)),
{
    let mut out = "# ".to_owned();
    match snapshot.field_text("title") {
        Some(t) => push_str(&mut out, t.as_str()),
        None => push_str(&mut out, "ChatGPT conversation"),
    }
    push_str(&mut out, "\n\nSource: ");
    match snapshot.field_text("url") {
        Some(u) => push_str(&mut out, u.as_str()),
        None => {},
    }
    push_str(&mut out, "\nCaptured at (Unix seconds): ");
    let at = signed_decimal_string(captured_at);
    push_str(&mut out, at.as_str());
    push_str(&mut out, "\n\n");
    let ghost head = out@;
    let ghost tv = views(turns@);
    assert(head == "# "@ + title_text(snapshot@) + "\n\nSource: "@ + (match text_of(field(snapshot@, "url"@)) {
        Some(u) => u,
        None => Seq::empty(),
    }) + "\nCaptured at (Unix seconds): "@ + signed_decimal(captured_at as int) + "\n\n"@);
    let mut i: usize = 0;
    assert(head =~= head + turn_sections(tv.take(0)));
    while i < turns.len()
        invariant
            i <= turns@.len(),
            tv == views(turns@),
            out@ == head + turn_sections(tv.take(i as int)),
        decreases turns@.len() - i,
    {
        let t = &turns[i];
        assert(tv[i as int] == t@);
        assert(tv.take(i + 1).drop_last() =~= tv.take(i as int));
        push_str(&mut out, "## ");
        match t.field_text("role") {
            Some(r) => push_str(&mut out, r.as_str()),
            None => push_str(&mut out, "unknown"),
        }
        push_str(&mut out, "\n\n");
        match t.field_text("markdown") {
            Some(m) => push_str(&mut out, m.as_str()),
            None => {},
        }
        push_str(&mut out, "\n\n");
        assert(out@ =~= head + turn_sections(tv.take(i + 1)));
        i = i + 1;
    }
    assert(tv.take(turns@.len() as int) =~= tv);
    out
}

/// What a capture cannot promise about its coverage.
pub open spec fn limitations_text() -> Seq<char> {
    "Only messages rendered while scrolling the current branch are captured. Alternate branches, unloaded history, attachments, and separate report panels may be missing. This is not a verified full account export."@
}

/// The record of a finished capture.
pub open spec fn capture_record(
    snapshot: JsonView,
    captured_at: i64,
    turns: Seq<JsonView>,
    limited: bool,
    missing_ids: bool,
) -> JsonView {
    JsonView::Object(
        seq![
            ("source_url"@, field(snapshot, "url"@)),
            ("title"@, field(snapshot, "title"@)),
            ("captured_at"@, JsonView::Number(signed_decimal(captured_at as int))),
            ("turns"@, JsonView::Array(turns)),
            ("markdown"@, JsonView::Text(transcript(snapshot, captured_at, turns))),
            ("busy"@, field(snapshot, "busy"@)),
            ("capture_limit_reached"@, JsonView::Bool(limited)),
            ("missing_message_ids"@, JsonView::Bool(missing_ids)),
            ("coverage"@, JsonView::Text("rendered_current_branch"@)),
            ("limitations"@, JsonView::Text(limitations_text())),
        ],
    )
}

fn member_or_null(v: &Json, key: &str) -> (r: Json)
    ensures
        r@ == field(v@, key@),
{
    match v.get(key) {
        Some(x) => x.duplicate(),
        None => Json::Null,
    }
}

/// Builds the record of a capture; a capture that found no turn is refused, since the chat is
/// unavailable or empty.
pub fn capture_result(snapshot: &Json, captured_at: i64, turns: &Vec<Json>, limited: bool, missing_ids: bool) -> (r: Option<Json>)
    ensures
        match r {
            Some(j) => turns@.len() > 0 && j@ == capture_record(snapshot@, captured_at, views(turns@), limited, missing_ids),
            None => turns@.len() == 0,
        },
{
    if turns.len() == 0 {
        return None;
    }
    let markdown = transcript_markdown(snapshot, captured_at, turns);
    let mut copies: Vec<Json> = Vec::new();
    let mut i: usize = 0;
    while i < turns.len()
        invariant
            i <= turns@.len(),
            copies@.len() == i,
            forall|k: int| 0 <= k < i ==> #[trigger] copies@[k]@ == turns@[k]@,
        decreases turns@.len() - i,
    {
        copies.push(turns[i].duplicate());
        i = i + 1;
    }
    let list = Json::Array(copies);
    assert forall|k: int| 0 <= k < copies@.len() implies #[trigger] list@->Array_0[k] == views(turns@)[k] by {
        assert(list@->Array_0[k] == copies@[k]@);
    }
    assert(list@->Array_0 =~= views(turns@));
    let mut m: Vec<(String, Json)> = Vec::new();
    m.push(("source_url".to_owned(), member_or_null(snapshot, "url")));
    m.push(("title".to_owned(), member_or_null(snapshot, "title")));
    m.push(("captured_at".to_owned(), Json::Number(signed_decimal_string(captured_at))));
    m.push(("turns".to_owned(), list));
    m.push(("markdown".to_owned(), Json::Text(markdown)));
    m.push(("busy".to_owned(), member_or_null(snapshot, "busy")));
    m.push(("capture_limit_reached".to_owned(), Json::Bool(limited)));
    m.push(("missing_message_ids".to_owned(), Json::Bool(missing_ids)));
    m.push(("coverage".to_owned(), Json::Text("rendered_current_branch".to_owned())));
    m.push(("limitations".to_owned(), Json::Text("Only messages rendered while scrolling the current branch are captured. Alternate branches, unloaded history, attachments, and separate report panels may be missing. This is not a verified full account export.".to_owned())));
    proof {
        lemma_object_view(m);
    }
    let r = Json::Object(m);
    assert(r@->Object_0 =~= capture_record(snapshot@, captured_at, views(turns@), limited, missing_ids)->Object_0);
    Some(r)
}

} // verus!
