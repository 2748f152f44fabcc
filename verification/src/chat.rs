//! Decisions taken while driving the ChatGPT page: when the composer is usable, whether a
//! prompt may be typed, which reasoning effort to pick, and what a capture records.
use crate::json::{field, text_of, unsigned_of, views, Json, JsonView};
use crate::links::{conversation_url, conversation_url_ok, project_url_ok, valid_project_url};
use crate::text::{chars_of, normalized, normalized_label, same_text, trim, trimmed};
use vstd::prelude::*;

verus! {

broadcast use vstd::std_specs::vec::group_vec_axioms;

/// What a page snapshot says about the composer.
#[derive(Clone, Copy, Debug, PartialEq, Eq, Structural)]
pub enum Readiness {
    /// ChatGPT asks for a sign-in.
    LoginRequired,
    /// The composer is available.
    Ready,
    /// Not yet: look again shortly.
    Loading,
}

/// Reads a snapshot: sign-in first, then the composer.
pub open spec fn readiness(snapshot: JsonView) -> Readiness {
    if field(snapshot, "login_required"@) == JsonView::Bool(true) {
        Readiness::LoginRequired
    } else if field(snapshot, "composer"@) == JsonView::Bool(true) {
        Readiness::Ready
    } else {
        Readiness::Loading
    }
}

/// Decides `readiness`.
pub fn ready_state(snapshot: &Json) -> (r: Readiness)
    ensures
        r == readiness(snapshot@),
{
    if snapshot.field_is_bool("login_required", true) {
        Readiness::LoginRequired
    } else if snapshot.field_is_bool("composer", true) {
        Readiness::Ready
    } else {
        Readiness::Loading
    }
}

/// What to do before typing a prompt into the composer.
#[derive(Clone, Copy, Debug, PartialEq, Eq, Structural)]
pub enum FillStep {
    /// The composer already holds the prompt (after a restart): type nothing.
    AlreadyFilled,
    /// The composer is empty: type the prompt.
    Insert,
    /// The composer holds other text, which is never overwritten.
    Refuse,
}

/// The composer text a snapshot shows, trimmed (absent text counts as empty).
pub open spec fn composer_text(snapshot: JsonView) -> Seq<char> {
    match text_of(field(snapshot, "composer_text"@)) {
        Some(t) => trimmed(t),
        None => Seq::empty(),
    }
}

/// The decision before typing `prompt`, comparing trimmed texts.
pub open spec fn fill_plan(snapshot: JsonView, prompt: Seq<char>) -> FillStep {
    if text_of(field(snapshot, "composer_text"@)) is Some && composer_text(snapshot) == trimmed(
        prompt,
    ) {
        FillStep::AlreadyFilled
    } else if composer_text(snapshot).len() > 0 {
        FillStep::Refuse
    } else {
        FillStep::Insert
    }
}

fn composer_of(snapshot: &Json) -> (r: Vec<char>)
    ensures
        r@ == composer_text(snapshot@),
{
    match snapshot.field_text("composer_text") {
        Some(t) => trim(&chars_of(t.as_str())),
        None => Vec::new(),
    }
}

/// Decides `fill_plan`.
pub fn fill_step(snapshot: &Json, prompt: &str) -> (r: FillStep)
    ensures
        r == fill_plan(snapshot@, prompt@),
{
    let current = composer_of(snapshot);
    let wanted = trim(&chars_of(prompt));
    if snapshot.field_text("composer_text").is_some() && crate::text::chars_equal(&current, &wanted) {
        FillStep::AlreadyFilled
    } else if current.len() > 0 {
        FillStep::Refuse
    } else {
        FillStep::Insert
    }
}

/// After typing, the composer must show exactly the prompt (trimmed) before it is sent.
pub fn fill_confirmed(snapshot: &Json, prompt: &str) -> (r: bool)
    ensures
        r == (composer_text(snapshot@) == trimmed(prompt@)),
{
    crate::text::chars_equal(&composer_of(snapshot), &trim(&chars_of(prompt)))
}

/// The reasoning label a picker status shows.
pub open spec fn status_label(status: JsonView) -> Seq<char> {
    match text_of(field(status, "selected"@)) {
        Some(s) => s,
        None => Seq::empty(),
    }
}

/// A picker status offers `preference` when their labels agree up to case and punctuation.
pub open spec fn offers(status: JsonView, preference: Seq<char>) -> bool {
    normalized_label(status_label(status)) == normalized_label(preference)
}

/// The picker already shows the first preference.
pub fn already_preferred(status: &Json, preferences: &Vec<String>) -> (r: bool)
    requires
        preferences@.len() > 0,
    ensures
        r == offers(status@, preferences@[0]@),
{
    let label = match status.field_text("selected") {
        Some(s) => s.clone(),
        None => String::new(),
    };
    same_text(normalized(label.as_str()).as_str(), normalized(preferences[0].as_str()).as_str())
}

/// `(p, a)`: preference `p` is the first one that some available status offers, and `a` is
/// the first status offering it.
pub open spec fn reasoning_choice(preferences: Seq<Seq<char>>, available: Seq<JsonView>, p: int, a: int) -> bool {
    &&& 0 <= p < preferences.len()
    &&& 0 <= a < available.len()
    &&& offers(available[a], preferences[p])
    &&& forall|b: int| 0 <= b < a ==> !offers(#[trigger] available[b], preferences[p])
    &&& forall|q: int, b: int|
        0 <= q < p && 0 <= b < available.len() ==> !offers(#[trigger] available[b], #[trigger] preferences[q])
}

/// The texts of the preferences.
pub open spec fn preference_texts(v: Seq<String>) -> Seq<Seq<char>> {
    Seq::new(v.len(), |i: int| v[i]@)
}

/// The outcome of `choose_reasoning`.
pub open spec fn reasoning_outcome(preferences: Seq<Seq<char>>, available: Seq<JsonView>, r: Option<usize>) -> bool {
    match r {
        Some(a) => exists|p: int| #[trigger] reasoning_choice(preferences, available, p, a as int),
        None => forall|q: int, b: int|
            0 <= q < preferences.len() && 0 <= b < available.len() ==> !offers(
                #[trigger] available[b],
                #[trigger] preferences[q],
            ),
    }
}

/// Picks the reasoning effort: the first preference that the picker offers at all, at the
/// first slider position offering it; `None` when it offers none of them.
pub fn choose_reasoning(preferences: &Vec<String>, available: &Vec<Json>) -> (r: Option<usize>)
    ensures
        reasoning_outcome(preference_texts(preferences@), views(available@), r),
{
    let ghost ps = preference_texts(preferences@);
    let ghost av = views(available@);
    let mut labels: Vec<String> = Vec::new();
    let mut k: usize = 0;
    while k < available.len()
        invariant
            k <= available@.len(),
            av == views(available@),
            labels@.len() == k,
            forall|b: int| 0 <= b < k ==> #[trigger] labels@[b]@ == normalized_label(status_label(av[b])),
        decreases available@.len() - k,
    {
        let label = match available[k].field_text("selected") {
            Some(s) => s.clone(),
            None => String::new(),
        };
        assert(av[k as int] == available@[k as int]@);
        labels.push(normalized(label.as_str()));
        k = k + 1;
    }
    let mut q: usize = 0;
    while q < preferences.len()
        invariant
            q <= preferences@.len(),
            ps == preference_texts(preferences@),
            av == views(available@),
            labels@.len() == available@.len(),
            forall|b: int| 0 <= b < labels@.len() ==> #[trigger] labels@[b]@ == normalized_label(status_label(av[b])),
            forall|x: int, b: int|
                0 <= x < q && 0 <= b < available@.len() ==> !offers(#[trigger] av[b], #[trigger] ps[x]),
        decreases preferences@.len() - q,
    {
        let wanted = normalized(preferences[q].as_str());
        assert(ps[q as int] == preferences@[q as int]@);
        let mut b: usize = 0;
        while b < labels.len()
            invariant
                b <= labels@.len(),
                q < preferences@.len(),
                ps == preference_texts(preferences@),
                av == views(available@),
                labels@.len() == available@.len(),
                wanted@ == normalized_label(ps[q as int]),
                forall|c: int| 0 <= c < labels@.len() ==> #[trigger] labels@[c]@ == normalized_label(status_label(av[c])),
                forall|c: int| 0 <= c < b ==> !offers(#[trigger] av[c], ps[q as int]),
                forall|x: int, c: int|
                    0 <= x < q && 0 <= c < available@.len() ==> !offers(#[trigger] av[c], #[trigger] ps[x]),
            decreases labels@.len() - b,
        {
            if same_text(labels[b].as_str(), wanted.as_str()) {
                assert(reasoning_choice(ps, av, q as int, b as int));
                let ghost out: Option<usize> = Some(b);
                assert(out->0 == b);
                assert(reasoning_choice(ps, av, q as int, out->0 as int));
                assert(reasoning_outcome(ps, av, out));
                return Some(b);
            }
            b = b + 1;
        }
        q = q + 1;
    }
    None
}

/// The slider position a picker status reports, or `fallback` when it reports none.
pub open spec fn slider_position(status: JsonView, fallback: u64) -> u64 {
    match unsigned_of(field(status, "index"@)) {
        Some(i) => i,
        None => fallback,
    }
}

/// Reads `slider_position`.
pub fn slider_index(status: &Json, fallback: u64) -> (r: u64)
    ensures
        r == slider_position(status@, fallback),
{
    match status.get("index") {
        Some(v) => match v.as_u64() {
            Some(i) => i,
            None => fallback,
        },
        None => fallback,
    }
}

/// After an ArrowLeft press at `index`: the new position, which must be lower (`None` when the
/// slider did not move left).
pub fn moved_left(status: &Json, index: u64) -> (r: Option<u64>)
    ensures
        r == (if slider_position(status@, index) < index {
            Some(slider_position(status@, index))
        } else {
            None
        }),
{
    let next = slider_index(status, index);
    if next < index {
        Some(next)
    } else {
        None
    }
}

/// After an ArrowRight press at `index`: the new position when it moved up; `None` at the
/// end of the range the subscription allows.
pub fn moved_right(status: &Json, index: u64) -> (r: Option<u64>)
    ensures
        r == (if slider_position(status@, index) > index {
            Some(slider_position(status@, index))
        } else {
            None
        }),
{
    let next = slider_index(status, index);
    if next > index {
        Some(next)
    } else {
        None
    }
}

/// A key press has visibly taken effect: the status moved off `index`, or reports failure.
pub fn slider_settled(status: &Json, index: u64) -> (r: bool)
    ensures
        r == (unsigned_of(field(status@, "index"@)) != Some(index) || field(status@, "ok"@)
            != JsonView::Bool(true)),
{
    let moved = match status.get("index") {
        Some(v) => match v.as_u64() {
            Some(i) => i != index,
            None => true,
        },
        None => true,
    };
    moved || !status.field_is_bool("ok", true)
}

/// The reasoning slider's range is usable: between one and sixteen steps.
pub fn slider_range_ok(status: &Json) -> (r: bool)
    ensures
        r == (0 < slider_position_max(status@) <= 16),
{
    let maximum = match status.get("max") {
        Some(v) => match v.as_u64() {
            Some(m) => m,
            None => 0,
        },
        None => 0,
    };
    maximum > 0 && maximum <= 16
}

/// The slider's last position (0 when unreported).
pub open spec fn slider_position_max(status: JsonView) -> u64 {
    match unsigned_of(field(status, "max"@)) {
        Some(m) => m,
        None => 0,
    }
}

/// A page about to delete a conversation shows exactly that conversation.
pub fn deletion_target_ok(snapshot: &Json, expected: &str) -> (r: bool)
    ensures
        r == (text_of(field(snapshot@, "url"@)) == Some(expected@) && conversation_url_ok(expected@)),
{
    let shown = match snapshot.field_text("url") {
        Some(u) => same_text(u.as_str(), expected),
        None => false,
    };
    shown && conversation_url(expected)
}

/// A new project thread starts only on the configured project's landing page: a valid
/// project URL, reached without redirect (`origin + pathname` equal to it), with a heading.
pub fn project_page_ok(expected: &str, location: &Json, heading: &Json) -> (r: bool)
    ensures
        r == (project_url_ok(expected@) && location@ == JsonView::Text(expected@) && heading@
            == JsonView::Bool(true)),
{
    let at_project = match location {
        Json::Text(l) => same_text(l.as_str(), expected),
        _ => false,
    };
    let has_heading = match heading {
        Json::Bool(b) => *b,
        _ => false,
    };
    valid_project_url(expected) && at_project && has_heading
}

} // verus!
