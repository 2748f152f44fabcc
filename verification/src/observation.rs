//! Matching a browser snapshot of a conversation against the request that was submitted:
//! only the newly submitted user turn and the answer after it count.
use crate::json::{field, items_of, text_of, views, Json, JsonView};
use crate::text::{blank, chars_equal, chars_of, is_blank, trim, trimmed};
use vstd::prelude::*;

verus! {

broadcast use vstd::std_specs::vec::group_vec_axioms;

/// Why an observation cannot be attributed to the request.
#[derive(Clone, Copy, Debug, PartialEq, Eq, Structural)]
pub enum ObservationError {
    /// Another user message follows the submitted one.
    ConversationChanged,
}

/// The message reported for `e`.
pub open spec fn observation_error_text(e: ObservationError) -> Seq<char> {
    "conversation_changed: another user message appeared after this submission"@
}

impl ObservationError {
    pub fn message(&self) -> (r: String)
        ensures
            r@ == observation_error_text(*self),
    {
        "conversation_changed: another user message appeared after this submission".to_owned()
    }
}

/// The turns of a snapshot, when it has a `turns` array.
pub open spec fn turns_of(snapshot: JsonView) -> Option<Seq<JsonView>> {
    items_of(field(snapshot, "turns"@))
}

pub open spec fn has_role(turn: JsonView, role: Seq<char>) -> bool {
    field(turn, "role"@) == JsonView::Text(role)
}

/// A user turn whose text equals the prompt up to surrounding whitespace.
pub open spec fn is_prompt_turn(turn: JsonView, prompt: Seq<char>) -> bool {
    &&& has_role(turn, "user"@)
    &&& text_of(field(turn, "text"@)) matches Some(t) && trimmed(t) == trimmed(prompt)
}

/// The first position at or after `baseline` holding the prompt's user turn.
pub open spec fn prompt_index(ts: Seq<JsonView>, baseline: int, prompt: Seq<char>) -> Option<int>
    decreases ts.len(),
{
    if ts.len() == 0 {
        None
    } else {
        match prompt_index(ts.drop_last(), baseline, prompt) {
            Some(k) => Some(k),
            None => if ts.len() - 1 >= baseline && is_prompt_turn(ts.last(), prompt) {
                Some(ts.len() - 1)
            } else {
                None
            },
        }
    }
}

/// The last assistant turn after position `m`.
pub open spec fn last_answer(ts: Seq<JsonView>, m: int) -> Option<int>
    decreases ts.len(),
{
    if ts.len() == 0 {
        None
    } else if ts.len() - 1 > m && has_role(ts.last(), "assistant"@) {
        Some(ts.len() - 1)
    } else {
        last_answer(ts.drop_last(), m)
    }
}

/// Some user turn follows position `m`.
pub open spec fn user_after(ts: Seq<JsonView>, m: int) -> bool {
    exists|k: int| m < k < ts.len() && has_role(#[trigger] ts[k], "user"@)
}

/// Whether the snapshot shows the submitted user turn at or after `baseline`.
pub open spec fn turn_confirmed(snapshot: JsonView, baseline: int, prompt: Seq<char>) -> bool {
    turns_of(snapshot) matches Some(ts) && prompt_index(ts, baseline, prompt) is Some
}

/// The position of the answer to the submitted prompt, if there is one yet.
pub open spec fn answer_index(snapshot: JsonView, baseline: int, prompt: Seq<char>) -> Result<
    Option<int>,
    ObservationError,
> {
    match turns_of(snapshot) {
        None => Ok(None),
        Some(ts) => match prompt_index(ts, baseline, prompt) {
            None => Ok(None),
            Some(m) => if user_after(ts, m) {
                Err(ObservationError::ConversationChanged)
            } else {
                Ok(last_answer(ts, m))
            },
        },
    }
}

/// A finished answer: the page is idle, the turn is complete and has non-blank Markdown.
pub open spec fn complete_answer(snapshot: JsonView, response: JsonView) -> bool {
    &&& field(snapshot, "busy"@) == JsonView::Bool(false)
    &&& field(response, "complete"@) == JsonView::Bool(true)
    &&& text_of(field(response, "markdown"@)) matches Some(t) && !is_blank(t)
}

proof fn lemma_prompt_index(ts: Seq<JsonView>, baseline: int, prompt: Seq<char>)
    requires
        0 <= baseline,
    ensures
        match prompt_index(ts, baseline, prompt) {
            Some(k) => baseline <= k < ts.len() && is_prompt_turn(ts[k], prompt),
            None => forall|k: int| baseline <= k < ts.len() ==> !is_prompt_turn(#[trigger] ts[k], prompt),
        },
    decreases ts.len(),
{
    if ts.len() > 0 {
        let d = ts.drop_last();
        lemma_prompt_index(d, baseline, prompt);
        match prompt_index(d, baseline, prompt) {
            Some(k) => {
                assert(d[k] == ts[k]);
            },
            None => {
                assert forall|k: int| baseline <= k < ts.len() - 1 implies !is_prompt_turn(
                    #[trigger] ts[k],
                    prompt,
                ) by {
                    assert(d[k] == ts[k]);
                }
            },
        }
    }
}

proof fn lemma_last_answer(ts: Seq<JsonView>, m: int)
    requires
        0 <= m,
    ensures
        match last_answer(ts, m) {
            Some(k) => m < k < ts.len() && has_role(ts[k], "assistant"@),
            None => true,
        },
    decreases ts.len(),
{
    if ts.len() > 0 {
        let d = ts.drop_last();
        lemma_last_answer(d, m);
        if let Some(k) = last_answer(d, m) {
            assert(d[k] == ts[k]);
        }
    }
}

fn elements(items: &Vec<Json>) -> (r: Ghost<Seq<JsonView>>)
    ensures
        r@ == views(items@),
{
    Ghost(views(items@))
}

/// Decides `is_prompt_turn`.
fn prompt_turn(turn: &Json, prompt: &Vec<char>) -> (r: bool)
    ensures
        r == is_prompt_turn(turn@, prompt@),
{
    if !turn.field_is_text("role", "user") {
        return false;
    }
    match turn.field_text("text") {
        Some(t) => chars_equal(&trim(&chars_of(t.as_str())), &trim(prompt)),
        None => false,
    }
}

/// Position of the submitted user turn, searching from `baseline`.
fn find_prompt(items: &Vec<Json>, baseline: usize, prompt: &Vec<char>) -> (r: Option<usize>)
    ensures
        ({
            let ts = views(items@);
            match prompt_index(ts, baseline as int, prompt@) {
                Some(k) => r == Some(k as usize),
                None => r is None,
            }
        }),
{
    let ghost ts = views(items@);
    let mut i: usize = baseline;
    proof {
        lemma_prompt_index(ts, baseline as int, prompt@);
    }
    while i < items.len()
        invariant
            baseline <= i,
            ts == views(items@),
            forall|k: int| baseline <= k < i && k < ts.len() ==> !is_prompt_turn(#[trigger] ts[k], prompt@),
        decreases items@.len() - i,
    {
        if prompt_turn(&items[i], prompt) {
            proof {
                assert(ts[i as int] == items@[i as int]@);
                lemma_prompt_index(ts, baseline as int, prompt@);
                lemma_prompt_first(ts, baseline as int, prompt@, i as int);
                if let Some(k) = prompt_index(ts, baseline as int, prompt@) {
                    if k < i {
                        assert(!is_prompt_turn(ts[k], prompt@));
                    }
                }
            }
            return Some(i);
        }
        assert(ts[i as int] == items@[i as int]@);
        i = i + 1;
    }
    proof {
        lemma_prompt_index(ts, baseline as int, prompt@);
    }
    None
}

proof fn lemma_prompt_first(ts: Seq<JsonView>, baseline: int, prompt: Seq<char>, i: int)
    requires
        0 <= baseline <= i < ts.len(),
        is_prompt_turn(ts[i], prompt),
    ensures
        prompt_index(ts, baseline, prompt) matches Some(k) && k <= i,
    decreases ts.len(),
{
    let d = ts.drop_last();
    assert(d.len() == ts.len() - 1);
    if ts.len() - 1 > i {
        assert(d[i] == ts[i]);
        lemma_prompt_first(d, baseline, prompt, i);
    } else {
        lemma_prompt_index(d, baseline, prompt);
        assert(ts.last() == ts[i]);
    }
}

/// Whether the snapshot shows the submitted user turn at or after `baseline`.
pub fn user_turn_confirmed(snapshot: &Json, baseline: usize, prompt: &str) -> (r: bool)
    ensures
        r == turn_confirmed(snapshot@, baseline as int, prompt@),
{
    match snapshot.field_items("turns") {
        Some(items) => find_prompt(items, baseline, &chars_of(prompt)).is_some(),
        None => false,
    }
}

/// The answer to the submitted prompt, if there is one yet. Refused when another user turn
/// follows the submitted one, so a manual follow-up is never attributed to the request.
pub fn response_after<'a>(snapshot: &'a Json, baseline: usize, prompt: &str) -> (r: Result<
    Option<&'a Json>,
    ObservationError,
>)
    ensures
        match answer_index(snapshot@, baseline as int, prompt@) {
            Err(e) => r == Err::<Option<&Json>, ObservationError>(e),
            Ok(None) => r == Ok::<Option<&Json>, ObservationError>(None),
            Ok(Some(k)) => r matches Ok(Some(t)) && t@ == turns_of(snapshot@)->0[k],
        },
{
    let items = match snapshot.field_items("turns") {
        Some(items) => items,
        None => return Ok(None),
    };
    let ghost ts = views(items@);
    let m = match find_prompt(items, baseline, &chars_of(prompt)) {
        Some(m) => m,
        None => return Ok(None),
    };
    proof {
        lemma_prompt_index(ts, baseline as int, prompt@);
    }
    let n = items.len();
    assert(m < n);
    let mut k: usize = m + 1;
    while k < items.len()
        invariant
            m < k,
            m < items@.len(),
            turns_of(snapshot@) == Some(ts),
            prompt_index(ts, baseline as int, prompt@) == Some(m as int),
            ts == views(items@),
            forall|j: int| m < j < k && j < ts.len() ==> !has_role(#[trigger] ts[j], "user"@),
        decreases items@.len() - k,
    {
        assert(ts[k as int] == items@[k as int]@);
        if items[k].field_is_text("role", "user") {
            assert(has_role(ts[k as int], "user"@));
            assert(user_after(ts, m as int));
            return Err(ObservationError::ConversationChanged);
        }
        k = k + 1;
    }
    assert(!user_after(ts, m as int));
    let mut k: usize = items.len();
    assert(ts.take(k as int) =~= ts);
    while k > m + 1
        invariant
            !user_after(ts, m as int),
            turns_of(snapshot@) == Some(ts),
            prompt_index(ts, baseline as int, prompt@) == Some(m as int),
            m < items@.len(),
            m + 1 <= k <= items@.len(),
            ts == views(items@),
            last_answer(ts, m as int) == last_answer(ts.take(k as int), m as int),
        decreases k,
    {
        let ghost pre = ts.take(k as int);
        assert(pre.drop_last() =~= ts.take(k - 1));
        assert(pre.last() == ts[k - 1]);
        assert(ts[k - 1] == items@[k - 1]@);
        if items[k - 1].field_is_text("role", "assistant") {
            assert(last_answer(pre, m as int) == Some(k - 1));
            return Ok(Some(&items[k - 1]));
        }
        k = k - 1;
    }
    proof {
        assert(last_answer(ts.take(k as int), m as int) is None) by {
            lemma_last_answer(ts.take(k as int), m as int);
        }
    }
    Ok(None)
}

/// Whether `response` is a finished answer (see `complete_answer`).
pub fn completion_candidate(snapshot: &Json, response: &Json) -> (r: bool)
    ensures
        r == complete_answer(snapshot@, response@),
{
    if !(snapshot.field_is_bool("busy", false) && response.field_is_bool("complete", true)) {
        return false;
    }
    match response.field_text("markdown") {
        Some(t) => !blank(t.as_str()),
        None => false,
    }
}

} // verus!
