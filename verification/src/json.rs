//! A JSON document as the service reads it: browser snapshots, captured responses and
//! stored request payloads. Numbers keep their decimal text.
use crate::text::{same_text};
use vstd::prelude::*;

verus! {

broadcast use vstd::std_specs::vec::group_vec_axioms;

/// A JSON value. Objects keep their members in document order.
pub enum Json {
    Null,
    Bool(bool),
    Number(String),
    Text(String),
    Array(Vec<Json>),
    Object(Vec<(String, Json)>),
}

/// The mathematical value of a `Json`.
#[verifier::ext_equal]
pub enum JsonView {
    Null,
    Bool(bool),
    Number(Seq<char>),
    Text(Seq<char>),
    Array(Seq<JsonView>),
    Object(Seq<(Seq<char>, JsonView)>),
}

/// The value of `j`.
pub open spec fn json_view(j: Json) -> JsonView
    decreases j,
{
    match j {
        Json::Null => JsonView::Null,
        Json::Bool(b) => JsonView::Bool(b),
        Json::Number(n) => JsonView::Number(n@),
        Json::Text(s) => JsonView::Text(s@),
        Json::Array(items) => JsonView::Array(
            Seq::new(
                items.len() as nat,
                |i: int|
                    if 0 <= i < items.len() {
                        json_view(items[i])
                    } else {
                        JsonView::Null
                    },
            ),
        ),
        Json::Object(members) => JsonView::Object(
            Seq::new(
                members.len() as nat,
                |i: int|
                    if 0 <= i < members.len() {
                        (members[i].0@, json_view(members[i].1))
                    } else {
                        (Seq::empty(), JsonView::Null)
                    },
            ),
        ),
    }
}

impl View for Json {
    type V = JsonView;

    open spec fn view(&self) -> JsonView {
        json_view(*self)
    }
}

/// The values of a list of JSON documents.
pub open spec fn views(items: Seq<Json>) -> Seq<JsonView> {
    Seq::new(items.len(), |i: int| items[i]@)
}

/// The value of the first member named `key`, when `members` has one.
pub open spec fn member_of(members: Seq<(Seq<char>, JsonView)>, key: Seq<char>) -> Option<JsonView>
    decreases members.len(),
{
    if members.len() == 0 {
        None
    } else if members[0].0 == key {
        Some(members[0].1)
    } else {
        member_of(members.drop_first(), key)
    }
}

/// `v[key]` as serde_json reads it: the member's value, or null when `v` is not an object or
/// has no such member.
pub open spec fn field(v: JsonView, key: Seq<char>) -> JsonView {
    match v {
        JsonView::Object(members) => match member_of(members, key) {
            Some(x) => x,
            None => JsonView::Null,
        },
        _ => JsonView::Null,
    }
}

/// The elements of an array value.
pub open spec fn items_of(v: JsonView) -> Option<Seq<JsonView>> {
    match v {
        JsonView::Array(items) => Some(items),
        _ => None,
    }
}

/// The text of a string value.
pub open spec fn text_of(v: JsonView) -> Option<Seq<char>> {
    match v {
        JsonView::Text(s) => Some(s),
        _ => None,
    }
}

impl Json {
    /// A copy with the same value.
    #[verifier::loop_isolation(false)]
    pub fn duplicate(&self) -> (r: Json)
        ensures
            r@ == self@,
        decreases self,
    {
        match self {
            Json::Null => Json::Null,
            Json::Bool(b) => Json::Bool(*b),
            Json::Number(n) => Json::Number(n.clone()),
            Json::Text(s) => Json::Text(s.clone()),
            Json::Array(items) => {
                let mut out: Vec<Json> = Vec::new();
                let mut i: usize = 0;
                while i < items.len()
                    invariant
                        i <= items@.len(),
                        out@.len() == i,
                        forall|k: int| 0 <= k < i ==> #[trigger] out@[k]@ == items@[k]@,
                    decreases items@.len() - i,
                {
                    proof {
                        assert(decreases_to!(*self => self->Array_0));
                        assert(decreases_to!(self->Array_0 => self->Array_0[i as int]));
                    }
                    out.push(items[i].duplicate());
                    i = i + 1;
                }
                let r = Json::Array(out);
                assert(r@->Array_0.len() == self@->Array_0.len());
                assert forall|k: int| 0 <= k < out@.len() implies #[trigger] r@->Array_0[k]
                    == self@->Array_0[k] by {
                    assert(r@->Array_0[k] == out@[k]@);
                    assert(self@->Array_0[k] == items@[k]@);
                }
                assert(r@->Array_0 =~= self@->Array_0);
                r
            },
            Json::Object(members) => {
                let mut out: Vec<(String, Json)> = Vec::new();
                let mut i: usize = 0;
                while i < members.len()
                    invariant
                        i <= members@.len(),
                        out@.len() == i,
                        forall|k: int|
                            0 <= k < i ==> #[trigger] out@[k].0@ == members@[k].0@ && out@[k].1@
                                == members@[k].1@,
                    decreases members@.len() - i,
                {
                    let (key, value) = &members[i];
                    proof {
                        assert(decreases_to!(*self => self->Object_0));
                        assert(decreases_to!(self->Object_0 => self->Object_0[i as int]));
                        assert(decreases_to!(self->Object_0[i as int] => self->Object_0[i as int].1));
                    }
                    out.push((key.clone(), value.duplicate()));
                    i = i + 1;
                }
                let r = Json::Object(out);
                assert forall|k: int| 0 <= k < out@.len() implies #[trigger] r@->Object_0[k]
                    == self@->Object_0[k] by {
                    assert(r@->Object_0[k] == (out@[k].0@, out@[k].1@));
                    assert(self@->Object_0[k] == (members@[k].0@, members@[k].1@));
                }
                assert(r@->Object_0 =~= self@->Object_0);
                r
            },
        }
    }

    /// `self[key]`: the first member named `key`, or `None` when there is none (serde_json
    /// reads that as null).
    pub fn get(&self, key: &str) -> (r: Option<&Json>)
        ensures
            match r {
                Some(v) => field(self@, key@) == v@ && (self@ matches JsonView::Object(m)
                    && member_of(m, key@) == Some(v@)),
                None => field(self@, key@) == JsonView::Null && (self@ matches JsonView::Object(
                    m,
                ) ==> member_of(m, key@) is None),
            },
    {
        match self {
            Json::Object(members) => {
                let ghost m = self@->Object_0;
                assert(*self == Json::Object(*members));
                assert(self@ is Object);
                assert(m.len() == members.len());
                assert(m.len() == members@.len());
                assert(forall|k: int| 0 <= k < m.len() ==> #[trigger] m[k] == (members@[k].0@, members@[k].1@));
                assert(m.skip(0) =~= m);
                let mut i: usize = 0;
                while i < members.len()
                    invariant
                        i <= members@.len(),
                        self@ == JsonView::Object(m),
                        m.len() == members@.len(),
                        forall|k: int|
                            0 <= k < m.len() ==> #[trigger] m[k] == (
                                members@[k].0@,
                                members@[k].1@,
                            ),
                        member_of(m, key@) == member_of(m.skip(i as int), key@),
                    decreases members@.len() - i,
                {
                    let (name, value) = &members[i];
                    assert(m.skip(i as int)[0] == m[i as int]);
                    assert(m.skip(i as int).drop_first() =~= m.skip(i + 1));
                    if same_text(name.as_str(), key) {
                        assert(m[i as int] == (name@, value@));
                        assert(member_of(m.skip(i as int), key@) == Some(value@));
                        return Some(value);
                    }
                    i = i + 1;
                }
                assert(m.skip(i as int).len() == 0);
                None
            },
            _ => None,
        }
    }

    /// Whether `self[key]` is the string `expected`.
    pub fn field_is_text(&self, key: &str, expected: &str) -> (r: bool)
        ensures
            r == (field(self@, key@) == JsonView::Text(expected@)),
    {
        match self.get(key) {
            Some(Json::Text(s)) => same_text(s.as_str(), expected),
            _ => false,
        }
    }

    /// Whether `self[key]` is the boolean `expected`.
    pub fn field_is_bool(&self, key: &str, expected: bool) -> (r: bool)
        ensures
            r == (field(self@, key@) == JsonView::Bool(expected)),
    {
        match self.get(key) {
            Some(Json::Bool(b)) => *b == expected,
            _ => false,
        }
    }

    /// `self[key].as_str()`.
    pub fn field_text(&self, key: &str) -> (r: Option<&String>)
        ensures
            match r {
                Some(s) => text_of(field(self@, key@)) == Some(s@),
                None => text_of(field(self@, key@)) is None,
            },
    {
        match self.get(key) {
            Some(Json::Text(s)) => Some(s),
            _ => None,
        }
    }

    /// `self[key].as_array()`.
    pub fn field_items(&self, key: &str) -> (r: Option<&Vec<Json>>)
        ensures
            match r {
                Some(v) => items_of(field(self@, key@)) == Some(views(v@)),
                None => items_of(field(self@, key@)) is None,
            },
    {
        match self.get(key) {
            Some(Json::Array(items)) => Some(items),
            _ => None,
        }
    }
}

/// A decimal digit.
pub open spec fn is_digit(c: char) -> bool {
    '0' <= c && c <= '9'
}

/// The number written by the decimal digits `s`.
pub open spec fn digits_value(s: Seq<char>) -> int
    decreases s.len(),
{
    if s.len() == 0 {
        0
    } else {
        digits_value(s.drop_last()) * 10 + (s.last() as int - '0' as int)
    }
}

/// Digits without a leading zero: how serde_json writes an unsigned integer.
pub open spec fn canonical_unsigned(s: Seq<char>) -> bool {
    &&& s.len() > 0
    &&& forall|i: int| 0 <= i < s.len() ==> is_digit(#[trigger] s[i])
    &&& (s.len() == 1 || s[0] != '0')
}

/// `v.as_u64()`: the value of an unsigned integer that fits in 64 bits.
pub open spec fn unsigned_of(v: JsonView) -> Option<u64> {
    match v {
        JsonView::Number(s) => if canonical_unsigned(s) && digits_value(s) <= u64::MAX {
            Some(digits_value(s) as u64)
        } else {
            None
        },
        _ => None,
    }
}

/// A longer digit string is worth at least as much as its prefix.
pub proof fn lemma_digits_prefix(s: Seq<char>, i: int)
    requires
        0 <= i <= s.len(),
        forall|k: int| 0 <= k < s.len() ==> is_digit(#[trigger] s[k]),
    ensures
        0 <= digits_value(s.take(i)) <= digits_value(s),
    decreases s.len(),
{
    if s.len() == 0 {
        assert(s.take(i) =~= s);
    } else if i == s.len() {
        assert(s.take(i) =~= s);
        lemma_digits_prefix(s.drop_last(), i - 1);
        assert(is_digit(s.last()));
    } else {
        lemma_digits_prefix(s.drop_last(), i);
        assert(s.drop_last().take(i) =~= s.take(i));
        assert(is_digit(s[s.len() - 1]));
    }
}

impl Json {
    /// `self.as_u64()`.
    pub fn as_u64(&self) -> (r: Option<u64>)
        ensures
            r == unsigned_of(self@),
    {
        let text = match self {
            Json::Number(n) => n,
            _ => return None,
        };
        let chars = crate::text::chars_of(text.as_str());
        let ghost s = text@;
        if chars.len() == 0 || (chars.len() > 1 && chars[0] == '0') {
            return None;
        }
        let mut value: u64 = 0;
        let mut i: usize = 0;
        while i < chars.len()
            invariant
                i <= chars@.len(),
                chars@ == s,
                s.len() > 0,
                s.len() == 1 || s[0] != '0',
                self@ == JsonView::Number(s),
                forall|k: int| 0 <= k < i ==> is_digit(#[trigger] s[k]),
                value == digits_value(s.take(i as int)),
            decreases chars@.len() - i,
        {
            let c = chars[i];
            if !('0' <= c && c <= '9') {
                assert(!canonical_unsigned(s));
                return None;
            }
            let d: u64 = (c as u32 - '0' as u32) as u64;
            assert(s.take(i + 1).drop_last() =~= s.take(i as int));
            if value > (u64::MAX - d) / 10 {
                assert(digits_value(s.take(i + 1)) > u64::MAX);
                proof {
                    if canonical_unsigned(s) {
                        lemma_digits_prefix(s, i + 1);
                    }
                }
                return None;
            }
            value = value * 10 + d;
            i = i + 1;
        }
        assert(s.take(s.len() as int) =~= s);
        Some(value)
    }

    /// `self.as_bool()`.
    pub fn as_bool(&self) -> (r: Option<bool>)
        ensures
            r == (match self@ {
                JsonView::Bool(b) => Some(b),
                _ => None,
            }),
    {
        match self {
            Json::Bool(b) => Some(*b),
            _ => None,
        }
    }
}

impl Json {
    /// Whether two documents have the same value (`==` on serde_json values).
    #[verifier::loop_isolation(false)]
    pub fn same(&self, other: &Json) -> (r: bool)
        ensures
            r == (self@ == other@),
        decreases self,
    {
        match (self, other) {
            (Json::Null, Json::Null) => true,
            (Json::Bool(a), Json::Bool(b)) => *a == *b,
            (Json::Number(a), Json::Number(b)) => same_text(a.as_str(), b.as_str()),
            (Json::Text(a), Json::Text(b)) => same_text(a.as_str(), b.as_str()),
            (Json::Array(a), Json::Array(b)) => {
                if a.len() != b.len() {
                    assert(self@->Array_0.len() != other@->Array_0.len());
                    return false;
                }
                let mut i: usize = 0;
                while i < a.len()
                    invariant
                        i <= a@.len(),
                        a@.len() == b@.len(),
                        forall|k: int| 0 <= k < i ==> #[trigger] a@[k]@ == b@[k]@,
                    decreases a@.len() - i,
                {
                    proof {
                        assert(decreases_to!(*self => self->Array_0));
                        assert(decreases_to!(self->Array_0 => self->Array_0[i as int]));
                    }
                    if !a[i].same(&b[i]) {
                        assert(self@->Array_0[i as int] == a@[i as int]@);
                        assert(other@->Array_0[i as int] == b@[i as int]@);
                        return false;
                    }
                    i = i + 1;
                }
                assert forall|k: int| 0 <= k < a@.len() implies #[trigger] self@->Array_0[k]
                    == other@->Array_0[k] by {
                    assert(self@->Array_0[k] == a@[k]@);
                    assert(other@->Array_0[k] == b@[k]@);
                }
                assert(self@->Array_0 =~= other@->Array_0);
                true
            },
            (Json::Object(a), Json::Object(b)) => {
                if a.len() != b.len() {
                    assert(self@->Object_0.len() != other@->Object_0.len());
                    return false;
                }
                let mut i: usize = 0;
                while i < a.len()
                    invariant
                        i <= a@.len(),
                        a@.len() == b@.len(),
                        forall|k: int|
                            0 <= k < i ==> (#[trigger] a@[k]).0@ == b@[k].0@ && a@[k].1@ == b@[k].1@,
                    decreases a@.len() - i,
                {
                    proof {
                        assert(decreases_to!(*self => self->Object_0));
                        assert(decreases_to!(self->Object_0 => self->Object_0[i as int]));
                        assert(decreases_to!(self->Object_0[i as int] => self->Object_0[i as int].1));
                    }
                    let same_key = same_text(a[i].0.as_str(), b[i].0.as_str());
                    let same_value = a[i].1.same(&b[i].1);
                    if !same_key || !same_value {
                        assert(self@->Object_0[i as int] == (a@[i as int].0@, a@[i as int].1@));
                        assert(other@->Object_0[i as int] == (b@[i as int].0@, b@[i as int].1@));
                        return false;
                    }
                    assert(a@[i as int].0@ == b@[i as int].0@ && a@[i as int].1@ == b@[i as int].1@);
                    i = i + 1;
                }
                assert forall|k: int| 0 <= k < a@.len() implies #[trigger] self@->Object_0[k]
                    == other@->Object_0[k] by {
                    assert(self@->Object_0[k] == (a@[k].0@, a@[k].1@));
                    assert(other@->Object_0[k] == (b@[k].0@, b@[k].1@));
                }
                assert(self@->Object_0 =~= other@->Object_0);
                true
            },
            _ => false,
        }
    }
}

/// Equality of documents as serde_json's `Value` has it, where an object is a map: objects
/// are equal when they have as many members and each member of the first has an equal value
/// under the same key in the second (serde_json's maps hold each key once, so this is equality
/// of the maps whatever order their members came in).
pub open spec fn same_document(a: JsonView, b: JsonView) -> bool
    decreases a,
{
    match a {
        JsonView::Array(xs) => match b {
            JsonView::Array(ys) => xs.len() == ys.len() && forall|i: int|
                0 <= i < xs.len() ==> same_document(#[trigger] xs[i], ys[i]),
            _ => false,
        },
        JsonView::Object(m) => match b {
            JsonView::Object(n) => m.len() == n.len() && forall|i: int|
                0 <= i < m.len() ==> match member_of(n, #[trigger] m[i].0) {
                    Some(y) => same_document(m[i].1, y),
                    None => false,
                },
            _ => false,
        },
        _ => a == b,
    }
}

impl Json {
    /// Whether two documents are equal as serde_json values, objects compared as maps.
    #[verifier::loop_isolation(false)]
    pub fn same_document(&self, other: &Json) -> (r: bool)
        ensures
            r == same_document(self@, other@),
        decreases self,
    {
        match (self, other) {
            (Json::Array(a), Json::Array(b)) => {
                let ghost xs = self@->Array_0;
                let ghost ys = other@->Array_0;
                assert(forall|k: int| 0 <= k < xs.len() ==> #[trigger] xs[k] == a@[k]@);
                assert(forall|k: int| 0 <= k < ys.len() ==> #[trigger] ys[k] == b@[k]@);
                assert(self@ == JsonView::Array(xs) && xs.len() == a@.len());
                assert(other@ == JsonView::Array(ys) && ys.len() == b@.len());
                if a.len() != b.len() {
                    return false;
                }
                let mut i: usize = 0;
                while i < a.len()
                    invariant
                        i <= a@.len(),
                        a@.len() == b@.len(),
                        forall|k: int| 0 <= k < i ==> #[trigger] same_document(xs[k], ys[k]),
                    decreases a@.len() - i,
                {
                    proof {
                        assert(decreases_to!(*self => self->Array_0));
                        assert(decreases_to!(self->Array_0 => self->Array_0[i as int]));
                    }
                    if !a[i].same_document(&b[i]) {
                        assert(!same_document(self@, other@)) by {
                            assert(self@ == JsonView::Array(xs));
                            assert(other@ == JsonView::Array(ys));
                            assert(!same_document(xs[i as int], ys[i as int]));
                        }
                        return false;
                    }
                    i = i + 1;
                }
                assert(same_document(self@, other@)) by {
                    assert forall|k: int| 0 <= k < xs.len() implies same_document(#[trigger] xs[k], ys[k]) by {
                        assert(same_document(xs[k], ys[k]));
                    }
                }
                true
            },
            (Json::Object(a), Json::Object(b)) => {
                let ghost m = self@->Object_0;
                let ghost n = other@->Object_0;
                assert(forall|k: int| 0 <= k < m.len() ==> #[trigger] m[k] == (a@[k].0@, a@[k].1@));
                if a.len() != b.len() {
                    return false;
                }
                let mut i: usize = 0;
                while i < a.len()
                    invariant
                        i <= a@.len(),
                        a@.len() == b@.len(),
                        other@ == JsonView::Object(n),
                        forall|k: int|
                            0 <= k < i ==> match member_of(n, #[trigger] m[k].0) {
                                Some(y) => same_document(m[k].1, y),
                                None => false,
                            },
                    decreases a@.len() - i,
                {
                    proof {
                        assert(decreases_to!(*self => self->Object_0));
                        assert(decreases_to!(self->Object_0 => self->Object_0[i as int]));
                        assert(decreases_to!(self->Object_0[i as int] => self->Object_0[i as int].1));
                    }
                    let found = other.get(a[i].0.as_str());
                    match found {
                        Some(y) => {
                            if !a[i].1.same_document(y) {
                                assert(!same_document(self@, other@)) by {
                                    assert(self@ == JsonView::Object(m));
                                    assert(m[i as int] == (a@[i as int].0@, a@[i as int].1@));
                                    assert(member_of(n, m[i as int].0) == Some(y@));
                                }
                                return false;
                            }
                        },
                        None => {
                            assert(!same_document(self@, other@)) by {
                                assert(self@ == JsonView::Object(m));
                                assert(m[i as int] == (a@[i as int].0@, a@[i as int].1@));
                                assert(member_of(n, m[i as int].0) is None);
                            }
                            return false;
                        },
                    }
                    i = i + 1;
                }
                assert(same_document(self@, other@)) by {
                    assert(self@ == JsonView::Object(m));
                    assert(m.len() == a@.len());
                    assert(n.len() == b@.len());
                }
                true
            },
            (Json::Array(_), _) => false,
            (Json::Object(_), _) => false,
            _ => self.same(other),
        }
    }
}

} // verus!
