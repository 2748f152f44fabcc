//! Character-level rules: Unicode whitespace, words, trimming, label normalisation and
//! the Windows command-line quoting used to launch Chrome.
use vstd::prelude::*;

verus! {

/// Unicode `White_Space` property (PropList.txt).
pub open spec fn is_white_space(c: char) -> bool {
    let u = c as u32;
    ||| 0x9 <= u <= 0xD
    ||| u == 0x20
    ||| u == 0x85
    ||| u == 0xA0
    ||| u == 0x1680
    ||| 0x2000 <= u <= 0x200A
    ||| u == 0x2028
    ||| u == 0x2029
    ||| u == 0x202F
    ||| u == 0x205F
    ||| u == 0x3000
}

/// Whether `c` is alphabetic or numeric in Unicode (`Alphabetic` or a numeric category).
pub uninterp spec fn is_alphanumeric(c: char) -> bool;

/// The lowercase mapping of `c` from Unicode's case tables.
pub uninterp spec fn lowercase(c: char) -> Seq<char>;

/// Whether `c` is whitespace: the Unicode `White_Space` table, as `char::is_whitespace`
/// documents it.
pub(crate) fn char_is_whitespace(c: char) -> (r: bool)
    ensures
        r == is_white_space(c),
{
    let u: u32 = c as u32;
    (0x9 <= u && u <= 0xD) || u == 0x20 || u == 0x85 || u == 0xA0 || u == 0x1680
        || (0x2000 <= u && u <= 0x200A) || u == 0x2028 || u == 0x2029 || u == 0x202F
        || u == 0x205F || u == 0x3000
}

/// Whether `c` is an ASCII character.
pub open spec fn is_ascii_char(c: char) -> bool {
    (c as u32) < 0x80
}

/// Whether every character of `s` is ASCII.
pub open spec fn all_ascii(s: Seq<char>) -> bool {
    forall|i: int| 0 <= i < s.len() ==> #[trigger] is_ascii_char(s[i])
}

/// ASCII digits and letters.
pub open spec fn ascii_alnum(c: char) -> bool {
    let u = c as u32;
    ||| 0x30 <= u <= 0x39
    ||| 0x41 <= u <= 0x5A
    ||| 0x61 <= u <= 0x7A
}

/// ASCII lowercase: `A`..`Z` become `a`..`z`, every other character stays.
pub open spec fn ascii_lower(c: char) -> char {
    let u = c as u32;
    if 0x41 <= u <= 0x5A {
        (u + 0x20) as char
    } else {
        c
    }
}

/// `char::is_alphanumeric`; its result is named by `is_alphanumeric`. On ASCII, the
/// Alphabetic and numeric characters are exactly the digits and the letters.
#[verifier::external_body]
fn char_is_alphanumeric(c: char) -> (r: bool)
    ensures
        r == is_alphanumeric(c),
        is_ascii_char(c) ==> (r == ascii_alnum(c)),
{
    c.is_alphanumeric()
}

/// `char::to_lowercase`, collected; its result is named by `lowercase`. On ASCII it is the
/// single character that ASCII lowercasing gives.
#[verifier::external_body]
fn char_to_lowercase(c: char) -> (r: Vec<char>)
    ensures
        r@ == lowercase(c),
        is_ascii_char(c) ==> r@ == seq![ascii_lower(c)],
{
    c.to_lowercase().collect()
}

/// `String: FromIterator<char>`: the string holding exactly the given characters.
#[verifier::external_body]
pub(crate) fn string_of(chars: &Vec<char>) -> (s: String)
    ensures
        s@ == chars@,
{
    chars.iter().collect()
}

/// The characters of `s`, in order.
pub fn chars_of(s: &str) -> (v: Vec<char>)
    ensures
        v@ == s@,
{
    broadcast use vstd::string::group_string_axioms;

    let mut v: Vec<char> = Vec::new();
    for c in it: s.chars()
        invariant
            it.seq() == s@,
            v@ == s@.take(it.index()),
    {
        v.push(c);
    }
    assert(v@ =~= s@);
    v
}

/// Whether position `i` of `s` begins a word: a non-whitespace character at the start of the
/// text or right after whitespace.
pub open spec fn starts_word(s: Seq<char>, i: int) -> bool {
    &&& !is_white_space(s[i])
    &&& (i == 0 || is_white_space(s[i - 1]))
}

/// Number of whitespace-separated words (what `split_whitespace().count()` yields).
pub open spec fn word_count(s: Seq<char>) -> nat
    decreases s.len(),
{
    if s.len() == 0 {
        0
    } else {
        word_count(s.drop_last()) + if starts_word(s, s.len() - 1) {
            1nat
        } else {
            0nat
        }
    }
}

pub proof fn lemma_word_count_bound(s: Seq<char>)
    ensures
        word_count(s) <= s.len(),
    decreases s.len(),
{
    if s.len() > 0 {
        lemma_word_count_bound(s.drop_last());
    }
}

/// Counts the words of `text`.
pub fn count_words(text: &str) -> (n: usize)
    ensures
        n == word_count(text@),
{
    let chars = chars_of(text);
    let mut n: usize = 0;
    let mut i: usize = 0;
    while i < chars.len()
        invariant
            i <= chars@.len(),
            n == word_count(chars@.take(i as int)),
            n <= i,
        decreases chars@.len() - i,
    {
        let begins = !char_is_whitespace(chars[i]) && (i == 0 || char_is_whitespace(chars[i - 1]));
        proof {
            let t = chars@.take(i + 1);
            assert(t.drop_last() =~= chars@.take(i as int));
            assert(starts_word(t, i as int) == starts_word(chars@, i as int));
        }
        if begins {
            n = n + 1;
        }
        i = i + 1;
    }
    assert(chars@.take(i as int) =~= chars@);
    n
}

/// Whether every character is whitespace (the text trims to nothing).
pub open spec fn is_blank(s: Seq<char>) -> bool {
    forall|i: int| 0 <= i < s.len() ==> is_white_space(#[trigger] s[i])
}

/// Decides `is_blank` for a string.
pub fn blank(text: &str) -> (r: bool)
    ensures
        r == is_blank(text@),
{
    let chars = chars_of(text);
    let mut i: usize = 0;
    while i < chars.len()
        invariant
            i <= chars@.len(),
            chars@ == text@,
            forall|j: int| 0 <= j < i ==> is_white_space(#[trigger] chars@[j]),
        decreases chars@.len() - i,
    {
        if !char_is_whitespace(chars[i]) {
            return false;
        }
        i = i + 1;
    }
    true
}

/// Index of the first non-whitespace character (or the length when there is none).
pub open spec fn trim_start_index(s: Seq<char>) -> int
    decreases s.len(),
{
    if s.len() == 0 || !is_white_space(s[0]) {
        0
    } else {
        1 + trim_start_index(s.drop_first())
    }
}

/// Index just past the last non-whitespace character (or zero when there is none).
pub open spec fn trim_end_index(s: Seq<char>) -> int
    decreases s.len(),
{
    if s.len() == 0 || !is_white_space(s.last()) {
        s.len() as int
    } else {
        trim_end_index(s.drop_last())
    }
}

/// `s` without leading and trailing whitespace (`str::trim`).
pub open spec fn trimmed(s: Seq<char>) -> Seq<char> {
    let a = trim_start_index(s);
    let b = trim_end_index(s);
    if a < b {
        s.subrange(a, b)
    } else {
        Seq::empty()
    }
}

proof fn lemma_trim_start(s: Seq<char>, i: int)
    requires
        0 <= i <= s.len(),
        forall|j: int| 0 <= j < i ==> is_white_space(#[trigger] s[j]),
    ensures
        trim_start_index(s) == i + trim_start_index(s.subrange(i, s.len() as int)),
    decreases i,
{
    if i > 0 {
        lemma_trim_start(s.drop_first(), i - 1);
        assert(s.drop_first().subrange(i - 1, s.drop_first().len() as int) =~= s.subrange(
            i,
            s.len() as int,
        ));
    } else {
        assert(s.subrange(0, s.len() as int) =~= s);
    }
}

proof fn lemma_trim_end(s: Seq<char>, k: int)
    requires
        0 <= k <= s.len(),
        forall|j: int| k <= j < s.len() ==> is_white_space(#[trigger] s[j]),
    ensures
        trim_end_index(s) == trim_end_index(s.subrange(0, k)),
    decreases s.len() - k,
{
    if k < s.len() {
        lemma_trim_end(s.drop_last(), k);
        assert(s.drop_last().subrange(0, k) =~= s.subrange(0, k));
    } else {
        assert(s.subrange(0, k) =~= s);
    }
}

proof fn lemma_trim_start_bound(s: Seq<char>)
    ensures
        0 <= trim_start_index(s) <= s.len(),
    decreases s.len(),
{
    if s.len() > 0 && is_white_space(s[0]) {
        lemma_trim_start_bound(s.drop_first());
    }
}

proof fn lemma_trim_end_bound(s: Seq<char>)
    ensures
        0 <= trim_end_index(s) <= s.len(),
    decreases s.len(),
{
    if s.len() > 0 && is_white_space(s.last()) {
        lemma_trim_end_bound(s.drop_last());
    }
}

/// `text` without leading and trailing whitespace.
pub fn trim(text: &Vec<char>) -> (r: Vec<char>)
    ensures
        r@ == trimmed(text@),
{
    let ghost s = text@;
    let mut a: usize = 0;
    while a < text.len() && char_is_whitespace(text[a])
        invariant
            a <= s.len(),
            s == text@,
            forall|j: int| 0 <= j < a ==> is_white_space(#[trigger] s[j]),
        decreases s.len() - a,
    {
        a = a + 1;
    }
    let mut b: usize = text.len();
    while b > a && char_is_whitespace(text[b - 1])
        invariant
            a <= b <= s.len(),
            s == text@,
            forall|j: int| b <= j < s.len() ==> is_white_space(#[trigger] s[j]),
        decreases b,
    {
        b = b - 1;
    }
    proof {
        lemma_trim_start(s, a as int);
        let rest = s.subrange(a as int, s.len() as int);
        if a < s.len() {
            assert(rest[0] == s[a as int]);
        }
        assert(trim_start_index(rest) == 0);
        lemma_trim_end(s, b as int);
        let pre = s.subrange(0, b as int);
        if b > a {
            assert(pre.last() == s[b - 1]);
            assert(trim_end_index(pre) == b);
        } else {
            lemma_trim_end_bound(pre);
            if a < s.len() {
                // the first non-whitespace character lies at `a`, so nothing survives before it
                assert(trim_end_index(s) <= a);
            }
        }
    }
    let mut r: Vec<char> = Vec::new();
    let mut i: usize = a;
    while i < b
        invariant
            a <= i <= b <= s.len(),
            s == text@,
            r@ == s.subrange(a as int, i as int),
        decreases b - i,
    {
        r.push(text[i]);
        i = i + 1;
        assert(r@ =~= s.subrange(a as int, i as int));
    }
    r
}

/// A UI label reduced to its lowercase letters and digits, so that "Extra High" and
/// "extra-high" compare equal.
pub open spec fn normalized_label(s: Seq<char>) -> Seq<char>
    decreases s.len(),
{
    if s.len() == 0 {
        Seq::empty()
    } else {
        normalized_label(s.drop_last()) + if is_alphanumeric(s.last()) {
            lowercase(s.last())
        } else {
            Seq::empty()
        }
    }
}

/// An ASCII label reduced to its digits and letters, lowercased.
pub open spec fn ascii_normal(s: Seq<char>) -> Seq<char>
    decreases s.len(),
{
    if s.len() == 0 {
        Seq::empty()
    } else {
        ascii_normal(s.drop_last()) + if ascii_alnum(s.last()) {
            seq![ascii_lower(s.last())]
        } else {
            Seq::empty()
        }
    }
}

/// Normalises a UI label: keeps alphanumeric characters, lowercased.
pub fn normalized(label: &str) -> (r: String)
    ensures
        r@ == normalized_label(label@),
        all_ascii(label@) ==> r@ == ascii_normal(label@),
{
    let chars = chars_of(label);
    let mut out: Vec<char> = Vec::new();
    let mut i: usize = 0;
    while i < chars.len()
        invariant
            i <= chars@.len(),
            chars@ == label@,
            out@ == normalized_label(chars@.take(i as int)),
            all_ascii(label@) ==> out@ == ascii_normal(chars@.take(i as int)),
        decreases chars@.len() - i,
    {
        let c = chars[i];
        proof {
            assert(chars@.take(i + 1).drop_last() =~= chars@.take(i as int));
            if all_ascii(label@) {
                assert(is_ascii_char(chars@[i as int]));
            }
        }
        if char_is_alphanumeric(c) {
            let lower = char_to_lowercase(c);
            let mut k: usize = 0;
            let ghost before = out@;
            while k < lower.len()
                invariant
                    k <= lower@.len(),
                    out@ == before + lower@.take(k as int),
                decreases lower@.len() - k,
            {
                out.push(lower[k]);
                k = k + 1;
                assert(out@ =~= before + lower@.take(k as int));
            }
            assert(lower@.take(lower@.len() as int) =~= lower@);
        }
        i = i + 1;
    }
    assert(chars@.take(chars@.len() as int) =~= chars@);
    string_of(&out)
}

/// `n` copies of `c`.
pub open spec fn repeat(c: char, n: nat) -> Seq<char> {
    Seq::new(n, |_i: int| c)
}

/// Windows command-line escaping of `s`, given `k` backslashes still pending in front of it:
/// backslashes are doubled before a quote or the closing quote, a quote is escaped, and other
/// backslash runs are kept as they are.
pub open spec fn escaped(s: Seq<char>, k: nat) -> Seq<char>
    decreases s.len(),
{
    if s.len() == 0 {
        repeat('\\', 2 * k)
    } else if s[0] == '\\' {
        escaped(s.drop_first(), k + 1)
    } else if s[0] == '"' {
        repeat('\\', 2 * k + 1) + seq!['"'] + escaped(s.drop_first(), 0)
    } else {
        repeat('\\', k) + seq![s[0]] + escaped(s.drop_first(), 0)
    }
}

/// The argument `s` as `CommandLineToArgvW` reads it back: quoted and escaped.
pub open spec fn quoted(s: Seq<char>) -> Seq<char> {
    seq!['"'] + escaped(s, 0) + seq!['"']
}

fn push_repeated(out: &mut Vec<char>, c: char, n: usize)
    ensures
        final(out)@ == old(out)@ + repeat(c, n as nat),
{
    let mut k: usize = 0;
    while k < n
        invariant
            k <= n,
            out@ == old(out)@ + repeat(c, k as nat),
        decreases n - k,
    {
        out.push(c);
        k = k + 1;
        assert(out@ =~= old(out)@ + repeat(c, k as nat));
    }
}

/// Quotes one command-line argument for Windows process creation.
pub fn quote(value: &str) -> (r: String)
    ensures
        r@ == quoted(value@),
{
    let chars = chars_of(value);
    let ghost s = chars@;
    let mut out: Vec<char> = Vec::new();
    out.push('"');
    let mut slashes: usize = 0;
    let mut i: usize = 0;
    assert(s.skip(0) =~= s);
    while i < chars.len()
        invariant
            i <= s.len(),
            s == chars@,
            slashes <= i,
            seq!['"'] + escaped(s, 0) == out@ + escaped(s.skip(i as int), slashes as nat),
        decreases s.len() - i,
    {
        let c = chars[i];
        let ghost rest = s.skip(i as int);
        assert(rest[0] == c);
        assert(rest.drop_first() =~= s.skip(i + 1));
        if c == '\\' {
            slashes = slashes + 1;
        } else {
            let ghost prev = out@;
            let ghost k0 = slashes as nat;
            if c == '"' {
                push_repeated(&mut out, '\\', slashes);
                push_repeated(&mut out, '\\', slashes);
                out.push('\\');
                assert(repeat('\\', slashes as nat) + repeat('\\', slashes as nat) + seq!['\\']
                    =~= repeat('\\', 2 * slashes as nat + 1));
            } else {
                push_repeated(&mut out, '\\', slashes);
            }
            out.push(c);
            slashes = 0;
            if c == '"' {
                assert(out@ =~= prev + repeat('\\', 2 * k0 + 1) + seq![c]);
            } else {
                assert(out@ =~= prev + repeat('\\', k0) + seq![c]);
            }
            assert(out@ + escaped(s.skip(i + 1), 0) =~= prev + escaped(rest, k0));
        }
        i = i + 1;
    }
    push_repeated(&mut out, '\\', slashes);
    push_repeated(&mut out, '\\', slashes);
    out.push('"');
    assert(s.skip(s.len() as int) =~= Seq::<char>::empty());
    assert(repeat('\\', slashes as nat) + repeat('\\', slashes as nat) =~= repeat(
        '\\',
        2 * slashes as nat,
    ));
    assert(out@ =~= quoted(s));
    string_of(&out)
}

/// Decides whether two character sequences are equal.
pub fn chars_equal(a: &Vec<char>, b: &Vec<char>) -> (r: bool)
    ensures
        r == (a@ == b@),
{
    if a.len() != b.len() {
        return false;
    }
    let mut i: usize = 0;
    while i < a.len()
        invariant
            i <= a@.len(),
            a@.len() == b@.len(),
            forall|j: int| 0 <= j < i ==> a@[j] == b@[j],
        decreases a@.len() - i,
    {
        if a[i] != b[i] {
            return false;
        }
        i = i + 1;
    }
    assert(a@ =~= b@);
    true
}

/// Decides whether two strings hold the same characters.
pub fn same_text(a: &str, b: &str) -> (r: bool)
    ensures
        r == (a@ == b@),
{
    chars_equal(&chars_of(a), &chars_of(b))
}

/// Whether `s` begins with `prefix`.
pub open spec fn has_prefix(s: Seq<char>, prefix: Seq<char>) -> bool {
    prefix.len() <= s.len() && s.take(prefix.len() as int) == prefix
}

/// Decides `has_prefix`.
pub fn starts_with(s: &Vec<char>, prefix: &Vec<char>) -> (r: bool)
    ensures
        r == has_prefix(s@, prefix@),
{
    if prefix.len() > s.len() {
        return false;
    }
    let mut i: usize = 0;
    while i < prefix.len()
        invariant
            i <= prefix@.len() <= s@.len(),
            forall|j: int| 0 <= j < i ==> s@[j] == prefix@[j],
        decreases prefix@.len() - i,
    {
        if s[i] != prefix[i] {
            assert(s@.take(prefix@.len() as int)[i as int] != prefix@[i as int]);
            return false;
        }
        i = i + 1;
    }
    assert(s@.take(prefix@.len() as int) =~= prefix@);
    true
}

/// `s` split at every '/' (what `str::split('/')` yields): always at least one piece.
pub open spec fn split_slash(s: Seq<char>) -> Seq<Seq<char>>
    decreases s.len(),
{
    if s.len() == 0 {
        seq![Seq::empty()]
    } else {
        let init = split_slash(s.drop_last());
        if s.last() == '/' {
            init.push(Seq::empty())
        } else {
            init.update(init.len() - 1, init.last().push(s.last()))
        }
    }
}

pub proof fn lemma_split_slash_nonempty(s: Seq<char>)
    ensures
        split_slash(s).len() >= 1,
    decreases s.len(),
{
    if s.len() > 0 {
        lemma_split_slash_nonempty(s.drop_last());
    }
}

/// Splits a path at every '/'.
pub fn split_path(path: &str) -> (parts: Vec<Vec<char>>)
    ensures
        parts@.len() == split_slash(path@).len(),
        forall|i: int| 0 <= i < parts@.len() ==> #[trigger] parts@[i]@ == split_slash(path@)[i],
{
    let chars = chars_of(path);
    let mut parts: Vec<Vec<char>> = Vec::new();
    parts.push(Vec::new());
    let mut i: usize = 0;
    assert(chars@.take(0) =~= Seq::<char>::empty());
    while i < chars.len()
        invariant
            i <= chars@.len(),
            chars@ == path@,
            parts@.len() == split_slash(chars@.take(i as int)).len(),
            parts@.len() >= 1,
            forall|k: int|
                0 <= k < parts@.len() ==> #[trigger] parts@[k]@ == split_slash(
                    chars@.take(i as int),
                )[k],
        decreases chars@.len() - i,
    {
        let c = chars[i];
        proof {
            assert(chars@.take(i + 1).drop_last() =~= chars@.take(i as int));
            lemma_split_slash_nonempty(chars@.take(i as int));
        }
        if c == '/' {
            parts.push(Vec::new());
        } else {
            let last = parts.len() - 1;
            let mut piece = parts.pop().unwrap();
            piece.push(c);
            parts.push(piece);
            assert(parts@.len() - 1 == last);
        }
        i = i + 1;
    }
    assert(chars@.take(chars@.len() as int) =~= chars@);
    parts
}

/// The decimal digit for `d < 10`.
pub open spec fn digit(d: nat) -> char {
    if d == 0 {
        '0'
    } else if d == 1 {
        '1'
    } else if d == 2 {
        '2'
    } else if d == 3 {
        '3'
    } else if d == 4 {
        '4'
    } else if d == 5 {
        '5'
    } else if d == 6 {
        '6'
    } else if d == 7 {
        '7'
    } else if d == 8 {
        '8'
    } else {
        '9'
    }
}

/// The decimal notation of `n`, without leading zeros.
pub open spec fn decimal(n: nat) -> Seq<char>
    decreases n,
{
    if n < 10 {
        seq![digit(n)]
    } else {
        decimal(n / 10).push(digit(n % 10))
    }
}

fn digit_char(d: u64) -> (c: char)
    requires
        d < 10,
    ensures
        c == digit(d as nat),
{
    match d {
        0 => '0',
        1 => '1',
        2 => '2',
        3 => '3',
        4 => '4',
        5 => '5',
        6 => '6',
        7 => '7',
        8 => '8',
        _ => '9',
    }
}

/// The decimal digits of `n`.
pub fn decimal_chars(n: u64) -> (v: Vec<char>)
    ensures
        v@ == decimal(n as nat),
    decreases n,
{
    if n < 10 {
        let mut v: Vec<char> = Vec::new();
        v.push(digit_char(n));
        assert(v@ =~= seq![digit(n as nat)]);
        v
    } else {
        let mut v = decimal_chars(n / 10);
        v.push(digit_char(n % 10));
        v
    }
}

/// `n` written in decimal.
pub fn decimal_string(n: u64) -> (s: String)
    ensures
        s@ == decimal(n as nat),
{
    string_of(&decimal_chars(n))
}

/// The decimal notation of a signed integer.
pub open spec fn signed_decimal(n: int) -> Seq<char> {
    if n < 0 {
        seq!['-'] + decimal((-n) as nat)
    } else {
        decimal(n as nat)
    }
}

/// `n` written in decimal, with a leading '-' when negative.
pub fn signed_decimal_string(n: i64) -> (s: String)
    ensures
        s@ == signed_decimal(n as int),
{
    if n < 0 {
        let magnitude: u64 = if n == i64::MIN {
            9223372036854775808u64
        } else {
            (-n) as u64
        };
        let mut v: Vec<char> = Vec::new();
        v.push('-');
        let digits = decimal_chars(magnitude);
        let mut i: usize = 0;
        while i < digits.len()
            invariant
                i <= digits@.len(),
                v@ == seq!['-'] + digits@.take(i as int),
            decreases digits@.len() - i,
        {
            v.push(digits[i]);
            assert(digits@.take(i + 1) =~= digits@.take(i as int).push(digits@[i as int]));
            i = i + 1;
        }
        assert(digits@.take(digits@.len() as int) =~= digits@);
        assert(v@ =~= seq!['-'] + decimal((-n) as nat));
        string_of(&v)
    } else {
        decimal_string(n as u64)
    }
}

} // verus!
