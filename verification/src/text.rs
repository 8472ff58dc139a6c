//! Character-level helpers shared by the lexer, the symbol tables and the
//! evaluator: conversions between strings and character vectors, UTF-8 byte
//! lengths, character classes and decimal numbers.

use vstd::prelude::*;
use vstd::std_specs::iter::IteratorSpec;
use vstd::string::StringExecFns;
use vstd::utf8::encode_scalar;
use vstd::utf8::encode_utf8;

verus! {

/// `String::push` appends exactly one character to the string.
pub assume_specification[ std::string::String::push ](s: &mut std::string::String, c: char)
    ensures
        final(s)@ == old(s)@.push(c),
;

/// What the standard library writes for a text in its `Debug` form: the
/// text between double quotes, with the backslashes and quotes in it, and
/// the characters that cannot be printed, escaped.
pub uninterp spec fn debug_text(text: Seq<char>) -> Seq<char>;

/// The text as the standard library writes it in its `Debug` form. This
/// calls the `Debug` formatting of `str`; nothing is proved of it, and the
/// contract claims only that what it gives depends on the text alone.
#[verifier::external_body]
pub(crate) fn quoted(text: &str) -> (out: String)
    ensures
        out@ == debug_text(text@),
{
    format!("{:?}", text)
}


/// The characters of a string slice, in order.
pub fn chars_of(s: &str) -> (out: Vec<char>)
    ensures
        out@ == s@,
{
    let mut out: Vec<char> = Vec::new();
    for c in it: s.chars()
        invariant
            it.seq() == s@,
            out@ == s@.subrange(0, it.index() as int),
    {
        out.push(c);
    }
    out
}

/// A fresh string holding `chars[from..to]`.
pub fn string_of(chars: &Vec<char>, from: usize, to: usize) -> (out: String)
    requires
        from <= to <= chars.len(),
    ensures
        out@ == chars@.subrange(from as int, to as int),
{
    let mut out = String::new();
    let mut i: usize = from;
    while i < to
        invariant
            from <= i <= to <= chars.len(),
            out@ == chars@.subrange(from as int, i as int),
        decreases to - i,
    {
        out.push(chars[i]);
        i += 1;
    }
    out
}

/// Whether two strings hold the same characters.
pub fn same_text(a: &str, b: &str) -> (r: bool)
    ensures
        r == (a@ == b@),
{
    let x = chars_of(a);
    let y = chars_of(b);
    if x.len() != y.len() {
        return false;
    }
    let mut i: usize = 0;
    while i < x.len()
        invariant
            i <= x.len(),
            x.len() == y.len(),
            x@ == a@,
            y@ == b@,
            x@.subrange(0, i as int) == y@.subrange(0, i as int),
        decreases x.len() - i,
    {
        if x[i] != y[i] {
            return false;
        }
        assert(x@.subrange(0, i + 1) == x@.subrange(0, i as int).push(x@[i as int]));
        assert(y@.subrange(0, i + 1) == y@.subrange(0, i as int).push(y@[i as int]));
        i += 1;
    }
    assert(x@ == x@.subrange(0, x.len() as int));
    assert(y@ == y@.subrange(0, y.len() as int));
    true
}

/// `a` followed by `b`, as a fresh string.
pub fn concat_text(a: &str, b: &str) -> (out: String)
    ensures
        out@ == a@ + b@,
{
    let mut out = String::from_str(a);
    out.append(b);
    out
}

/// Lower-case ASCII letter.
pub open spec fn is_lower(c: char) -> bool {
    'a' <= c && c <= 'z'
}

/// Upper-case ASCII letter.
pub open spec fn is_upper(c: char) -> bool {
    'A' <= c && c <= 'Z'
}

/// ASCII decimal digit.
pub open spec fn is_digit(c: char) -> bool {
    '0' <= c && c <= '9'
}

/// ASCII letter or digit.
pub open spec fn is_alphanumeric(c: char) -> bool {
    is_lower(c) || is_upper(c) || is_digit(c)
}

#[verifier::when_used_as_spec(is_lower)]
pub fn char_is_lower(c: char) -> (r: bool)
    ensures
        r == is_lower(c),
{
    'a' <= c && c <= 'z'
}

#[verifier::when_used_as_spec(is_upper)]
pub fn char_is_upper(c: char) -> (r: bool)
    ensures
        r == is_upper(c),
{
    'A' <= c && c <= 'Z'
}

#[verifier::when_used_as_spec(is_digit)]
pub fn char_is_digit(c: char) -> (r: bool)
    ensures
        r == is_digit(c),
{
    '0' <= c && c <= '9'
}

#[verifier::when_used_as_spec(is_alphanumeric)]
pub fn char_is_alphanumeric(c: char) -> (r: bool)
    ensures
        r == is_alphanumeric(c),
{
    char_is_lower(c) || char_is_upper(c) || char_is_digit(c)
}

/// Number of bytes that the UTF-8 encoding of `s` takes.
pub open spec fn byte_len(s: Seq<char>) -> nat {
    encode_utf8(s).len()
}

/// Number of bytes of the UTF-8 encoding of one character.
pub open spec fn char_width(c: char) -> nat {
    encode_scalar(c as u32).len()
}

/// Encoding distributes over concatenation.
pub proof fn lemma_encode_concat(a: Seq<char>, b: Seq<char>)
    ensures
        encode_utf8(a + b) == encode_utf8(a) + encode_utf8(b),
    decreases a.len(),
{
    if a.len() == 0 {
        assert(a + b == b);
        assert(encode_utf8(a) == Seq::<u8>::empty());
        assert(encode_utf8(a) + encode_utf8(b) == encode_utf8(b));
    } else {
        assert((a + b).drop_first() == a.drop_first() + b);
        assert((a + b)[0] == a[0]);
        lemma_encode_concat(a.drop_first(), b);
        assert(encode_utf8(a + b) == encode_scalar(a[0] as u32) + (encode_utf8(a.drop_first())
            + encode_utf8(b)));
        assert(encode_scalar(a[0] as u32) + (encode_utf8(a.drop_first()) + encode_utf8(b)) == (
        encode_scalar(a[0] as u32) + encode_utf8(a.drop_first())) + encode_utf8(b));
    }
}

/// The byte length of a text grows by one character's width per character.
pub proof fn lemma_byte_len_push(s: Seq<char>, c: char)
    ensures
        byte_len(s.push(c)) == byte_len(s) + char_width(c),
        1 <= char_width(c) <= 4,
{
    lemma_encode_concat(s, seq![c]);
    assert(s.push(c) == s + seq![c]);
    assert(seq![c].drop_first() == Seq::<char>::empty());
    assert(encode_utf8(seq![c].drop_first()) == Seq::<u8>::empty());
    assert(encode_utf8(seq![c]) == encode_scalar(c as u32) + Seq::<u8>::empty());
    assert(encode_scalar(c as u32) + Seq::<u8>::empty() == encode_scalar(c as u32));
}

/// A prefix never takes more bytes than the whole text.
pub proof fn lemma_byte_len_prefix(s: Seq<char>, i: int, j: int)
    requires
        0 <= i <= j <= s.len(),
    ensures
        byte_len(s.subrange(0, i)) + byte_len(s.subrange(i, j)) == byte_len(s.subrange(0, j)),
        byte_len(s.subrange(0, j)) <= byte_len(s),
{
    lemma_encode_concat(s.subrange(0, i), s.subrange(i, j));
    assert(s.subrange(0, i) + s.subrange(i, j) == s.subrange(0, j));
    lemma_encode_concat(s.subrange(0, j), s.subrange(j, s.len() as int));
    assert(s.subrange(0, j) + s.subrange(j, s.len() as int) == s);
}

/// Width in bytes of the UTF-8 encoding of `c`.
pub fn width_of(c: char) -> (w: usize)
    ensures
        w == char_width(c),
        1 <= w <= 4,
{
    let v: u32 = c as u32;
    if v <= 0x7F {
        1
    } else if v <= 0x7FF {
        2
    } else if v <= 0xFFFF {
        proof {
            vstd::utf8::char_is_scalar(c);
        }
        3
    } else {
        4
    }
}

/// Byte length of `chars[from..to]`, given that the whole text fits in memory.
pub fn byte_len_of(chars: &Vec<char>, from: usize, to: usize) -> (n: usize)
    requires
        from <= to <= chars.len(),
        byte_len(chars@) <= usize::MAX,
    ensures
        n == byte_len(chars@.subrange(from as int, to as int)),
{
    let mut n: usize = 0;
    let mut i: usize = from;
    assert(chars@.subrange(from as int, from as int) == Seq::<char>::empty());
    while i < to
        invariant
            from <= i <= to <= chars.len(),
            byte_len(chars@) <= usize::MAX,
            n == byte_len(chars@.subrange(from as int, i as int)),
        decreases to - i,
    {
        let w = width_of(chars[i]);
        proof {
            let s = chars@;
            lemma_byte_len_push(s.subrange(from as int, i as int), s[i as int]);
            assert(s.subrange(from as int, i as int).push(s[i as int]) == s.subrange(
                from as int,
                i + 1,
            ));
            lemma_byte_len_prefix(s, from as int, i + 1);
        }
        n = n + w;
        i += 1;
    }
    n
}

/// Value of one decimal digit.
pub open spec fn digit_value(c: char) -> nat {
    (c as u32 - '0' as u32) as nat
}

/// Value of a run of decimal digits, most significant first.
pub open spec fn digits_value(s: Seq<char>) -> nat
    decreases s.len(),
{
    if s.len() == 0 {
        0
    } else {
        digits_value(s.drop_last()) * 10 + digit_value(s.last())
    }
}

/// Extending a run of digits never lowers its value.
pub proof fn lemma_digits_value_grows(s: Seq<char>, i: int, j: int)
    requires
        0 <= i <= j <= s.len(),
    ensures
        digits_value(s.subrange(0, i)) <= digits_value(s.subrange(0, j)),
    decreases j - i,
{
    if i < j {
        lemma_digits_value_grows(s, i, j - 1);
        assert(s.subrange(0, j).drop_last() == s.subrange(0, j - 1));
    }
}

/// Reads `chars[from..to]`, all of them decimal digits, as a number. `None`
/// exactly when the number does not fit.
pub fn number_of(chars: &Vec<char>, from: usize, to: usize) -> (r: Option<usize>)
    requires
        from <= to <= chars.len(),
        forall|k: int| from <= k < to ==> is_digit(#[trigger] chars@[k]),
    ensures
        match r {
            Some(n) => n == digits_value(chars@.subrange(from as int, to as int)),
            None => digits_value(chars@.subrange(from as int, to as int)) > usize::MAX,
        },
{
    let ghost run = chars@.subrange(from as int, to as int);
    let mut value: usize = 0;
    let mut i: usize = from;
    assert(run.subrange(0, 0) == Seq::<char>::empty());
    while i < to
        invariant
            from <= i <= to <= chars.len(),
            run == chars@.subrange(from as int, to as int),
            forall|k: int| from <= k < to ==> is_digit(#[trigger] chars@[k]),
            value == digits_value(run.subrange(0, i - from)),
        decreases to - i,
    {
        let c = chars[i];
        let d: usize = (c as u32 - '0' as u32) as usize;
        proof {
            assert(run.subrange(0, i + 1 - from).drop_last() == run.subrange(0, i - from));
            assert(run.subrange(0, i + 1 - from).last() == c);
            lemma_digits_value_grows(run, i + 1 - from, run.len() as int);
            assert(run.subrange(0, run.len() as int) == run);
        }
        if value > (usize::MAX - d) / 10 {
            return None;
        }
        value = value * 10 + d;
        i += 1;
    }
    assert(run.subrange(0, to - from) == run);
    Some(value)
}

/// The decimal digit for a value below ten.
pub open spec fn digit_char(d: nat) -> char
    recommends
        d < 10,
{
    ((48 + d) as u8) as char
}

/// Decimal digits of a natural number, without leading zeros (`0` is "0").
pub open spec fn decimal(n: nat) -> Seq<char>
    decreases n,
{
    if n < 10 {
        seq![digit_char(n)]
    } else {
        decimal(n / 10).push(digit_char(n % 10))
    }
}

/// Decimal rendering of an integer, with a leading `-` when negative.
pub open spec fn int_text(i: int) -> Seq<char> {
    if i < 0 {
        seq!['-'] + decimal((-i) as nat)
    } else {
        decimal(i as nat)
    }
}

/// Decimal rendering of a natural number.
pub fn decimal_of(n: u64) -> (out: String)
    ensures
        out@ == decimal(n as nat),
    decreases n,
{
    if n < 10 {
        let mut out = String::new();
        out.push(digit_of(n as u8));
        assert(out@ == seq![digit_char(n as nat)]);
        out
    } else {
        let mut out = decimal_of(n / 10);
        out.push(digit_of((n % 10) as u8));
        out
    }
}

/// The character of one decimal digit.
pub fn digit_of(d: u8) -> (c: char)
    requires
        d < 10,
    ensures
        c == digit_char(d as nat),
{
    let v: u8 = 48u8 + d;
    v as char
}

/// Decimal rendering of a signed integer.
pub fn int_text_of(i: i64) -> (out: String)
    ensures
        out@ == int_text(i as int),
{
    if i < 0 {
        let magnitude: u64 = if i == i64::MIN {
            0x8000_0000_0000_0000u64
        } else {
            (-i) as u64
        };
        let digits = decimal_of(magnitude);
        let mut out = String::new();
        out.push('-');
        out.append(digits.as_str());
        assert(out@ == seq!['-'] + decimal((-i) as nat));
        out
    } else {
        decimal_of(i as u64)
    }
}

/// Whether `a` comes before `b` in the order of dictionaries, read from
/// index `i` on: at the first place where they differ `a` has the smaller
/// character, or `a` ends there and `b` goes on.
pub open spec fn text_lt_from(a: Seq<char>, b: Seq<char>, i: int) -> bool
    decreases a.len() - i,
{
    if i < 0 || i >= b.len() {
        false
    } else if i >= a.len() {
        true
    } else if a[i] != b[i] {
        (a[i] as u32) < (b[i] as u32)
    } else {
        text_lt_from(a, b, i + 1)
    }
}

/// Whether `a` comes before `b` in the order of dictionaries.
pub open spec fn text_lt(a: Seq<char>, b: Seq<char>) -> bool {
    text_lt_from(a, b, 0)
}

/// The order of dictionaries is transitive.
pub proof fn lemma_text_lt_transitive(a: Seq<char>, b: Seq<char>, c: Seq<char>, i: int)
    requires
        0 <= i,
        text_lt_from(a, b, i),
        text_lt_from(b, c, i),
    ensures
        text_lt_from(a, c, i),
    decreases a.len() - i,
{
    if i < a.len() && i < b.len() && i < c.len() && a[i] == b[i] && b[i] == c[i] {
        lemma_text_lt_transitive(a, b, c, i + 1);
    }
}

/// No text comes before itself.
pub proof fn lemma_text_lt_irreflexive(a: Seq<char>, i: int)
    requires
        0 <= i,
    ensures
        !text_lt_from(a, a, i),
    decreases a.len() - i,
{
    if i < a.len() {
        lemma_text_lt_irreflexive(a, i + 1);
    }
}

/// How two texts stand to each other in the order of dictionaries.
#[derive(Clone, Copy, PartialEq, Eq, Debug)]
pub enum TextOrder {
    Before,
    Same,
    After,
}

/// Places `a` against `b` in the order of dictionaries.
pub fn text_order(a: &str, b: &str) -> (r: TextOrder)
    ensures
        match r {
            TextOrder::Before => text_lt(a@, b@),
            TextOrder::Same => a@ == b@,
            TextOrder::After => text_lt(b@, a@),
        },
{
    let x = chars_of(a);
    let y = chars_of(b);
    let mut i: usize = 0;
    while i < x.len() && i < y.len()
        invariant
            i <= x.len(),
            i <= y.len(),
            x@ == a@,
            y@ == b@,
            forall|k: int| 0 <= k < i ==> x@[k] == y@[k],
            text_lt(a@, b@) == text_lt_from(a@, b@, i as int),
            text_lt(b@, a@) == text_lt_from(b@, a@, i as int),
        decreases x.len() - i,
    {
        if x[i] != y[i] {
            if (x[i] as u32) < (y[i] as u32) {
                return TextOrder::Before;
            } else {
                assert(x@[i as int] as u32 != y@[i as int] as u32) by {
                    vstd::utf8::char_u32_cast(x@[i as int], x@[i as int] as u32);
                    vstd::utf8::char_u32_cast(y@[i as int], y@[i as int] as u32);
                }
                return TextOrder::After;
            }
        }
        i += 1;
    }
    if x.len() < y.len() {
        TextOrder::Before
    } else if x.len() > y.len() {
        TextOrder::After
    } else {
        assert(x@ =~= y@);
        TextOrder::Same
    }
}

/// The texts stand in the order of dictionaries, none of them twice.
pub open spec fn sorted_texts(v: Seq<String>) -> bool {
    forall|i: int, j: int| 0 <= i < j < v.len() ==> text_lt(#[trigger] v[i]@, #[trigger] v[j]@)
}

/// Whether `t` is among the texts.
pub open spec fn holds_text(v: Seq<String>, t: Seq<char>) -> bool {
    exists|i: int| 0 <= i < v.len() && (#[trigger] v[i])@ == t
}

/// The set of the texts.
pub open spec fn text_set(v: Seq<String>) -> Set<Seq<char>> {
    Set::new(|t: Seq<char>| holds_text(v, t))
}

/// Puts `t` at its place among the sorted texts, unless it is there already.
pub fn insert_text(v: &mut Vec<String>, t: String)
    requires
        sorted_texts(old(v)@),
    ensures
        sorted_texts(final(v)@),
        text_set(final(v)@) == text_set(old(v)@).insert(t@),
{
    let mut p: usize = 0;
    while p < v.len()
        invariant
            p <= v.len(),
            *v == *old(v),
            sorted_texts(v@),
            forall|k: int| 0 <= k < p ==> text_lt(#[trigger] v@[k]@, t@),
        ensures
            p <= v.len(),
            *v == *old(v),
            forall|k: int| 0 <= k < p ==> text_lt(#[trigger] v@[k]@, t@),
            p < v.len() ==> text_lt(t@, v@[p as int]@),
        decreases v.len() - p,
    {
        match text_order(v[p].as_str(), t.as_str()) {
            TextOrder::Before => {},
            TextOrder::Same => {
                assert(text_set(v@) =~= text_set(v@).insert(t@)) by {
                    assert(holds_text(v@, t@));
                }
                return ;
            },
            TextOrder::After => {
                break ;
            },
        }
        p += 1;
    }
    let ghost before = v@;
    let ghost text = t@;
    v.insert(p, t);
    proof {
        assert forall|i: int, j: int| 0 <= i < j < v@.len() implies text_lt(
            #[trigger] v@[i]@,
            #[trigger] v@[j]@,
        ) by {
            if j < p {
                assert(v@[i] == before[i] && v@[j] == before[j]);
            } else if j == p {
                assert(v@[i] == before[i]);
            } else if i == p {
                assert(v@[j] == before[j - 1]);
                if j - 1 > p {
                    assert(text_lt(before[p as int]@, before[j - 1]@));
                    lemma_text_lt_transitive(text, before[p as int]@, before[j - 1]@, 0);
                }
            } else if i < p {
                assert(v@[i] == before[i] && v@[j] == before[j - 1]);
            } else {
                assert(v@[i] == before[i - 1] && v@[j] == before[j - 1]);
            }
        }
        assert(text_set(v@) =~= text_set(before).insert(text)) by {
            assert forall|n: Seq<char>| text_set(v@).contains(n) implies text_set(before).insert(
                text,
            ).contains(n) by {
                let i = choose|i: int| 0 <= i < v@.len() && (#[trigger] v@[i])@ == n;
                if i < p {
                    assert(before[i]@ == n);
                } else if i > p {
                    assert(before[i - 1]@ == n);
                }
            }
            assert forall|n: Seq<char>| text_set(before).insert(text).contains(
                n,
            ) implies text_set(v@).contains(n) by {
                if n == text {
                    assert(v@[p as int]@ == n);
                } else {
                    let i = choose|i: int| 0 <= i < before.len() && (#[trigger] before[i])@ == n;
                    if i < p {
                        assert(v@[i]@ == n);
                    } else {
                        assert(v@[i + 1]@ == n);
                    }
                }
            }
        }
    }
}

/// The texts of strings.
pub open spec fn texts(v: Seq<String>) -> Seq<Seq<char>> {
    Seq::new(v.len(), |i: int| v[i]@)
}

/// The texts stand in the order of dictionaries, none of them twice.
pub open spec fn sorted_seqs(s: Seq<Seq<char>>) -> bool {
    forall|i: int, j: int| 0 <= i < j < s.len() ==> text_lt(#[trigger] s[i], #[trigger] s[j])
}

/// Whether `t` is among the texts.
pub open spec fn holds_seq(s: Seq<Seq<char>>, t: Seq<char>) -> bool {
    exists|i: int| 0 <= i < s.len() && #[trigger] s[i] == t
}

/// Two sorted sequences that hold the same texts are the same.
pub proof fn lemma_sorted_same(a: Seq<Seq<char>>, b: Seq<Seq<char>>)
    requires
        sorted_seqs(a),
        sorted_seqs(b),
        forall|t: Seq<char>| holds_seq(a, t) <==> holds_seq(b, t),
    ensures
        a == b,
    decreases a.len(),
{
    if a.len() == 0 {
        if b.len() > 0 {
            assert(holds_seq(b, b[0]));
            assert(holds_seq(a, b[0]));
        }
        assert(a =~= b);
    } else {
        let top = a.last();
        assert(holds_seq(a, a[a.len() - 1]));
        assert(holds_seq(b, top));
        let j = choose|j: int| 0 <= j < b.len() && b[j] == top;
        assert(holds_seq(b, b[b.len() - 1]));
        assert(holds_seq(a, b.last()));
        let k = choose|k: int| 0 <= k < a.len() && a[k] == b.last();
        if j < b.len() - 1 && k < a.len() - 1 {
            assert(text_lt(b[j], b[b.len() - 1]));
            assert(text_lt(a[k], a[a.len() - 1]));
            lemma_text_lt_transitive(top, b.last(), top, 0);
            lemma_text_lt_irreflexive(top, 0);
        }
        if j < b.len() - 1 {
            assert(k == a.len() - 1);
            assert(text_lt(b[j], b[b.len() - 1]));
            lemma_text_lt_irreflexive(top, 0);
        }
        assert(b.last() == top) by {
            if k < a.len() - 1 {
                assert(j == b.len() - 1);
            }
        }
        let a0 = a.drop_last();
        let b0 = b.drop_last();
        assert forall|t: Seq<char>| holds_seq(a0, t) <==> holds_seq(b0, t) by {
            if holds_seq(a0, t) {
                let i = choose|i: int| 0 <= i < a0.len() && a0[i] == t;
                assert(a[i] == t);
                assert(text_lt(a[i], a[a.len() - 1]));
                assert(holds_seq(a, t));
                let m = choose|m: int| 0 <= m < b.len() && b[m] == t;
                if m == b.len() - 1 {
                    lemma_text_lt_irreflexive(top, 0);
                }
                assert(b0[m] == t);
            }
            if holds_seq(b0, t) {
                let i = choose|i: int| 0 <= i < b0.len() && b0[i] == t;
                assert(b[i] == t);
                assert(text_lt(b[i], b[b.len() - 1]));
                assert(holds_seq(b, t));
                let m = choose|m: int| 0 <= m < a.len() && a[m] == t;
                if m == a.len() - 1 {
                    lemma_text_lt_irreflexive(top, 0);
                }
                assert(a0[m] == t);
            }
        }
        assert(sorted_seqs(a0)) by {
            assert forall|i: int, j: int| 0 <= i < j < a0.len() implies text_lt(
                #[trigger] a0[i],
                #[trigger] a0[j],
            ) by {
                assert(text_lt(a[i], a[j]));
            }
        }
        assert(sorted_seqs(b0)) by {
            assert forall|i: int, j: int| 0 <= i < j < b0.len() implies text_lt(
                #[trigger] b0[i],
                #[trigger] b0[j],
            ) by {
                assert(text_lt(b[i], b[j]));
            }
        }
        lemma_sorted_same(a0, b0);
        assert(a =~= a0.push(top));
        assert(b =~= b0.push(top));
    }
}

/// The texts of a set in the order of dictionaries.
pub open spec fn listing(set: Set<Seq<char>>) -> Seq<Seq<char>> {
    choose|s: Seq<Seq<char>>| sorted_seqs(s) && (forall|t: Seq<char>| holds_seq(s, t) <==> set.contains(t))
}

/// Sorted strings are the listing of their set.
pub proof fn lemma_listing(v: Seq<String>)
    requires
        sorted_texts(v),
    ensures
        texts(v) == listing(text_set(v)),
{
    let s = texts(v);
    let set = text_set(v);
    assert(sorted_seqs(s)) by {
        assert forall|i: int, j: int| 0 <= i < j < s.len() implies text_lt(
            #[trigger] s[i],
            #[trigger] s[j],
        ) by {
            assert(text_lt(v[i]@, v[j]@));
        }
    }
    assert forall|t: Seq<char>| holds_seq(s, t) <==> set.contains(t) by {
        if holds_seq(s, t) {
            let i = choose|i: int| 0 <= i < s.len() && s[i] == t;
            assert(v[i]@ == t);
        }
        if set.contains(t) {
            let i = choose|i: int| 0 <= i < v.len() && (#[trigger] v[i])@ == t;
            assert(s[i] == t);
        }
    }
    let l = listing(set);
    assert(sorted_seqs(l) && (forall|t: Seq<char>| holds_seq(l, t) <==> set.contains(t)));
    lemma_sorted_same(s, l);
}

} // verus!
