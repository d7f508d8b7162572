//! Text helpers: whitespace trimming, integer parsing and decimal
//! formatting of integers, each proved against a short statement of what it
//! computes.

use vstd::prelude::*;
use vstd::string::{StrSliceExecFns, StringExecFns};

verus! {

/// Characters with the Unicode `White_Space` property.
pub open spec fn is_unicode_whitespace(c: char) -> bool {
    ||| '\u{9}' <= c <= '\u{D}'
    ||| c == ' '
    ||| c == '\u{85}'
    ||| c == '\u{A0}'
    ||| c == '\u{1680}'
    ||| '\u{2000}' <= c <= '\u{200A}'
    ||| c == '\u{2028}'
    ||| c == '\u{2029}'
    ||| c == '\u{202F}'
    ||| c == '\u{205F}'
    ||| c == '\u{3000}'
}

/// `s` without its leading whitespace.
pub open spec fn trim_start_chars(s: Seq<char>) -> Seq<char>
    decreases s.len(),
{
    if s.len() > 0 && is_unicode_whitespace(s[0]) {
        trim_start_chars(s.drop_first())
    } else {
        s
    }
}

/// `s` without its trailing whitespace.
pub open spec fn trim_end_chars(s: Seq<char>) -> Seq<char>
    decreases s.len(),
{
    if s.len() > 0 && is_unicode_whitespace(s.last()) {
        trim_end_chars(s.drop_last())
    } else {
        s
    }
}

/// `s` without leading and trailing whitespace.
pub open spec fn trimmed(s: Seq<char>) -> Seq<char> {
    trim_end_chars(trim_start_chars(s))
}

pub open spec fn is_ascii_digit(c: char) -> bool {
    '0' <= c <= '9'
}

pub open spec fn all_ascii_digits(d: Seq<char>) -> bool {
    forall|i: int| 0 <= i < d.len() ==> is_ascii_digit(#[trigger] d[i])
}

/// Value of the decimal numeral `d` (most significant digit first).
pub open spec fn digits_value(d: Seq<char>) -> nat
    decreases d.len(),
{
    if d.len() == 0 {
        0
    } else {
        digits_value(d.drop_last()) * 10 + ((d.last() as int) - ('0' as int)) as nat
    }
}

/// The numeral part of `s`: `s` without one leading `+` or `-`.
pub open spec fn numeral_part(s: Seq<char>) -> Seq<char> {
    if s.len() > 0 && (s[0] == '+' || s[0] == '-') {
        s.drop_first()
    } else {
        s
    }
}

/// An integer written as an optional `+` or `-` followed by one or more
/// decimal digits, of any length; anything else is not an integer.
pub open spec fn parse_int_chars(s: Seq<char>) -> Option<int> {
    let d = numeral_part(s);
    if d.len() > 0 && all_ascii_digits(d) {
        if s[0] == '-' {
            Some(-(digits_value(d) as int))
        } else {
            Some(digits_value(d) as int)
        }
    } else {
        None
    }
}

/// `n` saturated into the range of `i32`.
pub open spec fn saturate_i32(n: int) -> int {
    if n < i32::MIN {
        i32::MIN as int
    } else if n > i32::MAX {
        i32::MAX as int
    } else {
        n
    }
}

/// The character of decimal digit `d`.
pub open spec fn digit_char(d: nat) -> char {
    (d + ('0' as nat)) as char
}

/// The decimal numeral of `n`, without leading zeros.
pub open spec fn decimal(n: nat) -> Seq<char>
    decreases n,
{
    if n < 10 {
        seq![digit_char(n)]
    } else {
        decimal(n / 10).push(digit_char(n % 10))
    }
}

/// The decimal numeral of `v`, with a leading `-` when `v` is negative.
pub open spec fn signed_decimal(v: int) -> Seq<char> {
    if v < 0 {
        seq!['-'] + decimal((-v) as nat)
    } else {
        decimal(v as nat)
    }
}

proof fn lemma_trim_start(s: Seq<char>, k: int)
    requires
        0 <= k <= s.len(),
        forall|j: int| 0 <= j < k ==> is_unicode_whitespace(#[trigger] s[j]),
        k == s.len() || !is_unicode_whitespace(s[k]),
    ensures
        trim_start_chars(s) == s.subrange(k, s.len() as int),
    decreases k,
{
    if k == 0 {
        assert(s.subrange(0, s.len() as int) =~= s);
    } else {
        let t = s.drop_first();
        assert forall|j: int| 0 <= j < k - 1 implies is_unicode_whitespace(#[trigger] t[j]) by {
            assert(t[j] == s[j + 1]);
        }
        lemma_trim_start(t, k - 1);
        assert(t.subrange(k - 1, t.len() as int) =~= s.subrange(k, s.len() as int));
    }
}

proof fn lemma_trim_end(s: Seq<char>, e: int)
    requires
        0 <= e <= s.len(),
        forall|j: int| e <= j < s.len() ==> is_unicode_whitespace(#[trigger] s[j]),
        e == 0 || !is_unicode_whitespace(s[e - 1]),
    ensures
        trim_end_chars(s) == s.subrange(0, e),
    decreases s.len() - e,
{
    if e == s.len() {
        assert(s.subrange(0, e) =~= s);
    } else {
        let t = s.drop_last();
        assert forall|j: int| e <= j < t.len() implies is_unicode_whitespace(#[trigger] t[j]) by {
            assert(t[j] == s[j]);
        }
        lemma_trim_end(t, e);
        assert(t.subrange(0, e) =~= s.subrange(0, e));
    }
}

proof fn lemma_decimal_digits(n: nat)
    ensures
        decimal(n).len() > 0,
        all_ascii_digits(decimal(n)),
        digits_value(decimal(n)) == n,
    decreases n,
{
    let d = decimal(n);
    if n < 10 {
        assert(d.drop_last() =~= Seq::<char>::empty());
        assert(d[0] == digit_char(n));
        assert(digit_char(n) as int == n + 48);
        assert(digits_value(d.drop_last()) == 0);
    } else {
        lemma_decimal_digits(n / 10);
        let p = decimal(n / 10);
        assert(d.drop_last() =~= p);
        assert(d.last() == digit_char(n % 10));
        assert forall|i: int| 0 <= i < d.len() implies is_ascii_digit(#[trigger] d[i]) by {
            if i < p.len() {
                assert(d[i] == p[i]);
            }
        }
    }
}

/// A numeral with no whitespace at either end is its own trimmed form.
proof fn lemma_trimmed_unchanged(s: Seq<char>)
    requires
        s.len() > 0,
        !is_unicode_whitespace(s[0]),
        !is_unicode_whitespace(s.last()),
    ensures
        trimmed(s) == s,
{
    lemma_trim_start(s, 0);
    assert(s.subrange(0, s.len() as int) =~= s);
    lemma_trim_end(s, s.len() as int);
}

/// Reading back the decimal text of any integer gives that integer: text
/// written by `signed_decimal` parses, and to the value it was written from.
pub proof fn lemma_parse_signed_decimal(n: int)
    ensures
        parse_int_chars(trimmed(signed_decimal(n))) == Some(n),
{
    let s = signed_decimal(n);
    if n < 0 {
        let m = (-n) as nat;
        lemma_decimal_digits(m);
        let d = decimal(m);
        assert(s[0] == '-');
        assert(s.last() == d.last());
        assert(is_ascii_digit(d[d.len() - 1]));
        lemma_trimmed_unchanged(s);
        assert(numeral_part(s) =~= d);
    } else {
        let m = n as nat;
        lemma_decimal_digits(m);
        assert(is_ascii_digit(s[0]));
        assert(is_ascii_digit(s[s.len() - 1]));
        lemma_trimmed_unchanged(s);
        assert(numeral_part(s) == s);
    }
}

/// Finds where `s` starts and ends once leading and trailing whitespace is
/// removed, as character positions.
fn trim_bounds(s: &str) -> (bounds: (usize, usize))
    ensures
        bounds.0 <= bounds.1 <= s@.len(),
        trimmed(s@) == s@.subrange(bounds.0 as int, bounds.1 as int),
{
    let n = s.unicode_len();
    let mut start: usize = 0;
    while start < n && is_whitespace_char(s.get_char(start))
        invariant
            n == s@.len(),
            start <= n,
            forall|j: int| 0 <= j < start ==> is_unicode_whitespace(#[trigger] s@[j]),
        decreases n - start,
    {
        start = start + 1;
    }
    let mut end: usize = n;
    while end > start && is_whitespace_char(s.get_char(end - 1))
        invariant
            n == s@.len(),
            start <= end <= n,
            forall|j: int| end <= j < n ==> is_unicode_whitespace(#[trigger] s@[j]),
        decreases end,
    {
        end = end - 1;
    }
    proof {
        lemma_trim_start(s@, start as int);
        let t = s@.subrange(start as int, n as int);
        assert forall|j: int| end - start <= j < t.len() implies is_unicode_whitespace(#[trigger] t[j]) by {
            assert(t[j] == s@[start + j]);
        }
        if end > start {
            assert(t[end - start - 1] == s@[end - 1]);
        }
        lemma_trim_end(t, end - start);
        assert(t.subrange(0, end - start) =~= s@.subrange(start as int, end as int));
    }
    (start, end)
}

/// Whether `c` has the Unicode `White_Space` property.
fn is_whitespace_char(c: char) -> (b: bool)
    ensures
        b == is_unicode_whitespace(c),
{
    ('\u{9}' <= c && c <= '\u{D}') || c == ' ' || c == '\u{85}' || c == '\u{A0}' || c == '\u{1680}'
        || ('\u{2000}' <= c && c <= '\u{200A}') || c == '\u{2028}' || c == '\u{2029}' || c
        == '\u{202F}' || c == '\u{205F}' || c == '\u{3000}'
}

/// Magnitudes from this value on are all read as this value.
const MAGNITUDE_CAP: u64 = 2147483648;

/// Parses the characters of `s` from position `from` up to `to` as an
/// integer: an optional `+` or `-` and then decimal digits. The value is
/// saturated into the range of `i32`.
fn parse_int_range_saturating(s: &str, from: usize, to: usize) -> (res: Option<i32>)
    requires
        from <= to <= s@.len(),
    ensures
        match parse_int_chars(s@.subrange(from as int, to as int)) {
            Some(n) => res matches Some(v) && v == saturate_i32(n),
            None => res is None,
        },
{
    let ghost t = s@.subrange(from as int, to as int);
    let mut i = from;
    let mut negative = false;
    if i < to {
        let first = s.get_char(i);
        if first == '+' {
            i = i + 1;
        } else if first == '-' {
            negative = true;
            i = i + 1;
        }
    }
    let ghost d = numeral_part(t);
    assert(d =~= s@.subrange(i as int, to as int));
    assert(negative <==> (t.len() > 0 && t[0] == '-'));
    if i == to {
        return None;
    }
    let digits_from = i;
    let mut magnitude: u64 = 0;
    while i < to
        invariant
            from <= digits_from <= i <= to <= s@.len(),
            d == s@.subrange(digits_from as int, to as int),
            t == s@.subrange(from as int, to as int),
            d == numeral_part(t),
            d.len() > 0,
            magnitude <= MAGNITUDE_CAP,
            magnitude == (if digits_value(d.subrange(0, i - digits_from)) < MAGNITUDE_CAP {
                digits_value(d.subrange(0, i - digits_from))
            } else {
                MAGNITUDE_CAP as nat
            }),
            all_ascii_digits(d.subrange(0, i - digits_from)),
        decreases to - i,
    {
        let c = s.get_char(i);
        assert(c == d[i - digits_from]);
        if !('0' <= c && c <= '9') {
            assert(!all_ascii_digits(d));
            return None;
        }
        let ghost p = d.subrange(0, i - digits_from + 1);
        assert(p.drop_last() =~= d.subrange(0, i - digits_from));
        assert(digits_value(p) == digits_value(d.subrange(0, i - digits_from)) * 10 + ((c as int)
            - ('0' as int)));
        let digit = (c as u32 - '0' as u32) as u64;
        if magnitude < MAGNITUDE_CAP {
            magnitude = magnitude * 10 + digit;
            if magnitude > MAGNITUDE_CAP {
                magnitude = MAGNITUDE_CAP;
            }
        }
        assert(all_ascii_digits(p));
        i = i + 1;
    }
    assert(d.subrange(0, i - digits_from) =~= d);
    if negative {
        Some((0 - (magnitude as i64)) as i32)
    } else if magnitude == MAGNITUDE_CAP {
        Some(i32::MAX)
    } else {
        Some(magnitude as i32)
    }
}

/// Parses `s` the way an integer is read from text: surrounding whitespace is
/// ignored, then an optional `+` or `-` and decimal digits, of any length.
/// Values beyond the range of `i32` are saturated to its nearest bound.
pub fn parse_trimmed_int_saturating(s: &str) -> (res: Option<i32>)
    ensures
        match parse_int_chars(trimmed(s@)) {
            Some(n) => res matches Some(v) && v == saturate_i32(n),
            None => res is None,
        },
{
    let (start, end) = trim_bounds(s);
    parse_int_range_saturating(s, start, end)
}

/// The string form of a decimal digit.
fn digit_str(d: u64) -> (s: &'static str)
    requires
        d < 10,
    ensures
        s@ == seq![digit_char(d as nat)],
{
    proof {
        reveal_strlit("0");
        reveal_strlit("1");
        reveal_strlit("2");
        reveal_strlit("3");
        reveal_strlit("4");
        reveal_strlit("5");
        reveal_strlit("6");
        reveal_strlit("7");
        reveal_strlit("8");
        reveal_strlit("9");
    }
    let s = if d == 0 {
        "0"
    } else if d == 1 {
        "1"
    } else if d == 2 {
        "2"
    } else if d == 3 {
        "3"
    } else if d == 4 {
        "4"
    } else if d == 5 {
        "5"
    } else if d == 6 {
        "6"
    } else if d == 7 {
        "7"
    } else if d == 8 {
        "8"
    } else {
        "9"
    };
    assert(s@ =~= seq![digit_char(d as nat)]);
    s
}

/// Writes `n` in decimal.
pub fn format_decimal(n: u64) -> (s: String)
    ensures
        s@ == decimal(n as nat),
{
    let mut m = n / 10;
    let mut s = String::from_str(digit_str(n % 10));
    while m > 0
        invariant
            decimal(n as nat) == (if m == 0 {
                Seq::<char>::empty()
            } else {
                decimal(m as nat)
            }) + s@,
        decreases m,
    {
        let digit = String::from_str(digit_str(m % 10));
        s = digit.concat(s.as_str());
        assert(decimal(m as nat) =~= (if m / 10 == 0 {
            Seq::<char>::empty()
        } else {
            decimal((m / 10) as nat)
        }) + seq![digit_char((m % 10) as nat)]);
        m = m / 10;
    }
    assert(s@ =~= Seq::<char>::empty() + s@);
    s
}

/// Writes `v` in decimal, with a leading `-` when it is negative.
pub fn format_signed_decimal(v: i32) -> (s: String)
    ensures
        s@ == signed_decimal(v as int),
{
    if v < 0 {
        let magnitude = format_decimal((-(v as i64)) as u64);
        let s = String::from_str("-").concat(magnitude.as_str());
        proof {
            reveal_strlit("-");
        }
        s
    } else {
        format_decimal(v as u64)
    }
}

} // verus!
