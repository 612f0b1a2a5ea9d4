//! Decimal numbers as they appear in trace text.
//!
//! Integer fields follow the rules of Rust's integer `FromStr`: an optional
//! sign (`+` for unsigned fields, `+` or `-` for signed ones) and then one
//! or more ASCII digits whose value fits the type. Timestamps are plain
//! decimal numbers of seconds, kept exactly as whole seconds and
//! nanoseconds.

use vstd::prelude::*;

verus! {

/// Whether `c` is one of the ten ASCII decimal digits.
pub open spec fn is_digit(c: char) -> bool {
    '0' <= c && c <= '9'
}

/// The value of a decimal digit.
pub open spec fn digit_value(c: char) -> int {
    c as int - '0' as int
}

/// Whether every character of `s` is a decimal digit.
pub open spec fn all_digits(s: Seq<char>) -> bool {
    forall|i: int| 0 <= i < s.len() ==> is_digit(#[trigger] s[i])
}

/// The number that the digit string `s` denotes, most significant digit
/// first. The empty string denotes zero.
pub open spec fn decimal_value(s: Seq<char>) -> int
    decreases s.len(),
{
    if s.len() == 0 {
        0
    } else {
        decimal_value(s.drop_last()) * 10 + digit_value(s.last())
    }
}

/// `s` without its first character where that character is `+`.
pub open spec fn without_plus(s: Seq<char>) -> Seq<char> {
    if s.len() > 0 && s[0] == '+' {
        s.skip(1)
    } else {
        s
    }
}

/// `s` without its first character where that character is `+` or `-`.
pub open spec fn without_sign(s: Seq<char>) -> Seq<char> {
    if s.len() > 0 && (s[0] == '+' || s[0] == '-') {
        s.skip(1)
    } else {
        s
    }
}

/// The unsigned 32-bit number that `s` spells: an optional `+`, then at
/// least one digit, with a value of at most `u32::MAX`.
pub open spec fn parse_u32(s: Seq<char>) -> Option<u32> {
    let digits = without_plus(s);
    if digits.len() > 0 && all_digits(digits) && decimal_value(digits) <= u32::MAX {
        Some(decimal_value(digits) as u32)
    } else {
        None
    }
}

/// The signed 32-bit number that `s` spells: an optional `+` or `-`, then
/// at least one digit, with a value between `i32::MIN` and `i32::MAX`.
pub open spec fn parse_i32(s: Seq<char>) -> Option<i32> {
    let digits = without_sign(s);
    let value = if s.len() > 0 && s[0] == '-' {
        -decimal_value(digits)
    } else {
        decimal_value(digits)
    };
    if digits.len() > 0 && all_digits(digits) && i32::MIN <= value <= i32::MAX {
        Some(value as i32)
    } else {
        None
    }
}

/// A point in time of the trace: seconds since the trace clock's origin,
/// as whole seconds and nanoseconds.
#[derive(Clone, Copy, Debug, PartialEq, Eq, Structural)]
pub struct Timestamp {
    pub seconds: u64,
    pub nanos: u32,
}

/// The position of the first `.` in `s`, or the length of `s` where it
/// holds none.
pub open spec fn dot_position(s: Seq<char>) -> int {
    match s.index_of_first('.') {
        Some(i) => i,
        None => s.len() as int,
    }
}

/// The digits of `s` before its first `.`.
pub open spec fn whole_part(s: Seq<char>) -> Seq<char> {
    s.take(dot_position(s))
}

/// The characters of `s` after its first `.`; empty where `s` has no `.`.
pub open spec fn fraction_part(s: Seq<char>) -> Seq<char> {
    if dot_position(s) < s.len() {
        s.skip(dot_position(s) + 1)
    } else {
        Seq::empty()
    }
}

/// Nine zeros: the padding of a fraction shorter than nanoseconds.
pub open spec fn nine_zeros() -> Seq<char> {
    Seq::new(9, |i: int| '0')
}

/// The nanoseconds that the fraction digits `frac` denote: its first nine
/// digits, a shorter fraction being padded with zeros on the right. Digits
/// after the ninth are below a nanosecond and do not count.
pub open spec fn fraction_nanos(frac: Seq<char>) -> int {
    decimal_value((frac + nine_zeros()).take(9))
}

/// The timestamp that `s` spells: digits, optionally followed by `.` and
/// more digits, with at least one digit in all and whole seconds of at
/// most `u64::MAX`. There is no sign and no exponent.
pub open spec fn parse_timestamp(s: Seq<char>) -> Option<Timestamp> {
    let whole = whole_part(s);
    let frac = fraction_part(s);
    if all_digits(whole) && all_digits(frac) && whole.len() + frac.len() > 0 && decimal_value(whole)
        <= u64::MAX {
        Some(Timestamp { seconds: decimal_value(whole) as u64, nanos: fraction_nanos(frac) as u32 })
    } else {
        None
    }
}

/// A digit string has a value of at least zero and below ten to the power
/// of its length; here, for the nine digits of a nanosecond count.
pub proof fn lemma_decimal_value_bounds(s: Seq<char>)
    requires
        all_digits(s),
    ensures
        0 <= decimal_value(s),
        s.len() <= 9 ==> decimal_value(s) < 1_000_000_000,
        s.len() <= 8 ==> decimal_value(s) < 100_000_000,
        s.len() <= 7 ==> decimal_value(s) < 10_000_000,
        s.len() <= 6 ==> decimal_value(s) < 1_000_000,
        s.len() <= 5 ==> decimal_value(s) < 100_000,
        s.len() <= 4 ==> decimal_value(s) < 10_000,
        s.len() <= 3 ==> decimal_value(s) < 1_000,
        s.len() <= 2 ==> decimal_value(s) < 100,
        s.len() <= 1 ==> decimal_value(s) < 10,
        s.len() == 0 ==> decimal_value(s) == 0,
    decreases s.len(),
{
    if s.len() > 0 {
        assert(is_digit(s[s.len() - 1]));
        lemma_decimal_value_bounds(s.drop_last());
    }
}

/// The value of a digit string is at least the value of each of its
/// prefixes.
pub proof fn lemma_decimal_value_prefix(s: Seq<char>, n: int)
    requires
        all_digits(s),
        0 <= n <= s.len(),
    ensures
        decimal_value(s.take(n)) <= decimal_value(s),
    decreases s.len(),
{
    if n == s.len() {
        assert(s.take(n) =~= s);
    } else {
        assert(is_digit(s[s.len() - 1]));
        assert(s.drop_last().take(n) =~= s.take(n));
        lemma_decimal_value_prefix(s.drop_last(), n);
        lemma_decimal_value_bounds(s.drop_last());
    }
}

/// Tests a character for being a decimal digit.
pub fn char_is_digit(c: char) -> (b: bool)
    ensures
        b == is_digit(c),
{
    '0' <= c && c <= '9'
}

/// The value of the decimal digit `c`.
fn char_digit_value(c: char) -> (v: u8)
    requires
        is_digit(c),
    ensures
        v == digit_value(c),
{
    ((c as u32) - ('0' as u32)) as u8
}

/// The number that the digit string `s` denotes, where it is one and the
/// number is at most `limit`.
pub open spec fn digits_up_to(s: Seq<char>, limit: u64) -> Option<u64> {
    if all_digits(s) && decimal_value(s) <= limit {
        Some(decimal_value(s) as u64)
    } else {
        None
    }
}

/// Reads the characters of `chars` from `from` up to `to` as a digit string.
///
/// Returns the value where all of them are digits and the value is at most
/// `limit`, and `None` otherwise, also where the positions are not in
/// order or not within `chars`.
pub fn read_digits(chars: &Vec<char>, from: usize, to: usize, limit: u64) -> (r: Option<u64>)
    ensures
        r == (if from <= to <= chars.len() {
            digits_up_to(chars@.subrange(from as int, to as int), limit)
        } else {
            None
        }),
        r matches Some(v) ==> v == decimal_value(chars@.subrange(from as int, to as int)),
{
    if from > to || to > chars.len() {
        return None;
    }
    let ghost s = chars@.subrange(from as int, to as int);
    let mut acc: u128 = 0;
    let mut i: usize = from;
    while i < to
        invariant
            from <= i <= to <= chars.len(),
            s == chars@.subrange(from as int, to as int),
            all_digits(s.take(i - from)),
            acc == decimal_value(s.take(i - from)),
            acc <= limit,
        decreases to - i,
    {
        let c = chars[i];
        assert(c == s[i - from]);
        if !char_is_digit(c) {
            return None;
        }
        let d = char_digit_value(c);
        proof {
            let next = s.take(i - from + 1);
            assert(next.drop_last() =~= s.take(i - from));
            assert(next.last() == c);
            assert forall|k: int| 0 <= k < next.len() implies is_digit(#[trigger] next[k]) by {
                if k < i - from {
                    assert(next[k] == s.take(i - from)[k]);
                }
            }
        }
        acc = acc * 10 + d as u128;
        if acc > limit as u128 {
            proof {
                if all_digits(s) {
                    lemma_decimal_value_prefix(s, i - from + 1);
                }
            }
            return None;
        }
        i = i + 1;
    }
    proof {
        assert(s.take(to - from) =~= s);
    }
    Some(acc as u64)
}

/// Reads the characters of `chars` from `from` on as an unsigned 32-bit
/// number. There is none where `from` lies past the end.
pub fn read_u32(chars: &Vec<char>, from: usize) -> (r: Option<u32>)
    ensures
        r == (if from <= chars.len() {
            parse_u32(chars@.skip(from as int))
        } else {
            None
        }),
{
    if from > chars.len() {
        return None;
    }
    let ghost s = chars@.skip(from as int);
    let n = chars.len();
    let start = if from < n && chars[from] == '+' {
        from + 1
    } else {
        from
    };
    proof {
        assert(chars@.subrange(start as int, n as int) =~= without_plus(s));
        if all_digits(without_plus(s)) {
            lemma_decimal_value_bounds(without_plus(s));
        }
    }
    if start == n {
        return None;
    }
    match read_digits(chars, start, n, 0xffff_ffff) {
        Some(v) => Some(v as u32),
        None => None,
    }
}

/// Reads the characters of `chars` from `from` on as a signed 32-bit
/// number. There is none where `from` lies past the end.
pub fn read_i32(chars: &Vec<char>, from: usize) -> (r: Option<i32>)
    ensures
        r == (if from <= chars.len() {
            parse_i32(chars@.skip(from as int))
        } else {
            None
        }),
{
    if from > chars.len() {
        return None;
    }
    let ghost s = chars@.skip(from as int);
    let n = chars.len();
    let negative = from < n && chars[from] == '-';
    let start = if from < n && (chars[from] == '+' || chars[from] == '-') {
        from + 1
    } else {
        from
    };
    proof {
        assert(chars@.subrange(start as int, n as int) =~= without_sign(s));
        if all_digits(without_sign(s)) {
            lemma_decimal_value_bounds(without_sign(s));
        }
    }
    if start == n {
        return None;
    }
    if negative {
        match read_digits(chars, start, n, 0x8000_0000) {
            Some(v) => Some((0 - v as i64) as i32),
            None => None,
        }
    } else {
        match read_digits(chars, start, n, 0x7fff_ffff) {
            Some(v) => Some(v as i32),
            None => None,
        }
    }
}

/// The position of the first `.` among the characters of `chars` from
/// `from` up to `to`, counted from `from`; `to - from` where there is none.
fn find_dot(chars: &Vec<char>, from: usize, to: usize) -> (r: usize)
    requires
        from <= to <= chars.len(),
    ensures
        r == dot_position(chars@.subrange(from as int, to as int)),
        r <= to - from,
{
    let ghost s = chars@.subrange(from as int, to as int);
    let mut i: usize = from;
    while i < to
        invariant
            from <= i <= to <= chars.len(),
            s == chars@.subrange(from as int, to as int),
            forall|j: int| 0 <= j < i - from ==> s[j] != '.',
        decreases to - i,
    {
        if chars[i] == '.' {
            proof {
                s.index_of_first_ensures('.');
                assert(s[i - from] == '.');
            }
            return i - from;
        }
        i = i + 1;
    }
    proof {
        s.index_of_first_ensures('.');
    }
    to - from
}

/// Reads the nanoseconds of the fraction digits that `chars` holds from
/// `from` up to `to`.
fn read_nanos(chars: &Vec<char>, from: usize, to: usize) -> (r: u32)
    requires
        from <= to <= chars.len(),
        all_digits(chars@.subrange(from as int, to as int)),
    ensures
        r == fraction_nanos(chars@.subrange(from as int, to as int)),
{
    let ghost frac = chars@.subrange(from as int, to as int);
    let ghost padded = (frac + nine_zeros()).take(9);
    let len = to - from;
    let mut acc: u32 = 0;
    let mut i: usize = 0;
    proof {
        assert forall|k: int| 0 <= k < padded.len() implies is_digit(#[trigger] padded[k]) by {
            if k < frac.len() {
                assert(padded[k] == frac[k]);
            }
        }
    }
    while i < 9
        invariant
            i <= 9,
            from <= to <= chars.len(),
            len == to - from,
            frac == chars@.subrange(from as int, to as int),
            padded == (frac + nine_zeros()).take(9),
            all_digits(padded),
            acc == decimal_value(padded.take(i as int)),
        decreases 9 - i,
    {
        let c = if i < len {
            chars[from + i]
        } else {
            '0'
        };
        assert(c == padded[i as int]);
        let d = char_digit_value(c);
        proof {
            let next = padded.take(i + 1);
            assert(next.drop_last() =~= padded.take(i as int));
            assert(next.last() == c);
            assert forall|k: int| 0 <= k < next.len() implies is_digit(#[trigger] next[k]) by {
                assert(next[k] == padded[k]);
            }
            lemma_decimal_value_bounds(next);
            assert forall|k: int| 0 <= k < padded.take(i as int).len() implies is_digit(
                #[trigger] padded.take(i as int)[k],
            ) by {
                assert(padded.take(i as int)[k] == padded[k]);
            }
            lemma_decimal_value_bounds(padded.take(i as int));
        }
        acc = acc * 10 + d as u32;
        i = i + 1;
    }
    proof {
        assert(padded.take(9) =~= padded);
    }
    acc
}

/// Reads the characters of `chars` from `from` up to `to` as a timestamp.
/// There is none where the positions are not in order or not within
/// `chars`.
pub fn read_timestamp(chars: &Vec<char>, from: usize, to: usize) -> (r: Option<Timestamp>)
    ensures
        r == (if from <= to <= chars.len() {
            parse_timestamp(chars@.subrange(from as int, to as int))
        } else {
            None
        }),
{
    if from > to || to > chars.len() {
        return None;
    }
    let ghost s = chars@.subrange(from as int, to as int);
    let dot = find_dot(chars, from, to);
    let frac_from = if dot < to - from {
        from + dot + 1
    } else {
        to
    };
    proof {
        assert(chars@.subrange(from as int, from + dot) =~= whole_part(s));
        assert(chars@.subrange(frac_from as int, to as int) =~= fraction_part(s));
    }
    if dot + (to - frac_from) == 0 {
        return None;
    }
    let seconds = match read_digits(chars, from, from + dot, u64::MAX) {
        Some(v) => v,
        None => {
            return None;
        },
    };
    if !digits_only(chars, frac_from, to) {
        return None;
    }
    let nanos = read_nanos(chars, frac_from, to);
    Some(Timestamp { seconds, nanos })
}

/// Whether the characters of `chars` from `from` up to `to` are all digits.
fn digits_only(chars: &Vec<char>, from: usize, to: usize) -> (b: bool)
    requires
        from <= to <= chars.len(),
    ensures
        b == all_digits(chars@.subrange(from as int, to as int)),
{
    let ghost s = chars@.subrange(from as int, to as int);
    let mut i: usize = from;
    while i < to
        invariant
            from <= i <= to <= chars.len(),
            s == chars@.subrange(from as int, to as int),
            forall|j: int| 0 <= j < i - from ==> is_digit(#[trigger] s[j]),
        decreases to - i,
    {
        if !char_is_digit(chars[i]) {
            assert(!is_digit(s[i - from]));
            return false;
        }
        i = i + 1;
    }
    true
}

} // verus!
