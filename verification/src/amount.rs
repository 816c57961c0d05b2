//! Amounts of money. The provider states an amount as a decimal numeral of
//! cents; the ledger holds it as a whole number of micro-dollars, so that a
//! cent is ten thousand units and a dollar a million. Digits beyond the fourth
//! decimal place of a cent are dropped from the amount, but they count where
//! the question is whether the amount is zero.

use vstd::prelude::*;
use crate::seqs::{first_index, lemma_first_index, lemma_first_index_is};
use crate::text::chars_of;

verus! {

/// Micro-dollars in one cent.
pub const MICROS_PER_CENT: i64 = 10_000;

/// Micro-dollars in one dollar.
pub const MICROS_PER_DOLLAR: i64 = 1_000_000;

/// The value of a decimal digit, if `c` is one.
pub open spec fn digit_of(c: char) -> Option<int> {
    if c == '0' {
        Some(0)
    } else if c == '1' {
        Some(1)
    } else if c == '2' {
        Some(2)
    } else if c == '3' {
        Some(3)
    } else if c == '4' {
        Some(4)
    } else if c == '5' {
        Some(5)
    } else if c == '6' {
        Some(6)
    } else if c == '7' {
        Some(7)
    } else if c == '8' {
        Some(8)
    } else if c == '9' {
        Some(9)
    } else {
        None
    }
}

/// Whether every character of `s` is a decimal digit.
pub open spec fn all_digits(s: Seq<char>) -> bool {
    forall|i: int| 0 <= i < s.len() ==> (#[trigger] digit_of(s[i])) is Some
}

/// The number that the digits of `s` write in base ten; 0 for no digits.
pub open spec fn digits_value(s: Seq<char>) -> int
    decreases s.len(),
{
    if s.len() == 0 {
        0
    } else {
        digits_value(s.drop_last()) * 10 + digit_of(s.last()).unwrap_or(0)
    }
}

/// The place of the first `.` in `s`, or the length of `s` if it has none.
pub open spec fn point_position(s: Seq<char>) -> int {
    first_index(s, '.')
}

/// The digits before the decimal point of the unsigned numeral `s`.
pub open spec fn whole_part(s: Seq<char>) -> Seq<char> {
    s.take(point_position(s))
}

/// The digits after the decimal point of the unsigned numeral `s`.
pub open spec fn fraction_part(s: Seq<char>) -> Seq<char> {
    if point_position(s) < s.len() {
        s.skip(point_position(s) + 1)
    } else {
        Seq::empty()
    }
}

/// Ten to the power `n`, for the four powers that scaling a fraction needs.
pub open spec fn scale_of(n: int) -> int {
    if n <= 0 {
        1
    } else if n == 1 {
        10
    } else if n == 2 {
        100
    } else if n == 3 {
        1000
    } else {
        10000
    }
}

/// Whether `s` is an unsigned decimal numeral: digits, then optionally a
/// point and more digits, with at least one digit in all.
pub open spec fn is_unsigned_decimal(s: Seq<char>) -> bool {
    &&& all_digits(whole_part(s))
    &&& all_digits(fraction_part(s))
    &&& whole_part(s).len() + fraction_part(s).len() >= 1
}

/// What the unsigned numeral `s`, read as cents, is worth in micro-dollars.
pub open spec fn unsigned_micros(s: Seq<char>) -> int {
    let frac = fraction_part(s);
    let kept = if frac.len() < 4 {
        frac
    } else {
        frac.take(4)
    };
    digits_value(whole_part(s)) * 10000 + digits_value(kept) * scale_of(4 - kept.len())
}

/// Whether `s` begins with a sign.
pub open spec fn has_sign(s: Seq<char>) -> bool {
    s.len() > 0 && (s[0] == '-' || s[0] == '+')
}

/// The numeral `s` without its sign.
pub open spec fn unsigned_part(s: Seq<char>) -> Seq<char> {
    if has_sign(s) {
        s.skip(1)
    } else {
        s
    }
}

/// What the decimal numeral `s`, read as cents, is worth in micro-dollars,
/// whatever its size; `None` if `s` is no decimal numeral.
pub open spec fn decimal_micros(s: Seq<char>) -> Option<int> {
    if !is_unsigned_decimal(unsigned_part(s)) {
        None
    } else if s[0] == '-' {
        Some(-unsigned_micros(unsigned_part(s)))
    } else {
        Some(unsigned_micros(unsigned_part(s)))
    }
}

/// What a reported amount of cents is worth in micro-dollars: the value of
/// the numeral where it is one and fits in 64 bits, else `None`.
pub open spec fn micros_of_cents(s: Seq<char>) -> Option<int> {
    match decimal_micros(s) {
        Some(v) => if i64::MIN <= v <= i64::MAX {
            Some(v)
        } else {
            None
        },
        None => None,
    }
}

/// Whether the decimal numeral `s` is worth nothing: its digits before the
/// point write zero, and so do those after it, however many they are.
pub open spec fn numeral_is_zero(s: Seq<char>) -> bool {
    &&& digits_value(whole_part(unsigned_part(s))) == 0
    &&& digits_value(fraction_part(unsigned_part(s))) == 0
}

/// What was read of a reported amount of cents.
#[derive(Clone, Copy, Debug, PartialEq, Eq, Structural)]
pub struct CentsReading {
    /// The amount in whole micro-dollars; what is less than one is dropped.
    pub micros: i64,
    /// Whether the numeral is worth nothing at all, also below a
    /// micro-dollar.
    pub is_zero: bool,
}

/// The value of a decimal digit, if `c` is one.
pub fn digit(c: char) -> (d: Option<u8>)
    ensures
        match d {
            Some(v) => digit_of(c) == Some(v as int),
            None => digit_of(c) is None,
        },
{
    match c {
        '0' => Some(0),
        '1' => Some(1),
        '2' => Some(2),
        '3' => Some(3),
        '4' => Some(4),
        '5' => Some(5),
        '6' => Some(6),
        '7' => Some(7),
        '8' => Some(8),
        '9' => Some(9),
        _ => None,
    }
}

proof fn lemma_digits_value_nonnegative(s: Seq<char>)
    ensures
        digits_value(s) >= 0,
    decreases s.len(),
{
    if s.len() > 0 {
        lemma_digits_value_nonnegative(s.drop_last());
    }
}

/// Reads a reported amount of cents as micro-dollars.
pub fn parse_cents(text: &str) -> (r: Option<i64>)
    ensures
        match r {
            Some(v) => micros_of_cents(text@) == Some(v as int),
            None => micros_of_cents(text@) is None,
        },
{
    match read_cents(text) {
        Some(reading) => Some(reading.micros),
        None => None,
    }
}

/// Reads a reported amount of cents: what it is worth in micro-dollars, and
/// whether it is worth nothing at all.
#[verifier::rlimit(40)]
pub fn read_cents(text: &str) -> (r: Option<CentsReading>)
    ensures
        match r {
            Some(reading) => micros_of_cents(text@) == Some(reading.micros as int)
                && reading.is_zero == numeral_is_zero(text@),
            None => micros_of_cents(text@) is None,
        },
{
    let cs = chars_of(text);
    let n = cs.len();
    let mut negative = false;
    let mut start: usize = 0;
    if n > 0 && (cs[0] == '-' || cs[0] == '+') {
        negative = cs[0] == '-';
        start = 1;
    }
    let ghost body = unsigned_part(text@);
    assert(body =~= cs@.skip(start as int));
    // The digits before the point. Past the cap the value is out of range
    // whatever follows, and only the shape of the numeral is still checked.
    let mut whole: i128 = 0;
    let mut whole_is_zero = true;
    let mut i: usize = start;
    assert(body.take(0).len() == 0);
    while i < n && cs[i] != '.'
        invariant
            whole_is_zero == (digits_value(body.take(i - start)) == 0),
            cs@ == text@,
            n == cs.len(),
            body == cs@.skip(start as int),
            body == unsigned_part(text@),
            start <= i <= n,
            forall|k: int| 0 <= k < i - start ==> body[k] != '.',
            all_digits(body.take(i - start)),
            0 <= whole <= 10_000_000_000_000_000,
            whole < 1_000_000_000_000_000 ==> whole == digits_value(body.take(i - start)),
            whole >= 1_000_000_000_000_000 ==> digits_value(body.take(i - start))
                >= 1_000_000_000_000_000,
        decreases n - i,
    {
        let ghost before = body.take(i - start);
        let ghost after = body.take(i - start + 1);
        assert(after.drop_last() =~= before);
        assert(after.last() == cs@[i as int]);
        match digit(cs[i]) {
            None => {
                proof {
                    // The offending character lies before the point.
                    lemma_first_index(body, '.');
                    assert(body[i - start] == cs@[i as int]);
                    assert(point_position(body) > i - start);
                    assert(whole_part(body)[i - start] == cs@[i as int]);
                    assert(!all_digits(whole_part(body)));
                }
                return None;
            },
            Some(d) => {
                proof {
                    lemma_digits_value_nonnegative(before);
                    assert forall|k: int| 0 <= k < after.len() implies (#[trigger] digit_of(
                        after[k],
                    )) is Some by {
                        if k < before.len() {
                            assert(after[k] == before[k]);
                        }
                    }
                }
                if whole < 1_000_000_000_000_000 {
                    whole = whole * 10 + d as i128;
                }
                if d != 0 {
                    whole_is_zero = false;
                }
            },
        }
        i += 1;
    }
    let dot = i;
    proof {
        lemma_first_index_is(body, '.', dot - start);
        assert(whole_part(body) =~= body.take(dot - start));
    }
    // The digits after the point: the first four count, the rest are only
    // checked to be digits.
    let mut frac: i128 = 0;
    let mut fraction_is_zero = true;
    let mut kept: usize = 0;
    let mut j: usize = if dot < n {
        dot + 1
    } else {
        n
    };
    let first = j;
    let ghost tail = fraction_part(body);
    assert(tail =~= cs@.skip(first as int));
    assert(tail.take(0).len() == 0);
    while j < n
        invariant
            fraction_is_zero == (digits_value(tail.take(j - first)) == 0),
            cs@ == text@,
            n == cs.len(),
            first <= j <= n,
            tail == cs@.skip(first as int),
            tail == fraction_part(unsigned_part(text@)),
            all_digits(tail.take(j - first)),
            kept <= 4,
            kept == if j - first < 4 {
                j - first
            } else {
                4
            },
            frac == digits_value(tail.take(kept as int)),
            0 <= frac < scale_of(kept as int),
        decreases n - j,
    {
        let ghost before = tail.take(j - first);
        let ghost after = tail.take(j - first + 1);
        assert(after.drop_last() =~= before);
        assert(after.last() == cs@[j as int]);
        match digit(cs[j]) {
            None => {
                assert(tail[j - first] == cs@[j as int]);
                assert(!all_digits(tail));
                return None;
            },
            Some(d) => {
                proof {
                    lemma_digits_value_nonnegative(before);
                    assert forall|k: int| 0 <= k < after.len() implies (#[trigger] digit_of(
                        after[k],
                    )) is Some by {
                        if k < before.len() {
                            assert(after[k] == before[k]);
                        }
                    }
                }
                if d != 0 {
                    fraction_is_zero = false;
                }
                if kept < 4 {
                    assert(tail.take(kept as int) == before);
                    frac = frac * 10 + d as i128;
                    kept += 1;
                    assert(tail.take(kept as int) == after);
                }
            },
        }
        j += 1;
    }
    proof {
        assert(tail.take(j - first) =~= tail);
        if tail.len() >= 4 {
            assert(kept == 4);
        } else {
            assert(tail.take(kept as int) =~= tail);
        }
        assert(fraction_is_zero == (digits_value(fraction_part(body)) == 0));
        assert(whole_is_zero == (digits_value(whole_part(body)) == 0));
        assert((whole_is_zero && fraction_is_zero) == numeral_is_zero(text@));
    }
    if (dot - start) + (n - first) == 0 {
        return None;
    }
    if whole >= 1_000_000_000_000_000 {
        proof {
            lemma_digits_value_nonnegative(tail.take(kept as int));
        }
        return None;
    }
    let scale: i128 = if kept == 0 {
        10000
    } else if kept == 1 {
        1000
    } else if kept == 2 {
        100
    } else if kept == 3 {
        10
    } else {
        1
    };
    let magnitude: i128 = whole * 10000 + frac * scale;
    let value: i128 = if negative {
        -magnitude
    } else {
        magnitude
    };
    if value < i64::MIN as i128 || value > i64::MAX as i128 {
        None
    } else {
        Some(CentsReading { micros: value as i64, is_zero: whole_is_zero && fraction_is_zero })
    }
}

} // verus!
