//! Texts as sequences of characters: prefixes and suffixes, numerals in base
//! sixteen, and lists of texts.

use vstd::prelude::*;
use vstd::string::StringExecFns;
use crate::seqs::views;

verus! {

/// Whether `text` begins with `prefix`.
pub open spec fn begins_with(text: Seq<char>, prefix: Seq<char>) -> bool {
    prefix.len() <= text.len() && text.take(prefix.len() as int) == prefix
}

/// Whether the last character of `text` is `c`.
pub open spec fn ends_in(text: Seq<char>, c: char) -> bool {
    text.len() > 0 && text.last() == c
}

/// The text inside an optional string.
pub open spec fn option_view(s: Option<String>) -> Option<Seq<char>> {
    match s {
        Some(t) => Some(t@),
        None => None,
    }
}

/// A copy of an optional string.
pub fn copy_option(text: &Option<String>) -> (copy: Option<String>)
    ensures
        option_view(copy) == option_view(*text),
{
    match text {
        Some(t) => Some(t.clone()),
        None => None,
    }
}

/// The characters of `s`, in order.
pub fn chars_of(s: &str) -> (out: Vec<char>)
    ensures
        out@ == s@,
{
    let n = s.unicode_len();
    let mut out: Vec<char> = Vec::new();
    let mut i: usize = 0;
    while i < n
        invariant
            n == s@.len(),
            i <= n,
            out@ == s@.take(i as int),
        decreases n - i,
    {
        out.push(s.get_char(i));
        i += 1;
    }
    out
}

/// Tells whether `text` begins with `prefix`.
pub fn has_prefix(text: &str, prefix: &str) -> (r: bool)
    ensures
        r == begins_with(text@, prefix@),
{
    let x = chars_of(text);
    let p = chars_of(prefix);
    if p.len() > x.len() {
        return false;
    }
    let mut i: usize = 0;
    while i < p.len()
        invariant
            x@ == text@,
            p@ == prefix@,
            p.len() <= x.len(),
            i <= p.len(),
            x@.take(i as int) == p@.take(i as int),
        decreases p.len() - i,
    {
        if x[i] != p[i] {
            assert(text@.take(prefix@.len() as int)[i as int] != prefix@[i as int]);
            return false;
        }
        assert(x@.take(i + 1) =~= x@.take(i as int).push(x@[i as int]));
        assert(p@.take(i + 1) =~= p@.take(i as int).push(p@[i as int]));
        i += 1;
    }
    assert(p@.take(p.len() as int) =~= p@);
    true
}

/// Tells whether the last character of `text` is `c`.
pub fn has_last_char(text: &str, c: char) -> (r: bool)
    ensures
        r == ends_in(text@, c),
{
    let n = text.unicode_len();
    n > 0 && text.get_char(n - 1) == c
}

/// Whether no text occurs twice in `list`.
pub fn all_distinct(list: &Vec<String>) -> (r: bool)
    ensures
        r == views(list@).no_duplicates(),
{
    let ghost texts = views(list@);
    let mut i: usize = 0;
    while i < list.len()
        invariant
            i <= list.len(),
            texts == views(list@),
            forall|a: int, b: int| 0 <= a < b < i ==> texts[a] != texts[b],
        decreases list.len() - i,
    {
        let mut j: usize = 0;
        while j < i
            invariant
                j <= i < list.len(),
                texts == views(list@),
                forall|a: int| 0 <= a < j ==> texts[a] != texts[i as int],
            decreases i - j,
        {
            if list[j] == list[i] {
                assert(texts[j as int] == texts[i as int]);
                return false;
            }
            j += 1;
        }
        i += 1;
    }
    true
}

/// The digit of base sixteen for `d`, in lowercase.
pub open spec fn hex_digit(d: int) -> char {
    if d == 0 {
        '0'
    } else if d == 1 {
        '1'
    } else if d == 2 {
        '2'
    } else if d == 3 {
        '3'
    } else if d == 4 {
        '4'
    } else if d == 5 {
        '5'
    } else if d == 6 {
        '6'
    } else if d == 7 {
        '7'
    } else if d == 8 {
        '8'
    } else if d == 9 {
        '9'
    } else if d == 10 {
        'a'
    } else if d == 11 {
        'b'
    } else if d == 12 {
        'c'
    } else if d == 13 {
        'd'
    } else if d == 14 {
        'e'
    } else {
        'f'
    }
}

/// The numeral of `n` in base sixteen, in lowercase and without leading
/// zeros; `0` for zero.
pub open spec fn hex_text(n: nat) -> Seq<char>
    decreases n,
{
    if n < 16 {
        seq![hex_digit(n as int)]
    } else {
        hex_text(n / 16).push(hex_digit((n % 16) as int))
    }
}

/// The digits `d`, least significant first, written most significant first.
pub open spec fn hex_backwards(d: Seq<u8>) -> Seq<char> {
    Seq::new(d.len(), |i: int| hex_digit(d[d.len() - 1 - i] as int))
}

/// The digit of base sixteen for `d`, as a text of one character.
fn hex_digit_text(d: u8) -> (text: &'static str)
    requires
        d < 16,
    ensures
        text@ == seq![hex_digit(d as int)],
{
    proof {
        reveal_strlit("0");
        reveal_strlit("1");
        reveal_strlit("2");
        reveal_strlit("3");
        reveal_strlit("4");
        reveal_strlit("5");
        reveal_strlit("6");
        reveal_strlit("7");
        reveal_strlit("8");
        reveal_strlit("9");
        reveal_strlit("a");
        reveal_strlit("b");
        reveal_strlit("c");
        reveal_strlit("d");
        reveal_strlit("e");
        reveal_strlit("f");
    }
    let text = if d == 0 {
        "0"
    } else if d == 1 {
        "1"
    } else if d == 2 {
        "2"
    } else if d == 3 {
        "3"
    } else if d == 4 {
        "4"
    } else if d == 5 {
        "5"
    } else if d == 6 {
        "6"
    } else if d == 7 {
        "7"
    } else if d == 8 {
        "8"
    } else if d == 9 {
        "9"
    } else if d == 10 {
        "a"
    } else if d == 11 {
        "b"
    } else if d == 12 {
        "c"
    } else if d == 13 {
        "d"
    } else if d == 14 {
        "e"
    } else {
        "f"
    };
    assert(text@ =~= seq![hex_digit(d as int)]);
    text
}

/// Writes `n` in base sixteen, in lowercase.
pub fn lower_hex(n: u128) -> (text: String)
    ensures
        text@ == hex_text(n as nat),
{
    let mut digits: Vec<u8> = Vec::new();
    let mut rest: u128 = n;
    assert(hex_backwards(digits@) =~= Seq::empty());
    assert(hex_text(rest as nat) + Seq::<char>::empty() =~= hex_text(rest as nat));
    while rest >= 16
        invariant
            hex_text(n as nat) == hex_text(rest as nat) + hex_backwards(digits@),
            forall|i: int| 0 <= i < digits@.len() ==> digits@[i] < 16,
        decreases rest,
    {
        let ghost before = digits@;
        let d = (rest % 16) as u8;
        digits.push(d);
        assert(hex_backwards(digits@) =~= seq![hex_digit(d as int)] + hex_backwards(before));
        assert(hex_text(rest as nat) == hex_text((rest / 16) as nat).push(hex_digit(d as int)));
        assert(hex_text((rest / 16) as nat).push(hex_digit(d as int)) + hex_backwards(before)
            =~= hex_text((rest / 16) as nat) + hex_backwards(digits@));
        rest = rest / 16;
    }
    let mut text = String::from_str(hex_digit_text(rest as u8));
    let mut k: usize = digits.len();
    let ghost tail = hex_backwards(digits@);
    assert(text@ + tail.take(0) =~= text@);
    while k > 0
        invariant
            k <= digits.len(),
            tail == hex_backwards(digits@),
            forall|i: int| 0 <= i < digits@.len() ==> digits@[i] < 16,
            text@ == seq![hex_digit(rest as int)] + tail.take(digits.len() - k),
        decreases k,
    {
        k -= 1;
        let ghost had = text@;
        text.append(hex_digit_text(digits[k]));
        assert(tail[digits.len() - 1 - k] == hex_digit(digits@[k as int] as int));
        assert(text@ =~= seq![hex_digit(rest as int)] + tail.take(digits.len() - k));
    }
    assert(tail.take(digits.len() as int) =~= tail);
    text
}

} // verus!
