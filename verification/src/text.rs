//! Characters, decimal numbers and text building.
//!
//! Everything the rest of the crate says about text is said over
//! `Seq<char>`; the functions here connect `&str` and `String` to that model.

use vstd::prelude::*;
use vstd::string::*;

verus! {

/// An ASCII decimal digit.
pub open spec fn is_digit(c: char) -> bool {
    '0' <= c && c <= '9'
}

/// A lower-case ASCII letter.
pub open spec fn is_lower(c: char) -> bool {
    'a' <= c && c <= 'z'
}

/// White space as Unicode defines it: the code points that it marks
/// `White_Space`.
pub open spec fn is_space(c: char) -> bool {
    let u = c as u32;
    ||| (0x09 <= u && u <= 0x0d)
    ||| u == 0x20
    ||| u == 0x85
    ||| u == 0xa0
    ||| u == 0x1680
    ||| (0x2000 <= u && u <= 0x200a)
    ||| u == 0x2028
    ||| u == 0x2029
    ||| u == 0x202f
    ||| u == 0x205f
    ||| u == 0x3000
}

/// The number a digit stands for.
pub open spec fn digit_value(c: char) -> nat {
    (c as u32 - 0x30) as nat
}

/// The digit that stands for a number below ten.
pub open spec fn digit_char(d: nat) -> char {
    if d == 0 {
        '0'
    } else if d == 1 {
        '1'
    } else if d == 2 {
        '2'
    } else if d == 3 {
        '3'
    } else if d == 4 {
        '4'
    } else if d == 5 {
        '5'
    } else if d == 6 {
        '6'
    } else if d == 7 {
        '7'
    } else if d == 8 {
        '8'
    } else {
        '9'
    }
}

/// Every element of `s` is a decimal digit.
pub open spec fn all_digits(s: Seq<char>) -> bool {
    forall|i: int| 0 <= i < s.len() ==> is_digit(#[trigger] s[i])
}

/// The number that a run of decimal digits denotes, most significant digit
/// first. The empty run denotes zero.
pub open spec fn decimal_value(s: Seq<char>) -> nat
    decreases s.len(),
{
    if s.len() == 0 {
        0
    } else {
        decimal_value(s.drop_last()) * 10 + digit_value(s.last())
    }
}

/// The decimal numeral of `n`, without leading zeros.
pub open spec fn decimal_text(n: nat) -> Seq<char>
    decreases n,
{
    if n < 10 {
        seq![digit_char(n)]
    } else {
        decimal_text(n / 10) + seq![digit_char(n % 10)]
    }
}

/// The decimal numeral of a signed number: a minus sign before the numeral of
/// its magnitude where it is negative.
pub open spec fn signed_decimal_text(n: int) -> Seq<char> {
    if n < 0 {
        seq!['-'] + decimal_text((-n) as nat)
    } else {
        decimal_text(n as nat)
    }
}

/// The first position at or after `from` that holds no digit, or the length
/// of `s` where only digits follow.
pub open spec fn digits_end(s: Seq<char>, from: int) -> int
    decreases s.len() - from,
{
    if 0 <= from < s.len() && is_digit(s[from]) {
        digits_end(s, from + 1)
    } else {
        from
    }
}

/// The number of bytes that `c` takes in UTF-8.
pub open spec fn utf8_width(c: char) -> nat {
    let u = c as u32;
    if u < 0x80 {
        1
    } else if u < 0x800 {
        2
    } else if u < 0x10000 {
        3
    } else {
        4
    }
}

/// The number of bytes that `s` takes in UTF-8.
pub open spec fn utf8_len(s: Seq<char>) -> nat
    decreases s.len(),
{
    if s.len() == 0 {
        0
    } else {
        utf8_len(s.drop_last()) + utf8_width(s.last())
    }
}

/// A numeral reads back as the number it was written for.
pub proof fn lemma_decimal_round_trip(n: nat)
    ensures
        all_digits(decimal_text(n)),
        decimal_text(n).len() >= 1,
        decimal_value(decimal_text(n)) == n,
    decreases n,
{
    if n < 10 {
        let t = decimal_text(n);
        assert(t.drop_last() =~= Seq::<char>::empty());
        assert(decimal_value(t.drop_last()) == 0);
    } else {
        lemma_decimal_round_trip(n / 10);
        let head = decimal_text(n / 10);
        let t = decimal_text(n);
        assert(t.drop_last() =~= head);
        assert(t.last() == digit_char(n % 10));
    }
}

/// `digits_end` stops inside the text, past digits only, and at a character
/// that is no digit.
pub proof fn lemma_digits_end(s: Seq<char>, from: int)
    requires
        0 <= from <= s.len(),
    ensures
        from <= digits_end(s, from) <= s.len(),
        all_digits(s.subrange(from, digits_end(s, from))),
        digits_end(s, from) < s.len() ==> !is_digit(s[digits_end(s, from)]),
    decreases s.len() - from,
{
    if from < s.len() && is_digit(s[from]) {
        lemma_digits_end(s, from + 1);
        let e = digits_end(s, from);
        assert forall|i: int| 0 <= i < e - from implies is_digit(
            #[trigger] s.subrange(from, e)[i],
        ) by {
            if i > 0 {
                assert(s.subrange(from, e)[i] == s.subrange(from + 1, e)[i - 1]);
            }
        }
    }
}

/// The characters of a string slice.
pub fn to_chars(s: &str) -> (v: Vec<char>)
    ensures
        v@ == s@,
{
    let mut v: Vec<char> = Vec::new();
    for c in it: s.chars()
        invariant
            it.seq() == s@,
            v@ == it.seq().take(it.index() as int),
    {
        assert(it.seq().take(it.index() + 1) == it.seq().take(it.index() as int).push(c));
        v.push(c);
    }
    assert(s@.take(s@.len() as int) == s@);
    v
}

/// Whether two runs of characters are the same.
pub fn chars_equal(a: &Vec<char>, b: &Vec<char>) -> (r: bool)
    ensures
        r == (a@ == b@),
{
    if a.len() != b.len() {
        return false;
    }
    let mut i: usize = 0;
    while i < a.len()
        invariant
            a.len() == b.len(),
            i <= a.len(),
            a@.take(i as int) == b@.take(i as int),
        decreases a.len() - i,
    {
        if a[i] != b[i] {
            return false;
        }
        assert(a@.take(i + 1) == a@.take(i as int).push(a@[i as int]));
        assert(b@.take(i + 1) == b@.take(i as int).push(b@[i as int]));
        i = i + 1;
    }
    assert(a@.take(a.len() as int) == a@);
    assert(b@.take(b.len() as int) == b@);
    true
}

/// Whether the characters of `v` from `from` up to `to` spell `word`.
pub fn spells(v: &Vec<char>, from: usize, to: usize, word: &str) -> (r: bool)
    requires
        from <= to <= v.len(),
    ensures
        r == (v@.subrange(from as int, to as int) == word@),
{
    let w = to_chars(word);
    if w.len() != to - from {
        return false;
    }
    let mut i: usize = 0;
    while i < w.len()
        invariant
            from <= to <= v.len(),
            w.len() == to - from,
            w@ == word@,
            i <= w.len(),
            v@.subrange(from as int, from + i) == w@.take(i as int),
        decreases w.len() - i,
    {
        if v[from + i] != w[i] {
            assert(v@.subrange(from as int, to as int)[i as int] == v@[from + i]);
            return false;
        }
        assert(v@.subrange(from as int, from + i + 1) == v@.subrange(from as int, from + i).push(
            v@[from + i],
        ));
        assert(w@.take(i + 1) == w@.take(i as int).push(w@[i as int]));
        i = i + 1;
    }
    assert(w@.take(w.len() as int) == w@);
    true
}

/// Whether `s` and `word` hold the same characters.
pub fn same_text(s: &str, word: &str) -> (r: bool)
    ensures
        r == (s@ == word@),
{
    let a = to_chars(s);
    let b = to_chars(word);
    chars_equal(&a, &b)
}

/// Whether `c` is a decimal digit.
pub fn is_digit_char(c: char) -> (r: bool)
    ensures
        r == is_digit(c),
{
    '0' <= c && c <= '9'
}

/// Whether `c` is a lower-case ASCII letter.
pub fn is_lower_char(c: char) -> (r: bool)
    ensures
        r == is_lower(c),
{
    'a' <= c && c <= 'z'
}

/// Whether `c` is white space.
pub fn is_space_char(c: char) -> (r: bool)
    ensures
        r == is_space(c),
{
    let u: u32 = c as u32;
    (0x09 <= u && u <= 0x0d) || u == 0x20 || u == 0x85 || u == 0xa0 || u == 0x1680 || (0x2000 <= u
        && u <= 0x200a) || u == 0x2028 || u == 0x2029 || u == 0x202f || u == 0x205f || u == 0x3000
}

/// The number of bytes that `c` takes in UTF-8.
pub fn char_width(c: char) -> (r: usize)
    ensures
        r == utf8_width(c),
{
    let u: u32 = c as u32;
    if u < 0x80 {
        1
    } else if u < 0x800 {
        2
    } else if u < 0x10000 {
        3
    } else {
        4
    }
}

/// Scans the digits that start at `from`.
pub fn scan_digits(v: &Vec<char>, from: usize) -> (end: usize)
    requires
        from <= v.len(),
    ensures
        end == digits_end(v@, from as int),
        from <= end <= v.len(),
{
    let mut i: usize = from;
    while i < v.len() && is_digit_char(v[i])
        invariant
            from <= i <= v.len(),
            digits_end(v@, from as int) == digits_end(v@, i as int),
        decreases v.len() - i,
    {
        i = i + 1;
    }
    i
}

/// Reads the digits of `v` from `from` up to `to` as a number, if it is at
/// most `max`.
pub fn parse_decimal(v: &Vec<char>, from: usize, to: usize, max: u64) -> (r: Option<u64>)
    requires
        from <= to <= v.len(),
        all_digits(v@.subrange(from as int, to as int)),
    ensures
        r == if decimal_value(v@.subrange(from as int, to as int)) <= max {
            Some(decimal_value(v@.subrange(from as int, to as int)) as u64)
        } else {
            None
        },
{
    let mut acc: u64 = 0;
    let mut over: bool = false;
    let mut i: usize = from;
    while i < to
        invariant
            from <= i <= to <= v.len(),
            all_digits(v@.subrange(from as int, to as int)),
            !over ==> acc == decimal_value(v@.subrange(from as int, i as int)) && acc <= max,
            over ==> decimal_value(v@.subrange(from as int, i as int)) > max,
        decreases to - i,
    {
        let c: char = v[i];
        assert(c == v@.subrange(from as int, to as int)[i - from]);
        let d: u64 = (c as u32 - 0x30) as u64;
        proof {
            let next = v@.subrange(from as int, i + 1);
            assert(next.drop_last() == v@.subrange(from as int, i as int));
            assert(next.last() == c);
        }
        if !over {
            if d > max || acc > (max - d) / 10 {
                over = true;
            } else {
                acc = acc * 10 + d;
            }
        }
        i = i + 1;
    }
    if over {
        None
    } else {
        Some(acc)
    }
}

/// The text of one digit.
fn digit_str(d: u64) -> (r: &'static str)
    requires
        d < 10,
    ensures
        r@ == seq![digit_char(d as nat)],
{
    proof {
        reveal_strlit("0");
        reveal_strlit("1");
        reveal_strlit("2");
        reveal_strlit("3");
        reveal_strlit("4");
        reveal_strlit("5");
        reveal_strlit("6");
        reveal_strlit("7");
        reveal_strlit("8");
        reveal_strlit("9");
    }
    let r = if d == 0 {
        "0"
    } else if d == 1 {
        "1"
    } else if d == 2 {
        "2"
    } else if d == 3 {
        "3"
    } else if d == 4 {
        "4"
    } else if d == 5 {
        "5"
    } else if d == 6 {
        "6"
    } else if d == 7 {
        "7"
    } else if d == 8 {
        "8"
    } else {
        "9"
    };
    assert(r@ =~= seq![digit_char(d as nat)]);
    r
}

/// Appends the decimal numeral of `n` to `out`.
pub fn push_decimal(out: &mut String, n: u64)
    ensures
        final(out)@ == old(out)@ + decimal_text(n as nat),
    decreases n,
{
    if n >= 10 {
        push_decimal(out, n / 10);
    }
    out.append(digit_str(n % 10));
}

/// Appends the decimal numeral of a signed number to `out`.
pub fn push_signed_decimal(out: &mut String, n: i64)
    ensures
        final(out)@ == old(out)@ + signed_decimal_text(n as int),
{
    if n < 0 {
        proof {
            reveal_strlit("-");
        }
        out.append("-");
        assert("-"@ =~= seq!['-']);
        let m: u64 = if n == i64::MIN {
            0x8000_0000_0000_0000u64
        } else {
            (-n) as u64
        };
        push_decimal(out, m);
    } else {
        push_decimal(out, n as u64);
    }
}

} // verus!
