//! The text of a JSON number.
//!
//! Scalars are carried through the library as the decimal text that stands in
//! a document, never as binary floating point. This module says which texts
//! are numbers and decides the question for a given string. It also writes
//! and reads the decimal text of an integer.

use vstd::prelude::*;
use vstd::string::StringExecFns;
use vstd::string::StringSliceAdditionalSpecFns;

verus! {

pub open spec fn is_digit(c: char) -> bool {
    '0' <= c && c <= '9'
}

/// The first position at or after `pos` that holds no decimal digit.
pub open spec fn digits_end(s: Seq<char>, pos: int) -> int
    decreases s.len() - pos,
{
    if 0 <= pos < s.len() && is_digit(s[pos]) {
        digits_end(s, pos + 1)
    } else {
        pos
    }
}

/// Whether `s` is a JSON number in plain form:
///
/// ```text
/// number   = [ "-" ] integer [ "." digits ] [ "e" sign digits ]
/// integer  = "0" | nonzero digit, then any digits
/// sign     = "+" | "-"
/// ```
///
/// This is the JSON grammar with the exponent written in one way only: a
/// lower-case `e` followed by an explicit sign.
pub open spec fn is_number(s: Seq<char>) -> bool {
    let start = if s.len() > 0 && s[0] == '-' {
        1int
    } else {
        0int
    };
    let int_end = digits_end(s, start);
    let has_frac = int_end < s.len() && s[int_end] == '.';
    let frac_end = if has_frac {
        digits_end(s, int_end + 1)
    } else {
        int_end
    };
    let has_exp = frac_end < s.len() && s[frac_end] == 'e';
    let exp_end = if has_exp {
        digits_end(s, frac_end + 2)
    } else {
        frac_end
    };
    &&& int_end > start
    &&& (s[start] == '0' ==> int_end == start + 1)
    &&& (has_frac ==> frac_end > int_end + 1)
    &&& (has_exp ==> frac_end + 1 < s.len() && (s[frac_end + 1] == '+' || s[frac_end + 1] == '-')
        && exp_end > frac_end + 2)
    &&& exp_end == s.len()
}

/// Between `pos` and `digits_end(s, pos)` there are only digits, and the run
/// ends inside the sequence.
pub proof fn lemma_digits_end(s: Seq<char>, pos: int)
    requires
        0 <= pos <= s.len(),
    ensures
        pos <= digits_end(s, pos) <= s.len(),
        forall|j: int| pos <= j < digits_end(s, pos) ==> is_digit(#[trigger] s[j]),
        digits_end(s, pos) < s.len() ==> !is_digit(s[digits_end(s, pos)]),
    decreases s.len() - pos,
{
    if pos < s.len() && is_digit(s[pos]) {
        lemma_digits_end(s, pos + 1);
    }
}

/// Every character of a number is ASCII.
pub proof fn lemma_number_is_ascii(s: Seq<char>)
    requires
        is_number(s),
    ensures
        vstd::utf8::is_ascii_chars(s),
{
    let start = if s.len() > 0 && s[0] == '-' {
        1int
    } else {
        0int
    };
    let int_end = digits_end(s, start);
    lemma_digits_end(s, start);
    let has_frac = int_end < s.len() && s[int_end] == '.';
    if has_frac {
        lemma_digits_end(s, int_end + 1);
    }
    let frac_end = if has_frac {
        digits_end(s, int_end + 1)
    } else {
        int_end
    };
    let has_exp = frac_end < s.len() && s[frac_end] == 'e';
    if has_exp {
        lemma_digits_end(s, frac_end + 2);
    }
    assert forall|i: int| 0 <= i < s.len() implies '\0' <= #[trigger] s[i] <= '\u{7f}' by {
        if i < start {
        } else if i < int_end {
        } else if i < frac_end {
            if i > int_end {
            }
        } else {
            if i > frac_end + 1 {
            }
        }
    }
}

/// The characters of an ASCII string, one byte each.
fn ascii_len(text: &str) -> (n: usize)
    requires
        text.is_ascii(),
    ensures
        n == text@.len(),
{
    proof {
        vstd::string::is_ascii_spec_bytes(text);
        assert(text.spec_bytes().len() == text@.len());
    }
    text.as_bytes().len()
}

/// The character at position `i` of an ASCII string.
fn ascii_at(text: &str, i: usize) -> (c: char)
    requires
        text.is_ascii(),
        i < text@.len(),
    ensures
        c == text@[i as int],
{
    let b = text.get_ascii(i);
    assert(text@[i as int] as u8 as char == text@[i as int]) by {
        let c = text@[i as int];
        assert('\0' <= c <= '\u{7f}');
    }
    b as char
}

/// Scans the run of digits that starts at `pos`.
fn scan_digits(text: &str, pos: usize) -> (end: usize)
    requires
        text.is_ascii(),
        pos <= text@.len(),
    ensures
        end == digits_end(text@, pos as int),
        pos <= end <= text@.len(),
{
    let n = ascii_len(text);
    let mut i = pos;
    while i < n
        invariant
            text.is_ascii(),
            n == text@.len(),
            pos <= i <= n,
            digits_end(text@, pos as int) == digits_end(text@, i as int),
        decreases n - i,
    {
        let c = ascii_at(text, i);
        if !('0' <= c && c <= '9') {
            return i;
        }
        i = i + 1;
    }
    i
}

/// Decides whether `text` is a number in plain form.
pub fn check_number(text: &str) -> (ok: bool)
    ensures
        ok == is_number(text@),
{
    if !text.is_ascii() {
        proof {
            if is_number(text@) {
                lemma_number_is_ascii(text@);
            }
        }
        return false;
    }
    let n = ascii_len(text);
    let start: usize = if n > 0 && ascii_at(text, 0) == '-' {
        1
    } else {
        0
    };
    let int_end = scan_digits(text, start);
    if int_end == start {
        return false;
    }
    if ascii_at(text, start) == '0' && int_end != start + 1 {
        return false;
    }
    let mut frac_end = int_end;
    if int_end < n && ascii_at(text, int_end) == '.' {
        frac_end = scan_digits(text, int_end + 1);
        if frac_end == int_end + 1 {
            return false;
        }
    }
    let mut exp_end = frac_end;
    if frac_end < n && ascii_at(text, frac_end) == 'e' {
        if frac_end + 1 >= n {
            return false;
        }
        let sign = ascii_at(text, frac_end + 1);
        if sign != '+' && sign != '-' {
            return false;
        }
        exp_end = scan_digits(text, frac_end + 2);
        if exp_end == frac_end + 2 {
            return false;
        }
    }
    exp_end == n
}

/// The character of the decimal digit `d`.
pub open spec fn digit_char(d: int) -> char {
    (d + 48) as u8 as char
}

/// The decimal text of a natural number, without leading zeros.
pub open spec fn nat_text(n: nat) -> Seq<char>
    decreases n,
{
    if n < 10 {
        seq![digit_char(n as int)]
    } else {
        nat_text(n / 10).push(digit_char((n % 10) as int))
    }
}

/// The decimal text of an integer: a minus sign where it is negative, then
/// its magnitude.
pub open spec fn int_text(i: int) -> Seq<char> {
    if i < 0 {
        seq!['-'] + nat_text((-i) as nat)
    } else {
        nat_text(i as nat)
    }
}

/// The number that a run of digits denotes in base ten.
pub open spec fn digits_value(s: Seq<char>) -> int
    decreases s.len(),
{
    if s.len() == 0 {
        0
    } else {
        digits_value(s.drop_last()) * 10 + (s.last() as int - 48)
    }
}

/// The integer that `s` is the decimal text of, if it is one: an optional
/// minus sign and digits, with no leading zero and no `-0`.
pub open spec fn text_int(s: Seq<char>) -> Option<int> {
    let start = if s.len() > 0 && s[0] == '-' {
        1int
    } else {
        0int
    };
    if s.len() > start && digits_end(s, start) == s.len() && (s[start] == '0' ==> s.len() == 1) {
        Some(
            if start == 1 {
                -digits_value(s.skip(1))
            } else {
                digits_value(s)
            },
        )
    } else {
        None
    }
}

/// A run that holds only digits from `pos` on ends at the end.
pub proof fn lemma_digits_to_end(s: Seq<char>, pos: int)
    requires
        0 <= pos <= s.len(),
        forall|j: int| pos <= j < s.len() ==> is_digit(#[trigger] s[j]),
    ensures
        digits_end(s, pos) == s.len(),
    decreases s.len() - pos,
{
    if pos < s.len() {
        lemma_digits_to_end(s, pos + 1);
    }
}

/// The text of a natural number is a run of digits that denotes it, and
/// starts with `0` only for zero.
pub proof fn lemma_nat_text(n: nat)
    ensures
        nat_text(n).len() >= 1,
        forall|j: int| 0 <= j < nat_text(n).len() ==> is_digit(#[trigger] nat_text(n)[j]),
        nat_text(n)[0] == '0' ==> n == 0,
        n == 0 ==> nat_text(n).len() == 1,
        digits_value(nat_text(n)) == n,
    decreases n,
{
    if n < 10 {
        let s = nat_text(n);
        assert(s.drop_last() =~= Seq::<char>::empty());
        assert(digits_value(s.drop_last()) == 0);
    } else {
        lemma_nat_text(n / 10);
        let head = nat_text(n / 10);
        let s = nat_text(n);
        assert(s.drop_last() =~= head);
        assert(s[0] == head[0]);
    }
}

/// Reading the text of an integer gives the integer back.
pub proof fn lemma_text_int_of_int_text(i: int)
    ensures
        text_int(int_text(i)) == Some(i),
{
    let s = int_text(i);
    if i < 0 {
        let m = nat_text((-i) as nat);
        lemma_nat_text((-i) as nat);
        assert(s.skip(1) =~= m);
        assert forall|j: int| 1 <= j < s.len() implies is_digit(#[trigger] s[j]) by {
            assert(s[j] == m[j - 1]);
        }
        lemma_digits_to_end(s, 1);
        assert(s[1] == m[0]);
    } else {
        lemma_nat_text(i as nat);
        lemma_digits_to_end(s, 0);
    }
}

/// The text of an integer is a number in plain form.
pub proof fn lemma_int_text_is_number(i: int)
    ensures
        is_number(int_text(i)),
{
    let s = int_text(i);
    if i < 0 {
        let m = nat_text((-i) as nat);
        lemma_nat_text((-i) as nat);
        assert forall|j: int| 1 <= j < s.len() implies is_digit(#[trigger] s[j]) by {
            assert(s[j] == m[j - 1]);
        }
        lemma_digits_to_end(s, 1);
        assert(s[1] == m[0]);
    } else {
        lemma_nat_text(i as nat);
        lemma_digits_to_end(s, 0);
    }
}

/// The one-character string of a decimal digit.
fn digit_str(d: u32) -> (r: &'static str)
    requires
        d < 10,
    ensures
        r@ == seq![digit_char(d as int)],
{
    proof {
        reveal_strlit("0");
        reveal_strlit("1");
        reveal_strlit("2");
        reveal_strlit("3");
        reveal_strlit("4");
        reveal_strlit("5");
        reveal_strlit("6");
        reveal_strlit("7");
        reveal_strlit("8");
        reveal_strlit("9");
    }
    let r = if d == 0 {
        "0"
    } else if d == 1 {
        "1"
    } else if d == 2 {
        "2"
    } else if d == 3 {
        "3"
    } else if d == 4 {
        "4"
    } else if d == 5 {
        "5"
    } else if d == 6 {
        "6"
    } else if d == 7 {
        "7"
    } else if d == 8 {
        "8"
    } else {
        "9"
    };
    assert(r@ =~= seq![digit_char(d as int)]);
    r
}

/// Writes a natural number in base ten.
fn nat_string(n: u32) -> (r: String)
    ensures
        r@ == nat_text(n as nat),
    decreases n,
{
    if n < 10 {
        digit_str(n).to_owned()
    } else {
        let mut r = nat_string(n / 10);
        r.append(digit_str(n % 10));
        assert(r@ =~= nat_text(n as nat));
        r
    }
}

/// Writes an integer in base ten.
pub fn int_string(i: i16) -> (r: String)
    ensures
        r@ == int_text(i as int),
{
    if i < 0 {
        proof {
            reveal_strlit("-");
        }
        let magnitude: u32 = (-(i as i32)) as u32;
        let mut r = "-".to_owned();
        r.append(nat_string(magnitude).as_str());
        assert(r@ =~= int_text(i as int));
        r
    } else {
        nat_string(i as u32)
    }
}

/// One more digit multiplies what the digits before it denote by ten and adds
/// its own value.
proof fn lemma_digits_value_step(s: Seq<char>, from: int, to: int)
    requires
        0 <= from <= to < s.len(),
        is_digit(s[to]),
    ensures
        digits_value(s.subrange(from, to + 1)) == digits_value(s.subrange(from, to)) * 10 + (
        s[to] as int - 48),
{
    let t = s.subrange(from, to + 1);
    assert(t.drop_last() =~= s.subrange(from, to));
    assert(t.last() == s[to]);
}

/// Reads the decimal text of a 16-bit integer.
pub fn parse_int(text: &str) -> (r: Option<i16>)
    ensures
        r == match text_int(text@) {
            Some(i) => if i16::MIN <= i <= i16::MAX {
                Some(i as i16)
            } else {
                None
            },
            None => None,
        },
{
    if !text.is_ascii() {
        proof {
            let s = text@;
            if text_int(s) is Some {
                let start = if s.len() > 0 && s[0] == '-' {
                    1int
                } else {
                    0int
                };
                lemma_digits_end(s, start);
                assert forall|i: int| 0 <= i < s.len() implies '\0' <= #[trigger] s[i]
                    <= '\u{7f}' by {
                    if i >= start {
                        assert(is_digit(s[i]));
                    }
                }
            }
        }
        return None;
    }
    let n = ascii_len(text);
    let start: usize = if n > 0 && ascii_at(text, 0) == '-' {
        1
    } else {
        0
    };
    if n == start {
        return None;
    }
    if ascii_at(text, start) == '0' && n != 1 {
        proof {
            lemma_digits_end(text@, start as int);
        }
        return None;
    }
    let mut value: u32 = 0;
    let mut beyond = false;
    let mut i = start;
    assert(text@.subrange(start as int, start as int) =~= Seq::<char>::empty());
    while i < n
        invariant
            text.is_ascii(),
            n == text@.len(),
            start <= i <= n,
            start == if text@.len() > 0 && text@[0] == '-' {
                1int
            } else {
                0int
            },
            forall|j: int| start <= j < i ==> is_digit(#[trigger] text@[j]),
            !beyond ==> value == digits_value(text@.subrange(start as int, i as int)),
            !beyond ==> value <= 32768,
            beyond ==> digits_value(text@.subrange(start as int, i as int)) > 32768,
        decreases n - i,
    {
        let c = ascii_at(text, i);
        if !('0' <= c && c <= '9') {
            proof {
                lemma_digits_end(text@, start as int);
                assert(!is_digit(text@[i as int]));
            }
            return None;
        }
        proof {
            lemma_digits_value_step(text@, start as int, i as int);
        }
        if !beyond {
            let d: u32 = (c as u32) - 48;
            value = value * 10 + d;
            if value > 32768 {
                beyond = true;
            }
        }
        i = i + 1;
    }
    proof {
        lemma_digits_to_end(text@, start as int);
        assert(text@.subrange(start as int, n as int) =~= text@.skip(start as int));
        assert(text@.skip(0) =~= text@);
    }
    if beyond {
        None
    } else if start == 1 {
        Some((-(value as i32)) as i16)
    } else if value <= 32767 {
        Some(value as i16)
    } else {
        None
    }
}

} // verus!
