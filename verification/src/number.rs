//! Decimal numbers as text: rendering a count and reading a signed integer.

use crate::text::chars_of;
use vstd::prelude::*;

verus! {

/// The character that stands for the digit `d`.
pub open spec fn digit_char(d: nat) -> char {
    if d == 0 {
        '0'
    } else if d == 1 {
        '1'
    } else if d == 2 {
        '2'
    } else if d == 3 {
        '3'
    } else if d == 4 {
        '4'
    } else if d == 5 {
        '5'
    } else if d == 6 {
        '6'
    } else if d == 7 {
        '7'
    } else if d == 8 {
        '8'
    } else {
        '9'
    }
}

/// `c` is one of the ten decimal digits.
pub open spec fn is_digit(c: char) -> bool {
    0x30 <= c as u32 <= 0x39
}

/// The digit that `c` stands for.
pub open spec fn digit_value(c: char) -> nat {
    (c as u32 - 0x30) as nat
}

/// `n` written in decimal, without leading zeros.
pub open spec fn decimal(n: nat) -> Seq<char>
    decreases n,
{
    if n < 10 {
        seq![digit_char(n)]
    } else {
        decimal(n / 10).push(digit_char(n % 10))
    }
}

/// The number that a run of digits stands for; leading zeros count for
/// nothing.
pub open spec fn digits_value(s: Seq<char>) -> nat
    decreases s.len(),
{
    if s.len() == 0 {
        0
    } else {
        digits_value(s.drop_last()) * 10 + digit_value(s.last())
    }
}

/// Every character of `s` is a digit.
pub open spec fn all_digits(s: Seq<char>) -> bool {
    forall|i: int| 0 <= i < s.len() ==> is_digit(#[trigger] s[i])
}

/// The integer that `s` stands for: an optional `+` or `-`, then one digit or
/// more, and nothing else.
pub open spec fn parse_int(s: Seq<char>) -> Option<int> {
    if s.len() == 0 {
        None
    } else {
        let signed = s[0] == '-' || s[0] == '+';
        let body = if signed {
            s.skip(1)
        } else {
            s
        };
        if body.len() == 0 || !all_digits(body) {
            None
        } else if s[0] == '-' {
            Some(-(digits_value(body) as int))
        } else {
            Some(digits_value(body) as int)
        }
    }
}

/// `s` with spaces in front of it until it is `width` characters long.
pub open spec fn pad_left(s: Seq<char>, width: nat) -> Seq<char> {
    if s.len() >= width {
        s
    } else {
        Seq::new((width - s.len()) as nat, |i: int| ' ') + s
    }
}

/// The character that stands for the digit `d`.
fn digit_to_char(d: usize) -> (c: char)
    requires
        d < 10,
    ensures
        c == digit_char(d as nat),
{
    if d == 0 {
        '0'
    } else if d == 1 {
        '1'
    } else if d == 2 {
        '2'
    } else if d == 3 {
        '3'
    } else if d == 4 {
        '4'
    } else if d == 5 {
        '5'
    } else if d == 6 {
        '6'
    } else if d == 7 {
        '7'
    } else if d == 8 {
        '8'
    } else {
        '9'
    }
}

/// Appends `n` in decimal to `out`.
pub fn push_decimal(out: &mut String, n: usize)
    ensures
        final(out)@ == old(out)@ + decimal(n as nat),
    decreases n,
{
    if n >= 10 {
        push_decimal(out, n / 10);
    }
    out.push(digit_to_char(n % 10));
    proof {
        if n < 10 {
            assert(old(out)@.push(digit_char(n as nat)) =~= old(out)@ + decimal(n as nat));
        } else {
            assert((old(out)@ + decimal((n / 10) as nat)).push(digit_char((n % 10) as nat)) =~= old(
                out,
            )@ + decimal(n as nat));
        }
    }
}

/// Appends `n` in decimal to `out`, with spaces in front of it where it has
/// fewer than `width` digits.
pub fn push_padded(out: &mut String, n: usize, width: usize)
    ensures
        final(out)@ == old(out)@ + pad_left(decimal(n as nat), width as nat),
{
    let mut digits = String::new();
    push_decimal(&mut digits, n);
    assert(digits@ =~= decimal(n as nat));
    let len = digits.as_str().unicode_len();
    let mut i: usize = len;
    assert(out@ =~= old(out)@ + Seq::new(0, |k: int| ' '));
    while i < width
        invariant
            len <= i,
            i == len || i <= width,
            out@ == old(out)@ + Seq::new((i - len) as nat, |k: int| ' '),
        decreases width - i,
    {
        let ghost before = Seq::new((i - len) as nat, |k: int| ' ');
        out.push(' ');
        assert(before.push(' ') =~= Seq::new((i + 1 - len) as nat, |k: int| ' '));
        assert((old(out)@ + before).push(' ') =~= old(out)@ + before.push(' '));
        i += 1;
    }
    let ghost blanks = Seq::new((i - len) as nat, |k: int| ' ');
    out.append(digits.as_str());
    proof {
        if width <= len {
            assert(out@ =~= old(out)@ + digits@);
        } else {
            assert(out@ =~= old(out)@ + (blanks + digits@));
        }
    }
}

/// The 32-bit integer that `s` stands for, if it stands for one.
pub open spec fn parse_i32_spec(s: Seq<char>) -> Option<i32> {
    match parse_int(s) {
        Some(v) => if i32::MIN <= v <= i32::MAX {
            Some(v as i32)
        } else {
            None
        },
        None => None,
    }
}

/// Reads a signed decimal integer of 32 bits: an optional sign, then digits
/// only. Anything else, and a number out of range, gives nothing.
pub fn parse_i32(s: &str) -> (r: Option<i32>)
    ensures
        r == parse_i32_spec(s@),
{
    let v = chars_of(s);
    let n = v.len();
    if n == 0 {
        return None;
    }
    let negative = v[0] == '-';
    let start: usize = if v[0] == '-' || v[0] == '+' {
        1
    } else {
        0
    };
    let ghost body = if start == 1 {
        s@.skip(1)
    } else {
        s@
    };
    if start == n {
        return None;
    }
    let limit: i64 = 2147483648;
    let mut acc: i64 = 0;
    let mut overflow = false;
    let mut i: usize = start;
    assert(body.take(0).len() == 0);
    while i < n
        invariant
            v@ == s@,
            n == v.len(),
            start <= i <= n,
            start <= 1,
            n > 0,
            start == 1 <==> (s@[0] == '-' || s@[0] == '+'),
            limit == 2147483648,
            body == if start == 1 {
                s@.skip(1)
            } else {
                s@
            },
            all_digits(body.take(i - start)),
            0 <= acc <= limit,
            !overflow ==> acc == digits_value(body.take(i - start)),
            overflow ==> digits_value(body.take(i - start)) > limit,
        decreases n - i,
    {
        let ghost before = body.take(i - start);
        let ghost now = body.take(i + 1 - start);
        assert(now.drop_last() == before);
        assert(now.last() == s@[i as int]);
        let code: u32 = v[i] as u32;
        if code < 0x30 || code > 0x39 {
            assert(body[i - start] == s@[i as int]);
            assert(!is_digit(body[i - start]));
            assert(!all_digits(body));
            return None;
        }
        assert forall|k: int| 0 <= k < now.len() implies is_digit(#[trigger] now[k]) by {
            if k < now.len() - 1 {
                assert(now[k] == before[k]);
            }
        }
        if !overflow {
            acc = acc * 10 + (code - 0x30) as i64;
            if acc > limit {
                overflow = true;
                acc = limit;
            }
        }
        i += 1;
    }
    assert(body.take(n - start) == body);
    if overflow {
        None
    } else if negative {
        Some((-acc) as i32)
    } else if acc < limit {
        Some(acc as i32)
    } else {
        None
    }
}

/// A number written in decimal reads back as itself: its text is made of
/// digits only, at least one, and stands for the number.
pub proof fn lemma_decimal_reads_back(n: nat)
    ensures
        decimal(n).len() > 0,
        all_digits(decimal(n)),
        digits_value(decimal(n)) == n,
        parse_int(decimal(n)) == Some(n as int),
    decreases n,
{
    let text = decimal(n);
    let d = n % 10;
    assert(is_digit(digit_char(d)) && digit_value(digit_char(d)) == d);
    if n < 10 {
        assert(text.drop_last() =~= Seq::<char>::empty());
        assert(digits_value(text.drop_last()) == 0);
        assert(text.last() == digit_char(n));
    } else {
        let rest = decimal(n / 10);
        lemma_decimal_reads_back(n / 10);
        assert(text.drop_last() =~= rest);
        assert(text.last() == digit_char(d));
        assert forall|i: int| 0 <= i < text.len() implies is_digit(#[trigger] text[i]) by {
            if i < rest.len() {
                assert(text[i] == rest[i]);
            }
        }
    }
    assert(text[0] != '-' && text[0] != '+') by {
        assert(is_digit(text[0]));
    }
}

} // verus!
