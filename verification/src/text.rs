//! Text building blocks shared by the printers and the error messages:
//! appending to strings and the decimal notation of integers.

use vstd::prelude::*;
use vstd::utf8::{
    decode_utf8, encode_utf8, encode_utf8_decode_utf8, encode_utf8_valid_utf8, is_char_boundary,
    is_char_boundary_iff_not_is_continuation_byte, is_char_boundary_start_end_of_seq,
};

verus! {

/// `String::push` of the standard library: appends one character to the end
/// of the string. The contract is taken on trust from its documentation.
pub assume_specification[ std::string::String::push ](s: &mut std::string::String, c: char)
    ensures
        final(s)@ == old(s)@.push(c),
;

/// The texts of a list of strings.
pub open spec fn texts(strings: Seq<String>) -> Seq<Seq<char>> {
    Seq::new(strings.len(), |i: int| strings[i]@)
}

/// The character that writes the decimal digit `d`.
pub open spec fn digit_char(d: nat) -> char
    recommends
        d < 10,
{
    if d == 0 {
        '0'
    } else if d == 1 {
        '1'
    } else if d == 2 {
        '2'
    } else if d == 3 {
        '3'
    } else if d == 4 {
        '4'
    } else if d == 5 {
        '5'
    } else if d == 6 {
        '6'
    } else if d == 7 {
        '7'
    } else if d == 8 {
        '8'
    } else {
        '9'
    }
}

/// Decimal notation of a natural number, without leading zeros.
pub open spec fn decimal(n: nat) -> Seq<char>
    decreases n,
{
    if n < 10 {
        seq![digit_char(n)]
    } else {
        decimal(n / 10).push(digit_char(n % 10))
    }
}

/// Decimal notation of an integer, with a leading `-` for negative values.
pub open spec fn signed_decimal(i: int) -> Seq<char> {
    if i < 0 {
        seq!['-'] + decimal((-i) as nat)
    } else {
        decimal(i as nat)
    }
}

/// Decimal notation padded with zeros on the left to at least four digits.
pub open spec fn padded_decimal(n: nat) -> Seq<char> {
    if n < 10 {
        seq!['0', '0', '0'] + decimal(n)
    } else if n < 100 {
        seq!['0', '0'] + decimal(n)
    } else if n < 1000 {
        seq!['0'] + decimal(n)
    } else {
        decimal(n)
    }
}

pub fn digit_to_char(d: u8) -> (c: char)
    requires
        d < 10,
    ensures
        c == digit_char(d as nat),
{
    if d == 0 {
        '0'
    } else if d == 1 {
        '1'
    } else if d == 2 {
        '2'
    } else if d == 3 {
        '3'
    } else if d == 4 {
        '4'
    } else if d == 5 {
        '5'
    } else if d == 6 {
        '6'
    } else if d == 7 {
        '7'
    } else if d == 8 {
        '8'
    } else {
        '9'
    }
}

/// Appends the text of `t` to `s`.
pub fn push_str(s: &mut String, t: &str)
    ensures
        final(s)@ == old(s)@ + t@,
{
    s.append(t);
}

/// Appends the decimal notation of `n` to `s`.
pub fn push_decimal(s: &mut String, n: u64)
    ensures
        final(s)@ == old(s)@ + decimal(n as nat),
    decreases n,
{
    if n < 10 {
        s.push(digit_to_char(n as u8));
        assert(final(s)@ =~= old(s)@ + decimal(n as nat));
    } else {
        push_decimal(s, n / 10);
        s.push(digit_to_char((n % 10) as u8));
        assert(final(s)@ =~= old(s)@ + decimal(n as nat));
    }
}

/// Appends the decimal notation of `i` to `s`.
pub fn push_signed_decimal(s: &mut String, i: i64)
    ensures
        final(s)@ == old(s)@ + signed_decimal(i as int),
{
    if i < 0 {
        s.push('-');
        let magnitude: u64 = if i == i64::MIN {
            9223372036854775808u64
        } else {
            (-i) as u64
        };
        push_decimal(s, magnitude);
        assert(final(s)@ =~= old(s)@ + signed_decimal(i as int));
    } else {
        push_decimal(s, i as u64);
    }
}

/// Appends `n` in decimal, padded with zeros to at least four digits.
pub fn push_padded_decimal(s: &mut String, n: u64)
    ensures
        final(s)@ == old(s)@ + padded_decimal(n as nat),
{
    if n < 10 {
        s.append("000");
    } else if n < 100 {
        s.append("00");
    } else if n < 1000 {
        s.append("0");
    }
    proof {
        reveal_strlit("000");
        reveal_strlit("00");
        reveal_strlit("0");
    }
    push_decimal(s, n);
    assert(final(s)@ =~= old(s)@ + padded_decimal(n as nat));
}

/// The decimal notation of `n` as a fresh string.
pub fn decimal_string(n: u64) -> (s: String)
    ensures
        s@ == decimal(n as nat),
{
    let mut s = String::new();
    push_decimal(&mut s, n);
    assert(s@ =~= decimal(n as nat));
    s
}

/// The decimal notation of `i` as a fresh string.
pub fn signed_decimal_string(i: i64) -> (s: String)
    ensures
        s@ == signed_decimal(i as int),
{
    let mut s = String::new();
    push_signed_decimal(&mut s, i);
    assert(s@ =~= signed_decimal(i as int));
    s
}

/// Whether two texts hold the same characters.
pub fn text_eq(a: &str, b: &str) -> (r: bool)
    ensures
        r == (a@ == b@),
{
    let x = String::from_str(a);
    let y = String::from_str(b);
    x == y
}

/// The characters of `s`, one element per Unicode scalar value.
pub fn chars_of(s: &str) -> (r: Vec<char>)
    ensures
        r@ == s@,
{
    let mut out: Vec<char> = Vec::new();
    for c in it: s.chars()
        invariant
            out@ == it.seq().take(it.index() as int),
            it.seq() == s@,
    {
        out.push(c);
    }
    out
}

/// A string made of the characters `v[from..to]`.
pub fn string_of(v: &Vec<char>, from: usize, to: usize) -> (s: String)
    requires
        from <= to <= v.len(),
    ensures
        s@ == v@.subrange(from as int, to as int),
{
    let mut s = String::new();
    let mut i: usize = from;
    while i < to
        invariant
            from <= i <= to <= v.len(),
            s@ == v@.subrange(from as int, i as int),
        decreases to - i,
    {
        s.push(v[i]);
        i += 1;
        assert(s@ =~= v@.subrange(from as int, i as int));
    }
    s
}

/// The part of a text that lies between two byte offsets of its UTF-8
/// form, where both offsets fall between characters.
pub open spec fn byte_range(s: Seq<char>, from: int, to: int) -> Option<Seq<char>> {
    let bytes = encode_utf8(s);
    if 0 <= from <= to <= bytes.len() && is_char_boundary(bytes, from) && is_char_boundary(
        bytes,
        to,
    ) {
        Some(decode_utf8(bytes.subrange(from, to)))
    } else {
        None
    }
}

/// The number of bytes of a text's UTF-8 form.
pub fn byte_len(s: &str) -> (n: usize)
    ensures
        n == encode_utf8(s@).len(),
{
    s.as_bytes().len()
}

/// The part of `s` between the byte offsets `from` and `to`; `None` where
/// the offsets are out of range, out of order, or inside a character.
pub fn byte_slice(s: &str, from: usize, to: usize) -> (r: Option<String>)
    ensures
        match r {
            Some(part) => byte_range(s@, from as int, to as int) == Some(part@),
            None => byte_range(s@, from as int, to as int) is None,
        },
{
    let n = byte_len(s);
    if from > to || to > n {
        return None;
    }
    if !s.is_char_boundary(from) || !s.is_char_boundary(to) {
        return None;
    }
    let ghost bytes = encode_utf8(s@);
    let (_, tail) = s.split_at(from);
    proof {
        encode_utf8_valid_utf8(s@);
        encode_utf8_valid_utf8(tail@);
        let tail_bytes = encode_utf8(tail@);
        assert(tail_bytes =~= bytes.subrange(from as int, bytes.len() as int));
        if to == n {
            is_char_boundary_start_end_of_seq(tail_bytes);
        } else if to == from {
        } else {
            is_char_boundary_iff_not_is_continuation_byte(bytes, to as int);
            is_char_boundary_iff_not_is_continuation_byte(tail_bytes, to - from);
        }
    }
    let (part, _) = tail.split_at(to - from);
    proof {
        encode_utf8_decode_utf8(part@);
        assert(encode_utf8(part@) =~= bytes.subrange(from as int, to as int));
    }
    Some(String::from_str(part))
}

/// Division of two 64-bit integers that rounds toward zero and wraps
/// around where the quotient does not fit.
pub open spec fn wrapping_quotient(left: i64, right: i64) -> i64
    recommends
        right != 0,
{
    if left == i64::MIN && right == -1 {
        i64::MIN
    } else if left >= 0 {
        if right > 0 {
            (left as int / right as int) as i64
        } else {
            (-(left as int / (-right) as int)) as i64
        }
    } else {
        if right > 0 {
            (-((-left) as int / right as int)) as i64
        } else {
            ((-left) as int / (-right) as int) as i64
        }
    }
}

/// The absolute value of a 64-bit integer.
fn magnitude(i: i64) -> (m: u64)
    ensures
        m == if i < 0 {
            -(i as int)
        } else {
            i as int
        },
{
    if i == i64::MIN {
        9223372036854775808u64
    } else if i < 0 {
        (-i) as u64
    } else {
        i as u64
    }
}

/// Divides `left` by `right` as the machine does.
pub fn divide(left: i64, right: i64) -> (q: i64)
    requires
        right != 0,
    ensures
        q == wrapping_quotient(left, right),
{
    if left == i64::MIN && right == -1 {
        return i64::MIN;
    }
    let a = magnitude(left);
    let b = magnitude(right);
    let q: u64 = a / b;
    assert(q <= a) by (nonlinear_arith)
        requires
            q == a / b,
            b >= 1,
    ;
    if (left < 0) != (right < 0) {
        if q == 9223372036854775808u64 {
            i64::MIN
        } else {
            -(q as i64)
        }
    } else {
        assert(q < 9223372036854775808u64) by {
            if left < 0 {
                assert(right < -1 || left > i64::MIN);
                if right < -1 {
                    assert(a / b < 9223372036854775808u64) by (nonlinear_arith)
                        requires
                            a <= 9223372036854775808u64,
                            b >= 2,
                    ;
                }
            }
        }
        q as i64
    }
}

} // verus!
