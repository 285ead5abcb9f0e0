//! Text building blocks shared by the renderer, the value printer and the
//! error messages: appending a single character to a `String`, and rendering
//! a signed 32-bit integer in decimal.
use vstd::prelude::*;

verus! {

/// Relies on `String::push`: appends the one character to the end of the
/// string.
#[verifier::external_body]
pub fn push_char(s: &mut String, c: char)
    ensures
        final(s)@ == old(s)@.push(c),
{
    s.push(c)
}

/// The decimal digit character for a value below ten.
pub open spec fn digit_char(d: int) -> char {
    if d == 0 {
        '0'
    } else if d == 1 {
        '1'
    } else if d == 2 {
        '2'
    } else if d == 3 {
        '3'
    } else if d == 4 {
        '4'
    } else if d == 5 {
        '5'
    } else if d == 6 {
        '6'
    } else if d == 7 {
        '7'
    } else if d == 8 {
        '8'
    } else {
        '9'
    }
}

/// The decimal digit characters carry the values they stand for.
pub proof fn lemma_digit_char_value(d: int)
    requires
        0 <= d <= 9,
    ensures
        digit_char(d) as int == 48 + d,
{
}

/// The decimal rendering of a non-negative integer, most significant digit
/// first, with no leading zeros (a lone zero for zero itself).
pub open spec fn dec_digits(n: nat) -> Seq<char>
    decreases n,
{
    if n < 10 {
        seq![digit_char(n as int)]
    } else {
        dec_digits(n / 10).push(digit_char((n % 10) as int))
    }
}

/// The decimal rendering of a signed integer: a leading minus sign for a
/// negative value, then the digits of its magnitude.
pub open spec fn int_code_spec(i: int) -> Seq<char> {
    if i < 0 {
        seq!['-'] + dec_digits((-i) as nat)
    } else {
        dec_digits(i as nat)
    }
}

fn digit_char_exec(d: u32) -> (c: char)
    requires
        d < 10,
    ensures
        c == digit_char(d as int),
{
    if d == 0 {
        '0'
    } else if d == 1 {
        '1'
    } else if d == 2 {
        '2'
    } else if d == 3 {
        '3'
    } else if d == 4 {
        '4'
    } else if d == 5 {
        '5'
    } else if d == 6 {
        '6'
    } else if d == 7 {
        '7'
    } else if d == 8 {
        '8'
    } else {
        '9'
    }
}

/// Appends the decimal rendering of `n` to `s`.
pub fn push_u32_dec(s: &mut String, n: u32)
    ensures
        final(s)@ == old(s)@ + dec_digits(n as nat),
    decreases n,
{
    if n < 10 {
        push_char(s, digit_char_exec(n));
        proof {
            assert(final(s)@ =~= old(s)@ + dec_digits(n as nat));
        }
    } else {
        push_u32_dec(s, n / 10);
        push_char(s, digit_char_exec(n % 10));
        proof {
            assert(final(s)@ =~= old(s)@ + dec_digits(n as nat));
        }
    }
}

/// Appends the decimal rendering of `i`, sign included, to `s`.
pub fn push_i32_dec(s: &mut String, i: i32)
    ensures
        final(s)@ == old(s)@ + int_code_spec(i as int),
{
    if i >= 0 {
        push_u32_dec(s, i as u32);
    } else {
        push_char(s, '-');
        let m: u32 = (-(i as i64)) as u32;
        push_u32_dec(s, m);
        proof {
            assert(final(s)@ =~= old(s)@ + int_code_spec(i as int));
        }
    }
}

/// The decimal rendering of `i` as a fresh `String`.
pub fn i32_to_code(i: i32) -> (r: String)
    ensures
        r@ == int_code_spec(i as int),
{
    let mut s = String::new();
    push_i32_dec(&mut s, i);
    proof {
        assert(s@ =~= int_code_spec(i as int));
    }
    s
}

} // verus!
