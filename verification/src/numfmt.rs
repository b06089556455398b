//! Decimal rendering of the numeric tag fields: base 10, no leading zeros,
//! a leading minus sign for negative values.

use vstd::prelude::*;

verus! {

/// The character for one decimal digit value.
pub open spec fn digit_char(d: int) -> char {
    if d == 0 {
        '0'
    } else if d == 1 {
        '1'
    } else if d == 2 {
        '2'
    } else if d == 3 {
        '3'
    } else if d == 4 {
        '4'
    } else if d == 5 {
        '5'
    } else if d == 6 {
        '6'
    } else if d == 7 {
        '7'
    } else if d == 8 {
        '8'
    } else {
        '9'
    }
}

/// The decimal digits of a non-negative number, most significant first,
/// without leading zeros (a single `'0'` for zero).
pub open spec fn dec_digits(n: nat) -> Seq<char>
    decreases n,
{
    if n < 10 {
        seq![digit_char(n as int)]
    } else {
        dec_digits(n / 10).push(digit_char((n % 10) as int))
    }
}

/// The decimal rendering of an integer: its digits, with a leading `'-'`
/// when it is negative.
pub open spec fn dec_str_of(n: int) -> Seq<char> {
    if n < 0 {
        seq!['-'] + dec_digits((-n) as nat)
    } else {
        dec_digits(n as nat)
    }
}

/// Appends the decimal digits of `n` to `s`.
fn append_dec_u64(s: &mut String, n: u64)
    ensures
        final(s)@ == old(s)@ + dec_digits(n as nat),
    decreases n,
{
    if n >= 10 {
        proof {
            assert(n / 10 < n) by (nonlinear_arith)
                requires
                    n >= 10,
            ;
        }
        append_dec_u64(s, n / 10);
    }
    let d: u64 = n % 10;
    let ds: &str = match d {
        0 => "0",
        1 => "1",
        2 => "2",
        3 => "3",
        4 => "4",
        5 => "5",
        6 => "6",
        7 => "7",
        8 => "8",
        _ => "9",
    };
    proof {
        reveal_strlit("0");
        reveal_strlit("1");
        reveal_strlit("2");
        reveal_strlit("3");
        reveal_strlit("4");
        reveal_strlit("5");
        reveal_strlit("6");
        reveal_strlit("7");
        reveal_strlit("8");
        reveal_strlit("9");
        assert(ds@ =~= seq![digit_char(d as int)]);
    }
    s.append(ds);
    proof {
        if n >= 10 {
            assert(old(s)@ + dec_digits((n / 10) as nat) + ds@ =~= old(s)@ + dec_digits(n as nat));
        } else {
            assert(old(s)@ + ds@ =~= old(s)@ + dec_digits(n as nat));
        }
    }
}

/// The decimal string of a 64-bit signed integer.
pub fn dec_string_of_i64(n: i64) -> (r: String)
    ensures
        r@ == dec_str_of(n as int),
{
    let mut s = String::new();
    if n < 0 {
        s.append("-");
        let m: u64 = (-(n as i128)) as u64;
        proof {
            assert(m as int == -(n as int));
        }
        append_dec_u64(&mut s, m);
        proof {
            reveal_strlit("-");
            assert(Seq::<char>::empty() + "-"@ + dec_digits(m as nat) =~= seq!['-'] + dec_digits(
                (-(n as int)) as nat,
            ));
        }
    } else {
        let m: u64 = n as u64;
        append_dec_u64(&mut s, m);
        proof {
            assert(Seq::<char>::empty() + dec_digits(m as nat) =~= dec_digits(n as nat));
        }
    }
    s
}

/// The decimal string of a 64-bit unsigned integer.
pub fn dec_string_of_u64(n: u64) -> (r: String)
    ensures
        r@ == dec_str_of(n as int),
{
    let mut s = String::new();
    append_dec_u64(&mut s, n);
    proof {
        assert(Seq::<char>::empty() + dec_digits(n as nat) =~= dec_digits(n as nat));
    }
    s
}

} // verus!
