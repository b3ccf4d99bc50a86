//! Decimal rendering of the engine's numbers: plain digit strings and the
//! zero-padded hours-and-minutes form that totals are shown in.

use vstd::prelude::*;

verus! {

/// The digit character for one decimal digit.
pub open spec fn spec_digit_char(d: int) -> char {
    if d == 0 {
        '0'
    } else if d == 1 {
        '1'
    } else if d == 2 {
        '2'
    } else if d == 3 {
        '3'
    } else if d == 4 {
        '4'
    } else if d == 5 {
        '5'
    } else if d == 6 {
        '6'
    } else if d == 7 {
        '7'
    } else if d == 8 {
        '8'
    } else {
        '9'
    }
}

/// The decimal digits of a number, most significant first.
pub open spec fn spec_decimal(n: nat) -> Seq<char>
    decreases n,
{
    if n < 10 {
        seq![spec_digit_char(n as int)]
    } else {
        spec_decimal(n / 10) + seq![spec_digit_char((n % 10) as int)]
    }
}

/// A number padded with a leading zero to at least two digits.
pub open spec fn spec_two_digits(n: nat) -> Seq<char> {
    if n < 10 {
        seq!['0'] + spec_decimal(n)
    } else {
        spec_decimal(n)
    }
}

/// A signed number of minutes as hours and minutes, two digits each,
/// a minus sign in front when negative.
pub open spec fn spec_hhmm(t: int) -> Seq<char> {
    if t < 0 {
        seq!['-'] + spec_hhmm_abs((-t) as nat)
    } else {
        spec_hhmm_abs(t as nat)
    }
}

pub open spec fn spec_hhmm_abs(t: nat) -> Seq<char> {
    spec_two_digits(t / 60) + seq![':'] + spec_two_digits(t % 60)
}

fn digit_str(d: u64) -> (r: &'static str)
    requires
        d < 10,
    ensures
        r@ == seq![spec_digit_char(d as int)],
{
    proof {
        reveal_strlit("0");
        reveal_strlit("1");
        reveal_strlit("2");
        reveal_strlit("3");
        reveal_strlit("4");
        reveal_strlit("5");
        reveal_strlit("6");
        reveal_strlit("7");
        reveal_strlit("8");
        reveal_strlit("9");
    }
    let r = match d {
        0 => "0",
        1 => "1",
        2 => "2",
        3 => "3",
        4 => "4",
        5 => "5",
        6 => "6",
        7 => "7",
        8 => "8",
        _ => "9",
    };
    proof {
        assert(r@ =~= seq![spec_digit_char(d as int)]);
    }
    r
}

/// A number written out in decimal.
pub fn u64_to_string(n: u64) -> (r: String)
    ensures
        r@ == spec_decimal(n as nat),
    decreases n,
{
    if n < 10 {
        digit_str(n).to_owned()
    } else {
        proof {
            vstd::arithmetic::div_mod::lemma_div_pos_is_pos(n as int, 10);
            vstd::arithmetic::div_mod::lemma_div_is_strictly_smaller(n as int, 10);
            vstd::arithmetic::div_mod::lemma_mod_division_less_than_divisor(n as int, 10);
        }
        let mut s = u64_to_string(n / 10);
        s.append(digit_str(n % 10));
        s
    }
}

/// A number written out in decimal, padded to at least two digits.
pub fn u64_to_two_digits(n: u64) -> (r: String)
    ensures
        r@ == spec_two_digits(n as nat),
{
    if n < 10 {
        proof {
            reveal_strlit("0");
        }
        let mut s = "0".to_owned();
        s.append(digit_str(n).to_owned().as_str());
        proof {
            assert(s@ =~= spec_two_digits(n as nat));
        }
        s
    } else {
        u64_to_string(n)
    }
}

/// Minutes rendered as a signed hours-and-minutes pair.
pub fn minutes_to_hhmm(t: i64) -> (r: String)
    ensures
        r@ == spec_hhmm(t as int),
{
    proof {
        reveal_strlit("-");
        reveal_strlit(":");
    }
    let abs: u64 = if t < 0 {
        if t == i64::MIN {
            9223372036854775808u64
        } else {
            (-t) as u64
        }
    } else {
        t as u64
    };
    proof {
        vstd::arithmetic::div_mod::lemma_div_pos_is_pos(abs as int, 60);
        vstd::arithmetic::div_mod::lemma_mod_division_less_than_divisor(abs as int, 60);
    }
    let mut s = if t < 0 {
        "-".to_owned()
    } else {
        "".to_owned()
    };
    proof {
        reveal_strlit("");
    }
    s.append(u64_to_two_digits(abs / 60).as_str());
    s.append(":");
    s.append(u64_to_two_digits(abs % 60).as_str());
    proof {
        assert(s@ =~= spec_hhmm(t as int));
    }
    s
}

} // verus!
