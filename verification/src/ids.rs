use vstd::prelude::*;
use vstd::string::StringExecFns;

verus! {

/// The decimal digit character for `d`, which must be below ten.
pub open spec fn digit_char(d: nat) -> char {
    if d == 0 {
        '0'
    } else if d == 1 {
        '1'
    } else if d == 2 {
        '2'
    } else if d == 3 {
        '3'
    } else if d == 4 {
        '4'
    } else if d == 5 {
        '5'
    } else if d == 6 {
        '6'
    } else if d == 7 {
        '7'
    } else if d == 8 {
        '8'
    } else {
        '9'
    }
}

/// The usual decimal rendering of `n`, most significant digit first and
/// without leading zeros (a single `'0'` for zero).
pub open spec fn dec_digits(n: nat) -> Seq<char>
    decreases n,
{
    if n < 10 {
        seq![digit_char(n)]
    } else {
        dec_digits(n / 10).push(digit_char(n % 10))
    }
}

/// The identifier recorded for a version snapshot: the file name, an
/// underscore, and the decimal rendering of the clock reading.
pub open spec fn version_id_view(name: Seq<char>, now: u64) -> Seq<char> {
    name + seq!['_'] + dec_digits(now as nat)
}

/// A one-character string slice for the decimal digit `d`.
fn digit_str(d: u64) -> (r: &'static str)
    requires
        d < 10,
    ensures
        r@ == seq![digit_char(d as nat)],
{
    proof {
        reveal_strlit("0");
        reveal_strlit("1");
        reveal_strlit("2");
        reveal_strlit("3");
        reveal_strlit("4");
        reveal_strlit("5");
        reveal_strlit("6");
        reveal_strlit("7");
        reveal_strlit("8");
        reveal_strlit("9");
    }
    let r: &'static str = if d == 0 {
        "0"
    } else if d == 1 {
        "1"
    } else if d == 2 {
        "2"
    } else if d == 3 {
        "3"
    } else if d == 4 {
        "4"
    } else if d == 5 {
        "5"
    } else if d == 6 {
        "6"
    } else if d == 7 {
        "7"
    } else if d == 8 {
        "8"
    } else {
        "9"
    };
    proof {
        assert(r@ =~= seq![digit_char(d as nat)]);
    }
    r
}

/// Renders `n` in decimal.
pub fn u64_to_dec(n: u64) -> (r: String)
    ensures
        r@ == dec_digits(n as nat),
    decreases n,
{
    let d: &'static str = digit_str(n % 10);
    if n < 10 {
        let r = d.to_owned();
        proof {
            assert(r@ =~= dec_digits(n as nat));
        }
        r
    } else {
        let mut r = u64_to_dec(n / 10);
        r.append(d);
        proof {
            assert(r@ =~= dec_digits(n as nat));
        }
        r
    }
}

/// Builds the version identifier for `name` at clock reading `now`.
pub fn version_id(name: &String, now: u64) -> (r: String)
    ensures
        r@ == version_id_view(name@, now),
{
    proof {
        reveal_strlit("_");
    }
    let mut r: String = name.clone();
    r.append("_");
    let digits = u64_to_dec(now);
    r.append(digits.as_str());
    proof {
        assert(r@ =~= version_id_view(name@, now));
    }
    r
}

} // verus!
