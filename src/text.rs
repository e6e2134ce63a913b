//! Decimal rendering of integers and of millisecond times as seconds.
use vstd::prelude::*;

verus! {

/// The ASCII digit for `d`, which is below ten.
pub open spec fn digit_char(d: nat) -> char {
    seq!['0', '1', '2', '3', '4', '5', '6', '7', '8', '9'][d as int]
}

/// Decimal digits of `n`, without leading zeros.
pub open spec fn dec(n: nat) -> Seq<char>
    decreases n,
{
    if n < 10 {
        seq![digit_char(n)]
    } else {
        dec(n / 10).push(digit_char(n % 10))
    }
}

/// `ms` milliseconds written as seconds with three decimals (`9900` is
/// `9.900`).
pub open spec fn seconds_text(ms: nat) -> Seq<char> {
    let r = ms % 1000;
    dec(ms / 1000) + seq!['.', digit_char(r / 100), digit_char((r / 10) % 10), digit_char(r % 10)]
}

fn digit_str(d: u64) -> (r: &'static str)
    requires
        d < 10,
    ensures
        r@ == seq![digit_char(d as nat)],
{
    proof {
        reveal_strlit("0");
        reveal_strlit("1");
        reveal_strlit("2");
        reveal_strlit("3");
        reveal_strlit("4");
        reveal_strlit("5");
        reveal_strlit("6");
        reveal_strlit("7");
        reveal_strlit("8");
        reveal_strlit("9");
    }
    let r = if d == 0 {
        "0"
    } else if d == 1 {
        "1"
    } else if d == 2 {
        "2"
    } else if d == 3 {
        "3"
    } else if d == 4 {
        "4"
    } else if d == 5 {
        "5"
    } else if d == 6 {
        "6"
    } else if d == 7 {
        "7"
    } else if d == 8 {
        "8"
    } else {
        "9"
    };
    assert(r@ =~= seq![digit_char(d as nat)]);
    r
}

/// Appends the decimal digits of `n` to `s`.
pub fn push_decimal(s: String, n: u64) -> (r: String)
    ensures
        r@ == s@ + dec(n as nat),
    decreases n,
{
    if n < 10 {
        s.concat(digit_str(n))
    } else {
        let t = push_decimal(s, n / 10);
        let r = t.concat(digit_str(n % 10));
        assert(r@ =~= s@ + dec(n as nat));
        r
    }
}

/// Appends `ms` milliseconds written as seconds with three decimals.
pub fn push_seconds(s: String, ms: u64) -> (r: String)
    ensures
        r@ == s@ + seconds_text(ms as nat),
{
    let rem = ms % 1000;
    let t = push_decimal(s, ms / 1000);
    proof {
        reveal_strlit(".");
    }
    let t = t.concat(".");
    let t = t.concat(digit_str(rem / 100));
    let t = t.concat(digit_str((rem / 10) % 10));
    let r = t.concat(digit_str(rem % 10));
    assert(r@ =~= s@ + seconds_text(ms as nat));
    r
}

/// Decimal digits of `n` as a new string.
pub fn decimal_string(n: u64) -> (r: String)
    ensures
        r@ == dec(n as nat),
{
    let r = push_decimal(String::new(), n);
    assert(r@ =~= dec(n as nat));
    r
}

} // verus!
