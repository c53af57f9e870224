//! Text of numbers and flags, for messages and file names.

use vstd::prelude::*;

use crate::linalg::LinAlg;
use crate::scalar::Scalar;

verus! {

/// The decimal digit of a number below ten.
pub open spec fn digit(d: nat) -> char {
    if d == 0 {
        '0'
    } else if d == 1 {
        '1'
    } else if d == 2 {
        '2'
    } else if d == 3 {
        '3'
    } else if d == 4 {
        '4'
    } else if d == 5 {
        '5'
    } else if d == 6 {
        '6'
    } else if d == 7 {
        '7'
    } else if d == 8 {
        '8'
    } else {
        '9'
    }
}

/// A decimal digit.
pub open spec fn is_digit(c: char) -> bool {
    exists|d: nat| d < 10 && c == #[trigger] digit(d)
}

/// The decimal digits of a number, most significant first, without leading zeros.
pub open spec fn decimal_digits(n: nat) -> Seq<char>
    decreases n,
{
    if n < 10 {
        seq![digit(n)]
    } else {
        decimal_digits(n / 10).push(digit(n % 10))
    }
}

fn digit_str(d: u64) -> (r: &'static str)
    requires
        d < 10,
    ensures
        r@ == seq![digit(d as nat)],
{
    proof {
        reveal_strlit("0");
        reveal_strlit("1");
        reveal_strlit("2");
        reveal_strlit("3");
        reveal_strlit("4");
        reveal_strlit("5");
        reveal_strlit("6");
        reveal_strlit("7");
        reveal_strlit("8");
        reveal_strlit("9");
    }
    let r = if d == 0 {
        "0"
    } else if d == 1 {
        "1"
    } else if d == 2 {
        "2"
    } else if d == 3 {
        "3"
    } else if d == 4 {
        "4"
    } else if d == 5 {
        "5"
    } else if d == 6 {
        "6"
    } else if d == 7 {
        "7"
    } else if d == 8 {
        "8"
    } else {
        "9"
    };
    assert(r@ =~= seq![digit(d as nat)]);
    r
}

/// The decimal text of a whole number.
pub fn decimal(n: u64) -> (r: String)
    ensures
        r@ == decimal_digits(n as nat),
    decreases n,
{
    if n < 10 {
        String::from_str(digit_str(n))
    } else {
        let mut s = decimal(n / 10);
        s.append(digit_str(n % 10));
        assert(s@ =~= decimal_digits((n / 10) as nat).push(digit((n % 10) as nat)));
        s
    }
}

/// The text of a flag.
pub open spec fn flag_text(b: bool) -> Seq<char> {
    if b {
        "true"@
    } else {
        "false"@
    }
}

/// The text of a flag.
pub fn flag(b: bool) -> (r: &'static str)
    ensures
        r@ == flag_text(b),
{
    if b {
        "true"
    } else {
        "false"
    }
}

/// A message that ends in a number.
pub fn with_scalar<L: LinAlg>(message: &str, value: Scalar) -> (r: String)
    ensures
        r@ == message@ + L::text(value),
{
    let mut s = String::from_str(message);
    let t = L::scalar_text(value);
    s.append(t.as_str());
    s
}

/// A message that ends in a whole number.
pub fn with_count(message: &str, value: u64) -> (r: String)
    ensures
        r@ == message@ + decimal_digits(value as nat),
{
    let mut s = String::from_str(message);
    let t = decimal(value);
    s.append(t.as_str());
    s
}

/// Different numbers have different decimal texts.
pub proof fn decimal_digits_injective(a: nat, b: nat)
    ensures
        decimal_digits(a) == decimal_digits(b) ==> a == b,
    decreases a,
{
    let da = decimal_digits(a);
    let db = decimal_digits(b);
    decimal_digits_nonempty(a);
    decimal_digits_nonempty(b);
    if da == db {
        assert(da.last() == db.last());
        if a >= 10 && b >= 10 {
            assert(da.drop_last() =~= decimal_digits(a / 10));
            assert(db.drop_last() =~= decimal_digits(b / 10));
            decimal_digits_injective(a / 10, b / 10);
        } else if a >= 10 {
            decimal_digits_nonempty(a / 10);
        } else if b >= 10 {
            decimal_digits_nonempty(b / 10);
        }
    }
}

/// A decimal text has at least one digit.
pub proof fn decimal_digits_nonempty(n: nat)
    ensures
        decimal_digits(n).len() >= 1,
    decreases n,
{
    if n >= 10 {
        decimal_digits_nonempty(n / 10);
    }
}

/// A decimal text is made of digits only.
pub proof fn decimal_digits_are_digits(n: nat, i: int)
    requires
        0 <= i < decimal_digits(n).len(),
    ensures
        is_digit(decimal_digits(n)[i]),
    decreases n,
{
    if n < 10 {
        assert(decimal_digits(n)[i] == digit(n));
    } else if i < decimal_digits(n / 10).len() {
        decimal_digits_are_digits(n / 10, i);
    } else {
        assert(decimal_digits(n)[i] == digit(n % 10));
    }
}

} // verus!
