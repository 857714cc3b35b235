//! Decimal rendering of integers and small string helpers.
use vstd::prelude::*;
use vstd::string::StringExecFns;

verus! {

/// The ASCII digit for `d` in 0..10.
pub open spec fn digit_char(d: int) -> char {
    if d == 0 { '0' }
    else if d == 1 { '1' }
    else if d == 2 { '2' }
    else if d == 3 { '3' }
    else if d == 4 { '4' }
    else if d == 5 { '5' }
    else if d == 6 { '6' }
    else if d == 7 { '7' }
    else if d == 8 { '8' }
    else { '9' }
}

/// The decimal digits of `n`, most significant first, without leading zeros.
pub open spec fn decimal(n: nat) -> Seq<char>
    decreases n,
{
    if n < 10 {
        seq![digit_char(n as int)]
    } else {
        decimal(n / 10).push(digit_char((n % 10) as int))
    }
}

/// How an integer is written: a minus sign for negative values, then its digits.
pub open spec fn signed_decimal(x: int) -> Seq<char> {
    if x < 0 { seq!['-'] + decimal((-x) as nat) } else { decimal(x as nat) }
}

const DIGITS: [&'static str; 10] = ["0", "1", "2", "3", "4", "5", "6", "7", "8", "9"];

fn append_decimal(n: u64, out: &mut String)
    ensures
        final(out)@ == old(out)@ + decimal(n as nat),
    decreases n,
{
    if n >= 10 {
        append_decimal(n / 10, out);
    }
    let d = (n % 10) as usize;
    proof {
        reveal_strlit("0");
        reveal_strlit("1");
        reveal_strlit("2");
        reveal_strlit("3");
        reveal_strlit("4");
        reveal_strlit("5");
        reveal_strlit("6");
        reveal_strlit("7");
        reveal_strlit("8");
        reveal_strlit("9");
    }
    assert(DIGITS@[d as int]@ =~= seq![digit_char(d as int)]);
    out.append(DIGITS[d]);
}

/// `n` written in decimal.
pub fn usize_to_decimal(n: usize) -> (r: String)
    ensures
        r@ == decimal(n as nat),
{
    let mut out = String::new();
    append_decimal(n as u64, &mut out);
    assert(out@ =~= decimal(n as nat));
    out
}

/// `x` written in decimal, with a leading minus sign when negative.
pub fn i32_to_decimal(x: i32) -> (r: String)
    ensures
        r@ == signed_decimal(x as int),
{
    let mut out = String::new();
    if x < 0 {
        out.append("-");
        proof {
            reveal_strlit("-");
        }
        let m: i64 = -(x as i64);
        append_decimal(m as u64, &mut out);
        assert(out@ =~= signed_decimal(x as int));
    } else {
        append_decimal(x as u64, &mut out);
        assert(out@ =~= signed_decimal(x as int));
    }
    out
}

/// The two string slices hold the same characters.
pub fn str_eq(a: &str, b: &str) -> (r: bool)
    ensures
        r == (a@ == b@),
{
    let n = a.unicode_len();
    if n != b.unicode_len() {
        return false;
    }
    let mut i: usize = 0;
    while i < n
        invariant
            n == a@.len() == b@.len(),
            0 <= i <= n,
            forall|j: int| 0 <= j < i ==> a@[j] == b@[j],
        decreases n - i,
    {
        if a.get_char(i) != b.get_char(i) {
            return false;
        }
        i = i + 1;
    }
    assert(a@ =~= b@);
    true
}

} // verus!
