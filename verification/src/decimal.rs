//! Decimal rendering of numbers, used to name line numbers in diagnostic
//! message texts.

use vstd::prelude::*;

verus! {

use vstd::string::StringExecFns;

/// The character for one decimal digit.
pub open spec fn digit_char(d: nat) -> char
    recommends
        d < 10,
{
    ((d + 0x30) as u8) as char
}

/// The decimal digits of `n`, most significant first, with no leading zeros
/// (`0` itself is the single digit `0`).
pub open spec fn decimal_digits(n: nat) -> Seq<char>
    decreases n,
{
    if n < 10 {
        seq![digit_char(n)]
    } else {
        decimal_digits(n / 10).push(digit_char(n % 10))
    }
}

/// The digit characters of `ds` in reverse order.
spec fn rev_digit_views(ds: Seq<usize>) -> Seq<char> {
    Seq::new(ds.len(), |k: int| digit_char(ds[ds.len() - 1 - k] as nat))
}

fn digit_str(d: usize) -> (r: &'static str)
    requires
        d < 10,
    ensures
        r@ == seq![digit_char(d as nat)],
{
    proof {
        reveal_strlit("0");
        reveal_strlit("1");
        reveal_strlit("2");
        reveal_strlit("3");
        reveal_strlit("4");
        reveal_strlit("5");
        reveal_strlit("6");
        reveal_strlit("7");
        reveal_strlit("8");
        reveal_strlit("9");
    }
    let r: &'static str = match d {
        0 => "0",
        1 => "1",
        2 => "2",
        3 => "3",
        4 => "4",
        5 => "5",
        6 => "6",
        7 => "7",
        8 => "8",
        _ => "9",
    };
    proof {
        assert(r@ =~= seq![digit_char(d as nat)]);
    }
    r
}

/// Renders `n` in decimal.
pub fn decimal_string(n: usize) -> (r: String)
    ensures
        r@ == decimal_digits(n as nat),
{
    // Digit values of `n`, least significant first.
    let mut digits: Vec<usize> = Vec::new();
    let mut m = n;
    while m >= 10
        invariant
            forall|j: int| 0 <= j < digits.len() ==> #[trigger] digits@[j] < 10,
            decimal_digits(n as nat) == decimal_digits(m as nat) + rev_digit_views(digits@),
        decreases m,
    {
        let d = m % 10;
        let ghost old_digits = digits@;
        digits.push(d);
        m = m / 10;
        proof {
            assert(rev_digit_views(old_digits.push(d)) =~= seq![digit_char(d as nat)]
                + rev_digit_views(old_digits));
            assert(decimal_digits(m as nat) + rev_digit_views(digits@) =~= decimal_digits(n as nat));
        }
    }
    let ghost old_digits = digits@;
    digits.push(m);
    proof {
        assert(rev_digit_views(old_digits.push(m)) =~= seq![digit_char(m as nat)]
            + rev_digit_views(old_digits));
        assert(rev_digit_views(digits@) =~= decimal_digits(n as nat));
    }
    let mut out = String::new();
    let mut i = digits.len();
    while i > 0
        invariant
            i <= digits.len(),
            forall|j: int| 0 <= j < digits.len() ==> #[trigger] digits@[j] < 10,
            rev_digit_views(digits@) == decimal_digits(n as nat),
            out@ == rev_digit_views(digits@).take(digits.len() - i),
        decreases i,
    {
        i = i - 1;
        out.append(digit_str(digits[i]));
        proof {
            let rv = rev_digit_views(digits@);
            let p = digits.len() - i - 1;
            assert(rv[p as int] == digit_char(digits@[i as int] as nat));
            assert(rv.take(p + 1) =~= rv.take(p as int).push(rv[p as int]));
            assert(out@ =~= rv.take(digits.len() - i));
        }
    }
    proof {
        assert(rev_digit_views(digits@).take(digits.len() as int) =~= rev_digit_views(digits@));
    }
    out
}

} // verus!
