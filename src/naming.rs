//! Short human-readable labels for dataset sizes.

use vstd::prelude::*;

verus! {

/// The decimal digit of `d`, where `d < 10`.
pub open spec fn digit(d: nat) -> char {
    if d == 0 {
        '0'
    } else if d == 1 {
        '1'
    } else if d == 2 {
        '2'
    } else if d == 3 {
        '3'
    } else if d == 4 {
        '4'
    } else if d == 5 {
        '5'
    } else if d == 6 {
        '6'
    } else if d == 7 {
        '7'
    } else if d == 8 {
        '8'
    } else {
        '9'
    }
}

/// The decimal form of `n`, without leading zeros.
pub open spec fn decimal(n: nat) -> Seq<char>
    decreases n,
{
    if n < 10 {
        seq![digit(n)]
    } else {
        decimal(n / 10).push(digit(n % 10))
    }
}

/// The label of a count: whole millions as `<n>m`, else whole thousands as
/// `<n>k`, else the plain number.
pub open spec fn count_label(count: nat) -> Seq<char> {
    if count >= 1_000_000 && count % 1_000_000 == 0 {
        decimal(count / 1_000_000) + seq!['m']
    } else if count >= 1_000 && count % 1_000 == 0 {
        decimal(count / 1_000) + seq!['k']
    } else {
        decimal(count)
    }
}

/// Relies on `format!` with `Display` for `u64` (decimal, no leading zeros,
/// no sign) and for `str` (the text itself).
#[verifier::external_body]
fn decimal_with_suffix(n: u64, suffix: &str) -> (r: String)
    ensures
        r@ == decimal(n as nat) + suffix@,
{
    format!("{}{}", n, suffix)
}

/// The label of a count, as used in dataset file names.
pub fn format_count(count: u64) -> (r: String)
    ensures
        r@ == count_label(count as nat),
{
    if count >= 1_000_000 && count % 1_000_000 == 0 {
        let r = decimal_with_suffix(count / 1_000_000, "m");
        proof {
            reveal_strlit("m");
        }
        r
    } else if count >= 1_000 && count % 1_000 == 0 {
        let r = decimal_with_suffix(count / 1_000, "k");
        proof {
            reveal_strlit("k");
        }
        r
    } else {
        let r = decimal_with_suffix(count, "");
        proof {
            reveal_strlit("");
            assert(decimal(count as nat) + ""@ =~= decimal(count as nat));
        }
        r
    }
}

} // verus!
