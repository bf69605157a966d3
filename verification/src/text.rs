//! How the models' values are written out as text.

use vstd::prelude::*;

verus! {

/// The character of decimal digit `d`.
pub open spec fn digit_char(d: int) -> char {
    (d + 48) as char
}

/// `n` in decimal, without leading zeros.
pub open spec fn decimal(n: nat) -> Seq<char>
    decreases n,
{
    if n < 10 {
        seq![digit_char(n as int)]
    } else {
        decimal(n / 10).push(digit_char((n % 10) as int))
    }
}

/// `b` as Rust writes it.
pub open spec fn bool_text(b: bool) -> Seq<char> {
    if b {
        "true"@
    } else {
        "false"@
    }
}

/// `ToString::to_string` of a `u32`: its decimal digits.
#[verifier::external_body]
pub(crate) fn decimal_string(n: u32) -> (s: String)
    ensures
        s@ == decimal(n as nat),
{
    n.to_string()
}

} // verus!
