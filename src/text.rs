use vstd::prelude::*;

verus! {

pub open spec fn digit_char(d: int) -> char {
    seq!['0', '1', '2', '3', '4', '5', '6', '7', '8', '9', 'a', 'b', 'c', 'd', 'e', 'f'][d]
}

/// The decimal digits of `n`, most significant first, without leading zeros.
pub open spec fn decimal(n: nat) -> Seq<char>
    decreases n,
{
    if n < 10 {
        seq![digit_char(n as int)]
    } else {
        decimal(n / 10) + seq![digit_char((n % 10) as int)]
    }
}

/// The `k` lowest hexadecimal digits of `v`, lower case, most significant
/// first, padded with zeros.
pub open spec fn hex_digits(v: nat, k: nat) -> Seq<char>
    decreases k,
{
    if k == 0 {
        Seq::empty()
    } else {
        hex_digits(v / 16, (k - 1) as nat) + seq![digit_char((v % 16) as int)]
    }
}

/// Relies on the `Display` of `usize` in std (through `ToString`): the
/// decimal digits of the number, without sign or leading zeros.
#[verifier::external_body]
pub(crate) fn decimal_string(n: usize) -> (r: String)
    ensures
        r@ == decimal(n as nat),
{
    n.to_string()
}

/// Relies on the `LowerHex` of `u64` in std, padded by `format!` to sixteen
/// digits with zeros.
#[verifier::external_body]
pub(crate) fn hex_string(v: u64) -> (r: String)
    ensures
        r@ == hex_digits(v as nat, 16),
{
    format!("{:016x}", v)
}

} // verus!
