use vstd::prelude::*;

verus! {

/// The decimal numeral of `n` as ASCII bytes, most significant digit first.
pub open spec fn decimal_bytes(n: nat) -> Seq<u8>
    decreases n,
{
    if n < 10 {
        seq![(48 + n) as u8]
    } else {
        decimal_bytes(n / 10).push((48 + n % 10) as u8)
    }
}

/// The decimal numeral of `n` as characters.
pub open spec fn decimal_chars(n: nat) -> Seq<char>
    decreases n,
{
    if n < 10 {
        seq![(48 + n) as char]
    } else {
        decimal_chars(n / 10).push((48 + n % 10) as char)
    }
}

/// Formats `n` in decimal as ASCII bytes.
pub fn decimal_bytes_of(n: u128) -> (digits: Vec<u8>)
    ensures
        digits@ == decimal_bytes(n as nat),
    decreases n,
{
    if n < 10 {
        let mut v: Vec<u8> = Vec::new();
        v.push((48 + n) as u8);
        assert(v@ =~= decimal_bytes(n as nat));
        v
    } else {
        let mut v = decimal_bytes_of(n / 10);
        v.push((48 + n % 10) as u8);
        v
    }
}

/// Formats `n` in decimal.
pub fn decimal_chars_of(n: u64) -> (digits: Vec<char>)
    ensures
        digits@ == decimal_chars(n as nat),
    decreases n,
{
    if n < 10 {
        let mut v: Vec<char> = Vec::new();
        v.push(((48 + n) as u8) as char);
        assert(v@ =~= decimal_chars(n as nat));
        v
    } else {
        let mut v = decimal_chars_of(n / 10);
        v.push(((48 + n % 10) as u8) as char);
        v
    }
}

} // verus!
