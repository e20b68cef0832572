//! Text formatting of numbers: decimal and hexadecimal digits.
use vstd::prelude::*;

verus! {

/// The decimal digits of `n` (ASCII), most significant first, no leading zeros.
pub open spec fn dec_digits(n: nat) -> Seq<u8>
    decreases n,
{
    if n < 10 {
        seq![(48 + n) as u8]
    } else {
        dec_digits(n / 10).push((48 + n % 10) as u8)
    }
}

/// The upper-case hexadecimal digit of `d < 16`.
pub open spec fn hex_digit(d: nat) -> u8 {
    if d < 10 { (48 + d) as u8 } else { (55 + d) as u8 }
}

/// Append the decimal digits of `n` to `out`.
pub fn push_decimal(out: &mut Vec<u8>, n: u64)
    ensures final(out)@ == old(out)@ + dec_digits(n as nat),
    decreases n,
{
    if n >= 10 {
        push_decimal(out, n / 10);
    }
    let d = (n % 10) as u8;
    out.push(48 + d);
    proof {
        if n >= 10 {
            assert(old(out)@ + dec_digits(n as nat) =~= old(out)@ + dec_digits((n / 10) as nat) + seq![(48 + n % 10) as u8]);
        }
    }
}

/// The decimal digits of `n`.
pub fn decimal(n: u64) -> (r: Vec<u8>)
    ensures r@ == dec_digits(n as nat),
{
    let mut v: Vec<u8> = Vec::new();
    push_decimal(&mut v, n);
    assert(v@ =~= dec_digits(n as nat));
    v
}

/// The two upper-case hexadecimal digits of `b`.
pub fn hex_byte(b: u8) -> (r: [u8; 2])
    ensures r@ == seq![hex_digit((b / 16) as nat), hex_digit((b % 16) as nat)],
{
    let hi = b / 16;
    let lo = b % 16;
    let h = if hi < 10 { 48 + hi } else { 55 + hi };
    let l = if lo < 10 { 48 + lo } else { 55 + lo };
    let r = [h, l];
    assert(r@ =~= seq![hex_digit((b / 16) as nat), hex_digit((b % 16) as nat)]);
    r
}

/// The lower-case hexadecimal digit of `d < 16`.
pub open spec fn hex_digit_lower(d: nat) -> u8 {
    if d < 10 { (48 + d) as u8 } else { (87 + d) as u8 }
}

/// The lower-case hexadecimal digits of `n`, most significant first, no
/// leading zeros.
pub open spec fn hex_digits_lower(n: nat) -> Seq<u8>
    decreases n,
{
    if n < 16 {
        seq![hex_digit_lower(n)]
    } else {
        hex_digits_lower(n / 16).push(hex_digit_lower(n % 16))
    }
}

/// Append the lower-case hexadecimal digits of `n` to `out`.
pub fn push_hex_lower(out: &mut Vec<u8>, n: u64)
    ensures final(out)@ == old(out)@ + hex_digits_lower(n as nat),
    decreases n,
{
    if n >= 16 {
        push_hex_lower(out, n / 16);
    }
    let d = (n % 16) as u8;
    out.push(if d < 10 { 48 + d } else { 87 + d });
    proof {
        if n >= 16 {
            assert(old(out)@ + hex_digits_lower(n as nat)
                =~= old(out)@ + hex_digits_lower((n / 16) as nat) + seq![hex_digit_lower((n % 16) as nat)]);
        }
    }
}

} // verus!
