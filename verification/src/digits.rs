//! Rendering non-negative integers as ASCII decimal strings, with
//! optional left zero-padding to a fixed width.

use vstd::prelude::*;

verus! {

/// The decimal digits of `n`, most significant first, with no leading
/// zeros (except for `n == 0`, which is the single digit `"0"`).
pub open spec fn spec_decimal(n: nat) -> Seq<u8>
    decreases n,
{
    if n < 10 {
        seq![(48 + n) as u8]
    } else {
        spec_decimal(n / 10).push((48 + n % 10) as u8)
    }
}

/// `spec_decimal(n)` left-padded with `'0'` bytes to `width` when it is
/// shorter; never truncated.
pub open spec fn spec_padded_decimal(n: nat, width: nat) -> Seq<u8> {
    if spec_decimal(n).len() >= width {
        spec_decimal(n)
    } else {
        Seq::new((width - spec_decimal(n).len()) as nat, |i: int| 48u8) + spec_decimal(n)
    }
}

/// Appends the decimal rendering of `n` to `out`.
fn push_decimal(n: u64, out: &mut Vec<u8>)
    ensures
        final(out)@ == old(out)@ + spec_decimal(n as nat),
    decreases n,
{
    if n < 10 {
        out.push(48 + n as u8);
        assert(out@ =~= old(out)@ + spec_decimal(n as nat));
    } else {
        push_decimal(n / 10, out);
        let d: u8 = 48 + (n % 10) as u8;
        out.push(d);
        assert(out@ =~= old(out)@ + spec_decimal(n as nat));
    }
}

/// The decimal rendering of `n` as ASCII bytes.
pub fn to_decimal(n: u64) -> (r: Vec<u8>)
    ensures
        r@ == spec_decimal(n as nat),
{
    let mut out: Vec<u8> = Vec::new();
    push_decimal(n, &mut out);
    assert(out@ =~= spec_decimal(n as nat));
    out
}

/// The number of decimal digits of `n` (1 for `n == 0`).
pub fn decimal_width(n: u64) -> (r: usize)
    ensures
        r == spec_decimal(n as nat).len(),
{
    let v = to_decimal(n);
    v.len()
}

/// The decimal rendering of `n`, left-padded with `'0'` to `width`.
pub fn to_padded_decimal(n: u64, width: usize) -> (r: Vec<u8>)
    ensures
        r@ == spec_padded_decimal(n as nat, width as nat),
{
    let digits = to_decimal(n);
    let mut out: Vec<u8> = Vec::new();
    if digits.len() < width {
        let pad: usize = width - digits.len();
        let mut i: usize = 0;
        while i < pad
            invariant
                i <= pad,
                out@ == Seq::new(i as nat, |j: int| 48u8),
            decreases pad - i,
        {
            out.push(48u8);
            assert(out@ =~= Seq::new((i + 1) as nat, |j: int| 48u8));
            i = i + 1;
        }
        let mut k: usize = 0;
        while k < digits.len()
            invariant
                k <= digits@.len(),
                digits@ == spec_decimal(n as nat),
                out@ == Seq::new(pad as nat, |j: int| 48u8) + digits@.take(k as int),
            decreases digits@.len() - k,
        {
            let b = digits[k];
            out.push(b);
            assert(out@ =~= Seq::new(pad as nat, |j: int| 48u8) + digits@.take((k + 1) as int));
            k = k + 1;
        }
        assert(digits@.take(digits@.len() as int) =~= digits@);
        assert(out@ == spec_padded_decimal(n as nat, width as nat));
        out
    } else {
        assert(digits@ == spec_padded_decimal(n as nat, width as nat));
        digits
    }
}

} // verus!
