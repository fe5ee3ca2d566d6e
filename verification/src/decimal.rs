//! Decimal rendering of integers as ASCII bytes.

use vstd::prelude::*;

verus! {

/// The ASCII byte of the decimal digit `d`, for `0 <= d <= 9`.
pub open spec fn digit(d: int) -> u8 {
    (48 + d) as u8
}

/// The decimal digits of `n`, most significant first, without leading zeros;
/// `0` is the single digit `0`.
pub open spec fn magnitude(n: nat) -> Seq<u8>
    decreases n,
{
    if n < 10 {
        seq![digit(n as int)]
    } else {
        magnitude(n / 10).push(digit((n % 10) as int))
    }
}

/// The decimal text of `v`: a minus sign for a negative value, then the digits
/// of its magnitude.
pub open spec fn decimal(v: int) -> Seq<u8> {
    if v < 0 {
        seq![45u8] + magnitude((-v) as nat)
    } else {
        magnitude(v as nat)
    }
}

/// The magnitude of `val` as an unsigned number.
fn magnitude_of(val: i128) -> (mag: u128)
    ensures
        mag == if val < 0 { -(val as int) } else { val as int },
{
    if val >= 0 {
        val as u128
    } else if val == i128::MIN {
        0x8000_0000_0000_0000_0000_0000_0000_0000u128
    } else {
        (-val) as u128
    }
}

/// Appends the decimal text of `val` to `out`.
pub fn push_decimal(out: &mut Vec<u8>, val: i128)
    ensures
        final(out)@ == old(out)@ + decimal(val as int),
{
    let ghost before = out@;
    if val < 0 {
        out.push(45u8);
    }
    let ghost signed = out@;
    let mag: u128 = magnitude_of(val);
    // Least significant digit first.
    let mut low_first: Vec<u8> = Vec::new();
    let mut rest: u128 = mag;
    while rest >= 10
        invariant
            magnitude(mag as nat) == magnitude(rest as nat) + low_first@.reverse(),
        decreases rest,
    {
        let d: u8 = (rest % 10) as u8;
        let ghost prev = low_first@;
        low_first.push(48u8 + d);
        proof {
            assert(low_first@.reverse() =~= seq![digit((rest % 10) as int)] + prev.reverse());
            assert(magnitude(rest as nat) == magnitude((rest / 10) as nat).push(
                digit((rest % 10) as int),
            ));
            assert(magnitude(mag as nat) =~= magnitude((rest / 10) as nat)
                + low_first@.reverse());
        }
        rest = rest / 10;
    }
    let ghost prev = low_first@;
    low_first.push(48u8 + (rest as u8));
    proof {
        assert(low_first@.reverse() =~= seq![digit(rest as int)] + prev.reverse());
        assert(magnitude(mag as nat) =~= low_first@.reverse());
    }
    let mut i: usize = low_first.len();
    while i > 0
        invariant
            i <= low_first.len(),
            out@ == signed + low_first@.reverse().subrange(0, low_first.len() - i),
        decreases i,
    {
        i = i - 1;
        out.push(low_first[i]);
        proof {
            let r = low_first@.reverse();
            let k = low_first.len() - i;
            assert(r.subrange(0, k) =~= r.subrange(0, k - 1).push(r[k - 1]));
            assert(r[k - 1] == low_first@[i as int]);
        }
    }
    proof {
        let r = low_first@.reverse();
        assert(r.subrange(0, low_first.len() as int) =~= r);
        assert(out@ =~= before + decimal(val as int));
    }
}

} // verus!
