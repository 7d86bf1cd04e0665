//! What the patterns of numbers stand for.

use super::{Binary32, Binary64};
use vstd::arithmetic::power2::pow2;
use vstd::prelude::*;

verus! {

/// A single-precision number is greater than 0 where its sign is clear, some other bit is
/// set, and it is not one of the patterns that are no numbers.
pub proof fn positive_singles(v: Binary32)
    ensures
        ({
            let sign = v.bits as int / 0x8000_0000;
            let exponent = v.bits as int / 0x80_0000 % 0x100;
            let fraction = v.bits as int % 0x80_0000;
            v.positive() <==> sign == 0 && (exponent > 0 || fraction > 0) && !(exponent == 255
                && fraction > 0)
        }),
{
}

/// The sign, the exponent and the fraction of a double-precision number: those with the
/// largest exponent are infinities, or no numbers where the fraction is not 0.
pub proof fn doubles_by_their_parts(v: Binary64)
    ensures
        ({
            let sign = v.bits as int / 0x8000_0000_0000_0000;
            let exponent = v.bits as int / 0x10_0000_0000_0000 % 0x800;
            let fraction = v.bits as int % 0x10_0000_0000_0000;
            &&& v.negative() <==> sign == 1
            &&& v.finite() <==> exponent < 0x7ff
            &&& v.nan() <==> exponent == 0x7ff && fraction > 0
            &&& v.magnitude() == exponent * 0x10_0000_0000_0000 + fraction
            &&& exponent == 0 && sign == 0 ==> v.scaled() == fraction
            &&& exponent == 0 && sign == 1 ==> v.scaled() == -fraction
            &&& exponent > 0 && sign == 0 ==> v.scaled() == (0x10_0000_0000_0000 + fraction) * pow2(
                (exponent - 1) as nat,
            )
            &&& exponent > 0 && sign == 1 ==> v.scaled() == -((0x10_0000_0000_0000 + fraction)
                * pow2((exponent - 1) as nat))
        }),
{
    let m = v.magnitude() as int;
    let b = v.bits as int;
    assert(m == b || m == b - 0x8000_0000_0000_0000);
    assert(m / 0x10_0000_0000_0000 == b / 0x10_0000_0000_0000 % 0x800);
    assert(m % 0x10_0000_0000_0000 == b % 0x10_0000_0000_0000);
}

/// Numbers are compared by what they stand for; a pattern that is no number is neither
/// below another nor at most it.
pub proof fn comparisons_go_by_number(a: Binary64, b: Binary64)
    ensures
        a.nan() || b.nan() ==> !a.below(b) && !a.at_most(b),
        !a.nan() && !b.nan() ==> (a.below(b) <==> a.scaled() < b.scaled()) && (a.at_most(b)
            <==> a.scaled() <= b.scaled()),
{
}

} // verus!
