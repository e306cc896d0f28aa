//! Addition of bytes with explicit overflow handling.
use vstd::prelude::*;

verus! {

/// The two bytes' sum does not fit in a byte.
pub open spec fn overflows(a: u8, b: u8) -> bool {
    a + b > u8::MAX
}

/// `a + b`, or `None` where it overflows.
pub open spec fn checked_sum(a: u8, b: u8) -> Option<u8> {
    if overflows(a, b) {
        None
    } else {
        Some((a + b) as u8)
    }
}

/// `a + b`, or 0 where it overflows.
pub open spec fn zeroing_sum(a: u8, b: u8) -> u8 {
    if overflows(a, b) {
        0
    } else {
        (a + b) as u8
    }
}

/// `a + b`, or the larger operand where it overflows.
pub open spec fn clamped_sum(a: u8, b: u8) -> u8 {
    if overflows(a, b) {
        if a >= b {
            a
        } else {
            b
        }
    } else {
        (a + b) as u8
    }
}

/// Adds two bytes, giving `None` when the sum exceeds 255.
pub fn add_u8_checked(a: u8, b: u8) -> (res: Option<u8>)
    ensures
        res == checked_sum(a, b),
        a + b <= 255 ==> res == Some((a + b) as u8),
        a + b > 255 ==> res is None,
{
    if a > u8::MAX - b {
        return None;
    }
    Some(a + b)
}

/// Adds two bytes, giving 0 when the sum exceeds 255.
pub fn add_u8_wrapping(a: u8, b: u8) -> (res: u8)
    ensures
        res == zeroing_sum(a, b),
        a + b <= 255 ==> res == a + b,
        a + b > 255 ==> res == 0,
{
    if a > u8::MAX - b {
        return 0;
    }
    a + b
}

/// Adds two bytes, giving the larger operand when the sum exceeds 255.
pub fn add_u8_saturating(a: u8, b: u8) -> (res: u8)
    ensures
        res == clamped_sum(a, b),
        a + b <= 255 ==> res == a + b,
        a + b > 255 ==> res == a || res == b,
        a + b > 255 ==> res >= a && res >= b,
{
    if a > u8::MAX - b {
        return if a >= b {
            a
        } else {
            b
        };
    }
    a + b
}

/// Each of the three additions is commutative.
pub proof fn lemma_sums_commute(a: u8, b: u8)
    ensures
        checked_sum(a, b) == checked_sum(b, a),
        zeroing_sum(a, b) == zeroing_sum(b, a),
        clamped_sum(a, b) == clamped_sum(b, a),
{
}

/// Where the checked addition succeeds, the other two give the same sum; where it
/// fails, they give 0 and the larger operand.
pub proof fn lemma_sums_agree_without_overflow(a: u8, b: u8)
    ensures
        checked_sum(a, b) is Some ==> zeroing_sum(a, b) == checked_sum(a, b)->Some_0
            && clamped_sum(a, b) == checked_sum(a, b)->Some_0,
        checked_sum(a, b) is None ==> zeroing_sum(a, b) == 0 && clamped_sum(a, b) == (if a >= b {
            a
        } else {
            b
        }),
{
}

/// The clamping addition never gives less than either operand.
pub proof fn lemma_clamped_sum_bounds_operands(a: u8, b: u8)
    ensures
        clamped_sum(a, b) >= a,
        clamped_sum(a, b) >= b,
{
}

/// Adding 0 gives the other operand back in all three additions.
pub proof fn lemma_zero_is_identity(a: u8)
    ensures
        checked_sum(a, 0) == Some(a),
        zeroing_sum(a, 0) == a,
        clamped_sum(a, 0) == a,
{
}

/// Where the sum fits in a byte, all three additions give the arithmetic sum
/// of the operands; where it does not, the checked one gives `None`, the
/// zeroing one 0 and the clamping one the larger operand.
pub proof fn lemma_sums_are_arithmetic(a: u8, b: u8)
    ensures
        a as int + b as int <= 255 ==> checked_sum(a, b) == Some((a as int + b as int) as u8)
            && zeroing_sum(a, b) as int == a as int + b as int && clamped_sum(a, b) as int == a as int
            + b as int,
        a as int + b as int > 255 ==> checked_sum(a, b) is None && zeroing_sum(a, b) == 0 && (
        clamped_sum(a, b) == a || clamped_sum(a, b) == b) && clamped_sum(a, b) >= a && clamped_sum(
            a,
            b,
        ) >= b,
{
}

} // verus!
