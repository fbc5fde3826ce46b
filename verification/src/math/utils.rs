//! Limiting a value to an interval.
use vstd::prelude::*;
use crate::math::arith::{is_greater, is_less};
use crate::traits::{Primitive, clamp_int};

verus! {

/// Whether `r` is `x` limited to the closed interval from `min` to `max`:
/// `min` where `x < min` holds, else `max` where `x > max` holds, else `x`.
pub open spec fn is_clipped<T: PartialOrd>(x: T, min: T, max: T, r: T) -> bool {
    exists|below: bool|
        #[trigger] is_less(x, min, below) && if below {
            r == min
        } else {
            exists|above: bool|
                #[trigger] is_greater(x, max, above) && r == if above {
                    max
                } else {
                    x
                }
        }
}

/// Limits `x` to the closed interval from `min` to `max`.
pub fn clip<T: Copy + PartialOrd>(x: T, min: T, max: T) -> (r: T)
    ensures
        is_clipped(x, min, max, r),
{
    let below = x < min;
    proof {
        assert(is_less(x, min, below));
    }
    if below {
        return min;
    }
    let above = x > max;
    proof {
        assert(is_greater(x, max, above));
    }
    if above {
        return max;
    }
    x
}

/// Of the primitive integers, the value limited to an interval is the
/// number limited to the interval of the numbers.
pub proof fn lemma_clip_whole<T: Primitive>(x: T, min: T, max: T, r: T)
    requires
        is_clipped(x, min, max, r),
    ensures
        r.to_int() == clamp_int(x.to_int(), min.to_int(), max.to_int()),
{
    x.lemma_order(min);
    x.lemma_order(max);
}

} // verus!
