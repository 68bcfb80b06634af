//! The risk score.

use vstd::prelude::*;

verus! {

/// The score of a scan: the square of the number of risk markers, and the
/// part of the functions without a test, in percent, on top of it. Lower is
/// better; no marker and nothing uncovered is zero.
pub open spec fn final_score(unwraps: nat, uncovered: int) -> int {
    unwraps * unwraps + uncovered
}

/// The score for `unwraps` risk markers and `uncovered` percent of functions
/// without a test, where it fits the result type.
pub fn calc_final_score(unwraps: usize, uncovered: i32) -> (score: Option<i32>)
    ensures
        score == if i32::MIN <= final_score(unwraps as nat, uncovered as int) <= i32::MAX {
            Some(final_score(unwraps as nat, uncovered as int) as i32)
        } else {
            None
        },
{
    if unwraps > 0xffff {
        assert(unwraps * unwraps >= 0x1_0000_0000) by (nonlinear_arith)
            requires
                unwraps >= 0x1_0000,
        ;
        return None;
    }
    assert(unwraps * unwraps <= 0xffff * 0xffff) by (nonlinear_arith)
        requires
            0 <= unwraps <= 0xffff,
    ;
    let markers: i64 = unwraps as i64;
    let total: i64 = markers * markers + uncovered as i64;
    if total < i32::MIN as i64 || total > i32::MAX as i64 {
        None
    } else {
        Some(total as i32)
    }
}

} // verus!
