//! The coverage pass's branch bookkeeping: conditional branches record
//! their true and false target lines as a consecutive pair, and a switch
//! records adjacent case pairs by rotating its label list left by one.

use vstd::prelude::*;

verus! {

/// The unit of the coverage instrumentation pass.
pub struct CoverageModule {}

/// Records one conditional branch: the true target line, then the false
/// target line, as a consecutive sibling pair.
pub fn record_br(brs: &mut Vec<u32>, true_target_line: u32, false_target_line: u32)
    ensures
        final(brs)@ == old(brs)@.push(true_target_line).push(false_target_line),
{
    brs.push(true_target_line);
    brs.push(false_target_line);
}

/// The sibling pairs of a switch: each case line paired with the next,
/// with the label list rotated left by one, so the last case pairs with
/// the first.
pub open spec fn spec_switch_pairs(case_lines: Seq<u32>) -> Seq<u32> {
    Seq::new(
        2 * case_lines.len(),
        |i: int|
            if i % 2 == 0 {
                case_lines[i / 2]
            } else {
                case_lines[(i / 2 + 1) % case_lines.len() as int]
            },
    )
}

/// Records the cases of a switch: adjacent pairs over the label list
/// rotated left by one.
pub fn record_switch(brs: &mut Vec<u32>, case_lines: &Vec<u32>)
    requires
        case_lines@.len() > 0,
    ensures
        final(brs)@ == old(brs)@ + spec_switch_pairs(case_lines@),
{
    let n = case_lines.len();
    let ghost base = brs@;
    let mut i: usize = 0;
    while i < n
        invariant
            i <= n == case_lines@.len(),
            n > 0,
            brs@ == base + spec_switch_pairs(case_lines@).subrange(0, 2 * i as int),
        decreases n - i,
    {
        let cur = case_lines[i];
        let next = case_lines[(i + 1) % n];
        brs.push(cur);
        brs.push(next);
        proof {
            assert((2 * (i as int)) % 2 == 0 && (2 * (i as int) + 1) % 2 == 1) by (nonlinear_arith);
            assert((2 * (i as int)) / 2 == i as int && (2 * (i as int) + 1) / 2 == i as int)
                by (nonlinear_arith);
            assert(brs@ =~= base + spec_switch_pairs(case_lines@).subrange(0, 2 * (i + 1)));
        }
        i += 1;
    }
    proof {
        assert(spec_switch_pairs(case_lines@).subrange(
            0,
            2 * case_lines@.len() as int,
        ) =~= spec_switch_pairs(case_lines@));
    }
}

} // verus!
