//! The receipts of one lockstep step.
use vstd::prelude::*;

use crate::command::Receipt;

verus! {

/// The receipts of `s` that were rejected, in order.
pub open spec fn rejected_only(s: Seq<Receipt>) -> Seq<Receipt>
    decreases s.len(),
{
    if s.len() == 0 {
        s
    } else if s.last().accepted {
        rejected_only(s.drop_last())
    } else {
        rejected_only(s.drop_last()).push(s.last())
    }
}

/// The receipts a lockstep step returns: those its submission rejected
/// (queue full, ticking disabled), in order, followed by those of the tick
/// it ran, which already cover the accepted commands.
pub fn step_receipts(submitted: Vec<Receipt>, from_tick: Vec<Receipt>) -> (r: Vec<Receipt>)
    ensures
        r@ == rejected_only(submitted@) + from_tick@,
{
    let mut out: Vec<Receipt> = Vec::new();
    let mut i: usize = 0;
    while i < submitted.len()
        invariant
            i <= submitted@.len(),
            out@ == rejected_only(submitted@.subrange(0, i as int)),
        decreases submitted@.len() - i,
    {
        proof {
            assert(submitted@.subrange(0, i + 1).drop_last() =~= submitted@.subrange(0, i as int));
        }
        let r = submitted[i];
        if !r.accepted {
            out.push(r);
        }
        i = i + 1;
    }
    proof {
        assert(submitted@.subrange(0, submitted@.len() as int) =~= submitted@);
    }
    let ghost before = out@;
    let mut j: usize = 0;
    while j < from_tick.len()
        invariant
            j <= from_tick@.len(),
            out@ == before + from_tick@.subrange(0, j as int),
        decreases from_tick@.len() - j,
    {
        out.push(from_tick[j]);
        proof {
            assert(out@ =~= before + from_tick@.subrange(0, j + 1));
        }
        j = j + 1;
    }
    proof {
        assert(from_tick@.subrange(0, from_tick@.len() as int) =~= from_tick@);
    }
    out
}

} // verus!
