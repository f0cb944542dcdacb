//! The sampling planner: the ordered, evenly spaced timestamps at which
//! frames are captured, all in milliseconds.
use vstd::prelude::*;
use vstd::arithmetic::div_mod::{lemma_fundamental_div_mod, lemma_mod_bound};
use vstd::arithmetic::mul::lemma_mul_inequality;

verus! {

/// The sampling plan: empty when no thumbnails are asked for or the start
/// offset lies beyond the duration (the first timestamp would already exceed
/// it); otherwise exactly `count` timestamps `start + i * step` with
/// `step = (duration - start) / count`.
pub open spec fn spec_plan(duration_ms: u64, start_ms: u64, count: u32) -> Seq<u64> {
    if count == 0 || start_ms > duration_ms {
        Seq::empty()
    } else {
        let step = ((duration_ms - start_ms) as nat) / (count as nat);
        Seq::new(count as nat, |i: int| (start_ms + i * step) as u64)
    }
}

/// Computes the sampling plan for `count` thumbnails of a video of
/// `duration_ms`, starting at `start_ms`: timestamps start at `start_ms`,
/// are evenly spaced and non-decreasing, and never exceed the duration.
pub fn sampling_plan(duration_ms: u64, start_ms: u64, count: u32) -> (r: Vec<u64>)
    ensures
        r@ == spec_plan(duration_ms, start_ms, count),
        r@.len() == (if count == 0 || start_ms > duration_ms {
            0int
        } else {
            count as int
        }),
        forall|i: int| 0 <= i < r@.len() ==> r@[i] <= duration_ms,
        forall|i: int| 0 <= i < r@.len() - 1 ==> #[trigger] r@[i] <= r@[i + 1],
        r@.len() > 0 ==> r@[0] == start_ms,
{
    let mut out: Vec<u64> = Vec::new();
    if count == 0 || start_ms > duration_ms {
        proof {
            assert(out@ =~= spec_plan(duration_ms, start_ms, count));
        }
        return out;
    }
    let delta = duration_ms - start_ms;
    let step = delta / (count as u64);
    proof {
        lemma_fundamental_div_mod(delta as int, count as int);
        lemma_mod_bound(delta as int, count as int);
    }
    let mut i: u32 = 0;
    while i < count
        invariant
            i <= count,
            count >= 1,
            start_ms <= duration_ms,
            delta == duration_ms - start_ms,
            step == (delta as nat) / (count as nat),
            (count as int) * (step as int) <= delta,
            out@.len() == i,
            forall|j: int| 0 <= j < i ==> out@[j] == start_ms + j * step,
            forall|j: int| 0 <= j < i ==> out@[j] <= duration_ms,
        decreases count - i,
    {
        proof {
            lemma_mul_inequality(i as int, count as int, step as int);
        }
        let t = start_ms + (i as u64) * step;
        out.push(t);
        i = i + 1;
    }
    proof {
        assert(out@ =~= spec_plan(duration_ms, start_ms, count));
        assert forall|j: int| 0 <= j < out@.len() - 1 implies #[trigger] out@[j] <= out@[j + 1] by {
            assert(out@[j] == start_ms + j * step);
            assert(out@[j + 1] == start_ms + (j + 1) * step);
            assert(j * step <= (j + 1) * step) by (nonlinear_arith)
                requires
                    j >= 0,
                    step >= 0,
            ;
        }
    }
    out
}

} // verus!
