//! Removing demands whose time is over. A demand lives as long as its
//! expiration is later than the current time; there is no grace period.

use crate::scan::lemma_filter_step;
use crate::state::{DemandView, Demands};
use crate::time::Timestamp;
use vstd::prelude::*;

verus! {

/// The condition of being live at `now`.
pub open spec fn live_at(now: Timestamp) -> spec_fn(DemandView) -> bool {
    |d: DemandView| now.before(d.demand.expiration_ts)
}

/// Removes every demand whose expiration is not later than `now`; tells
/// how many were removed.
pub fn clean_old_demands(demands: &mut Demands, now: Timestamp) -> (removed: usize)
    requires
        old(demands).wf(),
    ensures
        final(demands).wf(),
        final(demands)@ == old(demands)@.filter(live_at(now)),
        removed == old(demands)@.len() - final(demands)@.len(),
{
    let ghost before = demands@;
    let ghost keep = live_at(now);
    let ghost mut k: int = 0;
    let total = demands.len();
    let mut removed: usize = 0;
    let mut i: usize = 0;
    proof {
        assert(before.take(0).filter(keep) =~= Seq::<DemandView>::empty()) by {
            reveal(Seq::filter);
        }
        assert(before.skip(0) =~= before);
    }
    while i < demands.len()
        invariant
            demands.wf(),
            keep == live_at(now),
            0 <= k <= before.len(),
            total == before.len(),
            i == before.take(k).filter(keep).len(),
            demands@ == before.take(k).filter(keep) + before.skip(k),
            removed == k - i,
        decreases before.len() - k,
    {
        proof {
            lemma_filter_step(before, keep, k);
            assert(demands@[i as int] == before.skip(k)[0]);
            assert(before.skip(k).drop_first() =~= before.skip(k + 1));
        }
        if now.is_before(&demands.entry(i).demand.expiration_ts) {
            proof {
                assert(demands@ =~= before.take(k + 1).filter(keep) + before.skip(k + 1));
            }
            i += 1;
        } else {
            let _ = demands.remove_at(i);
            proof {
                assert(demands@ =~= before.take(k).filter(keep) + before.skip(k + 1));
            }
            removed += 1;
        }
        proof {
            k = k + 1;
        }
    }
    proof {
        assert(before.skip(k).len() == 0);
        assert(before.take(k) =~= before);
        assert(demands@ =~= before.filter(keep));
    }
    removed
}

} // verus!
