//! Removing offers whose time is over.
//!
//! An offer stays in the store for a grace period after it has expired.
//! Once its expiration, moved later by that period, is not later than the
//! current time, the sweep removes it.

use crate::scan::lemma_filter_step;
use crate::state::{lemma_part_keeps, stored_kept, OfferObj, Offers};
use crate::time::Timestamp;
use vstd::prelude::*;

verus! {

/// The condition of staying in the store at `now` under the grace period
/// `retention`, in seconds.
pub open spec fn retained(retention: u64, now: Timestamp) -> spec_fn(OfferObj) -> bool {
    |e: OfferObj| !e.offer.expiration.lapsed(retention, now)
}

/// Removes every offer whose expiration, moved later by `retention`
/// seconds, is not later than `now`; tells how many were removed.
pub fn clean_old_offers(offers: &mut Offers, retention: u64, now: Timestamp) -> (removed: usize)
    requires
        old(offers).wf(),
    ensures
        final(offers).wf(),
        final(offers)@ == old(offers)@.filter(retained(retention, now)),
        removed == old(offers)@.len() - final(offers)@.len(),
        stored_kept(old(offers)@, final(offers)@),
{
    let ghost before = offers@;
    let ghost keep = retained(retention, now);
    let total = offers.len();
    let ghost mut k: int = 0;
    let mut removed: usize = 0;
    let mut i: usize = 0;
    proof {
        assert(before.take(0).filter(keep) =~= Seq::<OfferObj>::empty()) by {
            reveal(Seq::filter);
        }
        assert(before.skip(0) =~= before);
    }
    while i < offers.len()
        invariant
            offers.wf(),
            keep == retained(retention, now),
            0 <= k <= before.len(),
            total == before.len(),
            i == before.take(k).filter(keep).len(),
            offers@ == before.take(k).filter(keep) + before.skip(k),
            removed == k - i,
            forall|j: int| 0 <= j < offers@.len() ==> before.contains(#[trigger] offers@[j]),
        decreases before.len() - k,
    {
        proof {
            lemma_filter_step(before, keep, k);
            assert(offers@[i as int] == before.skip(k)[0]);
            assert(before.skip(k).drop_first() =~= before.skip(k + 1));
        }
        let ghost current = offers@;
        if offers.entry(i).offer.expiration.has_lapsed(retention, &now) {
            let _ = offers.remove_at(i);
            proof {
                assert(offers@ =~= before.take(k).filter(keep) + before.skip(k + 1));
                assert forall|j: int| 0 <= j < offers@.len() implies before.contains(
                    #[trigger] offers@[j],
                ) by {
                    let c = if j < i { j } else { j + 1 };
                    assert(offers@[j] == current[c]);
                }
            }
            removed += 1;
        } else {
            proof {
                assert(offers@ =~= before.take(k + 1).filter(keep) + before.skip(k + 1));
            }
            i += 1;
        }
        proof {
            k = k + 1;
        }
    }
    proof {
        assert(before.skip(k).len() == 0);
        assert(before.take(k) =~= before);
        assert(offers@ =~= before.filter(keep));
        lemma_part_keeps(before, offers@);
    }
    removed
}

/// Removes every offer.
pub fn delete_all_offers(offers: &mut Offers)
    ensures
        final(offers).wf(),
        final(offers)@ == Seq::<OfferObj>::empty(),
{
    offers.clear();
}

} // verus!
