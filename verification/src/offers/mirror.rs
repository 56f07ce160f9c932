//! Taking in offers that a mirror has handed over.
//!
//! The entries of a mirror are complete: they carry their attributes and
//! their assignment. An entry whose identifier is stored already is
//! skipped; the others are stored as they are.

use crate::ordered_map::{lemma_lower_bound, lower_bound};
use crate::state::{lemma_whole_keeps, offer_ids, stored_kept, with_offer, OfferObj, Offers};
use vstd::prelude::*;

verus! {

/// How many entries of a mirror were stored and how many were skipped.
#[derive(Clone, Copy, Debug, PartialEq, Eq, Structural)]
pub struct MirrorReport {
    pub added: usize,
    pub already_present: usize,
}

/// The offers after the first `n` entries were taken in, one after the
/// other.
pub open spec fn merged_among(s: Seq<OfferObj>, entries: Seq<OfferObj>, n: int) -> Seq<OfferObj>
    decreases n,
{
    if n <= 0 {
        s
    } else {
        with_offer(merged_among(s, entries, n - 1), entries[n - 1])
    }
}

/// The offers after all entries were taken in.
pub open spec fn merged(s: Seq<OfferObj>, entries: Seq<OfferObj>) -> Seq<OfferObj> {
    merged_among(s, entries, entries.len() as int)
}

/// Takes in the entries of a mirror, in their order.
pub fn merge_mirror_offers(offers: &mut Offers, entries: Vec<OfferObj>) -> (r: MirrorReport)
    requires
        old(offers).wf(),
    ensures
        final(offers).wf(),
        final(offers)@ == merged(old(offers)@, entries@),
        r.added == final(offers)@.len() - old(offers)@.len(),
        r.added + r.already_present == entries@.len(),
        stored_kept(old(offers)@, final(offers)@),
{
    let ghost before = offers@;
    let total = entries.len();
    let mut added: usize = 0;
    let mut already_present: usize = 0;
    for entry in it: entries
        invariant
            offers.wf(),
            it.seq() == entries@,
            total == entries@.len(),
            offers@ == merged_among(before, entries@, it.index() as int),
            added == offers@.len() - before.len(),
            added + already_present == it.index(),
            it.index() <= total,
            forall|i: int| 0 <= i < before.len() ==> offers@.contains(#[trigger] before[i]),
    {
        let ghost current = offers@;
        proof {
            lemma_lower_bound(offer_ids(current), entry.offer.id@);
        }
        if offers.add(entry) {
            proof {
                let p = lower_bound(offer_ids(current), entry.offer.id@);
                assert forall|i: int| 0 <= i < before.len() implies offers@.contains(
                    #[trigger] before[i],
                ) by {
                    let c = choose|c: int| 0 <= c < current.len() && current[c] == before[i];
                    let j = if c < p { c } else { c + 1 };
                    assert(offers@[j] == before[i]);
                }
            }
            added += 1;
        } else {
            already_present += 1;
        }
    }
    proof {
        lemma_whole_keeps(before, offers@);
    }
    MirrorReport { added, already_present }
}

} // verus!
