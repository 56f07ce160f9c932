//! Storing an offer that a provider publishes.
//!
//! The first offer with an identifier wins: an offer whose identifier is
//! stored already is not stored again, and what is stored stays as it is.

use crate::model::offer::attributes::{
    derived_from, get_static_random, OfferFlatAttributes, SaltState,
};
use crate::model::offer::base::GolemBaseOffer;
use crate::ordered_map::{
    ascending, lemma_ascending_distinct, lemma_insert_ascending, lemma_lower_bound, lemma_position,
    lower_bound, position,
};
use crate::state::{lemma_insert_keeps, lemma_same_keeps, offer_ids, stored_kept, OfferObj, Offers};
use crate::time::Timestamp;
use vstd::prelude::*;

verus! {

/// How a push ended. Neither outcome is a failure.
#[derive(Clone, Copy, Debug, PartialEq, Eq, Structural)]
pub enum PushOutcome {
    /// The offer was stored.
    Added,
    /// An offer with this identifier was stored before; nothing changed.
    DuplicateId,
}

/// `after` is `before` with `offer` stored at its place in the order of
/// identifiers: unassigned, stamped with `now`, and with the attributes
/// derived under `salt`.
pub open spec fn stored(
    before: Seq<OfferObj>,
    after: Seq<OfferObj>,
    offer: GolemBaseOffer,
    salt: u64,
    now: Timestamp,
) -> bool {
    let p = lower_bound(offer_ids(before), offer.id@);
    &&& after.len() == before.len() + 1
    &&& after.remove(p) == before
    &&& after[p].offer == offer
    &&& after[p].pushed_at == now
    &&& after[p].requestor_id is None
    &&& derived_from(after[p].attributes, offer, salt)
}

/// What a push makes of the offers: nothing where the identifier is
/// stored already; else the offer is stored.
pub open spec fn pushed(
    before: Seq<OfferObj>,
    after: Seq<OfferObj>,
    offer: GolemBaseOffer,
    salt: u64,
    now: Timestamp,
) -> bool {
    match position(offer_ids(before), offer.id@) {
        Some(_) => after == before,
        None => stored(before, after, offer, salt, now),
    }
}

/// How a push of `offer` ends.
pub open spec fn push_outcome(before: Seq<OfferObj>, offer: GolemBaseOffer) -> PushOutcome {
    match position(offer_ids(before), offer.id@) {
        Some(_) => PushOutcome::DuplicateId,
        None => PushOutcome::Added,
    }
}

/// After a push the store holds the pushed identifier exactly once, and
/// what is stored under it is what the first push of it stored.
pub proof fn lemma_pushed_once(
    before: Seq<OfferObj>,
    after: Seq<OfferObj>,
    offer: GolemBaseOffer,
    salt: u64,
    now: Timestamp,
)
    requires
        ascending(offer_ids(before)),
        pushed(before, after, offer, salt, now),
    ensures
        ascending(offer_ids(after)),
        position(offer_ids(after), offer.id@) is Some,
        forall|i: int, j: int|
            0 <= i < after.len() && 0 <= j < after.len() && (#[trigger] after[i]).offer.id@
                == offer.id@ && (#[trigger] after[j]).offer.id@ == offer.id@ ==> i == j,
{
    lemma_position(offer_ids(before), offer.id@);
    lemma_lower_bound(offer_ids(before), offer.id@);
    if position(offer_ids(before), offer.id@) is None {
        let p = lower_bound(offer_ids(before), offer.id@);
        lemma_insert_ascending(offer_ids(before), offer.id@);
        assert(before.insert(p, after[p]) =~= after) by {
            assert(after.remove(p) == before);
            assert forall|i: int| 0 <= i < after.len() implies before.insert(p, after[p])[i]
                == after[i] by {
                if i < p {
                    assert(after.remove(p)[i] == after[i]);
                } else if i > p {
                    assert(after.remove(p)[i - 1] == after[i]);
                }
            }
        }
        assert(offer_ids(after) =~= offer_ids(before).insert(p, offer.id@));
        assert(offer_ids(after)[p] == offer.id@);
    }
    lemma_position(offer_ids(after), offer.id@);
    assert forall|i: int, j: int|
        0 <= i < after.len() && 0 <= j < after.len() && (#[trigger] after[i]).offer.id@
            == offer.id@ && (#[trigger] after[j]).offer.id@ == offer.id@ implies i == j by {
        assert(offer_ids(after)[i] == offer_ids(after)[j]);
        lemma_ascending_distinct(offer_ids(after), i, j);
    }
}

/// Pushing an identifier a second time reports a duplicate and changes
/// nothing: the store still holds the identifier once, with the time of
/// its first push and with its assignment.
pub proof fn lemma_push_twice(
    s0: Seq<OfferObj>,
    s1: Seq<OfferObj>,
    s2: Seq<OfferObj>,
    first: GolemBaseOffer,
    second: GolemBaseOffer,
    salts: (u64, u64),
    times: (Timestamp, Timestamp),
)
    requires
        ascending(offer_ids(s0)),
        first.id@ == second.id@,
        pushed(s0, s1, first, salts.0, times.0),
        pushed(s1, s2, second, salts.1, times.1),
    ensures
        push_outcome(s1, second) == PushOutcome::DuplicateId,
        s2 == s1,
        forall|i: int, j: int|
            0 <= i < s2.len() && 0 <= j < s2.len() && (#[trigger] s2[i]).offer.id@ == first.id@ && (
            #[trigger] s2[j]).offer.id@ == first.id@ ==> i == j,
{
    lemma_pushed_once(s0, s1, first, salts.0, times.0);
}

/// Stores the offer under the given salt, unless its identifier is stored
/// already.
pub fn push_with_salt(offers: &mut Offers, offer: GolemBaseOffer, salt: u64, now: Timestamp) -> (r:
    PushOutcome)
    requires
        old(offers).wf(),
    ensures
        final(offers).wf(),
        stored_kept(old(offers)@, final(offers)@),
        pushed(old(offers)@, final(offers)@, offer, salt, now),
        r == push_outcome(old(offers)@, offer),
{
    if offers.find(offer.id.as_str()).is_some() {
        proof {
            lemma_same_keeps(offers@);
        }
        return PushOutcome::DuplicateId;
    }
    let attributes = OfferFlatAttributes::from_gbo(&offer, salt);
    let entry = OfferObj { offer, pushed_at: now, requestor_id: None, attributes };
    proof {
        lemma_lower_bound(offer_ids(offers@), offer.id@);
        lemma_insert_keeps(offers@, entry);
    }
    let added = offers.add(entry);
    proof {
        let p = lower_bound(offer_ids(old(offers)@), offer.id@);
        assert(offers@.remove(p) =~= old(offers)@);
    }
    PushOutcome::Added
}

/// Stores the offer, unless its identifier is stored already. The
/// attributes are derived under the salt of the hour in which `now` lies;
/// a push that stores nothing asks for no salt.
pub fn push_offer(
    offers: &mut Offers,
    salts: &mut SaltState,
    offer: GolemBaseOffer,
    now: Timestamp,
) -> (r: PushOutcome)
    requires
        old(offers).wf(),
        now.secs >= 0,
    ensures
        final(offers).wf(),
        stored_kept(old(offers)@, final(offers)@),
        pushed(old(offers)@, final(offers)@, offer, final(salts).value, now),
        r == push_outcome(old(offers)@, offer),
        match r {
            PushOutcome::DuplicateId => *final(salts) == *old(salts),
            PushOutcome::Added => {
                &&& final(salts).hour == now.secs / 3600
                &&& old(salts).hour == now.secs / 3600 ==> *final(salts) == *old(salts)
            },
        },
{
    if offers.find(offer.id.as_str()).is_some() {
        proof {
            lemma_same_keeps(offers@);
        }
        return PushOutcome::DuplicateId;
    }
    let salt = get_static_random(salts, now);
    push_with_salt(offers, offer, salt, now)
}

} // verus!
