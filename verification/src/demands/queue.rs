//! Putting offers into the queue of a demand at a requestor's wish.

use crate::demands::resolve::{resolve, resolved};
use crate::error::MarketError;
use crate::ordered_map::position;
use crate::scan::{first_index, lemma_first_index_is, lemma_first_index_none};
use crate::state::{
    claimed, lemma_claim_keeps, lemma_same_keeps, offer_ids, stored_kept, with_queued, DemandView,
    Demands, OfferObj, Offers,
};
use crate::text::{contains_text, first_token, is_infix, leading_token};
use vstd::prelude::*;

verus! {

/// Names an offer and the demand that is to get it.
#[derive(Clone, Debug, PartialEq)]
pub struct AddOfferToDemand {
    pub demand_id: String,
    pub offer_id: String,
}

/// Names the demand for which an offer is picked, by its identifier or by
/// the text of its owner's identity.
#[derive(Clone, Debug, PartialEq)]
pub struct PickOfferToDemand {
    pub demand_id: String,
}

/// `after` is `before` with the offer at `o` assigned to the owner of the
/// demand at `d`, and with the offer's identifier at the end of that
/// demand's queue.
pub open spec fn handed_over(
    demands: (Seq<DemandView>, Seq<DemandView>),
    offers: (Seq<OfferObj>, Seq<OfferObj>),
    d: int,
    o: int,
) -> bool {
    &&& offers.1 == offers.0.update(o, claimed(offers.0[o], demands.0[d].demand.node_id))
    &&& demands.1 == demands.0.update(d, with_queued(demands.0[d], offers.0[o].offer.id@))
}

/// How an attempt to give a named offer to a demand ends: the offer must
/// exist, the demand must be found, and the offer must be free.
pub open spec fn addition(
    demands: Seq<DemandView>,
    offers: Seq<OfferObj>,
    request: AddOfferToDemand,
) -> Result<(int, int), MarketError> {
    match position(offer_ids(offers), request.offer_id@) {
        None => Err(MarketError::OfferNotFound),
        Some(o) => match resolved(demands, request.demand_id@) {
            Err(e) => Err(e),
            Ok(d) => if offers[o].requestor_id is Some {
                Err(MarketError::OfferTaken)
            } else {
                Ok((d, o))
            },
        },
    }
}

/// Gives the named offer to the named demand: the offer is assigned to the
/// demand's owner and its identifier is appended to the demand's queue.
pub fn add_offer_to_demand(
    demands: &mut Demands,
    offers: &mut Offers,
    request: &AddOfferToDemand,
) -> (r: Result<(), MarketError>)
    requires
        old(demands).wf(),
        old(offers).wf(),
    ensures
        final(demands).wf(),
        final(offers).wf(),
        stored_kept(old(offers)@, final(offers)@),
        match addition(old(demands)@, old(offers)@, *request) {
            Err(e) => {
                &&& r == Err::<(), MarketError>(e)
                &&& final(demands)@ == old(demands)@
                &&& final(offers)@ == old(offers)@
            },
            Ok((d, o)) => {
                &&& r is Ok
                &&& handed_over(
                    (old(demands)@, final(demands)@),
                    (old(offers)@, final(offers)@),
                    d,
                    o,
                )
            },
        },
{
    proof {
        lemma_same_keeps(offers@);
    }
    let o = match offers.find(request.offer_id.as_str()) {
        Some(o) => o,
        None => {
            return Err(MarketError::OfferNotFound);
        },
    };
    let d = match resolve(demands, request.demand_id.as_str()) {
        Ok(d) => d,
        Err(e) => {
            return Err(e);
        },
    };
    if offers.entry(o).requestor_id.is_some() {
        return Err(MarketError::OfferTaken);
    }
    let owner = demands.entry(d).demand.node_id;
    let offer_id = offers.entry(o).offer.id.clone();
    proof {
        lemma_claim_keeps(offers@, o as int, owner);
    }
    offers.claim(o, owner);
    demands.enqueue(d, offer_id);
    Ok(())
}

/// The text that the name of an offer's node must hold for the demand: the
/// part of the demand's central network address before its first dot; the
/// empty text, which every name holds, where the demand declares no
/// address.
pub open spec fn name_filter(d: DemandView) -> Seq<char> {
    match d.demand.central_net_address {
        Some(address) => first_token(address@, '.'),
        None => Seq::empty(),
    }
}

/// The condition of being free and of a node whose name holds `wanted`.
pub open spec fn pickable(wanted: Seq<char>) -> spec_fn(OfferObj) -> bool {
    |e: OfferObj|
        is_infix(wanted, e.offer.properties.golem.node.id.name@) && e.requestor_id is None
}

/// How an attempt to pick an offer for a demand ends: the demand must be
/// found, and the first offer in the order of identifiers that is pickable
/// for it is taken.
pub open spec fn pick(
    demands: Seq<DemandView>,
    offers: Seq<OfferObj>,
    request: PickOfferToDemand,
) -> Result<(int, int), MarketError> {
    match resolved(demands, request.demand_id@) {
        Err(e) => Err(e),
        Ok(d) => match first_index(offers, pickable(name_filter(demands[d]))) {
            None => Err(MarketError::NoOfferAvailable),
            Some(o) => Ok((d, o)),
        },
    }
}

/// Picks the first free offer whose node name suits the named demand and
/// gives it to the demand.
pub fn pick_offer_to_demand(
    demands: &mut Demands,
    offers: &mut Offers,
    request: &PickOfferToDemand,
) -> (r: Result<(), MarketError>)
    requires
        old(demands).wf(),
        old(offers).wf(),
    ensures
        final(demands).wf(),
        final(offers).wf(),
        stored_kept(old(offers)@, final(offers)@),
        match pick(old(demands)@, old(offers)@, *request) {
            Err(e) => {
                &&& r == Err::<(), MarketError>(e)
                &&& final(demands)@ == old(demands)@
                &&& final(offers)@ == old(offers)@
            },
            Ok((d, o)) => {
                &&& r is Ok
                &&& handed_over(
                    (old(demands)@, final(demands)@),
                    (old(offers)@, final(offers)@),
                    d,
                    o,
                )
            },
        },
{
    proof {
        lemma_same_keeps(offers@);
    }
    let d = match resolve(demands, request.demand_id.as_str()) {
        Ok(d) => d,
        Err(e) => {
            return Err(e);
        },
    };
    let wanted = match &demands.entry(d).demand.central_net_address {
        Some(address) => leading_token(address.as_str(), '.'),
        None => String::new(),
    };
    let owner = demands.entry(d).demand.node_id;
    let n = offers.len();
    let mut o: usize = 0;
    while o < n
        invariant
            n == offers@.len(),
            o <= n,
            d < demands@.len(),
            *offers == *old(offers),
            *demands == *old(demands),
            offers.wf(),
            demands.wf(),
            owner == demands@[d as int].demand.node_id,
            resolved(demands@, request.demand_id@) == Ok::<int, MarketError>(d as int),
            wanted@ == name_filter(demands@[d as int]),
            forall|j: int| 0 <= j < o ==> !pickable(wanted@)(#[trigger] offers@[j]),
        decreases n - o,
    {
        let e = offers.entry(o);
        if contains_text(e.offer.properties.golem.node.id.name.as_str(), wanted.as_str())
            && e.requestor_id.is_none() {
            let offer_id = e.offer.id.clone();
            proof {
                lemma_first_index_is(offers@, pickable(wanted@), o as int);
                lemma_claim_keeps(offers@, o as int, owner);
            }
            offers.claim(o, owner);
            demands.enqueue(d, offer_id);
            return Ok(());
        }
        o += 1;
    }
    proof {
        lemma_first_index_none(offers@, pickable(wanted@));
    }
    Err(MarketError::NoOfferAvailable)
}

} // verus!
