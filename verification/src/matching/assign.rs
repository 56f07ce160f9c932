//! Assigning the newest free offer to one demand.

use crate::demands::queue::PickOfferToDemand;
use crate::demands::resolve::{resolve, resolved};
use crate::error::MarketError;
use crate::node_id::{node_id_string, node_id_text};
use crate::state::{
    claimed, granted, lemma_claim_keeps, lemma_same_keeps, never_less, one_more, stored_kept,
    with_queued, AssignmentLedger, DemandView, Demands, OfferObj, Offers,
};
use crate::text::{contains_text, is_infix};
use crate::time::Timestamp;
use vstd::prelude::*;

verus! {

/// The text of an optional string slice.
pub open spec fn opt_text(s: Option<&str>) -> Option<Seq<char>> {
    match s {
        Some(t) => Some(t@),
        None => None,
    }
}

/// Whether an offer of the given name group may serve the partition. A
/// partition address that holds `127.0.0.1` is local and takes every offer;
/// another one takes the offers whose name group occurs in it. Without an
/// address nothing is asked of the name group.
pub open spec fn in_partition(name_group: Seq<char>, net: Option<Seq<char>>) -> bool {
    match net {
        None => true,
        Some(address) => is_infix("127.0.0.1"@, address) || is_infix(name_group, address),
    }
}

/// The offer can be assigned now: it has not expired, nobody has it, it
/// may serve the partition, and it was published before `now`.
pub open spec fn eligible(e: OfferObj, net: Option<Seq<char>>, now: Timestamp) -> bool {
    &&& !e.offer.expiration.before(now)
    &&& e.requestor_id is None
    &&& in_partition(e.attributes.name_group@, net)
    &&& e.offer.timestamp.before(now)
}

/// Among the first `n` offers, the eligible one that was published last;
/// of several published at that same time, the first.
pub open spec fn newest_among(
    s: Seq<OfferObj>,
    net: Option<Seq<char>>,
    now: Timestamp,
    n: int,
) -> Option<int>
    decreases n,
{
    if n <= 0 {
        None
    } else {
        let earlier = newest_among(s, net, now, n - 1);
        let e = s[n - 1];
        if eligible(e, net, now) && (earlier is None || s[earlier.unwrap()].offer.timestamp.before(
            e.offer.timestamp,
        )) {
            Some(n - 1)
        } else {
            earlier
        }
    }
}

/// The offer that a demand of the partition is given now, if there is one.
pub open spec fn newest_eligible(s: Seq<OfferObj>, net: Option<Seq<char>>, now: Timestamp) -> Option<
    int,
> {
    newest_among(s, net, now, s.len() as int)
}

/// The chosen offer is eligible, no eligible offer was published after it,
/// and every eligible offer that stands before it was published earlier.
/// None is chosen only where none is eligible.
pub proof fn lemma_newest_among(s: Seq<OfferObj>, net: Option<Seq<char>>, now: Timestamp, n: int)
    requires
        0 <= n <= s.len(),
    ensures
        match newest_among(s, net, now, n) {
            Some(b) => {
                &&& 0 <= b < n
                &&& eligible(s[b], net, now)
                &&& forall|j: int|
                    0 <= j < n && eligible(#[trigger] s[j], net, now)
                        ==> !s[b].offer.timestamp.before(s[j].offer.timestamp)
                &&& forall|j: int|
                    0 <= j < b && eligible(#[trigger] s[j], net, now)
                        ==> s[j].offer.timestamp.before(s[b].offer.timestamp)
            },
            None => forall|j: int| 0 <= j < n ==> !eligible(#[trigger] s[j], net, now),
        },
    decreases n,
{
    if n > 0 {
        lemma_newest_among(s, net, now, n - 1);
    }
}

/// What giving the newest eligible offer to the demand at `d` makes of the
/// stores, and whether an offer was given. Where no offer is eligible
/// nothing changes. Else the offer is assigned to the demand's owner, its
/// identifier joins the end of the demand's queue, and one more grant is
/// counted for the owner.
pub open spec fn offer_given(
    demands: (Seq<DemandView>, Seq<DemandView>),
    offers: (Seq<OfferObj>, Seq<OfferObj>),
    ledger: (Map<Seq<char>, u64>, Map<Seq<char>, u64>),
    d: int,
    net: Option<Seq<char>>,
    now: Timestamp,
    found: bool,
) -> bool {
    match newest_eligible(offers.0, net, now) {
        None => {
            &&& !found
            &&& demands.1 == demands.0
            &&& offers.1 == offers.0
            &&& ledger.1 == ledger.0
        },
        Some(b) => {
            let owner = demands.0[d].demand.node_id;
            let owner_text = node_id_text(owner@);
            &&& found
            &&& offers.1 == offers.0.update(b, claimed(offers.0[b], owner))
            &&& demands.1 == demands.0.update(d, with_queued(demands.0[d], offers.0[b].offer.id@))
            &&& ledger.1 == ledger.0.insert(owner_text, one_more(granted(ledger.0, owner_text)))
        },
    }
}

/// Tells whether an offer of the given name group may serve the partition.
pub fn serves_partition(name_group: &str, net: Option<&str>) -> (r: bool)
    ensures
        r == in_partition(name_group@, opt_text(net)),
{
    match net {
        None => true,
        Some(address) => contains_text(address, "127.0.0.1") || contains_text(address, name_group),
    }
}

/// Tells whether the offer can be assigned now.
pub fn is_eligible(e: &OfferObj, net: Option<&str>, now: Timestamp) -> (r: bool)
    ensures
        r == eligible(*e, opt_text(net), now),
{
    if e.offer.expiration.is_before(&now) {
        return false;
    }
    if e.requestor_id.is_some() {
        return false;
    }
    if !serves_partition(e.attributes.name_group.as_str(), net) {
        return false;
    }
    e.offer.timestamp.is_before(&now)
}

/// Finds the offer that a demand of the partition is given now.
pub fn find_newest(offers: &Offers, net: Option<&str>, now: Timestamp) -> (r: Option<usize>)
    ensures
        match r {
            Some(b) => newest_eligible(offers@, opt_text(net), now) == Some(b as int) && b
                < offers@.len(),
            None => newest_eligible(offers@, opt_text(net), now) is None,
        },
{
    let n = offers.len();
    let mut best: Option<usize> = None;
    let mut i: usize = 0;
    while i < n
        invariant
            n == offers@.len(),
            i <= n,
            match best {
                Some(b) => newest_among(offers@, opt_text(net), now, i as int) == Some(b as int)
                    && b < i,
                None => newest_among(offers@, opt_text(net), now, i as int) is None,
            },
        decreases n - i,
    {
        let e = offers.entry(i);
        if is_eligible(e, net, now) {
            let newer = match best {
                Some(b) => offers.entry(b).offer.timestamp.is_before(&e.offer.timestamp),
                None => true,
            };
            if newer {
                best = Some(i);
            }
        }
        i += 1;
    }
    best
}

/// Gives the demand that the request names the newest offer that is
/// eligible in the partition `central_net_filter`, if there is one: the
/// offer is assigned to the demand's owner, its identifier is appended to
/// the demand's queue, and one more grant is counted for the owner. The
/// result tells whether an offer was given.
pub fn local_pick_offer_to_demand(
    demands: &mut Demands,
    offers: &mut Offers,
    ledger: &mut AssignmentLedger,
    pick_offer_to_demand: &PickOfferToDemand,
    central_net_filter: Option<&str>,
    now: Timestamp,
) -> (r: Result<bool, MarketError>)
    requires
        old(demands).wf(),
        old(offers).wf(),
        old(ledger).wf(),
    ensures
        final(demands).wf(),
        final(offers).wf(),
        final(ledger).wf(),
        stored_kept(old(offers)@, final(offers)@),
        never_less(old(ledger)@, final(ledger)@),
        match resolved(old(demands)@, pick_offer_to_demand.demand_id@) {
            Err(e) => {
                &&& r == Err::<bool, MarketError>(e)
                &&& final(demands)@ == old(demands)@
                &&& final(offers)@ == old(offers)@
                &&& final(ledger)@ == old(ledger)@
            },
            Ok(d) => {
                &&& r is Ok
                &&& offer_given(
                    (old(demands)@, final(demands)@),
                    (old(offers)@, final(offers)@),
                    (old(ledger)@, final(ledger)@),
                    d,
                    opt_text(central_net_filter),
                    now,
                    r.unwrap(),
                )
            },
        },
{
    proof {
        lemma_same_keeps(offers@);
    }
    let d = match resolve(demands, pick_offer_to_demand.demand_id.as_str()) {
        Ok(d) => d,
        Err(e) => {
            return Err(e);
        },
    };
    let b = match find_newest(offers, central_net_filter, now) {
        Some(b) => b,
        None => {
            return Ok(false);
        },
    };
    let owner = demands.entry(d).demand.node_id;
    let offer_id = offers.entry(b).offer.id.clone();
    proof {
        lemma_newest_among(offers@, opt_text(central_net_filter), now, offers@.len() as int);
        lemma_claim_keeps(offers@, b as int, owner);
    }
    offers.claim(b, owner);
    demands.enqueue(d, offer_id);
    ledger.record(node_id_string(&owner));
    Ok(true)
}

} // verus!
