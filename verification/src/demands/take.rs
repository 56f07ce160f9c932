//! Handing the offers that wait in a demand's queue to the demand's owner.
//!
//! The queue is drained from its head. Each identifier is looked up among
//! the stored offers, and the offer is handed out in its outward form. An
//! identifier whose offer is gone ends the drain: it leaves the queue, and
//! what stands behind it stays for a later call.

use crate::demands::resolve::{resolve, resolved};
use crate::error::MarketError;
use crate::json::{flat, flatten, leaves, JsonValue};
use crate::model::offer::base::GolemBaseOffer;
use crate::model::offer::document::properties_json;
use crate::node_id::NodeId;
use crate::ordered_map::{position, OrderedMap};
use crate::state::{offer_ids, DemandView, Demands, OfferObj, Offers};
use crate::time::Timestamp;
use vstd::prelude::*;

verus! {

/// The number of offers that a drain hands out where the request names no
/// limit.
pub const DEFAULT_LIMIT_SIZE: usize = 50;

/// Asks for offers from the queue of a demand.
#[derive(Clone, Debug, PartialEq)]
pub struct TakeOfferFromQueue {
    pub demand_id: String,
    /// The greatest number of offers to hand out.
    pub limit_size: Option<usize>,
}

/// An offer in its outward form.
#[derive(Clone, Debug)]
pub struct ModelOffer {
    pub id: String,
    /// The offer's properties, flattened: each leaf of the property
    /// document under its dotted path.
    pub properties: OrderedMap<JsonValue>,
    pub constraints: String,
    /// The provider of the offer.
    pub node_id: NodeId,
    /// Whether the one who asks owns the offer; never known here.
    pub owned: Option<bool>,
    /// When the provider published the offer.
    pub creation_ts: Timestamp,
    /// When the offer was added to a database; never known here.
    pub insertion_ts: Option<Timestamp>,
    /// When the offer expires.
    pub expiration_ts: Timestamp,
}

/// `m` is the outward form of `offer`.
pub open spec fn is_model_of(m: ModelOffer, offer: GolemBaseOffer) -> bool {
    &&& m.id@ == offer.id@
    &&& m.properties.wf()
    &&& leaves(m.properties) == flat(properties_json(offer.properties))
    &&& m.constraints@ == offer.constraints@
    &&& m.node_id == offer.provider_id
    &&& m.owned is None
    &&& m.creation_ts == offer.timestamp
    &&& m.insertion_ts is None
    &&& m.expiration_ts == offer.expiration
}

/// The limit that a request sets.
pub open spec fn limit_of(request: TakeOfferFromQueue) -> nat {
    match request.limit_size {
        Some(n) => n as nat,
        None => DEFAULT_LIMIT_SIZE as nat,
    }
}

/// The number of identifiers at the head of the queue, `limit` at most,
/// whose offers are all stored.
pub open spec fn deliverable(queue: Seq<Seq<char>>, offers: Seq<OfferObj>, limit: nat) -> nat
    decreases queue.len(),
{
    if limit == 0 || queue.len() == 0 || position(offer_ids(offers), queue[0]) is None {
        0
    } else {
        1 + deliverable(queue.drop_first(), offers, (limit - 1) as nat)
    }
}

/// The number of identifiers that leave the queue: those whose offers are
/// handed out and, where the drain ends at an identifier whose offer is
/// gone, that identifier.
pub open spec fn consumed(queue: Seq<Seq<char>>, offers: Seq<OfferObj>, limit: nat) -> nat {
    let handed = deliverable(queue, offers, limit);
    if handed < limit && handed < queue.len() {
        handed + 1
    } else {
        handed
    }
}

/// The demand with the first `n` identifiers gone from its queue.
pub open spec fn drained(d: DemandView, n: nat) -> DemandView {
    DemandView { queue: d.queue.skip(n as int), ..d }
}

/// The identifiers that are handed out are a prefix of the queue, and the
/// offer of each is stored.
pub proof fn lemma_deliverable(queue: Seq<Seq<char>>, offers: Seq<OfferObj>, limit: nat)
    ensures
        deliverable(queue, offers, limit) <= limit,
        deliverable(queue, offers, limit) <= queue.len(),
        forall|i: int|
            0 <= i < deliverable(queue, offers, limit) ==> position(
                offer_ids(offers),
                #[trigger] queue[i],
            ) is Some,
        deliverable(queue, offers, limit) < limit && deliverable(queue, offers, limit)
            < queue.len() ==> position(
            offer_ids(offers),
            queue[deliverable(queue, offers, limit) as int],
        ) is None,
    decreases queue.len(),
{
    if !(limit == 0 || queue.len() == 0 || position(offer_ids(offers), queue[0]) is None) {
        let rest = queue.drop_first();
        lemma_deliverable(rest, offers, (limit - 1) as nat);
        assert forall|i: int| 0 <= i < deliverable(queue, offers, limit) implies position(
            offer_ids(offers),
            #[trigger] queue[i],
        ) is Some by {
            if i > 0 {
                assert(queue[i] == rest[i - 1]);
            }
        }
    }
}

/// What is handed out from a queue is what is handed out from its first
/// `n` identifiers, where their offers are stored, and from the rest.
pub proof fn lemma_deliverable_split(
    queue: Seq<Seq<char>>,
    offers: Seq<OfferObj>,
    limit: nat,
    n: nat,
)
    requires
        n <= limit,
        n <= queue.len(),
        forall|i: int| 0 <= i < n ==> position(offer_ids(offers), #[trigger] queue[i]) is Some,
    ensures
        deliverable(queue, offers, limit) == n + deliverable(
            queue.skip(n as int),
            offers,
            (limit - n) as nat,
        ),
    decreases n,
{
    if n == 0 {
        assert(queue.skip(0) =~= queue);
    } else {
        let rest = queue.drop_first();
        assert forall|i: int| 0 <= i < n - 1 implies position(
            offer_ids(offers),
            #[trigger] rest[i],
        ) is Some by {
            assert(rest[i] == queue[i + 1]);
        }
        lemma_deliverable_split(rest, offers, (limit - 1) as nat, (n - 1) as nat);
        assert(rest.skip(n - 1) =~= queue.skip(n as int));
    }
}

/// The outward form of an offer.
pub fn model_offer(offer: &GolemBaseOffer) -> (r: ModelOffer)
    ensures
        is_model_of(r, *offer),
{
    ModelOffer {
        id: offer.id.clone(),
        properties: flatten(offer.properties.to_json()),
        constraints: offer.constraints.clone(),
        node_id: offer.provider_id,
        owned: None,
        creation_ts: offer.timestamp,
        insertion_ts: None,
        expiration_ts: offer.expiration,
    }
}

/// Drains the queue of the demand that the request names and hands out the
/// offers in their outward form, in the order of the queue, up to the
/// limit of the request.
pub fn take_offer_from_queue(
    demands: &mut Demands,
    offers: &Offers,
    request: &TakeOfferFromQueue,
) -> (r: Result<Vec<ModelOffer>, MarketError>)
    requires
        old(demands).wf(),
        offers.wf(),
    ensures
        final(demands).wf(),
        match resolved(old(demands)@, request.demand_id@) {
            Err(e) => r == Err::<Vec<ModelOffer>, MarketError>(e) && final(demands)@ == old(
                demands,
            )@,
            Ok(d) => {
                let queue = old(demands)@[d].queue;
                let limit = limit_of(*request);
                &&& r is Ok
                &&& r.unwrap()@.len() == deliverable(queue, offers@, limit)
                &&& forall|i: int|
                    0 <= i < r.unwrap()@.len() ==> is_model_of(
                        #[trigger] r.unwrap()@[i],
                        offers@[position(offer_ids(offers@), queue[i]).unwrap()].offer,
                    )
                &&& final(demands)@ == old(demands)@.update(
                    d,
                    drained(old(demands)@[d], consumed(queue, offers@, limit)),
                )
            },
        },
{
    let d = match resolve(demands, request.demand_id.as_str()) {
        Ok(d) => d,
        Err(e) => {
            return Err(e);
        },
    };
    let limit = match request.limit_size {
        Some(n) => n,
        None => DEFAULT_LIMIT_SIZE,
    };
    let ghost before = demands@;
    let ghost queue = before[d as int].queue;
    let ghost mut gone: nat = 0;
    let mut resp: Vec<ModelOffer> = Vec::new();
    let mut stopped = false;
    proof {
        assert(queue.skip(0) =~= queue);
        assert(before =~= before.update(d as int, drained(before[d as int], 0)));
        lemma_deliverable(queue, offers@, limit as nat);
    }
    while !stopped && resp.len() < limit
        invariant
            demands.wf(),
            offers.wf(),
            d < before.len(),
            queue == before[d as int].queue,
            gone <= queue.len(),
            resp@.len() <= limit,
            resp@.len() <= queue.len(),
            demands@ == before.update(d as int, drained(before[d as int], gone)),
            forall|i: int|
                0 <= i < resp@.len() ==> position(offer_ids(offers@), #[trigger] queue[i]) is Some,
            forall|i: int|
                0 <= i < resp@.len() ==> is_model_of(
                    #[trigger] resp@[i],
                    offers@[position(offer_ids(offers@), queue[i]).unwrap()].offer,
                ),
            !stopped ==> gone == resp@.len(),
            stopped ==> resp@.len() == deliverable(queue, offers@, limit as nat) && gone
                == consumed(queue, offers@, limit as nat),
        decreases (if stopped { 0int } else { 1int }), limit - resp@.len(),
    {
        let ghost current = demands@;
        proof {
            lemma_deliverable_split(queue, offers@, limit as nat, gone);
        }
        match demands.dequeue(d) {
            Some(offer_id) => {
                proof {
                    assert(queue.skip(gone as int).drop_first() =~= queue.skip(gone as int + 1));
                    assert(demands@ =~= before.update(
                        d as int,
                        drained(before[d as int], gone + 1),
                    ));
                    assert(offer_id@ == queue[gone as int]);
                }
                match offers.get(offer_id.as_str()) {
                    Some(offer) => {
                        resp.push(model_offer(&offer.offer));
                        proof {
                            gone = gone + 1;
                        }
                    },
                    None => {
                        proof {
                            gone = gone + 1;
                        }
                        stopped = true;
                    },
                }
            },
            None => {
                proof {
                    assert(queue.skip(gone as int).len() == 0);
                }
                stopped = true;
            },
        }
    }
    proof {
        if !stopped {
            lemma_deliverable_split(queue, offers@, limit as nat, gone);
        }
    }
    Ok(resp)
}

} // verus!
