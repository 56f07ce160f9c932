//! One tick of the scheduler.
//!
//! The partitions are the central network addresses that the live demands
//! declare. A tick counter walks through them in ascending order, one
//! partition for each tick. In the partition of the tick, the demand whose
//! owner has been granted the fewest offers is served; of several with the
//! same count, the one that stands first in the order of identifiers.

use crate::demands::queue::PickOfferToDemand;
use crate::matching::assign::{local_pick_offer_to_demand, offer_given};
use crate::node_id::{node_id_string, node_id_text};
use crate::ordered_map::{
    ascending, lemma_insert_ascending, lemma_lower_bound, lemma_position, lower_bound, position,
    OrderedMap,
};
use crate::state::{
    demand_ids, granted, lemma_same_keeps, never_less, stored_kept, AssignmentLedger, DemandView,
    Demands, Offers,
};
use crate::text::{lemma_text_lt_asymmetric, text_eq};
use crate::time::Timestamp;
use vstd::prelude::*;

verus! {

/// The state of the scheduler: the number of ticks made so far, by which
/// the partition of the next tick is chosen.
#[derive(Clone, Copy, Debug, PartialEq, Eq, Structural)]
pub struct MatchingScheduler {
    pub last_central_net: u64,
}

/// What a tick did.
#[derive(Clone, Debug, PartialEq)]
pub enum Tick {
    /// No live demand declares an address: nothing was done.
    NoPartition,
    /// The partition `net` was served. `demand_id` names its least served
    /// demand, `given` is the number of offers its owner had been granted
    /// before, and `found` tells whether it was given one more now.
    Served { net: String, demand_id: String, given: u64, found: bool },
}

/// The address by which a demand takes part in matching: the one it
/// declares, unless that is empty.
pub open spec fn declared_address(d: DemandView) -> Option<Seq<char>> {
    match d.demand.central_net_address {
        Some(a) => if a@.len() > 0 {
            Some(a@)
        } else {
            None
        },
        None => None,
    }
}

/// Ascending addresses with `a` among them.
pub open spec fn with_address(nets: Seq<Seq<char>>, a: Seq<char>) -> Seq<Seq<char>> {
    if position(nets, a) is Some {
        nets
    } else {
        nets.insert(lower_bound(nets, a), a)
    }
}

/// The addresses that the first `n` demands declare, each once, ascending.
pub open spec fn addresses_among(s: Seq<DemandView>, n: int) -> Seq<Seq<char>>
    decreases n,
{
    if n <= 0 {
        Seq::empty()
    } else {
        let nets = addresses_among(s, n - 1);
        match declared_address(s[n - 1]) {
            Some(a) => with_address(nets, a),
            None => nets,
        }
    }
}

/// The partitions: the addresses that the demands declare, each once,
/// ascending.
pub open spec fn partition_addresses(s: Seq<DemandView>) -> Seq<Seq<char>> {
    addresses_among(s, s.len() as int)
}

/// The demand belongs to the partition `net`.
pub open spec fn in_net(d: DemandView, net: Seq<char>) -> bool {
    match d.demand.central_net_address {
        Some(a) => a@ == net,
        None => false,
    }
}

/// The number of offers granted so far to the owner of the demand.
pub open spec fn grants_of(d: DemandView, ledger: Map<Seq<char>, u64>) -> u64 {
    granted(ledger, node_id_text(d.demand.node_id@))
}

/// Among the first `n` demands, the one of the partition whose owner has
/// the fewest grants; of several with that count, the first.
pub open spec fn least_served_among(
    s: Seq<DemandView>,
    net: Seq<char>,
    ledger: Map<Seq<char>, u64>,
    n: int,
) -> Option<int>
    decreases n,
{
    if n <= 0 {
        None
    } else {
        let earlier = least_served_among(s, net, ledger, n - 1);
        let d = s[n - 1];
        if in_net(d, net) && (earlier is None || grants_of(d, ledger) < grants_of(
            s[earlier.unwrap()],
            ledger,
        )) {
            Some(n - 1)
        } else {
            earlier
        }
    }
}

/// The demand that a tick serves in the partition `net`.
pub open spec fn least_served(s: Seq<DemandView>, net: Seq<char>, ledger: Map<Seq<char>, u64>) -> Option<
    int,
> {
    least_served_among(s, net, ledger, s.len() as int)
}

/// The tick counter after one more tick; it starts over after its last
/// value.
pub open spec fn next_tick(ticks: u64) -> u64 {
    if ticks == u64::MAX {
        0
    } else {
        (ticks + 1) as u64
    }
}

/// The partition that the tick with the given count serves.
pub open spec fn partition_of_tick(nets: Seq<Seq<char>>, ticks: u64) -> Seq<char>
    recommends
        nets.len() > 0,
{
    nets[ticks as int % nets.len() as int]
}

/// The partitions are ascending, and they are the addresses that some
/// demand declares.
pub proof fn lemma_addresses_among(s: Seq<DemandView>, n: int)
    requires
        0 <= n <= s.len(),
    ensures
        ascending(addresses_among(s, n)),
        forall|a: Seq<char>|
            addresses_among(s, n).contains(a) <==> exists|i: int|
                0 <= i < n && declared_address(#[trigger] s[i]) == Some(a),
    decreases n,
{
    if n > 0 {
        lemma_addresses_among(s, n - 1);
        let nets = addresses_among(s, n - 1);
        let after = addresses_among(s, n);
        match declared_address(s[n - 1]) {
            Some(new) => {
                lemma_position(nets, new);
                lemma_lower_bound(nets, new);
                if position(nets, new) is None {
                    lemma_insert_ascending(nets, new);
                    let p = lower_bound(nets, new);
                    assert(after[p] == new);
                    assert forall|a: Seq<char>| after.contains(a) <==> (nets.contains(a) || a
                        == new) by {
                        if after.contains(a) {
                            let k = choose|k: int| 0 <= k < after.len() && after[k] == a;
                            if k != p {
                                let j = if k < p { k } else { k - 1 };
                                assert(nets[j] == a);
                            }
                        }
                        if nets.contains(a) {
                            let j = choose|j: int| 0 <= j < nets.len() && nets[j] == a;
                            let k = if j < p { j } else { j + 1 };
                            assert(after[k] == a);
                        }
                    }
                } else {
                    assert(nets.contains(new));
                }
                assert forall|a: Seq<char>| after.contains(a) <==> exists|i: int|
                    0 <= i < n && declared_address(#[trigger] s[i]) == Some(a) by {
                    if after.contains(a) {
                        if a == new {
                            assert(declared_address(s[n - 1]) == Some(a));
                        } else {
                            assert(nets.contains(a));
                        }
                    }
                    if exists|i: int| 0 <= i < n && declared_address(#[trigger] s[i]) == Some(a) {
                        let i = choose|i: int|
                            0 <= i < n && declared_address(#[trigger] s[i]) == Some(a);
                        if i < n - 1 {
                            assert(nets.contains(a));
                        }
                    }
                }
            },
            None => {
                assert forall|a: Seq<char>| after.contains(a) <==> exists|i: int|
                    0 <= i < n && declared_address(#[trigger] s[i]) == Some(a) by {
                    if exists|i: int| 0 <= i < n && declared_address(#[trigger] s[i]) == Some(a) {
                        let i = choose|i: int|
                            0 <= i < n && declared_address(#[trigger] s[i]) == Some(a);
                        assert(i < n - 1);
                    }
                }
            },
        }
    }
}

/// The demand that is served belongs to the partition; no demand of the
/// partition has fewer grants, and every one that stands before it has
/// more. None is served only where the partition holds no demand.
pub proof fn lemma_least_served_among(
    s: Seq<DemandView>,
    net: Seq<char>,
    ledger: Map<Seq<char>, u64>,
    n: int,
)
    requires
        0 <= n <= s.len(),
    ensures
        match least_served_among(s, net, ledger, n) {
            Some(b) => {
                &&& 0 <= b < n
                &&& in_net(s[b], net)
                &&& forall|j: int|
                    0 <= j < n && in_net(#[trigger] s[j], net) ==> grants_of(s[b], ledger)
                        <= grants_of(s[j], ledger)
                &&& forall|j: int|
                    0 <= j < b && in_net(#[trigger] s[j], net) ==> grants_of(s[b], ledger)
                        < grants_of(s[j], ledger)
            },
            None => forall|j: int| 0 <= j < n ==> !in_net(#[trigger] s[j], net),
        },
    decreases n,
{
    if n > 0 {
        lemma_least_served_among(s, net, ledger, n - 1);
    }
}

/// As long as the tick counter does not start over, the partition of the
/// next tick is the one that follows the partition of this tick, and the
/// first one follows the last. With two partitions the ticks alternate
/// between them.
pub proof fn lemma_rotation(nets: Seq<Seq<char>>, ticks: u64)
    requires
        nets.len() > 0,
        ticks < u64::MAX,
    ensures
        partition_of_tick(nets, next_tick(ticks)) == nets[(ticks as int % nets.len() as int + 1)
            % nets.len() as int],
        nets.len() == 2 && ascending(nets) ==> partition_of_tick(nets, next_tick(ticks))
            != partition_of_tick(nets, ticks),
{
    let n = nets.len() as int;
    let t = ticks as int;
    assert((t + 1) % n == (t % n + 1) % n) by (nonlinear_arith)
        requires
            n > 0,
            t >= 0,
    ;
    if n == 2 && ascending(nets) {
        let a = t % 2;
        let b = (t + 1) % 2;
        assert(a != b);
        if a < b {
            lemma_text_lt_asymmetric(nets[a], nets[b]);
        } else {
            lemma_text_lt_asymmetric(nets[b], nets[a]);
        }
    }
}

/// The texts of a run of strings.
pub open spec fn texts(v: Seq<String>) -> Seq<Seq<char>> {
    Seq::new(v.len(), |i: int| v[i]@)
}

/// The partitions of the live demands.
pub fn central_nets(demands: &Demands) -> (r: Vec<String>)
    ensures
        texts(r@) == partition_addresses(demands@),
{
    let mut nets: OrderedMap<bool> = OrderedMap::new();
    let n = demands.len();
    let mut i: usize = 0;
    while i < n
        invariant
            n == demands@.len(),
            i <= n,
            nets.wf(),
            nets.keys() == addresses_among(demands@, i as int),
        decreases n - i,
    {
        match &demands.entry(i).demand.central_net_address {
            Some(address) => {
                if address.as_str().unicode_len() > 0 {
                    let _ = nets.insert(address.clone(), true);
                }
            },
            None => {},
        }
        i += 1;
    }
    let mut out: Vec<String> = Vec::new();
    let m = nets.len();
    let mut k: usize = 0;
    while k < m
        invariant
            m == nets.keys().len(),
            k <= m,
            out@.len() == k,
            forall|j: int| 0 <= j < k ==> (#[trigger] out@[j])@ == nets.keys()[j],
        decreases m - k,
    {
        out.push(nets.key_at(k).clone());
        k += 1;
    }
    proof {
        assert(texts(out@) =~= nets.keys());
    }
    out
}

/// Finds the demand that a tick serves in the partition `net`.
pub fn find_least_served(demands: &Demands, ledger: &AssignmentLedger, net: &str) -> (r: Option<
    (usize, u64),
>)
    requires
        ledger.wf(),
    ensures
        match r {
            Some((b, given)) => {
                &&& least_served(demands@, net@, ledger@) == Some(b as int)
                &&& b < demands@.len()
                &&& given == grants_of(demands@[b as int], ledger@)
            },
            None => least_served(demands@, net@, ledger@) is None,
        },
{
    let n = demands.len();
    let mut best: Option<(usize, u64)> = None;
    let mut i: usize = 0;
    while i < n
        invariant
            n == demands@.len(),
            i <= n,
            ledger.wf(),
            match best {
                Some((b, given)) => {
                    &&& least_served_among(demands@, net@, ledger@, i as int) == Some(b as int)
                    &&& b < i
                    &&& given == grants_of(demands@[b as int], ledger@)
                },
                None => least_served_among(demands@, net@, ledger@, i as int) is None,
            },
        decreases n - i,
    {
        let entry = demands.entry(i);
        let member = match &entry.demand.central_net_address {
            Some(address) => text_eq(address.as_str(), net),
            None => false,
        };
        if member {
            let count = ledger.count(node_id_string(&entry.demand.node_id).as_str());
            let fewer = match best {
                Some((_, given)) => count < given,
                None => true,
            };
            if fewer {
                best = Some((i, count));
            }
        }
        i += 1;
    }
    best
}

impl MatchingScheduler {
    /// A scheduler that has made no tick yet.
    pub fn new() -> (r: MatchingScheduler)
        ensures
            r.last_central_net == 0,
    {
        MatchingScheduler { last_central_net: 0 }
    }

    /// Counts one more tick and gives the count as it was before.
    pub fn advance(&mut self) -> (ticks: u64)
        ensures
            ticks == old(self).last_central_net,
            final(self).last_central_net == next_tick(old(self).last_central_net),
    {
        let ticks = self.last_central_net;
        self.last_central_net = if ticks == u64::MAX {
            0
        } else {
            ticks + 1
        };
        ticks
    }
}

/// Makes one tick. The tick is counted in any case. Where no demand
/// declares an address nothing else is done. Else the partition of the tick
/// is served: its least served demand is given the newest offer that is
/// eligible in the partition, if there is one.
pub fn pick_offers_for_all_demands(
    demands: &mut Demands,
    offers: &mut Offers,
    ledger: &mut AssignmentLedger,
    scheduler: &mut MatchingScheduler,
    now: Timestamp,
) -> (r: Tick)
    requires
        old(demands).wf(),
        old(offers).wf(),
        old(ledger).wf(),
    ensures
        final(demands).wf(),
        final(offers).wf(),
        final(ledger).wf(),
        stored_kept(old(offers)@, final(offers)@),
        never_less(old(ledger)@, final(ledger)@),
        final(scheduler).last_central_net == next_tick(old(scheduler).last_central_net),
        ({
            let nets = partition_addresses(old(demands)@);
            if nets.len() == 0 {
                &&& r is NoPartition
                &&& final(demands)@ == old(demands)@
                &&& final(offers)@ == old(offers)@
                &&& final(ledger)@ == old(ledger)@
            } else {
                let address = partition_of_tick(nets, old(scheduler).last_central_net);
                let served = least_served(old(demands)@, address, old(ledger)@);
                &&& served is Some
                &&& r matches Tick::Served { net, demand_id, given, found }
                &&& net@ == address
                &&& demand_id@ == old(demands)@[served.unwrap()].demand.id@
                &&& given == grants_of(old(demands)@[served.unwrap()], old(ledger)@)
                &&& offer_given(
                    (old(demands)@, final(demands)@),
                    (old(offers)@, final(offers)@),
                    (old(ledger)@, final(ledger)@),
                    served.unwrap(),
                    Some(address),
                    now,
                    found,
                )
            }
        }),
{
    proof {
        lemma_same_keeps(offers@);
    }
    let nets = central_nets(demands);
    let ticks = scheduler.advance();
    if nets.len() == 0 {
        return Tick::NoPartition;
    }
    let index = (ticks % (nets.len() as u64)) as usize;
    let net = nets[index].clone();
    proof {
        lemma_addresses_among(demands@, demands@.len() as int);
        lemma_least_served_among(demands@, net@, ledger@, demands@.len() as int);
        assert(texts(nets@)[index as int] == net@);
        assert(partition_addresses(demands@).contains(net@));
    }
    match find_least_served(demands, ledger, net.as_str()) {
        Some((d, given)) => {
            let request = PickOfferToDemand { demand_id: demands.entry(d).demand.id.clone() };
            proof {
                lemma_position(demand_ids(demands@), request.demand_id@);
                assert(demand_ids(demands@)[d as int] == request.demand_id@);
            }
            let found = match local_pick_offer_to_demand(
                demands,
                offers,
                ledger,
                &request,
                Some(net.as_str()),
                now,
            ) {
                Ok(found) => found,
                Err(_) => false,
            };
            Tick::Served { net, demand_id: request.demand_id, given, found }
        },
        None => Tick::NoPartition,
    }
}

} // verus!
