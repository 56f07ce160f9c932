//! Registering and cancelling demands.
//!
//! A node has at most one live demand. A new demand of a node that has one
//! already takes its place and inherits the offers that wait in its queue.

use crate::error::MarketError;
use crate::model::demand::base::{DemandCancellation, DemandSubscription};
use crate::ordered_map::{
    ascending, lemma_insert_ascending, lemma_lower_bound, lemma_position, lemma_remove_ascending,
    lower_bound, position,
};
use crate::scan::{lemma_first_index, lemma_first_index_is, lemma_first_index_none};
use crate::state::{demand_ids, one_per_node, owned_by, owner_index, DemandObj, DemandView, Demands};
use std::collections::VecDeque;
use vstd::prelude::*;

verus! {

/// The demands without the one that `node` owns.
pub open spec fn without_owner(s: Seq<DemandView>, node: Seq<u8>) -> Seq<DemandView> {
    match owner_index(s, node) {
        Some(i) => s.remove(i),
        None => s,
    }
}

/// The queue of the demand that `node` owns; empty where it owns none.
pub open spec fn queue_of_owner(s: Seq<DemandView>, node: Seq<u8>) -> Seq<Seq<char>> {
    match owner_index(s, node) {
        Some(i) => s[i].queue,
        None => Seq::empty(),
    }
}

/// The demands after `demand` is registered: unchanged where its
/// identifier is taken; else without the earlier demand of its owner, and
/// with the new one, which carries the queue of the earlier one.
pub open spec fn registered(s: Seq<DemandView>, demand: DemandSubscription) -> Seq<DemandView> {
    if position(demand_ids(s), demand.id@) is Some {
        s
    } else {
        let rest = without_owner(s, demand.node_id@);
        rest.insert(
            lower_bound(demand_ids(rest), demand.id@),
            DemandView { demand, queue: queue_of_owner(s, demand.node_id@) },
        )
    }
}

/// The demands after the one with the given identifier is cancelled.
pub open spec fn cancelled(s: Seq<DemandView>, id: Seq<char>) -> Seq<DemandView> {
    match position(demand_ids(s), id) {
        Some(i) => s.remove(i),
        None => s,
    }
}

/// After a demand with a new identifier is registered, its owner has
/// exactly one live demand: the new one, with the queue of the demand that
/// it replaced; an empty queue where it replaced none.
pub proof fn lemma_registered(s: Seq<DemandView>, demand: DemandSubscription)
    requires
        ascending(demand_ids(s)),
        one_per_node(s),
        position(demand_ids(s), demand.id@) is None,
    ensures
        one_per_node(registered(s, demand)),
        ascending(demand_ids(registered(s, demand))),
        owner_index(registered(s, demand), demand.node_id@) matches Some(j) && registered(
            s,
            demand,
        )[j] == (DemandView { demand, queue: queue_of_owner(s, demand.node_id@) }),
        forall|i: int, j: int|
            0 <= i < registered(s, demand).len() && 0 <= j < registered(s, demand).len() && (
            #[trigger] registered(s, demand)[i]).demand.node_id@ == demand.node_id@ && (
            #[trigger] registered(s, demand)[j]).demand.node_id@ == demand.node_id@ ==> i == j,
{
    let node = demand.node_id@;
    let rest = without_owner(s, node);
    let after = registered(s, demand);
    let entry = DemandView { demand, queue: queue_of_owner(s, node) };
    lemma_first_index(s, owned_by(node));
    lemma_position(demand_ids(s), demand.id@);
    match owner_index(s, node) {
        Some(i) => {
            lemma_remove_ascending(demand_ids(s), i);
            assert(demand_ids(rest) =~= demand_ids(s).remove(i));
            assert forall|a: int| 0 <= a < rest.len() implies (#[trigger] rest[a])
                == s[if a < i { a } else { a + 1 }] by {}
        },
        None => {},
    }
    assert forall|a: int| 0 <= a < rest.len() implies (#[trigger] rest[a]).demand.node_id@
        != node && rest[a].demand.id@ != demand.id@ by {
        match owner_index(s, node) {
            Some(i) => {
                let k = if a < i { a } else { a + 1 };
                assert(rest[a] == s[k]);
                assert(demand_ids(s)[k] == s[k].demand.id@);
            },
            None => {
                assert(demand_ids(s)[a] == s[a].demand.id@);
            },
        }
    }
    assert forall|a: int, b: int|
        0 <= a < rest.len() && 0 <= b < rest.len() && a != b implies (
    #[trigger] rest[a]).demand.node_id@ != (#[trigger] rest[b]).demand.node_id@ by {
        match owner_index(s, node) {
            Some(i) => {
                assert(rest[a] == s[if a < i { a } else { a + 1 }]);
                assert(rest[b] == s[if b < i { b } else { b + 1 }]);
            },
            None => {},
        }
    }
    lemma_position(demand_ids(rest), demand.id@);
    assert(position(demand_ids(rest), demand.id@) is None) by {
        if position(demand_ids(rest), demand.id@) is Some {
            let a = position(demand_ids(rest), demand.id@).unwrap();
            assert(rest[a].demand.id@ == demand.id@);
        }
    }
    lemma_lower_bound(demand_ids(rest), demand.id@);
    lemma_insert_ascending(demand_ids(rest), demand.id@);
    let p = lower_bound(demand_ids(rest), demand.id@);
    assert(after == rest.insert(p, entry));
    assert(demand_ids(after) =~= demand_ids(rest).insert(p, demand.id@));
    assert forall|a: int| 0 <= a < after.len() && a != p implies (#[trigger] after[a])
        == rest[if a < p { a } else { a - 1 }] by {}
    assert forall|a: int, b: int|
        0 <= a < after.len() && 0 <= b < after.len() && a != b implies (
    #[trigger] after[a]).demand.node_id@ != (#[trigger] after[b]).demand.node_id@ by {
        if a != p {
            assert(after[a] == rest[if a < p { a } else { a - 1 }]);
        }
        if b != p {
            assert(after[b] == rest[if b < p { b } else { b - 1 }]);
        }
    }
    assert forall|a: int| 0 <= a < p implies !owned_by(node)(#[trigger] after[a]) by {
        assert(after[a] == rest[a]);
    }
    lemma_first_index_is(after, owned_by(node), p);
}

/// Registers a demand. It is turned down where a live demand has the same
/// identifier. Else it replaces the live demand of its owner, if there is
/// one, and takes over that demand's queue.
pub fn demand_new(demands: &mut Demands, demand: DemandSubscription) -> (r: Result<
    (),
    MarketError,
>)
    requires
        old(demands).wf(),
    ensures
        final(demands).wf(),
        final(demands)@ == registered(old(demands)@, demand),
        r == if position(demand_ids(old(demands)@), demand.id@) is Some {
            Err::<(), MarketError>(MarketError::DemandExists)
        } else {
            Ok::<(), MarketError>(())
        },
{
    if demands.find(demand.id.as_str()).is_some() {
        return Err(MarketError::DemandExists);
    }
    let ghost before = demands@;
    proof {
        lemma_position(demand_ids(before), demand.id@);
        lemma_first_index(before, owned_by(demand.node_id@));
    }
    let offer_list = match demands.find_owner(&demand.node_id) {
        Some(i) => {
            let replaced = demands.remove_at(i);
            replaced.offer_list
        },
        None => VecDeque::new(),
    };
    let entry = DemandObj { demand, offer_list };
    proof {
        let rest = demands@;
        assert(rest == without_owner(before, demand.node_id@));
        assert(entry@.queue =~= queue_of_owner(before, demand.node_id@));
        lemma_position(demand_ids(rest), demand.id@);
        assert(position(demand_ids(rest), demand.id@) is None) by {
            if position(demand_ids(rest), demand.id@) is Some {
                let j = position(demand_ids(rest), demand.id@).unwrap();
                match owner_index(before, demand.node_id@) {
                    Some(i) => {
                        let k = if j < i { j } else { j + 1 };
                        assert(demand_ids(before)[k] == demand.id@);
                    },
                    None => {},
                }
            }
        }
        assert forall|j: int| 0 <= j < rest.len() implies !owned_by(demand.node_id@)(
            #[trigger] rest[j],
        ) by {
            match owner_index(before, demand.node_id@) {
                Some(i) => {
                    let k = if j < i { j } else { j + 1 };
                    assert(rest[j] == before[k]);
                },
                None => {},
            }
        }
        lemma_first_index_none(rest, owned_by(demand.node_id@));
    }
    demands.insert(entry);
    Ok(())
}

/// Cancels the demand that the cancellation names.
pub fn demand_cancel(demands: &mut Demands, cancellation: &DemandCancellation) -> (r: Result<
    (),
    MarketError,
>)
    requires
        old(demands).wf(),
    ensures
        final(demands).wf(),
        final(demands)@ == cancelled(old(demands)@, cancellation.demand_id@),
        r == if position(demand_ids(old(demands)@), cancellation.demand_id@) is Some {
            Ok::<(), MarketError>(())
        } else {
            Err::<(), MarketError>(MarketError::DemandNotFound)
        },
{
    match demands.find(cancellation.demand_id.as_str()) {
        Some(i) => {
            let _ = demands.remove_at(i);
            Ok(())
        },
        None => Err(MarketError::DemandNotFound),
    }
}

/// All live demands, in the order of their identifiers.
pub fn list_demands(demands: &Demands) -> (r: Vec<&DemandObj>)
    ensures
        r@.len() == demands@.len(),
        forall|i: int| 0 <= i < r@.len() ==> (#[trigger] r@[i])@ == demands@[i],
{
    let mut out: Vec<&DemandObj> = Vec::new();
    let n = demands.len();
    let mut i: usize = 0;
    while i < n
        invariant
            n == demands@.len(),
            i <= n,
            out@.len() == i,
            forall|j: int| 0 <= j < i ==> (#[trigger] out@[j])@ == demands@[j],
        decreases n - i,
    {
        out.push(demands.entry(i));
        i += 1;
    }
    out
}

} // verus!
