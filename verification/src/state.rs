//! The three stores of the market: offers, demands, and the ledger of
//! offers granted to each requestor.
//!
//! Offers and demands are kept in ascending order of their identifiers.
//! An operation that touches more than one store takes them in the order
//! demands, offers, ledger.

use crate::model::demand::base::DemandSubscription;
use crate::model::offer::attributes::OfferFlatAttributes;
use crate::model::offer::base::GolemBaseOffer;
use crate::node_id::NodeId;
use crate::ordered_map::{
    ascending, lemma_ascending_distinct, lemma_lower_bound, lemma_map_of_insert,
    lemma_map_of_update, lemma_position, lemma_remove_ascending, lower_bound, map_of, position,
    OrderedMap,
};
use crate::scan::{first_index, lemma_first_index, lemma_first_index_is, lemma_first_index_none};
use crate::text::text_eq;
use crate::time::Timestamp;
use std::collections::VecDeque;
use vstd::prelude::*;

verus! {

/// A demand and the offers assigned to it that its owner has not taken yet,
/// oldest first.
#[derive(Clone, Debug)]
pub struct DemandObj {
    pub demand: DemandSubscription,
    pub offer_list: VecDeque<String>,
}

/// A stored offer.
#[derive(Clone, Debug)]
pub struct OfferObj {
    pub offer: GolemBaseOffer,
    /// When the offer entered the store.
    pub pushed_at: Timestamp,
    /// The requestor that the offer is assigned to, once it is.
    pub requestor_id: Option<NodeId>,
    pub attributes: OfferFlatAttributes,
}

/// The identifiers of a run of offers.
pub open spec fn offer_ids(s: Seq<OfferObj>) -> Seq<Seq<char>> {
    Seq::new(s.len(), |i: int| s[i].offer.id@)
}

/// The offer as it is once `requestor` has claimed it.
pub open spec fn claimed(e: OfferObj, requestor: NodeId) -> OfferObj {
    OfferObj { requestor_id: Some(requestor), ..e }
}

/// What is stored is kept: an offer of `before` that `after` still holds
/// is there the same offer, with the same time of its push and the same
/// attributes; and where it was assigned in `before`, it is assigned in
/// `after` to the same requestor.
pub open spec fn stored_kept(before: Seq<OfferObj>, after: Seq<OfferObj>) -> bool {
    forall|i: int, j: int|
        0 <= i < before.len() && 0 <= j < after.len() && (#[trigger] before[i]).offer.id@ == (
        #[trigger] after[j]).offer.id@ ==> still(before[i], after[j])
}

/// The later entry is the earlier one, but for an assignment that it may
/// have got since.
pub open spec fn still(earlier: OfferObj, later: OfferObj) -> bool {
    &&& later.offer == earlier.offer
    &&& later.pushed_at == earlier.pushed_at
    &&& later.attributes == earlier.attributes
    &&& earlier.requestor_id is Some ==> later.requestor_id == earlier.requestor_id
}

/// What a state keeps of an earlier one, a later state that keeps the
/// first also keeps of the earlier one, as long as no identifier comes
/// back after its offer was removed: once an offer is assigned it stays
/// assigned to the same requestor until it leaves the store.
pub proof fn lemma_stored_kept_transitive(
    a: Seq<OfferObj>,
    b: Seq<OfferObj>,
    c: Seq<OfferObj>,
)
    requires
        stored_kept(a, b),
        stored_kept(b, c),
        forall|i: int, k: int|
            0 <= i < a.len() && 0 <= k < c.len() && (#[trigger] a[i]).offer.id@ == (
            #[trigger] c[k]).offer.id@ ==> exists|j: int|
                0 <= j < b.len() && (#[trigger] b[j]).offer.id@ == a[i].offer.id@,
    ensures
        stored_kept(a, c),
{
    assert forall|i: int, k: int|
        0 <= i < a.len() && 0 <= k < c.len() && (#[trigger] a[i]).offer.id@ == (
        #[trigger] c[k]).offer.id@ implies still(a[i], c[k]) by {
        let j = choose|j: int| 0 <= j < b.len() && (#[trigger] b[j]).offer.id@ == a[i].offer.id@;
        assert(still(a[i], b[j]));
        assert(still(b[j], c[k]));
    }
}

/// A state keeps what it stores, as its identifiers are distinct.
pub proof fn lemma_same_keeps(s: Seq<OfferObj>)
    requires
        ascending(offer_ids(s)),
    ensures
        stored_kept(s, s),
{
    assert forall|i: int, j: int|
        0 <= i < s.len() && 0 <= j < s.len() && (#[trigger] s[i]).offer.id@ == (
        #[trigger] s[j]).offer.id@ implies still(s[i], s[j]) by {
        assert(offer_ids(s)[i] == offer_ids(s)[j]);
        lemma_ascending_distinct(offer_ids(s), i, j);
    }
}

/// Storing an offer whose identifier is new keeps what was stored.
pub proof fn lemma_insert_keeps(s: Seq<OfferObj>, e: OfferObj)
    requires
        ascending(offer_ids(s)),
    ensures
        stored_kept(s, s),
        position(offer_ids(s), e.offer.id@) is None ==> stored_kept(
            s,
            s.insert(lower_bound(offer_ids(s), e.offer.id@), e),
        ),
{
    lemma_same_keeps(s);
    if position(offer_ids(s), e.offer.id@) is None {
        lemma_lower_bound(offer_ids(s), e.offer.id@);
        lemma_position(offer_ids(s), e.offer.id@);
        let p = lower_bound(offer_ids(s), e.offer.id@);
        let after = s.insert(p, e);
        assert forall|i: int, j: int|
            0 <= i < s.len() && 0 <= j < after.len() && (#[trigger] s[i]).offer.id@ == (
        #[trigger] after[j]).offer.id@ implies still(s[i], after[j]) by {
            if j == p {
                assert(offer_ids(s)[i] == e.offer.id@);
            } else {
                let k = if j < p { j } else { j - 1 };
                assert(after[j] == s[k]);
            }
        }
    }
}

/// Assigning an offer that nobody has keeps what was stored.
pub proof fn lemma_claim_keeps(s: Seq<OfferObj>, i: int, requestor: NodeId)
    requires
        ascending(offer_ids(s)),
        0 <= i < s.len(),
        s[i].requestor_id is None,
    ensures
        stored_kept(s, s.update(i, claimed(s[i], requestor))),
{
    lemma_same_keeps(s);
    let after = s.update(i, claimed(s[i], requestor));
    assert forall|a: int, b: int|
        0 <= a < s.len() && 0 <= b < after.len() && (#[trigger] s[a]).offer.id@ == (
        #[trigger] after[b]).offer.id@ implies still(s[a], after[b]) by {
        assert(after[b].offer.id@ == s[b].offer.id@);
        assert(offer_ids(s)[a] == offer_ids(s)[b]);
        lemma_ascending_distinct(offer_ids(s), a, b);
    }
}

/// A state that holds only offers of an earlier state, unchanged, keeps
/// what that state stored.
pub proof fn lemma_part_keeps(before: Seq<OfferObj>, after: Seq<OfferObj>)
    requires
        ascending(offer_ids(before)),
        forall|j: int| 0 <= j < after.len() ==> before.contains(#[trigger] after[j]),
    ensures
        stored_kept(before, after),
{
    assert forall|i: int, j: int|
        0 <= i < before.len() && 0 <= j < after.len() && (#[trigger] before[i]).offer.id@ == (
        #[trigger] after[j]).offer.id@ implies still(before[i], after[j]) by {
        let k = choose|k: int| 0 <= k < before.len() && before[k] == after[j];
        assert(offer_ids(before)[i] == offer_ids(before)[k]);
        lemma_ascending_distinct(offer_ids(before), i, k);
    }
}

/// A state that holds every offer of an earlier state, unchanged, keeps
/// what that state stored.
pub proof fn lemma_whole_keeps(before: Seq<OfferObj>, after: Seq<OfferObj>)
    requires
        ascending(offer_ids(after)),
        forall|i: int| 0 <= i < before.len() ==> after.contains(#[trigger] before[i]),
    ensures
        stored_kept(before, after),
{
    assert forall|i: int, j: int|
        0 <= i < before.len() && 0 <= j < after.len() && (#[trigger] before[i]).offer.id@ == (
        #[trigger] after[j]).offer.id@ implies still(before[i], after[j]) by {
        let k = choose|k: int| 0 <= k < after.len() && after[k] == before[i];
        assert(offer_ids(after)[j] == offer_ids(after)[k]);
        lemma_ascending_distinct(offer_ids(after), j, k);
    }
}

/// The offers with `e` stored among them, unless its identifier is stored
/// already.
pub open spec fn with_offer(s: Seq<OfferObj>, e: OfferObj) -> Seq<OfferObj> {
    match position(offer_ids(s), e.offer.id@) {
        Some(_) => s,
        None => s.insert(lower_bound(offer_ids(s), e.offer.id@), e),
    }
}

/// All offers, in ascending order of their identifiers.
#[derive(Clone, Debug)]
pub struct Offers {
    offer_map: OrderedMap<OfferObj>,
}

impl View for Offers {
    type V = Seq<OfferObj>;

    closed spec fn view(&self) -> Seq<OfferObj> {
        self.offer_map.values()
    }
}

impl Offers {
    /// Each offer is filed under its own identifier.
    pub closed spec fn inv(&self) -> bool {
        &&& self.offer_map.wf()
        &&& self.offer_map.keys() == offer_ids(self.offer_map.values())
    }

    /// The identifiers are ascending, and so no two offers share one.
    pub open spec fn wf(&self) -> bool {
        &&& self.inv()
        &&& ascending(offer_ids(self@))
    }

    /// A store without offers.
    pub fn new() -> (r: Offers)
        ensures
            r.wf(),
            r@ == Seq::<OfferObj>::empty(),
    {
        let r = Offers { offer_map: OrderedMap::new() };
        assert(r.offer_map.keys() =~= offer_ids(r.offer_map.values()));
        r
    }

    /// The number of offers.
    pub fn len(&self) -> (n: usize)
        ensures
            n == self@.len(),
    {
        self.offer_map.len()
    }

    /// The offer at `i` in the order of identifiers.
    pub fn entry(&self, i: usize) -> (r: &OfferObj)
        requires
            i < self@.len(),
        ensures
            *r == self@[i as int],
    {
        self.offer_map.value_at(i)
    }

    /// The index of the offer with the given identifier.
    pub fn find(&self, id: &str) -> (r: Option<usize>)
        requires
            self.wf(),
        ensures
            match r {
                Some(i) => position(offer_ids(self@), id@) == Some(i as int) && i < self@.len(),
                None => position(offer_ids(self@), id@) is None,
            },
    {
        self.offer_map.find(id)
    }

    /// The offer with the given identifier.
    pub fn get(&self, id: &str) -> (r: Option<&OfferObj>)
        requires
            self.wf(),
        ensures
            match position(offer_ids(self@), id@) {
                Some(i) => r == Some(&self@[i]),
                None => r is None,
            },
    {
        proof {
            lemma_position(offer_ids(self@), id@);
        }
        match self.offer_map.find(id) {
            Some(i) => Some(self.offer_map.value_at(i)),
            None => None,
        }
    }

    /// Stores `entry` unless an offer with its identifier is stored
    /// already; tells whether it was stored.
    pub fn add(&mut self, entry: OfferObj) -> (added: bool)
        requires
            old(self).wf(),
        ensures
            final(self).wf(),
            final(self)@ == with_offer(old(self)@, entry),
            added == (position(offer_ids(old(self)@), entry.offer.id@) is None),
            stored_kept(old(self)@, final(self)@),
    {
        proof {
            lemma_insert_keeps(self@, entry);
        }
        let p = self.offer_map.search(entry.offer.id.as_str());
        proof {
            lemma_position(offer_ids(self@), entry.offer.id@);
            lemma_lower_bound(offer_ids(self@), entry.offer.id@);
        }
        if p < self.offer_map.len() && text_eq(
            self.offer_map.key_at(p).as_str(),
            entry.offer.id.as_str(),
        ) {
            false
        } else {
            let key = entry.offer.id.clone();
            self.offer_map.insert_at(p, key, entry);
            proof {
                assert(self.offer_map.keys() =~= offer_ids(self.offer_map.values()));
            }
            true
        }
    }

    /// Assigns the offer at `i`, which nobody has yet, to `requestor`.
    pub(crate) fn claim(&mut self, i: usize, requestor: NodeId)
        requires
            old(self).wf(),
            i < old(self)@.len(),
            old(self)@[i as int].requestor_id is None,
        ensures
            final(self).wf(),
            final(self)@ == old(self)@.update(i as int, claimed(old(self)@[i as int], requestor)),
            stored_kept(old(self)@, final(self)@),
    {
        proof {
            lemma_claim_keeps(self@, i as int, requestor);
        }
        let slot = self.offer_map.value_at_mut(i);
        slot.requestor_id = Some(requestor);
        proof {
            assert(self.offer_map.keys() =~= offer_ids(self.offer_map.values()));
        }
    }

    /// Takes the offer at `i` out of the store.
    pub fn remove_at(&mut self, i: usize) -> (r: OfferObj)
        requires
            old(self).wf(),
            i < old(self)@.len(),
        ensures
            final(self).wf(),
            r == old(self)@[i as int],
            final(self)@ == old(self)@.remove(i as int),
    {
        let (_key, entry) = self.offer_map.remove_at(i);
        proof {
            assert(self.offer_map.keys() =~= offer_ids(self.offer_map.values()));
        }
        entry
    }

    /// Removes every offer.
    pub fn clear(&mut self)
        ensures
            final(self).wf(),
            final(self)@ == Seq::<OfferObj>::empty(),
    {
        self.offer_map.clear();
        proof {
            assert(self.offer_map.keys() =~= offer_ids(self.offer_map.values()));
        }
    }
}

impl Default for Offers {
    fn default() -> (r: Offers)
        ensures
            r.wf(),
            r@ == Seq::<OfferObj>::empty(),
    {
        Offers::new()
    }
}

/// A demand as the contracts see it: the subscription and the identifiers
/// of the offers that wait in its queue, oldest first.
pub struct DemandView {
    pub demand: DemandSubscription,
    pub queue: Seq<Seq<char>>,
}

impl View for DemandObj {
    type V = DemandView;

    open spec fn view(&self) -> DemandView {
        DemandView {
            demand: self.demand,
            queue: Seq::new(self.offer_list@.len(), |i: int| self.offer_list@[i]@),
        }
    }
}

/// The identifiers of a run of demands.
pub open spec fn demand_ids(s: Seq<DemandView>) -> Seq<Seq<char>> {
    Seq::new(s.len(), |i: int| s[i].demand.id@)
}

/// The condition of being owned by `node`.
pub open spec fn owned_by(node: Seq<u8>) -> spec_fn(DemandView) -> bool {
    |d: DemandView| d.demand.node_id@ == node
}

/// Index of the first demand that `node` owns.
pub open spec fn owner_index(s: Seq<DemandView>, node: Seq<u8>) -> Option<int> {
    first_index(s, owned_by(node))
}

/// No two demands have the same owner.
pub open spec fn one_per_node(s: Seq<DemandView>) -> bool {
    forall|i: int, j: int|
        0 <= i < s.len() && 0 <= j < s.len() && i != j ==> (#[trigger] s[i]).demand.node_id@ != (
        #[trigger] s[j]).demand.node_id@
}

/// The demand with one more offer at the end of its queue.
pub open spec fn with_queued(d: DemandView, offer_id: Seq<char>) -> DemandView {
    DemandView { queue: d.queue.push(offer_id), ..d }
}

/// The demand without the offer at the head of its queue.
pub open spec fn without_head(d: DemandView) -> DemandView {
    DemandView { queue: d.queue.drop_first(), ..d }
}

/// All live demands, in ascending order of their identifiers, at most one
/// for each owning node.
#[derive(Clone, Debug)]
pub struct Demands {
    demand_map: OrderedMap<DemandObj>,
}

impl View for Demands {
    type V = Seq<DemandView>;

    closed spec fn view(&self) -> Seq<DemandView> {
        Seq::new(self.demand_map.values().len(), |i: int| self.demand_map.values()[i]@)
    }
}

impl Demands {
    /// Each demand is filed under its own identifier.
    pub closed spec fn inv(&self) -> bool {
        &&& self.demand_map.wf()
        &&& self.demand_map.keys() == demand_ids(self@)
    }

    /// The identifiers are ascending, and no node owns two demands.
    pub open spec fn wf(&self) -> bool {
        &&& self.inv()
        &&& ascending(demand_ids(self@))
        &&& one_per_node(self@)
    }

    /// A store without demands.
    pub fn new() -> (r: Demands)
        ensures
            r.wf(),
            r@ == Seq::<DemandView>::empty(),
    {
        let r = Demands { demand_map: OrderedMap::new() };
        assert(r@ =~= Seq::<DemandView>::empty());
        assert(r.demand_map.keys() =~= demand_ids(r@));
        r
    }

    /// The number of live demands.
    pub fn len(&self) -> (n: usize)
        ensures
            n == self@.len(),
    {
        self.demand_map.len()
    }

    /// The demand at `i` in the order of identifiers.
    pub fn entry(&self, i: usize) -> (r: &DemandObj)
        requires
            i < self@.len(),
        ensures
            r@ == self@[i as int],
    {
        self.demand_map.value_at(i)
    }

    /// The index of the demand with the given identifier.
    pub fn find(&self, id: &str) -> (r: Option<usize>)
        requires
            self.wf(),
        ensures
            match r {
                Some(i) => position(demand_ids(self@), id@) == Some(i as int) && i < self@.len(),
                None => position(demand_ids(self@), id@) is None,
            },
    {
        self.demand_map.find(id)
    }

    /// The index of the demand that `node` owns.
    pub fn find_owner(&self, node: &NodeId) -> (r: Option<usize>)
        ensures
            match r {
                Some(i) => owner_index(self@, node@) == Some(i as int) && i < self@.len(),
                None => owner_index(self@, node@) is None,
            },
    {
        let n = self.demand_map.len();
        let mut i: usize = 0;
        while i < n
            invariant
                n == self@.len(),
                i <= n,
                forall|j: int| 0 <= j < i ==> !owned_by(node@)(#[trigger] self@[j]),
            decreases n - i,
        {
            if self.demand_map.value_at(i).demand.node_id.same_as(node) {
                proof {
                    lemma_first_index_is(self@, owned_by(node@), i as int);
                }
                return Some(i);
            }
            i += 1;
        }
        proof {
            lemma_first_index_none(self@, owned_by(node@));
        }
        None
    }

    /// Files a demand whose identifier and owner the store does not hold
    /// yet.
    pub(crate) fn insert(&mut self, entry: DemandObj)
        requires
            old(self).wf(),
            position(demand_ids(old(self)@), entry.demand.id@) is None,
            owner_index(old(self)@, entry.demand.node_id@) is None,
        ensures
            final(self).wf(),
            final(self)@ == old(self)@.insert(
                lower_bound(demand_ids(old(self)@), entry.demand.id@),
                entry@,
            ),
    {
        let p = self.demand_map.search(entry.demand.id.as_str());
        let key = entry.demand.id.clone();
        proof {
            lemma_lower_bound(demand_ids(self@), entry.demand.id@);
            lemma_first_index(self@, owned_by(entry.demand.node_id@));
        }
        self.demand_map.insert_at(p, key, entry);
        proof {
            assert(self@ =~= old(self)@.insert(p as int, entry@));
            assert(self.demand_map.keys() =~= demand_ids(self@));
            assert forall|i: int, j: int|
                0 <= i < self@.len() && 0 <= j < self@.len() && i != j implies (
            #[trigger] self@[i]).demand.node_id@ != (#[trigger] self@[j]).demand.node_id@ by {
                let a = if i < p { i } else { i - 1 };
                let b = if j < p { j } else { j - 1 };
                if i != p {
                    assert(self@[i] == old(self)@[a]);
                }
                if j != p {
                    assert(self@[j] == old(self)@[b]);
                }
            }
        }
    }

    /// Takes the demand at `i` out of the store.
    pub fn remove_at(&mut self, i: usize) -> (r: DemandObj)
        requires
            old(self).wf(),
            i < old(self)@.len(),
        ensures
            final(self).wf(),
            r@ == old(self)@[i as int],
            final(self)@ == old(self)@.remove(i as int),
    {
        let (_key, entry) = self.demand_map.remove_at(i);
        proof {
            assert(self@ =~= old(self)@.remove(i as int));
            assert(self.demand_map.keys() =~= demand_ids(self@));
            lemma_remove_ascending(demand_ids(old(self)@), i as int);
            assert(demand_ids(self@) =~= demand_ids(old(self)@).remove(i as int));
            assert forall|a: int, b: int|
                0 <= a < self@.len() && 0 <= b < self@.len() && a != b implies (
            #[trigger] self@[a]).demand.node_id@ != (#[trigger] self@[b]).demand.node_id@ by {
                let x = if a < i { a } else { a + 1 };
                let y = if b < i { b } else { b + 1 };
                assert(self@[a] == old(self)@[x]);
                assert(self@[b] == old(self)@[y]);
            }
        }
        entry
    }

    /// Appends an offer's identifier to the queue of the demand at `i`.
    pub fn enqueue(&mut self, i: usize, offer_id: String)
        requires
            old(self).wf(),
            i < old(self)@.len(),
        ensures
            final(self).wf(),
            final(self)@ == old(self)@.update(i as int, with_queued(old(self)@[i as int], offer_id@)),
    {
        let slot = self.demand_map.value_at_mut(i);
        slot.offer_list.push_back(offer_id);
        proof {
            assert(self@[i as int].queue =~= old(self)@[i as int].queue.push(offer_id@));
            assert(self@ =~= old(self)@.update(
                i as int,
                with_queued(old(self)@[i as int], offer_id@),
            ));
            assert(demand_ids(self@) =~= demand_ids(old(self)@));
            assert forall|a: int, b: int|
                0 <= a < self@.len() && 0 <= b < self@.len() && a != b implies (
            #[trigger] self@[a]).demand.node_id@ != (#[trigger] self@[b]).demand.node_id@ by {
                assert(self@[a].demand == old(self)@[a].demand);
                assert(self@[b].demand == old(self)@[b].demand);
            }
        }
    }

    /// Takes the identifier at the head of the queue of the demand at `i`,
    /// if the queue holds any.
    pub fn dequeue(&mut self, i: usize) -> (r: Option<String>)
        requires
            old(self).wf(),
            i < old(self)@.len(),
        ensures
            final(self).wf(),
            match r {
                Some(id) => {
                    &&& old(self)@[i as int].queue.len() > 0
                    &&& id@ == old(self)@[i as int].queue[0]
                    &&& final(self)@ == old(self)@.update(
                        i as int,
                        without_head(old(self)@[i as int]),
                    )
                },
                None => old(self)@[i as int].queue.len() == 0 && final(self)@ == old(self)@,
            },
    {
        let slot = self.demand_map.value_at_mut(i);
        let r = slot.offer_list.pop_front();
        proof {
            if r is Some {
                assert(self@[i as int].queue =~= old(self)@[i as int].queue.drop_first());
                assert(self@ =~= old(self)@.update(i as int, without_head(old(self)@[i as int])));
            } else {
                assert(self@[i as int].queue =~= old(self)@[i as int].queue);
                assert(self@ =~= old(self)@);
            }
            assert(demand_ids(self@) =~= demand_ids(old(self)@));
            assert forall|a: int, b: int|
                0 <= a < self@.len() && 0 <= b < self@.len() && a != b implies (
            #[trigger] self@[a]).demand.node_id@ != (#[trigger] self@[b]).demand.node_id@ by {
                assert(self@[a].demand == old(self)@[a].demand);
                assert(self@[b].demand == old(self)@[b].demand);
            }
        }
        r
    }
}

impl Default for Demands {
    fn default() -> (r: Demands)
        ensures
            r.wf(),
            r@ == Seq::<DemandView>::empty(),
    {
        Demands::new()
    }
}

/// Offers granted to a requestor that has none on record.
pub open spec fn granted(ledger: Map<Seq<char>, u64>, node: Seq<char>) -> u64 {
    if ledger.dom().contains(node) {
        ledger[node]
    } else {
        0
    }
}

/// One more than `count`, as far as the counter reaches.
pub open spec fn one_more(count: u64) -> u64 {
    if count < u64::MAX {
        (count + 1) as u64
    } else {
        count
    }
}

/// No requestor has fewer grants on record in `after` than in `before`.
pub open spec fn never_less(before: Map<Seq<char>, u64>, after: Map<Seq<char>, u64>) -> bool {
    forall|node: Seq<char>| #[trigger] granted(after, node) >= granted(before, node)
}

/// For each requestor, by the text of its identity, the number of offers
/// ever granted to it. A count never goes down.
#[derive(Clone, Debug)]
pub struct AssignmentLedger {
    offers_given_to_node: OrderedMap<u64>,
}

impl View for AssignmentLedger {
    type V = Map<Seq<char>, u64>;

    closed spec fn view(&self) -> Map<Seq<char>, u64> {
        map_of(self.offers_given_to_node.keys(), self.offers_given_to_node.values())
    }
}

impl AssignmentLedger {
    /// The ledger holds each requestor once.
    pub closed spec fn wf(&self) -> bool {
        self.offers_given_to_node.wf()
    }

    /// A ledger without grants.
    pub fn new() -> (r: AssignmentLedger)
        ensures
            r.wf(),
            r@ == Map::<Seq<char>, u64>::empty(),
    {
        let r = AssignmentLedger { offers_given_to_node: OrderedMap::new() };
        assert(r@ =~= Map::<Seq<char>, u64>::empty());
        r
    }

    /// The number of offers granted to `node` so far.
    pub fn count(&self, node: &str) -> (r: u64)
        requires
            self.wf(),
        ensures
            r == granted(self@, node@),
    {
        match self.offers_given_to_node.find(node) {
            Some(i) => *self.offers_given_to_node.value_at(i),
            None => 0,
        }
    }

    /// Counts one more offer for `node`.
    pub fn record(&mut self, node: String)
        requires
            old(self).wf(),
        ensures
            final(self).wf(),
            final(self)@ == old(self)@.insert(node@, one_more(granted(old(self)@, node@))),
            never_less(old(self)@, final(self)@),
    {
        let ghost keys = self.offers_given_to_node.keys();
        let ghost values = self.offers_given_to_node.values();
        match self.offers_given_to_node.find(node.as_str()) {
            Some(i) => {
                let slot = self.offers_given_to_node.value_at_mut(i);
                if *slot < u64::MAX {
                    *slot = *slot + 1;
                }
                proof {
                    lemma_position(keys, node@);
                    lemma_map_of_update(keys, values, i as int, one_more(values[i as int]));
                }
            },
            None => {
                proof {
                    lemma_map_of_insert(keys, values, node@, 1u64);
                }
                let _ = self.offers_given_to_node.insert(node, 1);
            },
        }
    }
}

impl Default for AssignmentLedger {
    fn default() -> (r: AssignmentLedger)
        ensures
            r.wf(),
            r@ == Map::<Seq<char>, u64>::empty(),
    {
        AssignmentLedger::new()
    }
}

} // verus!
