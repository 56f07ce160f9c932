//! Taking the first free offer that meets a filter.

use crate::node_id::NodeId;
use crate::scan::{first_index, lemma_first_index_is, lemma_first_index_none};
use crate::state::{claimed, lemma_claim_keeps, lemma_same_keeps, stored_kept, OfferObj, Offers};
use crate::text::text_eq;
use vstd::prelude::*;

verus! {

/// What a requestor asks of an offer. A field that is absent asks nothing.
#[derive(Clone, Debug, PartialEq)]
pub struct FilterAttributes {
    /// The requestor for which the offer is taken.
    pub requestor_id: NodeId,
    pub exe_name: Option<String>,
    pub cpu_threads_min: Option<u32>,
    pub cpu_threads_max: Option<u32>,
    pub provider_group_min: Option<u32>,
    pub provider_group_max: Option<u32>,
    pub id_group_min: Option<u32>,
    pub id_group_max: Option<u32>,
    /// The provider that the offer must come from.
    pub node_id: Option<NodeId>,
    pub subnet: Option<String>,
    pub cpu_architecture: Option<String>,
}

/// An absent text asks nothing; a present one asks for that very text.
pub open spec fn text_meets(wanted: Option<String>, actual: Seq<char>) -> bool {
    match wanted {
        Some(w) => w@ == actual,
        None => true,
    }
}

/// An absent bound asks nothing; a present one is a least value.
pub open spec fn at_least(bound: Option<u32>, actual: u32) -> bool {
    match bound {
        Some(b) => actual >= b,
        None => true,
    }
}

/// An absent bound asks nothing; a present one is a greatest value.
pub open spec fn at_most(bound: Option<u32>, actual: u32) -> bool {
    match bound {
        Some(b) => actual <= b,
        None => true,
    }
}

/// The offer meets every field of the filter that is present.
pub open spec fn meets(filter: FilterAttributes, e: OfferObj) -> bool {
    &&& text_meets(filter.exe_name, e.attributes.exe_name@)
    &&& at_least(filter.cpu_threads_min, e.attributes.cpu_threads)
    &&& at_most(filter.cpu_threads_max, e.attributes.cpu_threads)
    &&& match filter.node_id {
        Some(provider) => e.offer.provider_id@ == provider@,
        None => true,
    }
    &&& text_meets(filter.subnet, e.attributes.subnet@)
    &&& at_least(filter.provider_group_min, e.attributes.node_id_group)
    &&& at_most(filter.provider_group_max, e.attributes.node_id_group)
    &&& at_least(filter.id_group_min, e.attributes.offer_id_group)
    &&& at_most(filter.id_group_max, e.attributes.offer_id_group)
    &&& text_meets(filter.cpu_architecture, e.attributes.cpu_architecture@)
}

/// The condition of meeting the filter and being free.
pub open spec fn available_for(filter: FilterAttributes) -> spec_fn(OfferObj) -> bool {
    |e: OfferObj| meets(filter, e) && e.requestor_id is None
}

/// The first free offer, in the order of identifiers, that meets the
/// filter.
pub open spec fn first_available(s: Seq<OfferObj>, filter: FilterAttributes) -> Option<int> {
    first_index(s, available_for(filter))
}

fn check_text(wanted: &Option<String>, actual: &str) -> (r: bool)
    ensures
        r == text_meets(*wanted, actual@),
{
    match wanted {
        Some(w) => text_eq(w.as_str(), actual),
        None => true,
    }
}

fn check_least(bound: Option<u32>, actual: u32) -> (r: bool)
    ensures
        r == at_least(bound, actual),
{
    match bound {
        Some(b) => actual >= b,
        None => true,
    }
}

fn check_most(bound: Option<u32>, actual: u32) -> (r: bool)
    ensures
        r == at_most(bound, actual),
{
    match bound {
        Some(b) => actual <= b,
        None => true,
    }
}

/// Tells whether the offer meets every field of the filter that is
/// present.
pub fn offer_meets(filter: &FilterAttributes, e: &OfferObj) -> (r: bool)
    ensures
        r == meets(*filter, *e),
{
    let provider = match &filter.node_id {
        Some(provider) => e.offer.provider_id.same_as(provider),
        None => true,
    };
    check_text(&filter.exe_name, e.attributes.exe_name.as_str()) && check_least(
        filter.cpu_threads_min,
        e.attributes.cpu_threads,
    ) && check_most(filter.cpu_threads_max, e.attributes.cpu_threads) && provider && check_text(
        &filter.subnet,
        e.attributes.subnet.as_str(),
    ) && check_least(filter.provider_group_min, e.attributes.node_id_group) && check_most(
        filter.provider_group_max,
        e.attributes.node_id_group,
    ) && check_least(filter.id_group_min, e.attributes.offer_id_group) && check_most(
        filter.id_group_max,
        e.attributes.offer_id_group,
    ) && check_text(&filter.cpu_architecture, e.attributes.cpu_architecture.as_str())
}

/// Assigns the first free offer that meets the filter to the filter's
/// requestor and gives its index in the store. Finding and assigning are
/// one step, so that no two requestors get the same offer.
pub fn get_if_available(offers: &mut Offers, filter: &FilterAttributes) -> (r: Option<usize>)
    requires
        old(offers).wf(),
    ensures
        final(offers).wf(),
        stored_kept(old(offers)@, final(offers)@),
        match first_available(old(offers)@, *filter) {
            Some(i) => {
                &&& r == Some(i as usize)
                &&& i < old(offers)@.len()
                &&& final(offers)@ == old(offers)@.update(
                    i,
                    claimed(old(offers)@[i], filter.requestor_id),
                )
            },
            None => r is None && final(offers)@ == old(offers)@,
        },
{
    let n = offers.len();
    let mut i: usize = 0;
    while i < n
        invariant
            n == offers@.len(),
            i <= n,
            offers.wf(),
            *offers == *old(offers),
            forall|j: int| 0 <= j < i ==> !available_for(*filter)(#[trigger] offers@[j]),
        decreases n - i,
    {
        let e = offers.entry(i);
        if offer_meets(filter, e) && e.requestor_id.is_none() {
            proof {
                lemma_first_index_is(offers@, available_for(*filter), i as int);
                lemma_claim_keeps(offers@, i as int, filter.requestor_id);
            }
            offers.claim(i, filter.requestor_id);
            return Some(i);
        }
        i += 1;
    }
    proof {
        lemma_first_index_none(offers@, available_for(*filter));
        lemma_same_keeps(offers@);
    }
    None
}

} // verus!
