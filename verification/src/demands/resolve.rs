//! Finding the demand that an identifier stands for.
//!
//! An identifier is taken as the identifier of a demand first. Where no
//! demand has it, it is read as the text of a node identity and stands for
//! the demand that this node owns.

use crate::error::MarketError;
use crate::node_id::{lemma_text_round_trip, node_id_text, parse_node_id, parsed_node_id};
use crate::ordered_map::position;
use crate::state::{demand_ids, owner_index, DemandView, Demands};
use vstd::prelude::*;

verus! {

/// The index of the demand that `identifier` stands for, or the reason why
/// it stands for none.
pub open spec fn resolved(s: Seq<DemandView>, identifier: Seq<char>) -> Result<int, MarketError> {
    match position(demand_ids(s), identifier) {
        Some(i) => Ok(i),
        None => match parsed_node_id(identifier) {
            None => Err(MarketError::InvalidIdentifier),
            Some(node) => match owner_index(s, node) {
                Some(i) => Ok(i),
                None => Err(MarketError::DemandNotFound),
            },
        },
    }
}

/// The text of a node's identity stands for the demand that the node
/// owns, unless a demand has that very text as its identifier.
pub proof fn lemma_resolve_by_owner(s: Seq<DemandView>, node: Seq<u8>)
    requires
        node.len() == 20,
        position(demand_ids(s), node_id_text(node)) is None,
    ensures
        resolved(s, node_id_text(node)) == match owner_index(s, node) {
            Some(i) => Ok::<int, MarketError>(i),
            None => Err::<int, MarketError>(MarketError::DemandNotFound),
        },
{
    lemma_text_round_trip(node);
}

/// Finds the demand that `identifier` stands for.
pub fn resolve(demands: &Demands, identifier: &str) -> (r: Result<usize, MarketError>)
    requires
        demands.wf(),
    ensures
        match r {
            Ok(i) => resolved(demands@, identifier@) == Ok::<int, MarketError>(i as int) && i
                < demands@.len(),
            Err(e) => resolved(demands@, identifier@) == Err::<int, MarketError>(e),
        },
{
    match demands.find(identifier) {
        Some(i) => Ok(i),
        None => match parse_node_id(identifier) {
            None => Err(MarketError::InvalidIdentifier),
            Some(node) => match demands.find_owner(&node) {
                Some(i) => Ok(i),
                None => Err(MarketError::DemandNotFound),
            },
        },
    }
}

} // verus!
