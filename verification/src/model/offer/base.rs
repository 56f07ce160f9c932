//! An offer as its provider publishes it.

use crate::model::offer::properties::Properties;
use crate::node_id::NodeId;
use crate::time::Timestamp;
use vstd::prelude::*;

verus! {

/// A published unit of capacity. Nothing in it changes once it is stored.
#[derive(Clone, Debug, PartialEq)]
pub struct GolemBaseOffer {
    /// Identifier derived from the offer's content.
    pub id: String,
    pub properties: Properties,
    /// Constraint expression, kept as text and never evaluated.
    pub constraints: String,
    pub provider_id: NodeId,
    pub expiration: Timestamp,
    /// When the provider published the offer.
    pub timestamp: Timestamp,
}

} // verus!
