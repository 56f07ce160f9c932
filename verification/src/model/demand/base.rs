//! A demand as its requestor registers it.

use crate::node_id::NodeId;
use crate::time::Timestamp;
use vstd::prelude::*;

verus! {

/// A request for capacity, owned by one node.
#[derive(Clone, Debug, PartialEq)]
pub struct DemandSubscription {
    pub id: String,
    /// Properties and constraints are kept as text and never evaluated.
    pub properties: String,
    pub constraints: String,
    pub node_id: NodeId,
    /// Creation time of the demand on the requestor's side.
    pub creation_ts: Timestamp,
    /// When the demand was added to a database, where that is known.
    pub insertion_ts: Option<Timestamp>,
    /// Time when the demand expires; set by the requestor.
    pub expiration_ts: Timestamp,
    /// Central network address: the partition in which the demand is
    /// matched. A demand without one takes no part in matching.
    pub central_net_address: Option<String>,
}

/// Names the demand that its owner withdraws.
#[derive(Clone, Debug, PartialEq)]
pub struct DemandCancellation {
    pub demand_id: String,
}

} // verus!
