//! Why an operation on the stores was turned down.

use vstd::prelude::*;

verus! {

/// The ways in which an operation is turned down. None of them changes a
/// store.
#[derive(Clone, Copy, Debug, PartialEq, Eq, Structural)]
pub enum MarketError {
    /// The identifier names no demand and is not the text of a node
    /// identity either.
    InvalidIdentifier,
    /// No live demand has the identifier, or is owned by the node.
    DemandNotFound,
    /// No offer has the identifier.
    OfferNotFound,
    /// No offer is free for the demand.
    NoOfferAvailable,
    /// The offer is assigned already.
    OfferTaken,
    /// A demand with the same identifier is live already.
    DemandExists,
}

/// The kinds under which the errors are reported.
#[derive(Clone, Copy, Debug, PartialEq, Eq, Structural)]
pub enum ErrorKind {
    NotFound,
    Conflict,
    InvalidIdentifier,
}

impl MarketError {
    /// The kind of each error.
    pub open spec fn spec_kind(self) -> ErrorKind {
        match self {
            MarketError::InvalidIdentifier => ErrorKind::InvalidIdentifier,
            MarketError::DemandNotFound => ErrorKind::NotFound,
            MarketError::OfferNotFound => ErrorKind::NotFound,
            MarketError::NoOfferAvailable => ErrorKind::NotFound,
            MarketError::OfferTaken => ErrorKind::Conflict,
            MarketError::DemandExists => ErrorKind::Conflict,
        }
    }

    /// The kind under which the error is reported.
    #[verifier::when_used_as_spec(spec_kind)]
    pub fn kind(self) -> (r: ErrorKind)
        ensures
            r == self.spec_kind(),
    {
        match self {
            MarketError::InvalidIdentifier => ErrorKind::InvalidIdentifier,
            MarketError::DemandNotFound => ErrorKind::NotFound,
            MarketError::OfferNotFound => ErrorKind::NotFound,
            MarketError::NoOfferAvailable => ErrorKind::NotFound,
            MarketError::OfferTaken => ErrorKind::Conflict,
            MarketError::DemandExists => ErrorKind::Conflict,
        }
    }

    /// The message with which the error is reported.
    pub fn message(self) -> (r: &'static str)
        ensures
            r@ == match self {
                MarketError::InvalidIdentifier => "Invalid offer ID format or not found"@,
                MarketError::DemandNotFound => "Demand not found"@,
                MarketError::OfferNotFound => "Offer not found"@,
                MarketError::NoOfferAvailable => "No available offers found"@,
                MarketError::OfferTaken => "Offer is already taken"@,
                MarketError::DemandExists => "Demand with the same id already exists"@,
            },
    {
        match self {
            MarketError::InvalidIdentifier => "Invalid offer ID format or not found",
            MarketError::DemandNotFound => "Demand not found",
            MarketError::OfferNotFound => "Offer not found",
            MarketError::NoOfferAvailable => "No available offers found",
            MarketError::OfferTaken => "Offer is already taken",
            MarketError::DemandExists => "Demand with the same id already exists",
        }
    }
}

} // verus!
