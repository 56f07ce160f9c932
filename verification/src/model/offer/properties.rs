//! The capability and pricing document that a provider attaches to an
//! offer. The stores carry it unchanged; only a few of its fields are read
//! when attributes are derived.

use vstd::prelude::*;

verus! {

/// A real number of the document, held as the bit pattern of its IEEE 754
/// double. The library carries such numbers and never computes with them.
#[derive(Clone, Copy, Debug, PartialEq, Eq)]
pub struct RealBits {
    pub bits: u64,
}

/// The property document of an offer.
#[derive(Clone, Debug, PartialEq)]
pub struct Properties {
    pub golem: GolemProperties,
}

/// The properties under the `golem` name space.
#[derive(Clone, Debug, PartialEq)]
pub struct GolemProperties {
    pub com: Com,
    pub inf: Inf,
    pub node: Node,
    pub runtime: Runtime,
    pub srv: Srv,
}

/// Commercial terms: payment, pricing, scheme and usage.
#[derive(Clone, Debug, PartialEq)]
pub struct Com {
    pub payment: Payment,
    pub pricing: Pricing,
    pub scheme: Scheme,
    pub usage: Usage,
}

/// How the provider wants to be paid.
#[derive(Clone, Debug, PartialEq)]
pub struct Payment {
    pub debit_notes: DebitNotes,
    pub platform: Platform,
    pub protocol: Protocol,
}

/// Terms for debit notes.
#[derive(Clone, Debug, PartialEq)]
pub struct DebitNotes {
    /// Seconds within which a debit note is accepted.
    pub accept_timeout: u64,
}

/// An account on a payment platform.
#[derive(Clone, Debug, PartialEq)]
pub struct Erc20Platform {
    pub address: String,
}

/// The payment platforms that the provider accepts.
#[derive(Clone, Debug, PartialEq)]
pub struct Platform {
    pub erc20_polygon_glm: Option<Erc20Platform>,
    pub erc20_hoodi_tglm: Option<Erc20Platform>,
}

/// The payment protocol.
#[derive(Clone, Debug, PartialEq)]
pub struct Protocol {
    pub version: u32,
}

/// How the price is computed.
#[derive(Clone, Debug, PartialEq)]
pub struct Pricing {
    pub model: PricingModel,
}

/// The pricing models.
#[derive(Clone, Debug, PartialEq)]
pub enum PricingModel {
    Linear { linear: LinearPricing },
}

/// A price that is linear in the usage: one coefficient for each usage
/// counter, and one that is fixed.
#[derive(Clone, Debug, PartialEq)]
pub struct LinearPricing {
    pub coeffs: Vec<RealBits>,
}

/// The payment schemes.
#[derive(Clone, Debug, PartialEq)]
pub enum Scheme {
    Payu { payu: PayuScheme },
}

/// Pay as you use.
#[derive(Clone, Debug, PartialEq)]
pub struct PayuScheme {
    pub debit_note: PayuDebitNote,
    pub payment_timeout_sec: u64,
}

/// Terms for debit notes under the pay-as-you-use scheme.
#[derive(Clone, Debug, PartialEq)]
pub struct PayuDebitNote {
    pub interval_sec: u64,
}

/// The usage counters for which the provider charges.
#[derive(Clone, Debug, PartialEq)]
pub struct Usage {
    pub vector: Vec<String>,
}

/// The infrastructure that the provider offers.
#[derive(Clone, Debug, PartialEq)]
pub struct Inf {
    pub cpu: Cpu,
    pub mem: Mem,
    pub storage: Storage,
}

/// The processor.
#[derive(Clone, Debug, PartialEq)]
pub struct Cpu {
    pub architecture: String,
    pub cores: u32,
    pub threads: u32,
}

/// The memory, in gibibytes.
#[derive(Clone, Debug, PartialEq)]
pub struct Mem {
    pub gib: RealBits,
}

/// The storage, in gibibytes.
#[derive(Clone, Debug, PartialEq)]
pub struct Storage {
    pub gib: RealBits,
}

/// The node that makes the offer.
#[derive(Clone, Debug, PartialEq)]
pub struct Node {
    pub debug: Option<NodeDebug>,
    pub id: NodeName,
    pub net: NodeNet,
}

/// Debug settings of the node.
#[derive(Clone, Debug, PartialEq)]
pub struct NodeDebug {
    pub subnet: String,
}

/// The name that the node declares.
#[derive(Clone, Debug, PartialEq)]
pub struct NodeName {
    pub name: String,
}

/// The network of the node.
#[derive(Clone, Debug, PartialEq)]
pub struct NodeNet {
    pub is_public: bool,
}

/// The runtime that executes the work.
#[derive(Clone, Debug, PartialEq)]
pub struct Runtime {
    pub name: String,
    pub version: String,
}

/// The service.
#[derive(Clone, Debug, PartialEq)]
pub struct Srv {
    pub caps: Caps,
}

/// What the service can do.
#[derive(Clone, Debug, PartialEq)]
pub struct Caps {
    pub multi_activity: bool,
    pub payload_manifest: bool,
}

} // verus!
