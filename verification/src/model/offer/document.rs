//! The JSON document of an offer's properties, as it goes over the wire.
//!
//! Each structure is an object with one member for each field, in
//! ascending order of the member names. A choice carries its name in the
//! member `@tag`. An absent optional field is `null`, and so is a real
//! number that is not finite.

use crate::json::{
    array_of, member_views, object_of, put_member, real_json, real_of, text_of, unsigned_json,
    unsigned_of, views, JsonValue, JsonView,
};
use crate::model::offer::properties::{
    Caps, Com, Cpu, DebitNotes, Erc20Platform, GolemProperties, Inf, LinearPricing, Mem, Node,
    NodeDebug, NodeName, NodeNet, Payment, PayuDebitNote, PayuScheme, Platform, Pricing,
    PricingModel, Properties, Protocol, RealBits, Runtime, Scheme, Srv, Storage, Usage,
};
use vstd::prelude::*;

verus! {

/// The documents of a run of texts.
pub open spec fn text_views(texts: Seq<String>) -> Seq<JsonView> {
    Seq::new(texts.len(), |i: int| JsonView::Text(texts[i]@))
}

/// The documents of a run of real numbers.
pub open spec fn real_views(reals: Seq<RealBits>) -> Seq<JsonView> {
    Seq::new(reals.len(), |i: int| real_json(reals[i]))
}

/// Writes texts as an array.
pub fn texts_of(texts: &Vec<String>) -> (r: JsonValue)
    ensures
        r@ == JsonView::Array(text_views(texts@)),
{
    let mut items: Vec<JsonValue> = Vec::new();
    let mut i: usize = 0;
    while i < texts.len()
        invariant
            i <= texts.len(),
            items@.len() == i,
            views(items@) == text_views(texts@).take(i as int),
        decreases texts.len() - i,
    {
        let ghost written = items@;
        items.push(text_of(texts[i].as_str()));
        proof {
            assert forall|j: int| 0 <= j < i + 1 implies views(items@)[j] == text_views(texts@)[j] by {
                if j < i {
                    assert(views(written)[j] == text_views(texts@).take(i as int)[j]);
                }
            }
            assert(views(items@) =~= text_views(texts@).take(i + 1));
        }
        i += 1;
    }
    proof {
        assert(text_views(texts@).take(texts.len() as int) =~= text_views(texts@));
    }
    array_of(items)
}

/// Writes real numbers as an array.
pub fn reals_of(reals: &Vec<RealBits>) -> (r: JsonValue)
    ensures
        r@ == JsonView::Array(real_views(reals@)),
{
    let mut items: Vec<JsonValue> = Vec::new();
    let mut i: usize = 0;
    while i < reals.len()
        invariant
            i <= reals.len(),
            items@.len() == i,
            views(items@) == real_views(reals@).take(i as int),
        decreases reals.len() - i,
    {
        let ghost written = items@;
        items.push(real_of(reals[i]));
        proof {
            assert forall|j: int| 0 <= j < i + 1 implies views(items@)[j] == real_views(reals@)[j] by {
                if j < i {
                    assert(views(written)[j] == real_views(reals@).take(i as int)[j]);
                }
            }
            assert(views(items@) =~= real_views(reals@).take(i + 1));
        }
        i += 1;
    }
    proof {
        assert(real_views(reals@).take(reals.len() as int) =~= real_views(reals@));
    }
    array_of(items)
}

/// The document of the capabilities of the service.
pub open spec fn caps_json(v: Caps) -> JsonView {
    JsonView::Object(
        seq![
            ("multi-activity"@, JsonView::Bool(v.multi_activity)),
            ("payload-manifest"@, JsonView::Bool(v.payload_manifest)),
        ],
    )
}

impl Caps {
    /// Writes the capabilities of the service as a document.
    pub fn to_json(&self) -> (r: JsonValue)
        ensures
            r@ == caps_json(*self),
    {
        let mut m: Vec<(String, JsonValue)> = Vec::new();
        put_member(&mut m, "multi-activity", JsonValue::Bool(self.multi_activity));
        put_member(&mut m, "payload-manifest", JsonValue::Bool(self.payload_manifest));
        proof {
            assert(member_views(m@) =~= caps_json(*self)->Object_0);
        }
        object_of(m)
    }
}

/// The document of the service.
pub open spec fn srv_json(v: Srv) -> JsonView {
    JsonView::Object(
        seq![
            ("caps"@, caps_json(v.caps)),
        ],
    )
}

impl Srv {
    /// Writes the service as a document.
    pub fn to_json(&self) -> (r: JsonValue)
        ensures
            r@ == srv_json(*self),
    {
        let mut m: Vec<(String, JsonValue)> = Vec::new();
        put_member(&mut m, "caps", self.caps.to_json());
        proof {
            assert(member_views(m@) =~= srv_json(*self)->Object_0);
        }
        object_of(m)
    }
}

/// The document of the runtime.
pub open spec fn runtime_json(v: Runtime) -> JsonView {
    JsonView::Object(
        seq![
            ("name"@, JsonView::Text(v.name@)),
            ("version"@, JsonView::Text(v.version@)),
        ],
    )
}

impl Runtime {
    /// Writes the runtime as a document.
    pub fn to_json(&self) -> (r: JsonValue)
        ensures
            r@ == runtime_json(*self),
    {
        let mut m: Vec<(String, JsonValue)> = Vec::new();
        put_member(&mut m, "name", text_of(self.name.as_str()));
        put_member(&mut m, "version", text_of(self.version.as_str()));
        proof {
            assert(member_views(m@) =~= runtime_json(*self)->Object_0);
        }
        object_of(m)
    }
}

/// The document of the network of a node.
pub open spec fn node_net_json(v: NodeNet) -> JsonView {
    JsonView::Object(
        seq![
            ("is-public"@, JsonView::Bool(v.is_public)),
        ],
    )
}

impl NodeNet {
    /// Writes the network of a node as a document.
    pub fn to_json(&self) -> (r: JsonValue)
        ensures
            r@ == node_net_json(*self),
    {
        let mut m: Vec<(String, JsonValue)> = Vec::new();
        put_member(&mut m, "is-public", JsonValue::Bool(self.is_public));
        proof {
            assert(member_views(m@) =~= node_net_json(*self)->Object_0);
        }
        object_of(m)
    }
}

/// The document of the name of a node.
pub open spec fn node_name_json(v: NodeName) -> JsonView {
    JsonView::Object(
        seq![
            ("name"@, JsonView::Text(v.name@)),
        ],
    )
}

impl NodeName {
    /// Writes the name of a node as a document.
    pub fn to_json(&self) -> (r: JsonValue)
        ensures
            r@ == node_name_json(*self),
    {
        let mut m: Vec<(String, JsonValue)> = Vec::new();
        put_member(&mut m, "name", text_of(self.name.as_str()));
        proof {
            assert(member_views(m@) =~= node_name_json(*self)->Object_0);
        }
        object_of(m)
    }
}

/// The document of the debug settings of a node.
pub open spec fn node_debug_json(v: NodeDebug) -> JsonView {
    JsonView::Object(
        seq![
            ("subnet"@, JsonView::Text(v.subnet@)),
        ],
    )
}

impl NodeDebug {
    /// Writes the debug settings of a node as a document.
    pub fn to_json(&self) -> (r: JsonValue)
        ensures
            r@ == node_debug_json(*self),
    {
        let mut m: Vec<(String, JsonValue)> = Vec::new();
        put_member(&mut m, "subnet", text_of(self.subnet.as_str()));
        proof {
            assert(member_views(m@) =~= node_debug_json(*self)->Object_0);
        }
        object_of(m)
    }
}

/// The document of the node.
pub open spec fn node_json(v: Node) -> JsonView {
    JsonView::Object(
        seq![
            (
                "debug"@,
                match v.debug {
                    Some(inner) => node_debug_json(inner),
                    None => JsonView::Null,
                },
            ),
            ("id"@, node_name_json(v.id)),
            ("net"@, node_net_json(v.net)),
        ],
    )
}

impl Node {
    /// Writes the node as a document.
    pub fn to_json(&self) -> (r: JsonValue)
        ensures
            r@ == node_json(*self),
    {
        let mut m: Vec<(String, JsonValue)> = Vec::new();
        put_member(
            &mut m,
            "debug",
            match &self.debug {
                Some(inner) => inner.to_json(),
                None => JsonValue::Null,
            },
        );
        put_member(&mut m, "id", self.id.to_json());
        put_member(&mut m, "net", self.net.to_json());
        proof {
            assert(member_views(m@) =~= node_json(*self)->Object_0);
        }
        object_of(m)
    }
}

/// The document of the storage.
pub open spec fn storage_json(v: Storage) -> JsonView {
    JsonView::Object(
        seq![
            ("gib"@, real_json(v.gib)),
        ],
    )
}

impl Storage {
    /// Writes the storage as a document.
    pub fn to_json(&self) -> (r: JsonValue)
        ensures
            r@ == storage_json(*self),
    {
        let mut m: Vec<(String, JsonValue)> = Vec::new();
        put_member(&mut m, "gib", real_of(self.gib));
        proof {
            assert(member_views(m@) =~= storage_json(*self)->Object_0);
        }
        object_of(m)
    }
}

/// The document of the memory.
pub open spec fn mem_json(v: Mem) -> JsonView {
    JsonView::Object(
        seq![
            ("gib"@, real_json(v.gib)),
        ],
    )
}

impl Mem {
    /// Writes the memory as a document.
    pub fn to_json(&self) -> (r: JsonValue)
        ensures
            r@ == mem_json(*self),
    {
        let mut m: Vec<(String, JsonValue)> = Vec::new();
        put_member(&mut m, "gib", real_of(self.gib));
        proof {
            assert(member_views(m@) =~= mem_json(*self)->Object_0);
        }
        object_of(m)
    }
}

/// The document of the processor.
pub open spec fn cpu_json(v: Cpu) -> JsonView {
    JsonView::Object(
        seq![
            ("architecture"@, JsonView::Text(v.architecture@)),
            ("cores"@, unsigned_json(v.cores as u64)),
            ("threads"@, unsigned_json(v.threads as u64)),
        ],
    )
}

impl Cpu {
    /// Writes the processor as a document.
    pub fn to_json(&self) -> (r: JsonValue)
        ensures
            r@ == cpu_json(*self),
    {
        let mut m: Vec<(String, JsonValue)> = Vec::new();
        put_member(&mut m, "architecture", text_of(self.architecture.as_str()));
        put_member(&mut m, "cores", unsigned_of(self.cores as u64));
        put_member(&mut m, "threads", unsigned_of(self.threads as u64));
        proof {
            assert(member_views(m@) =~= cpu_json(*self)->Object_0);
        }
        object_of(m)
    }
}

/// The document of the infrastructure.
pub open spec fn inf_json(v: Inf) -> JsonView {
    JsonView::Object(
        seq![
            ("cpu"@, cpu_json(v.cpu)),
            ("mem"@, mem_json(v.mem)),
            ("storage"@, storage_json(v.storage)),
        ],
    )
}

impl Inf {
    /// Writes the infrastructure as a document.
    pub fn to_json(&self) -> (r: JsonValue)
        ensures
            r@ == inf_json(*self),
    {
        let mut m: Vec<(String, JsonValue)> = Vec::new();
        put_member(&mut m, "cpu", self.cpu.to_json());
        put_member(&mut m, "mem", self.mem.to_json());
        put_member(&mut m, "storage", self.storage.to_json());
        proof {
            assert(member_views(m@) =~= inf_json(*self)->Object_0);
        }
        object_of(m)
    }
}

/// The document of the usage vector.
pub open spec fn usage_json(v: Usage) -> JsonView {
    JsonView::Object(
        seq![
            ("vector"@, JsonView::Array(text_views(v.vector@))),
        ],
    )
}

impl Usage {
    /// Writes the usage vector as a document.
    pub fn to_json(&self) -> (r: JsonValue)
        ensures
            r@ == usage_json(*self),
    {
        let mut m: Vec<(String, JsonValue)> = Vec::new();
        put_member(&mut m, "vector", texts_of(&self.vector));
        proof {
            assert(member_views(m@) =~= usage_json(*self)->Object_0);
        }
        object_of(m)
    }
}

/// The document of the debit note terms.
pub open spec fn payu_debit_note_json(v: PayuDebitNote) -> JsonView {
    JsonView::Object(
        seq![
            ("interval-sec?"@, unsigned_json(v.interval_sec)),
        ],
    )
}

impl PayuDebitNote {
    /// Writes the debit note terms as a document.
    pub fn to_json(&self) -> (r: JsonValue)
        ensures
            r@ == payu_debit_note_json(*self),
    {
        let mut m: Vec<(String, JsonValue)> = Vec::new();
        put_member(&mut m, "interval-sec?", unsigned_of(self.interval_sec));
        proof {
            assert(member_views(m@) =~= payu_debit_note_json(*self)->Object_0);
        }
        object_of(m)
    }
}

/// The document of the pay-as-you-use scheme.
pub open spec fn payu_scheme_json(v: PayuScheme) -> JsonView {
    JsonView::Object(
        seq![
            ("debit-note"@, payu_debit_note_json(v.debit_note)),
            ("payment-timeout-sec?"@, unsigned_json(v.payment_timeout_sec)),
        ],
    )
}

impl PayuScheme {
    /// Writes the pay-as-you-use scheme as a document.
    pub fn to_json(&self) -> (r: JsonValue)
        ensures
            r@ == payu_scheme_json(*self),
    {
        let mut m: Vec<(String, JsonValue)> = Vec::new();
        put_member(&mut m, "debit-note", self.debit_note.to_json());
        put_member(&mut m, "payment-timeout-sec?", unsigned_of(self.payment_timeout_sec));
        proof {
            assert(member_views(m@) =~= payu_scheme_json(*self)->Object_0);
        }
        object_of(m)
    }
}

/// The document of the linear pricing.
pub open spec fn linear_pricing_json(v: LinearPricing) -> JsonView {
    JsonView::Object(
        seq![
            ("coeffs"@, JsonView::Array(real_views(v.coeffs@))),
        ],
    )
}

impl LinearPricing {
    /// Writes the linear pricing as a document.
    pub fn to_json(&self) -> (r: JsonValue)
        ensures
            r@ == linear_pricing_json(*self),
    {
        let mut m: Vec<(String, JsonValue)> = Vec::new();
        put_member(&mut m, "coeffs", reals_of(&self.coeffs));
        proof {
            assert(member_views(m@) =~= linear_pricing_json(*self)->Object_0);
        }
        object_of(m)
    }
}

/// The document of the payment protocol.
pub open spec fn protocol_json(v: Protocol) -> JsonView {
    JsonView::Object(
        seq![
            ("version"@, unsigned_json(v.version as u64)),
        ],
    )
}

impl Protocol {
    /// Writes the payment protocol as a document.
    pub fn to_json(&self) -> (r: JsonValue)
        ensures
            r@ == protocol_json(*self),
    {
        let mut m: Vec<(String, JsonValue)> = Vec::new();
        put_member(&mut m, "version", unsigned_of(self.version as u64));
        proof {
            assert(member_views(m@) =~= protocol_json(*self)->Object_0);
        }
        object_of(m)
    }
}

/// The document of the payment platform account.
pub open spec fn erc20_platform_json(v: Erc20Platform) -> JsonView {
    JsonView::Object(
        seq![
            ("address"@, JsonView::Text(v.address@)),
        ],
    )
}

impl Erc20Platform {
    /// Writes the payment platform account as a document.
    pub fn to_json(&self) -> (r: JsonValue)
        ensures
            r@ == erc20_platform_json(*self),
    {
        let mut m: Vec<(String, JsonValue)> = Vec::new();
        put_member(&mut m, "address", text_of(self.address.as_str()));
        proof {
            assert(member_views(m@) =~= erc20_platform_json(*self)->Object_0);
        }
        object_of(m)
    }
}

/// The document of the payment platforms.
pub open spec fn platform_json(v: Platform) -> JsonView {
    JsonView::Object(
        seq![
            (
                "erc20-hoodi-tglm"@,
                match v.erc20_hoodi_tglm {
                    Some(inner) => erc20_platform_json(inner),
                    None => JsonView::Null,
                },
            ),
            (
                "erc20-polygon-glm"@,
                match v.erc20_polygon_glm {
                    Some(inner) => erc20_platform_json(inner),
                    None => JsonView::Null,
                },
            ),
        ],
    )
}

impl Platform {
    /// Writes the payment platforms as a document.
    pub fn to_json(&self) -> (r: JsonValue)
        ensures
            r@ == platform_json(*self),
    {
        let mut m: Vec<(String, JsonValue)> = Vec::new();
        put_member(
            &mut m,
            "erc20-hoodi-tglm",
            match &self.erc20_hoodi_tglm {
                Some(inner) => inner.to_json(),
                None => JsonValue::Null,
            },
        );
        put_member(
            &mut m,
            "erc20-polygon-glm",
            match &self.erc20_polygon_glm {
                Some(inner) => inner.to_json(),
                None => JsonValue::Null,
            },
        );
        proof {
            assert(member_views(m@) =~= platform_json(*self)->Object_0);
        }
        object_of(m)
    }
}

/// The document of the debit note settings.
pub open spec fn debit_notes_json(v: DebitNotes) -> JsonView {
    JsonView::Object(
        seq![
            ("accept-timeout?"@, unsigned_json(v.accept_timeout)),
        ],
    )
}

impl DebitNotes {
    /// Writes the debit note settings as a document.
    pub fn to_json(&self) -> (r: JsonValue)
        ensures
            r@ == debit_notes_json(*self),
    {
        let mut m: Vec<(String, JsonValue)> = Vec::new();
        put_member(&mut m, "accept-timeout?", unsigned_of(self.accept_timeout));
        proof {
            assert(member_views(m@) =~= debit_notes_json(*self)->Object_0);
        }
        object_of(m)
    }
}

/// The document of the payment terms.
pub open spec fn payment_json(v: Payment) -> JsonView {
    JsonView::Object(
        seq![
            ("debit-notes"@, debit_notes_json(v.debit_notes)),
            ("platform"@, platform_json(v.platform)),
            ("protocol"@, protocol_json(v.protocol)),
        ],
    )
}

impl Payment {
    /// Writes the payment terms as a document.
    pub fn to_json(&self) -> (r: JsonValue)
        ensures
            r@ == payment_json(*self),
    {
        let mut m: Vec<(String, JsonValue)> = Vec::new();
        put_member(&mut m, "debit-notes", self.debit_notes.to_json());
        put_member(&mut m, "platform", self.platform.to_json());
        put_member(&mut m, "protocol", self.protocol.to_json());
        proof {
            assert(member_views(m@) =~= payment_json(*self)->Object_0);
        }
        object_of(m)
    }
}

/// The document of the payment scheme: the name of the choice under `@tag`, and
/// what the choice holds under that name.
pub open spec fn scheme_json(v: Scheme) -> JsonView {
    match v {
        Scheme::Payu { payu } => JsonView::Object(
            seq![("@tag"@, JsonView::Text("payu"@)), ("payu"@, payu_scheme_json(payu))],
        ),
    }
}

impl Scheme {
    /// Writes the payment scheme as a document.
    pub fn to_json(&self) -> (r: JsonValue)
        ensures
            r@ == scheme_json(*self),
    {
        match self {
            Scheme::Payu { payu } => {
                let mut m: Vec<(String, JsonValue)> = Vec::new();
                put_member(&mut m, "@tag", text_of("payu"));
                put_member(&mut m, "payu", payu.to_json());
                proof {
                    assert(member_views(m@) =~= scheme_json(*self)->Object_0);
                }
                object_of(m)
            },
        }
    }
}

/// The document of the pricing model: the name of the choice under `@tag`, and
/// what the choice holds under that name.
pub open spec fn pricing_model_json(v: PricingModel) -> JsonView {
    match v {
        PricingModel::Linear { linear } => JsonView::Object(
            seq![("@tag"@, JsonView::Text("linear"@)), ("linear"@, linear_pricing_json(linear))],
        ),
    }
}

impl PricingModel {
    /// Writes the pricing model as a document.
    pub fn to_json(&self) -> (r: JsonValue)
        ensures
            r@ == pricing_model_json(*self),
    {
        match self {
            PricingModel::Linear { linear } => {
                let mut m: Vec<(String, JsonValue)> = Vec::new();
                put_member(&mut m, "@tag", text_of("linear"));
                put_member(&mut m, "linear", linear.to_json());
                proof {
                    assert(member_views(m@) =~= pricing_model_json(*self)->Object_0);
                }
                object_of(m)
            },
        }
    }
}

/// The document of the pricing.
pub open spec fn pricing_json(v: Pricing) -> JsonView {
    JsonView::Object(
        seq![
            ("model"@, pricing_model_json(v.model)),
        ],
    )
}

impl Pricing {
    /// Writes the pricing as a document.
    pub fn to_json(&self) -> (r: JsonValue)
        ensures
            r@ == pricing_json(*self),
    {
        let mut m: Vec<(String, JsonValue)> = Vec::new();
        put_member(&mut m, "model", self.model.to_json());
        proof {
            assert(member_views(m@) =~= pricing_json(*self)->Object_0);
        }
        object_of(m)
    }
}

/// The document of the commercial terms.
pub open spec fn com_json(v: Com) -> JsonView {
    JsonView::Object(
        seq![
            ("payment"@, payment_json(v.payment)),
            ("pricing"@, pricing_json(v.pricing)),
            ("scheme"@, scheme_json(v.scheme)),
            ("usage"@, usage_json(v.usage)),
        ],
    )
}

impl Com {
    /// Writes the commercial terms as a document.
    pub fn to_json(&self) -> (r: JsonValue)
        ensures
            r@ == com_json(*self),
    {
        let mut m: Vec<(String, JsonValue)> = Vec::new();
        put_member(&mut m, "payment", self.payment.to_json());
        put_member(&mut m, "pricing", self.pricing.to_json());
        put_member(&mut m, "scheme", self.scheme.to_json());
        put_member(&mut m, "usage", self.usage.to_json());
        proof {
            assert(member_views(m@) =~= com_json(*self)->Object_0);
        }
        object_of(m)
    }
}

/// The document of the properties of the offer.
pub open spec fn golem_properties_json(v: GolemProperties) -> JsonView {
    JsonView::Object(
        seq![
            ("com"@, com_json(v.com)),
            ("inf"@, inf_json(v.inf)),
            ("node"@, node_json(v.node)),
            ("runtime"@, runtime_json(v.runtime)),
            ("srv"@, srv_json(v.srv)),
        ],
    )
}

impl GolemProperties {
    /// Writes the properties of the offer as a document.
    pub fn to_json(&self) -> (r: JsonValue)
        ensures
            r@ == golem_properties_json(*self),
    {
        let mut m: Vec<(String, JsonValue)> = Vec::new();
        put_member(&mut m, "com", self.com.to_json());
        put_member(&mut m, "inf", self.inf.to_json());
        put_member(&mut m, "node", self.node.to_json());
        put_member(&mut m, "runtime", self.runtime.to_json());
        put_member(&mut m, "srv", self.srv.to_json());
        proof {
            assert(member_views(m@) =~= golem_properties_json(*self)->Object_0);
        }
        object_of(m)
    }
}

/// The document of the whole property document.
pub open spec fn properties_json(v: Properties) -> JsonView {
    JsonView::Object(
        seq![
            ("golem"@, golem_properties_json(v.golem)),
        ],
    )
}

impl Properties {
    /// Writes the whole property document as a document.
    pub fn to_json(&self) -> (r: JsonValue)
        ensures
            r@ == properties_json(*self),
    {
        let mut m: Vec<(String, JsonValue)> = Vec::new();
        put_member(&mut m, "golem", self.golem.to_json());
        proof {
            assert(member_views(m@) =~= properties_json(*self)->Object_0);
        }
        object_of(m)
    }
}

} // verus!
