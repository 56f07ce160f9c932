use yagna_offer_server::demands::queue::{
    add_offer_to_demand, pick_offer_to_demand, AddOfferToDemand, PickOfferToDemand,
};
use yagna_offer_server::demands::register::{demand_cancel, demand_new, list_demands};
use yagna_offer_server::demands::resolve::resolve;
use yagna_offer_server::demands::sweep::clean_old_demands;
use yagna_offer_server::demands::take::{
    model_offer, take_offer_from_queue, TakeOfferFromQueue, DEFAULT_LIMIT_SIZE,
};
use yagna_offer_server::error::{ErrorKind, MarketError};
use yagna_offer_server::json::{JsonNumber, JsonValue};
use yagna_offer_server::model::demand::base::DemandCancellation;
use yagna_offer_server::offers::push::push_with_salt;
use yagna_offer_server::offers::sweep::clean_old_offers;
use yagna_offer_server::state::{Demands, Offers};
use yagna_offer_server::model::demand::base::DemandSubscription;
use yagna_offer_server::model::offer::base::GolemBaseOffer;
use yagna_offer_server::model::offer::properties::{
    Caps, Com, Cpu, DebitNotes, GolemProperties, Inf, LinearPricing, Mem, Node, NodeName, NodeNet,
    Payment, PayuDebitNote, PayuScheme, Platform, Pricing, PricingModel, Properties, Protocol,
    RealBits, Runtime, Scheme, Srv, Storage, Usage,
};
use yagna_offer_server::node_id::NodeId;
use yagna_offer_server::time::Timestamp;

fn d_node(byte: u8) -> NodeId {
    NodeId { bytes: [byte; 20] }
}

fn d_at(secs: i64) -> Timestamp {
    Timestamp { secs, nanos: 0 }
}

fn d_offer(id: &str, name: &str, published: i64, expires: i64) -> GolemBaseOffer {
    GolemBaseOffer {
        id: id.to_string(),
        properties: Properties {
            golem: GolemProperties {
                com: Com {
                    payment: Payment {
                        debit_notes: DebitNotes { accept_timeout: 240 },
                        platform: Platform { erc20_polygon_glm: None, erc20_hoodi_tglm: None },
                        protocol: Protocol { version: 3 },
                    },
                    pricing: Pricing {
                        model: PricingModel::Linear {
                            linear: LinearPricing { coeffs: vec![RealBits { bits: 0 }] },
                        },
                    },
                    scheme: Scheme::Payu {
                        payu: PayuScheme {
                            debit_note: PayuDebitNote { interval_sec: 120 },
                            payment_timeout_sec: 120,
                        },
                    },
                    usage: Usage { vector: vec!["golem.usage.cpu_sec".to_string()] },
                },
                inf: Inf {
                    cpu: Cpu { architecture: "x86_64".to_string(), cores: 4, threads: 8 },
                    mem: Mem { gib: RealBits { bits: 0x3ff8000000000000 } },
                    storage: Storage { gib: RealBits { bits: 0x3ff8000000000000 } },
                },
                node: Node {
                    debug: None,
                    id: NodeName { name: name.to_string() },
                    net: NodeNet { is_public: false },
                },
                runtime: Runtime { name: "vm".to_string(), version: "0.1.0".to_string() },
                srv: Srv { caps: Caps { multi_activity: true, payload_manifest: false } },
            },
        },
        constraints: "()".to_string(),
        provider_id: d_node(0xee),
        expiration: d_at(expires),
        timestamp: d_at(published),
    }
}

fn d_demand(id: &str, owner: u8, net: Option<&str>, expires: i64) -> DemandSubscription {
    DemandSubscription {
        id: id.to_string(),
        properties: "{}".to_string(),
        constraints: "()".to_string(),
        node_id: d_node(owner),
        creation_ts: d_at(0),
        insertion_ts: None,
        expiration_ts: d_at(expires),
        central_net_address: net.map(|n| n.to_string()),
    }
}

const D_TEXT_AA: &str = "0xaaaaaaaaaaaaaaaaaaaaaaaaaaaaaaaaaaaaaaaa";

fn d_ids(demands: &Demands) -> Vec<String> {
    list_demands(demands).iter().map(|d| d.demand.id.clone()).collect()
}

fn d_queue(demands: &Demands, id: &str) -> Vec<String> {
    let i = demands.find(id).unwrap();
    demands.entry(i).offer_list.iter().cloned().collect()
}

fn d_offers(ids: &[&str]) -> Offers {
    let mut offers = Offers::new();
    for id in ids {
        push_with_salt(&mut offers, d_offer(id, "n-1", 1, 100), 42, d_at(50));
    }
    offers
}

fn d_add(demands: &mut Demands, offers: &mut Offers, demand: &str, offer: &str) -> Result<(), MarketError> {
    add_offer_to_demand(
        demands,
        offers,
        &AddOfferToDemand { demand_id: demand.to_string(), offer_id: offer.to_string() },
    )
}

fn d_take(demands: &mut Demands, offers: &Offers, demand: &str, limit: Option<usize>) -> Result<Vec<String>, MarketError> {
    take_offer_from_queue(
        demands,
        offers,
        &TakeOfferFromQueue { demand_id: demand.to_string(), limit_size: limit },
    )
    .map(|v| v.into_iter().map(|m| m.id).collect())
}

#[test]
fn demands_are_listed_in_ascending_id_order() {
    let mut demands = Demands::new();
    assert_eq!(demand_new(&mut demands, d_demand("m", 1, None, 100)), Ok(()));
    assert_eq!(demand_new(&mut demands, d_demand("a", 2, None, 100)), Ok(()));
    assert_eq!(demand_new(&mut demands, d_demand("z", 3, None, 100)), Ok(()));
    assert_eq!(d_ids(&demands), vec!["a", "m", "z"]);
    assert_eq!(demands.len(), 3);
}

#[test]
fn registering_a_taken_id_is_a_conflict() {
    let mut demands = Demands::new();
    demand_new(&mut demands, d_demand("d1", 1, Some("x"), 100)).unwrap();
    let again = demand_new(&mut demands, d_demand("d1", 2, Some("y"), 200));
    assert_eq!(again, Err(MarketError::DemandExists));
    assert_eq!(MarketError::DemandExists.kind(), ErrorKind::Conflict);
    assert_eq!(demands.len(), 1);
    assert_eq!(demands.entry(0).demand, d_demand("d1", 1, Some("x"), 100));
}

#[test]
fn a_new_demand_replaces_the_one_of_its_node_and_carries_the_queue() {
    let mut demands = Demands::new();
    let mut offers = d_offers(&["o1", "o2", "o3"]);
    demand_new(&mut demands, d_demand("old", 0xaa, None, 100)).unwrap();
    demand_new(&mut demands, d_demand("other", 0xbb, None, 100)).unwrap();
    d_add(&mut demands, &mut offers, "old", "o2").unwrap();
    d_add(&mut demands, &mut offers, "old", "o1").unwrap();
    d_add(&mut demands, &mut offers, "other", "o3").unwrap();

    assert_eq!(demand_new(&mut demands, d_demand("new", 0xaa, Some("x"), 300)), Ok(()));
    assert_eq!(d_ids(&demands), vec!["new", "other"]);
    assert_eq!(d_queue(&demands, "new"), vec!["o2", "o1"]);
    assert_eq!(d_queue(&demands, "other"), vec!["o3"]);
    assert_eq!(demands.entry(0).demand, d_demand("new", 0xaa, Some("x"), 300));
    let owned: Vec<_> = list_demands(&demands)
        .into_iter()
        .filter(|d| d.demand.node_id == d_node(0xaa))
        .collect();
    assert_eq!(owned.len(), 1);
}

#[test]
fn a_first_demand_starts_with_an_empty_queue() {
    let mut demands = Demands::new();
    demand_new(&mut demands, d_demand("d1", 1, None, 100)).unwrap();
    assert!(demands.entry(0).offer_list.is_empty());
}

#[test]
fn cancel_removes_by_id_only() {
    let mut demands = Demands::new();
    demand_new(&mut demands, d_demand("d1", 0xaa, None, 100)).unwrap();
    demand_new(&mut demands, d_demand("d2", 0xbb, None, 100)).unwrap();
    let missing = DemandCancellation { demand_id: "d3".to_string() };
    assert_eq!(demand_cancel(&mut demands, &missing), Err(MarketError::DemandNotFound));
    let by_node = DemandCancellation { demand_id: D_TEXT_AA.to_string() };
    assert_eq!(demand_cancel(&mut demands, &by_node), Err(MarketError::DemandNotFound));
    assert_eq!(demands.len(), 2);
    let hit = DemandCancellation { demand_id: "d1".to_string() };
    assert_eq!(demand_cancel(&mut demands, &hit), Ok(()));
    assert_eq!(d_ids(&demands), vec!["d2"]);
    assert_eq!(demand_cancel(&mut demands, &hit), Err(MarketError::DemandNotFound));
}

#[test]
fn resolve_prefers_the_demand_id_and_falls_back_to_the_owner() {
    let mut demands = Demands::new();
    demand_new(&mut demands, d_demand("d1", 0xbb, None, 100)).unwrap();
    demand_new(&mut demands, d_demand("d2", 0xaa, None, 100)).unwrap();
    assert_eq!(resolve(&demands, "d1"), Ok(0));
    assert_eq!(resolve(&demands, "d2"), Ok(1));
    assert_eq!(resolve(&demands, D_TEXT_AA), Ok(1));
    assert_eq!(resolve(&demands, "0xbbbbbbbbbbbbbbbbbbbbbbbbbbbbbbbbbbbbbbbb"), Ok(0));
    assert_eq!(resolve(&demands, "0xBBBBBBBBBBBBBBBBbbbbbbbbbbbbbbbbbbbbbbbb"), Ok(0));
}

#[test]
fn resolve_reports_unknown_nodes_and_malformed_identifiers() {
    let mut demands = Demands::new();
    demand_new(&mut demands, d_demand("d1", 0xbb, None, 100)).unwrap();
    assert_eq!(
        resolve(&demands, "0xcccccccccccccccccccccccccccccccccccccccc"),
        Err(MarketError::DemandNotFound)
    );
    assert_eq!(resolve(&demands, "d9"), Err(MarketError::InvalidIdentifier));
    assert_eq!(resolve(&demands, ""), Err(MarketError::InvalidIdentifier));
    assert_eq!(
        resolve(&demands, "bbbbbbbbbbbbbbbbbbbbbbbbbbbbbbbbbbbbbbbbbb"),
        Err(MarketError::InvalidIdentifier)
    );
    assert_eq!(
        resolve(&demands, "0xbbbbbbbbbbbbbbbbbbbbbbbbbbbbbbbbbbbbbbbg"),
        Err(MarketError::InvalidIdentifier)
    );
    assert_eq!(
        resolve(&demands, "0xbbbbbbbbbbbbbbbbbbbbbbbbbbbbbbbbbbbbbbbbb"),
        Err(MarketError::InvalidIdentifier)
    );
    assert_eq!(
        resolve(&demands, "0Xbbbbbbbbbbbbbbbbbbbbbbbbbbbbbbbbbbbbbbbb"),
        Err(MarketError::InvalidIdentifier)
    );
    assert_eq!(MarketError::InvalidIdentifier.kind(), ErrorKind::InvalidIdentifier);
    assert_eq!(MarketError::DemandNotFound.kind(), ErrorKind::NotFound);
}

#[test]
fn resolve_reads_each_pair_of_digits_as_one_byte() {
    let mut demands = Demands::new();
    let mut demand = d_demand("d1", 0, None, 100);
    demand.node_id = NodeId {
        bytes: [
            0x01, 0x23, 0x45, 0x67, 0x89, 0xab, 0xcd, 0xef, 0x10, 0x32, 0x54, 0x76, 0x98, 0xba,
            0xdc, 0xfe, 0x00, 0xff, 0x0f, 0xf0,
        ],
    };
    demand_new(&mut demands, demand).unwrap();
    assert_eq!(resolve(&demands, "0x0123456789abcdef1032547698badcfe00ff0ff0"), Ok(0));
    assert_eq!(resolve(&demands, "0x0123456789ABCDEF1032547698BADCFE00FF0FF0"), Ok(0));
    assert_eq!(
        resolve(&demands, "0x1032547698badcfe0123456789abcdef00ff0ff0"),
        Err(MarketError::DemandNotFound)
    );
}

#[test]
fn a_demand_whose_id_looks_like_a_node_is_found_by_id_first() {
    let mut demands = Demands::new();
    demand_new(&mut demands, d_demand("a", 0xaa, None, 100)).unwrap();
    demand_new(&mut demands, d_demand(D_TEXT_AA, 0xbb, None, 100)).unwrap();
    let i = resolve(&demands, D_TEXT_AA).unwrap();
    assert_eq!(demands.entry(i).demand.node_id, d_node(0xbb));
}

#[test]
fn add_offer_assigns_and_enqueues() {
    let mut demands = Demands::new();
    let mut offers = d_offers(&["o1", "o2"]);
    demand_new(&mut demands, d_demand("d1", 0xaa, None, 100)).unwrap();
    assert_eq!(d_add(&mut demands, &mut offers, "d1", "o2"), Ok(()));
    assert_eq!(offers.get("o2").unwrap().requestor_id, Some(d_node(0xaa)));
    assert_eq!(offers.get("o1").unwrap().requestor_id, None);
    assert_eq!(d_queue(&demands, "d1"), vec!["o2"]);
    assert_eq!(d_add(&mut demands, &mut offers, D_TEXT_AA, "o1"), Ok(()));
    assert_eq!(d_queue(&demands, "d1"), vec!["o2", "o1"]);
}

#[test]
fn add_offer_checks_offer_then_demand_then_assignment() {
    let mut demands = Demands::new();
    let mut offers = d_offers(&["o1"]);
    demand_new(&mut demands, d_demand("d1", 0xaa, None, 100)).unwrap();
    demand_new(&mut demands, d_demand("d2", 0xbb, None, 100)).unwrap();
    assert_eq!(d_add(&mut demands, &mut offers, "nope", "missing"), Err(MarketError::OfferNotFound));
    assert_eq!(d_add(&mut demands, &mut offers, "nope", "o1"), Err(MarketError::InvalidIdentifier));
    assert_eq!(
        d_add(&mut demands, &mut offers, "0xcccccccccccccccccccccccccccccccccccccccc", "o1"),
        Err(MarketError::DemandNotFound)
    );
    assert_eq!(d_add(&mut demands, &mut offers, "d1", "o1"), Ok(()));
    assert_eq!(d_add(&mut demands, &mut offers, "d2", "o1"), Err(MarketError::OfferTaken));
    assert_eq!(d_add(&mut demands, &mut offers, "nope", "o1"), Err(MarketError::InvalidIdentifier));
    assert_eq!(MarketError::OfferTaken.kind(), ErrorKind::Conflict);
    assert_eq!(MarketError::OfferNotFound.kind(), ErrorKind::NotFound);
    assert_eq!(offers.get("o1").unwrap().requestor_id, Some(d_node(0xaa)));
    assert!(d_queue(&demands, "d2").is_empty());
}

#[test]
fn pick_takes_the_first_free_offer_whose_node_name_suits() {
    let mut demands = Demands::new();
    let mut offers = Offers::new();
    push_with_salt(&mut offers, d_offer("a", "other-1", 1, 100), 42, d_at(50));
    push_with_salt(&mut offers, d_offer("b", "my-central-7", 1, 100), 42, d_at(50));
    push_with_salt(&mut offers, d_offer("c", "central-1", 1, 100), 42, d_at(50));
    demand_new(&mut demands, d_demand("d1", 0xaa, Some("central.example.net"), 100)).unwrap();
    let request = PickOfferToDemand { demand_id: "d1".to_string() };
    assert_eq!(pick_offer_to_demand(&mut demands, &mut offers, &request), Ok(()));
    assert_eq!(d_queue(&demands, "d1"), vec!["b"]);
    assert_eq!(offers.get("b").unwrap().requestor_id, Some(d_node(0xaa)));
    assert_eq!(pick_offer_to_demand(&mut demands, &mut offers, &request), Ok(()));
    assert_eq!(d_queue(&demands, "d1"), vec!["b", "c"]);
    assert_eq!(
        pick_offer_to_demand(&mut demands, &mut offers, &request),
        Err(MarketError::NoOfferAvailable)
    );
    assert_eq!(MarketError::NoOfferAvailable.kind(), ErrorKind::NotFound);
    assert_eq!(offers.get("a").unwrap().requestor_id, None);
}

#[test]
fn pick_without_an_address_takes_any_free_offer() {
    let mut demands = Demands::new();
    let mut offers = d_offers(&["b", "a"]);
    demand_new(&mut demands, d_demand("d1", 0xaa, None, 100)).unwrap();
    let request = PickOfferToDemand { demand_id: D_TEXT_AA.to_string() };
    assert_eq!(pick_offer_to_demand(&mut demands, &mut offers, &request), Ok(()));
    assert_eq!(d_queue(&demands, "d1"), vec!["a"]);
}

#[test]
fn pick_reports_how_the_demand_was_not_found() {
    let mut demands = Demands::new();
    let mut offers = d_offers(&["a"]);
    let request = PickOfferToDemand { demand_id: "d1".to_string() };
    assert_eq!(
        pick_offer_to_demand(&mut demands, &mut offers, &request),
        Err(MarketError::InvalidIdentifier)
    );
    let request = PickOfferToDemand { demand_id: D_TEXT_AA.to_string() };
    assert_eq!(
        pick_offer_to_demand(&mut demands, &mut offers, &request),
        Err(MarketError::DemandNotFound)
    );
    assert_eq!(offers.get("a").unwrap().requestor_id, None);
}

#[test]
fn drain_hands_out_the_queue_in_order_up_to_the_limit() {
    let mut demands = Demands::new();
    let mut offers = d_offers(&["A", "B", "C"]);
    demand_new(&mut demands, d_demand("d1", 0xaa, None, 100)).unwrap();
    for id in ["B", "A", "C"] {
        d_add(&mut demands, &mut offers, "d1", id).unwrap();
    }
    assert_eq!(d_take(&mut demands, &offers, "d1", Some(2)), Ok(vec!["B".to_string(), "A".to_string()]));
    assert_eq!(d_queue(&demands, "d1"), vec!["C"]);
    assert_eq!(d_take(&mut demands, &offers, "d1", Some(0)), Ok(vec![]));
    assert_eq!(d_queue(&demands, "d1"), vec!["C"]);
    assert_eq!(d_take(&mut demands, &offers, D_TEXT_AA, None), Ok(vec!["C".to_string()]));
    assert_eq!(d_take(&mut demands, &offers, "d1", None), Ok(vec![]));
}

#[test]
fn drain_stops_at_an_offer_that_is_gone() {
    let mut demands = Demands::new();
    let mut offers = Offers::new();
    push_with_salt(&mut offers, d_offer("A", "n-1", 1, 10_000), 42, d_at(50));
    push_with_salt(&mut offers, d_offer("B", "n-1", 1, 10), 42, d_at(50));
    push_with_salt(&mut offers, d_offer("C", "n-1", 1, 10_000), 42, d_at(50));
    demand_new(&mut demands, d_demand("d1", 0xaa, None, 100)).unwrap();
    for id in ["A", "B", "C"] {
        d_add(&mut demands, &mut offers, "d1", id).unwrap();
    }
    assert_eq!(clean_old_offers(&mut offers, 0, d_at(100)), 1);
    assert_eq!(d_take(&mut demands, &offers, "d1", None), Ok(vec!["A".to_string()]));
    assert_eq!(d_queue(&demands, "d1"), vec!["C"]);
    assert_eq!(d_take(&mut demands, &offers, "d1", None), Ok(vec!["C".to_string()]));
}

#[test]
fn drain_that_meets_the_limit_leaves_a_dangling_id_in_the_queue() {
    let mut demands = Demands::new();
    let mut offers = Offers::new();
    push_with_salt(&mut offers, d_offer("A", "n-1", 1, 10_000), 42, d_at(50));
    push_with_salt(&mut offers, d_offer("B", "n-1", 1, 10), 42, d_at(50));
    demand_new(&mut demands, d_demand("d1", 0xaa, None, 100)).unwrap();
    for id in ["A", "B"] {
        d_add(&mut demands, &mut offers, "d1", id).unwrap();
    }
    clean_old_offers(&mut offers, 0, d_at(100));
    assert_eq!(d_take(&mut demands, &offers, "d1", Some(1)), Ok(vec!["A".to_string()]));
    assert_eq!(d_queue(&demands, "d1"), vec!["B"]);
    assert_eq!(d_take(&mut demands, &offers, "d1", Some(1)), Ok(vec![]));
    assert!(d_queue(&demands, "d1").is_empty());
}

#[test]
fn drain_defaults_to_fifty_offers() {
    assert_eq!(DEFAULT_LIMIT_SIZE, 50);
    let mut demands = Demands::new();
    let mut offers = Offers::new();
    demand_new(&mut demands, d_demand("d1", 0xaa, None, 100)).unwrap();
    for i in 0..60 {
        let id = format!("offer-{:03}", i);
        push_with_salt(&mut offers, d_offer(&id, "n-1", 1, 100), 42, d_at(50));
        d_add(&mut demands, &mut offers, "d1", &id).unwrap();
    }
    let first = d_take(&mut demands, &offers, "d1", None).unwrap();
    assert_eq!(first.len(), 50);
    assert_eq!(first[0], "offer-000");
    assert_eq!(first[49], "offer-049");
    assert_eq!(d_queue(&demands, "d1").len(), 10);
}

#[test]
fn drain_reports_an_unknown_demand() {
    let mut demands = Demands::new();
    let offers = Offers::new();
    assert_eq!(d_take(&mut demands, &offers, "d1", None), Err(MarketError::InvalidIdentifier));
    assert_eq!(d_take(&mut demands, &offers, D_TEXT_AA, None), Err(MarketError::DemandNotFound));
}

#[test]
fn model_offer_projects_the_offer() {
    let offer = d_offer("offer-1", "brick-7", 11, 99);
    let model = model_offer(&offer);
    assert_eq!(model.id, "offer-1");
    assert_eq!(model.constraints, "()");
    assert_eq!(model.node_id, d_node(0xee));
    assert_eq!(model.owned, None);
    assert_eq!(model.creation_ts, d_at(11));
    assert_eq!(model.insertion_ts, None);
    assert_eq!(model.expiration_ts, d_at(99));
    let flat = &model.properties;
    let keys: Vec<&str> = (0..flat.len()).map(|i| flat.key_at(i).as_str()).collect();
    assert_eq!(
        keys,
        vec![
            "golem.com.payment.debit-notes.accept-timeout?",
            "golem.com.payment.platform.erc20-hoodi-tglm",
            "golem.com.payment.platform.erc20-polygon-glm",
            "golem.com.payment.protocol.version",
            "golem.com.pricing.model",
            "golem.com.pricing.model.linear.coeffs",
            "golem.com.scheme",
            "golem.com.scheme.payu.debit-note.interval-sec?",
            "golem.com.scheme.payu.payment-timeout-sec?",
            "golem.com.usage.vector",
            "golem.inf.cpu.architecture",
            "golem.inf.cpu.cores",
            "golem.inf.cpu.threads",
            "golem.inf.mem.gib",
            "golem.inf.storage.gib",
            "golem.node.debug",
            "golem.node.id.name",
            "golem.node.net.is-public",
            "golem.runtime.name",
            "golem.runtime.version",
            "golem.srv.caps.multi-activity",
            "golem.srv.caps.payload-manifest",
        ]
    );
    let at = |key: &str| flat.value_at(flat.find(key).unwrap());
    assert_eq!(at("golem.com.pricing.model"), &JsonValue::Text("linear".to_string()));
    assert_eq!(at("golem.com.scheme"), &JsonValue::Text("payu".to_string()));
    assert_eq!(at("golem.node.debug"), &JsonValue::Null);
    assert_eq!(at("golem.node.id.name"), &JsonValue::Text("brick-7".to_string()));
    assert_eq!(at("golem.inf.cpu.threads"), &JsonValue::Number(JsonNumber::PosInt(8)));
    assert_eq!(
        at("golem.inf.mem.gib"),
        &JsonValue::Number(JsonNumber::Real(RealBits { bits: 0x3ff8000000000000 }))
    );
    assert_eq!(
        at("golem.com.usage.vector"),
        &JsonValue::Array(vec![JsonValue::Text("golem.usage.cpu_sec".to_string())])
    );
    assert_eq!(at("golem.srv.caps.multi-activity"), &JsonValue::Bool(true));
}

#[test]
fn demand_sweep_removes_demands_whose_time_has_come() {
    let mut demands = Demands::new();
    demand_new(&mut demands, d_demand("past", 1, None, 99)).unwrap();
    demand_new(&mut demands, d_demand("now", 2, None, 100)).unwrap();
    demand_new(&mut demands, d_demand("soon", 3, None, 101)).unwrap();
    assert_eq!(clean_old_demands(&mut demands, d_at(100)), 2);
    assert_eq!(d_ids(&demands), vec!["soon"]);
    assert_eq!(clean_old_demands(&mut demands, Timestamp { secs: 100, nanos: 999_999_999 }), 0);
    assert_eq!(clean_old_demands(&mut demands, d_at(101)), 1);
    assert_eq!(demands.len(), 0);
}

#[test]
fn a_swept_node_can_register_again_with_an_empty_queue() {
    let mut demands = Demands::new();
    let mut offers = d_offers(&["o1"]);
    demand_new(&mut demands, d_demand("d1", 0xaa, None, 10)).unwrap();
    d_add(&mut demands, &mut offers, "d1", "o1").unwrap();
    clean_old_demands(&mut demands, d_at(50));
    demand_new(&mut demands, d_demand("d2", 0xaa, None, 100)).unwrap();
    assert!(d_queue(&demands, "d2").is_empty());
}

#[test]
fn error_messages() {
    assert_eq!(MarketError::DemandNotFound.message(), "Demand not found");
    assert_eq!(MarketError::OfferNotFound.message(), "Offer not found");
    assert_eq!(MarketError::OfferTaken.message(), "Offer is already taken");
    assert_eq!(MarketError::NoOfferAvailable.message(), "No available offers found");
    assert_eq!(MarketError::InvalidIdentifier.message(), "Invalid offer ID format or not found");
    assert_eq!(MarketError::DemandExists.message(), "Demand with the same id already exists");
}
