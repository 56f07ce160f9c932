use yagna_offer_server::demands::queue::PickOfferToDemand;
use yagna_offer_server::demands::register::demand_new;
use yagna_offer_server::error::MarketError;
use yagna_offer_server::matching::assign::{
    find_newest, is_eligible, local_pick_offer_to_demand, serves_partition,
};
use yagna_offer_server::matching::tick::{
    central_nets, find_least_served, pick_offers_for_all_demands, MatchingScheduler, Tick,
};
use yagna_offer_server::offers::push::push_with_salt;
use yagna_offer_server::offers::take::{get_if_available, FilterAttributes};
use yagna_offer_server::state::{AssignmentLedger, Demands, Offers};
use yagna_offer_server::model::demand::base::DemandSubscription;
use yagna_offer_server::model::offer::base::GolemBaseOffer;
use yagna_offer_server::model::offer::properties::{
    Caps, Com, Cpu, DebitNotes, GolemProperties, Inf, LinearPricing, Mem, Node, NodeName, NodeNet,
    Payment, PayuDebitNote, PayuScheme, Platform, Pricing, PricingModel, Properties, Protocol,
    RealBits, Runtime, Scheme, Srv, Storage, Usage,
};
use yagna_offer_server::node_id::NodeId;
use yagna_offer_server::time::Timestamp;

fn m_node(byte: u8) -> NodeId {
    NodeId { bytes: [byte; 20] }
}

fn m_at(secs: i64) -> Timestamp {
    Timestamp { secs, nanos: 0 }
}

fn m_offer(id: &str, name: &str, published: i64, expires: i64) -> GolemBaseOffer {
    GolemBaseOffer {
        id: id.to_string(),
        properties: Properties {
            golem: GolemProperties {
                com: Com {
                    payment: Payment {
                        debit_notes: DebitNotes { accept_timeout: 240 },
                        platform: Platform { erc20_polygon_glm: None, erc20_hoodi_tglm: None },
                        protocol: Protocol { version: 3 },
                    },
                    pricing: Pricing {
                        model: PricingModel::Linear {
                            linear: LinearPricing { coeffs: vec![RealBits { bits: 0 }] },
                        },
                    },
                    scheme: Scheme::Payu {
                        payu: PayuScheme {
                            debit_note: PayuDebitNote { interval_sec: 120 },
                            payment_timeout_sec: 120,
                        },
                    },
                    usage: Usage { vector: vec!["golem.usage.cpu_sec".to_string()] },
                },
                inf: Inf {
                    cpu: Cpu { architecture: "x86_64".to_string(), cores: 4, threads: 8 },
                    mem: Mem { gib: RealBits { bits: 0x3ff8000000000000 } },
                    storage: Storage { gib: RealBits { bits: 0x3ff8000000000000 } },
                },
                node: Node {
                    debug: None,
                    id: NodeName { name: name.to_string() },
                    net: NodeNet { is_public: false },
                },
                runtime: Runtime { name: "vm".to_string(), version: "0.1.0".to_string() },
                srv: Srv { caps: Caps { multi_activity: true, payload_manifest: false } },
            },
        },
        constraints: "()".to_string(),
        provider_id: m_node(0xee),
        expiration: m_at(expires),
        timestamp: m_at(published),
    }
}

fn m_demand(id: &str, owner: u8, net: Option<&str>, expires: i64) -> DemandSubscription {
    DemandSubscription {
        id: id.to_string(),
        properties: "{}".to_string(),
        constraints: "()".to_string(),
        node_id: m_node(owner),
        creation_ts: m_at(0),
        insertion_ts: None,
        expiration_ts: m_at(expires),
        central_net_address: net.map(|n| n.to_string()),
    }
}

const M_NOW: i64 = 10_000;

fn m_text(byte: u8) -> String {
    format!("0x{}", format!("{:02x}", byte).repeat(20))
}

fn m_push(offers: &mut Offers, id: &str, name: &str, published: i64, expires: i64) {
    push_with_salt(offers, m_offer(id, name, published, expires), 42, m_at(1));
}

fn m_claim_first(offers: &mut Offers, requestor: u8) -> Option<usize> {
    get_if_available(
        offers,
        &FilterAttributes {
            requestor_id: m_node(requestor),
            exe_name: None,
            cpu_threads_min: None,
            cpu_threads_max: None,
            provider_group_min: None,
            provider_group_max: None,
            id_group_min: None,
            id_group_max: None,
            node_id: None,
            subnet: None,
            cpu_architecture: None,
        },
    )
}

fn m_pick(
    demands: &mut Demands,
    offers: &mut Offers,
    ledger: &mut AssignmentLedger,
    demand: &str,
    net: Option<&str>,
) -> Result<bool, MarketError> {
    local_pick_offer_to_demand(
        demands,
        offers,
        ledger,
        &PickOfferToDemand { demand_id: demand.to_string() },
        net,
        m_at(M_NOW),
    )
}

fn m_queue(demands: &Demands, id: &str) -> Vec<String> {
    let i = demands.find(id).unwrap();
    demands.entry(i).offer_list.iter().cloned().collect()
}

fn m_served(tick: &Tick) -> (String, String, u64, bool) {
    match tick {
        Tick::Served { net, demand_id, given, found } => {
            (net.clone(), demand_id.clone(), *given, *found)
        }
        Tick::NoPartition => panic!("no partition was served"),
    }
}

#[test]
fn the_newest_eligible_offer_is_given() {
    let mut demands = Demands::new();
    let mut offers = Offers::new();
    let mut ledger = AssignmentLedger::new();
    m_push(&mut offers, "a", "net-1", 100, 20_000);
    m_push(&mut offers, "b", "net-2", 300, 20_000);
    m_push(&mut offers, "c", "net-3", 200, 20_000);
    demand_new(&mut demands, m_demand("d1", 0xaa, Some("net.example"), 50_000)).unwrap();
    assert_eq!(m_pick(&mut demands, &mut offers, &mut ledger, "d1", Some("net.example")), Ok(true));
    assert_eq!(m_queue(&demands, "d1"), vec!["b"]);
    assert_eq!(offers.get("b").unwrap().requestor_id, Some(m_node(0xaa)));
    assert_eq!(offers.get("a").unwrap().requestor_id, None);
    assert_eq!(ledger.count(&m_text(0xaa)), 1);
    assert_eq!(m_pick(&mut demands, &mut offers, &mut ledger, "d1", Some("net.example")), Ok(true));
    assert_eq!(m_pick(&mut demands, &mut offers, &mut ledger, "d1", Some("net.example")), Ok(true));
    assert_eq!(m_queue(&demands, "d1"), vec!["b", "c", "a"]);
    assert_eq!(ledger.count(&m_text(0xaa)), 3);
    assert_eq!(m_pick(&mut demands, &mut offers, &mut ledger, "d1", Some("net.example")), Ok(false));
    assert_eq!(ledger.count(&m_text(0xaa)), 3);
    assert_eq!(m_queue(&demands, "d1").len(), 3);
}

#[test]
fn among_equally_new_offers_the_first_in_id_order_is_given() {
    let mut offers = Offers::new();
    m_push(&mut offers, "c", "net-1", 300, 20_000);
    m_push(&mut offers, "a", "net-1", 100, 20_000);
    m_push(&mut offers, "b", "net-1", 300, 20_000);
    assert_eq!(find_newest(&offers, None, m_at(M_NOW)), Some(1));
}

#[test]
fn newest_compares_nanoseconds() {
    let mut offers = Offers::new();
    let mut early = m_offer("a", "net-1", 300, 20_000);
    early.timestamp = Timestamp { secs: 300, nanos: 5 };
    let mut late = m_offer("b", "net-1", 300, 20_000);
    late.timestamp = Timestamp { secs: 300, nanos: 6 };
    push_with_salt(&mut offers, late, 42, m_at(1));
    push_with_salt(&mut offers, early, 42, m_at(1));
    assert_eq!(find_newest(&offers, None, m_at(M_NOW)), Some(1));
}

#[test]
fn offers_from_the_future_are_not_given() {
    let mut offers = Offers::new();
    m_push(&mut offers, "a", "net-1", M_NOW, 20_000);
    m_push(&mut offers, "b", "net-1", M_NOW + 1, 20_000);
    assert_eq!(find_newest(&offers, None, m_at(M_NOW)), None);
    m_push(&mut offers, "c", "net-1", M_NOW - 1, 20_000);
    assert_eq!(find_newest(&offers, None, m_at(M_NOW)), Some(2));
    assert_eq!(find_newest(&offers, None, Timestamp { secs: M_NOW, nanos: 1 }), Some(0));
}

#[test]
fn expired_offers_are_not_given() {
    let mut offers = Offers::new();
    m_push(&mut offers, "a", "net-1", 100, M_NOW - 1);
    assert_eq!(find_newest(&offers, None, m_at(M_NOW)), None);
    m_push(&mut offers, "b", "net-1", 50, M_NOW);
    assert_eq!(find_newest(&offers, None, m_at(M_NOW)), Some(1));
    assert!(!is_eligible(offers.entry(0), None, m_at(M_NOW)));
    assert!(is_eligible(offers.entry(1), None, m_at(M_NOW)));
}

#[test]
fn very_old_offers_can_still_be_given() {
    let mut offers = Offers::new();
    m_push(&mut offers, "a", "net-1", -4_000_000_000, 20_000);
    assert_eq!(find_newest(&offers, None, m_at(M_NOW)), Some(0));
}

#[test]
fn assigned_offers_are_not_given_again() {
    let mut offers = Offers::new();
    m_push(&mut offers, "a", "net-1", 100, 20_000);
    assert_eq!(m_claim_first(&mut offers, 0x11), Some(0));
    assert_eq!(find_newest(&offers, None, m_at(M_NOW)), None);
}

#[test]
fn the_partition_must_hold_the_name_group() {
    assert!(serves_partition("net", Some("net.example")));
    assert!(serves_partition("net", Some("subnet.example")));
    assert!(serves_partition("", Some("x")));
    assert!(!serves_partition("net", Some("ne.t")));
    assert!(!serves_partition("netx", Some("net")));
    assert!(serves_partition("anything", None));
    assert!(serves_partition("anything", Some("127.0.0.1:7464")));
    assert!(serves_partition("anything", Some("http://127.0.0.1")));
    assert!(!serves_partition("anything", Some("127.0.0.2")));
}

#[test]
fn the_name_group_is_the_part_before_the_first_dash() {
    let mut offers = Offers::new();
    m_push(&mut offers, "a", "alpha-beta-3", 100, 20_000);
    m_push(&mut offers, "b", "gamma", 200, 20_000);
    m_push(&mut offers, "c", "-delta", 300, 20_000);
    assert_eq!(offers.entry(0).attributes.name_group, "alpha");
    assert_eq!(offers.entry(1).attributes.name_group, "gamma");
    assert_eq!(offers.entry(2).attributes.name_group, "");
    assert_eq!(find_newest(&offers, Some("alpha.net"), m_at(M_NOW)), Some(2));
    assert_eq!(find_newest(&offers, Some("beta.net"), m_at(M_NOW)), Some(2));
    assert!(!is_eligible(offers.entry(0), Some("beta.net"), m_at(M_NOW)));
    assert!(is_eligible(offers.entry(0), Some("alpha.net"), m_at(M_NOW)));
}

#[test]
fn pick_fails_without_touching_the_stores_when_the_demand_is_unknown() {
    let mut demands = Demands::new();
    let mut offers = Offers::new();
    let mut ledger = AssignmentLedger::new();
    m_push(&mut offers, "a", "net-1", 100, 20_000);
    assert_eq!(
        m_pick(&mut demands, &mut offers, &mut ledger, "d1", None),
        Err(MarketError::InvalidIdentifier)
    );
    assert_eq!(
        m_pick(&mut demands, &mut offers, &mut ledger, &m_text(0xaa), None),
        Err(MarketError::DemandNotFound)
    );
    assert_eq!(offers.entry(0).requestor_id, None);
    assert_eq!(ledger.count(&m_text(0xaa)), 0);
}

#[test]
fn pick_by_the_owner_counts_for_the_owner() {
    let mut demands = Demands::new();
    let mut offers = Offers::new();
    let mut ledger = AssignmentLedger::new();
    m_push(&mut offers, "a", "net-1", 100, 20_000);
    demand_new(&mut demands, m_demand("d1", 0xaa, None, 50_000)).unwrap();
    assert_eq!(m_pick(&mut demands, &mut offers, &mut ledger, &m_text(0xaa), None), Ok(true));
    assert_eq!(ledger.count("0xaaaaaaaaaaaaaaaaaaaaaaaaaaaaaaaaaaaaaaaa"), 1);
    assert_eq!(ledger.count("0xAAAAAAAAAAAAAAAAAAAAAAAAAAAAAAAAAAAAAAAA"), 0);
    assert_eq!(ledger.count("d1"), 0);
}

#[test]
fn partitions_are_the_distinct_non_empty_addresses_in_order() {
    let mut demands = Demands::new();
    demand_new(&mut demands, m_demand("d1", 1, Some("y"), 50_000)).unwrap();
    demand_new(&mut demands, m_demand("d2", 2, None, 50_000)).unwrap();
    demand_new(&mut demands, m_demand("d3", 3, Some("x"), 50_000)).unwrap();
    demand_new(&mut demands, m_demand("d4", 4, Some(""), 50_000)).unwrap();
    demand_new(&mut demands, m_demand("d5", 5, Some("y"), 50_000)).unwrap();
    assert_eq!(central_nets(&demands), vec!["x", "y"]);
    assert_eq!(central_nets(&Demands::new()), Vec::<String>::new());
}

#[test]
fn the_least_served_demand_of_the_partition_is_chosen() {
    let mut demands = Demands::new();
    let mut ledger = AssignmentLedger::new();
    demand_new(&mut demands, m_demand("d1", 0x01, Some("x"), 50_000)).unwrap();
    demand_new(&mut demands, m_demand("d2", 0x02, Some("x"), 50_000)).unwrap();
    demand_new(&mut demands, m_demand("d3", 0x03, Some("x"), 50_000)).unwrap();
    demand_new(&mut demands, m_demand("d0", 0x04, Some("y"), 50_000)).unwrap();
    for _ in 0..5 {
        ledger.record(m_text(0x01));
    }
    for _ in 0..2 {
        ledger.record(m_text(0x03));
    }
    assert_eq!(find_least_served(&demands, &ledger, "x"), Some((2, 0)));
    assert_eq!(find_least_served(&demands, &ledger, "y"), Some((0, 0)));
    assert_eq!(find_least_served(&demands, &ledger, "z"), None);
    ledger.record(m_text(0x02));
    ledger.record(m_text(0x02));
    ledger.record(m_text(0x02));
    assert_eq!(find_least_served(&demands, &ledger, "x"), Some((3, 2)));
}

#[test]
fn ties_in_grants_go_to_the_first_demand_in_id_order() {
    let mut demands = Demands::new();
    let mut ledger = AssignmentLedger::new();
    demand_new(&mut demands, m_demand("b", 0x01, Some("x"), 50_000)).unwrap();
    demand_new(&mut demands, m_demand("a", 0x02, Some("x"), 50_000)).unwrap();
    ledger.record(m_text(0x01));
    ledger.record(m_text(0x02));
    assert_eq!(find_least_served(&demands, &ledger, "x"), Some((0, 1)));
}

#[test]
fn fairness_serves_the_demand_with_no_grants_first() {
    let mut demands = Demands::new();
    let mut offers = Offers::new();
    let mut ledger = AssignmentLedger::new();
    let mut scheduler = MatchingScheduler::new();
    demand_new(&mut demands, m_demand("d1", 0x01, Some("x"), 50_000)).unwrap();
    demand_new(&mut demands, m_demand("d2", 0x02, Some("x"), 50_000)).unwrap();
    demand_new(&mut demands, m_demand("d3", 0x03, Some("x"), 50_000)).unwrap();
    for _ in 0..5 {
        ledger.record(m_text(0x01));
    }
    for _ in 0..2 {
        ledger.record(m_text(0x03));
    }
    m_push(&mut offers, "o1", "x-1", 100, 20_000);
    m_push(&mut offers, "o2", "x-2", 200, 20_000);
    m_push(&mut offers, "o3", "x-3", 300, 20_000);
    m_push(&mut offers, "o4", "x-4", 400, 20_000);
    let tick = pick_offers_for_all_demands(&mut demands, &mut offers, &mut ledger, &mut scheduler, m_at(M_NOW));
    assert_eq!(m_served(&tick), ("x".to_string(), "d2".to_string(), 0, true));
    assert_eq!(m_queue(&demands, "d2"), vec!["o4"]);
    assert_eq!(offers.get("o4").unwrap().requestor_id, Some(m_node(0x02)));
    assert_eq!(ledger.count(&m_text(0x02)), 1);
    let tick = pick_offers_for_all_demands(&mut demands, &mut offers, &mut ledger, &mut scheduler, m_at(M_NOW));
    assert_eq!(m_served(&tick), ("x".to_string(), "d2".to_string(), 1, true));
    let tick = pick_offers_for_all_demands(&mut demands, &mut offers, &mut ledger, &mut scheduler, m_at(M_NOW));
    assert_eq!(m_served(&tick), ("x".to_string(), "d2".to_string(), 2, true));
    let tick = pick_offers_for_all_demands(&mut demands, &mut offers, &mut ledger, &mut scheduler, m_at(M_NOW));
    assert_eq!(m_served(&tick), ("x".to_string(), "d3".to_string(), 2, true));
    assert_eq!(m_queue(&demands, "d3"), vec!["o1"]);
    let tick = pick_offers_for_all_demands(&mut demands, &mut offers, &mut ledger, &mut scheduler, m_at(M_NOW));
    assert_eq!(m_served(&tick), ("x".to_string(), "d2".to_string(), 3, false));
    assert!(m_queue(&demands, "d1").is_empty());
    assert_eq!(ledger.count(&m_text(0x01)), 5);
}

#[test]
fn ticks_alternate_between_two_partitions() {
    let mut demands = Demands::new();
    let mut offers = Offers::new();
    let mut ledger = AssignmentLedger::new();
    let mut scheduler = MatchingScheduler::new();
    demand_new(&mut demands, m_demand("dy", 0x01, Some("y"), 50_000)).unwrap();
    demand_new(&mut demands, m_demand("dx", 0x02, Some("x"), 50_000)).unwrap();
    let mut served = Vec::new();
    for _ in 0..6 {
        let tick = pick_offers_for_all_demands(&mut demands, &mut offers, &mut ledger, &mut scheduler, m_at(M_NOW));
        served.push(m_served(&tick).0);
    }
    assert_eq!(served, vec!["x", "y", "x", "y", "x", "y"]);
    assert_eq!(scheduler.last_central_net, 6);
}

#[test]
fn ticks_walk_through_three_partitions_in_order() {
    let mut demands = Demands::new();
    let mut offers = Offers::new();
    let mut ledger = AssignmentLedger::new();
    let mut scheduler = MatchingScheduler { last_central_net: 7 };
    demand_new(&mut demands, m_demand("d1", 0x01, Some("b"), 50_000)).unwrap();
    demand_new(&mut demands, m_demand("d2", 0x02, Some("c"), 50_000)).unwrap();
    demand_new(&mut demands, m_demand("d3", 0x03, Some("a"), 50_000)).unwrap();
    let mut served = Vec::new();
    for _ in 0..4 {
        let tick = pick_offers_for_all_demands(&mut demands, &mut offers, &mut ledger, &mut scheduler, m_at(M_NOW));
        served.push(m_served(&tick).0);
    }
    assert_eq!(served, vec!["b", "c", "a", "b"]);
}

#[test]
fn a_tick_without_partitions_only_counts() {
    let mut demands = Demands::new();
    let mut offers = Offers::new();
    let mut ledger = AssignmentLedger::new();
    let mut scheduler = MatchingScheduler::new();
    demand_new(&mut demands, m_demand("d1", 0x01, None, 50_000)).unwrap();
    demand_new(&mut demands, m_demand("d2", 0x02, Some(""), 50_000)).unwrap();
    m_push(&mut offers, "o1", "x-1", 100, 20_000);
    let tick = pick_offers_for_all_demands(&mut demands, &mut offers, &mut ledger, &mut scheduler, m_at(M_NOW));
    assert!(matches!(tick, Tick::NoPartition));
    assert_eq!(scheduler.last_central_net, 1);
    assert_eq!(offers.entry(0).requestor_id, None);
    assert!(m_queue(&demands, "d1").is_empty());
}

#[test]
fn the_tick_counter_starts_over_after_its_last_value() {
    let mut scheduler = MatchingScheduler { last_central_net: u64::MAX };
    assert_eq!(scheduler.advance(), u64::MAX);
    assert_eq!(scheduler.last_central_net, 0);
    assert_eq!(scheduler.advance(), 0);
    assert_eq!(scheduler.last_central_net, 1);
}

#[test]
fn a_tick_gives_only_offers_of_the_partition() {
    let mut demands = Demands::new();
    let mut offers = Offers::new();
    let mut ledger = AssignmentLedger::new();
    let mut scheduler = MatchingScheduler::new();
    demand_new(&mut demands, m_demand("d1", 0x01, Some("alpha.net"), 50_000)).unwrap();
    m_push(&mut offers, "o1", "beta-1", 500, 20_000);
    m_push(&mut offers, "o2", "alpha-1", 100, 20_000);
    let tick = pick_offers_for_all_demands(&mut demands, &mut offers, &mut ledger, &mut scheduler, m_at(M_NOW));
    assert_eq!(m_served(&tick), ("alpha.net".to_string(), "d1".to_string(), 0, true));
    assert_eq!(m_queue(&demands, "d1"), vec!["o2"]);
    let tick = pick_offers_for_all_demands(&mut demands, &mut offers, &mut ledger, &mut scheduler, m_at(M_NOW));
    assert_eq!(m_served(&tick), ("alpha.net".to_string(), "d1".to_string(), 1, false));
    assert_eq!(offers.get("o1").unwrap().requestor_id, None);
}

#[test]
fn a_local_partition_takes_every_offer() {
    let mut demands = Demands::new();
    let mut offers = Offers::new();
    let mut ledger = AssignmentLedger::new();
    let mut scheduler = MatchingScheduler::new();
    demand_new(&mut demands, m_demand("d1", 0x01, Some("127.0.0.1:7464"), 50_000)).unwrap();
    m_push(&mut offers, "o1", "beta-1", 500, 20_000);
    let tick = pick_offers_for_all_demands(&mut demands, &mut offers, &mut ledger, &mut scheduler, m_at(M_NOW));
    assert_eq!(m_served(&tick), ("127.0.0.1:7464".to_string(), "d1".to_string(), 0, true));
}

#[test]
fn an_assigned_offer_stays_assigned_through_later_operations() {
    let mut demands = Demands::new();
    let mut offers = Offers::new();
    let mut ledger = AssignmentLedger::new();
    let mut scheduler = MatchingScheduler::new();
    demand_new(&mut demands, m_demand("d1", 0x01, Some("x"), 50_000)).unwrap();
    m_push(&mut offers, "o1", "x-1", 100, 20_000);
    assert_eq!(m_claim_first(&mut offers, 0x77), Some(0));
    m_push(&mut offers, "o1", "x-1", 100, 20_000);
    m_push(&mut offers, "o0", "x-1", 100, 20_000);
    for _ in 0..3 {
        pick_offers_for_all_demands(&mut demands, &mut offers, &mut ledger, &mut scheduler, m_at(M_NOW));
    }
    assert_eq!(m_claim_first(&mut offers, 0x88), None);
    assert_eq!(offers.get("o1").unwrap().requestor_id, Some(m_node(0x77)));
    assert_eq!(offers.get("o0").unwrap().requestor_id, Some(m_node(0x01)));
}
