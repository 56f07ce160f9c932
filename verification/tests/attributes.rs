use yagna_offer_server::model::offer::attributes::{
    bucket, decimal_bytes, digest_bucket, get_static_random, OfferFlatAttributes, SaltState,
};
use yagna_offer_server::model::offer::base::GolemBaseOffer;
use yagna_offer_server::model::offer::properties::{
    Caps, Com, Cpu, DebitNotes, Erc20Platform, GolemProperties, Inf, LinearPricing, Mem, Node,
    NodeDebug, NodeName, NodeNet, Payment, PayuDebitNote, PayuScheme, Platform, Pricing,
    PricingModel, Properties, Protocol, RealBits, Runtime, Scheme, Srv, Storage, Usage,
};
use yagna_offer_server::node_id::NodeId;
use yagna_offer_server::time::Timestamp;

const PROVIDER: [u8; 20] = [
    0xa3, 0xbd, 0xe9, 0xe2, 0xef, 0x34, 0x44, 0x07, 0xaf, 0xdc, 0x93, 0x1c, 0x97, 0xfd, 0x33, 0xd5,
    0x06, 0xec, 0x65, 0x45,
];

fn brick_offer(debug: Option<NodeDebug>) -> GolemBaseOffer {
    GolemBaseOffer {
        id: "00082a0389918034011dbcc885bd3da086eaaa66dceef7e6784386842571854d".to_string(),
        properties: Properties {
            golem: GolemProperties {
                com: Com {
                    payment: Payment {
                        debit_notes: DebitNotes { accept_timeout: 240 },
                        platform: Platform {
                            erc20_polygon_glm: Some(Erc20Platform {
                                address: "0xa3bde9e2ef344407afdc931c97fd33d506ec6545".to_string(),
                            }),
                            erc20_hoodi_tglm: None,
                        },
                        protocol: Protocol { version: 3 },
                    },
                    pricing: Pricing {
                        model: PricingModel::Linear {
                            linear: LinearPricing {
                                coeffs: vec![
                                    RealBits { bits: 0x3e112e0be826d695 },
                                    RealBits { bits: 0 },
                                    RealBits { bits: 0 },
                                ],
                            },
                        },
                    },
                    scheme: Scheme::Payu {
                        payu: PayuScheme {
                            debit_note: PayuDebitNote { interval_sec: 120 },
                            payment_timeout_sec: 120,
                        },
                    },
                    usage: Usage {
                        vector: vec![
                            "golem.usage.cpu_sec".to_string(),
                            "golem.usage.duration_sec".to_string(),
                        ],
                    },
                },
                inf: Inf {
                    cpu: Cpu { architecture: "x86_64".to_string(), cores: 14, threads: 1 },
                    mem: Mem { gib: RealBits { bits: 0x404565c502400000 } },
                    storage: Storage { gib: RealBits { bits: 0x40a9739a44666667 } },
                },
                node: Node {
                    debug,
                    id: NodeName { name: "brick-54".to_string() },
                    net: NodeNet { is_public: false },
                },
                runtime: Runtime {
                    name: "ya-runtime-cruncher".to_string(),
                    version: "0.1.0".to_string(),
                },
                srv: Srv { caps: Caps { multi_activity: true, payload_manifest: false } },
            },
        },
        constraints:
            "(&\n  (golem.srv.comp.expiration>1765401640654)\n  (golem.node.debug.subnet=public)\n)"
                .to_string(),
        provider_id: NodeId { bytes: PROVIDER },
        expiration: Timestamp { secs: 1765455645, nanos: 222028719 },
        timestamp: Timestamp { secs: 1765452045, nanos: 222028719 },
    }
}

#[test]
fn test_filter_attributes() {
    let gbo = brick_offer(Some(NodeDebug { subnet: "public".to_string() }));
    let attributes = OfferFlatAttributes::from_gbo(&gbo, 42);
    println!("Attributes: {:?}", attributes);
}

#[test]
fn derived_attributes_hold_the_flat_fields() {
    let gbo = brick_offer(Some(NodeDebug { subnet: "devnet".to_string() }));
    let attributes = OfferFlatAttributes::from_gbo(&gbo, 42);
    assert_eq!(attributes.exe_name, "ya-runtime-cruncher");
    assert_eq!(attributes.subnet, "devnet");
    assert_eq!(attributes.cpu_architecture, "x86_64");
    assert_eq!(attributes.cpu_threads, 1);
    assert_eq!(attributes.node_id, "0xa3bde9e2ef344407afdc931c97fd33d506ec6545");
    assert_eq!(attributes.name_group, "brick");
}

#[test]
fn derived_subnet_defaults_to_public() {
    let attributes = OfferFlatAttributes::from_gbo(&brick_offer(None), 42);
    assert_eq!(attributes.subnet, "public");
}

#[test]
fn derived_buckets_are_the_salted_hashes() {
    let gbo = brick_offer(None);
    let attributes = OfferFlatAttributes::from_gbo(&gbo, 42);
    assert_eq!(attributes.node_id_group, 342);
    assert_eq!(attributes.offer_id_group, 178);
    let under_zero = OfferFlatAttributes::from_gbo(&gbo, 0);
    assert_eq!(under_zero.node_id_group, 753);
    assert_eq!(under_zero.offer_id_group, 389);
}

#[test]
fn derivation_is_deterministic_for_a_fixed_salt() {
    let gbo = brick_offer(None);
    let first = OfferFlatAttributes::from_gbo(&gbo, 42);
    let second = OfferFlatAttributes::from_gbo(&gbo, 42);
    assert_eq!(first, second);
}

#[test]
fn a_new_salt_moves_the_buckets() {
    let gbo = brick_offer(None);
    let before = OfferFlatAttributes::from_gbo(&gbo, 42);
    let after = OfferFlatAttributes::from_gbo(&gbo, 43);
    assert_eq!(after.node_id_group, 77);
    assert_eq!(after.offer_id_group, 775);
    assert!(
        before.node_id_group != after.node_id_group
            || before.offer_id_group != after.offer_id_group
    );
}

#[test]
fn bucket_of_known_inputs() {
    assert_eq!(bucket(42, "offer-1"), 502);
    assert_eq!(bucket(0, "offer-1"), 939);
    assert_eq!(bucket(42, ""), 628);
    assert_eq!(bucket(u64::MAX, "offer-1"), 501);
}

#[test]
fn buckets_stay_below_one_thousand() {
    for salt in 0..50u64 {
        assert!(bucket(salt, "some-offer") < 1000);
    }
}

#[test]
fn digest_bucket_reads_first_four_bytes_big_endian() {
    let mut digest = [0u8; 32];
    digest[2] = 0x04;
    digest[3] = 0xd2;
    assert_eq!(digest_bucket(&digest), 234);
    digest[0] = 0xff;
    digest[1] = 0xff;
    digest[2] = 0xff;
    digest[3] = 0xff;
    assert_eq!(digest_bucket(&digest), 295);
    digest[0] = 0x01;
    digest[1] = 0x00;
    digest[2] = 0x00;
    digest[3] = 0x00;
    digest[4] = 0xff;
    assert_eq!(digest_bucket(&digest), 216);
}

#[test]
fn decimal_bytes_writes_digits() {
    assert_eq!(decimal_bytes(0), b"0".to_vec());
    assert_eq!(decimal_bytes(7), b"7".to_vec());
    assert_eq!(decimal_bytes(10), b"10".to_vec());
    assert_eq!(decimal_bytes(1203), b"1203".to_vec());
    assert_eq!(decimal_bytes(u64::MAX), b"18446744073709551615".to_vec());
}

#[test]
fn salt_rotates_once_per_hour() {
    let mut salts = SaltState::new();
    assert_eq!(salts, SaltState { hour: 0, value: 0 });
    assert_eq!(salts.rotate(5, 77), 77);
    assert_eq!(salts, SaltState { hour: 5, value: 77 });
    assert_eq!(salts.rotate(5, 99), 77);
    assert_eq!(salts, SaltState { hour: 5, value: 77 });
    assert_eq!(salts.rotate(6, 99), 99);
    assert_eq!(salts, SaltState { hour: 6, value: 99 });
}

#[test]
fn static_random_is_stable_within_the_hour() {
    let mut salts = SaltState { hour: 3, value: 1234 };
    let first = get_static_random(&mut salts, Timestamp { secs: 3 * 3600, nanos: 0 });
    assert_eq!(first, 1234);
    let second = get_static_random(&mut salts, Timestamp { secs: 3 * 3600 + 3599, nanos: 999 });
    assert_eq!(second, 1234);
    assert_eq!(salts, SaltState { hour: 3, value: 1234 });
}

#[test]
fn static_random_is_redrawn_on_hour_rollover() {
    let mut salts = SaltState { hour: 3, value: 1234 };
    let salt = get_static_random(&mut salts, Timestamp { secs: 4 * 3600, nanos: 0 });
    assert_eq!(salts.hour, 4);
    assert_eq!(salts.value, salt);
    let again = get_static_random(&mut salts, Timestamp { secs: 4 * 3600 + 10, nanos: 0 });
    assert_eq!(again, salt);
}
