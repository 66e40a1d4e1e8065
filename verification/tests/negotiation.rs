use l2_handler::cidrs::address_parser;
use l2_handler::cidrs::decompose;
use l2_handler::cidrs::AddressBlock;
use l2_handler::cidrs::P2PSubnet;
use l2_handler::codec::decode_response;
use l2_handler::codec::encode_response;
use l2_handler::errors::NegotiationError;
use l2_handler::inventory::LocalInventory;
use l2_handler::models::NegotiationInformation;
use l2_handler::models::NegotiationRequest;
use l2_handler::models::NegotiationResponse;
use l2_handler::models::RouteRule;
use l2_handler::negotiate::allocate;
use l2_handler::negotiate::find_common_subnet;
use l2_handler::negotiate::parse_to_p2p_nets;
use l2_handler::negotiate::Role;
use l2_handler::provision::AppliedState;
use l2_handler::provision::ProvisionAction;
use l2_handler::session::build_request;
use l2_handler::session::handle_negotiation;
use l2_handler::session::start_negotiation;
use l2_handler::session::ResponderOutcome;
use l2_handler::session::TransportReply;

const TEN_0_0_0: u128 = 0x0a00_0000;
const TEN_0_1_0: u128 = 0x0a00_0100;
const C192_168_0_0: u128 = 0xc0a8_0000;

#[test]
fn parses_and_normalizes_ipv4_text() {
    let b = address_parser("10.0.0.0/29").unwrap();
    assert!(b.v4);
    assert_eq!(b.addr, TEN_0_0_0);
    assert_eq!(b.prefix_len, 29);

    // Host bits are cleared on parse, so the wrapper cannot simply
    // hand its input through.
    let b = address_parser("10.0.0.7/29").unwrap();
    assert_eq!(b.addr, TEN_0_0_0);
    assert_eq!(b.prefix_len, 29);
}

#[test]
fn parses_ipv6_text() {
    let b = address_parser("2001:db8::/32").unwrap();
    assert!(!b.v4);
    assert_eq!(b.addr, 0x2001_0db8u128 << 96);
    assert_eq!(b.prefix_len, 32);
}

#[test]
fn rejects_malformed_text() {
    assert_eq!(address_parser("").unwrap_err(), NegotiationError::InvalidBlock);
    assert_eq!(address_parser("10.0.0.0").unwrap_err(), NegotiationError::InvalidBlock);
    assert_eq!(address_parser("10.0.0.0/33").unwrap_err(), NegotiationError::InvalidBlock);
    assert_eq!(address_parser("not a cidr").unwrap_err(), NegotiationError::InvalidBlock);
}

#[test]
fn decompose_splits_a_29_into_two_30s() {
    let b = address_parser("10.0.0.0/29").unwrap();
    let subs = decompose(&b).unwrap();
    assert_eq!(subs.len(), 2);
    assert_eq!(subs[0], P2PSubnet { base: TEN_0_0_0 });
    assert_eq!(subs[1], P2PSubnet { base: TEN_0_0_0 + 4 });
}

#[test]
fn decompose_of_a_30_is_itself() {
    let b = address_parser("10.0.1.0/30").unwrap();
    let subs = decompose(&b).unwrap();
    assert_eq!(subs, vec![P2PSubnet { base: TEN_0_1_0 }]);
}

#[test]
fn decompose_count_is_two_to_the_gap() {
    let b = address_parser("10.0.0.0/24").unwrap();
    let subs = decompose(&b).unwrap();
    assert_eq!(subs.len(), 64);
    for (i, s) in subs.iter().enumerate() {
        assert_eq!(s.base, TEN_0_0_0 + 4 * i as u128);
    }
}

#[test]
fn decompose_rejects_undersized_and_ipv6_blocks() {
    let b31 = AddressBlock::new(true, TEN_0_0_0, 31).unwrap();
    assert_eq!(decompose(&b31).unwrap_err(), NegotiationError::InvalidBlock);
    let b6 = address_parser("2001:db8::/32").unwrap();
    assert_eq!(decompose(&b6).unwrap_err(), NegotiationError::InvalidBlock);
}

#[test]
fn allocation_follows_the_fixed_rule() {
    let s = P2PSubnet { base: TEN_0_0_0 };
    let responder = allocate(&s, Role::Responder).unwrap();
    let initiator = allocate(&s, Role::Initiator).unwrap();
    assert_eq!(responder.local_ip, TEN_0_0_0 + 1);
    assert_eq!(responder.peer_ip, TEN_0_0_0 + 2);
    assert_eq!(initiator.local_ip, TEN_0_0_0 + 2);
    assert_eq!(initiator.peer_ip, TEN_0_0_0 + 1);
    // Stable across repeated calls.
    assert_eq!(allocate(&s, Role::Responder).unwrap(), responder);
    assert_eq!(allocate(&s, Role::Initiator).unwrap(), initiator);
}

#[test]
fn allocation_rejects_a_malformed_subnet() {
    let s = P2PSubnet { base: 3 };
    assert_eq!(allocate(&s, Role::Responder).unwrap_err(), NegotiationError::SubnetTooSmall);
}

#[test]
fn parse_to_p2p_nets_flattens_in_order() {
    let texts = vec!["10.0.1.0/30".to_string(), "10.0.0.0/29".to_string()];
    let subs = parse_to_p2p_nets(&texts).unwrap();
    assert_eq!(subs.len(), 3);
    assert_eq!(subs[0].base, TEN_0_1_0);
    assert_eq!(subs[1].base, TEN_0_0_0);
    assert_eq!(subs[2].base, TEN_0_0_0 + 4);
}

#[test]
fn parse_to_p2p_nets_rejects_bad_entries() {
    let texts = vec!["10.0.0.0/29".to_string(), "nope".to_string()];
    assert_eq!(parse_to_p2p_nets(&texts).unwrap_err(), NegotiationError::InvalidBlock);
}

fn inventory_from(texts: &[&str]) -> LocalInventory {
    let cidrs: Vec<String> = texts.iter().map(|t| t.to_string()).collect();
    LocalInventory::initialize(cidrs, None, None).unwrap()
}

#[test]
fn inventory_decomposes_every_block() {
    let inv = inventory_from(&["10.0.0.0/29"]);
    assert_eq!(inv.configured_blocks.len(), 1);
    assert_eq!(inv.p2p_subnets.len(), 2);
    assert_eq!(inv.interface_name, "enp0s2");
    assert_eq!(inv.snapshot().p2p_subnets.len(), 2);
}

#[test]
fn inventory_keeps_a_given_interface_name() {
    let inv = LocalInventory::initialize(
        vec!["10.0.0.0/30".to_string()],
        None,
        Some("eth7".to_string()),
    )
    .unwrap();
    assert_eq!(inv.interface_name, "eth7");
}

#[test]
fn inventory_rejects_unsplittable_configuration() {
    let r = LocalInventory::initialize(vec!["2001:db8::/32".to_string()], None, None);
    assert_eq!(r.unwrap_err(), NegotiationError::InvalidBlock);
    let r = LocalInventory::initialize(vec!["10.0.0.0/31".to_string()], None, None);
    assert_eq!(r.unwrap_err(), NegotiationError::InvalidBlock);
}

#[test]
fn responder_picks_first_subnet_and_both_hosts() {
    let inv = inventory_from(&["10.0.0.0/29"]);
    let req = NegotiationRequest::new(vec!["10.0.0.0/29".to_string()], None);
    match handle_negotiation(&inv, &req).unwrap() {
        ResponderOutcome::Accepted { response, intent } => {
            assert_eq!(response.net, P2PSubnet { base: TEN_0_0_0 });
            assert_eq!(response.assigned_ip, TEN_0_0_0 + 1);
            assert_eq!(response.free_ip, TEN_0_0_0 + 2);
            assert_eq!(response.advertised_network, None);
            assert_eq!(intent.address_to_assign, TEN_0_0_0 + 1);
            assert_eq!(intent.prefix_length, 30);
            assert_eq!(intent.interface_name, "enp0s2");
            assert!(intent.route.is_none());
        }
        ResponderOutcome::NoCommonSubnet => panic!("expected a match"),
    }
}

#[test]
fn responder_rejects_disjoint_proposals_without_any_intent() {
    let inv = inventory_from(&["10.0.0.0/30"]);
    let req = NegotiationRequest::new(vec!["192.168.0.0/30".to_string()], None);
    match handle_negotiation(&inv, &req).unwrap() {
        ResponderOutcome::NoCommonSubnet => {}
        ResponderOutcome::Accepted { .. } => panic!("no subnet should match"),
    }
    let blocks = vec![AddressBlock::new(true, C192_168_0_0, 30).unwrap()];
    let found = find_common_subnet(&inv.p2p_subnets, &blocks).unwrap();
    assert!(found.is_none());
}

#[test]
fn responder_scans_the_whole_proposal() {
    let inv = inventory_from(&["10.0.1.0/30"]);
    let req = NegotiationRequest::new(
        vec!["10.0.0.0/30".to_string(), "10.0.1.0/30".to_string()],
        None,
    );
    match handle_negotiation(&inv, &req).unwrap() {
        ResponderOutcome::Accepted { response, .. } => {
            assert_eq!(response.net, P2PSubnet { base: TEN_0_1_0 });
        }
        ResponderOutcome::NoCommonSubnet => panic!("the second block should match"),
    }
}

#[test]
fn responder_routes_toward_the_proposer() {
    let inv = inventory_from(&["10.0.0.0/30"]);
    let dest = address_parser("172.16.0.0/24").unwrap();
    let req = NegotiationRequest::new(vec!["10.0.0.0/30".to_string()], Some(dest));
    match handle_negotiation(&inv, &req).unwrap() {
        ResponderOutcome::Accepted { intent, .. } => {
            let route = intent.route.expect("a route toward the proposer");
            assert_eq!(route.destination, dest);
            assert_eq!(route.via, TEN_0_0_0 + 2);
        }
        ResponderOutcome::NoCommonSubnet => panic!("expected a match"),
    }
}

#[test]
fn responder_rejects_malformed_proposals() {
    let inv = inventory_from(&["10.0.0.0/30"]);
    let req = NegotiationRequest::new(vec!["bogus".to_string()], None);
    assert_eq!(handle_negotiation(&inv, &req).unwrap_err(), NegotiationError::InvalidBlock);
    let req = NegotiationRequest::new(vec!["10.0.0.0/32".to_string()], None);
    assert_eq!(handle_negotiation(&inv, &req).unwrap_err(), NegotiationError::InvalidBlock);
}

#[test]
fn response_round_trips_through_the_codec() {
    let adv = address_parser("172.16.0.0/24").unwrap();
    let resp = NegotiationResponse::new(
        P2PSubnet { base: TEN_0_0_0 },
        TEN_0_0_0 + 2,
        TEN_0_0_0 + 1,
        Some(adv),
    );
    let wire = encode_response(&resp);
    assert_eq!(decode_response(&wire), Some(resp));

    let bare = NegotiationResponse::new(P2PSubnet { base: TEN_0_1_0 }, 1, 2, None);
    let wire = encode_response(&bare);
    assert_eq!(decode_response(&wire), Some(bare));

    let adv6 = address_parser("2001:db8::/48").unwrap();
    let v6 = NegotiationResponse::new(P2PSubnet { base: TEN_0_0_0 }, 3, 4, Some(adv6));
    let wire = encode_response(&v6);
    assert_eq!(decode_response(&wire), Some(v6));
}

#[test]
fn decoder_rejects_bytes_the_codec_never_writes() {
    assert_eq!(decode_response(&Vec::new()), None);
    assert_eq!(decode_response(&b"short".to_vec()), None);
    assert_eq!(decode_response(&b"zzzzzzzzzzzzzzzzzzzzzzzz-".to_vec()), None);
    // A /30 base that is not a multiple of four.
    assert_eq!(decode_response(&b"0a0000010000000000000000-".to_vec()), None);
    // A bad marker byte.
    assert_eq!(decode_response(&b"0a0000000000000000000000x".to_vec()), None);
}

#[test]
fn initiator_builds_the_request_from_inventory() {
    let adv = address_parser("172.16.0.0/24").unwrap();
    let inv = LocalInventory::initialize(
        vec!["10.0.0.0/29".to_string(), "10.0.1.0/30".to_string()],
        Some(adv),
        None,
    )
    .unwrap();
    let req = build_request(&inv);
    assert_eq!(req.cidrs, vec!["10.0.0.0/29".to_string(), "10.0.1.0/30".to_string()]);
    assert_eq!(req.destination_network, Some(adv));
}

#[test]
fn initiator_fails_on_transport_failure() {
    let inv = inventory_from(&["10.0.0.0/30"]);
    let reply = TransportReply { success: false, body: Vec::new() };
    assert_eq!(
        start_negotiation(&inv, &reply).unwrap_err(),
        NegotiationError::Transport
    );
    let reply = TransportReply { success: true, body: b"garbage".to_vec() };
    assert_eq!(
        start_negotiation(&inv, &reply).unwrap_err(),
        NegotiationError::Transport
    );
}

#[test]
fn both_roles_agree_end_to_end() {
    let responder_inv = LocalInventory::initialize(
        vec!["10.0.0.0/29".to_string()],
        Some(address_parser("172.16.0.0/24").unwrap()),
        None,
    )
    .unwrap();
    let initiator_inv = inventory_from(&["10.0.0.0/30"]);

    let req = build_request(&initiator_inv);
    let (response, responder_intent) = match handle_negotiation(&responder_inv, &req).unwrap() {
        ResponderOutcome::Accepted { response, intent } => (response, intent),
        ResponderOutcome::NoCommonSubnet => panic!("expected a match"),
    };
    assert_eq!(responder_intent.address_to_assign, TEN_0_0_0 + 1);

    let reply = TransportReply { success: true, body: encode_response(&response) };
    let initiator_intent = start_negotiation(&initiator_inv, &reply).unwrap();
    assert_eq!(initiator_intent.address_to_assign, TEN_0_0_0 + 2);
    assert_ne!(
        initiator_intent.address_to_assign,
        responder_intent.address_to_assign
    );
    let route = initiator_intent.route.expect("the responder advertised a network");
    assert_eq!(route.destination, address_parser("172.16.0.0/24").unwrap());
    assert_eq!(route.via, TEN_0_0_0 + 1);
}

#[test]
fn provisioning_the_same_intent_twice_is_a_no_op() {
    let inv = inventory_from(&["10.0.0.0/30"]);
    let dest = address_parser("172.16.0.0/24").unwrap();
    let req = NegotiationRequest::new(vec!["10.0.0.0/30".to_string()], Some(dest));
    let intent = match handle_negotiation(&inv, &req).unwrap() {
        ResponderOutcome::Accepted { intent, .. } => intent,
        ResponderOutcome::NoCommonSubnet => panic!("expected a match"),
    };

    let mut state = AppliedState::new();
    let first = state.plan(&intent);
    assert_eq!(
        first,
        vec![
            ProvisionAction::AssignAddress { address: TEN_0_0_0 + 1, prefix_length: 30 },
            ProvisionAction::AddRoute {
                destination: dest,
                via: TEN_0_0_0 + 2
            },
        ]
    );
    let second = state.plan(&intent);
    assert!(second.is_empty());
    assert_eq!(state.addresses.len(), 1);
    assert_eq!(state.routes.len(), 1);
}

#[test]
fn error_messages_name_the_failure() {
    assert_eq!(
        NegotiationError::InvalidBlock.message(),
        "invalid or undersized address block"
    );
    assert_eq!(
        NegotiationError::Transport.message(),
        "transport failure while contacting the peer"
    );
}

#[test]
fn request_and_response_constructors_keep_their_fields() {
    let req = NegotiationRequest::new(vec!["10.0.0.0/29".to_string()], None);
    assert_eq!(req.cidrs.len(), 1);
    assert!(req.destination_network.is_none());
    let resp = NegotiationResponse::new(P2PSubnet { base: TEN_0_0_0 }, 7, 8, None);
    assert_eq!(resp.free_ip, 7);
    assert_eq!(resp.assigned_ip, 8);
    let rule = RouteRule { destination: address_parser("10.0.0.0/8").unwrap(), via: 9 };
    assert_eq!(rule.via, 9);
    let info = NegotiationInformation {
        endpoint: "192.0.2.1:8000".to_string(),
        destination_network: None,
    };
    assert_eq!(info.endpoint, "192.0.2.1:8000");
    assert!(info.destination_network.is_none());
}
