use node_core::cryptde::{CryptDENull, PublicKey};
use node_core::gossip::NodeRecordInner;
use node_core::gossip_builder::GossipBuilder;
use node_core::neighborhood::{
    ExpectedService, ExpectedServices, NeighborhoodConfig, NodeDescriptor, RouteQueryMessage,
    TargetType,
};
use node_core::neighborhood_db::NeighborhoodDatabase;
use node_core::node_addr::{sentinel_ip_addr, IpAddress, NodeAddr};
use node_core::route::Component;
use node_core::route_query::route_query;
use node_core::wallet::Wallet;

fn make_inner(key: &[u8], addr: Option<NodeAddr>, bootstrap: bool, neighbors: Vec<&[u8]>) -> NodeRecordInner {
    NodeRecordInner {
        public_key: PublicKey::new(key),
        node_addr_opt: addr,
        is_bootstrap_node: bootstrap,
        earning_wallet: Wallet::new("earning"),
        consuming_wallet: None,
        neighbors: neighbors.into_iter().map(PublicKey::new).collect(),
        version: 0,
    }
}

fn addr(a: u8, b: u8, c: u8, d: u8) -> NodeAddr {
    NodeAddr::new(&IpAddress::new(a, b, c, d), &vec![1234])
}

fn make_db(this_key: &[u8]) -> NeighborhoodDatabase {
    let cryptde = CryptDENull::from(&PublicKey::new(this_key));
    let inner = make_inner(this_key, Some(addr(1, 2, 3, 4)), false, vec![]);
    NeighborhoodDatabase::new(&cryptde, inner).unwrap()
}

#[test]
fn data_indefinite_route_request() {
    let result = RouteQueryMessage::data_indefinite_route_request(2);

    assert_eq!(
        result,
        RouteQueryMessage {
            target_type: TargetType::Standard,
            target_key_opt: None,
            target_component: Component::ProxyClient,
            minimum_hop_count: 2,
            return_component_opt: Some(Component::ProxyServer),
        }
    );
}

#[test]
fn neighborhood_config_is_not_decentralized_if_there_are_no_neighbor_configs() {
    let subject = NeighborhoodConfig {
        neighbor_configs: vec![],
        earning_wallet: Wallet::new("router"),
        consuming_wallet: Some(Wallet::new("consumer")),
        is_bootstrap_node: false,
        local_ip_addr: IpAddress::new(1, 2, 3, 4),
        clandestine_port_list: vec![1234],
    };

    let result = subject.is_decentralized();

    assert_eq!(result, false);
}

#[test]
fn neighborhood_config_is_not_decentralized_if_the_sentinel_ip_address_is_used() {
    let subject = NeighborhoodConfig {
        neighbor_configs: vec![(
            PublicKey::new(&b"key"[..]),
            NodeAddr::new(&IpAddress::new(2, 3, 4, 5), &vec![2345]),
        )],
        earning_wallet: Wallet::new("router"),
        consuming_wallet: Some(Wallet::new("consumer")),
        is_bootstrap_node: false,
        local_ip_addr: sentinel_ip_addr(),
        clandestine_port_list: vec![1234],
    };

    let result = subject.is_decentralized();

    assert_eq!(result, false);
}

#[test]
fn neighborhood_config_is_not_decentralized_if_there_are_no_clandestine_ports() {
    let subject = NeighborhoodConfig {
        neighbor_configs: vec![(
            PublicKey::new(&b"key"[..]),
            NodeAddr::new(&IpAddress::new(2, 3, 4, 5), &vec![2345]),
        )],
        earning_wallet: Wallet::new("router"),
        consuming_wallet: Some(Wallet::new("consumer")),
        is_bootstrap_node: false,
        local_ip_addr: IpAddress::new(1, 2, 3, 4),
        clandestine_port_list: vec![],
    };

    let result = subject.is_decentralized();

    assert_eq!(result, false);
}

#[test]
fn neighborhood_config_is_decentralized_if_neighbor_config_and_local_ip_addr_and_clandestine_port() {
    let subject = NeighborhoodConfig {
        neighbor_configs: vec![(
            PublicKey::new(&b"key"[..]),
            NodeAddr::new(&IpAddress::new(2, 3, 4, 5), &vec![2345]),
        )],
        earning_wallet: Wallet::new("router"),
        consuming_wallet: Some(Wallet::new("consumer")),
        is_bootstrap_node: false,
        local_ip_addr: IpAddress::new(1, 2, 3, 4),
        clandestine_port_list: vec![1234],
    };

    let result = subject.is_decentralized();

    assert_eq!(result, true);
}

#[test]
fn accepted_gossip_records_all_verify() {
    let mut db = make_db(b"this_node");
    let neighbor = NodeDescriptor::new(PublicKey::new(b"neighbor"), Some(addr(2, 3, 4, 5)));
    let gossip = GossipBuilder::new(None)
        .add_node(&neighbor, false, true, &Wallet::new("nw"), &None)
        .build()
        .unwrap();

    let changed = db.handle_gossip(&gossip);

    assert!(changed);
    assert_eq!(db.records.len(), 2);
    for record in &db.records {
        assert!(record.verify_signatures());
    }
}

#[test]
fn tampered_gossip_records_are_rejected() {
    let mut db = make_db(b"this_node");
    let neighbor = NodeDescriptor::new(PublicKey::new(b"neighbor"), Some(addr(2, 3, 4, 5)));
    let mut gossip = GossipBuilder::new(None)
        .add_node(&neighbor, false, true, &Wallet::new("nw"), &None)
        .build()
        .unwrap();
    gossip.node_records[0].inner.version = 99;

    let changed = db.handle_gossip(&gossip);

    assert!(!changed);
    assert_eq!(db.records.len(), 1);
}

#[test]
fn regossiped_database_reaches_steady_state() {
    let mut db = make_db(b"this_node");
    let neighbor = NodeDescriptor::new(PublicKey::new(b"neighbor"), Some(addr(2, 3, 4, 5)));
    let gossip = GossipBuilder::new(None)
        .add_node(&neighbor, false, true, &Wallet::new("nw"), &None)
        .build()
        .unwrap();

    let first = db.handle_gossip(&gossip);
    let records_after_first = db.records.len();
    let second = db.handle_gossip(&gossip);

    assert!(first);
    assert!(!second);
    assert_eq!(db.records.len(), records_after_first);
}

#[test]
fn bootstrap_handshake_fills_both_databases() {
    let mut db_s = make_db(b"standard_node");
    let mut db_b = make_db(b"bootstrap_node");
    let s_descriptor = NodeDescriptor::new(PublicKey::new(b"standard_node"), Some(addr(1, 2, 3, 4)));
    let b_descriptor = NodeDescriptor::new(PublicKey::new(b"bootstrap_node"), Some(addr(9, 8, 7, 6)));

    let s_intro = GossipBuilder::new(None)
        .add_node(&s_descriptor, false, true, &Wallet::new("sw"), &None)
        .build()
        .unwrap();
    db_b.handle_gossip(&s_intro);
    let b_reply = GossipBuilder::new(None)
        .add_node(&b_descriptor, true, true, &Wallet::new("bw"), &None)
        .build()
        .unwrap();
    db_s.handle_gossip(&b_reply);

    assert_eq!(db_s.records.len(), 2);
    assert_eq!(db_b.records.len(), 2);
    let zero_hop =
        route_query(&db_s, true, &None, &RouteQueryMessage {
            target_type: TargetType::Standard,
            target_key_opt: Some(PublicKey::new(b"standard_node")),
            target_component: Component::ProxyClient,
            minimum_hop_count: 0,
            return_component_opt: Some(Component::ProxyServer),
        });
    assert!(zero_hop.is_some());
    let one_hop = route_query(
        &db_s,
        true,
        &None,
        &RouteQueryMessage::data_indefinite_route_request(1),
    );
    assert!(one_hop.is_none());
}

fn three_hop_db() -> NeighborhoodDatabase {
    let cryptde = CryptDENull::from(&PublicKey::new(b"originator"));
    let o = make_inner(b"originator", Some(addr(1, 1, 1, 1)), false, vec![b"relay_one"]);
    let mut db = NeighborhoodDatabase::new(&cryptde, o).unwrap();
    let r1 = make_inner(b"relay_one", Some(addr(2, 2, 2, 2)), false, vec![b"relay_two"]);
    let r2 = make_inner(b"relay_two", Some(addr(3, 3, 3, 3)), false, vec![b"exit_node"]);
    let x = make_inner(b"exit_node", Some(addr(4, 4, 4, 4)), false, vec![]);
    let gossip = GossipBuilder::new(None)
        .add_fictional_node(r1)
        .add_fictional_node(r2)
        .add_fictional_node(x)
        .build()
        .unwrap();
    db.handle_gossip(&gossip);
    db
}

#[test]
fn three_hop_route_query_names_each_service() {
    let db = three_hop_db();

    let response = route_query(
        &db,
        true,
        &Some(Wallet::new("consuming")),
        &RouteQueryMessage::data_indefinite_route_request(3),
    )
    .unwrap();

    match &response.expected_services {
        ExpectedServices::RoundTrip(over, back, _) => {
            assert_eq!(over.len(), 4);
            assert_eq!(back.len(), 4);
            assert!(matches!(over[0], ExpectedService::Nothing));
            match &over[1] {
                ExpectedService::Routing(k, _) => assert_eq!(k, &PublicKey::new(b"relay_one")),
                other => panic!("expected Routing, got {:?}", other),
            }
            match &over[2] {
                ExpectedService::Routing(k, _) => assert_eq!(k, &PublicKey::new(b"relay_two")),
                other => panic!("expected Routing, got {:?}", other),
            }
            match &over[3] {
                ExpectedService::Exit(k, _) => assert_eq!(k, &PublicKey::new(b"exit_node")),
                other => panic!("expected Exit, got {:?}", other),
            }
        }
        other => panic!("expected RoundTrip, got {:?}", other),
    }
    assert_eq!(response.route.hops.len(), 8);
}

#[test]
fn bootstrap_nodes_never_stand_in_the_middle_of_a_route() {
    let cryptde = CryptDENull::from(&PublicKey::new(b"originator"));
    let o = make_inner(b"originator", Some(addr(1, 1, 1, 1)), false, vec![b"boot"]);
    let mut db = NeighborhoodDatabase::new(&cryptde, o).unwrap();
    let boot = make_inner(b"boot", Some(addr(2, 2, 2, 2)), true, vec![b"exit_node"]);
    let x = make_inner(b"exit_node", Some(addr(3, 3, 3, 3)), false, vec![]);
    let gossip = GossipBuilder::new(None)
        .add_fictional_node(boot)
        .add_fictional_node(x)
        .build()
        .unwrap();
    db.handle_gossip(&gossip);

    let response = route_query(
        &db,
        true,
        &None,
        &RouteQueryMessage::data_indefinite_route_request(2),
    );

    assert!(response.is_none());
}

#[test]
fn zero_hop_route_request_in_non_decentralized_config_returns_loopback() {
    let db = make_db(b"lonely");

    let response = route_query(
        &db,
        false,
        &None,
        &RouteQueryMessage::data_indefinite_route_request(0),
    )
    .unwrap();

    match &response.expected_services {
        ExpectedServices::RoundTrip(over, back, _) => {
            assert_eq!(over.len(), 2);
            assert_eq!(back.len(), 2);
            assert!(matches!(over[0], ExpectedService::Nothing));
            match &over[1] {
                ExpectedService::Exit(k, _) => assert_eq!(k, &PublicKey::new(b"lonely")),
                other => panic!("expected Exit, got {:?}", other),
            }
        }
        other => panic!("expected RoundTrip, got {:?}", other),
    }
    assert_eq!(response.route.hops.len(), 4);

    let refused = route_query(
        &db,
        false,
        &None,
        &RouteQueryMessage::data_indefinite_route_request(1),
    );
    assert!(refused.is_none());
}

#[test]
fn build_wires_connections_into_neighbors() {
    let from_key = PublicKey::new(b"from_node");
    let to_key = PublicKey::new(b"to_node");
    let from_descriptor = NodeDescriptor::new(from_key.clone(), Some(addr(1, 1, 1, 1)));
    let to_descriptor = NodeDescriptor::new(to_key.clone(), Some(addr(2, 2, 2, 2)));

    let gossip = GossipBuilder::new(None)
        .add_node(&from_descriptor, false, true, &Wallet::new("fw"), &None)
        .add_node(&to_descriptor, false, true, &Wallet::new("tw"), &None)
        .add_connection(&from_key, &to_key)
        .build()
        .unwrap();

    assert_eq!(gossip.node_records.len(), 2);
    assert_eq!(gossip.node_records[0].inner.neighbors, vec![to_key]);
    assert_eq!(gossip.node_records[1].inner.neighbors, vec![]);
    for record in &gossip.node_records {
        assert!(record.verify_signatures());
    }
}
