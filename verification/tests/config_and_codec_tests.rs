use node_core::accountant::ReceivableAccount;
use node_core::cryptde::{CryptDENull, CryptData, PublicKey};
use node_core::hopper::{
    peel, DiscardReason, ExpiredCoresPackage, IncipientCoresPackage, LiveCoresPackage, PeelOutcome,
};
use node_core::node_addr::{error_socket_addr, sentinel_ip_addr, IpAddress};
use node_core::node_ref::{b64_decode, b64_encode, NodeReference};
use node_core::receivable_dao::ReceivableDaoReal;
use node_core::route::{Component, Route, RouteElement, RouteError, RouteSegment};
use node_core::sequence_buffer::SequenceBuffer;
use node_core::startup_config::{NodeStartupConfig, NodeStartupConfigBuilder, NodeType};
use node_core::stream::SequencedPacket;
use node_core::wallet::{default_earning_wallet, Wallet};

#[test]
fn node_startup_config_builder_zero_hop() {
    let result = NodeStartupConfigBuilder::zero_hop().build();

    assert_eq!(result.ip, sentinel_ip_addr());
    assert_eq!(result.dns_servers, vec![IpAddress::new(8, 8, 8, 8)]);
    assert_eq!(result.neighbors, vec![]);
    assert_eq!(result.node_type, NodeType::Standard);
    assert_eq!(result.port_count, 0);
    assert_eq!(result.dns_target, IpAddress::new(127, 0, 0, 1));
    assert_eq!(result.dns_port, 53);
}

#[test]
fn node_startup_config_builder_standard() {
    let result = NodeStartupConfigBuilder::standard().build();

    assert_eq!(result.ip, sentinel_ip_addr());
    assert_eq!(result.dns_servers, vec![IpAddress::new(8, 8, 8, 8)]);
    assert_eq!(result.neighbors, vec![]);
    assert_eq!(result.node_type, NodeType::Standard);
    assert_eq!(result.port_count, 1);
    assert_eq!(result.dns_target, IpAddress::new(127, 0, 0, 1));
    assert_eq!(result.dns_port, 53);
}

#[test]
fn node_startup_config_builder_bootstrap() {
    let result = NodeStartupConfigBuilder::bootstrap().build();

    assert_eq!(result.ip, sentinel_ip_addr());
    assert_eq!(result.dns_servers, vec![IpAddress::new(8, 8, 8, 8)]);
    assert_eq!(result.neighbors, vec![]);
    assert_eq!(result.node_type, NodeType::Bootstrap);
    assert_eq!(result.port_count, 1);
    assert_eq!(result.dns_target, IpAddress::new(127, 0, 0, 1));
    assert_eq!(result.dns_port, 53);
}

#[test]
fn node_startup_config_builder_settings() {
    let ip_addr = IpAddress::new(1, 2, 3, 4);
    let one_neighbor_key = PublicKey::new(&[1, 2, 3, 4]);
    let one_neighbor_ip_addr = IpAddress::new(4, 5, 6, 7);
    let one_neighbor_ports = vec![1234, 2345];
    let another_neighbor_key = PublicKey::new(&[2, 3, 4, 5]);
    let another_neighbor_ip_addr = IpAddress::new(5, 6, 7, 8);
    let another_neighbor_ports = vec![3456, 4567];
    let dns_servers = vec![IpAddress::new(2, 3, 4, 5), IpAddress::new(3, 4, 5, 6)];
    let neighbors = vec![
        NodeReference::new(
            one_neighbor_key.clone(),
            one_neighbor_ip_addr,
            one_neighbor_ports.clone(),
        ),
        NodeReference::new(
            another_neighbor_key.clone(),
            another_neighbor_ip_addr,
            another_neighbor_ports.clone(),
        ),
    ];
    let dns_target = IpAddress::new(8, 9, 10, 11);

    let result = NodeStartupConfigBuilder::bootstrap()
        .ip(ip_addr)
        .dns_servers(dns_servers.clone())
        .neighbor(neighbors[0].clone())
        .neighbor(neighbors[1].clone())
        .node_type(NodeType::Standard)
        .port_count(2)
        .dns_target(dns_target)
        .dns_port(35)
        .build();

    assert_eq!(result.ip, ip_addr);
    assert_eq!(result.dns_servers, dns_servers);
    assert_eq!(result.neighbors, neighbors);
    assert_eq!(result.node_type, NodeType::Standard);
    assert_eq!(result.port_count, 2);
    assert_eq!(result.dns_target, dns_target);
    assert_eq!(result.dns_port, 35);
}

#[test]
fn node_startup_config_builder_copy() {
    let original = NodeStartupConfig {
        ip: IpAddress::new(255, 255, 255, 255),
        dns_servers: vec![IpAddress::new(255, 255, 255, 255)],
        neighbors: vec![NodeReference::new(
            PublicKey::new(&[255]),
            IpAddress::new(255, 255, 255, 255),
            vec![255],
        )],
        node_type: NodeType::Standard,
        port_count: 200,
        dns_target: IpAddress::new(255, 255, 255, 255),
        dns_port: 54,
        earning_wallet: Wallet::new("booga"),
    };
    let ip_addr = IpAddress::new(1, 2, 3, 4);
    let one_neighbor_key = PublicKey::new(&[1, 2, 3, 4]);
    let one_neighbor_ip_addr = IpAddress::new(4, 5, 6, 7);
    let one_neighbor_ports = vec![1234, 2345];
    let another_neighbor_key = PublicKey::new(&[2, 3, 4, 5]);
    let another_neighbor_ip_addr = IpAddress::new(5, 6, 7, 8);
    let another_neighbor_ports = vec![3456, 4567];
    let dns_servers = vec![IpAddress::new(2, 3, 4, 5), IpAddress::new(3, 4, 5, 6)];
    let neighbors = vec![
        NodeReference::new(
            one_neighbor_key.clone(),
            one_neighbor_ip_addr,
            one_neighbor_ports.clone(),
        ),
        NodeReference::new(
            another_neighbor_key.clone(),
            another_neighbor_ip_addr,
            another_neighbor_ports.clone(),
        ),
    ];
    let dns_target = IpAddress::new(8, 9, 10, 11);

    let result = NodeStartupConfigBuilder::copy(&original)
        .ip(ip_addr)
        .dns_servers(dns_servers.clone())
        .neighbors(neighbors.clone())
        .node_type(NodeType::Bootstrap)
        .port_count(2)
        .dns_target(dns_target)
        .dns_port(35)
        .build();

    assert_eq!(result.ip, ip_addr);
    assert_eq!(result.dns_servers, dns_servers);
    assert_eq!(result.neighbors, neighbors);
    assert_eq!(result.node_type, NodeType::Bootstrap);
    assert_eq!(result.port_count, 2);
    assert_eq!(result.dns_target, dns_target);
    assert_eq!(result.dns_port, 35);
    assert_eq!(result.earning_wallet, Wallet::new("booga"));
}

#[test]
fn can_make_args() {
    let one_neighbor = NodeReference::new(
        PublicKey::new(&[1, 2, 3, 4]),
        IpAddress::new(4, 5, 6, 7),
        vec![1234, 2345],
    );
    let another_neighbor = NodeReference::new(
        PublicKey::new(&[2, 3, 4, 5]),
        IpAddress::new(5, 6, 7, 8),
        vec![3456, 4567],
    );
    let subject = NodeStartupConfigBuilder::standard()
        .neighbor(one_neighbor.clone())
        .neighbor(another_neighbor.clone())
        .build();

    let result = subject.make_args();

    let expected: Vec<String> = vec![
        "--ip".to_string(),
        "255.255.255.255".to_string(),
        "--dns_servers".to_string(),
        "8.8.8.8".to_string(),
        "--neighbor".to_string(),
        one_neighbor.to_string(),
        "--neighbor".to_string(),
        another_neighbor.to_string(),
        "--wallet_address".to_string(),
        default_earning_wallet().address,
        "--node_type".to_string(),
        "standard".to_string(),
        "--port_count".to_string(),
        "1".to_string(),
        "--dns_target".to_string(),
        "127.0.0.1".to_string(),
        "--dns_port".to_string(),
        "53".to_string(),
        "--log_level".to_string(),
        "trace".to_string(),
        "--data_directory".to_string(),
        "/node_root/home".to_string(),
    ];
    assert_eq!(result, expected);
}

#[test]
fn node_reference_round_trips_through_text() {
    let reference = NodeReference::new(
        PublicKey::new(&[1, 2, 3, 4]),
        IpAddress::new(4, 5, 6, 7),
        vec![1234, 2345],
    );

    let text = reference.to_string();
    let parsed = NodeReference::from_str(text.as_str()).unwrap();

    assert_eq!(text, "AQIDBA==:4.5.6.7:1234,2345");
    assert_eq!(parsed, reference);
}

#[test]
fn base64_round_trips_arbitrary_bytes() {
    for data in [
        vec![],
        vec![0u8],
        vec![255u8, 254],
        vec![1u8, 2, 3],
        vec![77u8, 97, 110, 105, 102],
    ] {
        let encoded = b64_encode(&data);
        let decoded = b64_decode(encoded.as_str()).unwrap();
        assert_eq!(decoded, data);
    }
    assert_eq!(b64_encode(&vec![77u8, 97, 110]), "TWFu");
}

#[test]
fn error_socket_addr_is_the_all_zero_placeholder() {
    let sa = error_socket_addr();

    assert_eq!(sa.ip, IpAddress::new(0, 0, 0, 0));
    assert_eq!(sa.port, 0);
}

#[test]
fn live_cores_package_survives_the_wire() {
    let lcp = LiveCoresPackage {
        route: Route {
            hops: vec![CryptData::new(b"first hop"), CryptData::new(b"second hop")],
        },
        payload: CryptData::new(b"sealed payload"),
    };

    let wire = lcp.encode();
    let back = LiveCoresPackage::decode(&wire).unwrap();

    assert_eq!(back, lcp);
}

#[test]
fn route_element_survives_its_encoding() {
    let element = RouteElement::new(
        PublicKey::new(b"next hop key"),
        Component::Routing,
        Some(Wallet::new("consuming")),
    );

    let encoded = element.encode().unwrap();
    let back = RouteElement::decode(&encoded).unwrap();

    assert_eq!(back, element);
}

#[test]
fn a_package_decrypted_and_reencrypted_yields_the_original_bytes() {
    let cryptde = CryptDENull::from(&PublicKey::new(b"envelope key"));
    let plain = b"the plain bytes of a package".to_vec();

    let sealed = cryptde.encode(&cryptde.public_key(), plain.as_slice()).unwrap();
    let opened = cryptde.decode(&sealed).unwrap();
    let resealed = cryptde.encode(&cryptde.public_key(), opened.as_slice()).unwrap();

    assert_eq!(opened, plain);
    assert_eq!(resealed, sealed);
}

#[test]
fn a_three_hop_package_peels_to_its_exit() {
    let o = PublicKey::new(b"originator");
    let r1 = PublicKey::new(b"relay");
    let x = PublicKey::new(b"exit");
    let wallet = Some(Wallet::new("consuming"));
    let segment = RouteSegment::new(vec![o.clone(), r1.clone(), x.clone()], Component::ProxyClient);
    let route = Route::one_way(&segment, &CryptDENull::new(), &wallet).unwrap();
    let icp = IncipientCoresPackage::new(
        &CryptDENull::from(&o),
        route,
        b"request bytes",
        &x,
    )
    .unwrap();
    let lcp = LiveCoresPackage::from_incipient(icp);

    let at_origin = peel(&CryptDENull::from(&o), lcp, IpAddress::new(1, 1, 1, 1));
    let (next1, lcp1) = match at_origin {
        PeelOutcome::Forward { next_key, package, .. } => (next_key, package),
        other => panic!("expected Forward, got {:?}", other),
    };
    let at_relay = peel(&CryptDENull::from(&next1), lcp1, IpAddress::new(2, 2, 2, 2));
    let (next2, lcp2) = match at_relay {
        PeelOutcome::Forward { next_key, package, consuming_wallet } => {
            assert_eq!(consuming_wallet, Some(Wallet::new("consuming")));
            (next_key, package)
        }
        other => panic!("expected Forward, got {:?}", other),
    };
    assert_eq!(next2, x);
    let at_exit = peel(&CryptDENull::from(&next2), lcp2, IpAddress::new(3, 3, 3, 3));
    match at_exit {
        PeelOutcome::Deliver { component, package } => {
            assert_eq!(component, Component::ProxyClient);
            let opened = CryptDENull::from(&x).decode(&package.payload).unwrap();
            assert_eq!(opened, b"request bytes".to_vec());
        }
        other => panic!("expected Deliver, got {:?}", other),
    }
}

#[test]
fn junk_packages_are_discarded_not_forwarded() {
    let cryptde = CryptDENull::from(&PublicKey::new(b"local"));
    let junk = LiveCoresPackage {
        route: Route { hops: vec![CryptData::new(b"not for us")] },
        payload: CryptData::new(b"whatever"),
    };

    let outcome = peel(&cryptde, junk, IpAddress::new(1, 1, 1, 1));

    match outcome {
        PeelOutcome::Discard { reason } => assert_eq!(reason, DiscardReason::UndecryptableHop),
        other => panic!("expected Discard, got {:?}", other),
    }
}

#[test]
fn sequence_buffer_reorders_packets() {
    let mut buffer = SequenceBuffer::new();
    buffer.push(SequencedPacket { data: b"cc".to_vec(), sequence_number: 2, last_data: true });
    assert!(buffer.poll().is_none());
    buffer.push(SequencedPacket { data: b"aa".to_vec(), sequence_number: 0, last_data: false });
    buffer.push(SequencedPacket { data: b"bb".to_vec(), sequence_number: 1, last_data: false });

    let mut drained: Vec<u8> = Vec::new();
    while let Some(packet) = buffer.poll() {
        drained.extend_from_slice(&packet.data);
    }

    assert_eq!(drained, b"aabbcc".to_vec());
}

fn receivable_dao() -> ReceivableDaoReal {
    let conn = rusqlite::Connection::open_in_memory().unwrap();
    conn.execute(
        "create table receivable (wallet_address text primary key, balance integer not null, last_received_timestamp integer not null)",
        (),
    )
    .unwrap();
    ReceivableDaoReal::new(conn)
}

fn unix_now() -> i64 {
    std::time::SystemTime::now()
        .duration_since(std::time::SystemTime::UNIX_EPOCH)
        .unwrap()
        .as_secs() as i64
}

#[test]
fn more_money_receivable_works_for_new_address() {
    let before = unix_now();
    let wallet = Wallet::new("booga");
    let subject = receivable_dao();

    subject.more_money_receivable(&wallet, 1234).unwrap();
    let status: ReceivableAccount = subject.account_status(&wallet).unwrap().unwrap();

    let after = unix_now();
    assert_eq!(status.wallet_address, wallet);
    assert_eq!(status.balance, 1234);
    let timestamp = status.last_received_timestamp;
    assert!(
        timestamp >= before,
        "{:?} should be on or after {:?}",
        timestamp,
        before
    );
    assert!(
        timestamp <= after,
        "{:?} should be on or before {:?}",
        timestamp,
        after
    );
}

#[test]
fn more_money_receivable_works_for_existing_address() {
    let wallet = Wallet::new("booga");
    let subject = receivable_dao();
    subject.more_money_receivable(&wallet, 1234).unwrap();
    subject
        .conn
        .execute(
            "update receivable set last_received_timestamp = 0 where wallet_address = 'booga'",
            (),
        )
        .unwrap();

    subject.more_money_receivable(&wallet, 2345).unwrap();
    let status = subject.account_status(&wallet).unwrap().unwrap();

    assert_eq!(status.wallet_address, wallet);
    assert_eq!(status.balance, 3579);
    assert_eq!(status.last_received_timestamp, 0);
}

#[test]
fn receivable_account_status_works_when_account_doesnt_exist() {
    let wallet = Wallet::new("booga");
    let subject = receivable_dao();

    let result = subject.account_status(&wallet).unwrap();

    assert_eq!(result, None);
}

#[test]
fn console_output_yields_the_announced_node_reference() {
    let reference = NodeReference::new(
        PublicKey::new(&[9, 8, 7]),
        IpAddress::new(172, 18, 1, 5),
        vec![5550],
    );
    let console = format!(
        "booting...\nnode local descriptor: {}\nready\n",
        reference.to_string()
    );

    let extracted = node_core::node_ref::extract_node_reference(console.as_str()).unwrap();

    assert_eq!(extracted, reference);
}

#[test]
fn console_output_without_a_descriptor_yields_nothing() {
    let extracted = node_core::node_ref::extract_node_reference("still booting...");

    assert!(extracted.is_none());
}

#[test]
fn route_construction_names_each_refusal() {
    let cryptde = CryptDENull::new();
    let good = PublicKey::new(b"good key");

    let empty_segment = RouteSegment::new(vec![], Component::ProxyClient);
    assert_eq!(
        Route::one_way(&empty_segment, &cryptde, &None),
        Err(RouteError::EmptyRoute)
    );

    let with_empty_key = RouteSegment::new(
        vec![good.clone(), PublicKey::new(&[])],
        Component::ProxyClient,
    );
    assert_eq!(
        Route::one_way(&with_empty_key, &cryptde, &None),
        Err(RouteError::EmptyKey)
    );

    let segment = RouteSegment::new(vec![good.clone(), good.clone()], Component::ProxyClient);
    assert_eq!(
        Route::one_way(&segment, &cryptde, &Some(Wallet::new("caf\u{00e9}"))),
        Err(RouteError::UnserializableWallet)
    );
}

#[test]
fn empty_and_malformed_hops_are_discarded() {
    let cryptde = CryptDENull::from(&PublicKey::new(b"local"));

    let empty = LiveCoresPackage {
        route: Route { hops: vec![] },
        payload: CryptData::new(b"whatever"),
    };
    match peel(&cryptde, empty, IpAddress::new(1, 1, 1, 1)) {
        PeelOutcome::Discard { reason } => assert_eq!(reason, DiscardReason::EmptyRoute),
        other => panic!("expected Discard, got {:?}", other),
    }

    let garbled_element = cryptde
        .encode(&cryptde.public_key(), b"no element here")
        .unwrap();
    let malformed = LiveCoresPackage {
        route: Route { hops: vec![garbled_element] },
        payload: CryptData::new(b"whatever"),
    };
    match peel(&cryptde, malformed, IpAddress::new(1, 1, 1, 1)) {
        PeelOutcome::Discard { reason } => assert_eq!(reason, DiscardReason::MalformedHop),
        other => panic!("expected Discard, got {:?}", other),
    }
}

#[test]
fn a_missing_table_is_reported_as_corruption() {
    let conn = rusqlite::Connection::open_in_memory().unwrap();
    let subject = ReceivableDaoReal::new(conn);

    let result = subject.more_money_receivable(&Wallet::new("booga"), 1234);

    match result {
        Err(message) => assert!(message.starts_with("Database is corrupt: ")),
        Ok(()) => panic!("a bookless database must be reported"),
    }
}

#[test]
fn a_bare_key_reference_parses_in_every_form() {
    let keyed = NodeReference {
        public_key: PublicKey::new(&[1, 2, 3, 4]),
        node_addr: None,
    };

    let text = keyed.to_string();
    let parsed = NodeReference::from_str(text.as_str()).unwrap();

    assert_eq!(text, "AQIDBA==::");
    assert_eq!(parsed, keyed);
    assert!(NodeReference::from_str("not a reference").is_none());
}
