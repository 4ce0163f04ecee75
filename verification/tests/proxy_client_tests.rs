use node_core::cryptde::{CryptDENull, CryptData, PublicKey};
use node_core::hopper::{ExpiredCoresPackage, IncipientCoresPackage};
use node_core::node_addr::{IpAddress, SocketAddress};
use node_core::proxy_client::{
    ClientResponsePayload, InboundDataOutcome, InboundServerData, ProxyClient, StreamContext,
    TEMPORARY_PER_EXIT_BYTE_RATE, TEMPORARY_PER_EXIT_RATE,
};
use node_core::proxy_server::{ClientRequestPayload, ProxyProtocol};
use node_core::route::Route;
use node_core::stream::{SequencedPacket, StreamKey};
use node_core::wallet::Wallet;

fn cryptde() -> CryptDENull {
    CryptDENull::from(&PublicKey::new(b"exit_cryptde_key"))
}

fn dnss() -> Vec<SocketAddress> {
    vec![SocketAddress::new(IpAddress::new(8, 8, 8, 8), 53)]
}

fn make_meaningless_stream_key() -> StreamKey {
    StreamKey::new(b"meaningless stream key")
}

fn make_meaningless_route() -> Route {
    Route { hops: vec![CryptData::new(b"some hop"), CryptData::new(b"another hop")] }
}

fn encodex_request(cryptde: &CryptDENull, request: &ClientRequestPayload) -> CryptData {
    let plain = request.encode().unwrap();
    cryptde.encode(&cryptde.public_key(), plain.as_slice()).unwrap()
}

#[test]
fn make_terminating_payload_makes_terminating_payload() {
    let stream_key: StreamKey = make_meaningless_stream_key();

    let payload = ClientResponsePayload::make_terminating_payload(stream_key);

    assert_eq!(
        payload,
        ClientResponsePayload {
            stream_key: make_meaningless_stream_key(),
            sequenced_packet: SequencedPacket {
                data: vec![],
                sequence_number: 0,
                last_data: true
            },
        }
    )
}

#[test]
fn at_least_one_dns_server_must_be_provided() {
    let result = ProxyClient::try_new(cryptde(), vec![]);

    match result {
        Err(message) => assert_eq!(
            message,
            "Proxy Client requires at least one DNS server IP address after the --dns_servers parameter"
        ),
        Ok(_) => panic!("an empty DNS server list must be refused"),
    }
}

#[test]
fn invalid_package_is_logged_and_discarded() {
    let package = ExpiredCoresPackage::new(
        IpAddress::new(1, 2, 3, 4),
        Some(Wallet::new("consuming")),
        make_meaningless_route(),
        CryptData::new(b"invalid"),
    );
    let mut subject = ProxyClient::new(cryptde(), dnss());
    subject.handle_bind();

    let result = subject.handle_expired_cores_package(package);

    match result {
        Err(log) => {
            assert!(log.contains("Error ('Decryption error: InvalidKey"));
            assert!(log.contains("interpreting payload"));
        }
        Ok(_) => panic!("an undecryptable package must be refused"),
    }
    assert_eq!(subject.stream_contexts.len(), 0);
}

#[test]
fn data_from_hopper_is_relayed_to_stream_handler_pool() {
    let cryptde = cryptde();
    let request = ClientRequestPayload {
        stream_key: make_meaningless_stream_key(),
        sequenced_packet: SequencedPacket {
            data: b"inbound data".to_vec(),
            sequence_number: 0,
            last_data: false,
        },
        target_hostname: None,
        target_port: 0,
        protocol: ProxyProtocol::HTTP,
        originator_public_key: PublicKey::new(&b"originator"[..]),
    };
    let package = ExpiredCoresPackage::new(
        IpAddress::new(1, 2, 3, 4),
        Some(Wallet::new("consuming")),
        make_meaningless_route(),
        encodex_request(&cryptde, &request),
    );
    let mut subject = ProxyClient::new(cryptde, dnss());
    subject.handle_bind();

    let (payload, consuming_wallet) = subject.handle_expired_cores_package(package).unwrap();

    assert_eq!(payload, request);
    assert_eq!(consuming_wallet, Some(Wallet::new("consuming")));
    assert_eq!(subject.stream_contexts.len(), 1);
}

#[test]
fn inbound_server_data_is_translated_to_cores_packages() {
    let stream_key = make_meaningless_stream_key();
    let data: &[u8] = b"An honest politician is one who, when he is bought, will stay bought.";
    let mut subject = ProxyClient::new(
        cryptde(),
        vec![SocketAddress::new(IpAddress::new(8, 7, 6, 5), 4321)],
    );
    subject.handle_bind();
    subject.stream_contexts.push((
        stream_key.clone(),
        StreamContext {
            return_route: make_meaningless_route(),
            payload_destination_key: PublicKey::new(&b"abcd"[..]),
            consuming_wallet: Some(Wallet::new("consuming")),
        },
    ));
    let source = SocketAddress::new(IpAddress::new(1, 2, 3, 4), 5678);

    let first = subject.handle_inbound_server_data(InboundServerData {
        stream_key: stream_key.clone(),
        last_data: false,
        sequence_number: 1234,
        source,
        data: Vec::from(data),
    });
    let second = subject.handle_inbound_server_data(InboundServerData {
        stream_key: stream_key.clone(),
        last_data: true,
        sequence_number: 1235,
        source,
        data: Vec::from(data),
    });
    let third = subject.handle_inbound_server_data(InboundServerData {
        stream_key: stream_key.clone(),
        last_data: false,
        sequence_number: 1236,
        source,
        data: Vec::from(data),
    });

    let expected_first = IncipientCoresPackage::new(
        &cryptde(),
        make_meaningless_route(),
        ClientResponsePayload {
            stream_key: stream_key.clone(),
            sequenced_packet: SequencedPacket {
                data: Vec::from(data),
                sequence_number: 1234,
                last_data: false,
            },
        }
        .encode()
        .as_slice(),
        &PublicKey::new(&b"abcd"[..]),
    )
    .unwrap();
    match first {
        InboundDataOutcome::Relayed { package, exit_report, free_log } => {
            assert_eq!(package, expected_first);
            assert_eq!(
                exit_report.unwrap(),
                node_core::accountant::ReportExitServiceProvidedMessage {
                    consuming_wallet: Wallet::new("consuming"),
                    payload_size: data.len(),
                    service_rate: TEMPORARY_PER_EXIT_RATE,
                    byte_rate: TEMPORARY_PER_EXIT_BYTE_RATE,
                }
            );
            assert!(free_log.is_none());
        }
        other => panic!("expected Relayed, got {:?}", other),
    }
    match second {
        InboundDataOutcome::Relayed { exit_report, .. } => {
            assert!(exit_report.is_some());
        }
        other => panic!("expected Relayed, got {:?}", other),
    }
    match third {
        InboundDataOutcome::Unsolicited { log } => {
            assert_eq!(
                log,
                format!(
                    "Received unsolicited {}-byte response from 1.2.3.4:5678, seq 1236: ignoring",
                    data.len()
                )
            );
        }
        other => panic!("expected Unsolicited, got {:?}", other),
    }
    assert_eq!(subject.stream_contexts.len(), 0);
}

#[test]
fn inbound_server_data_without_consuming_wallet_does_not_report_exit_service() {
    let stream_key = make_meaningless_stream_key();
    let data: &[u8] = b"An honest politician is one who, when he is bought, will stay bought.";
    let mut subject = ProxyClient::new(
        cryptde(),
        vec![SocketAddress::new(IpAddress::new(8, 7, 6, 5), 4321)],
    );
    subject.handle_bind();
    subject.stream_contexts.push((
        stream_key.clone(),
        StreamContext {
            return_route: make_meaningless_route(),
            payload_destination_key: PublicKey::new(&b"abcd"[..]),
            consuming_wallet: None,
        },
    ));

    let outcome = subject.handle_inbound_server_data(InboundServerData {
        stream_key: stream_key.clone(),
        last_data: false,
        sequence_number: 1234,
        source: SocketAddress::new(IpAddress::new(1, 2, 3, 4), 5678),
        data: Vec::from(data),
    });

    match outcome {
        InboundDataOutcome::Relayed { exit_report, free_log, .. } => {
            assert!(exit_report.is_none());
            assert_eq!(
                free_log.unwrap(),
                format!(
                    "Relayed {}-byte response without consuming wallet for free",
                    data.len()
                )
            );
        }
        other => panic!("expected Relayed, got {:?}", other),
    }
}

#[test]
fn error_creating_incipient_cores_package_is_logged_and_dropped() {
    let stream_key = make_meaningless_stream_key();
    let data: &[u8] = b"An honest politician is one who, when he is bought, will stay bought.";
    let mut subject = ProxyClient::new(
        cryptde(),
        vec![SocketAddress::new(IpAddress::new(8, 7, 6, 5), 4321)],
    );
    subject.handle_bind();
    subject.stream_contexts.push((
        stream_key.clone(),
        StreamContext {
            return_route: make_meaningless_route(),
            payload_destination_key: PublicKey::new(&[]),
            consuming_wallet: Some(Wallet::new("consuming")),
        },
    ));

    let outcome = subject.handle_inbound_server_data(InboundServerData {
        stream_key: stream_key.clone(),
        last_data: false,
        sequence_number: 1234,
        source: SocketAddress::new(IpAddress::new(1, 2, 3, 4), 5678),
        data: Vec::from(data),
    });

    match outcome {
        InboundDataOutcome::CoresPackageFailed { log } => {
            assert_eq!(
                log,
                format!(
                    "Could not create CORES package for {}-byte response from 1.2.3.4:5678, seq 1234: Could not encrypt payload: EmptyKey - ignoring",
                    data.len()
                )
            );
        }
        other => panic!("expected CoresPackageFailed, got {:?}", other),
    }
    assert_eq!(subject.stream_contexts.len(), 1);
}

#[test]
fn new_return_route_overwrites_existing_return_route() {
    let cryptde = cryptde();
    let stream_key = make_meaningless_stream_key();
    let data: &[u8] = b"An honest politician is one who, when he is bought, will stay bought.";
    let mut subject = ProxyClient::new(
        cryptde.clone(),
        vec![SocketAddress::new(IpAddress::new(8, 7, 6, 5), 4321)],
    );
    subject.handle_bind();
    let old_return_route = Route { hops: vec![CryptData::new(&[1, 2, 3, 4])] };
    let new_return_route = make_meaningless_route();
    let originator_public_key = PublicKey::new(&[4, 3, 2, 1]);
    subject.stream_contexts.push((
        stream_key.clone(),
        StreamContext {
            return_route: old_return_route,
            payload_destination_key: originator_public_key.clone(),
            consuming_wallet: Some(Wallet::new("consuming")),
        },
    ));
    let payload = ClientRequestPayload {
        stream_key: stream_key.clone(),
        sequenced_packet: SequencedPacket { data: vec![], sequence_number: 0, last_data: false },
        target_hostname: None,
        target_port: 0,
        protocol: ProxyProtocol::HTTP,
        originator_public_key: originator_public_key.clone(),
    };

    let (relayed_payload, wallet) = subject
        .handle_expired_cores_package(ExpiredCoresPackage::new(
            IpAddress::new(2, 3, 4, 5),
            Some(Wallet::new("gnimusnoc")),
            new_return_route.clone(),
            encodex_request(&cryptde, &payload),
        ))
        .unwrap();
    let outcome = subject.handle_inbound_server_data(InboundServerData {
        stream_key: stream_key.clone(),
        last_data: false,
        sequence_number: 1234,
        source: SocketAddress::new(IpAddress::new(1, 2, 3, 4), 5678),
        data: Vec::from(data),
    });

    assert_eq!(relayed_payload, payload);
    assert_eq!(wallet, Some(Wallet::new("gnimusnoc")));
    let expected_icp = IncipientCoresPackage::new(
        &cryptde,
        new_return_route,
        ClientResponsePayload {
            stream_key,
            sequenced_packet: SequencedPacket {
                data: Vec::from(data),
                sequence_number: 1234,
                last_data: false,
            },
        }
        .encode()
        .as_slice(),
        &originator_public_key,
    )
    .unwrap();
    match outcome {
        InboundDataOutcome::Relayed { package, exit_report, .. } => {
            assert_eq!(package, expected_icp);
            assert_eq!(exit_report.unwrap().consuming_wallet, Wallet::new("gnimusnoc"));
        }
        other => panic!("expected Relayed, got {:?}", other),
    }
}

#[test]
fn bind_operates_properly() {
    let mut subject = ProxyClient::new(cryptde(), dnss());

    let servers = subject.handle_bind();

    assert!(subject.bound);
    assert_eq!(servers, dnss());
}
