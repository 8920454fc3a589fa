use quic_server::cid::{AttemptKey, ConnectionId, PeerAddr};
use quic_server::cid_alloc::ServerConnectionIdGenerator;
use quic_server::header::{decode_header, decode_varint, PacketType};
use quic_server::server::{
    next_output, retry_datagram, retry_header, retry_packet, retry_pseudo_packet, validation_decision, AddressValidationResult, Datagram,
    InitialAction, Output, Server, TokenCheck, Triage, ValidateAddress,
};
use quic_server::table::State;

fn client() -> PeerAddr {
    PeerAddr { ip: 0xc0a8_0001, port: 4433 }
}

fn local() -> PeerAddr {
    PeerAddr { ip: 0x7f00_0001, port: 443 }
}

fn long_packet(first: u8, version: u32, dcid: &[u8], scid: &[u8], token: Option<&[u8]>, len: usize) -> Vec<u8> {
    let mut d = vec![first];
    d.extend_from_slice(&version.to_be_bytes());
    d.push(dcid.len() as u8);
    d.extend_from_slice(dcid);
    d.push(scid.len() as u8);
    d.extend_from_slice(scid);
    if let Some(t) = token {
        d.push(t.len() as u8);
        d.extend_from_slice(t);
    }
    while d.len() < len {
        d.push(0);
    }
    d
}

fn initial(version: u32, dcid: &[u8], scid: &[u8], token: &[u8], len: usize) -> Datagram {
    Datagram {
        source: client(),
        destination: local(),
        tos: 0,
        data: long_packet(0xc0, version, dcid, scid, Some(token), len),
    }
}

fn server() -> Server {
    Server::new(vec!["key".to_string()], vec!["h3".to_string()], vec![1], 8)
}

fn cid(b: &[u8]) -> ConnectionId {
    ConnectionId::from_slice(b)
}

fn accept(s: &mut Server, d: &Datagram, res: AddressValidationResult, minted: &[u8]) -> u64 {
    let details = match s.process_input(d, 0x2a) {
        Triage::Initial(i) => i,
        _ => panic!("expected an Initial"),
    };
    let (key, _orig) = match s.handle_initial(details, d.source, res) {
        InitialAction::Accept(k, o) => (k, o),
        _ => panic!("expected a new connection"),
    };
    let mut gen = ServerConnectionIdGenerator::new();
    let out = gen.generate_cid(&mut s.table, Some(cid(minted)));
    assert_eq!(out.unwrap().bytes, minted.to_vec());
    s.accept_connection(key, &mut gen).unwrap()
}

#[test]
fn unsupported_version_gets_version_negotiation() {
    let s = server();
    let d = initial(0xdead_beef, &[0xaa, 0xbb, 0xcc, 0xdd, 0xee, 0xff], &[1, 2, 3, 4], &[], 1200);
    match s.process_input(&d, 0x2a) {
        Triage::Send(vn) => {
            assert_eq!(vn.source, local());
            assert_eq!(vn.destination, client());
            assert_eq!(
                vn.data,
                vec![0xaa, 0, 0, 0, 0, 4, 1, 2, 3, 4, 6, 0xaa, 0xbb, 0xcc, 0xdd, 0xee, 0xff, 0, 0, 0, 1]
            );
        },
        _ => panic!("expected version negotiation"),
    }
    assert!(s.table.conns.is_empty());
    assert!(s.table.routes.is_empty());
}

#[test]
fn known_but_unconfigured_version_gets_version_negotiation() {
    let s = server();
    let d = initial(0x6b33_43cf, &[9; 8], &[7; 4], &[], 1200);
    let d = Datagram { data: { let mut v = d.data; v[0] = 0xd0; v }, ..d };
    match s.process_input(&d, 0) {
        Triage::Send(vn) => {
            assert_eq!(vn.data[0], 0x80);
            assert_eq!(&vn.data[vn.data.len() - 4..], &[0, 0, 0, 1]);
        },
        _ => panic!("expected version negotiation"),
    }
}

#[test]
fn short_unsupported_version_is_dropped() {
    let s = server();
    let d = initial(0xdead_beef, &[0xaa; 6], &[1, 2, 3, 4], &[], 1199);
    assert!(matches!(s.process_input(&d, 0), Triage::Drop));
}

#[test]
fn short_initial_dropped() {
    let s = server();
    let d = initial(1, &[0xd0; 16], &[0xc0, 0xc1, 0xc2, 0xc3], &[], 1199);
    assert!(matches!(s.process_input(&d, 0), Triage::Drop));
    assert!(s.table.conns.is_empty());
}

#[test]
fn retry_then_token_creates_connection() {
    let mut s = server();
    s.set_validation(ValidateAddress::Always);
    let odcid: Vec<u8> = (0xd0..=0xdf).collect();
    let d = initial(1, &odcid, &[0xc0, 0xc1, 0xc2, 0xc3], &[], 1200);
    let details = match s.process_input(&d, 0) {
        Triage::Initial(i) => i,
        _ => panic!("expected an Initial"),
    };
    assert!(details.token.is_empty());
    let res = validation_decision(s.validation, TokenCheck::Absent);
    assert!(matches!(res, AddressValidationResult::Validate));
    match s.handle_initial(details, d.source, res) {
        InitialAction::Retry(o) => assert_eq!(o.bytes, odcid),
        _ => panic!("expected a Retry"),
    }
    assert!(s.table.conns.is_empty());

    let new_dcid = [0x51; 8];
    let d2 = initial(1, &new_dcid, &[0xc0, 0xc1, 0xc2, 0xc3], &[1, 2, 3], 1200);
    let res2 = validation_decision(s.validation, TokenCheck::Retry(Some(cid(&odcid))));
    assert!(matches!(res2, AddressValidationResult::ValidRetry(_)));
    let h = accept(&mut s, &d2, res2, &[0x77; 8]);
    assert_eq!(s.table.conns.len(), 1);
    assert_eq!(s.table.conns[0].handle, h);
    let a = s.table.conns[0].active_attempt.as_ref().unwrap();
    assert_eq!(a.odcid.bytes, odcid);
    assert_eq!(a.remote_address, client());
}

#[test]
fn retry_datagram_swaps_addresses() {
    let d = initial(1, &[1; 8], &[2; 4], &[], 1200);
    match retry_datagram(&d, Some(vec![0xf0, 1, 2])) {
        Output::Datagram(r) => {
            assert_eq!(r.source, local());
            assert_eq!(r.destination, client());
            assert_eq!(r.data, vec![0xf0, 1, 2]);
        },
        _ => panic!("expected a datagram"),
    }
    assert!(matches!(retry_datagram(&d, None), Output::Idle));
}

#[test]
fn invalid_token_dropped() {
    let s = server();
    let d = initial(1, &[3; 8], &[4; 4], &[9, 9], 1200);
    let details = match s.process_input(&d, 0) {
        Triage::Initial(i) => i,
        _ => panic!("expected an Initial"),
    };
    assert_eq!(details.token, vec![9, 9]);
    let res = validation_decision(ValidateAddress::Never, TokenCheck::Retry(None));
    assert!(matches!(s.handle_initial(details, d.source, res), InitialAction::Drop));
}

#[test]
fn validation_decisions() {
    assert!(matches!(validation_decision(ValidateAddress::Never, TokenCheck::Absent), AddressValidationResult::Pass));
    assert!(matches!(validation_decision(ValidateAddress::NewConnection, TokenCheck::Absent), AddressValidationResult::Validate));
    assert!(matches!(validation_decision(ValidateAddress::Always, TokenCheck::NewToken(false)), AddressValidationResult::Validate));
    assert!(matches!(validation_decision(ValidateAddress::NewConnection, TokenCheck::NewToken(false)), AddressValidationResult::Pass));
    assert!(matches!(validation_decision(ValidateAddress::Always, TokenCheck::NewToken(true)), AddressValidationResult::Pass));
    assert!(matches!(validation_decision(ValidateAddress::Always, TokenCheck::Unknown), AddressValidationResult::Invalid));
}

#[test]
fn duplicate_initial_single_connection() {
    let mut s = server();
    let d = initial(1, &[0xa1; 8], &[0xb1; 4], &[], 1200);
    let h = accept(&mut s, &d, AddressValidationResult::Pass, &[0x31; 8]);
    assert_eq!(s.table.conns.len(), 1);
    let details = match s.process_input(&d, 0) {
        Triage::Initial(i) => i,
        _ => panic!("expected an Initial"),
    };
    match s.handle_initial(details, d.source, AddressValidationResult::Pass) {
        InitialAction::Deliver(g) => assert_eq!(g, h),
        _ => panic!("expected delivery to the existing connection"),
    }
    let again = s.accept_connection(
        AttemptKey { remote_address: client(), odcid: cid(&[0xa1; 8]) },
        &mut ServerConnectionIdGenerator::new(),
    );
    assert!(again.is_none());
    assert_eq!(s.table.conns.len(), 1);
}

#[test]
fn cid_minted_before_link_is_routed() {
    let mut s = server();
    let d = initial(1, &[0xa2; 8], &[0xb2; 4], &[], 1200);
    let x = [0x58, 1, 2, 3, 4, 5, 6, 7];
    let h = accept(&mut s, &d, AddressValidationResult::Pass, &x);
    assert_eq!(s.connection(&x), Some(h));
    let mut short = vec![0x40];
    short.extend_from_slice(&x);
    short.extend_from_slice(&[0; 20]);
    let sd = Datagram { source: client(), destination: local(), tos: 0, data: short };
    match s.process_input(&sd, 0) {
        Triage::Deliver(g) => assert_eq!(g, h),
        _ => panic!("expected delivery"),
    }
}

#[test]
fn cid_minted_after_link_is_routed() {
    let mut s = server();
    let d = initial(1, &[0xa3; 8], &[0xb3; 4], &[], 1200);
    let details = match s.process_input(&d, 0) {
        Triage::Initial(i) => i,
        _ => panic!("expected an Initial"),
    };
    let key = match s.handle_initial(details, d.source, AddressValidationResult::Pass) {
        InitialAction::Accept(k, _) => k,
        _ => panic!("expected a new connection"),
    };
    let mut gen = ServerConnectionIdGenerator::new();
    let h = s.accept_connection(key, &mut gen).unwrap();
    assert_eq!(gen.link, Some(h));
    gen.generate_cid(&mut s.table, Some(cid(&[0x44; 8])));
    assert_eq!(s.connection(&[0x44; 8]), Some(h));
    assert!(gen.generate_cid(&mut s.table, None).is_none());
}

#[test]
fn unknown_short_header_dropped() {
    let s = server();
    let mut short = vec![0x40];
    short.extend_from_slice(&[0x66; 8]);
    let sd = Datagram { source: client(), destination: local(), tos: 0, data: short };
    assert!(matches!(s.process_input(&sd, 0), Triage::Drop));
}

#[test]
fn closed_connection_evicted() {
    let mut s = server();
    let d = initial(1, &[0xa4; 8], &[0xb4; 4], &[], 1200);
    let h = accept(&mut s, &d, AddressValidationResult::Pass, &[0x34; 8]);
    let d2 = initial(1, &[0xa5; 8], &[0xb5; 4], &[], 1200);
    let h2 = accept(&mut s, &d2, AddressValidationResult::Pass, &[0x35; 8]);
    assert!(s.record(h, State::Closed, false));
    s.remove_closed();
    assert_eq!(s.connection(&[0x34; 8]), None);
    assert_eq!(s.connection(&[0x35; 8]), Some(h2));
    assert_eq!(s.table.conns.len(), 1);
    assert!(!s.record(h, State::Closed, false));
}

#[test]
fn attempt_released_after_handshake() {
    let mut s = server();
    let d = initial(1, &[0xa6; 8], &[0xb6; 4], &[], 1200);
    let h = accept(&mut s, &d, AddressValidationResult::Pass, &[0x36; 8]);
    assert!(s.record(h, State::Handshaking, true));
    assert!(s.table.conns[0].active_attempt.is_some());
    assert!(s.record(h, State::Connected, true));
    assert!(s.table.conns[0].active_attempt.is_none());
    let details = match s.process_input(&d, 0) {
        Triage::Initial(i) => i,
        _ => panic!("expected an Initial"),
    };
    assert!(matches!(
        s.handle_initial(details, d.source, AddressValidationResult::Pass),
        InitialAction::Accept(_, None)
    ));
}

#[test]
fn zero_rtt_before_accept_dropped() {
    let s = server();
    let d = Datagram {
        source: client(),
        destination: local(),
        tos: 0,
        data: long_packet(0xd0, 1, &[0xa7; 8], &[0xb7; 4], None, 100),
    };
    assert!(matches!(s.process_input(&d, 0), Triage::Drop));
    assert!(s.table.conns.is_empty());
}

#[test]
fn zero_rtt_after_accept_delivered() {
    let mut s = server();
    let d = initial(1, &[0xa8; 8], &[0xb8; 4], &[], 1200);
    let h = accept(&mut s, &d, AddressValidationResult::Pass, &[0x38; 8]);
    let z = Datagram {
        source: client(),
        destination: local(),
        tos: 0,
        data: long_packet(0xd0, 1, &[0xa8; 8], &[0xb8; 4], None, 100),
    };
    match s.process_input(&z, 0) {
        Triage::Deliver(g) => assert_eq!(g, h),
        _ => panic!("expected delivery"),
    }
}

#[test]
fn malformed_datagrams_dropped() {
    let s = server();
    for data in [vec![], vec![0xc0], vec![0xc0, 0, 0, 0, 1, 30], vec![0xc0, 0, 0, 0, 1, 2, 1], vec![0x40, 1, 2]] {
        let d = Datagram { source: client(), destination: local(), tos: 0, data };
        assert!(matches!(s.process_input(&d, 0), Triage::Drop));
    }
}

#[test]
fn header_fields_decoded() {
    let d = long_packet(0xc0, 1, &[1, 2, 3], &[4, 5], Some(&[6, 7, 8]), 20);
    let h = decode_header(&d, 8).unwrap();
    assert_eq!(h.packet_type, PacketType::Initial);
    assert_eq!(h.version, 1);
    assert_eq!(h.dcid.bytes, vec![1, 2, 3]);
    assert_eq!(h.scid.bytes, vec![4, 5]);
    assert_eq!(h.token, vec![6, 7, 8]);
    let hs = long_packet(0xe0, 1, &[1], &[2], None, 10);
    assert_eq!(decode_header(&hs, 8).unwrap().packet_type, PacketType::Handshake);
    let v2 = long_packet(0xd0, 0x6b33_43cf, &[1], &[2], Some(&[]), 10);
    assert_eq!(decode_header(&v2, 8).unwrap().packet_type, PacketType::Initial);
    let long_cid = long_packet(0xc0, 1, &[0; 21], &[2], Some(&[]), 40);
    assert!(decode_header(&long_cid, 8).is_none());
}

#[test]
fn varint_values() {
    assert_eq!(decode_varint(&[0x25], 0), Some((37, 1)));
    assert_eq!(decode_varint(&[0x7b, 0xbd], 0), Some((15293, 2)));
    assert_eq!(decode_varint(&[0x9d, 0x7f, 0x3e, 0x7d], 0), Some((494_878_333, 4)));
    assert_eq!(
        decode_varint(&[0xc2, 0x19, 0x7c, 0x5e, 0xff, 0x14, 0xe8, 0x8c], 0),
        Some((151_288_809_941_952_652, 8))
    );
    assert_eq!(decode_varint(&[0x7b], 0), None);
    assert_eq!(decode_varint(&[0x01], 1), None);
}

#[test]
fn next_output_prefers_first_datagram() {
    let dg = |b: u8| Output::Datagram(Datagram { source: local(), destination: client(), tos: 0, data: vec![b] });
    match next_output(vec![Output::Callback(9), Output::Idle, dg(1), dg(2)]) {
        Output::Datagram(d) => assert_eq!(d.data, vec![1]),
        _ => panic!("expected the first datagram"),
    }
    assert!(matches!(next_output(vec![Output::Callback(9), Output::Idle, Output::Callback(4), Output::Callback(7)]), Output::Callback(4)));
    assert!(matches!(next_output(vec![Output::Idle, Output::Idle]), Output::Idle));
    assert!(matches!(next_output(vec![]), Output::Idle));
}

#[test]
fn active_connections_listed() {
    let mut s = server();
    assert!(!s.has_active_connections());
    let d = initial(1, &[0xa9; 8], &[0xb9; 4], &[], 1200);
    let h = accept(&mut s, &d, AddressValidationResult::Pass, &[0x39; 8]);
    let d2 = initial(1, &[0xaa; 8], &[0xba; 4], &[], 1200);
    let _h2 = accept(&mut s, &d2, AddressValidationResult::Pass, &[0x3a; 8]);
    assert!(s.record(h, State::Handshaking, true));
    assert!(s.has_active_connections());
    assert_eq!(s.active_connections(), vec![h]);
}

#[test]
fn configuration_setters() {
    let mut s = server();
    assert!(s.ech_config().is_empty());
    s.enable_ech(3, "public.example".to_string(), vec![0xfe, 0x0d, 0, 1]);
    assert_eq!(s.ech_config(), &[0xfe, 0x0d, 0, 1]);
    s.set_ciphers(&[0x1301, 0x1303]);
    assert_eq!(s.ciphers, vec![0x1301, 0x1303]);
    s.set_qlog_dir(Some("/var/log/qlog".to_string()));
    assert_eq!(s.qlog_dir.as_deref(), Some("/var/log/qlog"));
    s.set_validation(ValidateAddress::NewConnection);
    assert_eq!(s.validation, ValidateAddress::NewConnection);
}

#[test]
fn qlog_file_name_is_hex() {
    assert_eq!(
        String::from_utf8(quic_server::server::qlog_file_name(&[0x0a, 0xff, 0x10])).unwrap(),
        "0aff10.qlog"
    );
    assert_eq!(String::from_utf8(quic_server::server::qlog_file_name(&[])).unwrap(), ".qlog");
}

#[test]
fn retry_packet_layout() {
    let h = retry_header(1, 0x35, &[0xc0, 0xc1], &[0x51, 0x52, 0x53], &[9, 8]);
    assert_eq!(h, vec![0xf5, 0, 0, 0, 1, 2, 0xc0, 0xc1, 3, 0x51, 0x52, 0x53, 9, 8]);
    let h2 = retry_header(0x6b33_43cf, 0x02, &[1], &[2], &[]);
    assert_eq!(h2, vec![0xc2, 0x6b, 0x33, 0x43, 0xcf, 1, 1, 1, 2]);
    let p = retry_pseudo_packet(&[0xd0, 0xd1], &h2);
    assert_eq!(p, vec![2, 0xd0, 0xd1, 0xc2, 0x6b, 0x33, 0x43, 0xcf, 1, 1, 1, 2]);
    let full = retry_packet(&h2, &[7; 16]);
    assert_eq!(full.len(), h2.len() + 16);
    assert_eq!(&full[h2.len()..], &[7; 16]);
}
