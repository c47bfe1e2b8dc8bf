//! Learning the public address of a socket.

use desk_agent::net::{IpAddr, SocketAddr};
use desk_agent::stun::{
    binding_request, new_transaction_id, padding_present, parse_response, pick_server, Query,
    StunError,
};

fn v4(a: u8, b: u8, c: u8, d: u8, port: u16) -> SocketAddr {
    SocketAddr::new(IpAddr::V4([a, b, c, d]), port)
}

const TXID: [u8; 12] = [0xb7, 0xe7, 0xa7, 0x01, 0xbc, 0x34, 0xd6, 0x86, 0xfa, 0x87, 0xdf, 0xae];

fn response(attrs: &[u8]) -> Vec<u8> {
    let mut msg = vec![0x01, 0x01, 0x00, attrs.len() as u8, 0x21, 0x12, 0xa4, 0x42];
    msg.extend_from_slice(&TXID);
    msg.extend_from_slice(attrs);
    msg
}

#[test]
fn parses_rfc5769_ipv4_vector() {
    // RFC 5769 §2.2 sample response (XOR-MAPPED-ADDRESS 192.0.2.1:32853).
    let txid = [0xb7, 0xe7, 0xa7, 0x01, 0xbc, 0x34, 0xd6, 0x86, 0xfa, 0x87, 0xdf, 0xae];
    let mut msg = vec![0x01, 0x01, 0x00, 0x0c, 0x21, 0x12, 0xa4, 0x42];
    msg.extend_from_slice(&txid);
    msg.extend_from_slice(&[
        0x00, 0x20, 0x00, 0x08, 0x00, 0x01, 0xa1, 0x47, 0xe1, 0x12, 0xa6, 0x43,
    ]);
    assert_eq!(parse_response(&msg, &txid).unwrap(), v4(192, 0, 2, 1, 32853));
    assert!(parse_response(&msg, &[0; 12]).is_err());
}

#[test]
fn parses_rfc5769_ipv6_vector() {
    // RFC 5769 §2.3 sample response: 2001:db8:1234:5678:11:2233:4455:6677, port 32853.
    let msg = response(&[
        0x00, 0x20, 0x00, 0x14, 0x00, 0x02, 0xa1, 0x47, 0x01, 0x13, 0xa9, 0xfa, 0xa5, 0xd3, 0xf1,
        0x79, 0xbc, 0x25, 0xf4, 0xb5, 0xbe, 0xd2, 0xb9, 0xd9,
    ]);
    let addr = parse_response(&msg, &TXID).unwrap();
    assert_eq!(addr.port, 32853);
    assert_eq!(
        addr.ip,
        IpAddr::V6([
            0x20, 0x01, 0x0d, 0xb8, 0x12, 0x34, 0x56, 0x78, 0x00, 0x11, 0x22, 0x33, 0x44, 0x55,
            0x66, 0x77,
        ])
    );
}

#[test]
fn other_attributes_are_skipped_with_their_padding() {
    let msg = response(&[
        0x80, 0x22, 0x00, 0x05, b'h', b'e', b'l', b'l', b'o', 0, 0, 0, // SOFTWARE
        0x00, 0x20, 0x00, 0x08, 0x00, 0x01, 0xa1, 0x47, 0xe1, 0x12, 0xa6, 0x43,
    ]);
    assert!(padding_present(&msg, &TXID));
    assert_eq!(parse_response(&msg, &TXID).unwrap(), v4(192, 0, 2, 1, 32853));
}

#[test]
fn failures_are_told_apart() {
    assert_eq!(parse_response(&[1, 1], &TXID), Err(StunError::NotOurs));
    assert_eq!(parse_response(&response(&[]), &TXID), Err(StunError::Missing));
    let short = response(&[0x00, 0x20, 0x00, 0x08, 0x00, 0x01]);
    assert_eq!(parse_response(&short, &TXID), Err(StunError::Truncated));
    let family = response(&[0x00, 0x20, 0x00, 0x08, 0x00, 0x03, 0, 0, 0, 0, 0, 0]);
    assert_eq!(parse_response(&family, &TXID), Err(StunError::UnknownFamily));
    let unpadded = response(&[0x80, 0x22, 0x00, 0x05, b'h', b'e', b'l', b'l', b'o']);
    assert!(!padding_present(&unpadded, &TXID));
}

#[test]
fn only_the_server_is_heard() {
    let server = v4(162, 159, 207, 0, 3478);
    let msg =
        response(&[0x00, 0x20, 0x00, 0x08, 0x00, 0x01, 0xa1, 0x47, 0xe1, 0x12, 0xa6, 0x43]);
    let q = Query::new(server, TXID);
    assert!(q.readable(&server, &msg));
    assert_eq!(q.answer(&server, &msg), Some(v4(192, 0, 2, 1, 32853)));
    assert_eq!(q.answer(&v4(162, 159, 207, 0, 3479), &msg), None);
    assert_eq!(Query::new(server, [0; 12]).answer(&server, &msg), None);
    let unpadded = response(&[0x80, 0x22, 0x00, 0x05, b'h', b'e', b'l', b'l', b'o']);
    assert!(!q.readable(&server, &unpadded));
    assert!(q.readable(&v4(1, 2, 3, 4, 5), &unpadded));
}

#[test]
fn requests_and_waits() {
    let req = binding_request(&TXID);
    assert_eq!(req[..8], [0, 1, 0, 0, 0x21, 0x12, 0xa4, 0x42]);
    assert_eq!(req[8..], TXID);
    let mut q = Query::new(v4(1, 2, 3, 4, 5), TXID);
    assert_eq!(q.datagram(), req);
    assert_eq!(q.next_try(), Some(400));
    assert_eq!(q.next_try(), Some(800));
    assert_eq!(q.next_try(), Some(1600));
    assert_eq!(q.next_try(), None);
    assert_eq!(q.next_try(), None);
    assert_ne!(new_transaction_id(), new_transaction_id());
}

#[test]
fn servers_of_the_own_family_are_picked() {
    let six = SocketAddr::new(IpAddr::V6([1; 16]), 1);
    let list = vec![six, v4(1, 2, 3, 4, 5), v4(6, 7, 8, 9, 10)];
    assert_eq!(pick_server(&list, true), Some(v4(1, 2, 3, 4, 5)));
    assert_eq!(pick_server(&list, false), Some(six));
    assert_eq!(pick_server(&vec![six], true), None);
}

#[test]
fn padding_and_the_first_octet_mean_nothing() {
    let msg = response(&[
        0x80, 0x22, 0x00, 0x05, b'h', b'e', b'l', b'l', b'o', 0xff, 0x20, 0x01, // SOFTWARE
        0x00, 0x20, 0x00, 0x04, 0x00, 0x01, 0xa1, 0x47, // too short for an address
        0x00, 0x20, 0x00, 0x09, 0xee, 0x01, 0xa1, 0x47, 0xe1, 0x12, 0xa6, 0x43, 0x77,
    ]);
    assert_eq!(parse_response(&msg, &TXID).unwrap(), v4(192, 0, 2, 1, 32853));
}

#[test]
fn scope_and_flow_tell_addresses_apart() {
    let here = SocketAddr { ip: IpAddr::V6([9; 16]), port: 3478, flowinfo: 0, scope_id: 2 };
    let there = SocketAddr { scope_id: 3, ..here };
    let marked = SocketAddr { flowinfo: 1, ..here };
    assert!(here.same(&here) && !here.same(&there) && !here.same(&marked));
    let msg =
        response(&[0x00, 0x20, 0x00, 0x08, 0x00, 0x01, 0xa1, 0x47, 0xe1, 0x12, 0xa6, 0x43]);
    let q = Query::new(here, TXID);
    assert_eq!(q.answer(&here, &msg), Some(v4(192, 0, 2, 1, 32853)));
    assert_eq!(q.answer(&there, &msg), None);
    assert_eq!(q.answer(&marked, &msg), None);
}
