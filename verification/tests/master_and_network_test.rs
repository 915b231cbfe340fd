use s2d2::certificate::parse_cert;
use s2d2::geometry::{BoundingBox, Coordinate};
use s2d2::lookup::Entry;
use s2d2::metadata::{Direction, Metadata, NeighborInfo, Neighbors};
use s2d2::network::{certificate_is_pinned, direction_of_peer, PeerRejection};
use s2d2::operations::{health_command_text, plan_servers, status_of, ServerStatus, SpawnError};

const UUID_CERT_DER: &[u8] = &[
    0x30, 0x82, 0x01, 0x73, 0x30, 0x82, 0x01, 0x25, 0xa0, 0x03, 0x02, 0x01, 0x02, 0x02, 0x14, 0x01,
    0x6c, 0x45, 0x1a, 0x68, 0x24, 0x53, 0x7a, 0xc3, 0xd2, 0xa2, 0x3e, 0xc8, 0xc0, 0xa3, 0x04, 0x22,
    0x47, 0x79, 0x2d, 0x30, 0x05, 0x06, 0x03, 0x2b, 0x65, 0x70, 0x30, 0x2f, 0x31, 0x2d, 0x30, 0x2b,
    0x06, 0x03, 0x55, 0x04, 0x03, 0x0c, 0x24, 0x36, 0x37, 0x65, 0x35, 0x35, 0x30, 0x34, 0x34, 0x2d,
    0x31, 0x30, 0x62, 0x31, 0x2d, 0x34, 0x32, 0x36, 0x66, 0x2d, 0x39, 0x32, 0x34, 0x37, 0x2d, 0x62,
    0x62, 0x36, 0x38, 0x30, 0x65, 0x35, 0x66, 0x65, 0x30, 0x63, 0x38, 0x30, 0x1e, 0x17, 0x0d, 0x32,
    0x36, 0x31, 0x31, 0x31, 0x39, 0x31, 0x32, 0x30, 0x34, 0x33, 0x35, 0x5a, 0x17, 0x0d, 0x33, 0x36,
    0x31, 0x31, 0x31, 0x36, 0x31, 0x32, 0x30, 0x34, 0x33, 0x35, 0x5a, 0x30, 0x2f, 0x31, 0x2d, 0x30,
    0x2b, 0x06, 0x03, 0x55, 0x04, 0x03, 0x0c, 0x24, 0x36, 0x37, 0x65, 0x35, 0x35, 0x30, 0x34, 0x34,
    0x2d, 0x31, 0x30, 0x62, 0x31, 0x2d, 0x34, 0x32, 0x36, 0x66, 0x2d, 0x39, 0x32, 0x34, 0x37, 0x2d,
    0x62, 0x62, 0x36, 0x38, 0x30, 0x65, 0x35, 0x66, 0x65, 0x30, 0x63, 0x38, 0x30, 0x2a, 0x30, 0x05,
    0x06, 0x03, 0x2b, 0x65, 0x70, 0x03, 0x21, 0x00, 0x52, 0xae, 0xd5, 0x61, 0xf2, 0x44, 0x8d, 0x1e,
    0x48, 0xbd, 0x11, 0x23, 0x90, 0x3f, 0x24, 0xfd, 0x87, 0xb1, 0x64, 0x06, 0xb1, 0x9e, 0x06, 0xe4,
    0x73, 0x16, 0x4a, 0x1b, 0x9b, 0x33, 0xb9, 0x82, 0xa3, 0x53, 0x30, 0x51, 0x30, 0x1d, 0x06, 0x03,
    0x55, 0x1d, 0x0e, 0x04, 0x16, 0x04, 0x14, 0xab, 0x55, 0xc6, 0xc8, 0x4c, 0x11, 0x6f, 0x79, 0xbf,
    0xe3, 0x11, 0xfe, 0xb0, 0x4b, 0x9b, 0x2c, 0x95, 0xc7, 0xa1, 0xb3, 0x30, 0x1f, 0x06, 0x03, 0x55,
    0x1d, 0x23, 0x04, 0x18, 0x30, 0x16, 0x80, 0x14, 0xab, 0x55, 0xc6, 0xc8, 0x4c, 0x11, 0x6f, 0x79,
    0xbf, 0xe3, 0x11, 0xfe, 0xb0, 0x4b, 0x9b, 0x2c, 0x95, 0xc7, 0xa1, 0xb3, 0x30, 0x0f, 0x06, 0x03,
    0x55, 0x1d, 0x13, 0x01, 0x01, 0xff, 0x04, 0x05, 0x30, 0x03, 0x01, 0x01, 0xff, 0x30, 0x05, 0x06,
    0x03, 0x2b, 0x65, 0x70, 0x03, 0x41, 0x00, 0x74, 0xa3, 0x27, 0xf0, 0x23, 0x0b, 0x89, 0x14, 0x8f,
    0x91, 0x9f, 0x09, 0x7a, 0x56, 0xe6, 0xba, 0x5b, 0x4e, 0x11, 0x06, 0xba, 0x8f, 0x2f, 0x24, 0x38,
    0xa8, 0x05, 0x55, 0xb5, 0xa7, 0x53, 0xfe, 0x35, 0x47, 0x6c, 0xe1, 0x88, 0xf0, 0xc2, 0x6f, 0xcb,
    0x9d, 0x3c, 0xc8, 0x9a, 0x90, 0x79, 0x54, 0x4d, 0x7c, 0xdd, 0x06, 0x86, 0x61, 0x52, 0x87, 0xcd,
    0xe5, 0x03, 0xb3, 0xbd, 0x59, 0x71, 0x04,
];

const UUID: u128 = 0x67e55044_10b1_426f_9247_bb680e5fe0c8;

fn bbox(x0: i64, y0: i64, x1: i64, y1: i64) -> BoundingBox {
    BoundingBox::new(Coordinate::new(x0, y0), Coordinate::new(x1, y1))
}

#[test]
fn plan_gives_each_server_a_cell_and_three_ports() {
    let mut next_port: u16 = 7777;
    let plan = plan_servers(&bbox(0, 0, 9, 9), 3, &mut next_port).expect("plan");
    assert_eq!(
        plan,
        vec![
            Entry::new(bbox(0, 0, 4, 4), 7777, 8777, 9777),
            Entry::new(bbox(4, 0, 9, 4), 7778, 8778, 9778),
            Entry::new(bbox(0, 4, 4, 9), 7779, 8779, 9779),
        ]
    );
    assert_eq!(next_port, 7780);
}

#[test]
fn plan_refuses_counts_divisible_by_four() {
    let mut next_port: u16 = 7777;
    assert_eq!(plan_servers(&bbox(0, 0, 9, 9), 4, &mut next_port), Err(SpawnError::InvalidCount));
    assert_eq!(plan_servers(&bbox(0, 0, 9, 9), 0, &mut next_port), Err(SpawnError::InvalidCount));
    assert_eq!(next_port, 7777);
}

#[test]
fn health_reply_decides_the_status() {
    assert_eq!(health_command_text(), "PING");
    assert_eq!(status_of(Ok("PONG".to_string())), ServerStatus::Alive);
    assert_eq!(status_of(Ok("pong".to_string())), ServerStatus::Unexpected("pong".to_string()));
    assert_eq!(status_of(Err("refused".to_string())), ServerStatus::Dead("refused".to_string()));
}

#[test]
fn pinned_certificate_must_match_byte_for_byte() {
    assert!(certificate_is_pinned(&[1, 2, 3], &[1, 2, 3]));
    assert!(!certificate_is_pinned(&[1, 2, 3], &[1, 2, 4]));
    assert!(!certificate_is_pinned(&[1, 2, 3], &[1, 2]));
    assert!(certificate_is_pinned(&[], &[]));
}

fn metadata_with(id: u128) -> Metadata {
    let neighbors = Neighbors::new(vec![(Direction::South, NeighborInfo { id, port: 9001, cert: vec![] })]);
    Metadata::new(1, 2, 3, 4, 5, neighbors)
}

#[test]
fn inbound_peer_side_comes_from_its_certificate() {
    let der = parse_cert(cert_pem(UUID_CERT_DER).as_bytes()).ok().unwrap();
    assert_eq!(direction_of_peer(&metadata_with(UUID), &vec![der.clone()]).ok(), Some(Direction::South));
    match direction_of_peer(&metadata_with(7), &vec![der]) {
        Err(PeerRejection::UnknownNeighbor(id)) => assert_eq!(id, UUID),
        _ => panic!("expected an unknown neighbour"),
    }
    assert!(matches!(direction_of_peer(&metadata_with(7), &vec![]), Err(PeerRejection::EmptyChain)));
    assert!(matches!(
        direction_of_peer(&metadata_with(7), &vec![vec![1, 2, 3]]),
        Err(PeerRejection::MalformedIdentity(_))
    ));
}

fn base64(bytes: &[u8]) -> String {
    const ALPHABET: &[u8] = b"ABCDEFGHIJKLMNOPQRSTUVWXYZabcdefghijklmnopqrstuvwxyz0123456789+/";
    let mut out = String::new();
    for chunk in bytes.chunks(3) {
        let b = [chunk[0], *chunk.get(1).unwrap_or(&0), *chunk.get(2).unwrap_or(&0)];
        let n = ((b[0] as u32) << 16) | ((b[1] as u32) << 8) | b[2] as u32;
        for k in 0..4 {
            if k <= chunk.len() {
                out.push(ALPHABET[((n >> (18 - 6 * k)) & 63) as usize] as char);
            } else {
                out.push('=');
            }
        }
    }
    out
}

/// A certificate's DER bytes as PEM text, in lines of 64 characters.
fn cert_pem(der: &[u8]) -> String {
    let body = base64(der);
    let lines: Vec<&str> = body.as_bytes().chunks(64).map(|c| std::str::from_utf8(c).unwrap()).collect();
    format!("-----BEGIN CERTIFICATE-----\n{}\n-----END CERTIFICATE-----\n", lines.join("\n"))
}
