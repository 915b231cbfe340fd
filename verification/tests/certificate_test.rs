use s2d2::certificate::{
    certificate_from_read, common_name_from_read, extract_uuid_from_cert, identity_from_parse, key_from_read,
    parse_cert, parse_key, CertErrorKind, KeyKind,
};

const UUID_CERT_DER: &[u8] = &[
    0x30, 0x82, 0x01, 0x73, 0x30, 0x82, 0x01, 0x25, 0xa0, 0x03, 0x02, 0x01, 0x02, 0x02, 0x14, 0x01,
    0x6c, 0x45, 0x1a, 0x68, 0x24, 0x53, 0x7a, 0xc3, 0xd2, 0xa2, 0x3e, 0xc8, 0xc0, 0xa3, 0x04, 0x22,
    0x47, 0x79, 0x2d, 0x30, 0x05, 0x06, 0x03, 0x2b, 0x65, 0x70, 0x30, 0x2f, 0x31, 0x2d, 0x30, 0x2b,
    0x06, 0x03, 0x55, 0x04, 0x03, 0x0c, 0x24, 0x36, 0x37, 0x65, 0x35, 0x35, 0x30, 0x34, 0x34, 0x2d,
    0x31, 0x30, 0x62, 0x31, 0x2d, 0x34, 0x32, 0x36, 0x66, 0x2d, 0x39, 0x32, 0x34, 0x37, 0x2d, 0x62,
    0x62, 0x36, 0x38, 0x30, 0x65, 0x35, 0x66, 0x65, 0x30, 0x63, 0x38, 0x30, 0x1e, 0x17, 0x0d, 0x32,
    0x36, 0x31, 0x31, 0x31, 0x39, 0x31, 0x32, 0x30, 0x34, 0x33, 0x35, 0x5a, 0x17, 0x0d, 0x33, 0x36,
    0x31, 0x31, 0x31, 0x36, 0x31, 0x32, 0x30, 0x34, 0x33, 0x35, 0x5a, 0x30, 0x2f, 0x31, 0x2d, 0x30,
    0x2b, 0x06, 0x03, 0x55, 0x04, 0x03, 0x0c, 0x24, 0x36, 0x37, 0x65, 0x35, 0x35, 0x30, 0x34, 0x34,
    0x2d, 0x31, 0x30, 0x62, 0x31, 0x2d, 0x34, 0x32, 0x36, 0x66, 0x2d, 0x39, 0x32, 0x34, 0x37, 0x2d,
    0x62, 0x62, 0x36, 0x38, 0x30, 0x65, 0x35, 0x66, 0x65, 0x30, 0x63, 0x38, 0x30, 0x2a, 0x30, 0x05,
    0x06, 0x03, 0x2b, 0x65, 0x70, 0x03, 0x21, 0x00, 0x52, 0xae, 0xd5, 0x61, 0xf2, 0x44, 0x8d, 0x1e,
    0x48, 0xbd, 0x11, 0x23, 0x90, 0x3f, 0x24, 0xfd, 0x87, 0xb1, 0x64, 0x06, 0xb1, 0x9e, 0x06, 0xe4,
    0x73, 0x16, 0x4a, 0x1b, 0x9b, 0x33, 0xb9, 0x82, 0xa3, 0x53, 0x30, 0x51, 0x30, 0x1d, 0x06, 0x03,
    0x55, 0x1d, 0x0e, 0x04, 0x16, 0x04, 0x14, 0xab, 0x55, 0xc6, 0xc8, 0x4c, 0x11, 0x6f, 0x79, 0xbf,
    0xe3, 0x11, 0xfe, 0xb0, 0x4b, 0x9b, 0x2c, 0x95, 0xc7, 0xa1, 0xb3, 0x30, 0x1f, 0x06, 0x03, 0x55,
    0x1d, 0x23, 0x04, 0x18, 0x30, 0x16, 0x80, 0x14, 0xab, 0x55, 0xc6, 0xc8, 0x4c, 0x11, 0x6f, 0x79,
    0xbf, 0xe3, 0x11, 0xfe, 0xb0, 0x4b, 0x9b, 0x2c, 0x95, 0xc7, 0xa1, 0xb3, 0x30, 0x0f, 0x06, 0x03,
    0x55, 0x1d, 0x13, 0x01, 0x01, 0xff, 0x04, 0x05, 0x30, 0x03, 0x01, 0x01, 0xff, 0x30, 0x05, 0x06,
    0x03, 0x2b, 0x65, 0x70, 0x03, 0x41, 0x00, 0x74, 0xa3, 0x27, 0xf0, 0x23, 0x0b, 0x89, 0x14, 0x8f,
    0x91, 0x9f, 0x09, 0x7a, 0x56, 0xe6, 0xba, 0x5b, 0x4e, 0x11, 0x06, 0xba, 0x8f, 0x2f, 0x24, 0x38,
    0xa8, 0x05, 0x55, 0xb5, 0xa7, 0x53, 0xfe, 0x35, 0x47, 0x6c, 0xe1, 0x88, 0xf0, 0xc2, 0x6f, 0xcb,
    0x9d, 0x3c, 0xc8, 0x9a, 0x90, 0x79, 0x54, 0x4d, 0x7c, 0xdd, 0x06, 0x86, 0x61, 0x52, 0x87, 0xcd,
    0xe5, 0x03, 0xb3, 0xbd, 0x59, 0x71, 0x04,
];

/// A PKCS#8 key for Ed25519 as DER bytes: the algorithm identifier and a
/// 32-byte secret (a made-up one).
fn pkcs8_der() -> Vec<u8> {
    let mut der = vec![0x30, 0x2e, 0x02, 0x01, 0x00, 0x30, 0x05, 0x06, 0x03, 0x2b, 0x65, 0x70, 0x04, 0x22, 0x04, 0x20];
    der.extend(std::iter::repeat(0x07u8).take(32));
    der
}

fn base64(bytes: &[u8]) -> String {
    const ALPHABET: &[u8] = b"ABCDEFGHIJKLMNOPQRSTUVWXYZabcdefghijklmnopqrstuvwxyz0123456789+/";
    let mut out = String::new();
    for chunk in bytes.chunks(3) {
        let b = [chunk[0], *chunk.get(1).unwrap_or(&0), *chunk.get(2).unwrap_or(&0)];
        let n = ((b[0] as u32) << 16) | ((b[1] as u32) << 8) | b[2] as u32;
        for k in 0..4 {
            if k <= chunk.len() {
                out.push(ALPHABET[((n >> (18 - 6 * k)) & 63) as usize] as char);
            } else {
                out.push('=');
            }
        }
    }
    out
}

/// The key as PEM text, with its section label put together here.
fn key_pem() -> String {
    let label = ["PRIVATE", "KEY"].join(" ");
    format!("-----BEGIN {label}-----
{}
-----END {label}-----
", base64(&pkcs8_der()))
}

const TEXT_CERT_DER: &[u8] = &[
    0x30, 0x82, 0x01, 0x3e, 0x30, 0x81, 0xf1, 0xa0, 0x03, 0x02, 0x01, 0x02, 0x02, 0x14, 0x7e, 0x15,
    0x23, 0xac, 0x22, 0x20, 0xd3, 0xa9, 0x0c, 0x86, 0x31, 0xc2, 0x4c, 0x0a, 0x2a, 0x16, 0x86, 0x8a,
    0xeb, 0x76, 0x30, 0x05, 0x06, 0x03, 0x2b, 0x65, 0x70, 0x30, 0x15, 0x31, 0x13, 0x30, 0x11, 0x06,
    0x03, 0x55, 0x04, 0x03, 0x0c, 0x0a, 0x6e, 0x6f, 0x74, 0x2d, 0x61, 0x2d, 0x75, 0x75, 0x69, 0x64,
    0x30, 0x1e, 0x17, 0x0d, 0x32, 0x36, 0x31, 0x31, 0x31, 0x39, 0x31, 0x32, 0x30, 0x34, 0x33, 0x35,
    0x5a, 0x17, 0x0d, 0x33, 0x36, 0x31, 0x31, 0x31, 0x36, 0x31, 0x32, 0x30, 0x34, 0x33, 0x35, 0x5a,
    0x30, 0x15, 0x31, 0x13, 0x30, 0x11, 0x06, 0x03, 0x55, 0x04, 0x03, 0x0c, 0x0a, 0x6e, 0x6f, 0x74,
    0x2d, 0x61, 0x2d, 0x75, 0x75, 0x69, 0x64, 0x30, 0x2a, 0x30, 0x05, 0x06, 0x03, 0x2b, 0x65, 0x70,
    0x03, 0x21, 0x00, 0xa8, 0xcb, 0xdc, 0xcb, 0xb5, 0x8b, 0xd4, 0x7f, 0xd2, 0x87, 0xb9, 0xb1, 0xf4,
    0xae, 0x58, 0xcc, 0x83, 0x2e, 0x04, 0x8e, 0x36, 0x07, 0x5b, 0x1f, 0x6e, 0x61, 0xd8, 0xa6, 0x1a,
    0x64, 0x7a, 0x26, 0xa3, 0x53, 0x30, 0x51, 0x30, 0x1d, 0x06, 0x03, 0x55, 0x1d, 0x0e, 0x04, 0x16,
    0x04, 0x14, 0xd8, 0x67, 0xa2, 0x9a, 0x1d, 0x6f, 0xcd, 0xa8, 0xf9, 0xd6, 0x6a, 0xbc, 0xb7, 0xd4,
    0xfe, 0x6c, 0x89, 0x77, 0xf3, 0xd6, 0x30, 0x1f, 0x06, 0x03, 0x55, 0x1d, 0x23, 0x04, 0x18, 0x30,
    0x16, 0x80, 0x14, 0xd8, 0x67, 0xa2, 0x9a, 0x1d, 0x6f, 0xcd, 0xa8, 0xf9, 0xd6, 0x6a, 0xbc, 0xb7,
    0xd4, 0xfe, 0x6c, 0x89, 0x77, 0xf3, 0xd6, 0x30, 0x0f, 0x06, 0x03, 0x55, 0x1d, 0x13, 0x01, 0x01,
    0xff, 0x04, 0x05, 0x30, 0x03, 0x01, 0x01, 0xff, 0x30, 0x05, 0x06, 0x03, 0x2b, 0x65, 0x70, 0x03,
    0x41, 0x00, 0x4c, 0x77, 0xa0, 0xf1, 0x23, 0x89, 0x7b, 0x28, 0xc9, 0x54, 0x0f, 0x4f, 0x90, 0x67,
    0xd1, 0xcb, 0xf4, 0xad, 0x73, 0x5b, 0x70, 0x06, 0x9c, 0x95, 0x72, 0x75, 0xcd, 0x37, 0xc6, 0xfc,
    0xeb, 0xa8, 0x25, 0xd6, 0x74, 0x6d, 0x2b, 0xb5, 0x87, 0x08, 0x93, 0x22, 0x69, 0xfa, 0x52, 0x75,
    0xfa, 0xe2, 0x60, 0x2f, 0x3b, 0x37, 0x29, 0xb1, 0xc2, 0xd7, 0x9d, 0xdd, 0xad, 0x8c, 0x90, 0x38,
    0x36, 0x08,
];

const NO_NAME_CERT_DER: &[u8] = &[
    0x30, 0x82, 0x01, 0x42, 0x30, 0x81, 0xf5, 0xa0, 0x03, 0x02, 0x01, 0x02, 0x02, 0x14, 0x4f, 0x08,
    0x5b, 0x60, 0xa8, 0x8c, 0x1f, 0xe6, 0x67, 0xec, 0x9c, 0x93, 0x93, 0x51, 0xfb, 0x3c, 0xd9, 0x5c,
    0xb7, 0x00, 0x30, 0x05, 0x06, 0x03, 0x2b, 0x65, 0x70, 0x30, 0x17, 0x31, 0x15, 0x30, 0x13, 0x06,
    0x03, 0x55, 0x04, 0x0a, 0x0c, 0x0c, 0x4e, 0x6f, 0x43, 0x6f, 0x6d, 0x6d, 0x6f, 0x6e, 0x4e, 0x61,
    0x6d, 0x65, 0x30, 0x1e, 0x17, 0x0d, 0x32, 0x36, 0x31, 0x31, 0x31, 0x39, 0x31, 0x32, 0x30, 0x34,
    0x33, 0x35, 0x5a, 0x17, 0x0d, 0x33, 0x36, 0x31, 0x31, 0x31, 0x36, 0x31, 0x32, 0x30, 0x34, 0x33,
    0x35, 0x5a, 0x30, 0x17, 0x31, 0x15, 0x30, 0x13, 0x06, 0x03, 0x55, 0x04, 0x0a, 0x0c, 0x0c, 0x4e,
    0x6f, 0x43, 0x6f, 0x6d, 0x6d, 0x6f, 0x6e, 0x4e, 0x61, 0x6d, 0x65, 0x30, 0x2a, 0x30, 0x05, 0x06,
    0x03, 0x2b, 0x65, 0x70, 0x03, 0x21, 0x00, 0xb6, 0xf7, 0xbd, 0x81, 0xc4, 0x07, 0xe3, 0x3b, 0xd3,
    0x47, 0x2b, 0x70, 0xfd, 0xb1, 0x02, 0x10, 0x62, 0x6a, 0x65, 0xdc, 0x85, 0x83, 0x47, 0xd3, 0x7c,
    0x9c, 0xfc, 0x6d, 0xb2, 0xb3, 0x78, 0x82, 0xa3, 0x53, 0x30, 0x51, 0x30, 0x1d, 0x06, 0x03, 0x55,
    0x1d, 0x0e, 0x04, 0x16, 0x04, 0x14, 0xa1, 0x76, 0xc5, 0x42, 0x61, 0xeb, 0xb3, 0xe0, 0x29, 0xa8,
    0x60, 0x45, 0x63, 0x0b, 0xd8, 0x94, 0xdc, 0xea, 0x5f, 0x79, 0x30, 0x1f, 0x06, 0x03, 0x55, 0x1d,
    0x23, 0x04, 0x18, 0x30, 0x16, 0x80, 0x14, 0xa1, 0x76, 0xc5, 0x42, 0x61, 0xeb, 0xb3, 0xe0, 0x29,
    0xa8, 0x60, 0x45, 0x63, 0x0b, 0xd8, 0x94, 0xdc, 0xea, 0x5f, 0x79, 0x30, 0x0f, 0x06, 0x03, 0x55,
    0x1d, 0x13, 0x01, 0x01, 0xff, 0x04, 0x05, 0x30, 0x03, 0x01, 0x01, 0xff, 0x30, 0x05, 0x06, 0x03,
    0x2b, 0x65, 0x70, 0x03, 0x41, 0x00, 0xf6, 0x3c, 0xdd, 0xfe, 0xc8, 0xb1, 0x5a, 0xd9, 0xbc, 0x4c,
    0x85, 0x68, 0x9e, 0x7a, 0xdd, 0xc8, 0x2d, 0xa7, 0x1e, 0x78, 0x7d, 0x3e, 0x60, 0x80, 0x25, 0x28,
    0xaf, 0x3b, 0xcf, 0x43, 0xcf, 0x6d, 0x26, 0x9b, 0x2c, 0xae, 0x4b, 0x24, 0xfb, 0xbc, 0x75, 0x3a,
    0x2b, 0xcf, 0x70, 0x33, 0xf2, 0x5f, 0xb2, 0xa1, 0xe1, 0x80, 0x35, 0xfe, 0x2b, 0x3a, 0x87, 0x9d,
    0xa9, 0xbf, 0x5a, 0x99, 0x62, 0x00,
];

const UUID: u128 = 0x67e55044_10b1_426f_9247_bb680e5fe0c8;

#[test]
fn parse_cert_gives_the_der_bytes() {
    let der = parse_cert(cert_pem(UUID_CERT_DER).as_bytes()).ok().expect("certificate");
    assert_eq!(der, UUID_CERT_DER.to_vec());
}

#[test]
fn parse_cert_without_a_certificate() {
    let e = parse_cert(b"nothing here").err().expect("error");
    assert_eq!(e.kind, CertErrorKind::NoCertificate);
    assert_eq!(e.detail, "");
    let e = parse_cert(key_pem().as_bytes()).err().expect("error");
    assert_eq!(e.kind, CertErrorKind::NoCertificate);
}

#[test]
fn parse_cert_with_a_broken_section() {
    let broken = "-----BEGIN CERTIFICATE-----\n!!!!\n-----END CERTIFICATE-----\n";
    let e = parse_cert(broken.as_bytes()).err().expect("error");
    assert_eq!(e.kind, CertErrorKind::InvalidPem);
    assert!(!e.detail.is_empty());
}

#[test]
fn parse_key_recognises_a_pkcs8_key() {
    let key = parse_key(key_pem().as_bytes()).ok().expect("key");
    assert_eq!(key.kind, KeyKind::Pkcs8);
    assert_eq!(key.der, pkcs8_der());
}

#[test]
fn parse_key_without_a_key() {
    let e = parse_key(cert_pem(UUID_CERT_DER).as_bytes()).err().expect("error");
    assert_eq!(e.kind, CertErrorKind::NoKey);
}

#[test]
fn key_bytes_in_no_known_encoding_are_refused() {
    let e = key_from_read(Some(Ok(vec![0x30, 0x03, 0x02, 0x01, 0x05]))).err().expect("error");
    assert_eq!(e.kind, CertErrorKind::InvalidKey);
    assert_eq!(e.detail, "unknown or invalid key format");
    let k = key_from_read(Some(Ok(vec![0x30, 0x03, 0x02, 0x01, 0x00]))).ok().expect("pkcs1");
    assert_eq!(k.kind, KeyKind::Pkcs1);
    let k = key_from_read(Some(Ok(vec![0x30, 0x03, 0x02, 0x01, 0x01]))).ok().expect("sec1");
    assert_eq!(k.kind, KeyKind::Sec1);
    let e = key_from_read(None).err().expect("error");
    assert_eq!(e.kind, CertErrorKind::NoKey);
    let e = key_from_read(Some(Err("bad".to_string()))).err().expect("error");
    assert_eq!((e.kind, e.detail.as_str()), (CertErrorKind::InvalidPem, "bad"));
}

#[test]
fn certificate_reads_map_to_results() {
    assert_eq!(certificate_from_read(Some(Ok(vec![1, 2]))).ok(), Some(vec![1, 2]));
    let e = certificate_from_read(None).err().expect("error");
    assert_eq!(e.kind, CertErrorKind::NoCertificate);
    let e = certificate_from_read(Some(Err("oops".to_string()))).err().expect("error");
    assert_eq!((e.kind, e.detail.as_str()), (CertErrorKind::InvalidPem, "oops"));
}

#[test]
fn identity_is_the_uuid_in_the_common_name() {
    let der = parse_cert(cert_pem(UUID_CERT_DER).as_bytes()).ok().expect("certificate");
    assert_eq!(extract_uuid_from_cert(&der).ok(), Some(UUID));
}

#[test]
fn common_name_that_is_not_a_uuid() {
    let der = parse_cert(cert_pem(TEXT_CERT_DER).as_bytes()).ok().expect("certificate");
    let e = extract_uuid_from_cert(&der).err().expect("error");
    assert_eq!(e.kind, CertErrorKind::InvalidUuid);
}

#[test]
fn certificate_without_a_common_name() {
    let der = parse_cert(cert_pem(NO_NAME_CERT_DER).as_bytes()).ok().expect("certificate");
    let e = extract_uuid_from_cert(&der).err().expect("error");
    assert_eq!(e.kind, CertErrorKind::MissingCommonName);
}

#[test]
fn bytes_that_are_not_a_certificate() {
    let e = extract_uuid_from_cert(&[1, 2, 3]).err().expect("error");
    assert_eq!(e.kind, CertErrorKind::InvalidX509);
}

#[test]
fn common_name_reads_map_to_results() {
    assert_eq!(common_name_from_read(Ok(Some(Ok("n".to_string())))).ok(), Some("n".to_string()));
    let e = common_name_from_read(Ok(Some(Err("t".to_string())))).err().expect("error");
    assert_eq!((e.kind, e.detail.as_str()), (CertErrorKind::CommonNameNotText, "t"));
    let e = common_name_from_read(Ok(None)).err().expect("error");
    assert_eq!(e.kind, CertErrorKind::MissingCommonName);
    let e = common_name_from_read(Err("x".to_string())).err().expect("error");
    assert_eq!((e.kind, e.detail.as_str()), (CertErrorKind::InvalidX509, "x"));
    assert_eq!(identity_from_parse(Ok(7)).ok(), Some(7));
    let e = identity_from_parse(Err("u".to_string())).err().expect("error");
    assert_eq!((e.kind, e.detail.as_str()), (CertErrorKind::InvalidUuid, "u"));
}

/// A certificate's DER bytes as PEM text, in lines of 64 characters.
fn cert_pem(der: &[u8]) -> String {
    let body = base64(der);
    let lines: Vec<&str> = body.as_bytes().chunks(64).map(|c| std::str::from_utf8(c).unwrap()).collect();
    format!("-----BEGIN CERTIFICATE-----\n{}\n-----END CERTIFICATE-----\n", lines.join("\n"))
}

#[test]
fn error_messages_name_the_cause() {
    let e = common_name_from_read(Err("bad tag".to_string())).err().expect("error");
    assert_eq!(e.message(), "X509 parse error: bad tag");
    assert!(!e.is_not_found());
    let e = common_name_from_read(Ok(None)).err().expect("error");
    assert_eq!(e.message(), "CN missing from certificate subject");
    assert!(e.is_not_found());
    let e = identity_from_parse(Err("short".to_string())).err().expect("error");
    assert_eq!(e.message(), "CN string is not a valid UUID: short");
    let e = certificate_from_read(None).err().expect("error");
    assert_eq!(e.message(), "no certificate found");
    let e = key_from_read(Some(Err("pem".to_string()))).err().expect("error");
    assert_eq!(e.message(), "pem");
}
