//! Certificates and private keys read from PEM text, and the node identity
//! that a certificate carries in its subject's common name.
use vstd::prelude::*;
use rustls::pki_types::PrivateKeyDer;
use uuid::Uuid;
use x509_parser::certificate::X509Certificate;
use x509_parser::prelude::FromDer;
use x509_parser::oid_registry::OID_X509_COMMON_NAME;

verus! {

/// The encodings that a DER private key can be in.
#[derive(Clone, Copy, Debug, PartialEq, Eq)]
pub enum KeyKind {
    Pkcs1,
    Sec1,
    Pkcs8,
}

/// A DER-encoded private key and the encoding it was recognised as.
pub struct PrivateKey {
    pub kind: KeyKind,
    pub der: Vec<u8>,
}

/// The certificate (DER bytes) and private key a node presents to its
/// neighbours on the replication channel.
pub struct ReplicationCredentials {
    pub cert: Vec<u8>,
    pub key: PrivateKey,
}

/// What went wrong while reading a certificate, a key or an identity.
#[derive(Clone, Copy, Debug, PartialEq, Eq)]
pub enum CertErrorKind {
    /// The PEM text holds no certificate.
    NoCertificate,
    /// The PEM text holds no PKCS#8 private key.
    NoKey,
    /// The PEM text could not be read.
    InvalidPem,
    /// The key's DER bytes are in no known encoding.
    InvalidKey,
    /// The certificate's DER bytes are not an X.509 certificate.
    InvalidX509,
    /// The certificate's subject has no common name.
    MissingCommonName,
    /// The subject's common name is not a string.
    CommonNameNotText,
    /// The subject's common name is not a UUID.
    InvalidUuid,
}

/// An error, with the text of the error that caused it (empty where there
/// was none).
pub struct CertError {
    pub kind: CertErrorKind,
    pub detail: String,
}

impl View for CertError {
    type V = (CertErrorKind, Seq<char>);

    open spec fn view(&self) -> (CertErrorKind, Seq<char>) {
        (self.kind, self.detail@)
    }
}

/// The text that reports an error: a fixed sentence, or the cause's text
/// after a short lead-in, or the cause's text alone.
pub open spec fn cert_error_text(e: (CertErrorKind, Seq<char>)) -> Seq<char> {
    match e.0 {
        CertErrorKind::NoCertificate => "no certificate found"@,
        CertErrorKind::NoKey => "no key found"@,
        CertErrorKind::InvalidPem => e.1,
        CertErrorKind::InvalidKey => e.1,
        CertErrorKind::InvalidX509 => "X509 parse error: "@ + e.1,
        CertErrorKind::MissingCommonName => "CN missing from certificate subject"@,
        CertErrorKind::CommonNameNotText => "CN is not valid string: "@ + e.1,
        CertErrorKind::InvalidUuid => "CN string is not a valid UUID: "@ + e.1,
    }
}

impl CertError {
    /// The text that reports this error.
    pub fn message(&self) -> (r: String)
        ensures
            r@ == cert_error_text(self@),
    {
        match self.kind {
            CertErrorKind::NoCertificate => String::from_str("no certificate found"),
            CertErrorKind::NoKey => String::from_str("no key found"),
            CertErrorKind::InvalidPem => String::from_str(self.detail.as_str()),
            CertErrorKind::InvalidKey => String::from_str(self.detail.as_str()),
            CertErrorKind::InvalidX509 => String::from_str("X509 parse error: ").concat(self.detail.as_str()),
            CertErrorKind::MissingCommonName => String::from_str("CN missing from certificate subject"),
            CertErrorKind::CommonNameNotText => String::from_str("CN is not valid string: ").concat(
                self.detail.as_str(),
            ),
            CertErrorKind::InvalidUuid => String::from_str("CN string is not a valid UUID: ").concat(
                self.detail.as_str(),
            ),
        }
    }

    /// Whether the error reports something missing rather than malformed:
    /// only a missing common name does.
    pub fn is_not_found(&self) -> (r: bool)
        ensures
            r == (self.kind == CertErrorKind::MissingCommonName),
    {
        match self.kind {
            CertErrorKind::MissingCommonName => true,
            _ => false,
        }
    }
}

/// What reading the first item of a kind from PEM text gave: nothing, an
/// error's text, or the item's DER bytes.
pub type PemRead = Option<Result<Seq<u8>, Seq<char>>>;

pub open spec fn pem_read_view(r: Option<Result<Vec<u8>, String>>) -> PemRead {
    match r {
        None => None,
        Some(Ok(v)) => Some(Ok(v@)),
        Some(Err(e)) => Some(Err(e@)),
    }
}

/// What rustls-pemfile's `certs` yields first for a PEM text.
pub uninterp spec fn pem_first_certificate(pem: Seq<u8>) -> PemRead;

/// What rustls-pemfile's `pkcs8_private_keys` yields first for a PEM text
/// (for a key, its PKCS#8 DER bytes).
pub uninterp spec fn pem_first_pkcs8_key(pem: Seq<u8>) -> PemRead;

/// What x509-parser reads of a DER certificate's subject: the parse error's
/// text, or the first common-name attribute if there is one, as a string or
/// as the error's text where it is not one.
pub type CommonNameRead = Result<Option<Result<Seq<char>, Seq<char>>>, Seq<char>>;

pub open spec fn common_name_read_view(r: Result<Option<Result<String, String>>, String>) -> CommonNameRead {
    match r {
        Err(e) => Err(e@),
        Ok(None) => Ok(None),
        Ok(Some(Ok(s))) => Ok(Some(Ok(s@))),
        Ok(Some(Err(e))) => Ok(Some(Err(e@))),
    }
}

/// What x509-parser reads of the subject's common name in a DER certificate.
pub uninterp spec fn x509_common_name(der: Seq<u8>) -> CommonNameRead;

/// What uuid's `Uuid::parse_str` makes of a text: the UUID as a number, or
/// the error's text.
pub uninterp spec fn uuid_parse(text: Seq<char>) -> Result<u128, Seq<char>>;

pub open spec fn uuid_parse_view(r: Result<u128, String>) -> Result<u128, Seq<char>> {
    match r {
        Ok(n) => Ok(n),
        Err(e) => Err(e@),
    }
}

/// The encoding that rustls' `PrivateKeyDer::try_from` recognises in DER
/// bytes: an outer SEQUENCE, then (after its length) an INTEGER version that
/// is followed by a SEQUENCE for PKCS#8, or is 0 for PKCS#1, or 1 for SEC1.
pub open spec fn der_key_kind(key: Seq<u8>) -> Option<KeyKind> {
    if key.len() < 2 || key[0] != 0x30u8 {
        None
    } else {
        let skip: int = if key[1] >= 128u8 { 2 + (key[1] - 128) } else { 2 };
        if skip > key.len() {
            None
        } else {
            let rest = key.skip(skip);
            if rest.len() >= 4 && rest[0] == 2u8 && rest[1] == 1u8 && rest[3] == 0x30u8 {
                Some(KeyKind::Pkcs8)
            } else if rest.len() >= 3 && rest[0] == 2u8 && rest[1] == 1u8 && rest[2] == 0u8 {
                Some(KeyKind::Pkcs1)
            } else if rest.len() >= 3 && rest[0] == 2u8 && rest[1] == 1u8 && rest[2] == 1u8 {
                Some(KeyKind::Sec1)
            } else {
                None
            }
        }
    }
}

/// rustls-pemfile's `certs`, first item: named `pem_first_certificate` of
/// the bytes.
#[verifier::external_body]
fn read_first_certificate(pem: &[u8]) -> (r: Option<Result<Vec<u8>, String>>)
    ensures
        pem_read_view(r) == pem_first_certificate(pem@),
{
    let mut rd: &[u8] = pem;
    let first = rustls_pemfile::certs(&mut rd).next();
    match first {
        None => None,
        Some(Ok(cert)) => Some(Ok(cert.as_ref().to_vec())),
        Some(Err(e)) => Some(Err(e.to_string())),
    }
}

/// rustls-pemfile's `pkcs8_private_keys`, first item, with the key's PKCS#8
/// DER bytes: named `pem_first_pkcs8_key` of the bytes.
#[verifier::external_body]
fn read_first_pkcs8_key(pem: &[u8]) -> (r: Option<Result<Vec<u8>, String>>)
    ensures
        pem_read_view(r) == pem_first_pkcs8_key(pem@),
{
    let mut rd: &[u8] = pem;
    let first = rustls_pemfile::pkcs8_private_keys(&mut rd).next();
    match first {
        None => None,
        Some(Ok(key)) => Some(Ok(key.secret_pkcs8_der().to_vec())),
        Some(Err(e)) => Some(Err(e.to_string())),
    }
}

/// rustls' `PrivateKeyDer::try_from(Vec<u8>)`: it recognises the encoding
/// that `der_key_kind` describes, and otherwise fails with the text
/// "unknown or invalid key format".  (The enum is non-exhaustive; the
/// conversion only ever makes the three variants matched here.)
#[verifier::external_body]
fn recognise_key(der: &[u8]) -> (r: Result<KeyKind, String>)
    ensures
        match r {
            Ok(kind) => der_key_kind(der@) == Some(kind),
            Err(e) => der_key_kind(der@) is None && e@ == "unknown or invalid key format"@,
        },
{
    match PrivateKeyDer::try_from(der.to_vec()) {
        Ok(PrivateKeyDer::Pkcs1(_)) => Ok(KeyKind::Pkcs1),
        Ok(PrivateKeyDer::Sec1(_)) => Ok(KeyKind::Sec1),
        Ok(PrivateKeyDer::Pkcs8(_)) => Ok(KeyKind::Pkcs8),
        Ok(_) => Err(String::from("unknown or invalid key format")),
        Err(e) => Err(e.to_string()),
    }
}

/// x509-parser: `X509Certificate::from_der` on the bytes, then the first
/// attribute of the subject under the common-name OID (2.5.4.3), read with
/// `as_str`; errors become their text.  Named `x509_common_name` of the bytes.
#[verifier::external_body]
fn read_common_name(der: &[u8]) -> (r: Result<Option<Result<String, String>>, String>)
    ensures
        common_name_read_view(r) == x509_common_name(der@),
{
    let cert = match X509Certificate::from_der(der) {
        Err(e) => return Err(e.to_string()),
        Ok((_, cert)) => cert,
    };
    let first = cert.subject().iter_by_oid(&OID_X509_COMMON_NAME).next();
    match first {
        None => Ok(None),
        Some(attr) => match attr.as_str() {
            Ok(name) => Ok(Some(Ok(name.to_string()))),
            Err(e) => Ok(Some(Err(e.to_string()))),
        },
    }
}

/// uuid's `Uuid::parse_str`, with the UUID as its 128-bit number: named
/// `uuid_parse` of the text.
#[verifier::external_body]
fn parse_uuid(text: &str) -> (r: Result<u128, String>)
    ensures
        uuid_parse_view(r) == uuid_parse(text@),
{
    match Uuid::parse_str(text) {
        Ok(id) => Ok(id.as_u128()),
        Err(e) => Err(e.to_string()),
    }
}

pub open spec fn cert_error(kind: CertErrorKind, detail: Seq<char>) -> (CertErrorKind, Seq<char>) {
    (kind, detail)
}

/// The certificate that a PEM read gives: its DER bytes, or why there is none.
pub open spec fn certificate_from(read: PemRead) -> Result<Seq<u8>, (CertErrorKind, Seq<char>)> {
    match read {
        None => Err(cert_error(CertErrorKind::NoCertificate, Seq::empty())),
        Some(Err(e)) => Err(cert_error(CertErrorKind::InvalidPem, e)),
        Some(Ok(der)) => Ok(der),
    }
}

/// The key that a PEM read gives: its encoding and DER bytes, or why there
/// is none.
pub open spec fn key_from(read: PemRead) -> Result<(KeyKind, Seq<u8>), (CertErrorKind, Seq<char>)> {
    match read {
        None => Err(cert_error(CertErrorKind::NoKey, Seq::empty())),
        Some(Err(e)) => Err(cert_error(CertErrorKind::InvalidPem, e)),
        Some(Ok(der)) => match der_key_kind(der) {
            Some(kind) => Ok((kind, der)),
            None => Err(cert_error(CertErrorKind::InvalidKey, "unknown or invalid key format"@)),
        },
    }
}

/// The common name that a subject read gives, or why there is none.
pub open spec fn common_name_from(read: CommonNameRead) -> Result<Seq<char>, (CertErrorKind, Seq<char>)> {
    match read {
        Err(e) => Err(cert_error(CertErrorKind::InvalidX509, e)),
        Ok(None) => Err(cert_error(CertErrorKind::MissingCommonName, Seq::empty())),
        Ok(Some(Err(e))) => Err(cert_error(CertErrorKind::CommonNameNotText, e)),
        Ok(Some(Ok(name))) => Ok(name),
    }
}

/// The identity that a UUID parse gives, or why there is none.
pub open spec fn identity_from(parsed: Result<u128, Seq<char>>) -> Result<u128, (CertErrorKind, Seq<char>)> {
    match parsed {
        Ok(id) => Ok(id),
        Err(e) => Err(cert_error(CertErrorKind::InvalidUuid, e)),
    }
}

/// The certificate in a PEM text, as `parse_cert` reads it.
pub open spec fn parsed_cert(pem: Seq<u8>) -> Result<Seq<u8>, (CertErrorKind, Seq<char>)> {
    certificate_from(pem_first_certificate(pem))
}

/// The private key in a PEM text, as `parse_key` reads it.
pub open spec fn parsed_key(pem: Seq<u8>) -> Result<(KeyKind, Seq<u8>), (CertErrorKind, Seq<char>)> {
    key_from(pem_first_pkcs8_key(pem))
}

/// The identity in a DER certificate, as `extract_uuid_from_cert` reads it.
pub open spec fn cert_identity(der: Seq<u8>) -> Result<u128, (CertErrorKind, Seq<char>)> {
    match common_name_from(x509_common_name(der)) {
        Err(e) => Err(e),
        Ok(name) => identity_from(uuid_parse(name)),
    }
}

fn error_of(kind: CertErrorKind, detail: String) -> (r: CertError)
    ensures
        r@ == cert_error(kind, detail@),
{
    CertError { kind, detail }
}

/// The certificate that the first PEM certificate read gives.
pub fn certificate_from_read(read: Option<Result<Vec<u8>, String>>) -> (r: Result<Vec<u8>, CertError>)
    ensures
        match r {
            Ok(der) => certificate_from(pem_read_view(read)) == Ok::<Seq<u8>, (CertErrorKind, Seq<char>)>(der@),
            Err(e) => certificate_from(pem_read_view(read)) == Err::<Seq<u8>, (CertErrorKind, Seq<char>)>(e@),
        },
{
    match read {
        None => Err(error_of(CertErrorKind::NoCertificate, String::new())),
        Some(Err(e)) => Err(error_of(CertErrorKind::InvalidPem, e)),
        Some(Ok(der)) => Ok(der),
    }
}

/// Reads the first certificate of a PEM text, as DER bytes.
pub fn parse_cert(bytes: &[u8]) -> (r: Result<Vec<u8>, CertError>)
    ensures
        match r {
            Ok(der) => parsed_cert(bytes@) == Ok::<Seq<u8>, (CertErrorKind, Seq<char>)>(der@),
            Err(e) => parsed_cert(bytes@) == Err::<Seq<u8>, (CertErrorKind, Seq<char>)>(e@),
        },
{
    certificate_from_read(read_first_certificate(bytes))
}

/// The private key that the first PEM PKCS#8 key read gives.
pub fn key_from_read(read: Option<Result<Vec<u8>, String>>) -> (r: Result<PrivateKey, CertError>)
    ensures
        match r {
            Ok(key) => key_from(pem_read_view(read)) == Ok::<(KeyKind, Seq<u8>), (CertErrorKind, Seq<char>)>(
                (key.kind, key.der@),
            ),
            Err(e) => key_from(pem_read_view(read)) == Err::<(KeyKind, Seq<u8>), (CertErrorKind, Seq<char>)>(e@),
        },
{
    match read {
        None => Err(error_of(CertErrorKind::NoKey, String::new())),
        Some(Err(e)) => Err(error_of(CertErrorKind::InvalidPem, e)),
        Some(Ok(der)) => match recognise_key(der.as_slice()) {
            Ok(kind) => Ok(PrivateKey { kind, der }),
            Err(e) => Err(error_of(CertErrorKind::InvalidKey, e)),
        },
    }
}

/// Reads the first PKCS#8 private key of a PEM text, and recognises the
/// encoding of its DER bytes.
pub fn parse_key(bytes: &[u8]) -> (r: Result<PrivateKey, CertError>)
    ensures
        match r {
            Ok(key) => parsed_key(bytes@) == Ok::<(KeyKind, Seq<u8>), (CertErrorKind, Seq<char>)>(
                (key.kind, key.der@),
            ),
            Err(e) => parsed_key(bytes@) == Err::<(KeyKind, Seq<u8>), (CertErrorKind, Seq<char>)>(e@),
        },
{
    key_from_read(read_first_pkcs8_key(bytes))
}

/// The common name that a read of a certificate's subject gives.
pub fn common_name_from_read(read: Result<Option<Result<String, String>>, String>) -> (r: Result<String, CertError>)
    ensures
        match r {
            Ok(name) => common_name_from(common_name_read_view(read)) == Ok::<Seq<char>, (CertErrorKind, Seq<char>)>(
                name@,
            ),
            Err(e) => common_name_from(common_name_read_view(read)) == Err::<Seq<char>, (CertErrorKind, Seq<char>)>(
                e@,
            ),
        },
{
    match read {
        Err(e) => Err(error_of(CertErrorKind::InvalidX509, e)),
        Ok(None) => Err(error_of(CertErrorKind::MissingCommonName, String::new())),
        Ok(Some(Err(e))) => Err(error_of(CertErrorKind::CommonNameNotText, e)),
        Ok(Some(Ok(name))) => Ok(name),
    }
}

/// The identity that a UUID parse of the common name gives.
pub fn identity_from_parse(parsed: Result<u128, String>) -> (r: Result<u128, CertError>)
    ensures
        match r {
            Ok(id) => identity_from(uuid_parse_view(parsed)) == Ok::<u128, (CertErrorKind, Seq<char>)>(id),
            Err(e) => identity_from(uuid_parse_view(parsed)) == Err::<u128, (CertErrorKind, Seq<char>)>(e@),
        },
{
    match parsed {
        Ok(id) => Ok(id),
        Err(e) => Err(error_of(CertErrorKind::InvalidUuid, e)),
    }
}

/// A node's identity from the certificate it presents: the UUID written as
/// the common name of the certificate's subject.
pub fn extract_uuid_from_cert(cert: &[u8]) -> (r: Result<u128, CertError>)
    ensures
        match r {
            Ok(id) => cert_identity(cert@) == Ok::<u128, (CertErrorKind, Seq<char>)>(id),
            Err(e) => cert_identity(cert@) == Err::<u128, (CertErrorKind, Seq<char>)>(e@),
        },
{
    let name = common_name_from_read(read_common_name(cert));
    match name {
        Err(e) => Err(e),
        Ok(text) => identity_from_parse(parse_uuid(text.as_str())),
    }
}

} // verus!
