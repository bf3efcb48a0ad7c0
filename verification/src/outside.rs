//! What other crates and std do for this library: types that its values carry, digests, URLs and
//! certificates.

use crate::text;
use rcgen::{CertificateParams, DnType, KeyPair};
use sha2::Digest;
use vstd::prelude::*;
use vstd::string::*;
use vstd::utf8::*;

verus! {

/// A path of the file system.
#[verifier::external_type_specification]
#[verifier::external_body]
pub struct ExPathBuf(std::path::PathBuf);

/// An error of an input or output operation.
#[verifier::external_type_specification]
#[verifier::external_body]
pub struct ExIoError(std::io::Error);

/// An error of reading or writing JSON.
#[verifier::external_type_specification]
#[verifier::external_body]
pub struct ExJsonError(serde_json::Error);

/// The `Display` text of an `std::io::Error`. It comes from the operating system, and nothing is
/// promised of it.
#[verifier::external_body]
pub(crate) fn io_error_text(e: &std::io::Error) -> (r: String)
{
    e.to_string()
}

/// The `Display` text of a `serde_json::Error`. Nothing is promised of it: it depends on what is
/// inside the error, which has no view here.
#[verifier::external_body]
pub(crate) fn json_error_text(e: &serde_json::Error) -> (r: String)
{
    e.to_string()
}

/// Calls a function on a value.
fn apply<E, F: Fn(&E) -> String>(f: F, e: &E) -> (r: String)
    requires
        call_requires(f, (e,)),
    ensures
        call_ensures(f, (e,), r),
{
    f(e)
}

/// Whether `said` is a text that `io_error_text` gives for an error.
pub closed spec fn io_error_says(e: std::io::Error, said: Seq<char>) -> bool {
    exists|text: String| said == text@ && #[trigger] call_ensures(io_error_text, (&e,), text)
}

/// Whether `said` is a text that `json_error_text` gives for an error.
pub closed spec fn json_error_says(e: serde_json::Error, said: Seq<char>) -> bool {
    exists|text: String| said == text@ && #[trigger] call_ensures(json_error_text, (&e,), text)
}

/// What an error of an input or output operation says.
pub fn say_io_error(e: &std::io::Error) -> (r: String)
    ensures
        io_error_says(*e, r@),
{
    apply(io_error_text, e)
}

/// What an error of reading or writing JSON says.
pub fn say_json_error(e: &serde_json::Error) -> (r: String)
    ensures
        json_error_says(*e, r@),
{
    apply(json_error_text, e)
}

/// The SHA-256 digest of bytes.
pub uninterp spec fn sha256(data: Seq<u8>) -> Seq<u8>;

/// `Sha256::digest` of the crate `sha2` depends on the bytes alone, and has 32 bytes.
#[verifier::external_body]
pub(crate) fn sha256_digest(data: &[u8]) -> (r: Vec<u8>)
    ensures
        r@ == sha256(data@),
        r@.len() == 32,
{
    sha2::Sha256::digest(data).to_vec()
}

/// What a URL says, as far as the proxy reads it.
#[derive(Debug)]
pub struct UrlParts {
    pub host: Option<String>,
    pub path: String,
    pub query: Option<String>,
}

/// What a URL says, as mathematical values.
pub struct UrlView {
    pub host: Option<Seq<char>>,
    pub path: Seq<char>,
    pub query: Option<Seq<char>>,
}

impl View for UrlParts {
    type V = UrlView;

    open spec fn view(&self) -> UrlView {
        UrlView {
            host: match self.host {
                Some(host) => Some(host@),
                None => None,
            },
            path: self.path@,
            query: match self.query {
                Some(query) => Some(query@),
                None => None,
            },
        }
    }
}

/// What a URL says: its host, path and query as the crate `url` reads them; nothing where the
/// text is no URL.
pub uninterp spec fn url_parts(url: Seq<char>) -> Option<UrlView>;

/// `Url::parse` of the crate `url`, and the host, path and query of what it makes of a text,
/// depend on the text alone.
#[verifier::external_body]
pub(crate) fn parse_url(url: &str) -> (r: Option<UrlParts>)
    ensures
        (match r {
            Some(parts) => Some(parts@),
            None => None,
        }) == url_parts(url@),
{
    url::Url::parse(url).ok().map(
        |u| UrlParts {
            host: u.host_str().map(|h| h.to_string()),
            path: u.path().to_string(),
            query: u.query().map(|q| q.to_string()),
        },
    )
}

// ---------------------------------------------------------------------------
// Certificates
// ---------------------------------------------------------------------------

/// An error of making a certificate.
#[verifier::external_type_specification]
#[verifier::external_body]
pub struct ExCertificateError(rcgen::Error);

/// Whether bytes begin as a PEM text with the given label does.
pub open spec fn is_pem(bytes: Seq<u8>, label: Seq<char>) -> bool {
    encode_utf8("-----BEGIN "@ + label + "-----"@).is_prefix_of(bytes)
}

/// What a certificate of an authority may be used for.
#[derive(Debug, Clone, Copy, PartialEq, Eq, Structural)]
pub enum KeyUse {
    /// Signing certificates
    CertSign,
    /// Signing revocation lists
    CrlSign,
}

/// Whom a certificate is issued to, or who issued it.
#[verifier::ext_equal]
pub struct SubjectView {
    pub common_name: Seq<char>,
    pub organization: Option<Seq<char>>,
}

/// What a certificate says: whom it is issued to and by whom, the DNS names and the IP addresses
/// that it is for, each in their order, whether it is that of an authority, what it is restricted
/// to, and the public key of whom it is issued to.
#[verifier::ext_equal]
pub struct CertificateView {
    pub subject: SubjectView,
    pub issuer: SubjectView,
    pub names: Seq<Seq<char>>,
    pub addresses: Seq<Seq<u8>>,
    pub authority: bool,
    pub uses: Set<KeyUse>,
    pub key: Seq<u8>,
}

/// What the certificate in a PEM text says.
pub uninterp spec fn certificate_in(pem: Seq<u8>) -> CertificateView;

/// Whether the signature of the certificate in a PEM text is valid under a public key.
pub uninterp spec fn is_signed_by(pem: Seq<u8>, key: Seq<u8>) -> bool;

/// The public key of the key pair that `KeyPair::from_pem` reads from a PEM text.
pub uninterp spec fn public_key(pem: Seq<u8>) -> Seq<u8>;

/// The bytes of the IP address that `IpAddr::from_str` reads from a text; nothing where it is none.
pub uninterp spec fn ip_octets(host: Seq<char>) -> Option<Seq<u8>>;

/// The text of an IP address of four bytes.
pub open spec fn dotted(a: u8, b: u8, c: u8, d: u8) -> Seq<char> {
    text::decimal(a as nat) + "."@ + text::decimal(b as nat) + "."@ + text::decimal(c as nat) + "."@
        + text::decimal(d as nat)
}

/// Whether a text has a character that no IP address has: none of its digits, dots and colons.
pub open spec fn is_host_name(host: Seq<char>) -> bool {
    exists|i: int|
        0 <= i < host.len() && !('0' <= #[trigger] host[i] <= ':' || 'a' <= host[i] <= 'f' || 'A'
            <= host[i] <= 'F' || host[i] == '.')
}

/// The IP addresses among hosts, in their order.
pub open spec fn addresses_among(hosts: Seq<Seq<char>>) -> Seq<Seq<u8>>
    decreases hosts.len(),
{
    if hosts.len() == 0 {
        Seq::empty()
    } else {
        let before = addresses_among(hosts.drop_last());
        match ip_octets(hosts.last()) {
            Some(octets) => before.push(octets),
            None => before,
        }
    }
}

/// `KeyPair::generate` of the crate `rcgen` makes a random key pair, and `KeyPair::serialize_pem`
/// gives its private key as a PEM text. Which key it is is not stated: it is random. It fails where
/// the system gives no random numbers.
#[verifier::external_body]
pub(crate) fn generate_key() -> (r: Result<String, rcgen::Error>)
    ensures
        r matches Ok(pem) ==> is_pem(encode_utf8(pem@), "PRIVATE KEY"@),
{
    KeyPair::generate().map(|pair| pair.serialize_pem())
}

/// `CertificateParams::self_signed` of the crate `rcgen` with the key pair of a PEM text, for an
/// authority without a limit on the path: the PEM text of the certificate by `Certificate::pem`,
/// which says whom it is issued to, by whom, for what and with which key, and is signed with that
/// key. The signature and the serial number in it are not stated.
#[verifier::external_body]
pub(crate) fn self_sign_authority(
    common_name: &str,
    organization: &str,
    uses: &[KeyUse],
    key: &str,
) -> (r: Result<String, rcgen::Error>)
    ensures
        r matches Ok(pem) ==> is_pem(encode_utf8(pem@), "CERTIFICATE"@) && is_signed_by(
            encode_utf8(pem@),
            public_key(encode_utf8(key@)),
        ) && certificate_in(encode_utf8(pem@)) == (CertificateView {
            subject: SubjectView {
                common_name: common_name@,
                organization: Some(organization@),
            },
            issuer: SubjectView {
                common_name: common_name@,
                organization: Some(organization@),
            },
            names: Seq::empty(),
            addresses: Seq::empty(),
            authority: true,
            uses: uses@.to_set(),
            key: public_key(encode_utf8(key@)),
        }),
{
    let mut params = CertificateParams::default();
    params.is_ca = rcgen::IsCa::Ca(rcgen::BasicConstraints::Unconstrained);
    params.key_usages = uses.iter().map(|one| match one {
        KeyUse::CertSign => rcgen::KeyUsagePurpose::KeyCertSign,
        KeyUse::CrlSign => rcgen::KeyUsagePurpose::CrlSign,
    }).collect();
    params.distinguished_name.push(DnType::CommonName, common_name);
    params.distinguished_name.push(DnType::OrganizationName, organization);
    Ok(params.self_signed(&KeyPair::from_pem(key)?)?.pem())
}

/// `CertificateParams::signed_by` of the crate `rcgen` with the key pair of a PEM text, for a
/// subject and its DNS names, and for the issuer of the given names with its own key pair: the PEM
/// text of the certificate by `Certificate::pem`, which says all of them, and is signed with the
/// issuer's key. It takes DNS names in ASCII only. Of the issuer's certificate nothing but the names
/// goes into the new one, so a certificate with these names stands in for it. The signature and the
/// serial number in the certificate are not stated.
#[verifier::external_body]
pub(crate) fn sign_certificate(
    common_name: &str,
    dns_names: &[String],
    key: &str,
    issuer_common_name: &str,
    issuer_organization: &str,
    issuer_key: &str,
) -> (r: Result<String, rcgen::Error>)
    ensures
        r matches Ok(pem) ==> is_pem(encode_utf8(pem@), "CERTIFICATE"@) && is_signed_by(
            encode_utf8(pem@),
            public_key(encode_utf8(issuer_key@)),
        ) && certificate_in(encode_utf8(pem@)) == (CertificateView {
            subject: SubjectView { common_name: common_name@, organization: None },
            issuer: SubjectView {
                common_name: issuer_common_name@,
                organization: Some(issuer_organization@),
            },
            names: text::texts(dns_names@),
            addresses: Seq::empty(),
            authority: false,
            uses: Set::empty(),
            key: public_key(encode_utf8(key@)),
        }),
        r is Ok ==> forall|i: int|
            0 <= i < dns_names@.len() ==> is_ascii_chars((#[trigger] dns_names@[i])@),
{
    let issuer_key = KeyPair::from_pem(issuer_key)?;
    let mut authority = CertificateParams::default();
    authority.distinguished_name.push(DnType::CommonName, issuer_common_name);
    authority.distinguished_name.push(DnType::OrganizationName, issuer_organization);
    let issuer = authority.self_signed(&issuer_key)?;
    let mut params = CertificateParams::default();
    params.distinguished_name.push(DnType::CommonName, common_name);
    params.subject_alt_names = dns_names
        .iter()
        .map(|name| name.as_str().try_into().map(rcgen::SanType::DnsName))
        .collect::<Result<Vec<_>, _>>()?;
    Ok(params.signed_by(&KeyPair::from_pem(key)?, &issuer, &issuer_key)?.pem())
}

/// `generate_simple_self_signed` of the crate `rcgen` makes a random key pair, and with it a
/// certificate under its default name for the given hosts: those that `IpAddr::from_str` reads as
/// IP addresses, among them every one of four decimal bytes, and all others as DNS names, in ASCII
/// only. No text with a character that no IP address has is read as one. What comes out are the
/// PEM texts of the certificate and of the private key that goes with it and signed it. The
/// signature and the serial number are not stated, nor which key it is: it is random.
#[verifier::external_body]
pub(crate) fn self_sign_hosts(hosts: Vec<String>) -> (r: Result<(Vec<u8>, Vec<u8>), rcgen::Error>)
    ensures
        r matches Ok(made) ==> is_pem(made.0@, "CERTIFICATE"@) && is_pem(made.1@, "PRIVATE KEY"@)
            && is_signed_by(made.0@, public_key(made.1@)) && certificate_in(made.0@) == (
        CertificateView {
            subject: SubjectView { common_name: "rcgen self signed cert"@, organization: None },
            issuer: SubjectView { common_name: "rcgen self signed cert"@, organization: None },
            names: text::texts(hosts@).filter(|host: Seq<char>| ip_octets(host) is None),
            addresses: addresses_among(text::texts(hosts@)),
            authority: false,
            uses: Set::empty(),
            key: public_key(made.1@),
        }),
        r matches Ok(made) ==> forall|i: int|
            0 <= i < hosts@.len() && is_host_name((#[trigger] hosts@[i])@) ==> certificate_in(
                made.0@,
            ).names.contains(hosts@[i]@),
        r matches Ok(made) ==> forall|i: int, a: u8, b: u8, c: u8, d: u8|
            0 <= i < hosts@.len() && (#[trigger] hosts@[i])@ == #[trigger] dotted(a, b, c, d)
                ==> certificate_in(made.0@).addresses.contains(seq![a, b, c, d]),
        r is Ok ==> forall|i: int|
            0 <= i < hosts@.len() ==> is_ascii_chars((#[trigger] hosts@[i])@),
{
    rcgen::generate_simple_self_signed(hosts).map(
        |made| (made.cert.pem().into_bytes(), made.key_pair.serialize_pem().into_bytes()),
    )
}

} // verus!
