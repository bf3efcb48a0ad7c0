//! What the proxy runs with: its settings, and the authority that signs for intercepted hosts.

use crate::outside;
use crate::outside::KeyUse;
use crate::text;
use vstd::prelude::*;
use vstd::string::*;
use vstd::utf8::*;

verus! {

broadcast use vstd::string::group_string_axioms;

// ---------------------------------------------------------------------------
// Settings
// ---------------------------------------------------------------------------

/// Settings of the proxy: where it is reached, where it stores, and what it stands before.
#[derive(Debug)]
pub struct ProxyState {
    /// The base URL where this proxy is listening (for config.json rewriting)
    pub proxy_base_url: String,
    /// The directory of the local layer
    pub local_registry_path: std::path::PathBuf,
    /// The index of the upstream
    pub upstream_index: String,
    /// The API of the upstream
    pub upstream_api: String,
    /// Whether crates are published without the checks on their metadata
    pub permissive_publishing: bool,
}

impl ProxyState {
    pub fn new(
        proxy_base_url: String,
        local_registry_path: std::path::PathBuf,
        upstream_index: String,
        upstream_api: String,
        permissive_publishing: bool,
    ) -> (r: Self)
        ensures
            r == (ProxyState {
                proxy_base_url,
                local_registry_path,
                upstream_index,
                upstream_api,
                permissive_publishing,
            }),
    {
        ProxyState {
            proxy_base_url,
            local_registry_path,
            upstream_index,
            upstream_api,
            permissive_publishing,
        }
    }

    /// Get the upstream API URL (for search proxying)
    pub fn upstream_api(&self) -> (r: &str)
        ensures
            r@ == self.upstream_api@,
    {
        self.upstream_api.as_str()
    }
}

// ---------------------------------------------------------------------------
// Certificates for intercepted hosts
// ---------------------------------------------------------------------------

/// Why there is no certificate.
#[derive(Debug)]
pub enum CertError {
    /// The domain cannot stand in a certificate
    InvalidName,
    /// A key or a signature could not be made
    Generation(rcgen::Error),
}

/// CA certificate for MITM TLS interception. The key is always the certificate's own.
pub struct MitmCa {
    /// CA certificate in PEM format
    ca_cert_pem: String,
    /// Key of the CA certificate in PEM format, for signing domain certificates
    ca_key_pem: String,
}

/// Whom the certificate of the authority is issued to.
pub open spec fn authority_subject() -> outside::SubjectView {
    outside::SubjectView {
        common_name: "Cargo Overlay Registry CA"@,
        organization: Some("Cargo Overlay Registry"@),
    }
}

/// Whether a PEM certificate and a PEM key are those of the authority: the certificate is issued
/// by the authority to itself, for signing, and the key is the one that it is for and signed with.
pub open spec fn is_authority_cert(cert: Seq<u8>, key: Seq<u8>) -> bool {
    &&& outside::is_pem(cert, "CERTIFICATE"@)
    &&& outside::is_pem(key, "PRIVATE KEY"@)
    &&& outside::certificate_in(cert) == (outside::CertificateView {
        subject: authority_subject(),
        issuer: authority_subject(),
        names: Seq::empty(),
        addresses: Seq::empty(),
        authority: true,
        uses: set![KeyUse::CertSign, KeyUse::CrlSign],
        key: outside::public_key(key),
    })
    &&& outside::is_signed_by(cert, outside::public_key(key))
}

/// The DNS names of a certificate for a domain: the domain itself, and its subdomains, unless it
/// is a wildcard already.
pub open spec fn names_of(domain: Seq<char>) -> Seq<Seq<char>> {
    if "*."@.is_prefix_of(domain) {
        seq![domain]
    } else {
        seq![domain, "*."@ + domain]
    }
}

/// Whether a PEM certificate and a PEM key are ones for a domain, from the authority with the PEM
/// certificate `ca`: the key is the certificate's own, the certificate is issued in the authority's
/// name, and its signature is valid under the authority's key.
pub open spec fn is_domain_cert(
    cert: Seq<u8>,
    key: Seq<u8>,
    domain: Seq<char>,
    ca: Seq<u8>,
) -> bool {
    &&& outside::is_pem(cert, "CERTIFICATE"@)
    &&& outside::is_pem(key, "PRIVATE KEY"@)
    &&& outside::certificate_in(cert) == (outside::CertificateView {
        subject: outside::SubjectView { common_name: domain, organization: None },
        issuer: outside::certificate_in(ca).subject,
        names: names_of(domain),
        addresses: Seq::empty(),
        authority: false,
        uses: Set::empty(),
        key: outside::public_key(key),
    })
    &&& outside::is_signed_by(cert, outside::certificate_in(ca).key)
}

/// The DNS names of a certificate for a domain.
pub fn domain_names(domain: &str) -> (r: Vec<String>)
    ensures
        text::texts(r@) == names_of(domain@),
{
    let chars = text::chars_of(domain);
    let wildcard = text::chars_of("*.");
    let mut names: Vec<String> = Vec::new();
    names.push(String::from_str(domain));
    if !text::starts_with(chars.as_slice(), wildcard.as_slice()) {
        names.push(text::concat("*.", domain));
    }
    assert(text::texts(names@) =~= names_of(domain@));
    names
}

impl MitmCa {
    /// The certificate of the authority, as a PEM text.
    pub closed spec fn pem(self) -> Seq<u8> {
        encode_utf8(self.ca_cert_pem@)
    }

    /// The key of the authority, as a PEM text.
    pub closed spec fn key(self) -> Seq<u8> {
        encode_utf8(self.ca_key_pem@)
    }

    #[verifier::type_invariant]
    spec fn has_own_key(self) -> bool {
        is_authority_cert(self.pem(), self.key())
    }

    /// Generate a new CA certificate
    pub fn new() -> (r: Result<Self, CertError>)
        ensures
            r matches Ok(ca) ==> is_authority_cert(ca.pem(), ca.key()),
            !(r matches Err(CertError::InvalidName)),
    {
        let ca_key_pem = match outside::generate_key() {
            Ok(key) => key,
            Err(e) => {
                return Err(CertError::Generation(e));
            },
        };
        let uses: [KeyUse; 2] = [KeyUse::CertSign, KeyUse::CrlSign];
        assert(uses@.to_set() =~= set![KeyUse::CertSign, KeyUse::CrlSign]) by {
            assert(uses@[0] == KeyUse::CertSign && uses@[1] == KeyUse::CrlSign);
        }
        match outside::self_sign_authority(
            "Cargo Overlay Registry CA",
            "Cargo Overlay Registry",
            uses.as_slice(),
            ca_key_pem.as_str(),
        ) {
            Ok(ca_cert_pem) => Ok(MitmCa { ca_cert_pem, ca_key_pem }),
            Err(e) => Err(CertError::Generation(e)),
        }
    }

    /// Get the CA certificate in PEM format
    pub fn ca_cert_pem(&self) -> (r: &[u8])
        ensures
            r@ == self.pem(),
    {
        self.ca_cert_pem.as_str().as_bytes()
    }

    /// Generate a certificate for a domain, signed by this CA, with its key. A domain that is not
    /// in ASCII has none.
    pub fn sign_domain_cert(&self, domain: &str) -> (r: Result<(Vec<u8>, Vec<u8>), CertError>)
        ensures
            r matches Ok(made) ==> is_domain_cert(made.0@, made.1@, domain@, self.pem()),
            (r matches Err(CertError::InvalidName)) <==> !is_ascii_chars(domain@),
    {
        proof {
            use_type_invariant(self);
        }
        if !text::is_ascii_text(domain) {
            return Err(CertError::InvalidName);
        }
        let key = match outside::generate_key() {
            Ok(key) => key,
            Err(e) => {
                return Err(CertError::Generation(e));
            },
        };
        let names = domain_names(domain);
        match outside::sign_certificate(
            domain,
            names.as_slice(),
            key.as_str(),
            "Cargo Overlay Registry CA",
            "Cargo Overlay Registry",
            self.ca_key_pem.as_str(),
        ) {
            Ok(cert) => Ok((cert.as_str().as_bytes_vec(), key.as_str().as_bytes_vec())),
            Err(e) => Err(CertError::Generation(e)),
        }
    }
}

/// A certificate for a domain covers the domain, and every wildcard that it covers is over it.
pub proof fn law_certificate_covers_domain(
    cert: Seq<u8>,
    key: Seq<u8>,
    domain: Seq<char>,
    ca: Seq<u8>,
)
    requires
        is_domain_cert(cert, key, domain, ca),
    ensures
        outside::certificate_in(cert).names.contains(domain),
        forall|i: int|
            0 <= i < outside::certificate_in(cert).names.len() ==> domain.is_suffix_of(
                #[trigger] outside::certificate_in(cert).names[i],
            ),
{
    let names = outside::certificate_in(cert).names;
    assert(names[0] == domain);
    assert forall|i: int| 0 <= i < names.len() implies domain.is_suffix_of(#[trigger] names[i]) by {
        let name = names[i];
        assert(domain =~= name.subrange(name.len() - domain.len(), name.len() as int));
    }
}

/// A certificate for a domain chains up to the authority: whoever trusts the authority's
/// certificate finds it issued by its subject and signed with its key. The key that goes with it
/// is its own.
pub proof fn law_certificate_chains_to_authority(
    cert: Seq<u8>,
    key: Seq<u8>,
    domain: Seq<char>,
    ca: Seq<u8>,
    ca_key: Seq<u8>,
)
    requires
        is_authority_cert(ca, ca_key),
        is_domain_cert(cert, key, domain, ca),
    ensures
        outside::certificate_in(cert).issuer == outside::certificate_in(ca).subject,
        outside::certificate_in(ca).authority,
        outside::certificate_in(ca).uses.contains(KeyUse::CertSign),
        outside::is_signed_by(cert, outside::public_key(ca_key)),
        outside::certificate_in(cert).key == outside::public_key(key),
{
}

/// A certificate for a domain is for the domain and for all of its direct subdomains, unless it is
/// one for a wildcard already, and for nothing else.
pub proof fn law_certificate_names(domain: Seq<char>, name: Seq<char>)
    ensures
        names_of(domain).contains(name) <==> name == domain || (name == "*."@ + domain && !(
        domain.len() >= 2 && domain[0] == '*' && domain[1] == '.')),
        names_of(domain).len() <= 2,
        names_of(domain)[0] == domain,
{
    reveal_strlit("*.");
    let names = names_of(domain);
    let wildcard = "*."@;
    assert(wildcard.len() == 2 && wildcard[0] == '*' && wildcard[1] == '.');
    if domain.len() >= 2 && domain[0] == '*' && domain[1] == '.' {
        assert(wildcard =~= domain.subrange(0, 2));
    } else if wildcard.is_prefix_of(domain) {
        assert(wildcard =~= domain.subrange(0, 2));
        assert(domain[0] == domain.subrange(0, 2)[0]);
        assert(domain[1] == domain.subrange(0, 2)[1]);
    }
    assert(names[0] == domain);
    if !wildcard.is_prefix_of(domain) {
        assert(names[1] == wildcard + domain);
    }
}

/// The authority's certificate is its own, in its name, for signing certificates and revocation
/// lists.
pub proof fn law_authority_is_itself(cert: Seq<u8>, key: Seq<u8>)
    requires
        is_authority_cert(cert, key),
    ensures
        ({
            let said = outside::certificate_in(cert);
            &&& said.subject.common_name == "Cargo Overlay Registry CA"@
            &&& said.subject.organization == Some("Cargo Overlay Registry"@)
            &&& said.issuer == said.subject
            &&& said.authority
            &&& said.uses.contains(KeyUse::CertSign) && said.uses.contains(KeyUse::CrlSign)
            &&& said.key == outside::public_key(key)
            &&& outside::is_signed_by(cert, said.key)
        }),
{
}

/// A certificate for a domain bears the domain's name, is no authority's, and can be used with the
/// key that it comes with.
pub proof fn law_domain_certificate_is_the_domains(
    cert: Seq<u8>,
    key: Seq<u8>,
    domain: Seq<char>,
    ca: Seq<u8>,
)
    requires
        is_domain_cert(cert, key, domain, ca),
    ensures
        ({
            let said = outside::certificate_in(cert);
            &&& said.subject.common_name == domain
            &&& said.subject.organization is None
            &&& said.addresses.len() == 0
            &&& !said.authority
            &&& said.names == names_of(domain)
            &&& said.key == outside::public_key(key)
            &&& said.issuer == outside::certificate_in(ca).subject
            &&& outside::is_signed_by(cert, outside::certificate_in(ca).key)
        }),
{
}

} // verus!
