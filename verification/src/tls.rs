//! The certificate that the server has of its own.

use crate::outside;
use crate::state::CertError;
use crate::text;
use vstd::prelude::*;
use vstd::string::*;
use vstd::utf8::*;

verus! {

broadcast use vstd::string::group_string_axioms;

/// The hosts that a self-signed certificate is for.
pub open spec fn hosts_of(hostname: Seq<char>) -> Seq<Seq<char>> {
    seq![hostname, "localhost"@, "127.0.0.1"@]
}

/// The hosts that a self-signed certificate is for.
pub fn self_signed_hosts(hostname: &str) -> (r: Vec<String>)
    ensures
        text::texts(r@) == hosts_of(hostname@),
{
    let mut hosts: Vec<String> = Vec::new();
    hosts.push(String::from_str(hostname));
    hosts.push(String::from_str("localhost"));
    hosts.push(String::from_str("127.0.0.1"));
    assert(text::texts(hosts@) =~= hosts_of(hostname@));
    hosts
}

/// Whether a PEM certificate and a PEM key are self-signed ones for a host: the key is the one that
/// the certificate is for and signed with, and the certificate is for each of the hosts, as a DNS
/// name or an IP address.
pub open spec fn is_host_cert(cert: Seq<u8>, key: Seq<u8>, hostname: Seq<char>) -> bool {
    &&& outside::is_pem(cert, "CERTIFICATE"@)
    &&& outside::is_pem(key, "PRIVATE KEY"@)
    &&& outside::certificate_in(cert) == (outside::CertificateView {
        subject: outside::SubjectView {
            common_name: "rcgen self signed cert"@,
            organization: None,
        },
        issuer: outside::SubjectView {
            common_name: "rcgen self signed cert"@,
            organization: None,
        },
        names: hosts_of(hostname).filter(|host: Seq<char>| outside::ip_octets(host) is None),
        addresses: outside::addresses_among(hosts_of(hostname)),
        authority: false,
        uses: Set::empty(),
        key: outside::public_key(key),
    })
    &&& outside::is_signed_by(cert, outside::public_key(key))
    &&& outside::certificate_in(cert).names.contains("localhost"@)
    &&& outside::certificate_in(cert).addresses.contains(seq![127u8, 0, 0, 1])
}

/// Generate a self-signed certificate for the registry server, with its key. A host name that is
/// not in ASCII has none.
pub fn generate_self_signed_cert(hostname: &str) -> (r: Result<(Vec<u8>, Vec<u8>), CertError>)
    ensures
        r matches Ok(made) ==> is_host_cert(made.0@, made.1@, hostname@),
        !is_ascii_chars(hostname@) ==> r is Err,
        !(r matches Err(CertError::InvalidName)),
{
    let hosts = self_signed_hosts(hostname);
    let ghost names = text::texts(hosts@);
    proof {
        assert(names.len() == hosts@.len());
        assert(names == hosts_of(hostname@));
        assert(names[0] == hosts@[0]@ && names[1] == hosts@[1]@ && names[2] == hosts@[2]@);
        reveal_strlit("localhost");
        assert("localhost"@[0] == 'l');
        assert(outside::is_host_name(hosts@[1]@));
        reveal_strlit("127.0.0.1");
        reveal_strlit(".");
        reveal_with_fuel(text::decimal, 4);
        assert("127.0.0.1"@ =~= outside::dotted(127, 0, 0, 1));
    }
    match outside::self_sign_hosts(hosts) {
        Ok(made) => Ok(made),
        Err(e) => Err(CertError::Generation(e)),
    }
}

/// The server's own certificate is for its host name, for this machine by name and by address, and
/// is signed with the key that it comes with.
pub proof fn law_server_certificate(cert: Seq<u8>, key: Seq<u8>, hostname: Seq<char>)
    requires
        is_host_cert(cert, key, hostname),
    ensures
        ({
            let said = outside::certificate_in(cert);
            &&& outside::ip_octets(hostname) is None ==> said.names.contains(hostname)
            &&& outside::ip_octets(hostname) matches Some(octets) ==> said.addresses.contains(octets)
            &&& said.names.contains("localhost"@)
            &&& said.addresses.contains(seq![127u8, 0, 0, 1])
            &&& said.key == outside::public_key(key)
            &&& outside::is_signed_by(cert, said.key)
        }),
{
    let hosts = hosts_of(hostname);
    let keep = |host: Seq<char>| outside::ip_octets(host) is None;
    broadcast use vstd::seq_lib::group_filter_ensures;

    assert(hosts[0] == hostname);
    if keep(hostname) {
        assert(hosts.filter(keep).contains(hosts[0]));
    }
    reveal_with_fuel(outside::addresses_among, 4);
    let two = hosts.drop_last();
    let one = two.drop_last();
    assert(one.drop_last() =~= Seq::<Seq<char>>::empty());
    assert(one.last() == hostname);
    if let Some(octets) = outside::ip_octets(hostname) {
        assert(outside::addresses_among(one)[0] == octets);
        assert(outside::addresses_among(two)[0] == octets);
        assert(outside::addresses_among(hosts)[0] == octets);
    }
}

} // verus!
