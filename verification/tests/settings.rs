use cargo_overlay_registry::cli::{Args, ArgsError, ServeMode};
use cargo_overlay_registry::dry_run::{
    cargo_args, exit_code, proxy_state, proxy_url, upstream_hosts,
};
use cargo_overlay_registry::state::{domain_names, CertError, MitmCa, ProxyState};
use cargo_overlay_registry::text::is_ascii_text;
use cargo_overlay_registry::tls::{generate_self_signed_cert, self_signed_hosts};
use std::path::PathBuf;

fn args() -> Args {
    Args {
        port: 8080,
        host: "0.0.0.0".to_string(),
        base_url: None,
        registry_path: None,
        upstream_index: "https://index.crates.io".to_string(),
        upstream_api: "https://crates.io".to_string(),
        http_proxy_port: None,
        ca_cert_out: None,
        tls_cert: None,
        tls_key: None,
        tls: false,
        no_proxy: false,
        permissive_publishing: false,
    }
}

fn decode_base64(text: &str) -> Vec<u8> {
    let alphabet = "ABCDEFGHIJKLMNOPQRSTUVWXYZabcdefghijklmnopqrstuvwxyz0123456789+/";
    let mut bits: u32 = 0;
    let mut held: u32 = 0;
    let mut out = vec![];
    for c in text.chars() {
        if let Some(value) = alphabet.find(c) {
            bits = (bits << 6) | value as u32;
            held += 6;
            if held >= 8 {
                held -= 8;
                out.push((bits >> held) as u8);
                bits &= (1 << held) - 1;
            }
        }
    }
    out
}

fn der(pem: &[u8], label: &str) -> Vec<u8> {
    let text = String::from_utf8(pem.to_vec()).unwrap();
    let begin = format!("-----BEGIN {}-----", label);
    let end = format!("-----END {}-----", label);
    assert!(text.starts_with(&begin));
    let inner = text.trim().strip_prefix(&begin).unwrap().strip_suffix(&end).unwrap();
    decode_base64(inner)
}

fn holds(bytes: &[u8], part: &[u8]) -> bool {
    bytes.windows(part.len()).any(|w| w == part)
}

#[test]
fn defaults_follow_from_the_arguments() {
    let plain = args();
    assert!(!plain.use_tls());
    assert!(plain.enable_http_proxy());
    assert_eq!(plain.proxy_base_url(), "http://localhost:8080");
    assert_eq!(plain.bind_addr(), "0.0.0.0:8080");
    assert_eq!(plain.proxy_url(), "http://0.0.0.0:8080");
    assert_eq!(plain.upstream_hosts(), vec!["index.crates.io", "crates.io"]);
}

#[test]
fn given_arguments_are_used() {
    let mut given = args();
    given.base_url = Some("https://example.com".to_string());
    given.tls_cert = Some(PathBuf::from("cert.pem"));
    given.no_proxy = true;
    given.upstream_index = "no url".to_string();
    given.upstream_api = "HTTPS://API.Example.com:8443/x".to_string();
    assert!(given.use_tls());
    assert!(!given.enable_http_proxy());
    assert_eq!(given.proxy_base_url(), "https://example.com");
    assert_eq!(given.proxy_url(), "https://0.0.0.0:8080");
    assert_eq!(given.upstream_hosts(), vec!["api.example.com"]);
    given.tls_cert = None;
    given.tls = true;
    assert!(given.use_tls());
}

#[test]
fn modes_follow_from_the_arguments() {
    let mut given = args();
    assert_eq!(given.serve_mode(), ServeMode::Proxy { tls: false });
    assert_eq!(given.certificate_files(), Ok(None));
    given.tls_cert = Some(PathBuf::from("cert.pem"));
    assert_eq!(given.serve_mode(), ServeMode::Proxy { tls: true });
    given.no_proxy = true;
    given.tls_key = Some(PathBuf::from("key.pem"));
    assert_eq!(given.serve_mode(), ServeMode::Tls);
    assert_eq!(
        given.certificate_files(),
        Ok(Some((&PathBuf::from("cert.pem"), &PathBuf::from("key.pem"))))
    );
    given.tls_cert = None;
    assert_eq!(given.serve_mode(), ServeMode::Plain);
}

#[test]
fn certificates_require_their_key() {
    let mut given = args();
    assert!(!given.lacks_tls_key());
    given.tls_key = Some(PathBuf::from("key.pem"));
    assert!(!given.lacks_tls_key());
    assert_eq!(given.certificate_files(), Ok(None));
    given.tls_key = None;
    given.tls_cert = Some(PathBuf::from("cert.pem"));
    assert!(given.lacks_tls_key());
    assert_eq!(given.certificate_files(), Err(ArgsError::MissingTlsKey));
    assert_eq!(
        ArgsError::MissingTlsKey.to_text(),
        "--tls-key is required if --tls-cert is provided"
    );
}

#[test]
fn dry_runs_enforce_validation() {
    let state = proxy_state(PathBuf::from("/tmp/x"));
    assert!(!state.permissive_publishing);
    assert_eq!(state.proxy_base_url, "https://crates.io");
    assert_eq!(state.upstream_index, "https://index.crates.io");
    assert_eq!(state.upstream_api(), "https://crates.io");
    assert_eq!(state.local_registry_path, PathBuf::from("/tmp/x"));
}

#[test]
fn state_keeps_its_settings() {
    let state = ProxyState::new(
        "http://localhost:8080".to_string(),
        PathBuf::from("/tmp/x"),
        "https://index.crates.io".to_string(),
        "https://crates.io".to_string(),
        true,
    );
    assert_eq!(state.upstream_api(), "https://crates.io");
    assert_eq!(state.proxy_base_url, "http://localhost:8080");
    assert_eq!(state.local_registry_path, PathBuf::from("/tmp/x"));
    assert_eq!(state.upstream_index, "https://index.crates.io");
    assert!(state.permissive_publishing);
}

#[test]
fn authority_signs_for_domains() {
    let ca = MitmCa::new().unwrap();
    let own = der(ca.ca_cert_pem(), "CERTIFICATE");
    assert!(holds(&own, b"Cargo Overlay Registry CA"));
    assert!(holds(&own, b"\x0c\x16Cargo Overlay Registry"));
    // Key usage: signing certificates and revocation lists
    assert!(holds(&own, &[0x55, 0x1d, 0x0f]));
    assert!(holds(&own, &[0x03, 0x03, 0x07, 0x06, 0x00]));
    // Basic constraints: an authority
    assert!(holds(&own, &[0x55, 0x1d, 0x13]));
    assert!(holds(&own, &[0x30, 0x03, 0x01, 0x01, 0xff]));
    let (cert, key) = ca.sign_domain_cert("index.crates.io").unwrap();
    let cert = der(&cert, "CERTIFICATE");
    assert!(holds(&cert, b"\x82\x0findex.crates.io"));
    assert!(holds(&cert, b"\x82\x11*.index.crates.io"));
    assert!(holds(&cert, b"Cargo Overlay Registry CA"));
    assert!(!holds(&cert, &[0x55, 0x1d, 0x13]));
    assert!(!der(&key, "PRIVATE KEY").is_empty());
}

fn provider() -> std::sync::Arc<rustls::crypto::CryptoProvider> {
    std::sync::Arc::new(rustls::crypto::ring::default_provider())
}

fn certificate(pem: &[u8]) -> rustls::pki_types::CertificateDer<'static> {
    rustls_pemfile::certs(&mut &pem[..]).next().unwrap().unwrap()
}

/// Whether a certificate for a name chains up to the certificate of an authority.
fn chains(cert: &[u8], ca: &[u8], name: &str) -> bool {
    let mut roots = rustls::RootCertStore::empty();
    roots.add(certificate(ca)).unwrap();
    let verifier = rustls::client::WebPkiServerVerifier::builder_with_provider(
        std::sync::Arc::new(roots),
        provider(),
    )
    .build()
    .unwrap();
    rustls::client::danger::ServerCertVerifier::verify_server_cert(
        verifier.as_ref(),
        &certificate(cert),
        &[],
        &rustls::pki_types::ServerName::try_from(name.to_string()).unwrap(),
        &[],
        rustls::pki_types::UnixTime::now(),
    )
    .is_ok()
}

/// Whether a key is the one that a certificate is for.
fn belong_together(cert: &[u8], key: &[u8]) -> bool {
    let key = rustls_pemfile::private_key(&mut &key[..]).unwrap().unwrap();
    rustls::ServerConfig::builder_with_provider(provider())
        .with_safe_default_protocol_versions()
        .unwrap()
        .with_no_client_auth()
        .with_single_cert(vec![certificate(cert)], key)
        .is_ok()
}

#[test]
fn certificates_chain_to_their_authority() {
    let ca = MitmCa::new().unwrap();
    let (cert, key) = ca.sign_domain_cert("index.crates.io").unwrap();
    assert!(chains(&cert, ca.ca_cert_pem(), "index.crates.io"));
    assert!(chains(&cert, ca.ca_cert_pem(), "a.index.crates.io"));
    assert!(!chains(&cert, ca.ca_cert_pem(), "crates.io"));
    assert!(belong_together(&cert, &key));
    let other = MitmCa::new().unwrap();
    assert!(!chains(&cert, other.ca_cert_pem(), "index.crates.io"));
    let (second, second_key) = ca.sign_domain_cert("index.crates.io").unwrap();
    assert!(chains(&second, ca.ca_cert_pem(), "index.crates.io"));
    assert!(!belong_together(&cert, &second_key));
    assert!(!belong_together(&second, &key));
    assert!(!belong_together(ca.ca_cert_pem(), &key));
}

#[test]
fn self_signed_certificates_go_with_their_key() {
    let (cert, key) = generate_self_signed_cert("registry").unwrap();
    let (_, other_key) = generate_self_signed_cert("registry").unwrap();
    assert!(belong_together(&cert, &key));
    assert!(!belong_together(&cert, &other_key));
}

#[test]
fn addresses_are_no_names() {
    let (cert, _) = generate_self_signed_cert("10.0.0.7").unwrap();
    let cert = der(&cert, "CERTIFICATE");
    assert!(holds(&cert, &[0x87, 4, 10, 0, 0, 7]));
    assert!(!holds(&cert, b"10.0.0.7"));
    let (cert, _) = generate_self_signed_cert("::1").unwrap();
    assert!(holds(
        &der(&cert, "CERTIFICATE"),
        &[0x87, 16, 0, 0, 0, 0, 0, 0, 0, 0, 0, 0, 0, 0, 0, 0, 0, 1]
    ));
}

#[test]
fn wildcards_get_no_second_wildcard() {
    assert_eq!(domain_names("crates.io"), vec!["crates.io", "*.crates.io"]);
    assert_eq!(domain_names("*.crates.io"), vec!["*.crates.io"]);
    let ca = MitmCa::new().unwrap();
    let (cert, _) = ca.sign_domain_cert("*.crates.io").unwrap();
    assert!(!holds(&der(&cert, "CERTIFICATE"), b"*.*.crates.io"));
}

#[test]
fn domains_are_in_ascii() {
    let ca = MitmCa::new().unwrap();
    assert!(matches!(
        ca.sign_domain_cert("cr\u{e4}tes.io"),
        Err(CertError::InvalidName)
    ));
    assert!(is_ascii_text("crates.io\u{7f}"));
    assert!(!is_ascii_text("\u{80}"));
}

#[test]
fn server_signs_for_itself() {
    assert_eq!(
        self_signed_hosts("registry"),
        vec!["registry", "localhost", "127.0.0.1"]
    );
    let (cert, key) = generate_self_signed_cert("registry").unwrap();
    let cert = der(&cert, "CERTIFICATE");
    assert!(holds(&cert, b"\x82\x08registry"));
    assert!(holds(&cert, b"\x82\x09localhost"));
    assert!(holds(&cert, &[0x87, 4, 127, 0, 0, 1]));
    assert!(!der(&key, "PRIVATE KEY").is_empty());
    assert!(matches!(
        generate_self_signed_cert("\u{e4}"),
        Err(CertError::Generation(_))
    ));
}

#[test]
fn arguments_go_on_to_cargo() {
    let strings =
        |texts: &[&str]| -> Vec<String> { texts.iter().map(|s| s.to_string()).collect() };
    assert_eq!(
        cargo_args(strings(&["publish-dry-run", "--allow-dirty", "publish-dry-run"])),
        vec!["--allow-dirty", "publish-dry-run"]
    );
    assert_eq!(
        cargo_args(strings(&["--workspace", "publish-dry-run"])),
        vec!["--workspace", "publish-dry-run"]
    );
    assert!(cargo_args(vec![]).is_empty());
    assert_eq!(proxy_url(4000), "http://127.0.0.1:4000");
    assert_eq!(
        upstream_hosts(),
        vec!["index.crates.io", "crates.io", "static.crates.io"]
    );
}

#[test]
fn exit_codes_are_cargos() {
    assert_eq!(exit_code(true, Some(0)), 0);
    assert_eq!(exit_code(false, Some(101)), 101);
    assert_eq!(exit_code(false, Some(256)), 0);
    assert_eq!(exit_code(false, Some(-1)), 255);
    assert_eq!(exit_code(false, Some(i32::MIN)), 0);
    assert_eq!(exit_code(false, None), 1);
    for code in [-1000, -257, 3, 1_000_000] {
        assert_eq!(exit_code(false, Some(code)), code as u8);
    }
}
