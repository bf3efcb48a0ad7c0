//! What the server is started with, and what follows from it.

use crate::outside;
use crate::outside::UrlParts;
use crate::text;
use std::path::PathBuf;
use vstd::prelude::*;
use vstd::string::*;

verus! {

broadcast use vstd::string::group_string_axioms;

/// Arguments of the server.
#[derive(Debug)]
pub struct Args {
    /// Port to listen on
    pub port: u16,
    /// Host/IP to bind to
    pub host: String,
    /// Base URL for the proxy (used in config.json)
    pub base_url: Option<String>,
    /// Path to store locally published crates; a temporary directory where there is none
    pub registry_path: Option<PathBuf>,
    /// Upstream registry sparse index URL
    pub upstream_index: String,
    /// Upstream registry API URL
    pub upstream_api: String,
    /// Optional HTTP proxy port (for CARGO_HTTP_PROXY)
    pub http_proxy_port: Option<u16>,
    /// Path to export CA certificate (PEM format) for MITM interception
    pub ca_cert_out: Option<PathBuf>,
    /// Path to TLS certificate file (PEM format)
    pub tls_cert: Option<PathBuf>,
    /// Path to TLS private key file (PEM format)
    pub tls_key: Option<PathBuf>,
    /// Enable HTTPS with self-signed certificate (if there is no certificate file)
    pub tls: bool,
    /// Do not act as an HTTP proxy
    pub no_proxy: bool,
    /// Publish crates without the checks on their metadata
    pub permissive_publishing: bool,
}

/// Why the server does not start.
#[derive(Debug, Clone, Copy, PartialEq, Eq, Structural)]
pub enum ArgsError {
    /// A TLS certificate is given without its key
    MissingTlsKey,
}

impl ArgsError {
    /// What the error says.
    pub fn to_text(&self) -> (r: String)
        ensures
            r@ == "--tls-key is required if --tls-cert is provided"@,
    {
        String::from_str("--tls-key is required if --tls-cert is provided")
    }
}

/// How the server serves.
#[derive(Debug, Clone, Copy, PartialEq, Eq, Structural)]
pub enum ServeMode {
    /// With the proxy before the registry, over TLS or not
    Proxy { tls: bool },
    /// The registry alone, over TLS
    Tls,
    /// The registry alone, not over TLS
    Plain,
}

/// An address: a host and a port.
pub open spec fn address(host: Seq<char>, port: u16) -> Seq<char> {
    host + ":"@ + text::decimal(port as nat)
}

/// An address: a host and a port.
pub fn to_address(host: &str, port: u16) -> (r: String)
    ensures
        r@ == address(host@, port),
{
    let digits = text::to_decimal(port as u64);
    text::concat3(host, ":", digits.as_str())
}

impl Args {
    /// Whether the server speaks TLS.
    pub open spec fn tls_enabled(self) -> bool {
        self.tls || self.tls_cert is Some
    }

    /// Whether the server speaks TLS.
    pub fn use_tls(&self) -> (r: bool)
        ensures
            r == self.tls_enabled(),
    {
        self.tls || self.tls_cert.is_some()
    }

    /// Whether the server acts as an HTTP proxy.
    pub fn enable_http_proxy(&self) -> (r: bool)
        ensures
            r == !self.no_proxy,
    {
        !self.no_proxy
    }

    /// The base URL of the server: the given one, or that of its port on this machine.
    pub fn proxy_base_url(&self) -> (r: String)
        ensures
            r@ == (match self.base_url {
                Some(url) => url@,
                None => "http://"@ + address("localhost"@, self.port),
            }),
    {
        match &self.base_url {
            Some(url) => url.clone(),
            None => {
                let local = to_address("localhost", self.port);
                text::concat("http://", local.as_str())
            },
        }
    }

    /// The address that the server listens on.
    pub fn bind_addr(&self) -> (r: String)
        ensures
            r@ == address(self.host@, self.port),
    {
        to_address(self.host.as_str(), self.port)
    }

    /// The address that clients are told to use as their proxy.
    pub fn proxy_url(&self) -> (r: String)
        ensures
            r@ == (if self.tls_enabled() {
                "https://"@
            } else {
                "http://"@
            }) + address(self.host@, self.port),
    {
        let bind_addr = self.bind_addr();
        let protocol = if self.use_tls() {
            "https://"
        } else {
            "http://"
        };
        text::concat(protocol, bind_addr.as_str())
    }

    /// How the server serves.
    pub fn serve_mode(&self) -> (r: ServeMode)
        ensures
            r == (if !self.no_proxy {
                ServeMode::Proxy { tls: self.tls_enabled() }
            } else if self.tls_enabled() {
                ServeMode::Tls
            } else {
                ServeMode::Plain
            }),
    {
        if self.enable_http_proxy() {
            ServeMode::Proxy { tls: self.use_tls() }
        } else if self.use_tls() {
            ServeMode::Tls
        } else {
            ServeMode::Plain
        }
    }

    /// Whether a certificate file is given without the key file that it requires.
    pub fn lacks_tls_key(&self) -> (r: bool)
        ensures
            r == (self.tls_cert is Some && self.tls_key is None),
    {
        self.tls_cert.is_some() && self.tls_key.is_none()
    }

    /// The files of the server's certificate and its key, where a certificate is given; nothing
    /// where none is, and an error where it is given without a key.
    pub fn certificate_files(&self) -> (r: Result<Option<(&PathBuf, &PathBuf)>, ArgsError>)
        ensures
            r is Err <==> self.tls_cert is Some && self.tls_key is None,
            r matches Err(e) ==> e == ArgsError::MissingTlsKey,
            r matches Ok(files) ==> (files is Some <==> self.tls_cert is Some),
            r matches Ok(Some(files)) ==> *files.0 == self.tls_cert->0 && *files.1
                == self.tls_key->0,
    {
        match (&self.tls_cert, &self.tls_key) {
            (Some(cert), Some(key)) => Ok(Some((cert, key))),
            (Some(_), None) => Err(ArgsError::MissingTlsKey),
            (None, _) => Ok(None),
        }
    }

    /// The hosts of the upstream, by its index and its API.
    pub fn upstream_hosts(&self) -> (r: Vec<String>)
        ensures
            text::texts(r@) == known_hosts(
                seq![
                    outside::url_parts(self.upstream_index@),
                    outside::url_parts(self.upstream_api@),
                ],
            ),
    {
        let mut parts: Vec<Option<UrlParts>> = Vec::new();
        parts.push(outside::parse_url(self.upstream_index.as_str()));
        parts.push(outside::parse_url(self.upstream_api.as_str()));
        assert(all_parts(parts@) =~= seq![
            outside::url_parts(self.upstream_index@),
            outside::url_parts(self.upstream_api@),
        ]);
        hosts_of_urls(parts)
    }
}

/// What texts say, as far as they are URLs.
pub open spec fn all_parts(parts: Seq<Option<UrlParts>>) -> Seq<Option<outside::UrlView>> {
    parts.map_values(
        |url: Option<UrlParts>|
            match url {
                Some(known) => Some(known@),
                None => None,
            },
    )
}

/// The hosts of URLs, as far as they are URLs and have one.
pub open spec fn known_hosts(urls: Seq<Option<outside::UrlView>>) -> Seq<Seq<char>>
    decreases urls.len(),
{
    if urls.len() == 0 {
        Seq::empty()
    } else {
        let before = known_hosts(urls.drop_last());
        match urls.last() {
            Some(url) => match url.host {
                Some(host) => before.push(host),
                None => before,
            },
            None => before,
        }
    }
}

/// The hosts of URLs, as far as they are URLs and have one.
pub fn hosts_of_urls(parts: Vec<Option<UrlParts>>) -> (r: Vec<String>)
    ensures
        text::texts(r@) == known_hosts(all_parts(parts@)),
{
    let ghost given = parts@;
    let ghost all = all_parts(given);
    let mut hosts: Vec<String> = Vec::new();
    assert(text::texts(hosts@) =~= known_hosts(all.take(0)));
    for url in it: parts
        invariant
            it.seq() == given,
            all == all_parts(given),
            text::texts(hosts@) == known_hosts(all.take(it.index() as int)),
    {
        let ghost n = it.index() as int;
        let ghost before = text::texts(hosts@);
        proof {
            assert(all.take(n + 1).drop_last() == all.take(n));
            assert(all.take(n + 1).last() == all[n]);
        }
        if let Some(known) = url {
            if let Some(host) = known.host {
                let ghost name = host@;
                hosts.push(host);
                assert(text::texts(hosts@) =~= before.push(name));
            }
        }
    }
    assert(all.take(all.len() as int) == all);
    hosts
}

/// The server speaks TLS exactly when that is asked for or a certificate is given.
pub proof fn law_tls_follows_the_arguments(args: Args)
    ensures
        args.tls_enabled() <==> args.tls || args.tls_cert is Some,
{
}

/// An address is the host, a colon, and the port in decimal.
pub proof fn law_addresses_read_back(host: Seq<char>, port: u16)
    ensures
        text::last_index_of(address(host, port), ':') == Some(host.len()),
        address(host, port).take(host.len() as int) == host,
        text::number(address(host, port).skip(host.len() as int + 1), 65535) == Some(port as nat),
{
    reveal_strlit(":");
    let digits = text::decimal(port as nat);
    text::lemma_decimal(port as nat);
    text::law_decimal_reads_back(port as nat, 65535);
    assert(!digits.contains(':')) by {
        assert forall|i: int| 0 <= i < digits.len() implies digits[i] != ':' by {
            assert(text::is_digit(digits[i]));
        }
    }
    assert(address(host, port) =~= host + seq![':'] + digits);
    text::law_first_and_last_positions(host, ':', digits);
    assert(address(host, port).take(host.len() as int) =~= host);
    assert(address(host, port).skip(host.len() as int + 1) =~= digits);
}

/// Every URL that has a host gives it, in its place; one that has none takes no other one away.
pub proof fn law_hosts_of_urls(urls: Seq<Option<outside::UrlView>>, url: Option<outside::UrlView>)
    ensures
        known_hosts(Seq::empty()) == Seq::<Seq<char>>::empty(),
        url is Some && url->0.host is Some ==> known_hosts(urls.push(url)) == known_hosts(
            urls,
        ).push(url->0.host->0),
        url is None || url->0.host is None ==> known_hosts(urls.push(url)) == known_hosts(urls),
{
    assert(urls.push(url).drop_last() =~= urls);
}

/// The host of every URL of the upstream is intercepted.
pub proof fn law_upstream_urls_are_intercepted(urls: Seq<Option<outside::UrlView>>, i: int)
    requires
        0 <= i < urls.len(),
        urls[i] is Some,
        urls[i]->0.host is Some,
    ensures
        crate::http_proxy::is_intercepted(urls[i]->0.host->0, known_hosts(urls)),
{
    lemma_host_is_known(urls, i);
    let hosts = known_hosts(urls);
    let k = choose|k: int| 0 <= k < hosts.len() && hosts[k] == urls[i]->0.host->0;
    crate::http_proxy::law_upstream_hosts_are_intercepted(hosts, k);
}

/// The host of a URL is among those of all URLs.
proof fn lemma_host_is_known(urls: Seq<Option<outside::UrlView>>, i: int)
    requires
        0 <= i < urls.len(),
        urls[i] is Some,
        urls[i]->0.host is Some,
    ensures
        known_hosts(urls).contains(urls[i]->0.host->0),
    decreases urls.len(),
{
    let hosts = known_hosts(urls);
    let host = urls[i]->0.host->0;
    if i == urls.len() - 1 {
        assert(hosts[hosts.len() - 1] == host);
    } else {
        lemma_host_is_known(urls.drop_last(), i);
        let before = known_hosts(urls.drop_last());
        let k = choose|k: int| 0 <= k < before.len() && before[k] == host;
        assert(hosts[k] == host);
    }
}

/// Clients are told to use TLS exactly when the server speaks it, at the address that it listens on.
pub proof fn law_clients_are_told_how_to_connect(
    args: &Args,
    mode: ServeMode,
    url: String,
    bind_addr: String,
)
    requires
        call_ensures(Args::serve_mode, (args,), mode),
        call_ensures(Args::proxy_url, (args,), url),
        call_ensures(Args::bind_addr, (args,), bind_addr),
    ensures
        mode is Proxy <==> !args.no_proxy,
        mode matches ServeMode::Proxy { tls } ==> (tls <==> args.tls || args.tls_cert is Some),
        mode is Tls <==> args.no_proxy && (args.tls || args.tls_cert is Some),
        args.tls || args.tls_cert is Some ==> url@ == "https://"@ + bind_addr@,
        !args.tls && args.tls_cert is None ==> url@ == "http://"@ + bind_addr@,
        bind_addr@ == args.host@ + ":"@ + text::decimal(args.port as nat),
{
}

/// The base URL is the given one; without one it leads to the port on this machine.
pub proof fn law_base_url(args: &Args, url: String)
    requires
        call_ensures(Args::proxy_base_url, (args,), url),
    ensures
        args.base_url matches Some(given) ==> url@ == given@,
        args.base_url is None ==> url@ == "http://"@ + ("localhost"@ + ":"@ + text::decimal(
            args.port as nat,
        )),
{
}

/// The server has files of a certificate and its key exactly when both are given; a certificate
/// without a key is refused, and a key without a certificate is not used.
pub proof fn law_certificates_need_keys(
    args: &Args,
    files: Result<Option<(&std::path::PathBuf, &std::path::PathBuf)>, ArgsError>,
    lacking: bool,
)
    requires
        call_ensures(Args::certificate_files, (args,), files),
        call_ensures(Args::lacks_tls_key, (args,), lacking),
    ensures
        lacking <==> files is Err,
        args.tls_cert is Some && args.tls_key is None ==> files is Err,
        args.tls_cert is Some && args.tls_key is Some ==> files is Ok && files->Ok_0 is Some
            && *(files->Ok_0->0).0 == args.tls_cert->0 && *(files->Ok_0->0).1 == args.tls_key->0,
        args.tls_cert is None ==> files is Ok && files->Ok_0 is None,
{
}

} // verus!
