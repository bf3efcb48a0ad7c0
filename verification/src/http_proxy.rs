//! The forward proxy: which connections are intercepted, what is read from them, and what is
//! written back.

use crate::cli;
use crate::outside;
use crate::outside::UrlParts;
use crate::response;
use crate::response::{Header, InternalResponse, OutboundRequest, UpstreamResponse};
use crate::text;
use vstd::prelude::*;
use vstd::string::*;
use vstd::utf8::*;

verus! {

broadcast use vstd::string::group_string_axioms;

// ---------------------------------------------------------------------------
// Routing
// ---------------------------------------------------------------------------

/// Check if a request should be handled by the proxy layer: one to connect, or one for an absolute
/// URL.
pub fn is_proxy_request(method: &str, has_scheme: bool) -> (r: bool)
    ensures
        r == (method@ == "CONNECT"@ || has_scheme),
{
    text::same_text(method, "CONNECT") || has_scheme
}

/// How a request to the proxy layer goes on.
#[derive(Debug)]
pub enum ProxyRoute {
    /// A tunnel is opened
    Connect,
    /// The request is forwarded
    Forward,
    /// The request is answered
    Reject(InternalResponse),
}

/// How a request to the proxy layer goes on, by its method and whether its URL is absolute.
pub fn handle_proxy_request(method: &str, has_scheme: bool) -> (r: ProxyRoute)
    ensures
        r is Connect <==> method@ == "CONNECT"@,
        r is Forward <==> method@ != "CONNECT"@ && has_scheme,
        r matches ProxyRoute::Reject(reply) ==> reply@ == response::bare_reply(
            response::BAD_REQUEST,
            "Invalid proxy request"@,
        ),
{
    if text::same_text(method, "CONNECT") {
        ProxyRoute::Connect
    } else if has_scheme {
        ProxyRoute::Forward
    } else {
        ProxyRoute::Reject(
            InternalResponse::bare(response::BAD_REQUEST, "Invalid proxy request"),
        )
    }
}

/// Whether `host` is `upstream`, or one of its subdomains.
pub open spec fn belongs_to(host: Seq<char>, upstream: Seq<char>) -> bool {
    host == upstream || ("."@ + upstream).is_suffix_of(host)
}

/// Whether connections to `host` are intercepted: it belongs to one of the upstream's hosts.
pub open spec fn is_intercepted(host: Seq<char>, upstream_hosts: Seq<Seq<char>>) -> bool {
    exists|i: int| 0 <= i < upstream_hosts.len() && belongs_to(host, #[trigger] upstream_hosts[i])
}

/// Whether connections to `host` are intercepted.
pub fn should_intercept(host: &str, upstream_hosts: &[String]) -> (r: bool)
    ensures
        r == is_intercepted(host@, text::texts(upstream_hosts@)),
        !r ==> forall|i: int|
            0 <= i < upstream_hosts@.len() ==> (#[trigger] upstream_hosts@[i])@ != host@,
{
    let ghost hosts = text::texts(upstream_hosts@);
    let chars = text::chars_of(host);
    let mut i: usize = 0;
    while i < upstream_hosts.len()
        invariant
            i <= upstream_hosts@.len(),
            hosts == text::texts(upstream_hosts@),
            chars@ == host@,
            forall|j: int| 0 <= j < i ==> !belongs_to(host@, #[trigger] hosts[j]),
        decreases upstream_hosts@.len() - i,
    {
        let upstream = upstream_hosts[i].as_str();
        let suffix = text::chars_of(text::concat(".", upstream).as_str());
        assert(hosts[i as int] == upstream@);
        if text::same_text(host, upstream) || text::ends_with(
            chars.as_slice(),
            suffix.as_slice(),
        ) {
            return true;
        }
        i += 1;
    }
    assert forall|k: int| 0 <= k < upstream_hosts@.len() implies (#[trigger] upstream_hosts@[k])@
        != host@ by {
        assert(hosts[k] == upstream_hosts@[k]@);
        assert(!belongs_to(host@, hosts[k]));
    }
    false
}

/// A subdomain of an intercepted host is intercepted too.
pub proof fn law_subdomains_are_intercepted(
    sub: Seq<char>,
    host: Seq<char>,
    upstream_hosts: Seq<Seq<char>>,
)
    requires
        is_intercepted(host, upstream_hosts),
    ensures
        is_intercepted(sub + "."@ + host, upstream_hosts),
{
    let i = choose|i: int|
        0 <= i < upstream_hosts.len() && belongs_to(host, #[trigger] upstream_hosts[i]);
    let suffix = "."@ + upstream_hosts[i];
    let all = sub + "."@ + host;
    if host == upstream_hosts[i] {
        assert(suffix =~= all.subrange(all.len() - suffix.len(), all.len() as int));
    } else {
        assert(suffix =~= all.subrange(all.len() - suffix.len(), all.len() as int)) by {
            assert(suffix =~= host.subrange(host.len() - suffix.len(), host.len() as int));
            assert(host.subrange(host.len() - suffix.len(), host.len() as int) =~= all.subrange(
                all.len() - suffix.len(),
                all.len() as int,
            ));
        }
    }
    assert(belongs_to(all, upstream_hosts[i]));
}

// ---------------------------------------------------------------------------
// Tunnels
// ---------------------------------------------------------------------------

/// The port of a tunnel to a host without one.
pub const DEFAULT_PORT: u16 = 443;

/// The host and port that a tunnel leads to. `authority` is the host and port of the request's
/// URL, where it has them; else they stand in its text, before and after the last colon.
pub open spec fn tunnel_end(
    authority: Option<(Seq<char>, Option<u16>)>,
    target: Seq<char>,
) -> (Seq<char>, u16) {
    match authority {
        Some((host, port)) => (
            host,
            match port {
                Some(port) => port,
                None => DEFAULT_PORT,
            },
        ),
        None => match text::last_index_of(target, ':') {
            Some(i) => (
                target.take(i as int),
                match text::number(target.skip(i as int + 1), 65535) {
                    Some(port) => port as u16,
                    None => DEFAULT_PORT,
                },
            ),
            None => (target, DEFAULT_PORT),
        },
    }
}

/// The authority of a URL as mathematical values.
pub open spec fn authority_view(authority: Option<(String, Option<u16>)>) -> Option<
    (Seq<char>, Option<u16>),
> {
    match authority {
        Some((host, port)) => Some((host@, port)),
        None => None,
    }
}

/// The host and port that a tunnel leads to.
pub fn connect_target(authority: Option<(String, Option<u16>)>, target: &str) -> (r: (String, u16))
    ensures
        (r.0@, r.1) == tunnel_end(authority_view(authority), target@),
{
    match authority {
        Some((host, Some(port))) => (host, port),
        Some((host, None)) => (host, DEFAULT_PORT),
        None => {
            let chars = text::chars_of(target);
            let n = chars.len();
            match text::rfind(chars.as_slice(), ':') {
                Some(i) => {
                    let host = vstd::slice::slice_subrange(chars.as_slice(), 0, i);
                    let rest = vstd::slice::slice_subrange(chars.as_slice(), i + 1, n);
                    assert(host@ == target@.take(i as int));
                    assert(rest@ == target@.skip(i + 1));
                    let port = match text::parse_number(rest, 65535) {
                        Some(n) => n as u16,
                        None => DEFAULT_PORT,
                    };
                    (text::string_of(host), port)
                },
                None => (String::from_str(target), DEFAULT_PORT),
            }
        },
    }
}

/// How a tunnel is opened: where it leads to, and whether it is intercepted.
#[derive(Debug)]
pub struct ConnectPlan {
    pub host: String,
    pub port: u16,
    pub intercept: bool,
}

/// How a tunnel is opened.
pub fn handle_connect(
    authority: Option<(String, Option<u16>)>,
    target: &str,
    upstream_hosts: &[String],
) -> (r: ConnectPlan)
    ensures
        (r.host@, r.port) == tunnel_end(authority_view(authority), target@),
        r.intercept == is_intercepted(r.host@, text::texts(upstream_hosts@)),
{
    let (host, port) = connect_target(authority, target);
    let intercept = should_intercept(host.as_str(), upstream_hosts);
    ConnectPlan { host, port, intercept }
}

/// The address that a tunnel which is not intercepted connects to.
pub fn handle_connect_passthrough(host: &str, port: u16) -> (r: String)
    ensures
        r@ == cli::address(host@, port),
{
    cli::to_address(host, port)
}

/// The target that is written for a host and a port leads there.
pub proof fn law_target_reads_back(host: Seq<char>, port: u16)
    ensures
        tunnel_end(None, cli::address(host, port)) == (host, port),
{
    let digits = text::decimal(port as nat);
    let all = host + ":"@ + digits;
    reveal_strlit(":");
    text::law_decimal_reads_back(port as nat, 65535);
    text::lemma_decimal(port as nat);
    lemma_last_index_before(host, digits);
    assert(all =~= host + seq![':'] + digits);
    assert(all.take(host.len() as int) =~= host);
    assert(all.skip(host.len() as int + 1) =~= digits);
}

/// Behind the last colon come the digits.
proof fn lemma_last_index_before(s: Seq<char>, digits: Seq<char>)
    requires
        text::all_digits(digits),
    ensures
        text::last_index_of(s + seq![':'] + digits, ':') == Some(s.len()),
    decreases digits.len(),
{
    let all = s + seq![':'] + digits;
    if digits.len() > 0 {
        assert(text::is_digit(digits[digits.len() - 1]));
        assert forall|i: int| 0 <= i < digits.drop_last().len() implies text::is_digit(
            #[trigger] digits.drop_last()[i],
        ) by {
            assert(text::is_digit(digits[i]));
        }
        lemma_last_index_before(s, digits.drop_last());
        assert(all.drop_last() =~= s + seq![':'] + digits.drop_last());
    }
}

// ---------------------------------------------------------------------------
// Reading requests from an intercepted connection
// ---------------------------------------------------------------------------

/// The lower-case forms of header lines.
pub open spec fn lowered(headers: Seq<Seq<char>>) -> Seq<Seq<char>> {
    headers.map_values(|line: Seq<char>| text::lowercase(line))
}

/// Whether a line is a header field of the given name whose value has `word` in it. The line is
/// in lower case, and so are the name, with its colon, and the word.
pub open spec fn says(line: Seq<char>, name: Seq<char>, word: Seq<char>) -> bool {
    name.is_prefix_of(line) && text::occurs(word, line)
}

/// Whether one of the lines, which are in lower case, is a header field of the given name whose
/// value has `word` in it.
pub open spec fn any_says(lines: Seq<Seq<char>>, name: Seq<char>, word: Seq<char>) -> bool {
    exists|i: int| 0 <= i < lines.len() && says(#[trigger] lines[i], name, word)
}

/// The value in a header line up to the next colon; nothing where there is no colon.
pub open spec fn value_part(line: Seq<char>) -> Option<Seq<char>> {
    let i = text::index_of(line, ':') as int;
    if i < line.len() {
        let rest = line.skip(i + 1);
        Some(rest.take(text::index_of(rest, ':') as int))
    } else {
        None
    }
}

/// The length that a `content-length` line announces; 0 where it is no number.
pub open spec fn announced_length(line: Seq<char>) -> nat {
    match value_part(line) {
        Some(value) => match text::number(text::trimmed(value), usize::MAX as nat) {
            Some(n) => n,
            None => 0,
        },
        None => 0,
    }
}

/// The length of the body behind the header lines `headers`, whose lower-case forms are `lower`:
/// what the first `content-length` line announces, and 0 where there is none.
pub open spec fn body_length(headers: Seq<Seq<char>>, lower: Seq<Seq<char>>) -> nat
    decreases lower.len(),
{
    if lower.len() == 0 {
        0
    } else if "content-length:"@.is_prefix_of(lower[0]) {
        announced_length(headers[0])
    } else {
        body_length(headers.drop_first(), lower.drop_first())
    }
}

/// The name and value of a header line, without the white space around them; nothing where it has
/// no colon.
pub open spec fn header_pair(line: Seq<char>) -> Option<(Seq<char>, Seq<char>)> {
    let i = text::index_of(line, ':') as int;
    if i < line.len() {
        Some((text::trimmed(line.take(i)), text::trimmed(line.skip(i + 1))))
    } else {
        None
    }
}

/// The names and values of the header lines that have them.
pub open spec fn all_pairs(headers: Seq<Seq<char>>) -> Seq<(Seq<char>, Seq<char>)>
    decreases headers.len(),
{
    if headers.len() == 0 {
        Seq::empty()
    } else {
        let before = all_pairs(headers.drop_last());
        match header_pair(headers.last()) {
            Some(pair) => before.push(pair),
            None => before,
        }
    }
}

/// The lower-case forms of header lines.
pub fn lower_lines(headers: &[String]) -> (r: Vec<String>)
    ensures
        text::texts(r@) == lowered(text::texts(headers@)),
{
    let mut out: Vec<String> = Vec::new();
    let mut i: usize = 0;
    while i < headers.len()
        invariant
            i <= headers@.len(),
            out@.len() == i,
            forall|j: int|
                0 <= j < i ==> (#[trigger] out@[j])@ == text::lowercase(headers@[j]@),
        decreases headers@.len() - i,
    {
        out.push(text::to_lowercase(headers[i].as_str()));
        i += 1;
    }
    assert(text::texts(out@) =~= lowered(text::texts(headers@)));
    out
}

/// Whether one of the lines, which are in lower case, is a header field of the given name whose
/// value has `word` in it.
pub fn some_line_says(lines: &[String], name: &str, word: &str) -> (r: bool)
    ensures
        r == any_says(text::texts(lines@), name@, word@),
{
    let ghost all = text::texts(lines@);
    let prefix = text::chars_of(name);
    let part = text::chars_of(word);
    let mut i: usize = 0;
    while i < lines.len()
        invariant
            i <= lines@.len(),
            all == text::texts(lines@),
            prefix@ == name@,
            part@ == word@,
            forall|j: int| 0 <= j < i ==> !says(#[trigger] all[j], name@, word@),
        decreases lines@.len() - i,
    {
        let line = text::chars_of(lines[i].as_str());
        assert(all[i as int] == line@);
        if text::starts_with(line.as_slice(), prefix.as_slice()) && text::contains(
            line.as_slice(),
            part.as_slice(),
        ) {
            return true;
        }
        i += 1;
    }
    false
}

/// The length that a `content-length` line announces; 0 where it is no number.
pub fn parse_announced_length(line: &str) -> (r: usize)
    ensures
        r == announced_length(line@),
{
    let chars = text::chars_of(line);
    let n = chars.len();
    let i = text::find(chars.as_slice(), ':');
    if i == n {
        return 0;
    }
    let rest = vstd::slice::slice_subrange(chars.as_slice(), i + 1, n);
    assert(rest@ == line@.skip(i + 1));
    let end = text::find(rest, ':');
    let value = vstd::slice::slice_subrange(rest, 0, end);
    assert(value@ == rest@.take(end as int));
    match text::parse_number(text::trim(value), usize::MAX as u64) {
        Some(length) => length as usize,
        None => 0,
    }
}

/// The length of the body behind header lines, whose lower-case forms are `lower`.
pub fn content_length(headers: &[String], lower: &[String]) -> (r: usize)
    requires
        headers@.len() == lower@.len(),
    ensures
        r == body_length(text::texts(headers@), text::texts(lower@)),
{
    let ghost all = text::texts(headers@);
    let ghost small = text::texts(lower@);
    let prefix = text::chars_of("content-length:");
    let mut i: usize = 0;
    assert(all.skip(0) == all && small.skip(0) == small);
    while i < lower.len()
        invariant
            i <= lower@.len(),
            headers@.len() == lower@.len(),
            all == text::texts(headers@),
            small == text::texts(lower@),
            prefix@ == "content-length:"@,
            body_length(all, small) == body_length(all.skip(i as int), small.skip(i as int)),
        decreases lower@.len() - i,
    {
        let line = text::chars_of(lower[i].as_str());
        proof {
            assert(small.skip(i as int)[0] == line@);
            assert(all.skip(i as int)[0] == headers@[i as int]@);
            assert(all.skip(i as int).drop_first() == all.skip(i + 1));
            assert(small.skip(i as int).drop_first() == small.skip(i + 1));
        }
        if text::starts_with(line.as_slice(), prefix.as_slice()) {
            return parse_announced_length(headers[i].as_str());
        }
        i += 1;
    }
    0
}

/// The names and values of the header lines that have them.
pub fn header_pairs(headers: &[String]) -> (r: Vec<(String, String)>)
    ensures
        response::pair_views(r@) == all_pairs(text::texts(headers@)),
{
    let ghost all = text::texts(headers@);
    let mut out: Vec<(String, String)> = Vec::new();
    let mut i: usize = 0;
    assert(response::pair_views(out@) =~= all_pairs(all.take(0)));
    while i < headers.len()
        invariant
            i <= headers@.len(),
            all == text::texts(headers@),
            response::pair_views(out@) == all_pairs(all.take(i as int)),
        decreases headers@.len() - i,
    {
        let line = text::chars_of(headers[i].as_str());
        let n = line.len();
        let at = text::find(line.as_slice(), ':');
        let ghost before = response::pair_views(out@);
        proof {
            assert(all.take(i + 1).drop_last() == all.take(i as int));
            assert(all.take(i + 1).last() == line@);
        }
        if at < n {
            let name = vstd::slice::slice_subrange(line.as_slice(), 0, at);
            let value = vstd::slice::slice_subrange(line.as_slice(), at + 1, n);
            proof {
                assert(name@ == line@.take(at as int));
                assert(value@ == line@.skip(at + 1));
            }
            let ghost pair = header_pair(line@)->0;
            out.push((text::string_of(text::trim(name)), text::string_of(text::trim(value))));
            assert(response::pair_views(out@) =~= before.push(pair));
        }
        i += 1;
    }
    assert(all.take(i as int) == all);
    out
}

/// Where the reading of requests from an intercepted connection stands.
#[derive(Debug)]
pub enum MitmState {
    /// A request line is read next
    Idle,
    /// Header lines of a request are read
    Reading { method: String, path: String, headers: Vec<String> },
    /// A request is answered; then the connection is closed, or the next request read
    Replying { close: bool },
    /// The connection is closed
    Closed,
}

/// What happened on an intercepted connection.
#[derive(Debug)]
pub enum MitmEvent {
    /// A line was read
    Line(String),
    /// There are no more lines, or reading failed
    End,
    /// The answer to a request was written
    Replied,
}

/// What is to be done on an intercepted connection.
#[derive(Debug)]
pub enum MitmAction {
    /// Read a line
    ReadLine,
    /// Read the body of a request, and answer it
    Exchange(MitmRequest),
    /// Close the connection
    Close,
}

/// A request from an intercepted connection. Its body, of the given length, is still to be read;
/// before that, where the client waits for it, it is told to go on.
#[derive(Debug)]
pub struct MitmRequest {
    pub method: String,
    pub path: String,
    pub headers: Vec<(String, String)>,
    pub expects_continue: bool,
    pub content_length: usize,
}

/// `MitmState` as mathematical values.
pub enum StateView {
    Idle,
    Reading { method: Seq<char>, path: Seq<char>, headers: Seq<Seq<char>> },
    Replying { close: bool },
    Closed,
}

/// `MitmEvent` as mathematical values.
pub enum EventView {
    Line(Seq<char>),
    End,
    Replied,
}

/// `MitmAction` as mathematical values.
pub enum ActionView {
    ReadLine,
    Exchange {
        method: Seq<char>,
        path: Seq<char>,
        headers: Seq<(Seq<char>, Seq<char>)>,
        expects_continue: bool,
        content_length: nat,
    },
    Close,
}

impl View for MitmState {
    type V = StateView;

    open spec fn view(&self) -> StateView {
        match self {
            MitmState::Idle => StateView::Idle,
            MitmState::Reading { method, path, headers } => StateView::Reading {
                method: method@,
                path: path@,
                headers: text::texts(headers@),
            },
            MitmState::Replying { close } => StateView::Replying { close: *close },
            MitmState::Closed => StateView::Closed,
        }
    }
}

impl View for MitmEvent {
    type V = EventView;

    open spec fn view(&self) -> EventView {
        match self {
            MitmEvent::Line(line) => EventView::Line(line@),
            MitmEvent::End => EventView::End,
            MitmEvent::Replied => EventView::Replied,
        }
    }
}

impl View for MitmAction {
    type V = ActionView;

    open spec fn view(&self) -> ActionView {
        match self {
            MitmAction::ReadLine => ActionView::ReadLine,
            MitmAction::Exchange(request) => ActionView::Exchange {
                method: request.method@,
                path: request.path@,
                headers: response::pair_views(request.headers@),
                expects_continue: request.expects_continue,
                content_length: request.content_length as nat,
            },
            MitmAction::Close => ActionView::Close,
        }
    }
}

/// Whether an event can happen: a line, or the end of them, while lines are read, and an answer
/// written while a request is answered.
pub open spec fn can_happen(state: StateView, event: EventView) -> bool {
    match state {
        StateView::Idle | StateView::Reading { .. } => !(event is Replied),
        StateView::Replying { .. } => event is Replied,
        StateView::Closed => false,
    }
}

/// What follows when the header lines of a request are complete.
pub open spec fn after_headers(
    method: Seq<char>,
    path: Seq<char>,
    headers: Seq<Seq<char>>,
) -> (StateView, ActionView) {
    let lower = lowered(headers);
    (
        StateView::Replying { close: any_says(lower, "connection:"@, "close"@) },
        ActionView::Exchange {
            method,
            path,
            headers: all_pairs(headers),
            expects_continue: any_says(lower, "expect:"@, "100-continue"@),
            content_length: body_length(headers, lower),
        },
    )
}

/// What follows an event on an intercepted connection. Blank lines before a request are passed
/// over; a request line has at least three words, and the header lines end with a blank one.
pub open spec fn after_event(state: StateView, event: EventView) -> (StateView, ActionView) {
    match (state, event) {
        (StateView::Idle, EventView::Line(line)) => {
            let words = text::words(line);
            if words.len() == 0 {
                (StateView::Idle, ActionView::ReadLine)
            } else if words.len() < 3 {
                (StateView::Closed, ActionView::Close)
            } else {
                (
                    StateView::Reading {
                        method: words[0],
                        path: words[1],
                        headers: Seq::empty(),
                    },
                    ActionView::ReadLine,
                )
            }
        },
        (StateView::Reading { method, path, headers }, EventView::Line(line)) => {
            let field = text::trimmed(line);
            if field.len() == 0 {
                after_headers(method, path, headers)
            } else {
                (
                    StateView::Reading { method, path, headers: headers.push(field) },
                    ActionView::ReadLine,
                )
            }
        },
        (StateView::Reading { method, path, headers }, EventView::End) => after_headers(
            method,
            path,
            headers,
        ),
        (StateView::Replying { close }, EventView::Replied) => if close {
            (StateView::Closed, ActionView::Close)
        } else {
            (StateView::Idle, ActionView::ReadLine)
        },
        _ => (StateView::Closed, ActionView::Close),
    }
}

/// What follows when the header lines of a request are complete.
fn start_exchange(method: String, path: String, headers: Vec<String>) -> (r: (
    MitmState,
    MitmAction,
))
    ensures
        (r.0@, r.1@) == after_headers(method@, path@, text::texts(headers@)),
{
    let lower = lower_lines(headers.as_slice());
    assert(headers@.len() == text::texts(headers@).len());
    assert(lower@.len() == text::texts(lower@).len());
    let close = some_line_says(lower.as_slice(), "connection:", "close");
    let request = MitmRequest {
        method,
        path,
        headers: header_pairs(headers.as_slice()),
        expects_continue: some_line_says(lower.as_slice(), "expect:", "100-continue"),
        content_length: content_length(headers.as_slice(), lower.as_slice()),
    };
    (MitmState::Replying { close }, MitmAction::Exchange(request))
}

/// What follows an event on an intercepted connection.
pub fn handle_connect_mitm(state: MitmState, event: MitmEvent) -> (r: (MitmState, MitmAction))
    requires
        can_happen(state@, event@),
    ensures
        (r.0@, r.1@) == after_event(state@, event@),
{
    match (state, event) {
        (MitmState::Idle, MitmEvent::Line(line)) => {
            let words = text::split_words(line.as_str());
            assert(words@.len() == text::texts(words@).len());
            if words.len() == 0 {
                (MitmState::Idle, MitmAction::ReadLine)
            } else if words.len() < 3 {
                (MitmState::Closed, MitmAction::Close)
            } else {
                let state = MitmState::Reading {
                    method: words[0].clone(),
                    path: words[1].clone(),
                    headers: Vec::new(),
                };
                assert(text::texts(Seq::<String>::empty()) =~= Seq::<Seq<char>>::empty());
                (state, MitmAction::ReadLine)
            }
        },
        (MitmState::Reading { method, path, headers }, MitmEvent::Line(line)) => {
            let chars = text::chars_of(line.as_str());
            let field = text::trim(chars.as_slice());
            if field.len() == 0 {
                start_exchange(method, path, headers)
            } else {
                let mut headers = headers;
                let ghost before = text::texts(headers@);
                headers.push(text::string_of(field));
                assert(text::texts(headers@) =~= before.push(field@));
                (MitmState::Reading { method, path, headers }, MitmAction::ReadLine)
            }
        },
        (MitmState::Reading { method, path, headers }, MitmEvent::End) => start_exchange(
            method,
            path,
            headers,
        ),
        (MitmState::Replying { close }, MitmEvent::Replied) => if close {
            (MitmState::Closed, MitmAction::Close)
        } else {
            (MitmState::Idle, MitmAction::ReadLine)
        },
        _ => (MitmState::Closed, MitmAction::Close),
    }
}

/// A state in which a line is read next goes with the action to read one, an answer that is owed
/// with the request to answer, and a closed connection with closing it: no request is read before
/// the one before it is answered, and none after the connection is closed.
pub proof fn law_actions_go_with_states(state: StateView, event: EventView)
    requires
        can_happen(state, event),
    ensures
        ({
            let (next, action) = after_event(state, event);
            &&& action is ReadLine <==> next is Idle || next is Reading
            &&& action is Exchange <==> next is Replying
            &&& action is Close <==> next is Closed
        }),
{
}

/// The state after lines are read one by one.
pub open spec fn after_lines(state: StateView, lines: Seq<Seq<char>>) -> StateView
    decreases lines.len(),
{
    if lines.len() == 0 {
        state
    } else {
        after_event(after_lines(state, lines.drop_last()), EventView::Line(lines.last())).0
    }
}

/// The header lines of a request are kept in their order, each without the white space around it,
/// and a blank line after them hands over the request with all of them.
pub proof fn law_request_is_read_whole(
    request_line: Seq<char>,
    lines: Seq<Seq<char>>,
    blank: Seq<char>,
)
    requires
        text::words(request_line).len() >= 3,
        forall|i: int| 0 <= i < lines.len() ==> text::trimmed(#[trigger] lines[i]).len() > 0,
        text::trimmed(blank).len() == 0,
    ensures
        ({
            let words = text::words(request_line);
            let started = after_event(StateView::Idle, EventView::Line(request_line)).0;
            after_event(after_lines(started, lines), EventView::Line(blank)) == after_headers(
                words[0],
                words[1],
                lines.map_values(|line: Seq<char>| text::trimmed(line)),
            )
        }),
{
    let words = text::words(request_line);
    lemma_header_lines_are_kept(words[0], words[1], lines);
}

/// On a connection that stays open, the next request is read like the first: it is handed over
/// whole, with nothing of the request before it.
pub proof fn law_next_request_is_read_whole(
    request_line: Seq<char>,
    lines: Seq<Seq<char>>,
    blank: Seq<char>,
)
    requires
        text::words(request_line).len() >= 3,
        forall|i: int| 0 <= i < lines.len() ==> text::trimmed(#[trigger] lines[i]).len() > 0,
        text::trimmed(blank).len() == 0,
    ensures
        ({
            let words = text::words(request_line);
            let open = after_event(StateView::Replying { close: false }, EventView::Replied).0;
            let started = after_event(open, EventView::Line(request_line)).0;
            after_event(after_lines(started, lines), EventView::Line(blank)) == after_headers(
                words[0],
                words[1],
                lines.map_values(|line: Seq<char>| text::trimmed(line)),
            )
        }),
{
    law_request_is_read_whole(request_line, lines, blank);
}

/// Header lines that are not blank are kept in their order.
proof fn lemma_header_lines_are_kept(
    method: Seq<char>,
    path: Seq<char>,
    lines: Seq<Seq<char>>,
)
    requires
        forall|i: int| 0 <= i < lines.len() ==> text::trimmed(#[trigger] lines[i]).len() > 0,
    ensures
        after_lines(StateView::Reading { method, path, headers: Seq::empty() }, lines) == (
        StateView::Reading {
            method,
            path,
            headers: lines.map_values(|line: Seq<char>| text::trimmed(line)),
        }),
    decreases lines.len(),
{
    let trim = |line: Seq<char>| text::trimmed(line);
    if lines.len() == 0 {
        assert(lines.map_values(trim) =~= Seq::<Seq<char>>::empty());
    } else {
        lemma_header_lines_are_kept(method, path, lines.drop_last());
        assert(lines.drop_last().map_values(trim).push(text::trimmed(lines.last()))
            =~= lines.map_values(trim));
    }
}

// ---------------------------------------------------------------------------
// Writing responses to an intercepted connection
// ---------------------------------------------------------------------------

/// What tells a client that waits for it to send the body of its request.
pub fn continue_reply() -> (r: Vec<u8>)
    ensures
        r@ == encode_utf8("HTTP/1.1 100 Continue\r\n\r\n"@),
{
    "HTTP/1.1 100 Continue\r\n\r\n".as_bytes_vec()
}

/// The line of a header field.
pub open spec fn header_line(header: response::HeaderView) -> Seq<u8> {
    encode_utf8(header.0 + ": "@) + header.1 + encode_utf8("\r\n"@)
}

/// The lines of header fields, in their order.
pub open spec fn header_lines(headers: Seq<response::HeaderView>) -> Seq<u8>
    decreases headers.len(),
{
    if headers.len() == 0 {
        Seq::empty()
    } else {
        header_lines(headers.drop_last()) + header_line(headers.last())
    }
}

/// The header field that announces a body of `n` bytes.
pub open spec fn length_field(n: nat) -> Seq<char> {
    "content-length: "@ + text::decimal(n)
}

/// What is before the body of a response on the wire.
pub open spec fn response_head(reply: response::ResponseView) -> Seq<u8> {
    encode_utf8("HTTP/1.1 "@ + text::decimal(reply.status as nat) + " OK\r\n"@) + header_lines(
        reply.headers,
    ) + encode_utf8(length_field(reply.body.len()) + "\r\n"@) + encode_utf8(
        "connection: keep-alive\r\n\r\n"@,
    )
}

/// A response on the wire.
pub open spec fn encoded_response(reply: response::ResponseView) -> Seq<u8> {
    response_head(reply) + reply.body
}

/// A response on the wire.
pub fn encode_response(reply: &InternalResponse) -> (r: Vec<u8>)
    ensures
        r@ == encoded_response(reply@),
{
    let ghost fields = response::header_views(reply.headers@);
    let status = text::to_decimal(reply.status as u64);
    let mut out = text::concat3("HTTP/1.1 ", status.as_str(), " OK\r\n").as_str().as_bytes_vec();
    let ghost start = out@;
    let mut i: usize = 0;
    assert(header_lines(fields.take(0)) =~= Seq::<u8>::empty());
    while i < reply.headers.len()
        invariant
            i <= reply.headers@.len(),
            fields == response::header_views(reply.headers@),
            out@ == start + header_lines(fields.take(i as int)),
        decreases reply.headers@.len() - i,
    {
        let header = &reply.headers[i];
        let ghost before = out@;
        let mut name = text::concat(header.name.as_str(), ": ").as_str().as_bytes_vec();
        let mut value = vstd::slice::slice_to_vec(header.value.as_slice());
        let mut end = "\r\n".as_bytes_vec();
        out.append(&mut name);
        out.append(&mut value);
        out.append(&mut end);
        proof {
            assert(fields.take(i + 1).drop_last() == fields.take(i as int));
            assert(fields.take(i + 1).last() == header@);
            assert(out@ =~= before + header_line(header@));
            assert(out@ =~= start + header_lines(fields.take(i + 1)));
        }
        i += 1;
    }
    assert(fields.take(i as int) == fields);
    let length = text::to_decimal(reply.body.len() as u64);
    let mut announced = text::concat3("content-length: ", length.as_str(), "\r\n").as_str().as_bytes_vec();
    let mut kept = "connection: keep-alive\r\n\r\n".as_bytes_vec();
    let mut body = vstd::slice::slice_to_vec(reply.body.as_slice());
    out.append(&mut announced);
    out.append(&mut kept);
    out.append(&mut body);
    assert(out@ =~= encoded_response(reply@));
    out
}

/// Who reads the announced length off a response and takes that many bytes behind its head gets
/// its body.
pub proof fn law_announced_length_is_the_bodys(reply: response::ResponseView)
    requires
        reply.body.len() <= usize::MAX,
    ensures
        "content-length:"@.is_prefix_of(length_field(reply.body.len())),
        announced_length(length_field(reply.body.len())) == reply.body.len(),
        encoded_response(reply).subrange(
            response_head(reply).len() as int,
            (response_head(reply).len() + announced_length(length_field(reply.body.len()))) as int,
        ) == reply.body,
{
    let n = reply.body.len();
    let line = length_field(n);
    let name = line.take(14);
    reveal_strlit("content-length: ");
    reveal_strlit("content-length:");
    assert("content-length:"@ =~= line.subrange(0, 15));
    assert forall|i: int| 0 <= i < name.len() implies name[i] != ':' by {
        assert(name[i] == "content-length: "@[i]);
    }
    assert(line =~= name + seq![':'] + (seq![' '] + text::decimal(n)));
    lemma_length_read(name, seq![' '], n);
    assert(encoded_response(reply).subrange(
        response_head(reply).len() as int,
        encoded_response(reply).len() as int,
    ) =~= reply.body);
}

/// The first `c` in `s` is at `i`, where there is none before.
proof fn lemma_index_of_at(s: Seq<char>, c: char, i: int)
    requires
        0 <= i < s.len(),
        s[i] == c,
        forall|j: int| 0 <= j < i ==> s[j] != c,
    ensures
        text::index_of(s, c) == i,
    decreases i,
{
    if i > 0 {
        let rest = s.drop_first();
        assert forall|j: int| 0 <= j < i - 1 implies rest[j] != c by {
            assert(rest[j] == s[j + 1]);
        }
        lemma_index_of_at(rest, c, i - 1);
    }
}

/// Where there is no `c` in `s`, its position is behind the end.
proof fn lemma_index_of_none(s: Seq<char>, c: char)
    requires
        forall|j: int| 0 <= j < s.len() ==> s[j] != c,
    ensures
        text::index_of(s, c) == s.len(),
    decreases s.len(),
{
    if s.len() > 0 {
        let rest = s.drop_first();
        assert forall|j: int| 0 <= j < rest.len() implies rest[j] != c by {
            assert(rest[j] == s[j + 1]);
        }
        lemma_index_of_none(rest, c);
    }
}

/// Whether a header field of a response goes over the wire as it is: all but the one that announces
/// the length of the body, which is written anew.
pub open spec fn is_kept(header: response::HeaderView) -> bool {
    header.0 != "content-length"@
}

/// A response to be written to an intercepted connection, without the field that announces the
/// length of its body.
pub fn without_length(reply: InternalResponse) -> (r: InternalResponse)
    ensures
        r@ == (response::ResponseView {
            headers: reply@.headers.filter(|h: response::HeaderView| is_kept(h)),
            ..reply@
        }),
{
    let ghost all = response::header_views(reply.headers@);
    let ghost given = reply.headers@;
    let ghost keep = |h: response::HeaderView| is_kept(h);
    let mut headers: Vec<Header> = Vec::new();
    assert(response::header_views(headers@) =~= all.take(0).filter(keep)) by {
        reveal(Seq::filter);
    }
    for header in it: reply.headers
        invariant
            it.seq() == given,
            all == response::header_views(given),
            keep == (|h: response::HeaderView| is_kept(h)),
            response::header_views(headers@) == all.take(it.index() as int).filter(keep),
    {
        let ghost n = it.index() as int;
        let ghost before = response::header_views(headers@);
        proof {
            reveal(Seq::filter);
            assert(all.take(n + 1).drop_last() == all.take(n));
            assert(all.take(n + 1).last() == header@);
        }
        if !text::same_text(header.name.as_str(), "content-length") {
            headers.push(header);
            assert(response::header_views(headers@) =~= before.push(header@));
        }
    }
    assert(all.take(all.len() as int) == all);
    InternalResponse { status: reply.status, headers, body: reply.body }
}

/// A response as HTTP has a place for it.
pub fn convert_internal_response(internal: InternalResponse) -> (r: InternalResponse)
    ensures
        r@ == (response::ResponseView {
            status: response::valid_status(internal.status),
            ..internal@
        }),
{
    InternalResponse {
        status: response::checked_status(internal.status),
        headers: internal.headers,
        body: internal.body,
    }
}

// ---------------------------------------------------------------------------
// Forwarding requests for absolute URLs
// ---------------------------------------------------------------------------

/// Whether a header field, by its name in lower case, is for the next hop only, or is set anew
/// with each request.
pub open spec fn hop_by_hop(name: Seq<char>) -> bool {
    ||| name == "host"@
    ||| name == "connection"@
    ||| name == "proxy-connection"@
    ||| name == "proxy-authorization"@
    ||| name == "te"@
    ||| name == "trailer"@
    ||| name == "transfer-encoding"@
    ||| name == "upgrade"@
    ||| name == "expect"@
}

/// Whether a header field, by its name in lower case, is for the next hop only, or is set anew
/// with each request.
pub fn is_hop_by_hop(name: &str) -> (r: bool)
    ensures
        r == hop_by_hop(name@),
{
    text::same_text(name, "host") || text::same_text(name, "connection") || text::same_text(
        name,
        "proxy-connection",
    ) || text::same_text(name, "proxy-authorization") || text::same_text(name, "te")
        || text::same_text(name, "trailer") || text::same_text(name, "transfer-encoding")
        || text::same_text(name, "upgrade") || text::same_text(name, "expect")
}

/// The lower-case forms of the names of header fields.
pub open spec fn lowered_names(headers: Seq<response::HeaderView>) -> Seq<Seq<char>> {
    headers.map_values(|header: response::HeaderView| text::lowercase(header.0))
}

/// The header fields that go on to the upstream: those that are text and are not for the next hop
/// only. Their names in lower case are `lower`.
pub open spec fn forwarded_headers(
    headers: Seq<response::HeaderView>,
    lower: Seq<Seq<char>>,
) -> Seq<(Seq<char>, Seq<char>)>
    decreases headers.len(),
{
    if headers.len() == 0 {
        Seq::empty()
    } else {
        let before = forwarded_headers(headers.drop_last(), lower.drop_last());
        match response::value_text(headers.last().1) {
            Some(value) if !hop_by_hop(lower.last()) => before.push((headers.last().0, value)),
            _ => before,
        }
    }
}

/// The header fields of a request that is handled internally, each as text; a value that is none
/// is left empty.
pub open spec fn internal_headers(headers: Seq<response::HeaderView>) -> Seq<
    (Seq<char>, Seq<char>),
> {
    headers.map_values(
        |header: response::HeaderView|
            (
                header.0,
                match response::value_text(header.1) {
                    Some(value) => value,
                    None => Seq::empty(),
                },
            ),
    )
}

/// The lower-case forms of the names of header fields.
pub fn lower_names(headers: &[Header]) -> (r: Vec<String>)
    ensures
        text::texts(r@) == lowered_names(response::header_views(headers@)),
{
    let mut out: Vec<String> = Vec::new();
    let mut i: usize = 0;
    while i < headers.len()
        invariant
            i <= headers@.len(),
            out@.len() == i,
            forall|j: int|
                0 <= j < i ==> (#[trigger] out@[j])@ == text::lowercase(headers@[j].name@),
        decreases headers@.len() - i,
    {
        out.push(text::to_lowercase(headers[i].name.as_str()));
        i += 1;
    }
    assert(text::texts(out@) =~= lowered_names(response::header_views(headers@)));
    out
}

/// The header fields that go on to the upstream. Their names in lower case are `lower`.
pub fn forward_headers(headers: &[Header], lower: &[String]) -> (r: Vec<(String, String)>)
    requires
        headers@.len() == lower@.len(),
    ensures
        response::pair_views(r@) == forwarded_headers(
            response::header_views(headers@),
            text::texts(lower@),
        ),
{
    let ghost all = response::header_views(headers@);
    let ghost small = text::texts(lower@);
    let mut out: Vec<(String, String)> = Vec::new();
    let mut i: usize = 0;
    assert(response::pair_views(out@) =~= forwarded_headers(all.take(0), small.take(0)));
    while i < headers.len()
        invariant
            i <= headers@.len(),
            headers@.len() == lower@.len(),
            all == response::header_views(headers@),
            small == text::texts(lower@),
            response::pair_views(out@) == forwarded_headers(
                all.take(i as int),
                small.take(i as int),
            ),
        decreases headers@.len() - i,
    {
        let header = &headers[i];
        let ghost before = response::pair_views(out@);
        proof {
            assert(all.take(i + 1).drop_last() == all.take(i as int));
            assert(small.take(i + 1).drop_last() == small.take(i as int));
            assert(all.take(i + 1).last() == header@);
            assert(small.take(i + 1).last() == lower@[i as int]@);
        }
        if !is_hop_by_hop(lower[i].as_str()) {
            if let Some(value) = header.to_text() {
                let ghost pair = (header.name@, value@);
                out.push((header.name.clone(), value));
                assert(response::pair_views(out@) =~= before.push(pair));
            }
        }
        i += 1;
    }
    assert(all.take(i as int) == all && small.take(i as int) == small);
    out
}

/// The header fields of a request that is handled internally.
pub fn to_internal_headers(headers: &[Header]) -> (r: Vec<(String, String)>)
    ensures
        response::pair_views(r@) == internal_headers(response::header_views(headers@)),
{
    let ghost wanted = internal_headers(response::header_views(headers@));
    let mut out: Vec<(String, String)> = Vec::new();
    let mut i: usize = 0;
    while i < headers.len()
        invariant
            i <= headers@.len(),
            wanted == internal_headers(response::header_views(headers@)),
            out@.len() == i,
            forall|j: int|
                0 <= j < i ==> (out@[j].0@, out@[j].1@) == #[trigger] wanted[j],
        decreases headers@.len() - i,
    {
        let value = match headers[i].to_text() {
            Some(value) => value,
            None => String::new(),
        };
        assert(wanted[i as int].1 =~= value@);
        out.push((headers[i].name.clone(), value));
        i += 1;
    }
    assert(response::pair_views(out@) =~= wanted);
    out
}

/// No header field that is for the next hop only goes on to the upstream.
pub proof fn law_hop_by_hop_fields_stay(
    headers: Seq<response::HeaderView>,
    lower: Seq<Seq<char>>,
    field: (Seq<char>, Seq<char>),
)
    requires
        headers.len() == lower.len(),
        forwarded_headers(headers, lower).contains(field),
    ensures
        exists|i: int|
            0 <= i < headers.len() && (#[trigger] headers[i]).0 == field.0 && response::value_text(
                headers[i].1,
            ) == Some(field.1) && !hop_by_hop(lower[i]),
    decreases headers.len(),
{
    let all = forwarded_headers(headers, lower);
    if headers.len() > 0 {
        let before = forwarded_headers(headers.drop_last(), lower.drop_last());
        let last = headers.len() - 1;
        let k = choose|k: int| 0 <= k < all.len() && all[k] == field;
        if before.contains(field) {
            law_hop_by_hop_fields_stay(headers.drop_last(), lower.drop_last(), field);
            let i = choose|i: int|
                0 <= i < headers.len() - 1 && (#[trigger] headers.drop_last()[i]).0 == field.0
                    && response::value_text(headers.drop_last()[i].1) == Some(field.1)
                    && !hop_by_hop(lower.drop_last()[i]);
            assert(headers[i] == headers.drop_last()[i]);
        } else {
            if k < before.len() {
                assert(before[k] == field);
            }
            assert(headers[last].0 == field.0);
        }
    }
}

/// Every other header field that is text goes on to the upstream.
pub proof fn law_other_fields_go_on(
    headers: Seq<response::HeaderView>,
    lower: Seq<Seq<char>>,
    i: int,
)
    requires
        headers.len() == lower.len(),
        0 <= i < headers.len(),
        response::value_text(headers[i].1) is Some,
        !hop_by_hop(lower[i]),
    ensures
        forwarded_headers(headers, lower).contains(
            (headers[i].0, response::value_text(headers[i].1)->0),
        ),
    decreases headers.len(),
{
    let field = (headers[i].0, response::value_text(headers[i].1)->0);
    let all = forwarded_headers(headers, lower);
    let before = forwarded_headers(headers.drop_last(), lower.drop_last());
    if i == headers.len() - 1 {
        assert(all[all.len() - 1] == field);
    } else {
        law_other_fields_go_on(headers.drop_last(), lower.drop_last(), i);
        let k = choose|k: int| 0 <= k < before.len() && before[k] == field;
        assert(all[k] == field);
    }
}

/// The path of a URL with its query.
pub open spec fn full_path(parts: outside::UrlView) -> Seq<char> {
    match parts.query {
        Some(query) => parts.path + ("?"@ + query),
        None => parts.path,
    }
}

/// The path of a URL with its query.
pub fn path_and_query(parts: &UrlParts) -> (r: String)
    ensures
        r@ == full_path(parts@),
{
    match &parts.query {
        Some(query) => {
            let tail = text::concat("?", query.as_str());
            text::concat(parts.path.as_str(), tail.as_str())
        },
        None => parts.path.clone(),
    }
}

/// The body with which a request goes on to the upstream; nothing where requests of that method
/// do not.
pub open spec fn forwarded_body(method: Seq<char>, body: Seq<u8>) -> Option<Option<Seq<u8>>> {
    if method == "GET"@ || method == "DELETE"@ || method == "HEAD"@ {
        Some(None)
    } else if method == "POST"@ || method == "PUT"@ {
        Some(Some(body))
    } else {
        None
    }
}

/// How a request for an absolute URL goes on.
#[derive(Debug)]
pub enum ForwardPlan {
    /// It is answered
    Reply(InternalResponse),
    /// It is handled as one to the registry itself
    Internal { method: String, path: String, headers: Vec<(String, String)>, body: Vec<u8> },
    /// It goes on to the upstream
    Relay(OutboundRequest),
}

/// `ForwardPlan` as mathematical values.
#[verifier::ext_equal]
pub enum ForwardView {
    Reply(response::ResponseView),
    Internal {
        method: Seq<char>,
        path: Seq<char>,
        headers: Seq<(Seq<char>, Seq<char>)>,
        body: Seq<u8>,
    },
    Relay(response::RequestView),
}

impl View for ForwardPlan {
    type V = ForwardView;

    open spec fn view(&self) -> ForwardView {
        match self {
            ForwardPlan::Reply(reply) => ForwardView::Reply(reply@),
            ForwardPlan::Internal { method, path, headers, body } => ForwardView::Internal {
                method: method@,
                path: path@,
                headers: response::pair_views(headers@),
                body: body@,
            },
            ForwardPlan::Relay(request) => ForwardView::Relay(request@),
        }
    }
}

/// Whether a URL, by what it says, is one of the upstream's.
pub open spec fn is_upstream_url(
    parts: Option<outside::UrlView>,
    upstream_hosts: Seq<Seq<char>>,
) -> bool {
    match parts {
        Some(url) => match url.host {
            Some(host) => is_intercepted(host, upstream_hosts),
            None => false,
        },
        None => false,
    }
}

/// How a request for the absolute URL `url` goes on, where the URL says `parts` and the lower-case
/// names of the header fields are `lower`. The body is missing where it could not be read.
pub open spec fn forward_plan(
    method: Seq<char>,
    url: Seq<char>,
    parts: Option<outside::UrlView>,
    headers: Seq<response::HeaderView>,
    lower: Seq<Seq<char>>,
    body: Option<Seq<u8>>,
    upstream_hosts: Seq<Seq<char>>,
) -> ForwardView {
    match body {
        None => ForwardView::Reply(
            response::bare_reply(response::BAD_REQUEST, "Failed to read body"@),
        ),
        Some(bytes) => if is_upstream_url(parts, upstream_hosts) {
            ForwardView::Internal {
                method,
                path: full_path(parts->0),
                headers: internal_headers(headers),
                body: bytes,
            }
        } else {
            match forwarded_body(method, bytes) {
                Some(sent) => ForwardView::Relay(
                    response::RequestView {
                        method,
                        url,
                        headers: forwarded_headers(headers, lower),
                        body: sent,
                    },
                ),
                None => ForwardView::Reply(
                    response::bare_reply(response::METHOD_NOT_ALLOWED, ""@),
                ),
            }
        },
    }
}

/// A request that is not for a host of the upstream is never handled as one to the registry: it
/// goes on with its method and its URL as they are, and with the body that its method has, or is
/// refused for its method.
pub proof fn law_other_traffic_passes_through(
    method: Seq<char>,
    url: Seq<char>,
    parts: Option<outside::UrlView>,
    headers: Seq<response::HeaderView>,
    lower: Seq<Seq<char>>,
    body: Seq<u8>,
    upstream_hosts: Seq<Seq<char>>,
)
    requires
        !is_upstream_url(parts, upstream_hosts),
    ensures
        ({
            let plan = forward_plan(method, url, parts, headers, lower, Some(body), upstream_hosts);
            match plan {
                ForwardView::Relay(request) => {
                    &&& request.method == method
                    &&& request.url == url
                    &&& request.body == if method == "POST"@ || method == "PUT"@ {
                        Some(body)
                    } else {
                        None
                    }
                },
                ForwardView::Reply(reply) => reply.status == response::METHOD_NOT_ALLOWED
                    && forwarded_body(method, body) is None,
                ForwardView::Internal { .. } => false,
            }
        }),
{
    reveal_strlit("GET");
    reveal_strlit("DELETE");
    reveal_strlit("HEAD");
    reveal_strlit("POST");
    reveal_strlit("PUT");
    assert("GET"@[0] != "POST"@[0] && "GET"@[0] != "PUT"@[0]);
    assert("DELETE"@[0] != "POST"@[0] && "DELETE"@[0] != "PUT"@[0]);
    assert("HEAD"@[0] != "POST"@[0] && "HEAD"@[0] != "PUT"@[0]);
}

/// What a URL says, where it is one.
pub open spec fn parts_view(parts: Option<UrlParts>) -> Option<outside::UrlView> {
    match parts {
        Some(url) => Some(url@),
        None => None,
    }
}

/// How a request for an absolute URL goes on, where the URL says `parts` and the lower-case names
/// of the header fields are `lower`.
pub fn plan_forward(
    method: &str,
    url: &str,
    parts: Option<UrlParts>,
    headers: &[Header],
    lower: &[String],
    body: Option<Vec<u8>>,
    upstream_hosts: &[String],
) -> (r: ForwardPlan)
    requires
        headers@.len() == lower@.len(),
    ensures
        r@ == forward_plan(
            method@,
            url@,
            parts_view(parts),
            response::header_views(headers@),
            text::texts(lower@),
            response::body_view(body),
            text::texts(upstream_hosts@),
        ),
{
    let bytes = match body {
        Some(bytes) => bytes,
        None => {
            return ForwardPlan::Reply(
                InternalResponse::bare(response::BAD_REQUEST, "Failed to read body"),
            );
        },
    };
    if let Some(known) = &parts {
        if let Some(host) = &known.host {
            if should_intercept(host.as_str(), upstream_hosts) {
                return ForwardPlan::Internal {
                    method: String::from_str(method),
                    path: path_and_query(known),
                    headers: to_internal_headers(headers),
                    body: bytes,
                };
            }
        }
    }
    let sent = if text::same_text(method, "GET") || text::same_text(method, "DELETE")
        || text::same_text(method, "HEAD") {
        None
    } else if text::same_text(method, "POST") || text::same_text(method, "PUT") {
        Some(bytes)
    } else {
        return ForwardPlan::Reply(InternalResponse::bare(response::METHOD_NOT_ALLOWED, ""));
    };
    ForwardPlan::Relay(
        OutboundRequest {
            method: String::from_str(method),
            url: String::from_str(url),
            headers: forward_headers(headers, lower),
            body: sent,
        },
    )
}

/// How a request for an absolute URL goes on: one for a host of the upstream is handled as one to
/// the registry itself, and every other goes on to where it is for.
pub fn handle_forward_request(
    method: &str,
    url: &str,
    headers: &[Header],
    body: Option<Vec<u8>>,
    upstream_hosts: &[String],
) -> (r: ForwardPlan)
    ensures
        r@ == forward_plan(
            method@,
            url@,
            outside::url_parts(url@),
            response::header_views(headers@),
            lowered_names(response::header_views(headers@)),
            response::body_view(body),
            text::texts(upstream_hosts@),
        ),
{
    let parts = outside::parse_url(url);
    let lower = lower_names(headers);
    assert(lower@.len() == text::texts(lower@).len());
    plan_forward(method, url, parts, headers, lower.as_slice(), body, upstream_hosts)
}

/// The response to a request that went on to the upstream; `Err` where there was no answer.
pub open spec fn forward_answer(answer: Result<UpstreamResponse, String>) -> response::ResponseView {
    match answer {
        Ok(upstream) => match upstream.body {
            Ok(body) => response::ResponseView {
                status: upstream.status,
                headers: response::header_views(upstream.headers@).filter(
                    |h: response::HeaderView| response::is_relayed(h),
                ),
                body: body@,
            },
            Err(_) => response::bare_reply(response::BAD_GATEWAY, ""@),
        },
        Err(_) => response::bare_reply(response::BAD_GATEWAY, ""@),
    }
}

/// The response to a request that went on to the upstream.
pub fn relay_forward_answer(answer: Result<UpstreamResponse, String>) -> (r: InternalResponse)
    ensures
        r@ == forward_answer(answer),
{
    match answer {
        Ok(upstream) => match upstream.body {
            Ok(body) => InternalResponse {
                status: upstream.status,
                headers: response::relay_headers(upstream.headers),
                body,
            },
            Err(_) => InternalResponse::bare(response::BAD_GATEWAY, ""),
        },
        Err(_) => InternalResponse::bare(response::BAD_GATEWAY, ""),
    }
}

// ---------------------------------------------------------------------------
// Laws on who is intercepted
// ---------------------------------------------------------------------------

/// Every host of the upstream is intercepted itself, at whatever place of the list it stands.
pub proof fn law_upstream_hosts_are_intercepted(upstream_hosts: Seq<Seq<char>>, i: int)
    requires
        0 <= i < upstream_hosts.len(),
    ensures
        is_intercepted(upstream_hosts[i], upstream_hosts),
{
    assert(belongs_to(upstream_hosts[i], upstream_hosts[i]));
}

/// A further host of the upstream never makes another one pass through, wherever it is put into the
/// list.
pub proof fn law_more_hosts_intercept_more(
    host: Seq<char>,
    left: Seq<Seq<char>>,
    more: Seq<char>,
    right: Seq<Seq<char>>,
)
    ensures
        is_intercepted(host, left + right) ==> is_intercepted(host, left + seq![more] + right),
        is_intercepted(more, left + seq![more] + right),
{
    let all = left + seq![more] + right;
    let few = left + right;
    if is_intercepted(host, few) {
        let i = choose|i: int| 0 <= i < few.len() && belongs_to(host, #[trigger] few[i]);
        if i < left.len() {
            assert(all[i] == few[i]);
        } else {
            assert(all[i + 1] == few[i]);
        }
    }
    assert(all[left.len() as int] == more);
    law_upstream_hosts_are_intercepted(all, left.len() as int);
}

/// Who is intercepted is a host of the upstream, or has one behind a dot at its end; everyone else
/// passes through.
pub proof fn law_nobody_else_is_intercepted(host: Seq<char>, upstream_hosts: Seq<Seq<char>>)
    ensures
        is_intercepted(host, upstream_hosts) <==> exists|i: int|
            0 <= i < upstream_hosts.len() && (host == #[trigger] upstream_hosts[i] || exists|
                sub: Seq<char>,
            |
                host == #[trigger] (sub + "."@ + upstream_hosts[i])),
        !is_intercepted(host, Seq::empty()),
{
    if is_intercepted(host, upstream_hosts) {
        let i = choose|i: int|
            0 <= i < upstream_hosts.len() && belongs_to(host, #[trigger] upstream_hosts[i]);
        if host != upstream_hosts[i] {
            let suffix = "."@ + upstream_hosts[i];
            let sub = host.take(host.len() - suffix.len());
            assert(suffix =~= host.subrange(host.len() - suffix.len(), host.len() as int));
            assert forall|j: int| 0 <= j < host.len() implies host[j] == (sub + suffix)[j] by {
                if j >= sub.len() {
                    assert(suffix[j - sub.len()] == host.subrange(
                        host.len() - suffix.len(),
                        host.len() as int,
                    )[j - sub.len()]);
                }
            }
            assert(host =~= sub + suffix);
            assert(sub + suffix =~= sub + "."@ + upstream_hosts[i]);
        }
    }
    if exists|i: int|
        0 <= i < upstream_hosts.len() && (host == #[trigger] upstream_hosts[i] || exists|
            sub: Seq<char>,
        |
            host == #[trigger] (sub + "."@ + upstream_hosts[i])) {
        let i = choose|i: int|
            0 <= i < upstream_hosts.len() && (host == #[trigger] upstream_hosts[i] || exists|
                sub: Seq<char>,
            |
                host == #[trigger] (sub + "."@ + upstream_hosts[i]));
        law_upstream_hosts_are_intercepted(upstream_hosts, i);
        if host != upstream_hosts[i] {
            let sub = choose|sub: Seq<char>| host == #[trigger] (sub + "."@ + upstream_hosts[i]);
            law_subdomains_are_intercepted(sub, upstream_hosts[i], upstream_hosts);
        }
    }
}

/// A tunnel leads to the host of the request's URL, on its port or else the default one; without
/// them, to what stands before the last colon of the target, on the port behind it, or else the
/// default one, and to the whole target where it has no colon.
pub proof fn law_tunnels_lead_where_asked(
    host: Seq<char>,
    port: Option<u16>,
    rest: Seq<char>,
    target: Seq<char>,
)
    ensures
        tunnel_end(Some((host, port)), target).0 == host,
        port matches Some(p) ==> tunnel_end(Some((host, port)), target).1 == p,
        port is None ==> tunnel_end(Some((host, port)), target).1 == 443,
        !target.contains(':') ==> tunnel_end(None, target) == (target, 443u16),
        !rest.contains(':') ==> tunnel_end(None, host + seq![':'] + rest).0 == host && tunnel_end(
            None,
            host + seq![':'] + rest,
        ).1 == (match text::number(rest, 65535) {
            Some(n) => n as u16,
            None => 443,
        }),
{
    if !target.contains(':') {
        lemma_no_last_index(target, ':');
    }
    if !rest.contains(':') {
        let all = host + seq![':'] + rest;
        text::law_first_and_last_positions(host, ':', rest);
        assert(all.take(host.len() as int) =~= host);
        assert(all.skip(host.len() as int + 1) =~= rest);
    }
}

/// A character that is not in a text has no last position in it.
proof fn lemma_no_last_index(s: Seq<char>, c: char)
    requires
        !s.contains(c),
    ensures
        text::last_index_of(s, c) is None,
    decreases s.len(),
{
    if s.len() > 0 {
        assert(s.contains(s[s.len() - 1]));
        assert forall|i: int| 0 <= i < s.drop_last().len() implies s.drop_last()[i] != c by {
            assert(s.contains(s[i]));
        }
        lemma_no_last_index(s.drop_last(), c);
    }
}

// ---------------------------------------------------------------------------
// Laws on reading requests
// ---------------------------------------------------------------------------

/// The first two words of a request line are the method and the path.
pub proof fn law_request_lines_are_read(
    method: Seq<char>,
    c: char,
    path: Seq<char>,
    d: char,
    rest: Seq<char>,
)
    requires
        method.len() > 0 && path.len() > 0,
        forall|i: int| 0 <= i < method.len() ==> !text::is_white_space(#[trigger] method[i]),
        forall|i: int| 0 <= i < path.len() ==> !text::is_white_space(#[trigger] path[i]),
        text::is_white_space(c) && text::is_white_space(d),
        text::words(rest).len() > 0,
    ensures
        after_event(
            StateView::Idle,
            EventView::Line(method + seq![c] + (path + seq![d] + rest)),
        ) == (
            StateView::Reading { method, path, headers: Seq::empty() },
            ActionView::ReadLine,
        ),
{
    text::law_words_come_one_by_one(path, d, rest);
    text::law_words_come_one_by_one(method, c, path + seq![d] + rest);
    let words = text::words(method + seq![c] + (path + seq![d] + rest));
    assert(words[0] == method);
    assert(words[1] == path);
}

/// A request line of one or two words closes the connection.
pub proof fn law_short_request_lines_close(method: Seq<char>, c: char, path: Seq<char>)
    requires
        method.len() > 0 && path.len() > 0,
        forall|i: int| 0 <= i < method.len() ==> !text::is_white_space(#[trigger] method[i]),
        forall|i: int| 0 <= i < path.len() ==> !text::is_white_space(#[trigger] path[i]),
        text::is_white_space(c),
    ensures
        after_event(StateView::Idle, EventView::Line(method)) == (
            StateView::Closed,
            ActionView::Close,
        ),
        after_event(StateView::Idle, EventView::Line(method + seq![c] + path)) == (
            StateView::Closed,
            ActionView::Close,
        ),
{
    text::law_words_come_one_by_one(path, c, path);
    text::law_words_come_one_by_one(method, c, path);
}

/// A header line that is not blank is kept behind those before it, without the white space around
/// it.
pub proof fn law_header_lines_are_kept(
    method: Seq<char>,
    path: Seq<char>,
    headers: Seq<Seq<char>>,
    left: Seq<char>,
    field: Seq<char>,
    right: Seq<char>,
)
    requires
        field.len() > 0,
        !text::is_white_space(field[0]) && !text::is_white_space(field.last()),
        forall|i: int| 0 <= i < left.len() ==> text::is_white_space(#[trigger] left[i]),
        forall|i: int| 0 <= i < right.len() ==> text::is_white_space(#[trigger] right[i]),
    ensures
        after_event(
            StateView::Reading { method, path, headers },
            EventView::Line(left + field + right),
        ) == (
            StateView::Reading { method, path, headers: headers.push(field) },
            ActionView::ReadLine,
        ),
{
    text::law_trimmed_is_what_is_between(left, field, right);
}

/// A line of white space is passed over before a request, and ends the header lines of one.
pub proof fn law_blank_lines(
    line: Seq<char>,
    method: Seq<char>,
    path: Seq<char>,
    headers: Seq<Seq<char>>,
)
    requires
        forall|i: int| 0 <= i < line.len() ==> text::is_white_space(#[trigger] line[i]),
    ensures
        after_event(StateView::Idle, EventView::Line(line)) == (
            StateView::Idle,
            ActionView::ReadLine,
        ),
        after_event(StateView::Reading { method, path, headers }, EventView::Line(line))
            == after_headers(method, path, headers),
        after_event(StateView::Reading { method, path, headers }, EventView::End) == after_headers(
            method,
            path,
            headers,
        ),
{
    text::lemma_blank_is_trimmed_away(line);
}

/// A connection that ends before a request is closed, and so is one after an answer where that was
/// asked for; every other one goes on with the next request.
pub proof fn law_connections_stay_open(close: bool)
    ensures
        after_event(StateView::Idle, EventView::End) == (StateView::Closed, ActionView::Close),
        close ==> after_event(StateView::Replying { close }, EventView::Replied) == (
            StateView::Closed,
            ActionView::Close,
        ),
        !close ==> after_event(StateView::Replying { close }, EventView::Replied) == (
            StateView::Idle,
            ActionView::ReadLine,
        ),
{
}

/// A request is handed over with its method and path, with the pairs of its header lines, and with
/// what they say of its end: whether the client waits to be told to go on, and whether the
/// connection is closed behind it.
pub proof fn law_requests_are_handed_over(
    method: Seq<char>,
    path: Seq<char>,
    headers: Seq<Seq<char>>,
)
    ensures
        ({
            let (next, action) = after_headers(method, path, headers);
            &&& action is Exchange
            &&& action->method == method
            &&& action->path == path
            &&& action->headers == all_pairs(headers)
            &&& action->expects_continue <==> exists|i: int|
                0 <= i < headers.len() && "expect:"@.is_prefix_of(
                    text::lowercase(#[trigger] headers[i]),
                ) && text::occurs("100-continue"@, text::lowercase(headers[i]))
            &&& next is Replying
            &&& next->close <==> exists|i: int|
                0 <= i < headers.len() && "connection:"@.is_prefix_of(
                    text::lowercase(#[trigger] headers[i]),
                ) && text::occurs("close"@, text::lowercase(headers[i]))
        }),
{
    lemma_any_line_says(headers, "expect:"@, "100-continue"@);
    lemma_any_line_says(headers, "connection:"@, "close"@);
}

/// Some line says something exactly when its lower-case form begins with the name and has the word
/// in it.
proof fn lemma_any_line_says(headers: Seq<Seq<char>>, name: Seq<char>, word: Seq<char>)
    ensures
        any_says(lowered(headers), name, word) <==> exists|i: int|
            0 <= i < headers.len() && name.is_prefix_of(text::lowercase(#[trigger] headers[i]))
                && text::occurs(word, text::lowercase(headers[i])),
{
    let lower = lowered(headers);
    if any_says(lower, name, word) {
        let i = choose|i: int| 0 <= i < lower.len() && says(#[trigger] lower[i], name, word);
        assert(lower[i] == text::lowercase(headers[i]));
    }
    if exists|i: int|
        0 <= i < headers.len() && name.is_prefix_of(text::lowercase(#[trigger] headers[i]))
            && text::occurs(word, text::lowercase(headers[i])) {
        let i = choose|i: int|
            0 <= i < headers.len() && name.is_prefix_of(text::lowercase(#[trigger] headers[i]))
                && text::occurs(word, text::lowercase(headers[i]));
        assert(lower[i] == text::lowercase(headers[i]));
        assert(says(lower[i], name, word));
    }
}

/// Where a header line announces a body of `n` bytes, and no line before it is about the length,
/// that is the length of the body that is read, whatever the other lines are. The name of the field
/// may be written in any case, with white space before the number.
pub proof fn law_announced_body_is_read(
    method: Seq<char>,
    path: Seq<char>,
    headers: Seq<Seq<char>>,
    i: int,
    name: Seq<char>,
    pad: Seq<char>,
    n: nat,
)
    requires
        0 <= i < headers.len(),
        headers[i] == name + seq![':'] + (pad + text::decimal(n)),
        !name.contains(':'),
        forall|j: int| 0 <= j < pad.len() ==> pad[j] == ' ' || pad[j] == '\t',
        n <= usize::MAX,
        "content-length:"@.is_prefix_of(text::lowercase(headers[i])),
        forall|j: int|
            0 <= j < i ==> !"content-length:"@.is_prefix_of(
                text::lowercase(#[trigger] headers[j]),
            ),
    ensures
        after_headers(method, path, headers).1->content_length == n,
{
    lemma_length_said(headers, i);
    lemma_length_read(name, pad, n);
}

/// Where the number is followed by a colon, what stands behind that does not count.
pub proof fn law_announced_body_ends_at_a_colon(
    method: Seq<char>,
    path: Seq<char>,
    headers: Seq<Seq<char>>,
    i: int,
    name: Seq<char>,
    pad: Seq<char>,
    n: nat,
    rest: Seq<char>,
)
    requires
        0 <= i < headers.len(),
        headers[i] == name + seq![':'] + (pad + text::decimal(n) + seq![':'] + rest),
        !name.contains(':'),
        forall|j: int| 0 <= j < pad.len() ==> pad[j] == ' ' || pad[j] == '\t',
        n <= usize::MAX,
        "content-length:"@.is_prefix_of(text::lowercase(headers[i])),
        forall|j: int|
            0 <= j < i ==> !"content-length:"@.is_prefix_of(
                text::lowercase(#[trigger] headers[j]),
            ),
    ensures
        after_headers(method, path, headers).1->content_length == n,
{
    let value = pad + text::decimal(n);
    let behind = value + seq![':'] + rest;
    lemma_length_said(headers, i);
    lemma_padded_number(pad, n);
    text::law_decimal_reads_back(n, usize::MAX as nat);
    text::law_first_and_last_positions(name, ':', behind);
    assert(headers[i].skip(name.len() as int + 1) =~= behind);
    text::law_first_and_last_positions(value, ':', rest);
    assert(behind.take(value.len() as int) =~= value);
}

/// Where the first header line about the length of the body has no number behind its colon, or one
/// that is too large, there is no body.
pub proof fn law_no_number_no_body(
    method: Seq<char>,
    path: Seq<char>,
    headers: Seq<Seq<char>>,
    i: int,
    name: Seq<char>,
    value: Seq<char>,
)
    requires
        0 <= i < headers.len(),
        headers[i] == name + seq![':'] + value,
        !name.contains(':'),
        !value.contains(':'),
        text::number(text::trimmed(value), usize::MAX as nat) is None,
        "content-length:"@.is_prefix_of(text::lowercase(headers[i])),
        forall|j: int|
            0 <= j < i ==> !"content-length:"@.is_prefix_of(
                text::lowercase(#[trigger] headers[j]),
            ),
    ensures
        after_headers(method, path, headers).1->content_length == 0,
{
    lemma_length_said(headers, i);
    text::law_first_and_last_positions(name, ':', value);
    assert(headers[i].skip(name.len() as int + 1) =~= value);
    assert forall|j: int| 0 <= j < value.len() implies value[j] != ':' by {
        assert(value.contains(value[j]));
    }
    lemma_index_of_none(value, ':');
    assert(value.take(value.len() as int) =~= value);
}

/// The length is what the first line about it announces.
proof fn lemma_length_said(headers: Seq<Seq<char>>, i: int)
    requires
        0 <= i < headers.len(),
        "content-length:"@.is_prefix_of(text::lowercase(headers[i])),
        forall|j: int|
            0 <= j < i ==> !"content-length:"@.is_prefix_of(
                text::lowercase(#[trigger] headers[j]),
            ),
    ensures
        body_length(headers, lowered(headers)) == announced_length(headers[i]),
{
    let lower = lowered(headers);
    assert forall|j: int| 0 <= j < i implies !"content-length:"@.is_prefix_of(
        #[trigger] lower[j],
    ) by {
        assert(lower[j] == text::lowercase(headers[j]));
    }
    assert(lower[i] == text::lowercase(headers[i]));
    lemma_length_at(headers, lower, i);
}

/// Where no header line is about the length of the body, there is none.
pub proof fn law_no_length_no_body(
    method: Seq<char>,
    path: Seq<char>,
    headers: Seq<Seq<char>>,
)
    requires
        forall|j: int|
            0 <= j < headers.len() ==> !"content-length:"@.is_prefix_of(
                text::lowercase(#[trigger] headers[j]),
            ),
    ensures
        after_headers(method, path, headers).1->content_length == 0,
{
    let lower = lowered(headers);
    assert forall|j: int| 0 <= j < lower.len() implies !"content-length:"@.is_prefix_of(
        #[trigger] lower[j],
    ) by {
        assert(lower[j] == text::lowercase(headers[j]));
    }
    lemma_no_length(headers, lower);
}

/// The length is what the first line about it announces.
proof fn lemma_length_at(headers: Seq<Seq<char>>, lower: Seq<Seq<char>>, i: int)
    requires
        headers.len() == lower.len(),
        0 <= i < lower.len(),
        "content-length:"@.is_prefix_of(lower[i]),
        forall|j: int| 0 <= j < i ==> !"content-length:"@.is_prefix_of(#[trigger] lower[j]),
    ensures
        body_length(headers, lower) == announced_length(headers[i]),
    decreases lower.len(),
{
    if i > 0 {
        assert(!"content-length:"@.is_prefix_of(lower[0]));
        let rest = lower.drop_first();
        assert forall|j: int| 0 <= j < i - 1 implies !"content-length:"@.is_prefix_of(
            #[trigger] rest[j],
        ) by {
            assert(rest[j] == lower[j + 1]);
        }
        lemma_length_at(headers.drop_first(), rest, i - 1);
    }
}

/// Without a line about it the length is 0.
proof fn lemma_no_length(headers: Seq<Seq<char>>, lower: Seq<Seq<char>>)
    requires
        headers.len() == lower.len(),
        forall|j: int| 0 <= j < lower.len() ==> !"content-length:"@.is_prefix_of(#[trigger] lower[j]),
    ensures
        body_length(headers, lower) == 0,
    decreases lower.len(),
{
    if lower.len() > 0 {
        assert(!"content-length:"@.is_prefix_of(lower[0]));
        let rest = lower.drop_first();
        assert forall|j: int| 0 <= j < rest.len() implies !"content-length:"@.is_prefix_of(
            #[trigger] rest[j],
        ) by {
            assert(rest[j] == lower[j + 1]);
        }
        lemma_no_length(headers.drop_first(), rest);
    }
}

/// A line with a number behind its colon announces it.
proof fn lemma_length_read(name: Seq<char>, pad: Seq<char>, n: nat)
    requires
        !name.contains(':'),
        forall|j: int| 0 <= j < pad.len() ==> pad[j] == ' ' || pad[j] == '\t',
        n <= usize::MAX,
    ensures
        announced_length(name + seq![':'] + (pad + text::decimal(n))) == n,
{
    let value = pad + text::decimal(n);
    let line = name + seq![':'] + value;
    lemma_padded_number(pad, n);
    text::law_decimal_reads_back(n, usize::MAX as nat);
    assert forall|j: int| 0 <= j < name.len() implies line[j] != ':' by {
        assert(name.contains(name[j]));
    }
    lemma_index_of_at(line, ':', name.len() as int);
    assert(line.skip(name.len() as int + 1) =~= value);
    lemma_index_of_none(value, ':');
    assert(value.take(value.len() as int) =~= value);
    assert(value_part(line) == Some(value));
}

/// White space before a number is trimmed away, and neither has a colon in it.
proof fn lemma_padded_number(pad: Seq<char>, n: nat)
    requires
        forall|j: int| 0 <= j < pad.len() ==> pad[j] == ' ' || pad[j] == '\t',
    ensures
        text::trimmed(pad + text::decimal(n)) == text::decimal(n),
        forall|j: int|
            0 <= j < (pad + text::decimal(n)).len() ==> (pad + text::decimal(n))[j] != ':',
{
    let digits = text::decimal(n);
    let value = pad + digits;
    text::lemma_decimal(n);
    assert forall|j: int| 0 <= j < value.len() implies value[j] != ':' by {
        if j >= pad.len() {
            assert(text::is_digit(digits[j - pad.len()]));
        }
    }
    assert(text::is_digit(digits[0]));
    assert(text::is_digit(digits[digits.len() - 1]));
    text::law_trimmed_is_what_is_between(pad, digits, Seq::empty());
    assert(pad + digits + Seq::<char>::empty() =~= value);
}

/// A header line with a colon is a field: its name stands before the first colon and its value
/// behind it, both without the white space around them, in the place of the line. A line without
/// one is none.
pub proof fn law_header_lines_are_fields(
    headers: Seq<Seq<char>>,
    name: Seq<char>,
    value: Seq<char>,
    line: Seq<char>,
)
    requires
        !name.contains(':'),
        !line.contains(':'),
    ensures
        all_pairs(Seq::empty()) == Seq::<(Seq<char>, Seq<char>)>::empty(),
        all_pairs(headers.push(name + seq![':'] + value)) == all_pairs(headers).push(
            (text::trimmed(name), text::trimmed(value)),
        ),
        all_pairs(headers.push(line)) == all_pairs(headers),
{
    let field = name + seq![':'] + value;
    text::law_first_and_last_positions(name, ':', value);
    assert(field.take(name.len() as int) =~= name);
    assert(field.skip(name.len() as int + 1) =~= value);
    assert(headers.push(field).drop_last() =~= headers);
    assert(headers.push(line).drop_last() =~= headers);
    assert forall|j: int| 0 <= j < line.len() implies line[j] != ':' by {
        assert(line.contains(line[j]));
    }
    lemma_index_of_none(line, ':');
}

/// A response on the wire is its status line, its header fields one line each in their order, the
/// length of its body, that the connection is kept, and its body.
pub proof fn law_responses_go_out_whole(
    status: u16,
    headers: Seq<response::HeaderView>,
    last: response::HeaderView,
    body: Seq<u8>,
)
    ensures
        header_lines(Seq::empty()) == Seq::<u8>::empty(),
        header_lines(headers.push(last)) == header_lines(headers) + (encode_utf8(last.0 + ": "@)
            + last.1 + encode_utf8("\r\n"@)),
        encoded_response(response::ResponseView { status, headers, body }) == encode_utf8(
            "HTTP/1.1 "@ + text::decimal(status as nat) + " OK\r\n"@,
        ) + header_lines(headers) + encode_utf8(
            "content-length: "@ + text::decimal(body.len()) + "\r\n"@,
        ) + encode_utf8("connection: keep-alive\r\n\r\n"@) + body,
{
    assert(headers.push(last).drop_last() =~= headers);
}

// ---------------------------------------------------------------------------
// Laws on forwarding
// ---------------------------------------------------------------------------

/// The header fields that are for the next hop only, by their names.
pub proof fn law_hop_by_hop_names(name: Seq<char>)
    ensures
        hop_by_hop(name) <==> seq![
            "host"@,
            "connection"@,
            "proxy-connection"@,
            "proxy-authorization"@,
            "te"@,
            "trailer"@,
            "transfer-encoding"@,
            "upgrade"@,
            "expect"@,
        ].contains(name),
{
    let names = seq![
        "host"@,
        "connection"@,
        "proxy-connection"@,
        "proxy-authorization"@,
        "te"@,
        "trailer"@,
        "transfer-encoding"@,
        "upgrade"@,
        "expect"@,
    ];
    assert(names[0] == "host"@ && names[1] == "connection"@ && names[2] == "proxy-connection"@);
    assert(names[3] == "proxy-authorization"@ && names[4] == "te"@ && names[5] == "trailer"@);
    assert(names[6] == "transfer-encoding"@ && names[7] == "upgrade"@ && names[8] == "expect"@);
}

/// A request for a host of the upstream, or one of its subdomains, is handled as one to the registry
/// itself, whatever its method: with its path and query, its body, and each of its header fields in
/// its place.
pub proof fn law_upstream_requests_are_handled_here(
    method: Seq<char>,
    url: Seq<char>,
    parts: outside::UrlView,
    headers: Seq<response::HeaderView>,
    lower: Seq<Seq<char>>,
    body: Seq<u8>,
    upstream_hosts: Seq<Seq<char>>,
    i: int,
    k: int,
)
    requires
        0 <= i < upstream_hosts.len(),
        parts.host is Some,
        parts.host->0 == upstream_hosts[i] || exists|sub: Seq<char>|
            parts.host->0 == #[trigger] (sub + "."@ + upstream_hosts[i]),
    ensures
        ({
            let plan = forward_plan(
                method,
                url,
                Some(parts),
                headers,
                lower,
                Some(body),
                upstream_hosts,
            );
            &&& plan is Internal
            &&& plan->Internal_method == method
            &&& plan->Internal_body == body
            &&& parts.query is None ==> plan->Internal_path == parts.path
            &&& parts.query matches Some(query) ==> plan->Internal_path == parts.path + "?"@ + query
            &&& plan->Internal_headers.len() == headers.len()
            &&& 0 <= k < headers.len() ==> plan->Internal_headers[k].0 == headers[k].0 && (
            match response::value_text(headers[k].1) {
                Some(said) => plan->Internal_headers[k].1 == said,
                None => plan->Internal_headers[k].1.len() == 0,
            })
        }),
{
    law_nobody_else_is_intercepted(parts.host->0, upstream_hosts);
    assert(upstream_hosts[i] == upstream_hosts[i]);
    if let Some(query) = parts.query {
        assert(parts.path + ("?"@ + query) =~= parts.path + "?"@ + query);
    }
}

/// A request is handled here only where its URL has a host, and that is one of the upstream's or of
/// its subdomains; where its body could not be read, it is refused.
pub proof fn law_only_upstream_requests_are_handled_here(
    method: Seq<char>,
    url: Seq<char>,
    parts: Option<outside::UrlView>,
    headers: Seq<response::HeaderView>,
    lower: Seq<Seq<char>>,
    body: Option<Seq<u8>>,
    upstream_hosts: Seq<Seq<char>>,
)
    ensures
        ({
            let plan = forward_plan(method, url, parts, headers, lower, body, upstream_hosts);
            &&& plan is Internal ==> parts is Some && parts->0.host is Some && body is Some
                && is_intercepted(parts->0.host->0, upstream_hosts)
            &&& body is None ==> plan is Reply && plan->Reply_0.status == 400
            &&& plan is Reply && body is Some ==> plan->Reply_0.status == 405 && !(method == "GET"@
                || method == "DELETE"@ || method == "HEAD"@ || method == "POST"@ || method
                == "PUT"@)
            &&& plan is Relay ==> method == "GET"@ || method == "DELETE"@ || method == "HEAD"@
                || method == "POST"@ || method == "PUT"@
            &&& plan matches ForwardView::Relay(request) ==> request.headers == forwarded_headers(
                headers,
                lower,
            )
        }),
{
}

/// The answer to a forwarded request comes back as it is, without the fields that belong to the
/// connection; where there is none, or its body did not arrive, it is a bad gateway.
pub proof fn law_forwarded_answers_come_back(answer: Result<UpstreamResponse, String>)
    ensures
        answer matches Ok(upstream) ==> {
            &&& upstream.body matches Ok(body) ==> forward_answer(answer).status == upstream.status
                && forward_answer(answer).body == body@ && forward_answer(answer).headers
                == response::header_views(upstream.headers@).filter(
                |h: response::HeaderView| h.0 != "transfer-encoding"@ && h.0 != "connection"@,
            )
            &&& upstream.body is Err ==> forward_answer(answer).status == 502
        },
        answer is Err ==> forward_answer(answer).status == 502,
{
    assert((|h: response::HeaderView| response::is_relayed(h)) =~= (|h: response::HeaderView|
        h.0 != "transfer-encoding"@ && h.0 != "connection"@));
}

/// Header fields go on to the upstream in their order, one by one: a field goes on with its name
/// and its text, unless its value is no text or its lower-case name is one for the next hop only.
pub proof fn law_fields_go_on_in_order(
    headers: Seq<response::HeaderView>,
    lower: Seq<Seq<char>>,
    last: response::HeaderView,
    name: Seq<char>,
)
    ensures
        forwarded_headers(Seq::empty(), Seq::empty()) == Seq::<(Seq<char>, Seq<char>)>::empty(),
        hop_by_hop(name) || response::value_text(last.1) is None ==> forwarded_headers(
            headers.push(last),
            lower.push(name),
        ) == forwarded_headers(headers, lower),
        !hop_by_hop(name) ==> (response::value_text(last.1) matches Some(said)
            ==> forwarded_headers(headers.push(last), lower.push(name)) == forwarded_headers(
            headers,
            lower,
        ).push((last.0, said))),
        lowered_names(headers.push(last)) == lowered_names(headers).push(text::lowercase(last.0)),
{
    assert(headers.push(last).drop_last() =~= headers);
    assert(lower.push(name).drop_last() =~= lower);
    assert(lowered_names(headers.push(last)) =~= lowered_names(headers).push(
        text::lowercase(last.0),
    ));
}

/// All fields of a response go over the wire but the one that announces the length of its body.
pub proof fn law_length_is_written_anew(header: response::HeaderView)
    ensures
        is_kept(header) <==> header.0 != "content-length"@,
{
}

/// Lines come, or the connection ends, while a request is read; an answer is given while one is
/// awaited; and nothing comes once the connection is closed.
pub proof fn law_what_can_happen(
    line: Seq<char>,
    method: Seq<char>,
    path: Seq<char>,
    headers: Seq<Seq<char>>,
    close: bool,
    event: EventView,
)
    ensures
        can_happen(StateView::Idle, EventView::Line(line)),
        can_happen(StateView::Idle, EventView::End),
        can_happen(StateView::Reading { method, path, headers }, EventView::Line(line)),
        can_happen(StateView::Reading { method, path, headers }, EventView::End),
        can_happen(StateView::Replying { close }, EventView::Replied),
        can_happen(StateView::Replying { close }, event) ==> event is Replied,
        !can_happen(StateView::Closed, event),
{
}

/// The requests that the proxy layer takes are those that it does not refuse: a request to connect
/// opens a tunnel, and one for an absolute URL is forwarded.
pub proof fn law_proxy_requests_are_routed(
    method: &str,
    has_scheme: bool,
    taken: bool,
    route: ProxyRoute,
)
    requires
        call_ensures(is_proxy_request, (method, has_scheme), taken),
        call_ensures(handle_proxy_request, (method, has_scheme), route),
    ensures
        taken <==> !(route is Reject),
        method@ == "CONNECT"@ ==> route is Connect,
        method@ != "CONNECT"@ && has_scheme ==> route is Forward,
        method@ != "CONNECT"@ && !has_scheme ==> route is Reject,
{
}

/// A response on its way to an intercepted connection keeps its status, its body and all its fields
/// in their order, but for the one that announces the length of the body.
pub proof fn law_responses_keep_all_but_the_length(reply: InternalResponse, sent: InternalResponse)
    requires
        call_ensures(without_length, (reply,), sent),
    ensures
        sent@.status == reply@.status,
        sent@.body == reply@.body,
        sent@.headers == reply@.headers.filter(
            |h: response::HeaderView| h.0 != "content-length"@,
        ),
{
    assert((|h: response::HeaderView| is_kept(h)) =~= (|h: response::HeaderView|
        h.0 != "content-length"@));
}

/// A response goes out with its fields and its body as they are, and with its status where HTTP has
/// a place for it.
pub proof fn law_responses_go_out_as_they_are(reply: InternalResponse, sent: InternalResponse)
    requires
        call_ensures(convert_internal_response, (reply,), sent),
    ensures
        100 <= reply@.status <= 999 ==> sent@.status == reply@.status,
        !(100 <= reply@.status <= 999) ==> sent@.status == 500,
        sent@.headers == reply@.headers,
        sent@.body == reply@.body,
{
}

/// A tunnel leads to the host and the port that are asked for, and is intercepted where that host is
/// one of the upstream's; where it is not, nor a subdomain of one, it passes through.
pub proof fn law_tunnels_to_the_upstream_are_intercepted(
    authority: Option<(String, Option<u16>)>,
    target: &str,
    upstream_hosts: &[String],
    plan: ConnectPlan,
    i: int,
)
    requires
        call_ensures(handle_connect, (authority, target, upstream_hosts), plan),
    ensures
        authority matches Some((host, Some(port))) ==> plan.host@ == host@ && plan.port == port,
        authority matches Some((host, None)) ==> plan.host@ == host@ && plan.port == 443,
        0 <= i < upstream_hosts@.len() && plan.host@ == upstream_hosts@[i]@ ==> plan.intercept,
        upstream_hosts@.len() == 0 ==> !plan.intercept,
{
    let hosts = text::texts(upstream_hosts@);
    assert(hosts.len() == upstream_hosts@.len());
    if 0 <= i < upstream_hosts@.len() {
        assert(hosts[i] == upstream_hosts@[i]@);
        law_upstream_hosts_are_intercepted(hosts, i);
    }
}

/// Every host of a list is intercepted by it, and so is every one of its subdomains.
pub proof fn law_listed_hosts_are_intercepted(
    host: &str,
    upstream_hosts: &[String],
    r: bool,
    i: int,
    sub: Seq<char>,
)
    requires
        call_ensures(should_intercept, (host, upstream_hosts), r),
        0 <= i < upstream_hosts@.len(),
        host@ == upstream_hosts@[i]@ || host@ == sub + "."@ + upstream_hosts@[i]@,
    ensures
        r,
{
    let hosts = text::texts(upstream_hosts@);
    assert(hosts[i] == upstream_hosts@[i]@);
    law_nobody_else_is_intercepted(host@, hosts);
}

} // verus!
