use cargo_overlay_registry::http_proxy::{
    connect_target, content_length, continue_reply, convert_internal_response, encode_response,
    forward_headers, handle_connect, handle_connect_mitm, handle_connect_passthrough,
    handle_forward_request, handle_proxy_request, header_pairs, is_hop_by_hop, is_proxy_request,
    lower_lines, parse_announced_length, relay_forward_answer, should_intercept, some_line_says,
    without_length,
    ForwardPlan, MitmAction, MitmEvent, MitmState, ProxyRoute,
};
use cargo_overlay_registry::response::{Header, InternalResponse, UpstreamResponse};

fn strings(texts: &[&str]) -> Vec<String> {
    texts.iter().map(|s| s.to_string()).collect()
}

fn hosts() -> Vec<String> {
    strings(&["index.crates.io", "crates.io"])
}

#[test]
fn proxy_requests_are_told_apart() {
    assert!(is_proxy_request("CONNECT", false));
    assert!(is_proxy_request("GET", true));
    assert!(!is_proxy_request("GET", false));
    assert!(matches!(handle_proxy_request("CONNECT", true), ProxyRoute::Connect));
    assert!(matches!(handle_proxy_request("GET", true), ProxyRoute::Forward));
    match handle_proxy_request("GET", false) {
        ProxyRoute::Reject(reply) => {
            assert_eq!(reply.status, 400);
            assert_eq!(reply.body, b"Invalid proxy request");
            assert!(reply.headers.is_empty());
        }
        _ => panic!("not rejected"),
    }
}

#[test]
fn hosts_of_the_upstream_are_intercepted() {
    assert!(should_intercept("crates.io", &hosts()));
    assert!(should_intercept("static.crates.io", &hosts()));
    assert!(should_intercept("a.b.crates.io", &hosts()));
    assert!(!should_intercept("notcrates.io", &hosts()));
    assert!(!should_intercept("crates.io.example.com", &hosts()));
    assert!(!should_intercept("crates.io", &[]));
}

#[test]
fn tunnels_lead_to_their_target() {
    assert_eq!(connect_target(None, "crates.io:8443"), ("crates.io".to_string(), 8443));
    assert_eq!(connect_target(None, "crates.io"), ("crates.io".to_string(), 443));
    assert_eq!(connect_target(None, "crates.io:x"), ("crates.io".to_string(), 443));
    assert_eq!(connect_target(None, "crates.io:65536"), ("crates.io".to_string(), 443));
    assert_eq!(connect_target(None, "::1:65535"), ("::1".to_string(), 65535));
    let authority = Some(("a".to_string(), Some(1)));
    assert_eq!(connect_target(authority, "b:2"), ("a".to_string(), 1));
    let authority = Some(("a".to_string(), None));
    assert_eq!(connect_target(authority, "b:2"), ("a".to_string(), 443));
    for port in [0, 80, 65535] {
        let target = handle_connect_passthrough("a.b", port);
        assert_eq!(connect_target(None, &target), ("a.b".to_string(), port));
    }
    let plan = handle_connect(None, "static.crates.io:443", &hosts());
    assert_eq!((plan.host.as_str(), plan.port, plan.intercept), ("static.crates.io", 443, true));
    let plan = handle_connect(None, "example.com:80", &hosts());
    assert_eq!((plan.host.as_str(), plan.port, plan.intercept), ("example.com", 80, false));
}

#[test]
fn header_lines_are_read() {
    let lines = strings(&["Content-Length: 12", "EXPECT: 100-Continue", "odd", "A : b:c "]);
    let lower = lower_lines(&lines);
    assert_eq!(lower[0], "content-length: 12");
    assert_eq!(lower[1], "expect: 100-continue");
    assert!(some_line_says(&lower, "expect:", "100-continue"));
    assert!(!some_line_says(&lower, "connection:", "close"));
    assert_eq!(content_length(&lines, &lower), 12);
    assert_eq!(
        header_pairs(&lines),
        vec![
            ("Content-Length".to_string(), "12".to_string()),
            ("EXPECT".to_string(), "100-Continue".to_string()),
            ("A".to_string(), "b:c".to_string()),
        ]
    );
    assert_eq!(parse_announced_length("content-length: 12"), 12);
    assert_eq!(parse_announced_length("content-length:+7:8"), 7);
    assert_eq!(parse_announced_length("content-length: -1"), 0);
    assert_eq!(parse_announced_length("content-length: 18446744073709551616"), 0);
    assert_eq!(parse_announced_length("content-length"), 0);
    let two = strings(&["content-length: x", "content-length: 5"]);
    assert_eq!(content_length(&two, &lower_lines(&two)), 0);
}

fn run(lines: &[&str]) -> (MitmState, MitmAction) {
    let mut state = MitmState::Idle;
    let mut action = MitmAction::ReadLine;
    for line in lines {
        assert!(matches!(action, MitmAction::ReadLine));
        (state, action) = handle_connect_mitm(state, MitmEvent::Line(line.to_string()));
    }
    (state, action)
}

#[test]
fn requests_are_read_line_by_line() {
    let (state, action) = run(&[
        "\r\n",
        "PUT /api/v1/crates/new HTTP/1.1\r\n",
        "Host: crates.io\r\n",
        "Expect: 100-continue\r\n",
        "Content-Length: 5\r\n",
        "\r\n",
    ]);
    match action {
        MitmAction::Exchange(request) => {
            assert_eq!(request.method, "PUT");
            assert_eq!(request.path, "/api/v1/crates/new");
            assert_eq!(request.headers.len(), 3);
            assert_eq!(request.headers[0], ("Host".to_string(), "crates.io".to_string()));
            assert!(request.expects_continue);
            assert_eq!(request.content_length, 5);
        }
        _ => panic!("no request"),
    }
    let (state, action) = handle_connect_mitm(state, MitmEvent::Replied);
    assert!(matches!(state, MitmState::Idle));
    assert!(matches!(action, MitmAction::ReadLine));
}

#[test]
fn connections_are_closed_on_request() {
    let (state, action) = run(&["GET / HTTP/1.1\r\n", "connection: Close\r\n", "\n"]);
    assert!(matches!(action, MitmAction::Exchange(_)));
    let (state, action) = handle_connect_mitm(state, MitmEvent::Replied);
    assert!(matches!(state, MitmState::Closed));
    assert!(matches!(action, MitmAction::Close));
}

#[test]
fn connections_end_without_a_request() {
    let (state, action) = handle_connect_mitm(MitmState::Idle, MitmEvent::End);
    assert!(matches!(state, MitmState::Closed));
    assert!(matches!(action, MitmAction::Close));
    let (_, action) = run(&["GET /\r\n"]);
    assert!(matches!(action, MitmAction::Close));
}

#[test]
fn requests_end_with_the_connection() {
    let (state, _) = run(&["GET /config.json HTTP/1.1\r\n", "a: b\r\n"]);
    let (state, action) = handle_connect_mitm(state, MitmEvent::End);
    assert!(matches!(state, MitmState::Replying { close: false }));
    match action {
        MitmAction::Exchange(request) => {
            assert_eq!(request.headers, vec![("a".to_string(), "b".to_string())]);
            assert_eq!(request.content_length, 0);
            assert!(!request.expects_continue);
        }
        _ => panic!("no request"),
    }
}

#[test]
fn responses_go_over_the_wire() {
    let reply = InternalResponse {
        status: 404,
        headers: vec![Header::new("content-type", "text/plain"), Header::new("a", "b")],
        body: b"Not found".to_vec(),
    };
    let wire = encode_response(&reply);
    assert_eq!(
        String::from_utf8(wire).unwrap(),
        "HTTP/1.1 404 OK\r\ncontent-type: text/plain\r\na: b\r\ncontent-length: 9\r\n\
         connection: keep-alive\r\n\r\nNot found"
    );
    assert_eq!(continue_reply(), b"HTTP/1.1 100 Continue\r\n\r\n");
}

#[test]
fn lengths_are_announced_once() {
    let reply = without_length(InternalResponse {
        status: 200,
        headers: vec![
            Header::new("a", "b"),
            Header::new("content-length", "7"),
            Header::new("c", "d"),
        ],
        body: b"Not found".to_vec(),
    });
    assert_eq!(reply.headers.len(), 2);
    let wire = String::from_utf8(encode_response(&reply)).unwrap();
    assert_eq!(wire.matches("content-length").count(), 1);
    assert!(wire.contains("content-length: 9\r\n"));
}

#[test]
fn requests_follow_each_other() {
    let (state, _) = run(&["GET /a HTTP/1.1\r\n", "x: y\r\n", "\r\n"]);
    let (mut state, mut action) = handle_connect_mitm(state, MitmEvent::Replied);
    for line in ["GET /b HTTP/1.1\r\n", "\r\n"] {
        assert!(matches!(action, MitmAction::ReadLine));
        (state, action) = handle_connect_mitm(state, MitmEvent::Line(line.to_string()));
    }
    assert!(matches!(state, MitmState::Replying { close: false }));
    match action {
        MitmAction::Exchange(request) => {
            assert_eq!(request.path, "/b");
            assert!(request.headers.is_empty());
        }
        _ => panic!("no request"),
    }
}

#[test]
fn announced_lengths_read_back() {
    for length in [0, 9, 10, 12345] {
        let reply = InternalResponse { status: 200, headers: vec![], body: vec![b'x'; length] };
        let wire = String::from_utf8(encode_response(&reply)).unwrap();
        let (head, body) = wire.split_once("\r\n\r\n").unwrap();
        let field = head.lines().find(|l| l.starts_with("content-length:")).unwrap();
        assert_eq!(parse_announced_length(field), length);
        assert_eq!(body.len(), length);
    }
}

#[test]
fn statuses_without_a_place_are_errors() {
    let reply = |status| {
        convert_internal_response(InternalResponse {
            status,
            headers: vec![Header::new("a", "b")],
            body: vec![1],
        })
    };
    assert_eq!(reply(204).status, 204);
    assert_eq!(reply(0).status, 500);
    assert_eq!(reply(0).headers[0].name, "a");
    assert_eq!(reply(0).body, vec![1]);
}

#[test]
fn requests_for_the_upstream_are_handled_internally() {
    let headers = vec![
        Header::new("host", "crates.io"),
        Header { name: "odd".to_string(), value: vec![0xff] },
    ];
    let plan = handle_forward_request(
        "GET",
        "http://Static.Crates.IO:80/a/../b?x=1#f",
        &headers,
        Some(vec![7]),
        &hosts(),
    );
    match plan {
        ForwardPlan::Internal { method, path, headers, body } => {
            assert_eq!(method, "GET");
            assert_eq!(path, "/b?x=1");
            assert_eq!(
                headers,
                vec![
                    ("host".to_string(), "crates.io".to_string()),
                    ("odd".to_string(), String::new()),
                ]
            );
            assert_eq!(body, vec![7]);
        }
        _ => panic!("not internal"),
    }
}

#[test]
fn other_requests_go_on() {
    let headers = vec![
        Header::new("Host", "example.com"),
        Header::new("accept", "x"),
        Header::new("Proxy-Authorization", "x"),
        Header::new("TE", "x"),
        Header { name: "odd".to_string(), value: vec![0xff] },
    ];
    for (method, sent) in [
        ("GET", None),
        ("DELETE", None),
        ("HEAD", None),
        ("POST", Some(vec![7])),
        ("PUT", Some(vec![7])),
    ] {
        match handle_forward_request(method, "http://example.com/", &headers, Some(vec![7]), &hosts())
        {
            ForwardPlan::Relay(request) => {
                assert_eq!(request.method, method);
                assert_eq!(request.url, "http://example.com/");
                assert_eq!(request.headers, vec![("accept".to_string(), "x".to_string())]);
                assert_eq!(request.body, sent);
            }
            _ => panic!("not relayed"),
        }
    }
}

#[test]
fn some_requests_are_refused() {
    match handle_forward_request("PATCH", "http://example.com/", &[], Some(vec![]), &hosts()) {
        ForwardPlan::Reply(reply) => {
            assert_eq!(reply.status, 405);
            assert!(reply.body.is_empty() && reply.headers.is_empty());
        }
        _ => panic!("not refused"),
    }
    match handle_forward_request("GET", "http://crates.io/", &[], None, &hosts()) {
        ForwardPlan::Reply(reply) => {
            assert_eq!(reply.status, 400);
            assert_eq!(reply.body, b"Failed to read body");
        }
        _ => panic!("not refused"),
    }
    assert!(matches!(
        handle_forward_request("PATCH", "http://crates.io/", &[], Some(vec![]), &hosts()),
        ForwardPlan::Internal { .. }
    ));
    assert!(matches!(
        handle_forward_request("GET", "no url", &[], Some(vec![]), &hosts()),
        ForwardPlan::Relay(_)
    ));
}

#[test]
fn hop_by_hop_fields_stay_behind() {
    for name in [
        "host",
        "connection",
        "proxy-connection",
        "proxy-authorization",
        "te",
        "trailer",
        "transfer-encoding",
        "upgrade",
        "expect",
    ] {
        assert!(is_hop_by_hop(name));
        let headers = [Header::new(name, "x")];
        assert!(forward_headers(&headers, &strings(&[name])).is_empty());
    }
    assert!(!is_hop_by_hop("accept"));
}

#[test]
fn answers_to_forwarded_requests_come_back() {
    let reply = relay_forward_answer(Ok(UpstreamResponse {
        status: 302,
        headers: vec![Header::new("location", "x"), Header::new("connection", "close")],
        body: Ok(vec![1]),
    }));
    assert_eq!(reply.status, 302);
    assert_eq!(reply.headers.len(), 1);
    assert_eq!(reply.body, vec![1]);
    let reply = relay_forward_answer(Err("refused".to_string()));
    assert_eq!(reply.status, 502);
    assert!(reply.body.is_empty());
    let reply = relay_forward_answer(Ok(UpstreamResponse {
        status: 200,
        headers: vec![],
        body: Err("cut".to_string()),
    }));
    assert_eq!(reply.status, 502);
    assert!(reply.body.is_empty() && reply.headers.is_empty());
}
