use cargo_overlay_registry::endpoints;
use cargo_overlay_registry::registry::index::{
    drop_version, merge_index, read_lines, render_lines, update_index, IndexLine,
};
use cargo_overlay_registry::registry::local::{handle_api_download, DownloadStep};
use cargo_overlay_registry::registry::overlay::{entry_lines, stack_lines, top_file};
use cargo_overlay_registry::registry::proxy::{
    handle_api_search, handle_index_1char, handle_index_2char, handle_index_3char,
    handle_index_4plus, index_reply, index_request, local_index_file, proxy_api_request,
};
use cargo_overlay_registry::registry::publish::index_components;
use cargo_overlay_registry::registry::RegistryError;
use cargo_overlay_registry::response::{
    checked_status, first_header, relay_response, Header, InternalResponse, UpstreamResponse,
};
use cargo_overlay_registry::types::IndexEntry;
use std::collections::HashMap;

fn entry(vers: &str) -> IndexEntry {
    IndexEntry {
        name: "a".to_string(),
        vers: vers.to_string(),
        deps: vec![],
        cksum: "00".to_string(),
        features: HashMap::new(),
        yanked: false,
        links: None,
        rust_version: None,
    }
}

fn version_of(line: &str) -> Option<String> {
    serde_json::from_str::<serde_json::Value>(line)
        .ok()
        .and_then(|value| value["vers"].as_str().map(|s| s.to_string()))
}

fn line(vers: &str, mark: &str) -> String {
    format!("{{\"vers\":\"{}\",\"mark\":\"{}\"}}", vers, mark)
}

fn lines(texts: &[String]) -> Vec<IndexLine> {
    read_lines(Some(&(texts.join("\n") + "\n")), version_of)
}

fn header(name: &str, value: &str) -> Header {
    Header::new(name, value)
}

fn found(status: u16, body: &str) -> Result<UpstreamResponse, String> {
    Ok(UpstreamResponse {
        status,
        headers: vec![
            header("etag", "tag"),
            header("last-modified", "then"),
            header("content-type", "text/plain"),
            header("server", "x"),
        ],
        body: Ok(body.as_bytes().to_vec()),
    })
}

fn body_text(reply: &InternalResponse) -> String {
    String::from_utf8(reply.body.clone()).unwrap()
}

fn names(reply: &InternalResponse) -> Vec<&str> {
    reply.headers.iter().map(|h| h.name.as_str()).collect()
}

#[test]
fn lines_know_their_versions() {
    let read = read_lines(Some("{\"vers\":\"1.0.0\"}\r\nnope\n\n"), version_of);
    assert_eq!(read.len(), 3);
    assert_eq!(read[0].text, "{\"vers\":\"1.0.0\"}");
    assert_eq!(read[0].vers.as_deref(), Some("1.0.0"));
    assert!(read[0].is_about_version("1.0.0"));
    assert!(!read[0].is_about_version("1.0.1"));
    assert_eq!(read[1].text, "nope");
    assert_eq!(read[1].vers, None);
    assert_eq!(read[2].text, "");
    assert!(read_lines(None, version_of).is_empty());
    assert_eq!(render_lines(&read), "{\"vers\":\"1.0.0\"}\nnope\n\n");
}

#[test]
fn publishing_adds_a_line() {
    let first = update_index(vec![], "1.0.0", line("1.0.0", "a"));
    assert_eq!(first, line("1.0.0", "a") + "\n");
    let second = update_index(read_lines(Some(&first), version_of), "2.0.0", line("2.0.0", "b"));
    assert_eq!(second, format!("{}\n{}\n", line("1.0.0", "a"), line("2.0.0", "b")));
}

#[test]
fn publishing_again_replaces_the_line() {
    let before = lines(&[line("1.0.0", "a"), "nope".to_string(), line("2.0.0", "b")]);
    let after = update_index(before, "1.0.0", line("1.0.0", "c"));
    assert_eq!(
        after,
        format!("nope\n{}\n{}\n", line("2.0.0", "b"), line("1.0.0", "c"))
    );
    let kept = drop_version(read_lines(Some(&after), version_of), "2.0.0");
    assert_eq!(kept.len(), 2);
}

#[test]
fn local_lines_lie_over_the_upstream() {
    let upstream = lines(&[line("1.0.0", "up"), line("2.0.0", "up"), "nope".to_string()]);
    let local = lines(&[
        line("1.0.0", "old"),
        "junk".to_string(),
        line("3.0.0", "here"),
        line("1.0.0", "here"),
    ]);
    assert_eq!(
        render_lines(&merge_index(upstream, &local)),
        format!(
            "{}\nnope\n{}\n{}\n",
            line("2.0.0", "up"),
            line("3.0.0", "here"),
            line("1.0.0", "here")
        )
    );
}

#[test]
fn published_version_is_served_once() {
    let upstream = line("1.0.0", "up") + "\n" + &line("2.0.0", "up") + "\n";
    let stored = update_index(vec![], "2.0.0", line("2.0.0", "here"));
    let local = read_lines(Some(&stored), version_of);
    let reply = index_reply(&local, found(200, &upstream), version_of);
    assert_eq!(reply.status, 200);
    assert_eq!(
        body_text(&reply),
        format!("{}\n{}\n", line("1.0.0", "up"), line("2.0.0", "here"))
    );
    assert_eq!(names(&reply), vec!["content-type"]);
}

#[test]
fn upstream_alone_keeps_its_marks() {
    let reply = index_reply(&[], found(200, "\nx\n\ny"), version_of);
    assert_eq!(body_text(&reply), "x\ny\n");
    assert_eq!(names(&reply), vec!["etag", "last-modified", "content-type"]);
    let reply = index_reply(&[], found(304, ""), version_of);
    assert_eq!(reply.status, 304);
    assert_eq!(body_text(&reply), "");
    let reply = index_reply(&[], found(404, "gone"), version_of);
    assert_eq!(reply.status, 404);
    assert_eq!(body_text(&reply), "gone");
}

#[test]
fn bytes_that_are_no_text_are_replaced() {
    let answer = Ok(UpstreamResponse {
        status: 200,
        headers: vec![],
        body: Ok(vec![b'a', 0xff, b'\n']),
    });
    let reply = index_reply(&[], answer, version_of);
    assert_eq!(body_text(&reply), "a\u{fffd}\n");
}

#[test]
fn local_lines_survive_the_upstream() {
    let local = lines(&[line("1.0.0", "here")]);
    for answer in [
        Err("refused".to_string()),
        found(404, "gone"),
    ] {
        let reply = index_reply(&local, answer, version_of);
        assert_eq!(reply.status, 200);
        assert_eq!(body_text(&reply), line("1.0.0", "here") + "\n");
        assert_eq!(reply.headers[0].value, b"application/json");
    }
    let reply = index_reply(&local, found(500, "oops"), version_of);
    assert_eq!(reply.status, 500);
    assert_eq!(body_text(&reply), "oops");
}

#[test]
fn failures_of_the_upstream_are_reported() {
    let reply = index_reply(&[], Err("refused".to_string()), version_of);
    assert_eq!(reply.status, 502);
    assert_eq!(body_text(&reply), "Failed to connect to upstream: refused");
    let broken = || {
        Ok(UpstreamResponse {
            status: 200,
            headers: vec![],
            body: Err("cut".to_string()),
        })
    };
    let reply = index_reply(&lines(&[line("1.0.0", "here")]), broken(), version_of);
    assert_eq!(reply.status, 502);
    assert_eq!(body_text(&reply), "Failed to read upstream response: cut");
    let reply = relay_response(broken());
    assert_eq!(reply.status, 502);
    assert_eq!(body_text(&reply), "Failed to read upstream response: cut");
    let reply = relay_response(Err("refused".to_string()));
    assert_eq!(body_text(&reply), "Failed to connect to upstream: refused");
}

#[test]
fn relayed_responses_lose_connection_fields_only() {
    let reply = relay_response(Ok(UpstreamResponse {
        status: 201,
        headers: vec![
            header("a", "1"),
            header("connection", "close"),
            header("transfer-encoding", "chunked"),
            header("b", "2"),
        ],
        body: Ok(vec![1]),
    }));
    assert_eq!(reply.status, 201);
    assert_eq!(names(&reply), vec!["a", "b"]);
    assert_eq!(reply.body, vec![1]);
    assert_eq!(checked_status(99), 500);
    assert_eq!(checked_status(100), 100);
    assert_eq!(checked_status(999), 999);
    assert_eq!(checked_status(1000), 500);
}

#[test]
fn index_paths_are_put_together() {
    assert_eq!(handle_index_1char("a"), "/1/a");
    assert_eq!(handle_index_2char("ab"), "/2/ab");
    assert_eq!(handle_index_3char("a", "abc"), "/3/a/abc");
    assert_eq!(handle_index_4plus("qu", "ot", "quote"), "/qu/ot/quote");
    assert_eq!(local_index_file("/qu/ot/quote"), vec!["index", "qu/ot/quote"]);
    assert_eq!(local_index_file("//1/a"), vec!["index", "1/a"]);
    for name in ["a", "ab", "abc", "quote"] {
        let parts = index_components(name);
        let path = match name.len() {
            1 => handle_index_1char(name),
            2 => handle_index_2char(name),
            3 => handle_index_3char(&parts[2], name),
            _ => handle_index_4plus(&parts[1], &parts[2], name),
        };
        assert_eq!(local_index_file(&path).join("/"), parts.join("/"));
    }
}

#[test]
fn index_requests_ask_for_changes_only_without_local_lines() {
    let headers = vec![
        header("authorization", "token"),
        header("if-none-match", "tag"),
        header("accept", "x"),
    ];
    let request = index_request("https://index.crates.io", "/qu/ot/quote", &headers, false);
    assert_eq!(request.method, "GET");
    assert_eq!(request.url, "https://index.crates.io/qu/ot/quote");
    assert_eq!(
        request.headers,
        vec![
            ("if-none-match".to_string(), "tag".to_string()),
            ("authorization".to_string(), "token".to_string()),
        ]
    );
    assert_eq!(request.body, None);
    let request = index_request("https://index.crates.io", "/qu/ot/quote", &headers, true);
    assert_eq!(
        request.headers,
        vec![("authorization".to_string(), "token".to_string())]
    );
}

#[test]
fn values_that_are_no_text_stay_behind() {
    let headers = vec![
        Header { name: "authorization".to_string(), value: vec![0x80] },
        Header { name: "authorization".to_string(), value: vec![b'x'] },
        Header { name: "accept".to_string(), value: vec![b'a', 9, b'b'] },
    ];
    assert_eq!(headers[0].to_text(), None);
    assert_eq!(headers[2].to_text().as_deref(), Some("a\tb"));
    assert_eq!(first_header(&headers, "authorization").unwrap().value, vec![0x80]);
    assert!(first_header(&headers, "host").is_none());
    let request = endpoints::handle_api_search("https://crates.io", None, &headers);
    assert_eq!(request.headers, vec![("accept".to_string(), "a\tb".to_string())]);
}

#[test]
fn searches_go_on() {
    let headers = vec![header("content-type", "c"), header("accept", "a")];
    let request = endpoints::handle_api_search("https://crates.io", Some("q=serde"), &headers);
    assert_eq!(request.url, "https://crates.io/api/v1/crates?q=serde");
    assert_eq!(request.headers, vec![("accept".to_string(), "a".to_string())]);
    let request = handle_api_search("https://crates.io", Some("q=serde"), &headers);
    assert_eq!(request.url, "https://crates.io/api/v1/crates?q=serde");
    assert_eq!(request.headers.len(), 2);
    let request = handle_api_search("https://crates.io", None, &headers);
    assert_eq!(request.url, "https://crates.io/api/v1/crates");
}

#[test]
fn only_some_methods_go_on() {
    for method in ["GET", "PUT", "DELETE", "POST"] {
        let request = endpoints::proxy_api_request(method, "u", &[]).unwrap();
        assert_eq!(request.method, method);
        assert_eq!(request.body, None);
        let request = proxy_api_request(method, "u", &[], Some(vec![1])).unwrap();
        assert_eq!(request.body, Some(vec![1]));
    }
    let refused = endpoints::proxy_api_request("PATCH", "u", &[]).unwrap_err();
    assert_eq!(refused.status, 405);
    assert_eq!(body_text(&refused), "Method not allowed");
    assert_eq!(proxy_api_request("HEAD", "u", &[], None).unwrap_err().status, 405);
}

#[test]
fn downloads_are_local_first() {
    let step = handle_api_download("https://crates.io", "quote", "1.0.0", &[], Some(vec![1, 2]));
    match step {
        DownloadStep::Serve(reply) => {
            assert_eq!(reply.status, 200);
            assert_eq!(reply.body, vec![1, 2]);
            assert_eq!(reply.headers[0].value, b"application/gzip");
        }
        DownloadStep::Fetch(_) => panic!("fetched"),
    }
    match handle_api_download("https://crates.io", "quote", "1.0.0", &[], None) {
        DownloadStep::Serve(_) => panic!("served"),
        DownloadStep::Fetch(request) => {
            assert_eq!(request.method, "GET");
            assert_eq!(request.url, "https://crates.io/api/v1/crates/quote/1.0.0/download");
        }
    }
}

#[test]
fn layers_lie_over_each_other() {
    let encode = |entry: &IndexEntry| {
        if entry.vers == "0.0.0" {
            None
        } else {
            Some(line(&entry.vers, "top"))
        }
    };
    let above = entry_lines(
        Ok(vec![entry("2.0.0"), entry("0.0.0"), entry("3.0.0")]),
        encode,
    );
    assert_eq!(above.len(), 2);
    assert_eq!(above[0].text, line("2.0.0", "top"));
    assert_eq!(above[1].vers.as_deref(), Some("3.0.0"));
    let below = lines(&[line("1.0.0", "here"), line("2.0.0", "here")]);
    let stacked = stack_lines(below, above);
    assert_eq!(
        render_lines(&merge_index(lines(&[line("2.0.0", "up")]), &stacked)),
        format!(
            "{}\n{}\n{}\n",
            line("1.0.0", "here"),
            line("2.0.0", "top"),
            line("3.0.0", "top")
        )
    );
    assert!(entry_lines(Err(RegistryError::NotFound), encode).is_empty());
}

#[test]
fn files_come_from_the_uppermost_layer() {
    assert_eq!(top_file(Some(Ok(vec![1])), Some(vec![2])), Some(vec![1]));
    assert_eq!(top_file(Some(Err(RegistryError::NotFound)), Some(vec![2])), Some(vec![2]));
    assert_eq!(top_file(None, Some(vec![2])), Some(vec![2]));
    assert_eq!(top_file(Some(Ok(vec![1])), None), Some(vec![1]));
    assert_eq!(top_file(None, None), None);
}

#[test]
fn published_version_is_answered_from_the_file() {
    let before = format!("{}\r\r\nnope\n{}\n", line("1.0.0", "old"), line("2.0.0", "old"));
    let written = update_index(
        read_lines(Some(&before), version_of),
        "2.0.0",
        line("2.0.0", "new"),
    );
    let local = read_lines(Some(&written), version_of);
    let upstream = line("2.0.0", "up") + "\r\n" + &line("3.0.0", "up");
    for answer in [found(200, &upstream), found(404, "gone"), Err("refused".to_string())] {
        let reply = index_reply(&local, answer, version_of);
        assert_eq!(reply.status, 200);
        let seen = read_lines(Some(&body_text(&reply)), version_of);
        let about: Vec<&IndexLine> = seen.iter().filter(|l| l.is_about_version("2.0.0")).collect();
        assert_eq!(about.len(), 1);
        assert_eq!(about[0].text, line("2.0.0", "new"));
        assert_eq!(seen.iter().filter(|l| l.is_about_version("1.0.0")).count(), 1);
    }
}
