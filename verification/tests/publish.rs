use cargo_overlay_registry::endpoints::{
    answer_config, config_reply, handle_api_download, handle_api_publish, handle_config,
    handle_index_lookup, parse_publish_body, publish_reply, serialize_index_entries, ParseError,
};
use cargo_overlay_registry::registry::local::{
    advance_publish, check_metadata, checked_plan_publish, checksum, invalid_metadata_reply,
    local_crate_file,
    plan_publish, PublishStep,
};
use cargo_overlay_registry::registry::publish::{
    check_index_name, index_components, split_filled_lines, PublishRegistry,
};
use cargo_overlay_registry::registry::{local, RegistryError};
use cargo_overlay_registry::response::InternalResponse;
use cargo_overlay_registry::types::{
    default_true, IndexEntry, PublishDependency, PublishMetadata, PublishResponse,
};
use std::collections::HashMap;

fn metadata(name: &str, vers: &str) -> PublishMetadata {
    PublishMetadata {
        name: name.to_string(),
        vers: vers.to_string(),
        deps: vec![],
        features: HashMap::new(),
        authors: vec![],
        description: Some("A crate".to_string()),
        documentation: None,
        homepage: None,
        readme: None,
        readme_file: None,
        keywords: vec![],
        categories: vec![],
        license: Some("MIT".to_string()),
        license_file: None,
        repository: None,
        links: None,
        rust_version: None,
    }
}

fn decode(json: &[u8]) -> Result<PublishMetadata, serde_json::Error> {
    serde_json::from_slice::<serde_json::Value>(json).map(|value| {
        let mut metadata = metadata(
            value["name"].as_str().unwrap_or(""),
            value["vers"].as_str().unwrap_or(""),
        );
        metadata.description = value["description"].as_str().map(|s| s.to_string());
        metadata
    })
}

fn entry(name: &str, vers: &str) -> IndexEntry {
    metadata(name, vers).into_entry("00".to_string())
}

fn encode(entry: &IndexEntry) -> Option<String> {
    if entry.vers.is_empty() {
        return None;
    }
    let mut object = serde_json::Map::new();
    object.insert("name".to_string(), serde_json::Value::from(entry.name.as_str()));
    object.insert("vers".to_string(), serde_json::Value::from(entry.vers.as_str()));
    serde_json::to_string(&serde_json::Value::Object(object)).ok()
}

fn publish_body(json: &[u8], data: &[u8]) -> Vec<u8> {
    let mut body = (json.len() as u32).to_le_bytes().to_vec();
    body.extend_from_slice(json);
    body.extend_from_slice(&(data.len() as u32).to_le_bytes());
    body.extend_from_slice(data);
    body
}

fn body_text(reply: &InternalResponse) -> String {
    String::from_utf8(reply.body.clone()).unwrap()
}

fn content_type(reply: &InternalResponse) -> String {
    assert_eq!(reply.headers.len(), 1);
    assert_eq!(reply.headers[0].name, "content-type");
    String::from_utf8(reply.headers[0].value.clone()).unwrap()
}

#[test]
fn test_parse_publish_body_too_short() {
    assert!(matches!(
        parse_publish_body(&[0, 0, 0, 0], decode),
        Err(ParseError::BodyTooShort)
    ));
}

#[test]
fn test_parse_publish_body_invalid_json() {
    // JSON length = 4, but contains invalid JSON
    let body = [
        4, 0, 0, 0, // JSON length: 4
        b'n', b'o', b'p', b'e', // Invalid JSON
        0, 0, 0, 0, // Crate length: 0
    ];
    assert!(matches!(
        parse_publish_body(&body, decode),
        Err(ParseError::InvalidJson(_))
    ));
}

#[test]
fn test_serialize_empty_entries() {
    let entries: Vec<IndexEntry> = vec![];
    assert_eq!(serialize_index_entries(&entries, encode), "\n");
}

#[test]
fn publish_body_reads_back() {
    let json = b"{\"name\":\"quote\",\"vers\":\"99.0.0\",\"description\":\"x\"}";
    let mut body = publish_body(json, b"crate data");
    let (metadata, data) = parse_publish_body(&body, decode).unwrap();
    assert_eq!(metadata.name, "quote");
    assert_eq!(metadata.vers, "99.0.0");
    assert_eq!(data, b"crate data");
    body.extend_from_slice(b"rest");
    let (_, data) = parse_publish_body(&body, decode).unwrap();
    assert_eq!(data, b"crate data");
}

#[test]
fn lengths_are_read_lowest_byte_first() {
    let json = format!("{{\"name\":\"{}\",\"vers\":\"1.0.0\"}}", "a".repeat(300));
    let body = publish_body(json.as_bytes(), &[7; 70000]);
    assert_eq!(&body[..4], &[(json.len() % 256) as u8, 1, 0, 0]);
    let (metadata, data) = parse_publish_body(&body, decode).unwrap();
    assert_eq!(metadata.name.len(), 300);
    assert_eq!(data.len(), 70000);
}

#[test]
fn truncated_bodies_are_too_short() {
    let body = publish_body(b"{\"name\":\"quote\"}", b"data");
    for kept in 0..body.len() {
        assert!(matches!(
            parse_publish_body(&body[..kept], decode),
            Err(ParseError::BodyTooShort)
        ));
    }
    assert!(parse_publish_body(&body, decode).is_ok());
}

#[test]
fn parse_errors_say_what_is_wrong() {
    assert_eq!(ParseError::BodyTooShort.to_text(), "request body too short");
    assert!(ParseError::BodyTooShort.json_source().is_none());
    let e = serde_json::from_str::<serde_json::Value>("nope").unwrap_err();
    let said = e.to_string();
    let error = ParseError::InvalidJson(e);
    assert_eq!(error.to_text(), format!("invalid metadata: {}", said));
    assert_eq!(error.json_source().unwrap().to_string(), said);
    assert_eq!(error.describe("x"), "invalid metadata: x");
}

#[test]
fn publish_requests_are_taken_apart() {
    let body = publish_body(b"{\"name\":\"quote\",\"vers\":\"1.0.0\"}", b"data");
    let (metadata, data) = handle_api_publish(&body, decode).unwrap();
    assert_eq!(metadata.name, "quote");
    assert_eq!(data, b"data");
    let refused = handle_api_publish(&body[..body.len() - 1], decode).unwrap_err();
    assert_eq!(refused.status, 400);
    assert_eq!(body_text(&refused), "request body too short");
    assert_eq!(content_type(&refused), "text/plain; charset=utf-8");
    let refused = handle_api_publish(&publish_body(b"nope", b""), decode).unwrap_err();
    assert_eq!(refused.status, 400);
    assert!(body_text(&refused).starts_with("invalid metadata: "));
}

#[test]
fn entries_are_one_line_each() {
    let entries = vec![entry("a", "1.0.0"), entry("a", ""), entry("a", "2.0.0")];
    assert_eq!(
        serialize_index_entries(&entries, encode),
        "{\"name\":\"a\",\"vers\":\"1.0.0\"}\n{\"name\":\"a\",\"vers\":\"2.0.0\"}\n"
    );
}

#[test]
fn config_points_to_the_proxy() {
    let config = handle_config("http://localhost:8080");
    assert_eq!(config.dl, "http://localhost:8080/api/v1/crates");
    assert_eq!(config.api, "http://localhost:8080");
    assert_eq!(config.auth_required, None);
}

#[test]
fn config_requests_are_answered() {
    let reply = answer_config("http://localhost:8080", |config| {
        assert_eq!(config.auth_required, None);
        format!("{{\n  \"dl\": \"{}\",\n  \"api\": \"{}\"\n}}", config.dl, config.api)
    });
    assert_eq!(reply.status, 200);
    assert_eq!(content_type(&reply), "application/json");
    assert_eq!(
        body_text(&reply),
        "{\n  \"dl\": \"http://localhost:8080/api/v1/crates\",\n  \"api\": \"http://localhost:8080\"\n}"
    );
    let reply = config_reply("{}");
    assert_eq!((reply.status, body_text(&reply).as_str()), (200, "{}"));
}

#[test]
fn undecodable_metadata_is_refused_with_its_error() {
    let said = decode(b"nope").unwrap_err().to_string();
    let refused = local::handle_api_publish(&publish_body(b"nope", b""), true, decode).unwrap_err();
    assert_eq!(refused.status, 400);
    assert_eq!(body_text(&refused), format!("Invalid metadata: {}", said));
    assert_eq!(body_text(&invalid_metadata_reply(&said)), body_text(&refused));
    let refused = handle_api_publish(&publish_body(b"nope", b""), decode).unwrap_err();
    assert_eq!(body_text(&refused), format!("invalid metadata: {}", said));
}

#[test]
fn index_lookups_are_answered() {
    let reply = handle_index_lookup(Ok(vec![entry("a", "1.0.0")]), encode);
    assert_eq!(reply.status, 200);
    assert_eq!(content_type(&reply), "application/json");
    assert_eq!(body_text(&reply), "{\"name\":\"a\",\"vers\":\"1.0.0\"}\n");
    let reply = handle_index_lookup(Ok(vec![]), encode);
    assert_eq!(reply.status, 404);
    assert_eq!(body_text(&reply), "Not found");
    let reply = handle_index_lookup(Err(RegistryError::Network("down".to_string())), encode);
    assert_eq!(reply.status, 502);
    assert_eq!(body_text(&reply), "Failed to lookup crate: network error: down");
}

#[test]
fn publishes_are_answered() {
    let reply = publish_reply(Ok("00".to_string()), "{}");
    assert_eq!(reply.status, 200);
    assert_eq!(content_type(&reply), "application/json");
    assert_eq!(body_text(&reply), "{}");
    let errors = vec!["one".to_string(), "two".to_string()];
    let reply = publish_reply(Err(RegistryError::ValidationFailed(errors)), "{}");
    assert_eq!(reply.status, 400);
    assert_eq!(body_text(&reply), "Validation failed: one; two");
    let reply = publish_reply(Err(RegistryError::NotSupported), "{}");
    assert_eq!(reply.status, 500);
    assert_eq!(body_text(&reply), "Failed to publish: operation not supported");
}

#[test]
fn downloads_are_answered() {
    let reply = handle_api_download(Ok(vec![1, 2, 3]));
    assert_eq!(reply.status, 200);
    assert_eq!(content_type(&reply), "application/gzip");
    assert_eq!(reply.body, vec![1, 2, 3]);
    let reply = handle_api_download(Err(RegistryError::NotFound));
    assert_eq!(reply.status, 404);
    assert_eq!(body_text(&reply), "Crate not found");
    let reply = handle_api_download(Err(RegistryError::InvalidRequest("x".to_string())));
    assert_eq!(reply.status, 502);
    assert_eq!(body_text(&reply), "Failed to download: invalid request: x");
}

#[test]
fn registry_errors_say_what_is_wrong() {
    let errors = vec!["one".to_string(), "two".to_string()];
    assert_eq!(RegistryError::NotFound.to_text(), "not found");
    assert_eq!(
        RegistryError::ValidationFailed(errors).to_text(),
        "validation failed: one; two"
    );
    let io = std::io::Error::new(std::io::ErrorKind::Other, "disk full");
    let error = RegistryError::from(io);
    assert_eq!(error.to_text(), "storage error: disk full");
    assert_eq!(error.storage_source().unwrap().to_string(), "disk full");
    assert!(error.serialization_source().is_none());
    let json = serde_json::from_str::<serde_json::Value>("nope").unwrap_err();
    let said = json.to_string();
    let error = RegistryError::from(json);
    assert_eq!(error.to_text(), format!("serialization error: {}", said));
    assert_eq!(error.serialization_source().unwrap().to_string(), said);
    assert!(error.storage_source().is_none());
}

#[test]
fn incomplete_metadata_is_turned_away() {
    let mut incomplete = metadata("strict", "0.1.0");
    incomplete.description = None;
    incomplete.license = None;
    let errors = incomplete.validate();
    assert_eq!(errors.len(), 2);
    assert!(errors[0].contains("description"));
    assert!(errors[1].contains("license"));
    assert!(matches!(
        check_metadata(&incomplete, false),
        Err(RegistryError::ValidationFailed(said)) if said == errors
    ));
    assert!(check_metadata(&incomplete, true).is_ok());
}

#[test]
fn complete_metadata_is_accepted() {
    let mut complete = metadata("strict", "0.1.0");
    assert!(complete.validate().is_empty());
    assert!(check_metadata(&complete, false).is_ok());
    complete.license = None;
    complete.license_file = Some("LICENSE".to_string());
    assert!(complete.validate().is_empty());
    complete.description = Some(String::new());
    assert_eq!(complete.validate().len(), 1);
}

#[test]
fn too_many_keywords_are_turned_away() {
    let mut tagged = metadata("strict", "0.1.0");
    tagged.keywords = vec!["a", "b", "c", "d", "e"].into_iter().map(String::from).collect();
    assert!(tagged.validate().is_empty());
    tagged.keywords.push("f".to_string());
    let errors = tagged.validate();
    assert_eq!(errors.len(), 1);
    assert!(errors[0].contains("keywords") && errors[0].contains("too many"));
}

#[test]
fn local_publish_requests_are_validated() {
    let good = publish_body(
        b"{\"name\":\"quote\",\"vers\":\"1.0.0\",\"description\":\"x\"}",
        b"data",
    );
    let (parsed, data) = local::handle_api_publish(&good, false, decode).unwrap();
    assert_eq!(parsed.vers, "1.0.0");
    assert_eq!(data, b"data");
    let bad = publish_body(b"{\"name\":\"quote\",\"vers\":\"1.0.0\"}", b"data");
    let refused = local::handle_api_publish(&bad, false, decode).unwrap_err();
    assert_eq!(refused.status, 400);
    assert_eq!(
        body_text(&refused),
        "Validation failed: missing required metadata: description"
    );
    assert!(local::handle_api_publish(&bad, true, decode).is_ok());
    let refused = local::handle_api_publish(&bad[..bad.len() - 1], false, decode).unwrap_err();
    assert!(body_text(&refused).starts_with("Validation failed: "));
    let refused = local::handle_api_publish(&good[..good.len() - 1], false, decode).unwrap_err();
    assert_eq!(body_text(&refused), "Request body too short");
    let refused = local::handle_api_publish(&[0; 7], true, decode).unwrap_err();
    assert_eq!(body_text(&refused), "Request body too short");
    let refused = local::handle_api_publish(&publish_body(b"nope", b""), true, decode).unwrap_err();
    assert!(body_text(&refused).starts_with("Invalid metadata: expected"));
}

#[test]
fn dependencies_are_listed_under_their_alias() {
    let mut with_deps = metadata("app", "0.1.0");
    with_deps.deps.push(PublishDependency {
        name: "serde".to_string(),
        version_req: "^1".to_string(),
        features: vec!["derive".to_string()],
        optional: true,
        default_features: default_true(),
        target: None,
        kind: Some("normal".to_string()),
        registry: None,
        explicit_name_in_toml: Some("serde1".to_string()),
    });
    with_deps.deps.push(PublishDependency {
        name: "log".to_string(),
        version_req: "^0.4".to_string(),
        features: vec![],
        optional: false,
        default_features: false,
        target: Some("cfg(unix)".to_string()),
        kind: None,
        registry: Some("other".to_string()),
        explicit_name_in_toml: None,
    });
    with_deps.links = Some("z".to_string());
    with_deps.rust_version = Some("1.80".to_string());
    with_deps.features.insert("default".to_string(), vec!["x".to_string()]);
    let entry = with_deps.into_entry("abc".to_string());
    assert_eq!(entry.name, "app");
    assert_eq!(entry.vers, "0.1.0");
    assert_eq!(entry.cksum, "abc");
    assert!(!entry.yanked);
    assert_eq!(entry.links.as_deref(), Some("z"));
    assert_eq!(entry.rust_version.as_deref(), Some("1.80"));
    assert_eq!(entry.features["default"], vec!["x".to_string()]);
    assert_eq!(entry.deps[0].name, "serde1");
    assert_eq!(entry.deps[0].package.as_deref(), Some("serde"));
    assert_eq!(entry.deps[0].req, "^1");
    assert_eq!(entry.deps[0].features, vec!["derive".to_string()]);
    assert!(entry.deps[0].optional && entry.deps[0].default_features);
    assert_eq!(entry.deps[1].name, "log");
    assert_eq!(entry.deps[1].package, None);
    assert_eq!(entry.deps[1].target.as_deref(), Some("cfg(unix)"));
    assert_eq!(entry.deps[1].registry.as_deref(), Some("other"));
}

#[test]
fn publish_response_has_no_warnings() {
    let warnings = PublishResponse::without_warnings().warnings;
    assert!(warnings.invalid_categories.is_empty());
    assert!(warnings.invalid_badges.is_empty());
    assert!(warnings.other.is_empty());
}

#[test]
fn checksums_are_sha256_in_hexadecimal() {
    assert_eq!(
        checksum(b"abc"),
        "ba7816bf8f01cfea414140de5dae2223b00361a396177a9cb410ff61f20015ad"
    );
    assert_eq!(
        checksum(b""),
        "e3b0c44298fc1c149afbf4c8996fb92427ae41e4649b934ca495991b7852b855"
    );
}

#[test]
fn index_files_stand_by_the_length_of_the_name() {
    assert_eq!(index_components("a"), vec!["index", "1", "a"]);
    assert_eq!(index_components("ab"), vec!["index", "2", "ab"]);
    assert_eq!(index_components("abc"), vec!["index", "3", "a", "abc"]);
    assert_eq!(index_components("abcd"), vec!["index", "ab", "cd", "abcd"]);
    assert_eq!(index_components("quote"), vec!["index", "qu", "ot", "quote"]);
    assert_eq!(
        index_components("hello-proxy"),
        vec!["index", "he", "ll", "hello-proxy"]
    );
    assert_eq!(
        index_components("test-consumer"),
        vec!["index", "te", "st", "test-consumer"]
    );
    assert!(!check_index_name(""));
    assert!(!check_index_name("\u{e9}a"));
    assert!(check_index_name("\u{e9}"));
    assert!(!check_index_name("a\u{e9}bc"));
    assert!(check_index_name("\u{e9}\u{e9}"));
    assert_eq!(
        index_components("\u{e9}\u{e9}x"),
        vec!["index", "\u{e9}", "\u{e9}", "\u{e9}\u{e9}x"]
    );
}

#[test]
fn plans_say_where_everything_goes() {
    let plan = plan_publish(metadata("Quote", "99.0.0"), b"abc");
    assert_eq!(plan.crate_dir, vec!["crates", "Quote"]);
    assert_eq!(plan.crate_file, vec!["crates", "Quote", "99.0.0.crate"]);
    assert_eq!(plan.crate_file, local_crate_file("Quote", "99.0.0"));
    assert_eq!(plan.crate_data, b"abc");
    assert_eq!(plan.index_file, vec!["index", "qu", "ot", "quote"]);
    assert_eq!(plan.vers, "99.0.0");
    assert_eq!(plan.entry.name, "Quote");
    assert_eq!(plan.entry.cksum, checksum(b"abc"));
    assert!(checked_plan_publish(metadata("", "1.0.0"), b"").is_none());
    assert!(checked_plan_publish(metadata("a", "1.0.0"), b"").is_some());
}

#[test]
fn storing_ends_with_the_index() {
    let mut step = PublishStep::CreateCrateDir;
    let mut steps = vec![step];
    while step != PublishStep::Done {
        step = advance_publish(step, None).unwrap();
        steps.push(step);
    }
    assert_eq!(
        steps,
        vec![
            PublishStep::CreateCrateDir,
            PublishStep::CreateCrateFile,
            PublishStep::WriteCrate,
            PublishStep::CreateIndexDir,
            PublishStep::EncodeEntry,
            PublishStep::WriteIndex,
            PublishStep::Done,
        ]
    );
}

#[test]
fn storing_ends_at_the_first_failure() {
    for (step, said) in [
        (PublishStep::CreateCrateDir, "Failed to create directory: full"),
        (PublishStep::CreateCrateFile, "Failed to create crate file: full"),
        (PublishStep::WriteCrate, "Failed to write crate: full"),
        (PublishStep::CreateIndexDir, "Failed to create index dir: full"),
        (PublishStep::EncodeEntry, "Failed to serialize: full"),
        (PublishStep::WriteIndex, "Failed to write index: full"),
    ] {
        let reply = advance_publish(step, Some("full")).unwrap_err();
        assert_eq!(reply.status, 500);
        assert_eq!(body_text(&reply), said);
    }
}

#[test]
fn tmp_registry_is_read_only() {
    let registry = PublishRegistry::new(std::path::PathBuf::from("/tmp/registry"));
    assert_eq!(registry.path, std::path::PathBuf::from("/tmp/registry"));
    assert!(matches!(
        registry.publish(metadata("a", "1.0.0"), b""),
        Err(RegistryError::NotFound)
    ));
}

#[test]
fn tmp_registry_has_its_own_layout() {
    let registry = PublishRegistry::new(std::path::PathBuf::from("/tmp/registry"));
    assert_eq!(registry.index_path("QUOTE"), vec!["index", "qu", "ot", "quote"]);
    assert_eq!(
        registry.checked_index_path("Abc"),
        Some(vec!["index", "3", "a", "abc"].into_iter().map(String::from).collect())
    );
    assert_eq!(registry.checked_index_path(""), None);
    assert_eq!(registry.crate_path("quote", "99.0.0"), vec!["quote-99.0.0.crate"]);
}

#[test]
fn tmp_registry_leaves_out_what_is_no_entry() {
    let registry = PublishRegistry::new(std::path::PathBuf::from("/tmp/registry"));
    let read = |line: &str| {
        serde_json::from_str::<serde_json::Value>(line)
            .ok()
            .map(|value| entry("a", value["vers"].as_str().unwrap_or("")))
    };
    let content = "{\"vers\":\"1.0.0\"}\n\nnope\r\n{\"vers\":\"2.0.0\"}\r\n";
    let found = registry.lookup(Some(content), read).unwrap();
    assert_eq!(found.len(), 2);
    assert_eq!(found[0].vers, "1.0.0");
    assert_eq!(found[1].vers, "2.0.0");
    assert!(registry.lookup(None, read).unwrap().is_empty());
    assert_eq!(split_filled_lines(content).len(), 3);
}

#[test]
fn tmp_registry_hands_files_out() {
    let registry = PublishRegistry::new(std::path::PathBuf::from("/tmp/registry"));
    assert!(matches!(registry.download(None), Err(RegistryError::NotFound)));
    assert_eq!(registry.download(Some(Ok(vec![1, 2]))).unwrap(), vec![1, 2]);
    let failed = registry.download(Some(Err(std::io::Error::new(
        std::io::ErrorKind::Other,
        "broken",
    ))));
    assert!(matches!(failed, Err(RegistryError::Storage(e)) if e.to_string() == "broken"));
}
