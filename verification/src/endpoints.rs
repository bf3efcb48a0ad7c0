//! The endpoints of the registry: what each request asks for, and what it is answered.

use crate::outside;
use crate::registry;
use crate::registry::RegistryError;
use crate::response;
use crate::response::{Header, InternalResponse, OutboundRequest};
use crate::text;
use crate::types::{IndexEntry, PublishMetadata, RegistryConfig};
use vstd::prelude::*;
use vstd::string::*;

verus! {

broadcast use vstd::string::group_string_axioms;

// ---------------------------------------------------------------------------
// The body of a publish request
// ---------------------------------------------------------------------------

/// Error type for parsing publish requests.
#[derive(Debug)]
pub enum ParseError {
    /// Request body is too short
    BodyTooShort,
    /// Failed to parse JSON metadata
    InvalidJson(serde_json::Error),
}

/// What an error says, where `detail` is what the error inside it says.
pub open spec fn parse_error_description(error: ParseError, detail: Seq<char>) -> Seq<char> {
    match error {
        ParseError::BodyTooShort => "request body too short"@,
        ParseError::InvalidJson(_) => "invalid metadata: "@ + detail,
    }
}

/// Whether `detail` is what the error inside an error says, where there is one.
pub open spec fn is_parse_detail(error: ParseError, detail: Seq<char>) -> bool {
    match error {
        ParseError::BodyTooShort => true,
        ParseError::InvalidJson(e) => outside::json_error_says(e, detail),
    }
}

/// Whether `said` is what an error says, with what the error inside it says.
pub open spec fn describes_parse_error(said: Seq<char>, error: ParseError) -> bool {
    exists|detail: Seq<char>|
        is_parse_detail(error, detail) && said == #[trigger] parse_error_description(error, detail)
}

impl ParseError {
    /// What the error says, where `detail` is what the error inside it says.
    pub fn describe(&self, detail: &str) -> (r: String)
        ensures
            r@ == parse_error_description(*self, detail@),
    {
        match self {
            ParseError::BodyTooShort => String::from_str("request body too short"),
            ParseError::InvalidJson(_) => text::concat("invalid metadata: ", detail),
        }
    }

    /// What the error says, with what the error inside it says.
    pub fn to_text(&self) -> (r: String)
        ensures
            describes_parse_error(r@, *self),
    {
        let detail = match self {
            ParseError::InvalidJson(e) => outside::say_json_error(e),
            ParseError::BodyTooShort => String::new(),
        };
        self.describe(detail.as_str())
    }

    /// The JSON error inside, where there is one.
    pub fn json_source(&self) -> (r: Option<&serde_json::Error>)
        ensures
            r == (match *self {
                ParseError::InvalidJson(e) => Some(&e),
                _ => None,
            }),
    {
        match self {
            ParseError::InvalidJson(e) => Some(e),
            _ => None,
        }
    }
}

/// The number that four bytes from `at` on denote, the lowest byte first.
pub open spec fn le32(bytes: Seq<u8>, at: int) -> nat {
    (bytes[at] + 256 * bytes[at + 1] + 65536 * bytes[at + 2] + 16777216 * bytes[at + 3]) as nat
}

/// The metadata in a publish request: behind its length, and with a length of the crate file
/// behind it. Nothing where the body is too short for them.
pub open spec fn metadata_bytes(body: Seq<u8>) -> Option<Seq<u8>> {
    if body.len() < 8 || body.len() < 8 + le32(body, 0) {
        None
    } else {
        Some(body.subrange(4, 4 + le32(body, 0) as int))
    }
}

/// The crate file in a publish request: behind the metadata and its own length. Nothing where the
/// body is too short for it.
pub open spec fn crate_bytes(body: Seq<u8>) -> Option<Seq<u8>> {
    let at = 4 + le32(body, 0) as int;
    let len = le32(body, at) as int;
    if metadata_bytes(body) is None || body.len() < at + 4 + len {
        None
    } else {
        Some(body.subrange(at + 4, at + 4 + len))
    }
}

/// The number that four bytes from `at` on denote, the lowest byte first.
fn read_le32(bytes: &[u8], at: usize) -> (r: usize)
    requires
        at + 4 <= bytes@.len(),
    ensures
        r == le32(bytes@, at as int),
{
    let b0: u32 = bytes[at] as u32;
    let b1: u32 = bytes[at + 1] as u32;
    let b2: u32 = bytes[at + 2] as u32;
    let b3: u32 = bytes[at + 3] as u32;
    (b0 + 256 * b1 + 65536 * b2 + 16777216 * b3) as usize
}

/// The metadata in a publish request; nothing where the body is too short.
pub fn metadata_part(body: &[u8]) -> (r: Option<&[u8]>)
    ensures
        r matches Some(part) ==> metadata_bytes(body@) == Some(part@),
        r is None ==> metadata_bytes(body@) is None,
{
    if body.len() < 8 {
        return None;
    }
    let json_len = read_le32(body, 0);
    if body.len() - 8 < json_len {
        return None;
    }
    Some(vstd::slice::slice_subrange(body, 4, 4 + json_len))
}

/// The crate file in a publish request; nothing where the body is too short.
pub fn crate_part(body: &[u8]) -> (r: Option<&[u8]>)
    ensures
        r matches Some(part) ==> crate_bytes(body@) == Some(part@),
        r is None ==> crate_bytes(body@) is None,
{
    if body.len() < 8 {
        return None;
    }
    let json_len = read_le32(body, 0);
    if body.len() - 8 < json_len {
        return None;
    }
    let crate_len = read_le32(body, 4 + json_len);
    if body.len() - 8 - json_len < crate_len {
        return None;
    }
    Some(vstd::slice::slice_subrange(body, 8 + json_len, 8 + json_len + crate_len))
}

/// Whether `result` is the outcome of parsing `body`, where `decoded` is what the metadata in it
/// decodes to.
pub open spec fn is_parsed(
    result: Result<(PublishMetadata, &[u8]), ParseError>,
    body: Seq<u8>,
    decoded: Result<PublishMetadata, serde_json::Error>,
) -> bool {
    match decoded {
        Err(e) => result == Err::<(PublishMetadata, &[u8]), ParseError>(ParseError::InvalidJson(e)),
        Ok(metadata) => match crate_bytes(body) {
            None => result == Err::<(PublishMetadata, &[u8]), ParseError>(ParseError::BodyTooShort),
            Some(data) => result is Ok && result->Ok_0.0 == metadata && result->Ok_0.1@ == data,
        },
    }
}

/// Parse a cargo publish request body.
///
/// The format is:
/// - 4 bytes: JSON metadata length (little-endian u32)
/// - N bytes: JSON metadata
/// - 4 bytes: .crate file length (little-endian u32)
/// - M bytes: .crate file data
///
/// Returns the metadata, as `decode` makes it of its bytes, and a reference to the crate data.
pub fn parse_publish_body<'a, F>(body: &'a [u8], decode: F) -> (r: Result<
    (PublishMetadata, &'a [u8]),
    ParseError,
>) where F: FnOnce(&[u8]) -> Result<PublishMetadata, serde_json::Error>
    requires
        forall|json: &[u8]| #[trigger] call_requires(decode, (json,)),
    ensures
        metadata_bytes(body@) is None ==> r == Err::<(PublishMetadata, &'a [u8]), ParseError>(
            ParseError::BodyTooShort,
        ),
        metadata_bytes(body@) matches Some(bytes) ==> exists|
            json: &[u8],
            decoded: Result<PublishMetadata, serde_json::Error>,
        |
            json@ == bytes && #[trigger] call_ensures(decode, (json,), decoded) && is_parsed(
                r,
                body@,
                decoded,
            ),
{
    let json = match metadata_part(body) {
        None => return Err(ParseError::BodyTooShort),
        Some(json) => json,
    };
    let metadata = match decode(json) {
        Err(e) => return Err(ParseError::InvalidJson(e)),
        Ok(metadata) => metadata,
    };
    match crate_part(body) {
        None => Err(ParseError::BodyTooShort),
        Some(data) => Ok((metadata, data)),
    }
}

/// Four bytes that denote `n`, the lowest first.
pub open spec fn le32_bytes(n: nat) -> Seq<u8> {
    seq![
        (n % 256) as u8,
        (n / 256 % 256) as u8,
        (n / 65536 % 256) as u8,
        (n / 16777216 % 256) as u8,
    ]
}

/// The body of a publish request with the metadata `json` and the crate file `data`.
pub open spec fn publish_body(json: Seq<u8>, data: Seq<u8>) -> Seq<u8> {
    le32_bytes(json.len()) + json + le32_bytes(data.len()) + data
}

/// Four bytes that were written for a number denote it.
proof fn lemma_le32_reads_back(n: nat, bytes: Seq<u8>, at: int)
    requires
        n < 0x1_0000_0000,
        0 <= at,
        at + 4 <= bytes.len(),
        bytes.subrange(at, at + 4) == le32_bytes(n),
    ensures
        le32(bytes, at) == n,
{
    let part = bytes.subrange(at, at + 4);
    assert(part[0] == bytes[at] && part[1] == bytes[at + 1]);
    assert(part[2] == bytes[at + 2] && part[3] == bytes[at + 3]);
}

/// Metadata and crate file read back from the body that they were put in, whatever stands behind
/// it.
pub proof fn law_publish_body_reads_back(json: Seq<u8>, data: Seq<u8>, rest: Seq<u8>)
    requires
        json.len() < 0x1_0000_0000,
        data.len() < 0x1_0000_0000,
    ensures
        metadata_bytes(publish_body(json, data) + rest) == Some(json),
        crate_bytes(publish_body(json, data) + rest) == Some(data),
{
    let body = publish_body(json, data) + rest;
    let n = json.len() as int;
    let m = data.len() as int;
    assert(body.subrange(0, 4) =~= le32_bytes(json.len()));
    lemma_le32_reads_back(json.len(), body, 0);
    assert(body.subrange(4 + n, 8 + n) =~= le32_bytes(data.len()));
    lemma_le32_reads_back(data.len(), body, 4 + n);
    assert(body.subrange(4, 4 + n) =~= json);
    assert(body.subrange(8 + n, 8 + n + m) =~= data);
}

/// A body that was cut off anywhere is too short: its crate file is missing, and its metadata is
/// missing or still whole, so that where the metadata decodes, parsing says that it is too short.
pub proof fn law_truncated_body_is_too_short(json: Seq<u8>, data: Seq<u8>, kept: int)
    requires
        json.len() < 0x1_0000_0000,
        data.len() < 0x1_0000_0000,
        0 <= kept < publish_body(json, data).len(),
    ensures
        crate_bytes(publish_body(json, data).take(kept)) is None,
        ({
            let metadata = metadata_bytes(publish_body(json, data).take(kept));
            metadata is None || metadata == Some(json)
        }),
        forall|
            result: Result<(PublishMetadata, &[u8]), ParseError>,
            decoded: Result<PublishMetadata, serde_json::Error>,
        |
            decoded is Ok && #[trigger] is_parsed(
                result,
                publish_body(json, data).take(kept),
                decoded,
            ) ==> result == Err::<(PublishMetadata, &[u8]), ParseError>(ParseError::BodyTooShort),
{
    let body = publish_body(json, data);
    let cut = body.take(kept);
    let n = json.len() as int;
    if kept >= 8 {
        assert(cut.subrange(0, 4) =~= le32_bytes(json.len()));
        lemma_le32_reads_back(json.len(), cut, 0);
        if kept >= 8 + n {
            assert(cut.subrange(4, 4 + n) =~= json);
            assert(cut.subrange(4 + n, 8 + n) =~= le32_bytes(data.len()));
            lemma_le32_reads_back(data.len(), cut, 4 + n);
        }
    }
}

// ---------------------------------------------------------------------------
// Index entries as lines
// ---------------------------------------------------------------------------

/// The texts among encoded entries, where some did not encode.
pub open spec fn encoded_texts(encoded: Seq<Option<String>>) -> Seq<Seq<char>>
    decreases encoded.len(),
{
    if encoded.len() == 0 {
        Seq::empty()
    } else {
        let before = encoded_texts(encoded.drop_last());
        match encoded.last() {
            Some(text) => before.push(text@),
            None => before,
        }
    }
}

/// Whether `encoded` is what `encode` makes of `entries`, one by one.
pub open spec fn is_encoded<F: Fn(&IndexEntry) -> Option<String>>(
    encoded: Seq<Option<String>>,
    entries: Seq<IndexEntry>,
    encode: F,
) -> bool {
    &&& encoded.len() == entries.len()
    &&& forall|i: int|
        0 <= i < entries.len() ==> call_ensures(encode, (&entries[i],), #[trigger] encoded[i])
}

/// Serialize index entries to JSON lines format (one JSON object per line), each as `encode`
/// writes it. An entry that does not encode is left out.
///
/// This is the format expected by cargo's sparse registry protocol.
pub fn serialize_index_entries<F: Fn(&IndexEntry) -> Option<String>>(
    entries: &[IndexEntry],
    encode: F,
) -> (r: String)
    requires
        forall|entry: &IndexEntry| #[trigger] call_requires(encode, (entry,)),
    ensures
        exists|encoded: Seq<Option<String>>| #[trigger]
            is_encoded(encoded, entries@, encode) && r@ == text::joined_lines(
                encoded_texts(encoded),
            ),
{
    let mut parts: Vec<String> = Vec::new();
    let ghost mut encoded: Seq<Option<String>> = Seq::empty();
    let mut i: usize = 0;
    assert(text::texts(parts@) =~= encoded_texts(encoded));
    while i < entries.len()
        invariant
            i <= entries@.len(),
            forall|entry: &IndexEntry| #[trigger] call_requires(encode, (entry,)),
            encoded.len() == i,
            forall|j: int|
                0 <= j < i ==> call_ensures(encode, (&entries@[j],), #[trigger] encoded[j]),
            text::texts(parts@) == encoded_texts(encoded),
        decreases entries@.len() - i,
    {
        let one = encode(&entries[i]);
        let ghost before = text::texts(parts@);
        proof {
            let grown = encoded.push(one);
            assert(grown.drop_last() =~= encoded);
            encoded = grown;
        }
        if let Some(text) = one {
            parts.push(text);
            assert(text::texts(parts@) =~= before.push(text@));
        }
        i += 1;
    }
    assert(is_encoded(encoded, entries@, encode));
    text::join_lines(parts.as_slice())
}

// ---------------------------------------------------------------------------
// Answers
// ---------------------------------------------------------------------------

/// The configuration that points cargo to the proxy at `proxy_base_url`.
pub fn handle_config(proxy_base_url: &str) -> (r: RegistryConfig)
    ensures
        is_config_of(r, proxy_base_url@),
{
    RegistryConfig {
        dl: text::concat(proxy_base_url, "/api/v1/crates"),
        api: String::from_str(proxy_base_url),
        auth_required: None,
    }
}

/// The answer to a request for the configuration, where `json` is its text.
pub fn config_reply(json: &str) -> (r: InternalResponse)
    ensures
        r@ == response::json_reply(json@),
{
    InternalResponse::json(json)
}

/// Whether a configuration points cargo to the proxy at `proxy_base_url`.
pub open spec fn is_config_of(config: RegistryConfig, proxy_base_url: Seq<char>) -> bool {
    &&& config.dl@ == proxy_base_url + "/api/v1/crates"@
    &&& config.api@ == proxy_base_url
    &&& config.auth_required is None
}

/// The answer to a request for the configuration of the proxy at `proxy_base_url`: the
/// configuration, as `encode` writes it.
pub fn answer_config<F: FnOnce(&RegistryConfig) -> String>(proxy_base_url: &str, encode: F) -> (r:
    InternalResponse)
    requires
        forall|config: &RegistryConfig| #[trigger] call_requires(encode, (config,)),
    ensures
        exists|config: &RegistryConfig, json: String|
            is_config_of(*config, proxy_base_url@) && #[trigger] call_ensures(
                encode,
                (config,),
                json,
            ) && r@ == response::json_reply(json@),
{
    let config = handle_config(proxy_base_url);
    let json = encode(&config);
    config_reply(json.as_str())
}

/// The answer to an index request, where `found` is what the registry found: the entries, each as
/// `encode` writes it; that there are none; or that the registry failed.
pub fn handle_index_lookup<F: Fn(&IndexEntry) -> Option<String>>(
    found: Result<Vec<IndexEntry>, RegistryError>,
    encode: F,
) -> (r: InternalResponse)
    requires
        forall|entry: &IndexEntry| #[trigger] call_requires(encode, (entry,)),
    ensures
        found matches Ok(entries) ==> if entries@.len() == 0 {
            r@ == response::text_reply(response::NOT_FOUND, "Not found"@)
        } else {
            exists|encoded: Seq<Option<String>>| #[trigger]
                is_encoded(encoded, entries@, encode) && r@ == response::json_reply(
                    text::joined_lines(encoded_texts(encoded)),
                )
        },
        found matches Err(e) ==> exists|said: Seq<char>| #[trigger]
            registry::describes(said, e) && r@ == lookup_failure(said),
        found matches Err(e) ==> exists|said: Seq<char>| #[trigger]
            registry::describes(said, e) && r@ == response::text_reply(
                response::BAD_GATEWAY,
                "Failed to lookup crate: "@ + said,
            ),
{
    match found {
        Ok(entries) => {
            if entries.len() == 0 {
                return InternalResponse::text(response::NOT_FOUND, "Not found");
            }
            let body = serialize_index_entries(entries.as_slice(), encode);
            InternalResponse::json(body.as_str())
        },
        Err(e) => {
            let said = e.to_text();
            InternalResponse::text(
                response::BAD_GATEWAY,
                text::concat("Failed to lookup crate: ", said.as_str()).as_str(),
            )
        },
    }
}

/// Whether `result` refuses a publish request with the given text.
pub open spec fn is_refused(
    result: Result<(PublishMetadata, &[u8]), InternalResponse>,
    said: Seq<char>,
) -> bool {
    result is Err && result->Err_0@ == response::text_reply(response::BAD_REQUEST, said)
}

/// Whether `result` is what a publish request holds, or the answer to a malformed one, where
/// `decoded` is what the metadata in `body` decodes to.
pub open spec fn is_taken(
    result: Result<(PublishMetadata, &[u8]), InternalResponse>,
    body: Seq<u8>,
    decoded: Result<PublishMetadata, serde_json::Error>,
) -> bool {
    match decoded {
        Err(e) => exists|said: Seq<char>| #[trigger]
            describes_parse_error(said, ParseError::InvalidJson(e)) && is_refused(result, said),
        Ok(metadata) => match crate_bytes(body) {
            None => is_refused(result, "request body too short"@),
            Some(data) => result is Ok && result->Ok_0.0 == metadata && result->Ok_0.1@ == data,
        },
    }
}

/// What a publish request holds, its metadata as `decode` makes it of its bytes; or the answer to
/// a request that is malformed.
pub fn handle_api_publish<'a, F>(body: &'a [u8], decode: F) -> (r: Result<
    (PublishMetadata, &'a [u8]),
    InternalResponse,
>) where F: FnOnce(&[u8]) -> Result<PublishMetadata, serde_json::Error>
    requires
        forall|json: &[u8]| #[trigger] call_requires(decode, (json,)),
    ensures
        metadata_bytes(body@) is None ==> is_refused(r, "request body too short"@),
        metadata_bytes(body@) matches Some(bytes) ==> exists|
            json: &[u8],
            decoded: Result<PublishMetadata, serde_json::Error>,
        |
            json@ == bytes && #[trigger] call_ensures(decode, (json,), decoded) && is_taken(
                r,
                body@,
                decoded,
            ),
{
    match parse_publish_body(body, decode) {
        Ok(parsed) => Ok(parsed),
        Err(e) => {
            let said = e.to_text();
            Err(InternalResponse::text(response::BAD_REQUEST, said.as_str()))
        },
    }
}

/// The answer to an index request where the registry failed, and its error says `said`.
pub open spec fn lookup_failure(said: Seq<char>) -> response::ResponseView {
    response::text_reply(response::BAD_GATEWAY, "Failed to lookup crate: "@ + said)
}

/// The answer to a publish request that came to nothing by an error that says `said`.
pub open spec fn publish_failure(error: RegistryError, said: Seq<char>) -> response::ResponseView {
    match error {
        RegistryError::ValidationFailed(errors) => response::text_reply(
            response::BAD_REQUEST,
            "Validation failed: "@ + text::joined(text::texts(errors@), "; "@),
        ),
        _ => response::text_reply(
            response::INTERNAL_SERVER_ERROR,
            "Failed to publish: "@ + said,
        ),
    }
}

/// The answer to a download request that came to nothing by an error that says `said`.
pub open spec fn download_failure(error: RegistryError, said: Seq<char>) -> response::ResponseView {
    match error {
        RegistryError::NotFound => response::text_reply(response::NOT_FOUND, "Crate not found"@),
        _ => response::text_reply(response::BAD_GATEWAY, "Failed to download: "@ + said),
    }
}

/// The answer to a publish request, where `outcome` is what came of publishing and `accepted` is
/// the JSON text for a publish that went through.
pub fn publish_reply(outcome: Result<String, RegistryError>, accepted: &str) -> (r:
    InternalResponse)
    ensures
        outcome is Ok ==> r@ == response::json_reply(accepted@),
        outcome matches Err(RegistryError::ValidationFailed(errors)) ==> r@
            == response::text_reply(
            response::BAD_REQUEST,
            "Validation failed: "@ + text::joined(text::texts(errors@), "; "@),
        ),
        outcome matches Err(e) ==> exists|said: Seq<char>| #[trigger]
            registry::describes(said, e) && r@ == publish_failure(e, said),
        outcome matches Err(e) ==> e is ValidationFailed || exists|said: Seq<char>| #[trigger]
            registry::describes(said, e) && r@ == response::text_reply(
                response::INTERNAL_SERVER_ERROR,
                "Failed to publish: "@ + said,
            ),
{
    match outcome {
        Ok(_) => InternalResponse::json(accepted),
        Err(RegistryError::ValidationFailed(errors)) => {
            let msg = text::join(errors.as_slice(), "; ");
            let ghost e = RegistryError::ValidationFailed(errors);
            assert(registry::is_detail(e, Seq::empty()));
            assert(registry::describes(registry::description(e, Seq::empty()), e));
            InternalResponse::text(
                response::BAD_REQUEST,
                text::concat("Validation failed: ", msg.as_str()).as_str(),
            )
        },
        Err(e) => {
            let said = e.to_text();
            InternalResponse::text(
                response::INTERNAL_SERVER_ERROR,
                text::concat("Failed to publish: ", said.as_str()).as_str(),
            )
        },
    }
}

/// The answer to a download request, where `outcome` is what came of looking for the crate file.
pub fn handle_api_download(outcome: Result<Vec<u8>, RegistryError>) -> (r: InternalResponse)
    ensures
        outcome matches Ok(data) ==> r@ == response::typed_reply(
            response::OK,
            "application/gzip"@,
            data@,
        ),
        outcome matches Err(RegistryError::NotFound) ==> r@ == response::text_reply(
            response::NOT_FOUND,
            "Crate not found"@,
        ),
        outcome matches Err(e) ==> exists|said: Seq<char>| #[trigger]
            registry::describes(said, e) && r@ == download_failure(e, said),
        outcome matches Err(e) ==> e is NotFound || exists|said: Seq<char>| #[trigger]
            registry::describes(said, e) && r@ == response::text_reply(
                response::BAD_GATEWAY,
                "Failed to download: "@ + said,
            ),
{
    match outcome {
        Ok(data) => InternalResponse::typed(response::OK, "application/gzip", data),
        Err(RegistryError::NotFound) => {
            let ghost e = RegistryError::NotFound;
            assert(registry::is_detail(e, Seq::empty()));
            assert(registry::describes(registry::description(e, Seq::empty()), e));
            InternalResponse::text(response::NOT_FOUND, "Crate not found")
        },
        Err(e) => {
            let said = e.to_text();
            InternalResponse::text(
                response::BAD_GATEWAY,
                text::concat("Failed to download: ", said.as_str()).as_str(),
            )
        },
    }
}

// ---------------------------------------------------------------------------
// Requests that go on to the upstream
// ---------------------------------------------------------------------------

/// The methods of requests that go on to the upstream.
pub open spec fn is_proxied_method(method: Seq<char>) -> bool {
    method == "GET"@ || method == "PUT"@ || method == "DELETE"@ || method == "POST"@
}

/// Whether requests with a method go on to the upstream.
pub fn check_proxied_method(method: &str) -> (r: bool)
    ensures
        r == is_proxied_method(method@),
{
    text::same_text(method, "GET") || text::same_text(method, "PUT") || text::same_text(
        method,
        "DELETE",
    ) || text::same_text(method, "POST")
}

/// The request for the upstream to which an API call goes on.
pub open spec fn api_call(
    method: Seq<char>,
    url: Seq<char>,
    headers: Seq<response::HeaderView>,
) -> response::RequestView {
    response::RequestView {
        method,
        url,
        headers: response::selected(headers, seq!["authorization"@, "accept"@]),
        body: None,
    }
}

/// The request for the upstream to which an API call goes on, with the header fields that go along.
fn api_request(method: &str, url: &str, headers: &[Header]) -> (r: OutboundRequest)
    ensures
        r@ == api_call(method@, url@, response::header_views(headers@)),
        r@ == (response::RequestView {
            method: method@,
            url: url@,
            headers: response::selected(
                response::header_views(headers@),
                seq!["authorization"@, "accept"@],
            ),
            body: None,
        }),
{
    let names: [&str; 2] = ["authorization", "accept"];
    assert(response::slice_texts(names@) =~= seq!["authorization"@, "accept"@]);
    OutboundRequest {
        method: String::from_str(method),
        url: String::from_str(url),
        headers: response::select_headers(headers, names.as_slice()),
        body: None,
    }
}

/// The request for the upstream to which a search or another API call goes on, with the header
/// fields that go along; or the answer to one with a method that does not go on.
pub fn proxy_api_request(method: &str, url: &str, headers: &[Header]) -> (r: Result<
    OutboundRequest,
    InternalResponse,
>)
    ensures
        r is Ok <==> is_proxied_method(method@),
        r matches Ok(request) ==> request@ == api_call(
            method@,
            url@,
            response::header_views(headers@),
        ),
        r matches Ok(request) ==> request@ == (response::RequestView {
            method: method@,
            url: url@,
            headers: response::selected(
                response::header_views(headers@),
                seq!["authorization"@, "accept"@],
            ),
            body: None,
        }),
        r matches Err(reply) ==> reply@ == response::text_reply(
            response::METHOD_NOT_ALLOWED,
            "Method not allowed"@,
        ),
{
    if !check_proxied_method(method) {
        return Err(InternalResponse::text(response::METHOD_NOT_ALLOWED, "Method not allowed"));
    }
    Ok(api_request(method, url, headers))
}

/// The address of a search at the upstream.
pub open spec fn search_address(upstream_api: Seq<char>, query: Option<Seq<char>>) -> Seq<char> {
    upstream_api + "/api/v1/crates"@ + (match query {
        Some(query) => "?"@ + query,
        None => Seq::empty(),
    })
}

/// The address of a search at the upstream.
pub fn search_url(upstream_api: &str, query: Option<&str>) -> (r: String)
    ensures
        r@ == search_address(
            upstream_api@,
            (match query {
                Some(query) => Some(query@),
                None => None,
            }),
        ),
{
    let mut url = text::concat(upstream_api, "/api/v1/crates");
    match query {
        Some(query) => {
            let part = text::concat("?", query);
            url.append(part.as_str());
        },
        None => {
            assert(url@ + Seq::<char>::empty() =~= url@);
        },
    }
    url
}

/// The request for the upstream to which a search goes on.
pub fn handle_api_search(upstream_api: &str, query: Option<&str>, headers: &[Header]) -> (r:
    OutboundRequest)
    ensures
        r@ == api_call(
            "GET"@,
            search_address(
                upstream_api@,
                (match query {
                    Some(query) => Some(query@),
                    None => None,
                }),
            ),
            response::header_views(headers@),
        ),
        r@ == (response::RequestView {
            method: "GET"@,
            url: search_address(
                upstream_api@,
                (match query {
                    Some(query) => Some(query@),
                    None => None,
                }),
            ),
            headers: response::selected(
                response::header_views(headers@),
                seq!["authorization"@, "accept"@],
            ),
            body: None,
        }),
{
    let url = search_url(upstream_api, query);
    api_request("GET", url.as_str(), headers)
}

// ---------------------------------------------------------------------------
// Laws
// ---------------------------------------------------------------------------

/// The bytes of a length are its digits to the base 256, the lowest first.
pub proof fn law_lengths_are_lowest_byte_first(bytes: Seq<u8>, at: int)
    requires
        0 <= at,
        at + 4 <= bytes.len(),
    ensures
        le32(bytes, at) % 256 == bytes[at],
        le32(bytes, at) / 256 % 256 == bytes[at + 1],
        le32(bytes, at) / 65536 % 256 == bytes[at + 2],
        le32(bytes, at) / 16777216 == bytes[at + 3],
{
    lemma_digits_to_256(
        bytes[at] as int,
        bytes[at + 1] as int,
        bytes[at + 2] as int,
        bytes[at + 3] as int,
    );
}

/// The digits of a number to the base 256.
proof fn lemma_digits_to_256(a: int, b: int, c: int, d: int)
    requires
        0 <= a < 256,
        0 <= b < 256,
        0 <= c < 256,
        0 <= d < 256,
    ensures
        ({
            let n = a + 256 * b + 65536 * c + 16777216 * d;
            &&& n % 256 == a
            &&& n / 256 % 256 == b
            &&& n / 65536 % 256 == c
            &&& n / 16777216 == d
        }),
{
    let n = a + 256 * b + 65536 * c + 16777216 * d;
    let upper = b + 256 * c + 65536 * d;
    let top = c + 256 * d;
    vstd::arithmetic::div_mod::lemma_fundamental_div_mod_converse(n, 256, upper, a);
    vstd::arithmetic::div_mod::lemma_fundamental_div_mod_converse(upper, 256, top, b);
    vstd::arithmetic::div_mod::lemma_fundamental_div_mod_converse(n, 65536, top, a + 256 * b);
    vstd::arithmetic::div_mod::lemma_fundamental_div_mod_converse(top, 256, d, c);
    vstd::arithmetic::div_mod::lemma_fundamental_div_mod_converse(
        n,
        16777216,
        d,
        a + 256 * b + 65536 * c,
    );
}

/// What is read from a body stands in it: the length of the metadata, the metadata, the length of
/// the crate file and the crate file, one behind the other from its beginning on.
pub proof fn law_parsed_parts_stand_in_the_body(body: Seq<u8>)
    requires
        metadata_bytes(body) is Some,
        crate_bytes(body) is Some,
    ensures
        publish_body(metadata_bytes(body)->0, crate_bytes(body)->0).is_prefix_of(body),
{
    let json = metadata_bytes(body)->0;
    let data = crate_bytes(body)->0;
    let n = json.len() as int;
    let m = data.len() as int;
    let all = publish_body(json, data);
    law_lengths_are_lowest_byte_first(body, 0);
    law_lengths_are_lowest_byte_first(body, 4 + n);
    assert(le32_bytes(json.len()) =~= body.subrange(0, 4));
    assert(le32_bytes(data.len()) =~= body.subrange(4 + n, 8 + n));
    assert(all =~= body.subrange(0, 8 + n + m));
}

/// A request is parsed exactly when its metadata decodes and its crate file is there, and gives
/// both. Metadata that does not decode is that error, and everything else is too short.
pub proof fn law_parse_outcomes(
    result: Result<(PublishMetadata, &[u8]), ParseError>,
    body: Seq<u8>,
    decoded: Result<PublishMetadata, serde_json::Error>,
)
    requires
        is_parsed(result, body, decoded),
    ensures
        result is Ok <==> decoded is Ok && crate_bytes(body) is Some,
        result matches Ok(parsed) ==> decoded == Ok::<PublishMetadata, serde_json::Error>(parsed.0)
            && crate_bytes(body) == Some(parsed.1@),
        decoded matches Err(e) ==> result == Err::<(PublishMetadata, &[u8]), ParseError>(
            ParseError::InvalidJson(e),
        ),
        decoded is Ok && crate_bytes(body) is None ==> result == Err::<
            (PublishMetadata, &[u8]),
            ParseError,
        >(ParseError::BodyTooShort),
{
}

/// A request is taken exactly when its metadata decodes and its crate file is there; every other
/// one is refused as a bad request.
pub proof fn law_requests_that_are_taken(
    result: Result<(PublishMetadata, &[u8]), InternalResponse>,
    body: Seq<u8>,
    decoded: Result<PublishMetadata, serde_json::Error>,
)
    requires
        is_taken(result, body, decoded),
    ensures
        result is Ok <==> decoded is Ok && crate_bytes(body) is Some,
        result matches Ok(taken) ==> decoded == Ok::<PublishMetadata, serde_json::Error>(taken.0)
            && crate_bytes(body) == Some(taken.1@),
        result matches Err(reply) ==> reply@.status == 400,
        decoded is Ok && result is Err ==> result->Err_0@.body == vstd::utf8::encode_utf8(
            "request body too short"@,
        ),
        decoded is Err ==> exists|detail: Seq<char>|
            outside::json_error_says(decoded->Err_0, detail) && result->Err_0@.body
                == #[trigger] vstd::utf8::encode_utf8("invalid metadata: "@ + detail),
{
    if decoded is Err {
        let e = decoded->Err_0;
        let said = choose|said: Seq<char>| #[trigger]
            describes_parse_error(said, ParseError::InvalidJson(e)) && is_refused(result, said);
        let detail = choose|detail: Seq<char>|
            is_parse_detail(ParseError::InvalidJson(e), detail) && said
                == #[trigger] parse_error_description(ParseError::InvalidJson(e), detail);
        assert(result->Err_0@.body == vstd::utf8::encode_utf8("invalid metadata: "@ + detail));
    }
}

/// Every entry that encodes is a line of its own, in its place; one that does not takes no other
/// one away.
pub proof fn law_entries_are_written_in_order(encoded: Seq<Option<String>>, one: Option<String>)
    ensures
        encoded_texts(Seq::empty()) == Seq::<Seq<char>>::empty(),
        one matches Some(line) ==> encoded_texts(encoded.push(one)) == encoded_texts(encoded).push(
            line@,
        ),
        one is None ==> encoded_texts(encoded.push(one)) == encoded_texts(encoded),
{
    assert(encoded.push(one).drop_last() =~= encoded);
}

/// What is encoded are the entries themselves, each in its place.
pub proof fn law_encoded_entries_are_the_entries<F: Fn(&IndexEntry) -> Option<String>>(
    encoded: Seq<Option<String>>,
    entries: Seq<IndexEntry>,
    encode: F,
    i: int,
)
    requires
        is_encoded(encoded, entries, encode),
        0 <= i < entries.len(),
    ensures
        encoded.len() == entries.len(),
        call_ensures(encode, (&entries[i],), encoded[i]),
{
}

/// A client that follows the configuration comes back to the registry: its API is there, and
/// crates are where a search at that API goes.
pub proof fn law_config_leads_to_the_registry(
    config: RegistryConfig,
    base: Seq<char>,
    query: Seq<char>,
)
    requires
        is_config_of(config, base),
    ensures
        config.api@ == base,
        config.dl@ == search_address(config.api@, None),
        search_address(config.api@, Some(query)) == config.dl@ + "?"@ + query,
        config.auth_required is None,
{
    assert(search_address(base, None) =~= config.dl@);
    assert(search_address(base, Some(query)) =~= config.dl@ + "?"@ + query);
}

/// Only these methods go on to the upstream, and the call that goes on has the method and the
/// address of the one that came, no body, and of its header fields the credentials and what is
/// accepted, as far as they are text, and nothing else.
pub proof fn law_api_calls_go_on(
    method: Seq<char>,
    url: Seq<char>,
    headers: Seq<response::HeaderView>,
    name: Seq<char>,
    said: Seq<char>,
)
    ensures
        is_proxied_method(method) <==> method == "GET"@ || method == "PUT"@ || method == "DELETE"@
            || method == "POST"@,
        api_call(method, url, headers).method == method,
        api_call(method, url, headers).url == url,
        api_call(method, url, headers).body is None,
        api_call(method, url, headers).headers.contains((name, said)) <==> (name
            == "authorization"@ || name == "accept"@) && response::first_value(headers, name)
            is Some && response::value_text(response::first_value(headers, name)->0) == Some(said),
{
    let fields = seq!["authorization"@, "accept"@];
    response::law_selected_fields(headers, fields, (name, said));
    assert(fields[0] == "authorization"@);
    assert(fields[1] == "accept"@);
}

/// What an error of parsing says: that the body is too short, or what is wrong with the metadata.
pub proof fn law_parse_errors_say_what_is_wrong(e: serde_json::Error, detail: Seq<char>)
    ensures
        parse_error_description(ParseError::BodyTooShort, detail) == "request body too short"@,
        parse_error_description(ParseError::InvalidJson(e), detail) == "invalid metadata: "@
            + detail,
{
}

/// A failure is answered by whose it is: metadata that does not pass is a bad request, with each of
/// its shortcomings; a crate that is not there is not found; every other failure to publish is the
/// registry's own, and to look up or to download one of what lies behind it. What went wrong is
/// said.
pub proof fn law_failures_by_their_cause(error: RegistryError, said: Seq<char>)
    ensures
        lookup_failure(said).status == 502,
        lookup_failure(said).body == vstd::utf8::encode_utf8("Failed to lookup crate: "@ + said),
        error is ValidationFailed ==> publish_failure(error, said).status == 400 && publish_failure(
            error,
            said,
        ).body == vstd::utf8::encode_utf8(
            "Validation failed: "@ + text::joined(
                text::texts(error->ValidationFailed_0@),
                "; "@,
            ),
        ),
        !(error is ValidationFailed) ==> publish_failure(error, said).status == 500
            && publish_failure(error, said).body == vstd::utf8::encode_utf8(
            "Failed to publish: "@ + said,
        ),
        error is NotFound ==> download_failure(error, said).status == 404 && download_failure(
            error,
            said,
        ).body == vstd::utf8::encode_utf8("Crate not found"@),
        !(error is NotFound) ==> download_failure(error, said).status == 502 && download_failure(
            error,
            said,
        ).body == vstd::utf8::encode_utf8("Failed to download: "@ + said),
{
}

} // verus!
