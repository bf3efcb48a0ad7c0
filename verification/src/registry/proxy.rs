//! The overlay of the local layer on the upstream: index requests are answered from both, other
//! requests go on.

use crate::endpoints;
use crate::registry::index;
use crate::registry::index::IndexLine;
use crate::registry::publish;
use crate::response;
use crate::response::{Header, InternalResponse, OutboundRequest, UpstreamResponse};
use crate::text;
use vstd::prelude::*;
use vstd::string::*;
use vstd::utf8::*;

verus! {

broadcast use vstd::string::group_string_axioms;

// ---------------------------------------------------------------------------
// Paths of index requests
// ---------------------------------------------------------------------------

/// The path of an index request for a 1-character package name.
pub fn handle_index_1char(name: &str) -> (r: String)
    ensures
        r@ == "/1/"@ + name@,
{
    text::concat("/1/", name)
}

/// The path of an index request for a 2-character package name.
pub fn handle_index_2char(name: &str) -> (r: String)
    ensures
        r@ == "/2/"@ + name@,
{
    text::concat("/2/", name)
}

/// The path of an index request for a 3-character package name.
pub fn handle_index_3char(first_char: &str, name: &str) -> (r: String)
    ensures
        r@ == "/3/"@ + first_char@ + "/"@ + name@,
{
    let mut path = text::concat3("/3/", first_char, "/");
    path.append(name);
    path
}

/// The path of an index request for a package name of four or more characters.
pub fn handle_index_4plus(first_two: &str, second_two: &str, name: &str) -> (r: String)
    ensures
        r@ == "/"@ + first_two@ + "/"@ + second_two@ + "/"@ + name@,
{
    let mut path = text::concat3("/", first_two, "/");
    path.append(second_two);
    path.append("/");
    path.append(name);
    path
}

/// Where the local layer has the index file for a request path, below the registry's directory.
pub open spec fn local_index(path: Seq<char>) -> Seq<Seq<char>> {
    seq!["index"@, text::without_leading(path, '/')]
}

/// The components of the path to the local index file for a request path, below the registry's
/// directory. The second one may itself be a path.
pub fn local_index_file(path: &str) -> (r: Vec<String>)
    ensures
        text::texts(r@) == local_index(path@),
{
    let chars = text::chars_of(path);
    let rest = text::strip_leading(chars.as_slice(), '/');
    let mut out: Vec<String> = Vec::new();
    out.push(String::from_str("index"));
    out.push(text::string_of(rest));
    assert(text::texts(out@) =~= local_index(path@));
    out
}

/// The path of the index request for the crate with the lower-case name `name`: the components of
/// its index file below the index, each behind a slash.
pub open spec fn request_path(name: Seq<char>) -> Seq<char> {
    "/"@ + text::joined(publish::index_file(name).skip(1), "/"@)
}

/// The handlers take a request apart and put its path together again: for every crate name, the
/// path that the handler for its length makes of the components is that of the request.
pub proof fn law_handlers_make_request_paths(name: Seq<char>)
    requires
        publish::has_index_path(name),
    ensures
        ({
            let n = encode_utf8(name).len();
            let parts = publish::index_file(name);
            request_path(name) == (if n == 1 {
                "/1/"@ + name
            } else if n == 2 {
                "/2/"@ + name
            } else if n == 3 {
                "/3/"@ + parts[2] + "/"@ + name
            } else {
                "/"@ + parts[1] + "/"@ + parts[2] + "/"@ + name
            })
        }),
{
    reveal_strlit("/");
    reveal_strlit("/1/");
    reveal_strlit("/2/");
    reveal_strlit("/3/");
    reveal_strlit("1");
    reveal_strlit("2");
    reveal_strlit("3");
    let n = encode_utf8(name).len();
    let parts = publish::index_file(name);
    let rest = parts.skip(1);
    reveal_with_fuel(text::joined, 4);
    if n == 1 {
        assert(rest.drop_first() =~= seq![name]);
        assert("/1/"@ =~= "/"@ + "1"@ + "/"@);
        assert(request_path(name) =~= "/1/"@ + name);
    } else if n == 2 {
        assert(rest.drop_first() =~= seq![name]);
        assert("/2/"@ =~= "/"@ + "2"@ + "/"@);
        assert(request_path(name) =~= "/2/"@ + name);
    } else if n == 3 {
        assert(rest.drop_first() =~= seq![parts[2], name]);
        assert(rest.drop_first().drop_first() =~= seq![name]);
        assert("/3/"@ =~= "/"@ + "3"@ + "/"@);
        assert(request_path(name) =~= "/3/"@ + parts[2] + "/"@ + name);
    } else {
        assert(rest.drop_first() =~= seq![parts[2], name]);
        assert(rest.drop_first().drop_first() =~= seq![name]);
        assert(request_path(name) =~= "/"@ + parts[1] + "/"@ + parts[2] + "/"@ + name);
    }
}

/// The index file that a request looks for is the one that a publish writes: the same components,
/// each behind a slash.
pub proof fn law_lookup_finds_what_publish_wrote(name: Seq<char>)
    requires
        publish::has_index_path(name),
        name[0] != '/',
    ensures
        text::joined(local_index(request_path(name)), "/"@) == text::joined(
            publish::index_file(name),
            "/"@,
        ),
{
    let parts = publish::index_file(name);
    let rest = text::joined(parts.skip(1), "/"@);
    let path = request_path(name);
    reveal_strlit("/");
    reveal_strlit("1");
    reveal_strlit("2");
    reveal_strlit("3");
    reveal_with_fuel(text::joined, 3);
    assert(parts.skip(1)[0] == parts[1]);
    assert(rest.len() > 0 && rest[0] != '/') by {
        lemma_first_component(name);
        assert(rest[0] == parts[1][0]);
    }
    assert(path[0] == '/');
    assert(path.drop_first() =~= rest);
    reveal_with_fuel(text::without_leading, 3);
    assert(text::without_leading(path, '/') == rest);
    assert(local_index(path).drop_first() =~= seq![rest]);
    assert(parts.drop_first() =~= parts.skip(1));
}

/// The first directory of a crate's index is not empty and does not begin with a slash.
proof fn lemma_first_component(name: Seq<char>)
    requires
        publish::has_index_path(name),
        name[0] != '/',
    ensures
        publish::index_file(name)[1].len() > 0,
        publish::index_file(name)[1][0] != '/',
{
    reveal_strlit("1");
    reveal_strlit("2");
    reveal_strlit("3");
    let bytes = encode_utf8(name);
    if bytes.len() > 3 {
        encode_utf8_valid_utf8(name);
        encode_utf8_decode_utf8(name);
        decode_utf8_split(bytes, 2);
        valid_utf8_split(bytes, 2);
        let first = publish::byte_part(name, 0, 2);
        let head = bytes.subrange(0, 2);
        decode_utf8_encode_utf8(head);
        assert(first.len() > 0);
        assert(first[0] == name[0]);
    }
}

// ---------------------------------------------------------------------------
// Index requests
// ---------------------------------------------------------------------------

/// The header fields that go along with an index request to the upstream. What asks for an answer
/// only if something changed goes along only where there is nothing local to merge.
pub open spec fn index_request_fields(has_local: bool) -> Seq<Seq<char>> {
    if has_local {
        seq!["authorization"@]
    } else {
        seq!["if-none-match"@, "if-modified-since"@, "authorization"@]
    }
}

/// The request to the upstream for an index file, where `has_local` says whether the local layer
/// has lines for it.
pub open spec fn asked_upstream(
    upstream_index: Seq<char>,
    path: Seq<char>,
    headers: Seq<response::HeaderView>,
    has_local: bool,
) -> response::RequestView {
    response::RequestView {
        method: "GET"@,
        url: upstream_index + path,
        headers: response::selected(headers, index_request_fields(has_local)),
        body: None,
    }
}

/// Where there are local lines to merge, nothing conditional goes to the upstream, whatever the
/// client sent: every field of the request is called `authorization`, so that the upstream answers
/// with its lines and not that nothing changed.
pub proof fn law_merging_needs_fresh_lines(
    upstream_index: Seq<char>,
    path: Seq<char>,
    headers: Seq<response::HeaderView>,
    i: int,
)
    requires
        0 <= i < asked_upstream(upstream_index, path, headers, true).headers.len(),
    ensures
        ({
            let name = asked_upstream(upstream_index, path, headers, true).headers[i].0;
            &&& name == "authorization"@
            &&& name != "if-none-match"@
            &&& name != "if-modified-since"@
        }),
{
    reveal_strlit("authorization");
    reveal_strlit("if-none-match");
    reveal_strlit("if-modified-since");
    let all = asked_upstream(upstream_index, path, headers, true).headers;
    response::law_selected_fields(headers, index_request_fields(true), all[i]);
    assert(all.contains(all[i]));
    assert("authorization"@[0] == 'a' && "if-none-match"@[0] == 'i' && "if-modified-since"@[0]
        == 'i');
}

/// The credentials of the client go to the upstream with every index request. Where there are no
/// local lines, what makes the request conditional goes too, and nothing else ever does.
pub proof fn law_index_requests_hand_on(
    upstream_index: Seq<char>,
    path: Seq<char>,
    headers: Seq<response::HeaderView>,
    has_local: bool,
    name: Seq<char>,
    said: Seq<char>,
)
    ensures
        ({
            let asked = asked_upstream(upstream_index, path, headers, has_local);
            let sent = match response::first_value(headers, name) {
                Some(value) => response::value_text(value) == Some(said),
                None => false,
            };
            &&& asked.method == "GET"@
            &&& asked.url == upstream_index + path
            &&& asked.body is None
            &&& name == "authorization"@ ==> (asked.headers.contains((name, said)) <==> sent)
            &&& name == "if-none-match"@ || name == "if-modified-since"@ ==> (
            asked.headers.contains((name, said)) <==> sent && !has_local)
            &&& asked.headers.contains((name, said)) ==> name == "authorization"@ || name
                == "if-none-match"@ || name == "if-modified-since"@
        }),
{
    reveal_strlit("authorization");
    reveal_strlit("if-none-match");
    reveal_strlit("if-modified-since");
    assert("authorization"@[0] == 'a' && "if-none-match"@[0] == 'i' && "if-modified-since"@[0]
        == 'i');
    let fields = index_request_fields(has_local);
    response::law_selected_fields(headers, fields, (name, said));
    if has_local {
        assert(fields[0] == "authorization"@);
    } else {
        assert(fields[0] == "if-none-match"@);
        assert(fields[1] == "if-modified-since"@);
        assert(fields[2] == "authorization"@);
    }
}

/// The request to the upstream for an index file, where `has_local` says whether the local layer
/// has lines for it.
pub fn index_request(upstream_index: &str, path: &str, headers: &[Header], has_local: bool) -> (r:
    OutboundRequest)
    ensures
        r@ == asked_upstream(
            upstream_index@,
            path@,
            response::header_views(headers@),
            has_local,
        ),
        r@ == (response::RequestView {
            method: "GET"@,
            url: upstream_index@ + path@,
            headers: response::selected(
                response::header_views(headers@),
                index_request_fields(has_local),
            ),
            body: None,
        }),
        has_local ==> forall|i: int|
            0 <= i < r.headers@.len() ==> (#[trigger] r.headers@[i]).0@ == "authorization"@,
{
    let fields = if has_local {
        let names: [&str; 1] = ["authorization"];
        assert(response::slice_texts(names@) =~= index_request_fields(true));
        response::select_headers(headers, names.as_slice())
    } else {
        let names: [&str; 3] = ["if-none-match", "if-modified-since", "authorization"];
        assert(response::slice_texts(names@) =~= index_request_fields(false));
        response::select_headers(headers, names.as_slice())
    };
    proof {
        let all = response::header_views(headers@);
        let asked = asked_upstream(upstream_index@, path@, all, has_local);
        assert(response::pair_views(fields@) == asked.headers);
        if has_local {
            assert forall|i: int| 0 <= i < fields@.len() implies (#[trigger] fields@[i]).0@
                == "authorization"@ by {
                assert(response::pair_views(fields@)[i].0 == fields@[i].0@);
                law_merging_needs_fresh_lines(upstream_index@, path@, all, i);
            }
        }
    }
    OutboundRequest {
        method: String::from_str("GET"),
        url: text::concat(upstream_index, path),
        headers: fields,
        body: None,
    }
}

/// The header fields of the upstream's answer that an index answer has too. What marks a version
/// of the answer is left out where local lines were merged into it.
pub open spec fn index_answer_fields(has_local: bool) -> Seq<Seq<char>> {
    if has_local {
        seq!["content-type"@]
    } else {
        seq!["etag"@, "last-modified"@, "content-type"@]
    }
}

/// The answer from the local layer alone.
pub open spec fn local_answer(local: Seq<index::LineView>) -> response::ResponseView {
    response::json_reply(text::joined_lines(index::line_texts(local)))
}

/// The answer to an index request, from the lines `local` of the local layer, the upstream's
/// answer, and the lines `upstream` that a successful answer holds.
pub open spec fn index_answer(
    local: Seq<index::LineView>,
    answer: Result<UpstreamResponse, String>,
    upstream: Seq<index::LineView>,
) -> response::ResponseView {
    match answer {
        Err(e) => if local.len() > 0 {
            local_answer(local)
        } else {
            response::text_reply(
                response::BAD_GATEWAY,
                "Failed to connect to upstream: "@ + e@,
            )
        },
        Ok(found) => if found.status == response::NOT_FOUND && local.len() > 0 {
            local_answer(local)
        } else {
            match found.body {
                Err(e) => response::text_reply(
                    response::BAD_GATEWAY,
                    "Failed to read upstream response: "@ + e@,
                ),
                Ok(body) => response::ResponseView {
                    status: response::valid_status(found.status),
                    headers: response::picked(
                        response::header_views(found.headers@),
                        index_answer_fields(local.len() > 0),
                    ),
                    body: if response::is_success(found.status) {
                        encode_utf8(
                            text::joined_lines(index::line_texts(index::merged(upstream, local))),
                        )
                    } else {
                        body@
                    },
                },
            }
        },
    }
}

/// The text of a body as the index reads it; empty where there is none.
pub open spec fn answer_text(answer: Result<UpstreamResponse, String>) -> Seq<char> {
    match answer {
        Ok(found) => match found.body {
            Ok(body) => text::lossy_text(body@),
            Err(_) => Seq::empty(),
        },
        Err(_) => Seq::empty(),
    }
}

/// The answer to an index request, from the lines of the local layer and the upstream's answer.
/// The lines of a successful answer are about the versions that `version_of` finds in them.
pub fn index_reply<F: Fn(&str) -> Option<String>>(
    local: &[IndexLine],
    answer: Result<UpstreamResponse, String>,
    version_of: F,
) -> (r: InternalResponse)
    requires
        forall|line: &str| #[trigger] call_requires(version_of, (line,)),
    ensures
        exists|upstream: Seq<index::LineView>| #[trigger]
            index::is_tagged(upstream, publish::filled_lines(answer_text(answer)), version_of) && r@
                == index_answer(index::line_views(local@), answer, upstream),
{
    let source = match &answer {
        Ok(found) => match &found.body {
            Ok(body) => text::from_utf8_lossy(body.as_slice()),
            Err(_) => String::new(),
        },
        Err(_) => String::new(),
    };
    let lines = publish::split_filled_lines(source.as_str());
    let upstream = index::tag_lines(lines, version_of);
    proof {
        assert(source@ =~= answer_text(answer));
        assert(index::is_tagged(
            index::line_views(upstream@),
            publish::filled_lines(answer_text(answer)),
            version_of,
        ));
    }
    index_reply_for(local, answer, upstream)
}

/// The answer to an index request, from the lines of the local layer, the upstream's answer, and
/// the lines that a successful answer holds.
pub fn index_reply_for(
    local: &[IndexLine],
    answer: Result<UpstreamResponse, String>,
    upstream: Vec<IndexLine>,
) -> (r: InternalResponse)
    ensures
        r@ == index_answer(
            index::line_views(local@),
            answer,
            index::line_views(upstream@),
        ),
{
    let has_local = local.len() > 0;
    let found = match answer {
        Err(e) => {
            if has_local {
                return InternalResponse::json(index::render_lines(local).as_str());
            }
            return InternalResponse::text(
                response::BAD_GATEWAY,
                text::concat("Failed to connect to upstream: ", e.as_str()).as_str(),
            );
        },
        Ok(found) => found,
    };
    if found.status == response::NOT_FOUND && has_local {
        return InternalResponse::json(index::render_lines(local).as_str());
    }
    let headers = if has_local {
        let names: [&str; 1] = ["content-type"];
        assert(response::slice_texts(names@) =~= index_answer_fields(true));
        response::pick_headers(found.headers.as_slice(), names.as_slice())
    } else {
        let names: [&str; 3] = ["etag", "last-modified", "content-type"];
        assert(response::slice_texts(names@) =~= index_answer_fields(false));
        response::pick_headers(found.headers.as_slice(), names.as_slice())
    };
    match found.body {
        Err(e) => InternalResponse::text(
            response::BAD_GATEWAY,
            text::concat("Failed to read upstream response: ", e.as_str()).as_str(),
        ),
        Ok(body) => {
            let merged_body = if 200 <= found.status && found.status < 300 {
                let all = index::merge_index(upstream, local);
                index::render_lines(all.as_slice()).as_str().as_bytes_vec()
            } else {
                body
            };
            InternalResponse {
                status: response::checked_status(found.status),
                headers,
                body: merged_body,
            }
        },
    }
}

/// Lines of the local layer are never lost because of the upstream: where it fails, or does not
/// know the crate, they are the answer.
pub proof fn law_local_index_survives_upstream(
    local: Seq<index::LineView>,
    answer: Result<UpstreamResponse, String>,
    upstream: Seq<index::LineView>,
)
    requires
        local.len() > 0,
        answer matches Ok(found) ==> found.status == response::NOT_FOUND,
    ensures
        index_answer(local, answer, upstream) == local_answer(local),
{
}

/// Where there is nothing local, the upstream's answer is served: its status, what marks its
/// version, and its lines; an answer that is no success with its body as it is.
pub proof fn law_upstream_is_served_where_nothing_is_local(
    answer: Result<UpstreamResponse, String>,
    upstream: Seq<index::LineView>,
)
    requires
        answer matches Ok(found) && found.body is Ok,
    ensures
        ({
            let found = answer->Ok_0;
            index_answer(Seq::empty(), answer, upstream) == (response::ResponseView {
                status: response::valid_status(found.status),
                headers: response::picked(
                    response::header_views(found.headers@),
                    seq!["etag"@, "last-modified"@, "content-type"@],
                ),
                body: if response::is_success(found.status) {
                    encode_utf8(text::joined_lines(index::line_texts(upstream)))
                } else {
                    found.body->Ok_0@
                },
            })
        }),
{
}

// ---------------------------------------------------------------------------
// Other requests
// ---------------------------------------------------------------------------

/// The request for the upstream to which an API call goes on, with its body.
pub open spec fn api_call(
    method: Seq<char>,
    url: Seq<char>,
    headers: Seq<response::HeaderView>,
    body: Option<Seq<u8>>,
) -> response::RequestView {
    response::RequestView {
        method,
        url,
        headers: response::selected(
            headers,
            seq!["authorization"@, "content-type"@, "accept"@],
        ),
        body,
    }
}

/// A call that goes on has the method, the address and the body of the one that came, and of its
/// header fields the credentials, the type of the body and what is accepted, as far as they are
/// text, and nothing else.
pub proof fn law_api_calls_go_on(
    method: Seq<char>,
    url: Seq<char>,
    headers: Seq<response::HeaderView>,
    body: Option<Seq<u8>>,
    name: Seq<char>,
    said: Seq<char>,
)
    ensures
        api_call(method, url, headers, body).method == method,
        api_call(method, url, headers, body).url == url,
        api_call(method, url, headers, body).body == body,
        api_call(method, url, headers, body).headers.contains((name, said)) <==> (name
            == "authorization"@ || name == "content-type"@ || name == "accept"@)
            && response::first_value(headers, name) is Some && response::value_text(
            response::first_value(headers, name)->0,
        ) == Some(said),
{
    let fields = seq!["authorization"@, "content-type"@, "accept"@];
    response::law_selected_fields(headers, fields, (name, said));
    assert(fields[0] == "authorization"@);
    assert(fields[1] == "content-type"@);
    assert(fields[2] == "accept"@);
}

/// The request for the upstream to which an API call goes on, with its body and the header fields
/// that go along.
pub(crate) fn api_request(method: &str, url: &str, headers: &[Header], body: Option<Vec<u8>>) -> (r:
    OutboundRequest)
    ensures
        r@ == api_call(
            method@,
            url@,
            response::header_views(headers@),
            response::body_view(body),
        ),
        r@ == (response::RequestView {
            method: method@,
            url: url@,
            headers: response::selected(
                response::header_views(headers@),
                seq!["authorization"@, "content-type"@, "accept"@],
            ),
            body: response::body_view(body),
        }),
{
    let names: [&str; 3] = ["authorization", "content-type", "accept"];
    assert(response::slice_texts(names@) =~= seq!["authorization"@, "content-type"@, "accept"@]);
    OutboundRequest {
        method: String::from_str(method),
        url: String::from_str(url),
        headers: response::select_headers(headers, names.as_slice()),
        body,
    }
}

/// The request for the upstream to which an API call goes on, with its body and the header fields
/// that go along; or the answer to one with a method that does not go on.
pub fn proxy_api_request(method: &str, url: &str, headers: &[Header], body: Option<Vec<u8>>) -> (r:
    Result<OutboundRequest, InternalResponse>)
    ensures
        r is Ok <==> endpoints::is_proxied_method(method@),
        r matches Ok(request) ==> request@ == api_call(
            method@,
            url@,
            response::header_views(headers@),
            response::body_view(body),
        ),
        r matches Ok(request) ==> request@ == (response::RequestView {
            method: method@,
            url: url@,
            headers: response::selected(
                response::header_views(headers@),
                seq!["authorization"@, "content-type"@, "accept"@],
            ),
            body: response::body_view(body),
        }),
        r matches Err(reply) ==> reply@ == response::text_reply(
            response::METHOD_NOT_ALLOWED,
            "Method not allowed"@,
        ),
{
    if !endpoints::check_proxied_method(method) {
        return Err(InternalResponse::text(response::METHOD_NOT_ALLOWED, "Method not allowed"));
    }
    Ok(api_request(method, url, headers, body))
}

/// The request for the upstream to which a search goes on.
pub fn handle_api_search(upstream_api: &str, query: Option<&str>, headers: &[Header]) -> (r:
    OutboundRequest)
    ensures
        r@ == api_call(
            "GET"@,
            endpoints::search_address(
                upstream_api@,
                (match query {
                    Some(query) => Some(query@),
                    None => None,
                }),
            ),
            response::header_views(headers@),
            None,
        ),
        r@ == (response::RequestView {
            method: "GET"@,
            url: endpoints::search_address(
                upstream_api@,
                (match query {
                    Some(query) => Some(query@),
                    None => None,
                }),
            ),
            headers: response::selected(
                response::header_views(headers@),
                seq!["authorization"@, "content-type"@, "accept"@],
            ),
            body: None,
        }),
{
    let url = endpoints::search_url(upstream_api, query);
    api_request("GET", url.as_str(), headers, None)
}

// ---------------------------------------------------------------------------
// Laws
// ---------------------------------------------------------------------------

/// An answer into which local lines were merged has nothing that marks a version of the upstream's:
/// clients do not take it for what the upstream had. Where nothing was merged, the marks go along.
pub proof fn law_merged_answers_bear_no_marks(
    local: Seq<index::LineView>,
    answer: Result<UpstreamResponse, String>,
    upstream: Seq<index::LineView>,
    field: response::HeaderView,
)
    requires
        answer matches Ok(found) && found.body is Ok && found.status != response::NOT_FOUND,
    ensures
        ({
            let reply = index_answer(local, answer, upstream);
            let given = response::first_value(
                response::header_views(answer->Ok_0.headers@),
                field.0,
            ) == Some(field.1);
            &&& field.0 == "content-type"@ ==> (reply.headers.contains(field) <==> given)
            &&& field.0 == "etag"@ || field.0 == "last-modified"@ ==> (reply.headers.contains(field)
                <==> given && local.len() == 0)
            &&& reply.headers.contains(field) ==> field.0 == "content-type"@ || field.0 == "etag"@
                || field.0 == "last-modified"@
        }),
{
    reveal_strlit("content-type");
    reveal_strlit("etag");
    reveal_strlit("last-modified");
    assert("content-type"@.len() == 12 && "etag"@.len() == 4 && "last-modified"@.len() == 13);
    let fields = index_answer_fields(local.len() > 0);
    response::law_picked_fields(response::header_views(answer->Ok_0.headers@), fields, field);
    if local.len() > 0 {
        assert(fields[0] == "content-type"@);
    } else {
        assert(fields[0] == "etag"@);
        assert(fields[1] == "last-modified"@);
        assert(fields[2] == "content-type"@);
    }
}

/// A successful answer of the upstream is answered with its status, and with the text of the
/// upstream's lines and the local ones over them; another answer keeps its status and its body,
/// except that local lines stand in for a crate that the upstream does not know. Where there is no
/// answer, local lines are the answer, and without them it is a bad gateway that says why.
pub proof fn law_index_answers(
    local: Seq<index::LineView>,
    answer: Result<UpstreamResponse, String>,
    upstream: Seq<index::LineView>,
)
    ensures
        ({
            let reply = index_answer(local, answer, upstream);
            let json = seq![("content-type"@, encode_utf8("application/json"@))];
            let plain = seq![("content-type"@, encode_utf8("text/plain; charset=utf-8"@))];
            let alone = text::joined_lines(index::line_texts(local));
            let both = text::joined_lines(index::line_texts(index::merged(upstream, local)));
            match answer {
                Ok(found) => {
                    &&& found.body is Ok && 200 <= found.status <= 299 ==> reply.status
                        == found.status && reply.body == encode_utf8(both)
                    &&& found.status == 404 && local.len() > 0 ==> reply.status == 200
                        && reply.headers == json && reply.body == encode_utf8(alone)
                    &&& found.body is Ok && 100 <= found.status <= 999 && !(200 <= found.status
                        <= 299) && !(found.status == 404 && local.len() > 0) ==> reply.status
                        == found.status && reply.body == found.body->Ok_0@
                    &&& found.body is Err && !(found.status == 404 && local.len() > 0)
                        ==> reply.status == 502 && reply.headers == plain && reply.body
                        == encode_utf8("Failed to read upstream response: "@ + found.body->Err_0@)
                },
                Err(e) => {
                    &&& local.len() > 0 ==> reply.status == 200 && reply.headers == json
                        && reply.body == encode_utf8(alone)
                    &&& local.len() == 0 ==> reply.status == 502 && reply.headers == plain
                        && reply.body == encode_utf8("Failed to connect to upstream: "@ + e@)
                },
            }
        }),
{
}

/// The paths of index files, as they stand in requests for crates with ASCII names.
pub proof fn law_request_paths_by_name(name: Seq<char>)
    requires
        is_ascii_chars(name),
        name.len() > 0,
    ensures
        name.len() == 1 ==> request_path(name) == "/1/"@ + name,
        name.len() == 2 ==> request_path(name) == "/2/"@ + name,
        name.len() == 3 ==> request_path(name) == "/3/"@ + name.take(1) + "/"@ + name,
        name.len() > 3 ==> request_path(name) == "/"@ + name.take(2) + "/"@ + name.subrange(2, 4)
            + "/"@ + name,
{
    publish::law_index_files_by_name(name);
    law_handlers_make_request_paths(name);
    is_ascii_chars_encode_utf8(name);
}

/// The local index file for a request path is the path below the index, without the slashes that it
/// begins with.
pub proof fn law_local_index_is_below_the_index(rest: Seq<char>)
    requires
        rest.len() > 0 ==> rest[0] != '/',
    ensures
        local_index("/"@ + rest) == seq!["index"@, rest],
        local_index(rest) == seq!["index"@, rest],
{
    reveal_strlit("/");
    let path = "/"@ + rest;
    assert(path.drop_first() =~= rest);
    assert(path[0] == '/');
    reveal_with_fuel(text::without_leading, 3);
}

/// The lines of an answer are read from the text of its body; where there is no answer, or none of
/// its body, there are none.
pub proof fn law_lines_are_read_from_the_body(answer: Result<UpstreamResponse, String>)
    ensures
        answer matches Ok(found) ==> (found.body matches Ok(body) ==> answer_text(answer)
            == text::lossy_text(body@)),
        answer matches Ok(found) ==> (found.body is Err ==> text::lines(answer_text(answer)).len()
            == 0),
        answer is Err ==> text::lines(answer_text(answer)).len() == 0,
{
}

} // verus!
