//! Requests that go out and responses that come back, as plain values.

use crate::text;
use vstd::prelude::*;
use vstd::string::*;
use vstd::utf8::*;

verus! {

broadcast use vstd::string::group_string_axioms;

// ---------------------------------------------------------------------------
// Headers
// ---------------------------------------------------------------------------

/// One header field. Names are in lower case, as HTTP libraries hold them; a value may be any
/// bytes.
#[derive(Debug)]
pub struct Header {
    pub name: String,
    pub value: Vec<u8>,
}

/// A header field as its name and its value.
pub type HeaderView = (Seq<char>, Seq<u8>);

impl View for Header {
    type V = HeaderView;

    open spec fn view(&self) -> HeaderView {
        (self.name@, self.value@)
    }
}

/// The header fields that a sequence of them holds.
pub open spec fn header_views(headers: Seq<Header>) -> Seq<HeaderView> {
    Seq::new(headers.len(), |i: int| headers[i]@)
}

/// The fields of header pairs that are text on both sides.
pub open spec fn pair_views(pairs: Seq<(String, String)>) -> Seq<(Seq<char>, Seq<char>)> {
    Seq::new(pairs.len(), |i: int| (pairs[i].0@, pairs[i].1@))
}

/// The texts that a sequence of string slices holds.
pub open spec fn slice_texts(names: Seq<&str>) -> Seq<Seq<char>> {
    Seq::new(names.len(), |i: int| names[i]@)
}

/// Whether a byte may stand in a header value that is read as text: a visible ASCII character,
/// a space or a tab.
pub open spec fn is_text_byte(b: u8) -> bool {
    32 <= b < 127 || b == 9
}

/// The text of a header value, where every byte of it may stand in text.
pub open spec fn value_text(value: Seq<u8>) -> Option<Seq<char>> {
    if forall|i: int| 0 <= i < value.len() ==> is_text_byte(#[trigger] value[i]) {
        Some(Seq::new(value.len(), |i: int| value[i] as char))
    } else {
        None
    }
}

/// The value of the first field called `name`.
pub open spec fn first_value(headers: Seq<HeaderView>, name: Seq<char>) -> Option<Seq<u8>>
    decreases headers.len(),
{
    if headers.len() == 0 {
        None
    } else if headers[0].0 == name {
        Some(headers[0].1)
    } else {
        first_value(headers.drop_first(), name)
    }
}

/// The text of the first field called `name`, where there is one and its value is text.
pub open spec fn header_text(headers: Seq<HeaderView>, name: Seq<char>) -> Option<Seq<char>> {
    match first_value(headers, name) {
        Some(value) => value_text(value),
        None => None,
    }
}

/// The fields of `headers` called `names`, in the order of `names`, as far as they are there and
/// their values are text.
pub open spec fn selected(headers: Seq<HeaderView>, names: Seq<Seq<char>>) -> Seq<
    (Seq<char>, Seq<char>),
>
    decreases names.len(),
{
    if names.len() == 0 {
        Seq::empty()
    } else {
        let before = selected(headers, names.drop_last());
        match header_text(headers, names.last()) {
            Some(text) => before.push((names.last(), text)),
            None => before,
        }
    }
}

/// The first fields of `headers` called `names`, in the order of `names`, as far as they are
/// there.
pub open spec fn picked(headers: Seq<HeaderView>, names: Seq<Seq<char>>) -> Seq<HeaderView>
    decreases names.len(),
{
    if names.len() == 0 {
        Seq::empty()
    } else {
        let before = picked(headers, names.drop_last());
        match first_value(headers, names.last()) {
            Some(value) => before.push((names.last(), value)),
            None => before,
        }
    }
}

/// Whether a field of an upstream response is handed on: all but those that belong to the
/// connection that it came over.
pub open spec fn is_relayed(header: HeaderView) -> bool {
    header.0 != "transfer-encoding"@ && header.0 != "connection"@
}

impl Header {
    pub fn new(name: &str, value: &str) -> (r: Self)
        ensures
            r@ == (name@, encode_utf8(value@)),
    {
        Header { name: String::from_str(name), value: value.as_bytes_vec() }
    }

    /// The value as text, where every byte of it may stand in text.
    pub fn to_text(&self) -> (r: Option<String>)
        ensures
            r matches Some(text) ==> value_text(self.value@) == Some(text@),
            r is None ==> value_text(self.value@) is None,
    {
        let mut out = String::new();
        let mut i: usize = 0;
        while i < self.value.len()
            invariant
                i <= self.value@.len(),
                out@.len() == i,
                forall|j: int| 0 <= j < i ==> is_text_byte(#[trigger] self.value@[j]),
                forall|j: int| 0 <= j < i ==> out@[j] == self.value@[j] as char,
            decreases self.value@.len() - i,
        {
            let b = self.value[i];
            if !((32 <= b && b < 127) || b == 9) {
                assert(!is_text_byte(self.value@[i as int]));
                return None;
            }
            out.push(b as char);
            i += 1;
        }
        assert(value_text(self.value@)->0 =~= out@);
        Some(out)
    }
}

/// The first field called `name`.
pub fn first_header<'a>(headers: &'a [Header], name: &str) -> (r: Option<&'a Header>)
    ensures
        r matches Some(h) ==> first_value(header_views(headers@), name@) == Some(h.value@),
        r is None ==> first_value(header_views(headers@), name@) is None,
{
    let ghost all = header_views(headers@);
    let mut i: usize = 0;
    assert(all.skip(0) == all);
    while i < headers.len()
        invariant
            i <= headers@.len(),
            all == header_views(headers@),
            first_value(all, name@) == first_value(all.skip(i as int), name@),
        decreases headers@.len() - i,
    {
        assert(all.skip(i as int)[0] == headers@[i as int]@);
        if text::same_text(headers[i].name.as_str(), name) {
            return Some(&headers[i]);
        }
        assert(all.skip(i as int).drop_first() == all.skip(i + 1));
        i += 1;
    }
    None
}

/// The fields called `names`, in the order of `names`, as far as they are there and their values
/// are text.
pub fn select_headers(headers: &[Header], names: &[&str]) -> (r: Vec<(String, String)>)
    ensures
        pair_views(r@) == selected(header_views(headers@), slice_texts(names@)),
{
    let ghost all = header_views(headers@);
    let ghost wanted = slice_texts(names@);
    let mut out: Vec<(String, String)> = Vec::new();
    let mut i: usize = 0;
    assert(pair_views(out@) =~= selected(all, wanted.take(0)));
    while i < names.len()
        invariant
            i <= names@.len(),
            all == header_views(headers@),
            wanted == slice_texts(names@),
            pair_views(out@) == selected(all, wanted.take(i as int)),
        decreases names@.len() - i,
    {
        let ghost before = pair_views(out@);
        proof {
            assert(wanted.take(i + 1).drop_last() == wanted.take(i as int));
            assert(wanted.take(i + 1).last() == names@[i as int]@);
        }
        if let Some(header) = first_header(headers, names[i]) {
            if let Some(text) = header.to_text() {
                let ghost pair = (names@[i as int]@, text@);
                out.push((String::from_str(names[i]), text));
                assert(pair_views(out@) =~= before.push(pair));
            }
        }
        i += 1;
    }
    assert(wanted.take(i as int) == wanted);
    out
}

/// The first fields called `names`, in the order of `names`, as far as they are there.
pub fn pick_headers(headers: &[Header], names: &[&str]) -> (r: Vec<Header>)
    ensures
        header_views(r@) == picked(header_views(headers@), slice_texts(names@)),
{
    let ghost all = header_views(headers@);
    let ghost wanted = slice_texts(names@);
    let mut out: Vec<Header> = Vec::new();
    let mut i: usize = 0;
    assert(header_views(out@) =~= picked(all, wanted.take(0)));
    while i < names.len()
        invariant
            i <= names@.len(),
            all == header_views(headers@),
            wanted == slice_texts(names@),
            header_views(out@) == picked(all, wanted.take(i as int)),
        decreases names@.len() - i,
    {
        let ghost before = header_views(out@);
        proof {
            assert(wanted.take(i + 1).drop_last() == wanted.take(i as int));
            assert(wanted.take(i + 1).last() == names@[i as int]@);
        }
        if let Some(header) = first_header(headers, names[i]) {
            let copy = Header {
                name: String::from_str(names[i]),
                value: vstd::slice::slice_to_vec(header.value.as_slice()),
            };
            let ghost field = copy@;
            out.push(copy);
            assert(header_views(out@) =~= before.push(field));
        }
        i += 1;
    }
    assert(wanted.take(i as int) == wanted);
    out
}

/// The fields of an upstream response that are handed on, in their order.
pub fn relay_headers(headers: Vec<Header>) -> (r: Vec<Header>)
    ensures
        header_views(r@) == header_views(headers@).filter(|h: HeaderView| is_relayed(h)),
{
    let ghost all = header_views(headers@);
    let ghost given = headers@;
    let ghost keep = |h: HeaderView| is_relayed(h);
    let mut out: Vec<Header> = Vec::new();
    assert(header_views(out@) =~= all.take(0).filter(keep)) by {
        reveal(Seq::filter);
    }
    for header in it: headers
        invariant
            it.seq() == given,
            all == header_views(given),
            keep == (|h: HeaderView| is_relayed(h)),
            header_views(out@) == all.take(it.index() as int).filter(keep),
    {
        let ghost n = it.index() as int;
        let ghost before = header_views(out@);
        proof {
            reveal(Seq::filter);
            assert(all.take(n + 1).drop_last() == all.take(n));
            assert(all.take(n + 1).last() == header@);
        }
        if !text::same_text(header.name.as_str(), "transfer-encoding") && !text::same_text(
            header.name.as_str(),
            "connection",
        ) {
            out.push(header);
            assert(header_views(out@) =~= before.push(header@));
        }
    }
    assert(all.take(all.len() as int) == all);
    out
}

// ---------------------------------------------------------------------------
// Responses
// ---------------------------------------------------------------------------

/// A response as it is sent: its status, its header fields in their order, and its body.
#[derive(Debug)]
pub struct InternalResponse {
    pub status: u16,
    pub headers: Vec<Header>,
    pub body: Vec<u8>,
}

/// A response as mathematical values.
#[verifier::ext_equal]
pub struct ResponseView {
    pub status: u16,
    pub headers: Seq<HeaderView>,
    pub body: Seq<u8>,
}

impl View for InternalResponse {
    type V = ResponseView;

    open spec fn view(&self) -> ResponseView {
        ResponseView {
            status: self.status,
            headers: header_views(self.headers@),
            body: self.body@,
        }
    }
}

pub const OK: u16 = 200;

pub const BAD_REQUEST: u16 = 400;

pub const NOT_FOUND: u16 = 404;

pub const METHOD_NOT_ALLOWED: u16 = 405;

pub const INTERNAL_SERVER_ERROR: u16 = 500;

pub const BAD_GATEWAY: u16 = 502;

/// A response with a body and no header fields.
pub open spec fn bare_reply(status: u16, text: Seq<char>) -> ResponseView {
    ResponseView { status, headers: Seq::empty(), body: encode_utf8(text) }
}

/// A response with a body of the given type.
pub open spec fn typed_reply(status: u16, content_type: Seq<char>, body: Seq<u8>) -> ResponseView {
    ResponseView { status, headers: seq![("content-type"@, encode_utf8(content_type))], body }
}

/// A response that is a plain text.
pub open spec fn text_reply(status: u16, text: Seq<char>) -> ResponseView {
    typed_reply(status, "text/plain; charset=utf-8"@, encode_utf8(text))
}

/// A response that went well and is JSON.
pub open spec fn json_reply(text: Seq<char>) -> ResponseView {
    typed_reply(OK, "application/json"@, encode_utf8(text))
}

/// Whether a status says that the request went well.
pub open spec fn is_success(status: u16) -> bool {
    200 <= status < 300
}

/// `status` where HTTP has a place for it (three digits, from 100 on), and else that of an
/// internal error.
pub open spec fn valid_status(status: u16) -> u16 {
    if 100 <= status < 1000 {
        status
    } else {
        INTERNAL_SERVER_ERROR
    }
}

impl InternalResponse {
    pub fn bare(status: u16, text: &str) -> (r: Self)
        ensures
            r@ == bare_reply(status, text@),
    {
        let r = InternalResponse { status, headers: Vec::new(), body: text.as_bytes_vec() };
        assert(r@ =~= bare_reply(status, text@));
        r
    }

    pub fn typed(status: u16, content_type: &str, body: Vec<u8>) -> (r: Self)
        ensures
            r@ == typed_reply(status, content_type@, body@),
    {
        let ghost content = body@;
        let mut headers: Vec<Header> = Vec::new();
        headers.push(Header::new("content-type", content_type));
        let r = InternalResponse { status, headers, body };
        assert(r@ =~= typed_reply(status, content_type@, content));
        r
    }

    pub fn text(status: u16, text: &str) -> (r: Self)
        ensures
            r@ == text_reply(status, text@),
    {
        Self::typed(status, "text/plain; charset=utf-8", text.as_bytes_vec())
    }

    pub fn json(text: &str) -> (r: Self)
        ensures
            r@ == json_reply(text@),
    {
        Self::typed(OK, "application/json", text.as_bytes_vec())
    }
}

/// `status` where HTTP has a place for it, and else that of an internal error.
pub fn checked_status(status: u16) -> (r: u16)
    ensures
        r == valid_status(status),
{
    if 100 <= status && status < 1000 {
        status
    } else {
        INTERNAL_SERVER_ERROR
    }
}

// ---------------------------------------------------------------------------
// What the upstream is asked, and what it answers
// ---------------------------------------------------------------------------

/// A request to send to the upstream.
#[derive(Debug)]
pub struct OutboundRequest {
    pub method: String,
    pub url: String,
    pub headers: Vec<(String, String)>,
    pub body: Option<Vec<u8>>,
}

/// A request as mathematical values.
#[verifier::ext_equal]
pub struct RequestView {
    pub method: Seq<char>,
    pub url: Seq<char>,
    pub headers: Seq<(Seq<char>, Seq<char>)>,
    pub body: Option<Seq<u8>>,
}

/// The bytes of a body, where there is one.
pub open spec fn body_view(body: Option<Vec<u8>>) -> Option<Seq<u8>> {
    match body {
        Some(bytes) => Some(bytes@),
        None => None,
    }
}

impl View for OutboundRequest {
    type V = RequestView;

    open spec fn view(&self) -> RequestView {
        RequestView {
            method: self.method@,
            url: self.url@,
            headers: pair_views(self.headers@),
            body: body_view(self.body),
        }
    }
}

/// An answer of the upstream. Its body may have failed to arrive; then it is the error's text.
#[derive(Debug)]
pub struct UpstreamResponse {
    pub status: u16,
    pub headers: Vec<Header>,
    pub body: Result<Vec<u8>, String>,
}

/// The response that hands an answer of the upstream on. The answer is `Err` with the error's
/// text where there was none.
pub open spec fn relayed(answer: Result<UpstreamResponse, String>) -> ResponseView {
    match answer {
        Err(e) => text_reply(BAD_GATEWAY, "Failed to connect to upstream: "@ + e@),
        Ok(upstream) => match upstream.body {
            Err(e) => text_reply(BAD_GATEWAY, "Failed to read upstream response: "@ + e@),
            Ok(body) => ResponseView {
                status: valid_status(upstream.status),
                headers: header_views(upstream.headers@).filter(|h: HeaderView| is_relayed(h)),
                body: body@,
            },
        },
    }
}

/// The response that hands an answer of the upstream on.
pub fn relay_response(answer: Result<UpstreamResponse, String>) -> (r: InternalResponse)
    ensures
        r@ == relayed(answer),
{
    match answer {
        Err(e) => InternalResponse::text(
            BAD_GATEWAY,
            text::concat("Failed to connect to upstream: ", e.as_str()).as_str(),
        ),
        Ok(upstream) => match upstream.body {
            Err(e) => InternalResponse::text(
                BAD_GATEWAY,
                text::concat("Failed to read upstream response: ", e.as_str()).as_str(),
            ),
            Ok(body) => InternalResponse {
                status: checked_status(upstream.status),
                headers: relay_headers(upstream.headers),
                body,
            },
        },
    }
}

/// A response handed on from the upstream has none of the fields that belong to a connection,
/// and every other field that the upstream sent.
pub proof fn law_relayed_headers(answer: Result<UpstreamResponse, String>, header: HeaderView)
    requires
        answer matches Ok(upstream) && upstream.body is Ok,
    ensures
        relayed(answer).headers.contains(header) <==> is_relayed(header) && header_views(
            answer->Ok_0.headers@,
        ).contains(header),
{
    let all = header_views(answer->Ok_0.headers@);
    let keep = |h: HeaderView| is_relayed(h);
    let kept = all.filter(keep);
    broadcast use vstd::seq_lib::group_filter_ensures;

    if kept.contains(header) {
        all.lemma_filter_contains_rev(keep, header);
        assert(exists|i: int| 0 <= i < kept.len() && keep(#[trigger] kept[i]) && kept[i] == header);
    }
    if is_relayed(header) && all.contains(header) {
        let i = choose|i: int| 0 <= i < all.len() && all[i] == header;
        assert(keep(all[i]));
        assert(kept.contains(all[i]));
    }
}

// ---------------------------------------------------------------------------
// Laws
// ---------------------------------------------------------------------------

/// A value is text exactly when each of its bytes is a visible ASCII character, a space or a tab;
/// its text has one character for each byte, with the byte's number.
pub proof fn law_value_text_is_its_bytes(value: Seq<u8>)
    ensures
        value_text(value) is Some <==> forall|i: int|
            0 <= i < value.len() ==> 32 <= (#[trigger] value[i]) <= 126 || value[i] == 9,
        value_text(value) matches Some(said) ==> said.len() == value.len() && forall|i: int|
            0 <= i < value.len() ==> (#[trigger] said[i]) as u32 == value[i] as u32,
{
    if forall|i: int| 0 <= i < value.len() ==> 32 <= (#[trigger] value[i]) <= 126 || value[i] == 9 {
        assert forall|i: int| 0 <= i < value.len() implies is_text_byte(#[trigger] value[i]) by {}
    }
    if value_text(value) is Some {
        assert forall|i: int| 0 <= i < value.len() implies 32 <= (#[trigger] value[i]) <= 126
            || value[i] == 9 by {
            assert(is_text_byte(value[i]));
        }
    }
}

/// Of several fields with one name the first one counts, and where there is none, nothing does.
pub proof fn law_first_field_counts(headers: Seq<HeaderView>, name: Seq<char>)
    ensures
        first_value(headers, name) is None <==> forall|i: int|
            0 <= i < headers.len() ==> (#[trigger] headers[i]).0 != name,
        first_value(headers, name) matches Some(value) ==> exists|i: int|
            0 <= i < headers.len() && (#[trigger] headers[i]) == (name, value) && forall|j: int|
                0 <= j < i ==> (#[trigger] headers[j]).0 != name,
    decreases headers.len(),
{
    if headers.len() > 0 && headers[0].0 != name {
        let rest = headers.drop_first();
        law_first_field_counts(rest, name);
        if first_value(rest, name) is None {
            assert forall|i: int| 0 <= i < headers.len() implies (#[trigger] headers[i]).0
                != name by {
                if i > 0 {
                    assert(headers[i] == rest[i - 1]);
                }
            }
        } else {
            let value = first_value(rest, name)->0;
            let i = choose|i: int|
                0 <= i < rest.len() && (#[trigger] rest[i]) == (name, value) && forall|j: int|
                    0 <= j < i ==> (#[trigger] rest[j]).0 != name;
            assert(headers[i + 1] == (name, value));
            assert forall|j: int| 0 <= j < i + 1 implies (#[trigger] headers[j]).0 != name by {
                if j > 0 {
                    assert(headers[j] == rest[j - 1]);
                }
            }
        }
    } else if headers.len() > 0 {
        assert(headers[0] == (name, headers[0].1));
    }
}

/// Every selected field is called one of the names, and its text is that of the first field of
/// that name; the first field of each of the names is selected, where its value is text.
pub proof fn law_selected_fields(
    headers: Seq<HeaderView>,
    names: Seq<Seq<char>>,
    field: (Seq<char>, Seq<char>),
)
    ensures
        selected(headers, names).contains(field) <==> names.contains(field.0) && first_value(
            headers,
            field.0,
        ) is Some && value_text(first_value(headers, field.0)->0) == Some(field.1),
    decreases names.len(),
{
    let all = selected(headers, names);
    if names.len() > 0 {
        let before = selected(headers, names.drop_last());
        law_selected_fields(headers, names.drop_last(), field);
        let last = names.last();
        if before.contains(field) {
            let k = choose|k: int| 0 <= k < before.len() && before[k] == field;
            assert(all[k] == field);
        }
        if names.contains(field.0) {
            let i = choose|i: int| 0 <= i < names.len() && names[i] == field.0;
            if i < names.len() - 1 {
                assert(names.drop_last()[i] == field.0);
            } else if header_text(headers, last) == Some(field.1) {
                assert(all[all.len() - 1] == field);
            }
        }
        if names.drop_last().contains(field.0) {
            let i = choose|i: int|
                0 <= i < names.len() - 1 && names.drop_last()[i] == field.0;
            assert(names[i] == field.0);
        }
        if all.contains(field) && !before.contains(field) {
            let k = choose|k: int| 0 <= k < all.len() && all[k] == field;
            if k < before.len() {
                assert(before[k] == field);
            }
            assert(names[names.len() - 1] == field.0);
        }
    }
}

/// Every picked field is called one of the names and is the first field of that name; the first
/// field of each of the names is picked.
pub proof fn law_picked_fields(headers: Seq<HeaderView>, names: Seq<Seq<char>>, field: HeaderView)
    ensures
        picked(headers, names).contains(field) <==> names.contains(field.0) && first_value(
            headers,
            field.0,
        ) == Some(field.1),
    decreases names.len(),
{
    let all = picked(headers, names);
    if names.len() > 0 {
        let before = picked(headers, names.drop_last());
        law_picked_fields(headers, names.drop_last(), field);
        let last = names.last();
        if before.contains(field) {
            let k = choose|k: int| 0 <= k < before.len() && before[k] == field;
            assert(all[k] == field);
        }
        if names.contains(field.0) {
            let i = choose|i: int| 0 <= i < names.len() && names[i] == field.0;
            if i < names.len() - 1 {
                assert(names.drop_last()[i] == field.0);
            } else if first_value(headers, last) == Some(field.1) {
                assert(all[all.len() - 1] == field);
            }
        }
        if names.drop_last().contains(field.0) {
            let i = choose|i: int|
                0 <= i < names.len() - 1 && names.drop_last()[i] == field.0;
            assert(names[i] == field.0);
        }
        if all.contains(field) && !before.contains(field) {
            let k = choose|k: int| 0 <= k < all.len() && all[k] == field;
            if k < before.len() {
                assert(before[k] == field);
            }
            assert(names[names.len() - 1] == field.0);
        }
    }
}

/// A field is handed on exactly when it is called neither `transfer-encoding` nor `connection`.
pub proof fn law_all_but_connection_fields_are_handed_on(header: HeaderView)
    ensures
        is_relayed(header) <==> header.0 != "transfer-encoding"@ && header.0 != "connection"@,
{
}

/// An answer of the upstream is handed on with its own status and body, whatever they are; one
/// that failed to arrive is answered with a bad gateway, and with the error's text.
pub proof fn law_answers_are_handed_on(answer: Result<UpstreamResponse, String>)
    ensures
        answer matches Ok(upstream) ==> {
            &&& upstream.body matches Ok(body) ==> relayed(answer).body == body@
            &&& upstream.body is Ok && 100 <= upstream.status <= 999 ==> relayed(answer).status
                == upstream.status
            &&& upstream.body matches Err(e) ==> relayed(answer).status == 502 && relayed(
                answer,
            ).body == encode_utf8("Failed to read upstream response: "@ + e@)
        },
        answer matches Err(e) ==> relayed(answer).status == 502 && relayed(answer).body
            == encode_utf8("Failed to connect to upstream: "@ + e@),
{
}

/// Replies have the status and the body that they are made of. A text is plain text, JSON is
/// successful JSON, and a bare reply says nothing of its type; no reply has another field.
pub proof fn law_replies_are_what_they_are_made_of(
    status: u16,
    content_type: Seq<char>,
    body: Seq<u8>,
    said: Seq<char>,
)
    ensures
        bare_reply(status, said).status == status,
        bare_reply(status, said).headers.len() == 0,
        bare_reply(status, said).body == encode_utf8(said),
        typed_reply(status, content_type, body).status == status,
        typed_reply(status, content_type, body).headers == seq![
            ("content-type"@, encode_utf8(content_type)),
        ],
        typed_reply(status, content_type, body).body == body,
        text_reply(status, said).status == status,
        text_reply(status, said).headers == seq![
            ("content-type"@, encode_utf8("text/plain; charset=utf-8"@)),
        ],
        text_reply(status, said).body == encode_utf8(said),
        json_reply(said).status == 200,
        json_reply(said).headers == seq![("content-type"@, encode_utf8("application/json"@))],
        json_reply(said).body == encode_utf8(said),
{
}

/// The statuses by their numbers, which of them are a success, and which HTTP has a place for.
pub proof fn law_statuses(status: u16)
    ensures
        OK == 200 && BAD_REQUEST == 400 && NOT_FOUND == 404 && METHOD_NOT_ALLOWED == 405
            && INTERNAL_SERVER_ERROR == 500 && BAD_GATEWAY == 502,
        is_success(status) <==> status / 100 == 2,
        100 <= status <= 999 ==> valid_status(status) == status,
        status < 100 || status > 999 ==> valid_status(status) == 500,
{
}

/// No more fields are selected or picked than there are names.
pub proof fn law_one_field_for_each_name(headers: Seq<HeaderView>, names: Seq<Seq<char>>)
    ensures
        selected(headers, names).len() <= names.len(),
        picked(headers, names).len() <= names.len(),
    decreases names.len(),
{
    if names.len() > 0 {
        law_one_field_for_each_name(headers, names.drop_last());
    }
}

/// Of the fields of an answer all but those that belong to the connection are handed on, in their
/// order and as often as they came.
pub proof fn law_handed_on_fields_keep_their_order(answer: Result<UpstreamResponse, String>)
    requires
        answer matches Ok(upstream) && upstream.body is Ok,
    ensures
        relayed(answer).headers == header_views(answer->Ok_0.headers@).filter(
            |h: HeaderView| h.0 != "transfer-encoding"@ && h.0 != "connection"@,
        ),
{
    assert((|h: HeaderView| is_relayed(h)) =~= (|h: HeaderView|
        h.0 != "transfer-encoding"@ && h.0 != "connection"@));
}

/// Header fields and pairs are seen as they are, each in its place, and so is a body.
pub proof fn law_views_are_of_each_field(
    headers: Seq<Header>,
    pairs: Seq<(String, String)>,
    body: Option<Vec<u8>>,
    i: int,
)
    ensures
        header_views(headers).len() == headers.len(),
        0 <= i < headers.len() ==> header_views(headers)[i].0 == headers[i].name@
            && header_views(headers)[i].1 == headers[i].value@,
        pair_views(pairs).len() == pairs.len(),
        0 <= i < pairs.len() ==> pair_views(pairs)[i].0 == pairs[i].0@ && pair_views(pairs)[i].1
            == pairs[i].1@,
        body_view(body) is Some <==> body is Some,
        body matches Some(bytes) ==> body_view(body)->0 == bytes@,
{
}

} // verus!
