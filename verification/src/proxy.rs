//! The decisions of the forwarding pipeline: what is read from a request,
//! what is sent upstream, and what is recorded of the answer.
//!
//! Nothing here performs I/O. The caller reads the inbound body, asks the
//! classifier, sends the upstream request and streams the answer; between
//! those steps it calls the functions below.

use vstd::prelude::*;
use vstd::string::{StrSliceExecFns, StringExecFns};
use vstd::utf8::encode_utf8;

use crate::json::{
    element_texts, elements, is_json, is_json_text, is_null, is_null_text, member, member_text,
    quote, quoted_text, string_text, string_value, texts_of, with_member, with_member_text,
};
use crate::metrics::RequestRecord;
use crate::router::ResolvedRoute;
use crate::text::{
    contains_text, decimal, decimal_text, has_infix, lower_char, lower_chars, lower_text,
    parse_u64, parsed_u64, spells, trim_trailing_slashes, without_trailing_slashes,
};

verus! {

/// One header line. A name may be written in any case; names are told
/// apart without regard to the case of ASCII letters.
#[derive(Debug)]
pub struct Header {
    pub name: String,
    pub value: Vec<u8>,
}

impl View for Header {
    type V = (Seq<char>, Seq<u8>);

    open spec fn view(&self) -> (Seq<char>, Seq<u8>) {
        (self.name@, self.value@)
    }
}

/// The headers as pairs of name and value.
pub open spec fn header_views(headers: Seq<Header>) -> Seq<(Seq<char>, Seq<u8>)> {
    headers.map_values(|h: Header| h@)
}

/// A byte that may stand in a header value: visible, or a tab.
pub open spec fn value_byte_ok(byte: u8) -> bool {
    (byte >= 32 && byte != 127) || byte == 9
}

/// Every byte may stand in a header value.
pub open spec fn header_value_ok(bytes: Seq<u8>) -> bool {
    forall|i: int| 0 <= i < bytes.len() ==> value_byte_ok(#[trigger] bytes[i])
}

/// Calls `http::HeaderValue::from_str` and reports whether it accepted the
/// text: it does so exactly where every byte is at least 32 and not 127, or
/// is a tab.
#[verifier::external_body]
fn header_value_accepts(text: &str) -> (ok: bool)
    ensures
        ok == header_value_ok(encode_utf8(text@)),
{
    http::HeaderValue::from_str(text).is_ok()
}

/// The lower-case names of the headers that concern one connection only.
pub open spec fn hop_word(name: Seq<char>) -> bool {
    ||| name == "connection"@
    ||| name == "keep-alive"@
    ||| name == "proxy-connection"@
    ||| name == "te"@
    ||| name == "trailer"@
    ||| name == "transfer-encoding"@
    ||| name == "upgrade"@
}

/// The headers that concern one connection only, in whatever case the name
/// is written.
pub open spec fn hop_by_hop(name: Seq<char>) -> bool {
    hop_word(lower_text(name))
}

fn spells_hop_word(lowered: &Vec<char>) -> (hop: bool)
    ensures
        hop == hop_word(lowered@),
{
    spells(lowered, "connection") || spells(lowered, "keep-alive") || spells(
        lowered,
        "proxy-connection",
    ) || spells(lowered, "te") || spells(lowered, "trailer") || spells(
        lowered,
        "transfer-encoding",
    ) || spells(lowered, "upgrade")
}

/// Whether a header concerns one connection only.
pub fn is_hop_by_hop(name: &str) -> (hop: bool)
    ensures
        hop == hop_by_hop(name@),
{
    let lowered = lower_chars(name);
    spells_hop_word(&lowered)
}

/// The headers whose values are kept out of the log, in whatever case the
/// name is written.
pub open spec fn sensitive(name: Seq<char>) -> bool {
    ||| lower_text(name) == "x-api-key"@
    ||| lower_text(name) == "authorization"@
    ||| lower_text(name) == "proxy-authorization"@
    ||| lower_text(name) == "cookie"@
}

/// Whether the value of a header is kept out of the log.
pub fn is_sensitive_header(name: &str) -> (hidden: bool)
    ensures
        hidden == sensitive(name@),
{
    let lowered = lower_chars(name);
    spells(&lowered, "x-api-key") || spells(&lowered, "authorization") || spells(
        &lowered,
        "proxy-authorization",
    ) || spells(&lowered, "cookie")
}

/// Which headers pass a filter. Towards the upstream: all but `host`, the
/// hop-by-hop headers and `accept-encoding`, the credentials where they are
/// stripped, and those that are set anew. Towards the client: all but the
/// hop-by-hop headers and `content-encoding`.
pub struct HeaderPolicy {
    pub outbound: bool,
    pub strip_auth: bool,
    pub injects_key: bool,
    pub sets_length: bool,
}

/// Whether a header passes whose name, in lower case, is `name`.
pub open spec fn word_passes(policy: HeaderPolicy, name: Seq<char>) -> bool {
    if policy.outbound {
        &&& name != "host"@
        &&& !hop_word(name)
        &&& name != "accept-encoding"@
        &&& !(policy.strip_auth && (name == "authorization"@ || name == "x-api-key"@))
        &&& !(policy.injects_key && name == "x-api-key"@)
        &&& !(policy.sets_length && name == "content-length"@)
    } else {
        &&& !hop_word(name)
        &&& name != "content-encoding"@
        &&& !(policy.sets_length && name == "content-length"@)
    }
}

/// Whether a header of this name passes, in whatever case it is written.
pub open spec fn passes(policy: HeaderPolicy, name: Seq<char>) -> bool {
    word_passes(policy, lower_text(name))
}

/// The predicate "passes" on headers.
pub open spec fn passing(policy: HeaderPolicy) -> spec_fn((Seq<char>, Seq<u8>)) -> bool {
    |h: (Seq<char>, Seq<u8>)| passes(policy, h.0)
}

fn check_passes(policy: &HeaderPolicy, name: &str) -> (pass: bool)
    ensures
        pass == passes(*policy, name@),
{
    let lowered = lower_chars(name);
    if policy.outbound {
        !spells(&lowered, "host") && !spells_hop_word(&lowered) && !spells(
            &lowered,
            "accept-encoding",
        ) && !(policy.strip_auth && (spells(&lowered, "authorization") || spells(
            &lowered,
            "x-api-key",
        ))) && !(policy.injects_key && spells(&lowered, "x-api-key")) && !(policy.sets_length
            && spells(&lowered, "content-length"))
    } else {
        !spells_hop_word(&lowered) && !spells(&lowered, "content-encoding") && !(
        policy.sets_length && spells(&lowered, "content-length"))
    }
}

fn copy_bytes(bytes: &[u8]) -> (copy: Vec<u8>)
    ensures
        copy@ == bytes@,
{
    let mut copy: Vec<u8> = Vec::new();
    let mut at: usize = 0;
    while at < bytes.len()
        invariant
            at <= bytes.len(),
            copy@ == bytes@.take(at as int),
        decreases bytes.len() - at,
    {
        copy.push(bytes[at]);
        proof {
            assert(bytes@.take(at + 1) =~= bytes@.take(at as int).push(bytes@[at as int]));
        }
        at = at + 1;
    }
    proof {
        assert(bytes@.take(bytes@.len() as int) =~= bytes@);
    }
    copy
}

fn filter_headers(headers: &Vec<Header>, policy: &HeaderPolicy) -> (kept: Vec<Header>)
    ensures
        header_views(kept@) == header_views(headers@).filter(passing(*policy)),
{
    let mut kept: Vec<Header> = Vec::new();
    let mut at: usize = 0;
    proof {
        reveal(Seq::filter);
        assert(header_views(headers@).take(0) =~= Seq::empty());
        assert(header_views(kept@) =~= Seq::empty());
    }
    while at < headers.len()
        invariant
            at <= headers.len(),
            header_views(kept@) == header_views(headers@).take(at as int).filter(
                passing(*policy),
            ),
        decreases headers.len() - at,
    {
        let header = &headers[at];
        proof {
            let seen = header_views(headers@).take(at as int);
            assert(header_views(headers@).take(at + 1) =~= seen.push(header@));
            seen.lemma_filter_push(header@, passing(*policy));
        }
        if check_passes(policy, header.name.as_str()) {
            let ghost before = kept@;
            let copy = Header { name: header.name.clone(), value: copy_bytes(header.value.as_slice()) };
            kept.push(copy);
            proof {
                assert(header_views(kept@) =~= header_views(before).push(header@));
            }
        }
        at = at + 1;
    }
    proof {
        assert(header_views(headers@).take(headers@.len() as int) =~= header_views(headers@));
    }
    kept
}

/// The key that is sent upstream in `x-api-key`: the route's key, where it
/// has one that may stand in a header value.
pub open spec fn injected_key(route: ResolvedRoute) -> Option<Seq<u8>> {
    match route.api_key {
        Some(key) => if header_value_ok(encode_utf8(key@)) {
            Some(encode_utf8(key@))
        } else {
            None
        },
        None => None,
    }
}

/// The filter towards the upstream of a route, for a body of `body_len` bytes.
pub open spec fn outbound_policy(route: ResolvedRoute, body_len: usize) -> HeaderPolicy {
    HeaderPolicy {
        outbound: true,
        strip_auth: route.strip_auth,
        injects_key: injected_key(route).is_some(),
        sets_length: body_len > 0,
    }
}

/// The headers of the upstream request: those of the inbound request that
/// pass, then the injected key, then the length of a non-empty body.
pub open spec fn forwarded_headers(
    inbound: Seq<(Seq<char>, Seq<u8>)>,
    route: ResolvedRoute,
    body_len: usize,
) -> Seq<(Seq<char>, Seq<u8>)> {
    let kept = inbound.filter(passing(outbound_policy(route, body_len)));
    let keyed = match injected_key(route) {
        Some(key) => kept.push(("x-api-key"@, key)),
        None => kept,
    };
    if body_len > 0 {
        keyed.push(("content-length"@, encode_utf8(decimal_text(body_len as nat))))
    } else {
        keyed
    }
}

/// The headers of the answer to the client: those of the upstream answer
/// that pass.
pub open spec fn returned_headers(upstream: Seq<(Seq<char>, Seq<u8>)>) -> Seq<
    (Seq<char>, Seq<u8>),
> {
    upstream.filter(
        passing(
            HeaderPolicy { outbound: false, strip_auth: false, injects_key: false, sets_length: false },
        ),
    )
}

proof fn lemma_set_names()
    ensures
        lower_text("x-api-key"@) == "x-api-key"@,
        lower_text("content-length"@) == "content-length"@,
        !hop_word("x-api-key"@),
        !hop_word("content-length"@),
        "x-api-key"@ != "host"@,
        "x-api-key"@ != "accept-encoding"@,
        "x-api-key"@ != "authorization"@,
        "x-api-key"@ != "content-encoding"@,
        "content-length"@ != "host"@,
        "content-length"@ != "accept-encoding"@,
        "content-length"@ != "authorization"@,
        "content-length"@ != "x-api-key"@,
        "content-length"@ != "content-encoding"@,
{
    reveal_strlit("x-api-key");
    reveal_strlit("content-length");
    reveal_strlit("host");
    reveal_strlit("accept-encoding");
    reveal_strlit("authorization");
    reveal_strlit("content-encoding");
    reveal_strlit("connection");
    reveal_strlit("keep-alive");
    reveal_strlit("proxy-connection");
    reveal_strlit("te");
    reveal_strlit("trailer");
    reveal_strlit("transfer-encoding");
    reveal_strlit("upgrade");
    assert("x-api-key"@.len() == 9);
    assert("content-length"@.len() == 14);
    assert("content-encoding"@.len() == 16);
    assert("proxy-connection"@.len() == 16);
    assert("content-encoding"@[0] == 'c');
    assert("proxy-connection"@[0] == 'p');
    assert("content-length"@[8] == 'l');
    assert("content-encoding"@[8] == 'e');
    let key = "x-api-key"@;
    assert(key =~= seq!['x', '-', 'a', 'p', 'i', '-', 'k', 'e', 'y']);
    assert(lower_text(key) =~= key) by {
        assert forall|i: int| 0 <= i < key.len() implies lower_char(#[trigger] key[i])
            == key[i] by {
            assert(key[i] == '-' || ('a' <= key[i] <= 'z'));
        }
    }
    let length = "content-length"@;
    assert(length =~= seq![
        'c',
        'o',
        'n',
        't',
        'e',
        'n',
        't',
        '-',
        'l',
        'e',
        'n',
        'g',
        't',
        'h',
    ]);
    assert(lower_text(length) =~= length) by {
        assert forall|i: int| 0 <= i < length.len() implies lower_char(#[trigger] length[i])
            == length[i] by {
            assert(length[i] == '-' || ('a' <= length[i] <= 'z'));
        }
    }
}

/// What holds of a header that is sent upstream on a route. Its name is
/// taken in lower case.
pub open spec fn clean_upstream(route: ResolvedRoute, header: (Seq<char>, Seq<u8>)) -> bool {
    let name = lower_text(header.0);
    &&& !hop_word(name)
    &&& name != "host"@
    &&& name != "accept-encoding"@
    &&& route.strip_auth ==> name != "authorization"@
    &&& (route.strip_auth || injected_key(route).is_some()) && name == "x-api-key"@
        ==> injected_key(route) == Some(header.1)
}

/// No hop-by-hop header, `host` or `accept-encoding` is sent upstream,
/// however the names are written. Where the route strips the credentials,
/// no `authorization` is sent, and an `x-api-key` that is sent holds the
/// route's own key.
pub proof fn lemma_forwarded_headers_are_clean(
    inbound: Seq<(Seq<char>, Seq<u8>)>,
    route: ResolvedRoute,
    body_len: usize,
)
    ensures
        forall|i: int|
            0 <= i < forwarded_headers(inbound, route, body_len).len() ==> clean_upstream(
                route,
                #[trigger] forwarded_headers(inbound, route, body_len)[i],
            ),
{
    lemma_set_names();
    let policy = outbound_policy(route, body_len);
    let kept = inbound.filter(passing(policy));
    assert forall|i: int| 0 <= i < kept.len() implies passes(policy, (#[trigger] kept[i]).0) by {
        inbound.lemma_filter_pred(passing(policy), i);
    }
    let out = forwarded_headers(inbound, route, body_len);
    assert forall|i: int| 0 <= i < out.len() implies clean_upstream(route, #[trigger] out[i]) by {
        if i < kept.len() {
            assert(out[i] == kept[i]);
            assert(passes(policy, kept[i].0));
        }
    }
}

/// No hop-by-hop header and no `content-encoding` is handed to the client,
/// however the names are written.
pub proof fn lemma_returned_headers_are_clean(upstream: Seq<(Seq<char>, Seq<u8>)>)
    ensures
        forall|i: int|
            0 <= i < returned_headers(upstream).len() ==> !hop_by_hop(
                (#[trigger] returned_headers(upstream)[i]).0,
            ) && lower_text(returned_headers(upstream)[i].0) != "content-encoding"@,
{
    let policy = HeaderPolicy {
        outbound: false,
        strip_auth: false,
        injects_key: false,
        sets_length: false,
    };
    assert forall|i: int| 0 <= i < returned_headers(upstream).len() implies !hop_by_hop(
        (#[trigger] returned_headers(upstream)[i]).0,
    ) && lower_text(returned_headers(upstream)[i].0) != "content-encoding"@ by {
        upstream.lemma_filter_pred(passing(policy), i);
    }
}

/// Builds the headers of the upstream request.
pub fn build_forwarding_headers(inbound: &Vec<Header>, route: &ResolvedRoute, body_len: usize) -> (out:
    Vec<Header>)
    ensures
        header_views(out@) == forwarded_headers(header_views(inbound@), *route, body_len),
{
    let key: Option<Vec<u8>> = match &route.api_key {
        Some(key) => if header_value_accepts(key.as_str()) {
            Some(key.as_str().as_bytes_vec())
        } else {
            None
        },
        None => None,
    };
    let policy = HeaderPolicy {
        outbound: true,
        strip_auth: route.strip_auth,
        injects_key: key.is_some(),
        sets_length: body_len > 0,
    };
    let mut out = filter_headers(inbound, &policy);
    match key {
        Some(value) => {
            let ghost before = out@;
            let header = Header { name: "x-api-key".to_owned(), value };
            out.push(header);
            proof {
                assert(header_views(out@) =~= header_views(before).push(header@));
            }
        },
        None => {},
    }
    if body_len > 0 {
        let ghost before = out@;
        let header = Header {
            name: "content-length".to_owned(),
            value: decimal(body_len as u64).as_str().as_bytes_vec(),
        };
        out.push(header);
        proof {
            assert(header_views(out@) =~= header_views(before).push(header@));
        }
    }
    out
}

/// Builds the headers of the answer to the client.
pub fn filter_response_headers(upstream: &Vec<Header>) -> (out: Vec<Header>)
    ensures
        header_views(out@) == returned_headers(header_views(upstream@)),
{
    let policy = HeaderPolicy {
        outbound: false,
        strip_auth: false,
        injects_key: false,
        sets_length: false,
    };
    filter_headers(upstream, &policy)
}

/// Why an inbound body is refused. Either way the client gets status 400.
#[derive(Clone, Copy, Debug, PartialEq, Eq, Structural)]
pub enum BodyError {
    TooLarge,
    InvalidJson,
}

impl BodyError {
    /// The status of the answer: 400.
    pub fn status(&self) -> (status: u16)
        ensures
            status == 400,
    {
        400
    }

    /// A short reason for the client.
    pub fn reason(&self) -> (text: String)
        ensures
            text@ == match *self {
                BodyError::TooLarge => "failed to read body: length limit exceeded"@,
                BodyError::InvalidJson => "invalid JSON body"@,
            },
    {
        match self {
            BodyError::TooLarge => "failed to read body: length limit exceeded".to_owned(),
            BodyError::InvalidJson => "invalid JSON body".to_owned(),
        }
    }
}

/// What routing needs from a body: the model that the client names, and the
/// messages, each as JSON text.
#[derive(Debug)]
pub struct ParsedBody {
    pub model: String,
    pub messages: Vec<String>,
}

/// The `model` of a JSON body: the member of that name where it is a string,
/// else the empty text.
pub open spec fn body_model(body: Seq<u8>) -> Seq<char> {
    match member_text(body, "model"@) {
        Some(member) => match string_text(encode_utf8(member)) {
            Some(model) => model,
            None => Seq::empty(),
        },
        None => Seq::empty(),
    }
}

/// The `messages` of a JSON body: the elements of the member of that name
/// where it is an array, else none.
pub open spec fn body_messages(body: Seq<u8>) -> Seq<Seq<char>> {
    match member_text(body, "messages"@) {
        Some(member) => match element_texts(encode_utf8(member)) {
            Some(items) => items,
            None => Seq::empty(),
        },
        None => Seq::empty(),
    }
}

/// Whether a body is accepted: within the size limit, and JSON unless empty.
pub open spec fn body_fault(body: Seq<u8>, max_body_size: usize) -> Option<BodyError> {
    if body.len() > max_body_size {
        Some(BodyError::TooLarge)
    } else if body.len() > 0 && !is_json_text(body) {
        Some(BodyError::InvalidJson)
    } else {
        None
    }
}

/// Checks an inbound body and reads the model and the messages from it. An
/// empty body has the empty model and no messages.
pub fn read_body(body: &[u8], max_body_size: usize) -> (out: Result<ParsedBody, BodyError>)
    ensures
        match out {
            Ok(parsed) => {
                &&& body_fault(body@, max_body_size).is_none()
                &&& parsed.model@ == if body@.len() == 0 {
                    Seq::<char>::empty()
                } else {
                    body_model(body@)
                }
                &&& texts_of(parsed.messages@) == if body@.len() == 0 {
                    Seq::<Seq<char>>::empty()
                } else {
                    body_messages(body@)
                }
            },
            Err(fault) => body_fault(body@, max_body_size) == Some(fault),
        },
{
    if body.len() > max_body_size {
        return Err(BodyError::TooLarge);
    }
    if body.len() == 0 {
        let parsed = ParsedBody { model: String::new(), messages: Vec::new() };
        proof {
            assert(texts_of(parsed.messages@) =~= Seq::<Seq<char>>::empty());
        }
        return Ok(parsed);
    }
    if !is_json(body) {
        return Err(BodyError::InvalidJson);
    }
    let model = match member(body, "model") {
        Some(found) => match string_value(found.as_str().as_bytes()) {
            Some(model) => model,
            None => String::new(),
        },
        None => String::new(),
    };
    let messages: Vec<String> = match member(body, "messages") {
        Some(found) => match elements(found.as_str().as_bytes()) {
            Some(items) => items,
            None => Vec::new(),
        },
        None => Vec::new(),
    };
    proof {
        if body_messages(body@).len() == 0 {
            assert(texts_of(messages@) =~= Seq::<Seq<char>>::empty());
        }
    }
    Ok(ParsedBody { model, messages })
}

/// A response that the proxy makes up itself.
#[derive(Debug)]
pub struct LocalResponse {
    pub status: u16,
    pub content_type: String,
    pub body: String,
}

/// The answer to a token count that the provider cannot give: status 200 and
/// a count of zero.
pub fn stub_count_tokens_response() -> (response: LocalResponse)
    ensures
        response.status == 200,
        response.content_type@ == "application/json"@,
        response.body@ == "{\"input_tokens\":0}"@,
{
    LocalResponse {
        status: 200,
        content_type: "application/json".to_owned(),
        body: "{\"input_tokens\":0}".to_owned(),
    }
}

/// What to do with an accepted request.
#[derive(Debug)]
pub enum RequestPlan {
    /// Answer with `stub_count_tokens_response`; the upstream is not contacted.
    Stub,
    /// Send this request upstream.
    Forward { url: String, headers: Vec<Header>, body: Vec<u8> },
}

/// A request for a token count on a route whose provider has none.
pub open spec fn stubbed(route: ResolvedRoute, path: Seq<char>) -> bool {
    has_infix(path, "/count_tokens"@) && route.stub_count_tokens
}

/// A JSON body with `model` set to `model`: an object gets or changes the
/// member, `null` becomes an object with that member alone, and any other
/// body stays as it came.
pub open spec fn with_model(body: Seq<u8>, model: Seq<char>) -> Seq<u8> {
    if is_null_text(body) {
        encode_utf8("{\"model\":"@ + quoted_text(model) + "}"@)
    } else {
        match with_member_text(body, "model"@, model) {
            Some(text) => encode_utf8(text),
            None => body,
        }
    }
}

/// The body that is sent upstream: where the route rewrites the model, the
/// body with `model` set to the rewrite; else the body as it came.
pub open spec fn rewritten_body(route: ResolvedRoute, body: Seq<u8>) -> Seq<u8> {
    match route.model_rewrite {
        Some(model) => with_model(body, model@),
        None => body,
    }
}

/// The URL of the upstream request: the provider's URL without slashes at
/// its end, then the path and query of the inbound request.
pub open spec fn upstream_url(route: ResolvedRoute, path_and_query: Seq<char>) -> Seq<char> {
    without_trailing_slashes(route.provider_url@) + path_and_query
}

/// Sets `model` in a JSON body.
pub fn rewrite_model_in_body(body: &[u8], new_model: &str) -> (out: Vec<u8>)
    ensures
        out@ == with_model(body@, new_model@),
{
    if is_null(body) {
        let mut text = "{\"model\":".to_owned();
        text.append(quote(new_model).as_str());
        text.append("}");
        return text.as_str().as_bytes_vec();
    }
    match with_member(body, "model", new_model) {
        Some(text) => text.as_str().as_bytes_vec(),
        None => copy_bytes(body),
    }
}

/// Decides what to do with a request whose route is known: the stub for a
/// token count where the route asks for it, else the upstream request.
pub fn plan_request(
    route: &ResolvedRoute,
    path: &str,
    path_and_query: &str,
    headers: &Vec<Header>,
    body: &[u8],
) -> (plan: RequestPlan)
    ensures
        match plan {
            RequestPlan::Stub => stubbed(*route, path@),
            RequestPlan::Forward { url, headers: sent_headers, body: sent_body } => {
                &&& !stubbed(*route, path@)
                &&& url@ == upstream_url(*route, path_and_query@)
                &&& sent_body@ == rewritten_body(*route, body@)
                &&& header_views(sent_headers@) == forwarded_headers(
                    header_views(headers@),
                    *route,
                    sent_body@.len() as usize,
                )
            },
        },
{
    if contains_text(path, "/count_tokens") && route.stub_count_tokens {
        return RequestPlan::Stub;
    }
    let sent_body = match &route.model_rewrite {
        Some(model) => rewrite_model_in_body(body, model.as_str()),
        None => copy_bytes(body),
    };
    let mut url = trim_trailing_slashes(route.provider_url.as_str()).to_owned();
    url.append(path_and_query);
    let sent_headers = build_forwarding_headers(headers, route, sent_body.len());
    RequestPlan::Forward { url, headers: sent_headers, body: sent_body }
}

/// The value of the first header whose name, in lower case, is `name`.
pub open spec fn header_value(headers: Seq<(Seq<char>, Seq<u8>)>, name: Seq<char>) -> Option<
    Seq<u8>,
>
    decreases headers.len(),
{
    if headers.len() == 0 {
        None
    } else if lower_text(headers[0].0) == name {
        Some(headers[0].1)
    } else {
        header_value(headers.drop_first(), name)
    }
}

/// The token count that the header `name` gives, where it is there and a
/// number.
pub open spec fn token_hint(headers: Seq<(Seq<char>, Seq<u8>)>, name: Seq<char>) -> Option<u64> {
    match header_value(headers, name) {
        Some(value) => parsed_u64(value),
        None => None,
    }
}

/// Reads a token count from the first header whose name, in lower case, is
/// `name`.
pub fn parse_token_header(headers: &Vec<Header>, name: &str) -> (hint: Option<u64>)
    ensures
        hint == token_hint(header_views(headers@), name@),
{
    let mut at: usize = 0;
    proof {
        assert(header_views(headers@).skip(0) =~= header_views(headers@));
    }
    while at < headers.len()
        invariant
            at <= headers.len(),
            header_value(header_views(headers@), name@) == header_value(
                header_views(headers@).skip(at as int),
                name@,
            ),
        decreases headers.len() - at,
    {
        proof {
            let rest = header_views(headers@).skip(at as int);
            assert(rest[0] == headers@[at as int]@);
            assert(rest.drop_first() =~= header_views(headers@).skip(at + 1));
        }
        let lowered = lower_chars(headers[at].name.as_str());
        if spells(&lowered, name) {
            return parse_u64(headers[at].value.as_slice());
        }
        at = at + 1;
    }
    None
}

/// What is known of an upstream answer before its body is read.
#[derive(Debug)]
pub struct ResponsePlan {
    /// The headers for the client.
    pub headers: Vec<Header>,
    pub input_tokens: u64,
    pub output_tokens: u64,
    /// Whether the status is 400 or above: the body is then read up to the
    /// size limit and the record is final; else the body is streamed and
    /// the record stays pending until the stream ends.
    pub is_error: bool,
}

/// Reads the usage hints and filters the headers of an upstream answer.
/// Without a hint the input tokens are estimated as a quarter of the bytes
/// of the request body, and the output tokens are zero.
pub fn plan_response(status: u16, upstream_headers: &Vec<Header>, request_body_len: usize) -> (plan:
    ResponsePlan)
    ensures
        header_views(plan.headers@) == returned_headers(header_views(upstream_headers@)),
        plan.input_tokens == match token_hint(
            header_views(upstream_headers@),
            "x-usage-input-tokens"@,
        ) {
            Some(tokens) => tokens,
            None => (request_body_len / 4) as u64,
        },
        plan.output_tokens == match token_hint(
            header_views(upstream_headers@),
            "x-usage-output-tokens"@,
        ) {
            Some(tokens) => tokens,
            None => 0,
        },
        plan.is_error == (status >= 400),
{
    let input_tokens = match parse_token_header(upstream_headers, "x-usage-input-tokens") {
        Some(tokens) => tokens,
        None => (request_body_len / 4) as u64,
    };
    let output_tokens = match parse_token_header(upstream_headers, "x-usage-output-tokens") {
        Some(tokens) => tokens,
        None => 0,
    };
    ResponsePlan {
        headers: filter_response_headers(upstream_headers),
        input_tokens,
        output_tokens,
        is_error: status >= 400,
    }
}

/// The marker that stands for an error body in a record.
pub open spec fn error_marker_text(status: u16, len: usize) -> Seq<char> {
    "HTTP "@ + decimal_text(status as nat) + " ("@ + decimal_text(len as nat) + " bytes)"@
}

/// Formats the marker for an error body of `len` bytes.
pub fn error_marker(status: u16, len: usize) -> (marker: String)
    ensures
        marker@ == error_marker_text(status, len),
{
    let mut marker = "HTTP ".to_owned();
    marker.append(decimal(status as u64).as_str());
    marker.append(" (");
    marker.append(decimal(len as u64).as_str());
    marker.append(" bytes)");
    marker
}

/// The record of a request whose upstream answered, before it is inserted:
/// without identifier and without error marker.
pub fn base_record(
    mono_ts: u64,
    wall_ts: i64,
    model: &str,
    route: &ResolvedRoute,
    status: u16,
    elapsed: u64,
    input_tokens: u64,
    output_tokens: u64,
) -> (record: RequestRecord)
    ensures
        record.id == 0,
        record.mono_ts == mono_ts,
        record.wall_ts == wall_ts,
        record.model@ == model@,
        record.provider == route.provider_name,
        record.routing_method == route.routing_method,
        record.status == status,
        record.duration == elapsed,
        record.input_tokens == input_tokens,
        record.output_tokens == output_tokens,
        record.error_body.is_none(),
{
    RequestRecord {
        id: 0,
        mono_ts,
        wall_ts,
        model: model.to_owned(),
        provider: route.provider_name.clone(),
        routing_method: route.routing_method,
        status,
        duration: elapsed,
        input_tokens,
        output_tokens,
        error_body: None,
    }
}

/// The record of a request that was answered with an error body of
/// `error_len` bytes.
pub fn error_record(base: RequestRecord, error_len: usize) -> (record: RequestRecord)
    ensures
        record.error_body.is_some(),
        record.error_body.unwrap()@ == error_marker_text(base.status, error_len),
        record == (RequestRecord { error_body: record.error_body, ..base }),
{
    let marker = error_marker(base.status, error_len);
    let mut record = base;
    record.error_body = Some(marker);
    record
}

/// The record of a request whose provider could not be reached: status 502,
/// with the marker for the `reason_len` bytes that the client is told.
pub fn unreachable_record(
    mono_ts: u64,
    wall_ts: i64,
    model: &str,
    route: &ResolvedRoute,
    elapsed: u64,
    request_body_len: usize,
    reason_len: usize,
) -> (record: RequestRecord)
    ensures
        record.id == 0,
        record.mono_ts == mono_ts,
        record.wall_ts == wall_ts,
        record.model@ == model@,
        record.provider == route.provider_name,
        record.routing_method == route.routing_method,
        record.status == 502,
        record.duration == elapsed,
        record.input_tokens == (request_body_len / 4) as u64,
        record.output_tokens == 0,
        record.error_body.is_some(),
        record.error_body.unwrap()@ == error_marker_text(502, reason_len),
{
    let base = base_record(
        mono_ts,
        wall_ts,
        model,
        route,
        502,
        elapsed,
        (request_body_len / 4) as u64,
        0,
    );
    error_record(base, reason_len)
}

/// The headers of an error answer: those of the upstream that pass, without
/// its `content-length`, and then the exact length of the body that is
/// handed on.
pub fn error_response_headers(upstream: &Vec<Header>, error_len: usize) -> (out: Vec<Header>)
    ensures
        header_views(out@) == header_views(upstream@).filter(
            passing(
                HeaderPolicy {
                    outbound: false,
                    strip_auth: false,
                    injects_key: false,
                    sets_length: true,
                },
            ),
        ).push(("content-length"@, encode_utf8(decimal_text(error_len as nat)))),
{
    let policy = HeaderPolicy {
        outbound: false,
        strip_auth: false,
        injects_key: false,
        sets_length: true,
    };
    let mut out = filter_headers(upstream, &policy);
    let ghost before = out@;
    let header = Header {
        name: "content-length".to_owned(),
        value: decimal(error_len as u64).as_str().as_bytes_vec(),
    };
    out.push(header);
    proof {
        assert(header_views(out@) =~= header_views(before).push(header@));
    }
    out
}

/// Adds a chunk of an error body to what was read so far, up to `max_size`
/// bytes in all, and says whether the limit is reached.
pub fn append_capped(buf: &mut Vec<u8>, chunk: &[u8], max_size: usize) -> (full: bool)
    requires
        old(buf)@.len() <= max_size,
    ensures
        final(buf)@ == (old(buf)@ + chunk@).take(
            if old(buf)@.len() + chunk@.len() <= max_size {
                (old(buf)@.len() + chunk@.len()) as int
            } else {
                max_size as int
            },
        ),
        full == (old(buf)@.len() + chunk@.len() >= max_size),
{
    let mut at: usize = 0;
    while at < chunk.len() && buf.len() < max_size
        invariant
            at <= chunk.len(),
            buf@.len() == old(buf)@.len() + at,
            buf@.len() <= max_size,
            buf@ == (old(buf)@ + chunk@).take(old(buf)@.len() + at),
        decreases chunk.len() - at,
    {
        buf.push(chunk[at]);
        proof {
            let all = old(buf)@ + chunk@;
            assert(all.take(old(buf)@.len() + at + 1) =~= all.take(old(buf)@.len() + at).push(
                chunk@[at as int],
            ));
        }
        at = at + 1;
    }
    buf.len() >= max_size
}

/// The output tokens of a finished stream: the upstream's hint where it gave
/// one, else a quarter of the bytes that were streamed.
pub fn best_token_estimate(header_hint: u64, streamed_bytes: u64) -> (tokens: u64)
    ensures
        tokens == if header_hint > 0 {
            header_hint
        } else {
            streamed_bytes / 4
        },
{
    if header_hint > 0 {
        header_hint
    } else {
        streamed_bytes / 4
    }
}

} // verus!
