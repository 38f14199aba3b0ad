//! The classifier: the request that is put to it and what is read from its
//! answer. The HTTP call itself is the caller's.

use regex::Regex;
use vstd::prelude::*;
use vstd::string::StringExecFns;
use vstd::utf8::encode_utf8;

use crate::config::AutoRouterConfig;
use crate::json::{
    element_texts, elements, member, member_text, quote, quoted_text, string_text, string_value,
    texts_of,
};
use crate::router::{
    capture_first, compile, first_capture, pattern_compiles, pattern_of, RouteCandidate,
};
use crate::text::text_eq;

verus! {

/// The pattern that finds a route in an answer that wraps it in prose.
pub open spec fn route_pattern() -> Seq<char> {
    "\\{\"route\"\\s*:\\s*\"([^\"]+)\"\\}"@
}

/// The head of the prompt, up to the list of routes.
pub open spec fn prompt_head() -> Seq<char> {
    "You are a helpful assistant designed to find the best suited route.\nYou are provided with route description within <routes></routes> XML tags:\n<routes>\n\n"@
}

/// The part of the prompt between the routes and the conversation.
pub open spec fn prompt_middle() -> Seq<char> {
    "\n\n</routes>\n\n<conversation>\n\n"@
}

/// The end of the prompt: the close of the conversation and the instructions.
pub open spec fn prompt_tail() -> Seq<char> {
    "\n\n</conversation>\nYour task is to decide which route is best suit with user intent on the conversation in <conversation></conversation> XML tags.  Follow the instruction:\n1. If the latest intent from user is irrelevant or user intent is full filled, response with other route {\"route\": \"other\"}.\n2. You must analyze the route descriptions and find the best match route for user latest intent.\n3. You only response the name of the route that best matches the user's request, use the exact name in the <routes></routes>.\n\nBased on your analysis, provide your response in the following JSON formats if you decide to match any route:\n{\"route\": \"route_name\"}\n"@
}

/// The texts joined by commas.
pub open spec fn comma_joined(items: Seq<Seq<char>>) -> Seq<char>
    decreases items.len(),
{
    if items.len() == 0 {
        Seq::empty()
    } else if items.len() == 1 {
        items[0]
    } else {
        comma_joined(items.drop_last()) + ","@ + items.last()
    }
}

/// The texts as a JSON array.
pub open spec fn array_text(items: Seq<Seq<char>>) -> Seq<char> {
    "["@ + comma_joined(items) + "]"@
}

/// A candidate as a JSON object.
pub open spec fn candidate_text(candidate: RouteCandidate) -> Seq<char> {
    "{\"description\":"@ + quoted_text(candidate.description@) + ",\"name\":"@ + quoted_text(
        candidate.name@,
    ) + "}"@
}

/// Whether a message, given as JSON text, has the role `system`.
pub open spec fn is_system(message: Seq<char>) -> bool {
    match member_text(encode_utf8(message), "role"@) {
        Some(role) => string_text(encode_utf8(role)) == Some("system"@),
        None => false,
    }
}

/// The predicate "is no system message".
pub open spec fn not_system() -> spec_fn(Seq<char>) -> bool {
    |message: Seq<char>| !is_system(message)
}

/// The prompt: the routes as a list of descriptions and names, and the
/// conversation without its system messages, in the fixed template.
pub open spec fn prompt_text(routes: Seq<RouteCandidate>, messages: Seq<Seq<char>>) -> Seq<char> {
    prompt_head() + array_text(routes.map_values(|c: RouteCandidate| candidate_text(c)))
        + prompt_middle() + array_text(messages.filter(not_system())) + prompt_tail()
}

fn join_array(items: &Vec<String>) -> (out: String)
    ensures
        out@ == array_text(texts_of(items@)),
{
    let mut joined = String::new();
    let mut at: usize = 0;
    let ghost texts = texts_of(items@);
    proof {
        assert(texts.take(0) =~= Seq::<Seq<char>>::empty());
    }
    while at < items.len()
        invariant
            at <= items.len(),
            texts == texts_of(items@),
            joined@ == comma_joined(texts.take(at as int)),
        decreases items.len() - at,
    {
        proof {
            let next = texts.take(at + 1);
            assert(next.drop_last() =~= texts.take(at as int));
            assert(next.last() == items@[at as int]@);
            if at == 0 {
                assert(joined@ + items@[at as int]@ =~= items@[at as int]@);
            }
        }
        if at > 0 {
            joined.append(",");
        }
        joined.append(items[at].as_str());
        at = at + 1;
    }
    proof {
        assert(texts.take(texts.len() as int) =~= texts);
    }
    let mut out = "[".to_owned();
    out.append(joined.as_str());
    out.append("]");
    out
}

fn message_is_system(message: &str) -> (system: bool)
    ensures
        system == is_system(message@),
{
    match member(message.as_bytes(), "role") {
        Some(role) => match string_value(role.as_str().as_bytes()) {
            Some(text) => text_eq(text.as_str(), "system"),
            None => false,
        },
        None => false,
    }
}

/// Composes the prompt for the classifier.
pub fn build_prompt(routes: &[RouteCandidate], messages: &[String]) -> (prompt: String)
    ensures
        prompt@ == prompt_text(routes@, texts_of(messages@)),
{
    let mut route_defs: Vec<String> = Vec::new();
    let mut at: usize = 0;
    let ghost wanted = routes@.map_values(|c: RouteCandidate| candidate_text(c));
    proof {
        assert(texts_of(route_defs@) =~= wanted.take(0));
    }
    while at < routes.len()
        invariant
            at <= routes.len(),
            wanted == routes@.map_values(|c: RouteCandidate| candidate_text(c)),
            texts_of(route_defs@) == wanted.take(at as int),
        decreases routes.len() - at,
    {
        let mut def = "{\"description\":".to_owned();
        def.append(quote(routes[at].description.as_str()).as_str());
        def.append(",\"name\":");
        def.append(quote(routes[at].name.as_str()).as_str());
        def.append("}");
        let ghost before = route_defs@;
        route_defs.push(def);
        proof {
            assert(texts_of(route_defs@) =~= texts_of(before).push(def@));
            assert(wanted.take(at + 1) =~= wanted.take(at as int).push(wanted[at as int]));
        }
        at = at + 1;
    }
    proof {
        assert(wanted.take(wanted.len() as int) =~= wanted);
    }
    let mut non_system: Vec<String> = Vec::new();
    let mut seen: usize = 0;
    let ghost all = texts_of(messages@);
    proof {
        reveal(Seq::filter);
        assert(all.take(0) =~= Seq::<Seq<char>>::empty());
        assert(texts_of(non_system@) =~= all.take(0).filter(not_system()));
    }
    while seen < messages.len()
        invariant
            seen <= messages.len(),
            all == texts_of(messages@),
            texts_of(non_system@) == all.take(seen as int).filter(not_system()),
        decreases messages.len() - seen,
    {
        proof {
            let so_far = all.take(seen as int);
            assert(all.take(seen + 1) =~= so_far.push(messages@[seen as int]@));
            so_far.lemma_filter_push(messages@[seen as int]@, not_system());
        }
        if !message_is_system(messages[seen].as_str()) {
            let ghost before = non_system@;
            non_system.push(messages[seen].clone());
            proof {
                assert(texts_of(non_system@) =~= texts_of(before).push(messages@[seen as int]@));
            }
        }
        seen = seen + 1;
    }
    proof {
        assert(all.take(all.len() as int) =~= all);
    }
    let mut prompt =
        "You are a helpful assistant designed to find the best suited route.\nYou are provided with route description within <routes></routes> XML tags:\n<routes>\n\n".to_owned();
    prompt.append(join_array(&route_defs).as_str());
    prompt.append("\n\n</routes>\n\n<conversation>\n\n");
    prompt.append(join_array(&non_system).as_str());
    prompt.append(
        "\n\n</conversation>\nYour task is to decide which route is best suit with user intent on the conversation in <conversation></conversation> XML tags.  Follow the instruction:\n1. If the latest intent from user is irrelevant or user intent is full filled, response with other route {\"route\": \"other\"}.\n2. You must analyze the route descriptions and find the best match route for user latest intent.\n3. You only response the name of the route that best matches the user's request, use the exact name in the <routes></routes>.\n\nBased on your analysis, provide your response in the following JSON formats if you decide to match any route:\n{\"route\": \"route_name\"}\n",
    );
    prompt
}

/// The body of the request to the classifier: one user message with the
/// prompt, at most 64 tokens, temperature zero and a JSON object asked for.
pub open spec fn classifier_request_text(
    config: AutoRouterConfig,
    routes: Seq<RouteCandidate>,
    messages: Seq<Seq<char>>,
) -> Seq<char> {
    "{\"max_tokens\":64,\"messages\":[{\"content\":"@ + quoted_text(prompt_text(routes, messages))
        + ",\"role\":\"user\"}],\"model\":"@ + quoted_text(config.model@)
        + ",\"response_format\":{\"type\":\"json_object\"},\"temperature\":0.0}"@
}

/// The request to put to the classifier; none without routes or without
/// messages.
pub fn classifier_request(
    config: &AutoRouterConfig,
    routes: &[RouteCandidate],
    messages: &[String],
) -> (body: Option<String>)
    ensures
        body.is_some() == (routes@.len() > 0 && messages@.len() > 0),
        body.is_some() ==> body.unwrap()@ == classifier_request_text(
            *config,
            routes@,
            texts_of(messages@),
        ),
{
    if routes.len() == 0 || messages.len() == 0 {
        return None;
    }
    let prompt = build_prompt(routes, messages);
    let mut body = "{\"max_tokens\":64,\"messages\":[{\"content\":".to_owned();
    body.append(quote(prompt.as_str()).as_str());
    body.append(",\"role\":\"user\"}],\"model\":");
    body.append(quote(config.model.as_str()).as_str());
    body.append(",\"response_format\":{\"type\":\"json_object\"},\"temperature\":0.0}");
    Some(body)
}

/// The texts of a list of names.
pub open spec fn name_views(names: Seq<&str>) -> Seq<Seq<char>> {
    names.map_values(|name: &str| name@)
}

/// The names of the candidates, in their order.
pub open spec fn candidate_names_of(routes: Seq<RouteCandidate>) -> Seq<Seq<char>> {
    routes.map_values(|c: RouteCandidate| c.name@)
}

/// Whether `name` is one of `names`.
pub open spec fn listed(names: Seq<Seq<char>>, name: Seq<char>) -> bool {
    exists|i: int| 0 <= i < names.len() && #[trigger] names[i] == name
}

/// A route name is taken up where it is not `other` and is one of the names.
pub open spec fn accepted_name(name: Seq<char>, names: Seq<Seq<char>>) -> Option<Seq<char>> {
    if name != "other"@ && listed(names, name) {
        Some(name)
    } else {
        None
    }
}

/// The `route` of an answer that is a JSON object with that member as a string.
pub open spec fn json_route(text: Seq<char>) -> Option<Seq<char>> {
    match member_text(encode_utf8(text), "route"@) {
        Some(member) => string_text(encode_utf8(member)),
        None => None,
    }
}

/// The route that an answer names: that of the answer as JSON where it has
/// one, else what the pattern finds in the text; either only where the name
/// is accepted.
pub open spec fn route_choice(text: Seq<char>, names: Seq<Seq<char>>) -> Option<Seq<char>> {
    match json_route(text) {
        Some(name) => accepted_name(name, names),
        None => match first_capture(route_pattern(), text) {
            Some(name) => accepted_name(name, names),
            None => None,
        },
    }
}

fn accept(name: String, names: &[&str]) -> (out: Option<String>)
    ensures
        out.is_some() == accepted_name(name@, name_views(names@)).is_some(),
        out.is_some() ==> out.unwrap()@ == name@,
{
    if text_eq(name.as_str(), "other") {
        return None;
    }
    let mut at: usize = 0;
    while at < names.len()
        invariant
            at <= names.len(),
            name@ != "other"@,
            forall|i: int| 0 <= i < at ==> #[trigger] name_views(names@)[i] != name@,
        decreases names.len() - at,
    {
        if text_eq(names[at], name.as_str()) {
            proof {
                assert(name_views(names@)[at as int] == name@);
            }
            return Some(name);
        }
        at = at + 1;
    }
    None
}

/// The compiled pattern that finds a route in prose. It is made once and
/// serves every answer.
pub struct RouteMatcher {
    compiled: Regex,
}

impl RouteMatcher {
    #[verifier::type_invariant]
    spec fn holds_route_pattern(self) -> bool {
        pattern_of(&self.compiled) == route_pattern()
    }

    /// Compiles the pattern.
    pub fn new() -> (matcher: Option<RouteMatcher>)
        ensures
            matcher.is_some() == pattern_compiles(route_pattern()),
    {
        match compile("\\{\"route\"\\s*:\\s*\"([^\"]+)\"\\}") {
            Ok(compiled) => Some(RouteMatcher { compiled }),
            Err(_) => None,
        }
    }
}

/// Reads the route from the classifier's answer, with a matcher that was
/// compiled before.
pub fn parse_route_name_with(matcher: &RouteMatcher, text: &str, valid_names: &[&str]) -> (name:
    Option<String>)
    ensures
        name.is_some() == route_choice(text@, name_views(valid_names@)).is_some(),
        name.is_some() ==> name.unwrap()@ == route_choice(
            text@,
            name_views(valid_names@),
        ).unwrap(),
{
    proof {
        use_type_invariant(matcher);
    }
    let from_json = match member(text.as_bytes(), "route") {
        Some(found) => string_value(found.as_str().as_bytes()),
        None => None,
    };
    match from_json {
        Some(name) => accept(name, valid_names),
        None => match capture_first(&matcher.compiled, text) {
            Some(name) => accept(name, valid_names),
            None => None,
        },
    }
}

/// Reads the route from the classifier's answer. A name that is returned
/// is always the accepted route of the answer. Where the pattern for prose
/// does not compile, only an answer that is JSON is read.
pub fn parse_route_name(text: &str, valid_names: &[&str]) -> (name: Option<String>)
    ensures
        name.is_some() ==> route_choice(text@, name_views(valid_names@)) == Some(name.unwrap()@),
        pattern_compiles(route_pattern()) && route_choice(
            text@,
            name_views(valid_names@),
        ).is_some() ==> name.is_some(),
        !pattern_compiles(route_pattern()) ==> name.is_some() == (json_route(text@).is_some()
            && accepted_name(json_route(text@).unwrap(), name_views(valid_names@)).is_some()),
{
    match RouteMatcher::new() {
        Some(matcher) => parse_route_name_with(&matcher, text, valid_names),
        None => {
            let from_json = match member(text.as_bytes(), "route") {
                Some(found) => string_value(found.as_str().as_bytes()),
                None => None,
            };
            match from_json {
                Some(name) => accept(name, valid_names),
                None => None,
            }
        },
    }
}

/// The content of the first choice of a chat completion.
pub open spec fn answer_content(response: Seq<u8>) -> Option<Seq<char>> {
    match member_text(response, "choices"@) {
        Some(choices) => match element_texts(encode_utf8(choices)) {
            Some(items) => if items.len() > 0 {
                match member_text(encode_utf8(items[0]), "message"@) {
                    Some(message) => match member_text(encode_utf8(message), "content"@) {
                        Some(content) => string_text(encode_utf8(content)),
                        None => None,
                    },
                    None => None,
                }
            } else {
                None
            },
            None => None,
        },
        None => None,
    }
}

/// Reads the content of the first choice from the body of the classifier's
/// response.
pub fn response_content(response: &[u8]) -> (content: Option<String>)
    ensures
        content.is_some() == answer_content(response@).is_some(),
        content.is_some() ==> content.unwrap()@ == answer_content(response@).unwrap(),
{
    let choices = match member(response, "choices") {
        Some(choices) => choices,
        None => {
            return None;
        },
    };
    let items = match elements(choices.as_str().as_bytes()) {
        Some(items) => items,
        None => {
            return None;
        },
    };
    if items.len() == 0 {
        return None;
    }
    proof {
        assert(texts_of(items@)[0] == items@[0]@);
    }
    let message = match member(items[0].as_str().as_bytes(), "message") {
        Some(message) => message,
        None => {
            return None;
        },
    };
    match member(message.as_str().as_bytes(), "content") {
        Some(content) => string_value(content.as_str().as_bytes()),
        None => None,
    }
}

/// The names of the candidates, in their order.
pub fn candidate_names(routes: &[RouteCandidate]) -> (names: Vec<&str>)
    ensures
        name_views(names@) == candidate_names_of(routes@),
{
    let mut names: Vec<&str> = Vec::new();
    let mut at: usize = 0;
    while at < routes.len()
        invariant
            at <= routes.len(),
            name_views(names@) == candidate_names_of(routes@).take(at as int),
        decreases routes.len() - at,
    {
        let ghost before = names@;
        names.push(routes[at].name.as_str());
        proof {
            assert(name_views(names@) =~= name_views(before).push(routes@[at as int].name@));
            assert(candidate_names_of(routes@).take(at + 1) =~= candidate_names_of(routes@).take(
                at as int,
            ).push(routes@[at as int].name@));
        }
        at = at + 1;
    }
    proof {
        assert(candidate_names_of(routes@).take(routes@.len() as int) =~= candidate_names_of(
            routes@,
        ));
    }
    names
}

/// The classifier's decision: the route that the first choice of its answer
/// names, where the status is a success.
pub open spec fn classification(status: u16, response: Seq<u8>, routes: Seq<RouteCandidate>) -> Option<
    Seq<char>,
> {
    if 200 <= status < 300 {
        match answer_content(response) {
            Some(content) => route_choice(content, candidate_names_of(routes)),
            None => None,
        }
    } else {
        None
    }
}

/// What the classifier decided, from the status and the body of its
/// response. Every failure gives none: a status that is no success, a body
/// without content, a name that is unknown or `other`.
pub fn classify(
    matcher: &RouteMatcher,
    status: u16,
    response: &[u8],
    routes: &[RouteCandidate],
) -> (name: Option<String>)
    ensures
        name.is_some() == classification(status, response@, routes@).is_some(),
        name.is_some() ==> name.unwrap()@ == classification(status, response@, routes@).unwrap(),
{
    if status < 200 || status >= 300 {
        return None;
    }
    let content = match response_content(response) {
        Some(content) => content,
        None => {
            return None;
        },
    };
    let names = candidate_names(routes);
    parse_route_name_with(matcher, content.as_str(), names.as_slice())
}

} // verus!
