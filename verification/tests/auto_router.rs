use croxy::auto_router::{
    build_prompt, candidate_names, classifier_request, classify, parse_route_name,
    parse_route_name_with, response_content, RouteMatcher,
};
use croxy::config::AutoRouterConfig;
use croxy::router::RouteCandidate;

fn candidates() -> Vec<RouteCandidate> {
    vec![
        RouteCandidate {
            name: "code_gen".to_string(),
            description: "code generation".to_string(),
        },
        RouteCandidate {
            name: "summarize".to_string(),
            description: "summarization".to_string(),
        },
    ]
}

fn test_config(url: &str) -> AutoRouterConfig {
    AutoRouterConfig {
        enabled: true,
        url: url.to_string(),
        model: "test-model".to_string(),
        timeout_ms: 2000,
    }
}

fn message(role: &str, content: &str) -> String {
    format!("{{\"content\":\"{content}\",\"role\":\"{role}\"}}")
}

fn user_messages() -> Vec<String> {
    vec![message("user", "write some code")]
}

fn completion(content: &str) -> Vec<u8> {
    let quoted = serde_json::Value::String(content.to_string()).to_string();
    format!("{{\"choices\":[{{\"message\":{{\"content\":{quoted}}}}}]}}").into_bytes()
}

#[test]
fn parse_clean_json() {
    let names = vec!["code_gen", "summarize"];
    assert_eq!(
        parse_route_name(r#"{"route": "code_gen"}"#, &names),
        Some("code_gen".to_string())
    );
}

#[test]
fn parse_other_returns_none() {
    let names = vec!["code_gen"];
    assert_eq!(parse_route_name(r#"{"route": "other"}"#, &names), None);
    let names = vec!["code_gen", "other"];
    assert_eq!(parse_route_name(r#"{"route": "other"}"#, &names), None);
}

#[test]
fn parse_unknown_name_returns_none() {
    let names = vec!["code_gen"];
    assert_eq!(parse_route_name(r#"{"route": "unknown"}"#, &names), None);
}

#[test]
fn parse_with_preamble() {
    let names = vec!["code_gen", "summarize"];
    let text = "Based on the analysis, the best route is:\n{\"route\": \"summarize\"}";
    assert_eq!(
        parse_route_name(text, &names),
        Some("summarize".to_string())
    );
}

#[test]
fn parse_garbage_returns_none() {
    let names = vec!["code_gen"];
    assert_eq!(parse_route_name("not json at all", &names), None);
}

#[test]
fn parse_empty_returns_none() {
    let names = vec!["code_gen"];
    assert_eq!(parse_route_name("", &names), None);
}

#[test]
fn parse_prefers_the_json_answer() {
    let names = vec!["code_gen", "summarize"];
    let text = r#"{"route": "unknown", "note": "{\"route\":\"summarize\"}"}"#;
    assert_eq!(parse_route_name(text, &names), None);
    let matcher = RouteMatcher::new().unwrap();
    assert_eq!(
        parse_route_name_with(&matcher, "x {\"route\" :\t\"code_gen\"} y", &names),
        Some("code_gen".to_string())
    );
    assert_eq!(parse_route_name_with(&matcher, "{\"route\":\"\"}", &names), None);
}

#[test]
fn build_prompt_filters_system_messages() {
    let routes = candidates();
    let messages = vec![
        message("system", "you are helpful"),
        message("user", "write code"),
    ];
    let prompt = build_prompt(&routes, &messages);
    assert!(prompt.contains("write code"));
    assert!(!prompt.contains("you are helpful"));
    assert!(prompt.contains("code_gen"));
    assert!(prompt.contains("summarize"));
}

#[test]
fn build_prompt_includes_all_routes() {
    let routes = candidates();
    let messages = vec![message("user", "hello")];
    let prompt = build_prompt(&routes, &messages);
    assert!(prompt.contains("code generation"));
    assert!(prompt.contains("summarization"));
}

#[test]
fn build_prompt_includes_conversation() {
    let routes = candidates();
    let messages = vec![
        message("user", "fix this bug"),
        message("assistant", "sure"),
        message("user", "now optimize it"),
    ];
    let prompt = build_prompt(&routes, &messages);
    assert!(prompt.contains("fix this bug"));
    assert!(prompt.contains("now optimize it"));
}

#[test]
fn build_prompt_is_the_template_with_both_lists() {
    let routes = vec![RouteCandidate {
        name: "a".to_string(),
        description: "d \"1\"".to_string(),
    }];
    let messages = vec![message("system", "s"), message("user", "u1"), message("user", "u2")];
    let prompt = build_prompt(&routes, &messages);
    let expected = format!(
        "You are a helpful assistant designed to find the best suited route.\nYou are provided with route description within <routes></routes> XML tags:\n<routes>\n\n{}\n\n</routes>\n\n<conversation>\n\n{}\n\n</conversation>\nYour task is to decide which route is best suit with user intent on the conversation in <conversation></conversation> XML tags.  Follow the instruction:\n1. If the latest intent from user is irrelevant or user intent is full filled, response with other route {{\"route\": \"other\"}}.\n2. You must analyze the route descriptions and find the best match route for user latest intent.\n3. You only response the name of the route that best matches the user's request, use the exact name in the <routes></routes>.\n\nBased on your analysis, provide your response in the following JSON formats if you decide to match any route:\n{{\"route\": \"route_name\"}}\n",
        "[{\"description\":\"d \\\"1\\\"\",\"name\":\"a\"}]",
        "[{\"content\":\"u1\",\"role\":\"user\"},{\"content\":\"u2\",\"role\":\"user\"}]"
    );
    assert_eq!(prompt, expected);
    let empty = build_prompt(&[], &[]);
    assert!(empty.contains("<routes>\n\n[]\n\n</routes>"));
    assert!(empty.contains("<conversation>\n\n[]\n\n</conversation>"));
}

#[test]
fn classifier_request_is_a_chat_completion() {
    let body = classifier_request(&test_config("http://unused"), &candidates(), &user_messages())
        .expect("a request");
    let value: serde_json::Value = serde_json::from_str(&body).unwrap();
    assert_eq!(value["model"], "test-model");
    assert_eq!(value["max_tokens"], 64);
    assert_eq!(value["temperature"].as_f64(), Some(0.0));
    assert_eq!(value["response_format"]["type"], "json_object");
    assert_eq!(value["messages"].as_array().unwrap().len(), 1);
    assert_eq!(value["messages"][0]["role"], "user");
    assert_eq!(
        value["messages"][0]["content"].as_str().unwrap(),
        build_prompt(&candidates(), &user_messages())
    );
}

#[test]
fn classify_returns_matching_route() {
    let matcher = RouteMatcher::new().unwrap();
    let body = completion(r#"{"route": "code_gen"}"#);
    let result = classify(&matcher, 200, &body, &candidates());
    assert_eq!(result, Some("code_gen".to_string()));
}

#[test]
fn classify_returns_none_for_other() {
    let matcher = RouteMatcher::new().unwrap();
    let body = completion(r#"{"route": "other"}"#);
    assert_eq!(classify(&matcher, 200, &body, &candidates()), None);
}

#[test]
fn classify_returns_none_on_http_error() {
    let matcher = RouteMatcher::new().unwrap();
    let body = completion(r#"{"route": "code_gen"}"#);
    assert_eq!(classify(&matcher, 500, &body, &candidates()), None);
    assert_eq!(classify(&matcher, 199, &body, &candidates()), None);
    assert_eq!(classify(&matcher, 300, &body, &candidates()), None);
    assert_eq!(classify(&matcher, 299, &body, &candidates()), Some("code_gen".to_string()));
}

#[test]
fn classify_returns_none_on_invalid_json() {
    let matcher = RouteMatcher::new().unwrap();
    assert_eq!(classify(&matcher, 200, b"not json", &candidates()), None);
    assert_eq!(classify(&matcher, 200, b"{\"choices\":[]}", &candidates()), None);
    assert_eq!(
        classify(&matcher, 200, b"{\"choices\":[{\"message\":{\"content\":null}}]}", &candidates()),
        None
    );
    assert_eq!(response_content(b"{\"choices\":[{\"message\":{}}]}"), None);
    assert_eq!(
        response_content(&completion("hello \"you\"")),
        Some("hello \"you\"".to_string())
    );
}

#[test]
fn classify_returns_none_for_empty_routes() {
    assert_eq!(classifier_request(&test_config("http://unused"), &[], &user_messages()), None);
    let matcher = RouteMatcher::new().unwrap();
    let body = completion(r#"{"route": "code_gen"}"#);
    assert_eq!(classify(&matcher, 200, &body, &[]), None);
}

#[test]
fn classify_returns_none_for_empty_messages() {
    assert_eq!(classifier_request(&test_config("http://unused"), &candidates(), &[]), None);
}

#[test]
fn candidate_names_in_order() {
    assert_eq!(candidate_names(&candidates()), vec!["code_gen", "summarize"]);
}
