use croxy::config::{Config, ProviderConfig, RouteConfig};
use croxy::metrics::RoutingMethod;
use croxy::router::{ConfigErrorKind, ResolvedRoute, Router};

fn provider(name: &str, url: &str) -> (String, ProviderConfig) {
    (
        name.to_string(),
        ProviderConfig {
            url: url.to_string(),
            strip_auth: false,
            api_key: None,
            stub_count_tokens: false,
        },
    )
}

fn pattern_route(pattern: &str, provider: &str, model: Option<&str>) -> RouteConfig {
    RouteConfig {
        pattern: Some(pattern.to_string()),
        name: None,
        description: None,
        provider: provider.to_string(),
        model: model.map(|m| m.to_string()),
    }
}

fn named_route(name: &str, description: &str, pattern: Option<&str>, provider: &str) -> RouteConfig {
    RouteConfig {
        pattern: pattern.map(|p| p.to_string()),
        name: Some(name.to_string()),
        description: Some(description.to_string()),
        provider: provider.to_string(),
        model: None,
    }
}

fn config_with(providers: Vec<(String, ProviderConfig)>, routes: Vec<RouteConfig>, default: &str) -> Config {
    let mut cfg = Config::default();
    cfg.providers = providers;
    cfg.routes = routes;
    cfg.default.provider = default.to_string();
    cfg
}

fn production_config() -> Config {
    let mut ollama = provider("ollama", "http://localhost:11434");
    ollama.1.strip_auth = true;
    ollama.1.api_key = Some("ollama".to_string());
    ollama.1.stub_count_tokens = true;
    config_with(
        vec![provider("anthropic", "https://api.anthropic.com"), ollama],
        vec![
            pattern_route("opus", "anthropic", None),
            pattern_route("sonnet|haiku", "ollama", Some("qwen3-coder:30b")),
        ],
        "anthropic",
    )
}

fn resolve_production(model: &str) -> ResolvedRoute {
    Router::from_config(&production_config())
        .unwrap()
        .resolve_pattern(model)
}

#[test]
fn opus_routes_to_anthropic() {
    let route = resolve_production("big-opus-4-6");
    assert_eq!(route.provider_url, "https://api.anthropic.com");
    assert_eq!(route.model_rewrite, None);
    assert!(!route.strip_auth);
    assert_eq!(route.api_key, None);
    assert!(!route.stub_count_tokens);
    assert_eq!(route.routing_method, RoutingMethod::Pattern);
}

#[test]
fn sonnet_routes_to_ollama_with_rewrite() {
    let route = resolve_production("big-sonnet-4-5-20250929");
    assert_eq!(route.provider_url, "http://localhost:11434");
    assert_eq!(route.model_rewrite.as_deref(), Some("qwen3-coder:30b"));
    assert!(route.strip_auth);
    assert_eq!(route.api_key.as_deref(), Some("ollama"));
    assert!(route.stub_count_tokens);
}

#[test]
fn haiku_routes_to_ollama_with_rewrite() {
    let route = resolve_production("big-haiku-4-5-20251001");
    assert_eq!(route.provider_url, "http://localhost:11434");
    assert_eq!(route.model_rewrite.as_deref(), Some("qwen3-coder:30b"));
}

#[test]
fn unmatched_model_falls_back_to_default() {
    let route = resolve_production("some-unknown-model");
    assert_eq!(route.provider_url, "https://api.anthropic.com");
    assert_eq!(route.model_rewrite, None);
    assert_eq!(route.routing_method, RoutingMethod::Default);
}

#[test]
fn empty_model_falls_back_to_default() {
    let route = resolve_production("");
    assert_eq!(route.provider_url, "https://api.anthropic.com");
}

#[test]
fn first_matching_route_wins() {
    let cfg = config_with(
        vec![provider("a", "http://a"), provider("b", "http://b")],
        vec![pattern_route("opus", "a", None), pattern_route("opus", "b", None)],
        "a",
    );
    let router = Router::from_config(&cfg).unwrap();
    let route = router.resolve_pattern("opus");
    assert_eq!(route.provider_url, "http://a");
}

#[test]
fn invalid_regex_returns_error() {
    let cfg = config_with(
        vec![provider("a", "http://a")],
        vec![pattern_route("[invalid", "a", None)],
        "a",
    );
    let err = Router::from_config(&cfg).err().expect("should fail");
    assert_eq!(err.kind, ConfigErrorKind::InvalidRegex);
    assert_eq!(err.subject, "[invalid");
    assert!(!err.reason.is_empty());
    let err = err.message();
    assert!(err.contains("invalid regex"), "got: {err}");
    assert!(err.starts_with("invalid regex '[invalid': "), "got: {err}");
}

#[test]
fn missing_route_provider_returns_error() {
    let cfg = config_with(
        vec![provider("a", "http://a")],
        vec![pattern_route("test", "nonexistent", None)],
        "a",
    );
    let err = Router::from_config(&cfg).err().expect("should fail");
    assert_eq!(err.kind, ConfigErrorKind::MissingRouteProvider);
    let err = err.message();
    assert!(err.contains("not found"), "got: {err}");
    assert_eq!(err, "route provider 'nonexistent' not found in providers");
}

#[test]
fn resolved_route_includes_provider_name() {
    let route = resolve_production("big-opus-4-6");
    assert_eq!(route.provider_name, "anthropic");

    let route = resolve_production("big-sonnet-4-5-20250929");
    assert_eq!(route.provider_name, "ollama");
}

#[test]
fn missing_default_provider_returns_error() {
    let cfg = config_with(
        vec![provider("a", "http://a")],
        vec![pattern_route("x", "a", None)],
        "nonexistent",
    );
    let err = Router::from_config(&cfg).err().expect("should fail");
    assert_eq!(err.kind, ConfigErrorKind::MissingDefaultProvider);
    let err = err.message();
    assert!(err.contains("not found"), "got: {err}");
    assert_eq!(err, "default provider 'nonexistent' not found in providers");
}

#[test]
fn description_without_name_errors() {
    let mut route = named_route("x", "some task", None, "a");
    route.name = None;
    let cfg = config_with(vec![provider("a", "http://a")], vec![route], "a");
    let err = Router::from_config(&cfg).err().expect("should fail");
    assert_eq!(err.kind, ConfigErrorKind::DescriptionWithoutName);
    let err = err.message();
    assert!(err.contains("description but no name"), "got: {err}");
}

#[test]
fn route_without_pattern_or_description_errors() {
    let mut route = pattern_route("x", "a", None);
    route.pattern = None;
    let cfg = config_with(vec![provider("a", "http://a")], vec![route], "a");
    let err = Router::from_config(&cfg).err().expect("should fail");
    assert_eq!(err.kind, ConfigErrorKind::NoPatternOrDescription);
    let err = err.message();
    assert!(
        err.contains("neither pattern nor description"),
        "got: {err}"
    );
}

#[test]
fn duplicate_route_names_error() {
    let cfg = config_with(
        vec![provider("a", "http://a")],
        vec![
            named_route("coding", "code tasks", Some("opus"), "a"),
            named_route("coding", "other code tasks", Some("sonnet"), "a"),
        ],
        "a",
    );
    let err = Router::from_config(&cfg).err().expect("should fail");
    assert_eq!(err.kind, ConfigErrorKind::DuplicateRouteName);
    let err = err.message();
    assert!(err.contains("duplicate route name"), "got: {err}");
    assert_eq!(err, "duplicate route name 'coding'");
}

#[test]
fn auto_router_enabled_without_url_errors() {
    let mut cfg = config_with(
        vec![provider("a", "http://a")],
        vec![named_route("coding", "code tasks", None, "a")],
        "a",
    );
    cfg.auto_router.enabled = true;
    let err = Router::from_config(&cfg).err().expect("should fail");
    assert_eq!(err.kind, ConfigErrorKind::AutoRouterUrlEmpty);
    let err = err.message();
    assert!(err.contains("url is empty"), "got: {err}");
}

#[test]
fn auto_candidates_built_from_description_routes() {
    let cfg = config_with(
        vec![provider("a", "http://a"), provider("b", "http://b")],
        vec![
            named_route("coding", "code tasks", Some("opus"), "a"),
            pattern_route("sonnet", "b", None),
        ],
        "a",
    );
    let router = Router::from_config(&cfg).unwrap();
    assert_eq!(router.auto_candidates().len(), 1);
    assert_eq!(router.auto_candidates()[0].name, "coding");
    assert_eq!(router.auto_route_count(), 1);
    assert_eq!(router.pattern_route_count(), 2);
}

#[test]
fn description_only_route_not_in_pattern_routes() {
    let cfg = config_with(
        vec![provider("a", "http://a")],
        vec![named_route("coding", "code tasks", None, "a")],
        "a",
    );
    let router = Router::from_config(&cfg).unwrap();
    assert_eq!(router.pattern_route_count(), 0);
    assert_eq!(router.auto_candidates().len(), 1);
}

fn auto_config() -> Config {
    let mut coding = named_route("coding", "Code generation and programming tasks", None, "coding_provider");
    coding.model = Some("qwen3:30b".to_string());
    let mut cfg = config_with(
        vec![
            provider("coding_provider", "http://coding"),
            provider("fallback", "http://fallback"),
        ],
        vec![coding, pattern_route("opus", "coding_provider", None)],
        "fallback",
    );
    cfg.auto_router.enabled = true;
    cfg.auto_router.url = "http://router/v1/chat/completions".to_string();
    cfg.auto_router.model = "test-router".to_string();
    cfg
}

#[test]
fn classified_name_selects_the_named_route() {
    let router = Router::from_config(&auto_config()).unwrap();
    assert!(router.wants_classifier("auto", true));
    let route = router.resolve("auto", true, Some("coding"));
    assert_eq!(route.provider_name, "coding_provider");
    assert_eq!(route.model_rewrite.as_deref(), Some("qwen3:30b"));
    assert_eq!(route.routing_method, RoutingMethod::Auto);
}

#[test]
fn failed_classification_falls_through() {
    let router = Router::from_config(&auto_config()).unwrap();
    for classified in [None, Some("other"), Some("unknown")] {
        let route = router.resolve("auto", true, classified);
        assert_eq!(route.provider_name, "fallback");
        assert_eq!(route.routing_method, RoutingMethod::Default);
    }
    assert!(!router.wants_classifier("auto", false));
    assert!(!router.wants_classifier("opus", true));
    let route = router.resolve("auto", false, Some("coding"));
    assert_eq!(route.routing_method, RoutingMethod::Default);
    let route = router.resolve("big-opus", true, Some("coding"));
    assert_eq!(route.routing_method, RoutingMethod::Pattern);
    assert_eq!(route.provider_name, "coding_provider");
}

#[test]
fn classifier_is_off_unless_enabled() {
    let mut cfg = auto_config();
    cfg.auto_router.enabled = false;
    let router = Router::from_config(&cfg).unwrap();
    assert!(router.auto_router_config().is_none());
    assert!(!router.wants_classifier("auto", true));
    let route = router.resolve("auto", true, Some("coding"));
    assert_eq!(route.routing_method, RoutingMethod::Default);
}

#[test]
fn first_fault_in_route_order_is_given() {
    let cfg = config_with(
        vec![provider("a", "http://a")],
        vec![
            pattern_route("ok", "a", None),
            pattern_route("(", "missing", None),
            pattern_route("[", "a", None),
        ],
        "a",
    );
    let err = Router::from_config(&cfg).err().expect("should fail");
    assert_eq!(err.kind, ConfigErrorKind::MissingRouteProvider);
    assert_eq!(err.subject, "missing");
}

#[test]
fn a_name_may_be_given_once_whatever_the_route() {
    let mut first = pattern_route("opus", "a", None);
    first.name = Some("shared".to_string());
    let mut second = pattern_route("sonnet", "a", None);
    second.name = Some("shared".to_string());
    let cfg = config_with(vec![provider("a", "http://a")], vec![first, second], "a");
    let err = Router::from_config(&cfg).err().expect("should fail");
    assert_eq!(err.kind, ConfigErrorKind::DuplicateRouteName);
    assert_eq!(err.subject, "shared");

    let mut named_pattern = pattern_route("opus", "a", None);
    named_pattern.name = Some("coding".to_string());
    let cfg = config_with(
        vec![provider("a", "http://a")],
        vec![named_pattern, named_route("coding", "code tasks", None, "a")],
        "a",
    );
    let err = Router::from_config(&cfg).err().expect("should fail");
    assert_eq!(err.kind, ConfigErrorKind::DuplicateRouteName);

    let mut one = pattern_route("opus", "a", None);
    one.name = Some("one".to_string());
    let mut two = pattern_route("(", "a", None);
    two.name = Some("one".to_string());
    let cfg = config_with(vec![provider("a", "http://a")], vec![one, two], "a");
    let err = Router::from_config(&cfg).err().expect("should fail");
    assert_eq!(err.kind, ConfigErrorKind::InvalidRegex);

    let mut one = pattern_route("opus", "a", None);
    one.name = Some("one".to_string());
    let mut two = pattern_route("sonnet", "a", None);
    two.name = Some("two".to_string());
    let cfg = config_with(vec![provider("a", "http://a")], vec![one, two, pattern_route("x", "a", None), pattern_route("y", "a", None)], "a");
    assert!(Router::from_config(&cfg).is_ok());
}
