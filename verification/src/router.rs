//! The router: compiled from the configuration once, it resolves the model
//! of a request to a provider.

use regex::Regex;
use vstd::prelude::*;
use vstd::string::StringExecFns;

use crate::config::{find_provider, AutoRouterConfig, Config, ProviderConfig, RouteConfig};
use crate::metrics::RoutingMethod;
use crate::text::text_eq;

verus! {

/// `regex::Regex`, a compiled regular expression. Nothing is known of what
/// one holds but through the functions below.
#[verifier::external_type_specification]
#[verifier::external_body]
pub struct ExRegex(Regex);

/// Whether `pattern` is a regular expression that the regex engine accepts.
pub uninterp spec fn pattern_compiles(pattern: Seq<char>) -> bool;

/// What the regex engine says against a `pattern` that it refuses.
pub uninterp spec fn compile_error_text(pattern: Seq<char>) -> Seq<char>;

/// The pattern that a compiled expression was made from.
pub uninterp spec fn pattern_of(compiled: &Regex) -> Seq<char>;

/// Whether `pattern` matches somewhere in `text`.
pub uninterp spec fn pattern_matches(pattern: Seq<char>, text: Seq<char>) -> bool;

/// Calls `regex::Regex::new`; an error is handed back as its `Display`
/// text. A compiled expression remembers its pattern, as `Regex::as_str`
/// documents. Nothing more is claimed than the names of the results.
#[verifier::external_body]
pub(crate) fn compile(pattern: &str) -> (out: Result<Regex, String>)
    ensures
        out.is_ok() == pattern_compiles(pattern@),
        out.is_ok() ==> pattern_of(&out.unwrap()) == pattern@,
        out.is_err() ==> out.unwrap_err()@ == compile_error_text(pattern@),
{
    Regex::new(pattern).map_err(|error| error.to_string())
}

/// Calls `regex::Regex::is_match`, which searches `text` for a match of the
/// expression's pattern. Nothing more is claimed than the name of the result.
#[verifier::external_body]
fn is_match(compiled: &Regex, text: &str) -> (hit: bool)
    ensures
        hit == pattern_matches(pattern_of(compiled), text@),
{
    compiled.is_match(text)
}

/// Where one request goes, and how it is rewritten on the way.
#[derive(Debug)]
pub struct ResolvedRoute {
    pub provider_name: String,
    pub provider_url: String,
    pub model_rewrite: Option<String>,
    pub strip_auth: bool,
    pub api_key: Option<String>,
    pub stub_count_tokens: bool,
    pub routing_method: RoutingMethod,
}

/// A route that the classifier may pick.
#[derive(Debug)]
pub struct RouteCandidate {
    pub name: String,
    pub description: String,
}

fn copy_text(text: &Option<String>) -> (copy: Option<String>)
    ensures
        copy == *text,
{
    match text {
        Some(inner) => Some(inner.clone()),
        None => None,
    }
}

impl Clone for ResolvedRoute {
    fn clone(&self) -> (copy: Self)
        ensures
            copy == *self,
    {
        ResolvedRoute {
            provider_name: self.provider_name.clone(),
            provider_url: self.provider_url.clone(),
            model_rewrite: copy_text(&self.model_rewrite),
            strip_auth: self.strip_auth,
            api_key: copy_text(&self.api_key),
            stub_count_tokens: self.stub_count_tokens,
            routing_method: self.routing_method,
        }
    }
}

impl Clone for RouteCandidate {
    fn clone(&self) -> (copy: Self)
        ensures
            copy == *self,
    {
        RouteCandidate { name: self.name.clone(), description: self.description.clone() }
    }
}

/// What can be wrong with a configuration.
#[derive(Clone, Copy, Debug, PartialEq, Eq, Structural)]
pub enum ConfigErrorKind {
    MissingDefaultProvider,
    NoPatternOrDescription,
    DescriptionWithoutName,
    MissingRouteProvider,
    InvalidRegex,
    DuplicateRouteName,
    AutoRouterUrlEmpty,
}

/// A refused configuration: what is wrong, with what (a provider's name, a
/// pattern or a route's name), and for a pattern the engine's reason.
#[derive(Debug)]
pub struct ConfigError {
    pub kind: ConfigErrorKind,
    pub subject: String,
    pub reason: String,
}

impl ConfigError {
    /// The error as one line of text.
    pub fn message(&self) -> (text: String)
        ensures
            text@ == match self.kind {
                ConfigErrorKind::MissingDefaultProvider => "default provider '"@ + self.subject@
                    + "' not found in providers"@,
                ConfigErrorKind::NoPatternOrDescription => "route for provider '"@ + self.subject@
                    + "' has neither pattern nor description"@,
                ConfigErrorKind::DescriptionWithoutName => "route for provider '"@ + self.subject@
                    + "' has description but no name"@,
                ConfigErrorKind::MissingRouteProvider => "route provider '"@ + self.subject@
                    + "' not found in providers"@,
                ConfigErrorKind::InvalidRegex => "invalid regex '"@ + self.subject@ + "': "@
                    + self.reason@,
                ConfigErrorKind::DuplicateRouteName => "duplicate route name '"@ + self.subject@
                    + "'"@,
                ConfigErrorKind::AutoRouterUrlEmpty => "auto_router.enabled is true but url is empty"@,
            },
    {
        match self.kind {
            ConfigErrorKind::MissingDefaultProvider => {
                let mut text = "default provider '".to_owned();
                text.append(self.subject.as_str());
                text.append("' not found in providers");
                text
            },
            ConfigErrorKind::NoPatternOrDescription => {
                let mut text = "route for provider '".to_owned();
                text.append(self.subject.as_str());
                text.append("' has neither pattern nor description");
                text
            },
            ConfigErrorKind::DescriptionWithoutName => {
                let mut text = "route for provider '".to_owned();
                text.append(self.subject.as_str());
                text.append("' has description but no name");
                text
            },
            ConfigErrorKind::MissingRouteProvider => {
                let mut text = "route provider '".to_owned();
                text.append(self.subject.as_str());
                text.append("' not found in providers");
                text
            },
            ConfigErrorKind::InvalidRegex => {
                let mut text = "invalid regex '".to_owned();
                text.append(self.subject.as_str());
                text.append("': ");
                text.append(self.reason.as_str());
                text
            },
            ConfigErrorKind::DuplicateRouteName => {
                let mut text = "duplicate route name '".to_owned();
                text.append(self.subject.as_str());
                text.append("'");
                text
            },
            ConfigErrorKind::AutoRouterUrlEmpty => {
                "auto_router.enabled is true but url is empty".to_owned()
            },
        }
    }
}

/// The route that a route element and its provider give.
pub open spec fn target_of(route: RouteConfig, provider: ProviderConfig, method: RoutingMethod) -> ResolvedRoute {
    ResolvedRoute {
        provider_name: route.provider,
        provider_url: provider.url,
        model_rewrite: route.model,
        strip_auth: provider.strip_auth,
        api_key: provider.api_key,
        stub_count_tokens: provider.stub_count_tokens,
        routing_method: method,
    }
}

/// The route to the default provider.
pub open spec fn default_target(name: String, provider: ProviderConfig) -> ResolvedRoute {
    ResolvedRoute {
        provider_name: name,
        provider_url: provider.url,
        model_rewrite: None,
        strip_auth: provider.strip_auth,
        api_key: provider.api_key,
        stub_count_tokens: provider.stub_count_tokens,
        routing_method: RoutingMethod::Default,
    }
}

/// Whether a route element is offered to the classifier.
pub open spec fn is_candidate(route: RouteConfig) -> bool {
    route.name.is_some() && route.description.is_some()
}

/// The classifier's candidates among `routes`, in their order.
pub open spec fn candidates_of(routes: Seq<RouteConfig>) -> Seq<RouteCandidate>
    decreases routes.len(),
{
    if routes.len() == 0 {
        Seq::empty()
    } else {
        let rest = candidates_of(routes.drop_last());
        let route = routes.last();
        if is_candidate(route) {
            rest.push(
                RouteCandidate { name: route.name.unwrap(), description: route.description.unwrap() },
            )
        } else {
            rest
        }
    }
}

/// The pattern routes among `routes`, in their order: each pattern with the
/// route it leads to.
pub open spec fn pattern_table_of(
    providers: Seq<(String, ProviderConfig)>,
    routes: Seq<RouteConfig>,
) -> Seq<(Seq<char>, ResolvedRoute)>
    decreases routes.len(),
{
    if routes.len() == 0 {
        Seq::empty()
    } else {
        let rest = pattern_table_of(providers, routes.drop_last());
        let route = routes.last();
        match (route.pattern, find_provider(providers, route.provider@)) {
            (Some(pattern), Some(provider)) => rest.push(
                (pattern@, target_of(route, provider, RoutingMethod::Pattern)),
            ),
            _ => rest,
        }
    }
}

/// The named routes among `routes`, in their order: each name with the route
/// it leads to.
pub open spec fn auto_table_of(
    providers: Seq<(String, ProviderConfig)>,
    routes: Seq<RouteConfig>,
) -> Seq<(Seq<char>, ResolvedRoute)>
    decreases routes.len(),
{
    if routes.len() == 0 {
        Seq::empty()
    } else {
        let rest = auto_table_of(providers, routes.drop_last());
        let route = routes.last();
        match find_provider(providers, route.provider@) {
            Some(provider) => if is_candidate(route) {
                rest.push((route.name.unwrap()@, target_of(route, provider, RoutingMethod::Auto)))
            } else {
                rest
            },
            None => rest,
        }
    }
}

/// Whether one of the route elements is called `name`.
pub open spec fn name_taken(routes: Seq<RouteConfig>, name: Seq<char>) -> bool {
    exists|j: int|
        0 <= j < routes.len() && (#[trigger] routes[j]).name.is_some() && routes[j].name.unwrap()@
            == name
}

/// What is wrong with the route element at `at`, if anything: the kind of
/// error and its subject. The tests are made in this order. A name may be
/// given once only, whether or not the route has a description.
pub open spec fn route_fault(
    providers: Seq<(String, ProviderConfig)>,
    routes: Seq<RouteConfig>,
    at: int,
) -> Option<(ConfigErrorKind, Seq<char>)> {
    let route = routes[at];
    if route.pattern.is_none() && route.description.is_none() {
        Some((ConfigErrorKind::NoPatternOrDescription, route.provider@))
    } else if route.description.is_some() && route.name.is_none() {
        Some((ConfigErrorKind::DescriptionWithoutName, route.provider@))
    } else if find_provider(providers, route.provider@).is_none() {
        Some((ConfigErrorKind::MissingRouteProvider, route.provider@))
    } else if route.pattern.is_some() && !pattern_compiles(route.pattern.unwrap()@) {
        Some((ConfigErrorKind::InvalidRegex, route.pattern.unwrap()@))
    } else if route.name.is_some() && name_taken(routes.take(at), route.name.unwrap()@) {
        Some((ConfigErrorKind::DuplicateRouteName, route.name.unwrap()@))
    } else {
        None
    }
}

/// The fault of the first faulty route element from `from` on.
pub open spec fn routes_fault(
    providers: Seq<(String, ProviderConfig)>,
    routes: Seq<RouteConfig>,
    from: int,
) -> Option<(ConfigErrorKind, Seq<char>)>
    decreases routes.len() - from,
{
    if from < 0 || from >= routes.len() {
        None
    } else {
        match route_fault(providers, routes, from) {
            Some(fault) => Some(fault),
            None => routes_fault(providers, routes, from + 1),
        }
    }
}

/// What is wrong with a configuration, if anything: a missing default
/// provider, else the first faulty route element, else a classifier that is
/// switched on without a URL.
pub open spec fn config_fault(config: Config) -> Option<(ConfigErrorKind, Seq<char>)> {
    if find_provider(config.providers@, config.default.provider@).is_none() {
        Some((ConfigErrorKind::MissingDefaultProvider, config.default.provider@))
    } else if routes_fault(config.providers@, config.routes@, 0).is_some() {
        routes_fault(config.providers@, config.routes@, 0)
    } else if config.auto_router.enabled && config.auto_router.url@.len() == 0 {
        Some((ConfigErrorKind::AutoRouterUrlEmpty, Seq::empty()))
    } else {
        None
    }
}

/// The route of the first entry of `table` whose pattern matches `model`.
pub open spec fn first_match(table: Seq<(Seq<char>, ResolvedRoute)>, model: Seq<char>) -> Option<
    ResolvedRoute,
>
    decreases table.len(),
{
    if table.len() == 0 {
        None
    } else if pattern_matches(table[0].0, model) {
        Some(table[0].1)
    } else {
        first_match(table.drop_first(), model)
    }
}

/// The route of the first entry of `table` that is called `name`.
pub open spec fn first_named(table: Seq<(Seq<char>, ResolvedRoute)>, name: Seq<char>) -> Option<
    ResolvedRoute,
>
    decreases table.len(),
{
    if table.len() == 0 {
        None
    } else if table[0].0 == name {
        Some(table[0].1)
    } else {
        first_named(table.drop_first(), name)
    }
}

/// What the first group of `pattern` captures at the first match in `text`.
pub uninterp spec fn first_capture(pattern: Seq<char>, text: Seq<char>) -> Option<Seq<char>>;

/// Calls `regex::Regex::captures` and hands back what group 1 holds, where
/// there is a match and the group took part in it. Nothing more is claimed
/// than the name of the result.
#[verifier::external_body]
pub(crate) fn capture_first(compiled: &Regex, text: &str) -> (out: Option<String>)
    ensures
        out.is_some() == first_capture(pattern_of(compiled), text@).is_some(),
        out.is_some() ==> out.unwrap()@ == first_capture(pattern_of(compiled), text@).unwrap(),
{
    compiled.captures(text)?.get(1).map(|group| group.as_str().to_owned())
}

struct CompiledRoute {
    pattern: Regex,
    route: ResolvedRoute,
}

struct AutoRouteEntry {
    name: String,
    route: ResolvedRoute,
}

/// The compiled routes: the pattern routes in configuration order, the
/// named routes with the candidates for the classifier, the classifier's
/// settings and the default route.
pub struct Router {
    routes: Vec<CompiledRoute>,
    auto_routes: Vec<AutoRouteEntry>,
    auto_candidates: Vec<RouteCandidate>,
    auto_router_config: Option<AutoRouterConfig>,
    default: ResolvedRoute,
}

fn error(kind: ConfigErrorKind, subject: &str, reason: String) -> (err: ConfigError)
    ensures
        err.kind == kind,
        err.subject@ == subject@,
        err.reason == reason,
{
    ConfigError { kind, subject: subject.to_owned(), reason }
}

fn build_target(route: &RouteConfig, provider: &ProviderConfig, method: RoutingMethod) -> (target:
    ResolvedRoute)
    ensures
        target == target_of(*route, *provider, method),
{
    ResolvedRoute {
        provider_name: route.provider.clone(),
        provider_url: provider.url.clone(),
        model_rewrite: copy_text(&route.model),
        strip_auth: provider.strip_auth,
        api_key: copy_text(&provider.api_key),
        stub_count_tokens: provider.stub_count_tokens,
        routing_method: method,
    }
}

fn name_used_before(routes: &Vec<RouteConfig>, before: usize, name: &str) -> (taken: bool)
    requires
        before <= routes@.len(),
    ensures
        taken == name_taken(routes@.take(before as int), name@),
{
    let mut at: usize = 0;
    while at < before
        invariant
            at <= before <= routes@.len(),
            forall|j: int|
                0 <= j < at ==> !((#[trigger] routes@[j]).name.is_some()
                    && routes@[j].name.unwrap()@ == name@),
        decreases before - at,
    {
        match &routes[at].name {
            Some(earlier) => {
                if text_eq(earlier.as_str(), name) {
                    proof {
                        assert(routes@.take(before as int)[at as int] == routes@[at as int]);
                    }
                    return true;
                }
            },
            None => {},
        }
        at = at + 1;
    }
    proof {
        assert forall|j: int| 0 <= j < before implies !((#[trigger] routes@.take(
            before as int,
        )[j]).name.is_some() && routes@.take(before as int)[j].name.unwrap()@ == name@) by {
            assert(routes@.take(before as int)[j] == routes@[j]);
        }
    }
    false
}

impl Router {
    /// The pattern routes in configuration order: each pattern with its route.
    pub closed spec fn pattern_table(&self) -> Seq<(Seq<char>, ResolvedRoute)> {
        self.routes@.map_values(|r: CompiledRoute| (pattern_of(&r.pattern), r.route))
    }

    /// The named routes in configuration order: each name with its route.
    pub closed spec fn auto_table(&self) -> Seq<(Seq<char>, ResolvedRoute)> {
        self.auto_routes@.map_values(|r: AutoRouteEntry| (r.name@, r.route))
    }

    /// The candidates that are offered to the classifier.
    pub closed spec fn candidates(&self) -> Seq<RouteCandidate> {
        self.auto_candidates@
    }

    /// The classifier's settings, where it is switched on.
    pub closed spec fn classifier(&self) -> Option<AutoRouterConfig> {
        self.auto_router_config
    }

    /// The route to the default provider.
    pub closed spec fn default_route(&self) -> ResolvedRoute {
        self.default
    }

    /// Whether the classifier is to be asked for a request.
    pub open spec fn consults_classifier(&self, model: Seq<char>, has_messages: bool) -> bool {
        &&& model == "auto"@
        &&& self.classifier().is_some()
        &&& has_messages
        &&& self.candidates().len() > 0
    }

    /// The route by pattern: the first matching pattern route, else the
    /// default route.
    pub open spec fn pattern_resolution(&self, model: Seq<char>) -> ResolvedRoute {
        match first_match(self.pattern_table(), model) {
            Some(route) => route,
            None => self.default_route(),
        }
    }

    /// The route of a request: the classified route where the classifier was
    /// to be asked and named a route of the table, else the route by pattern.
    pub open spec fn resolution(
        &self,
        model: Seq<char>,
        has_messages: bool,
        classified: Option<Seq<char>>,
    ) -> ResolvedRoute {
        if self.consults_classifier(model, has_messages) && classified.is_some() && first_named(
            self.auto_table(),
            classified.unwrap(),
        ).is_some() {
            first_named(self.auto_table(), classified.unwrap()).unwrap()
        } else {
            self.pattern_resolution(model)
        }
    }

    /// Compiles a configuration. It is refused exactly where `config_fault`
    /// finds a fault, with that fault.
    pub fn from_config(config: &Config) -> (out: Result<Router, ConfigError>)
        ensures
            match out {
                Ok(router) => {
                    &&& config_fault(*config).is_none()
                    &&& router.pattern_table() == pattern_table_of(
                        config.providers@,
                        config.routes@,
                    )
                    &&& router.auto_table() == auto_table_of(config.providers@, config.routes@)
                    &&& router.candidates() == candidates_of(config.routes@)
                    &&& router.default_route() == default_target(
                        config.default.provider,
                        find_provider(config.providers@, config.default.provider@).unwrap(),
                    )
                    &&& router.classifier().is_some() == config.auto_router.enabled
                    &&& config.auto_router.enabled ==> router.classifier().unwrap()
                        == config.auto_router
                },
                Err(err) => {
                    &&& config_fault(*config) == Some((err.kind, err.subject@))
                    &&& err.reason@ == if err.kind == ConfigErrorKind::InvalidRegex {
                        compile_error_text(err.subject@)
                    } else {
                        Seq::<char>::empty()
                    }
                },
            },
    {
        let default_provider = match config.provider(config.default.provider.as_str()) {
            Some(provider) => provider,
            None => {
                return Err(
                    error(
                        ConfigErrorKind::MissingDefaultProvider,
                        config.default.provider.as_str(),
                        String::new(),
                    ),
                );
            },
        };
        let default = ResolvedRoute {
            provider_name: config.default.provider.clone(),
            provider_url: default_provider.url.clone(),
            model_rewrite: None,
            strip_auth: default_provider.strip_auth,
            api_key: copy_text(&default_provider.api_key),
            stub_count_tokens: default_provider.stub_count_tokens,
            routing_method: RoutingMethod::Default,
        };
        let mut routes: Vec<CompiledRoute> = Vec::new();
        let mut auto_routes: Vec<AutoRouteEntry> = Vec::new();
        let mut auto_candidates: Vec<RouteCandidate> = Vec::new();
        let ghost providers = config.providers@;
        let ghost all = config.routes@;
        let mut at: usize = 0;
        proof {
            assert(all.take(0) =~= Seq::<RouteConfig>::empty());
            assert(routes@.map_values(|r: CompiledRoute| (pattern_of(&r.pattern), r.route))
                =~= Seq::empty());
            assert(auto_routes@.map_values(|r: AutoRouteEntry| (r.name@, r.route))
                =~= Seq::empty());
        }
        while at < config.routes.len()
            invariant
                at <= config.routes.len(),
                providers == config.providers@,
                all == config.routes@,
                find_provider(providers, config.default.provider@).is_some(),
                routes_fault(providers, all, 0) == routes_fault(providers, all, at as int),
                routes@.map_values(|r: CompiledRoute| (pattern_of(&r.pattern), r.route))
                    == pattern_table_of(providers, all.take(at as int)),
                auto_routes@.map_values(|r: AutoRouteEntry| (r.name@, r.route)) == auto_table_of(
                    providers,
                    all.take(at as int),
                ),
                auto_candidates@ == candidates_of(all.take(at as int)),
            decreases config.routes.len() - at,
        {
            let route = &config.routes[at];
            proof {
                let next = all.take(at + 1);
                assert(next.drop_last() =~= all.take(at as int));
                assert(next.last() == all[at as int]);
            }
            if route.pattern.is_none() && route.description.is_none() {
                return Err(
                    error(
                        ConfigErrorKind::NoPatternOrDescription,
                        route.provider.as_str(),
                        String::new(),
                    ),
                );
            }
            if route.description.is_some() && route.name.is_none() {
                return Err(
                    error(
                        ConfigErrorKind::DescriptionWithoutName,
                        route.provider.as_str(),
                        String::new(),
                    ),
                );
            }
            let provider = match config.provider(route.provider.as_str()) {
                Some(provider) => provider,
                None => {
                    return Err(
                        error(
                            ConfigErrorKind::MissingRouteProvider,
                            route.provider.as_str(),
                            String::new(),
                        ),
                    );
                },
            };
            let ghost routes_before = routes@;
            match &route.pattern {
                Some(pattern) => {
                    match compile(pattern.as_str()) {
                        Ok(compiled) => {
                            let entry = CompiledRoute {
                                pattern: compiled,
                                route: build_target(route, provider, RoutingMethod::Pattern),
                            };
                            routes.push(entry);
                            proof {
                                assert(routes@.map_values(
                                    |r: CompiledRoute| (pattern_of(&r.pattern), r.route),
                                ) =~= routes_before.map_values(
                                    |r: CompiledRoute| (pattern_of(&r.pattern), r.route),
                                ).push((pattern@, entry.route)));
                            }
                        },
                        Err(reason) => {
                            return Err(
                                error(ConfigErrorKind::InvalidRegex, pattern.as_str(), reason),
                            );
                        },
                    }
                },
                None => {},
            }
            match &route.name {
                Some(name) => {
                    if name_used_before(&config.routes, at, name.as_str()) {
                        return Err(
                            error(
                                ConfigErrorKind::DuplicateRouteName,
                                name.as_str(),
                                String::new(),
                            ),
                        );
                    }
                },
                None => {},
            }
            let ghost auto_before = auto_routes@;
            match (&route.name, &route.description) {
                (Some(name), Some(description)) => {
                    let entry = AutoRouteEntry {
                        name: name.clone(),
                        route: build_target(route, provider, RoutingMethod::Auto),
                    };
                    auto_routes.push(entry);
                    auto_candidates.push(
                        RouteCandidate { name: name.clone(), description: description.clone() },
                    );
                    proof {
                        assert(auto_routes@.map_values(|r: AutoRouteEntry| (r.name@, r.route))
                            =~= auto_before.map_values(
                            |r: AutoRouteEntry| (r.name@, r.route),
                        ).push((name@, entry.route)));
                    }
                },
                _ => {},
            }
            at = at + 1;
        }
        proof {
            assert(all.take(all.len() as int) =~= all);
        }
        let auto_router_config = if config.auto_router.enabled {
            if config.auto_router.url.as_str().is_empty() {
                proof {
                    reveal_strlit("");
                    assert(""@ =~= Seq::<char>::empty());
                }
                return Err(error(ConfigErrorKind::AutoRouterUrlEmpty, "", String::new()));
            }
            Some(
                AutoRouterConfig {
                    enabled: true,
                    url: config.auto_router.url.clone(),
                    model: config.auto_router.model.clone(),
                    timeout_ms: config.auto_router.timeout_ms,
                },
            )
        } else {
            None
        };
        Ok(Router { routes, auto_routes, auto_candidates, auto_router_config, default })
    }

    fn make_default(&self) -> (route: ResolvedRoute)
        ensures
            route == self.default_route(),
    {
        self.default.clone()
    }

    /// Resolves `model` by pattern: the first pattern route in configuration
    /// order whose pattern matches, else the default route.
    pub fn resolve_pattern(&self, model: &str) -> (route: ResolvedRoute)
        ensures
            route == self.pattern_resolution(model@),
    {
        let mut at: usize = 0;
        proof {
            assert(self.pattern_table().skip(0) =~= self.pattern_table());
        }
        while at < self.routes.len()
            invariant
                at <= self.routes.len(),
                first_match(self.pattern_table(), model@) == first_match(
                    self.pattern_table().skip(at as int),
                    model@,
                ),
            decreases self.routes.len() - at,
        {
            proof {
                let rest = self.pattern_table().skip(at as int);
                assert(rest[0] == self.pattern_table()[at as int]);
                assert(rest.drop_first() =~= self.pattern_table().skip(at + 1));
            }
            if is_match(&self.routes[at].pattern, model) {
                return self.routes[at].route.clone();
            }
            at = at + 1;
        }
        self.make_default()
    }

    fn named_route(&self, name: &str) -> (route: Option<ResolvedRoute>)
        ensures
            route == first_named(self.auto_table(), name@),
    {
        let mut at: usize = 0;
        proof {
            assert(self.auto_table().skip(0) =~= self.auto_table());
        }
        while at < self.auto_routes.len()
            invariant
                at <= self.auto_routes.len(),
                first_named(self.auto_table(), name@) == first_named(
                    self.auto_table().skip(at as int),
                    name@,
                ),
            decreases self.auto_routes.len() - at,
        {
            proof {
                let rest = self.auto_table().skip(at as int);
                assert(rest[0] == self.auto_table()[at as int]);
                assert(rest.drop_first() =~= self.auto_table().skip(at + 1));
            }
            if text_eq(self.auto_routes[at].name.as_str(), name) {
                return Some(self.auto_routes[at].route.clone());
            }
            at = at + 1;
        }
        None
    }

    /// Whether the classifier is to be asked about a request: its model is
    /// `auto`, the classifier is switched on, the request has messages and
    /// there are candidates.
    pub fn wants_classifier(&self, model: &str, has_messages: bool) -> (wanted: bool)
        ensures
            wanted == self.consults_classifier(model@, has_messages),
    {
        text_eq(model, "auto") && self.auto_router_config.is_some() && has_messages
            && self.auto_candidates.len() > 0
    }

    /// Resolves a request. `classified` is the classifier's answer, where it
    /// was asked and gave one.
    pub fn resolve(&self, model: &str, has_messages: bool, classified: Option<&str>) -> (route:
        ResolvedRoute)
        ensures
            route == self.resolution(
                model@,
                has_messages,
                match classified {
                    Some(name) => Some(name@),
                    None => None,
                },
            ),
    {
        if self.wants_classifier(model, has_messages) {
            match classified {
                Some(name) => {
                    match self.named_route(name) {
                        Some(route) => {
                            return route;
                        },
                        None => {},
                    }
                },
                None => {},
            }
        }
        self.resolve_pattern(model)
    }

    /// The candidates that are offered to the classifier.
    pub fn auto_candidates(&self) -> (candidates: &Vec<RouteCandidate>)
        ensures
            candidates@ == self.candidates(),
    {
        &self.auto_candidates
    }

    /// The classifier's settings, where it is switched on.
    pub fn auto_router_config(&self) -> (settings: &Option<AutoRouterConfig>)
        ensures
            *settings == self.classifier(),
    {
        &self.auto_router_config
    }

    /// How many pattern routes there are.
    pub fn pattern_route_count(&self) -> (count: usize)
        ensures
            count == self.pattern_table().len(),
    {
        self.routes.len()
    }

    /// How many named routes there are.
    pub fn auto_route_count(&self) -> (count: usize)
        ensures
            count == self.auto_table().len(),
    {
        self.auto_routes.len()
    }
}

} // verus!
