//! An ad advisor backed by the adblock filter engine.
use vstd::prelude::*;
use crate::policy::{BlockingAdvisor, ResourceType};

verus! {

#[verifier::external_type_specification]
#[verifier::external_body]
pub struct ExEngine(adblock::Engine);

/// The advisor's filter rules, one per line.
pub const AD_FILTER_RULES: &'static str = "-advertisement.\n-ads.\n-ad.\n-advertisement-icon.\n-advertisement-management/\n-advertisement/script.\n-ads/script.\n";

/// Requests are checked as plain page loads.
pub const AD_REQUEST_METHOD: &'static str = "GET";

/// Relies on adblock::lists::FilterSet::new, FilterSet::add_filter_list and
/// adblock::Engine::new_with_filter_set: an engine holding the rules of
/// `rules`, one per line; lines that do not parse are skipped.
#[verifier::external_body]
fn engine_with_rules(rules: &str) -> adblock::Engine {
    let mut set = adblock::lists::FilterSet::new(false);
    set.add_filter_list(rules.to_string(), adblock::lists::ParseOptions::default());
    adblock::Engine::new_with_filter_set(set)
}

/// An adblock engine together with the rule text it was built from. Its
/// fields are set only by `AdEngine::new`.
pub struct AdEngine {
    engine: adblock::Engine,
    rules: Ghost<Seq<char>>,
}

impl AdEngine {
    /// The rule text the engine was built from.
    pub closed spec fn rules(&self) -> Seq<char> {
        self.rules@
    }

    /// An engine for the rules of `rules`, one per line.
    pub fn new(rules: &str) -> (r: AdEngine)
        ensures
            r.rules() == rules@,
    {
        AdEngine { engine: engine_with_rules(rules), rules: Ghost(rules@) }
    }
}

/// Whether an engine built from `rules` blocks a request to `url` made in
/// `site`, of the given category and method.
pub uninterp spec fn ad_rules_block(
    rules: Seq<char>,
    url: Seq<char>,
    site: Seq<char>,
    request_type: Seq<char>,
    method: Seq<char>,
) -> bool;

/// Relies on adblock::request::Request::new and
/// adblock::Engine::check_network_request with BlockerResult::should_block:
/// whether a blocking rule of the engine matched and no exception lifted it.
/// The engine was built from `engine.rules()`, so the answer depends on those
/// rules and the request alone. A request whose URL cannot be parsed is not
/// blocked.
#[verifier::external_body]
fn engine_blocks(engine: &AdEngine, url: &str, site: &str, request_type: &str, method: &str) -> (r: bool)
    ensures
        r == ad_rules_block(engine.rules(), url@, site@, request_type@, method@),
{
    match adblock::request::Request::new(url, site, request_type, method) {
        Ok(request) => engine.engine.check_network_request(&request).should_block(),
        Err(_) => false,
    }
}

/// The protocol's name of a resource category.
pub open spec fn resource_type_name_spec(t: ResourceType) -> Seq<char> {
    match t {
        ResourceType::Document => "Document"@,
        ResourceType::Stylesheet => "Stylesheet"@,
        ResourceType::Image => "Image"@,
        ResourceType::Media => "Media"@,
        ResourceType::Font => "Font"@,
        ResourceType::Script => "Script"@,
        ResourceType::TextTrack => "TextTrack"@,
        ResourceType::Xhr => "XHR"@,
        ResourceType::Fetch => "Fetch"@,
        ResourceType::Prefetch => "Prefetch"@,
        ResourceType::EventSource => "EventSource"@,
        ResourceType::WebSocket => "WebSocket"@,
        ResourceType::Manifest => "Manifest"@,
        ResourceType::SignedExchange => "SignedExchange"@,
        ResourceType::Ping => "Ping"@,
        ResourceType::CspViolationReport => "CSPViolationReport"@,
        ResourceType::Preflight => "Preflight"@,
        ResourceType::Other => "Other"@,
    }
}

pub fn resource_type_name(t: ResourceType) -> (r: &'static str)
    ensures
        r@ == resource_type_name_spec(t),
{
    match t {
        ResourceType::Document => "Document",
        ResourceType::Stylesheet => "Stylesheet",
        ResourceType::Image => "Image",
        ResourceType::Media => "Media",
        ResourceType::Font => "Font",
        ResourceType::Script => "Script",
        ResourceType::TextTrack => "TextTrack",
        ResourceType::Xhr => "XHR",
        ResourceType::Fetch => "Fetch",
        ResourceType::Prefetch => "Prefetch",
        ResourceType::EventSource => "EventSource",
        ResourceType::WebSocket => "WebSocket",
        ResourceType::Manifest => "Manifest",
        ResourceType::SignedExchange => "SignedExchange",
        ResourceType::Ping => "Ping",
        ResourceType::CspViolationReport => "CSPViolationReport",
        ResourceType::Preflight => "Preflight",
        ResourceType::Other => "Other",
    }
}

/// Reports ads by matching requests against a small set of ad rules.
pub struct AdblockAdvisor {
    pub engine: AdEngine,
}

impl AdblockAdvisor {
    /// An advisor holding the ad rules `AD_FILTER_RULES`.
    pub fn new() -> (r: Self)
        ensures
            r.engine.rules() == AD_FILTER_RULES@,
    {
        AdblockAdvisor { engine: AdEngine::new(AD_FILTER_RULES) }
    }
}

impl BlockingAdvisor for AdblockAdvisor {
    open spec fn verdict(&self, url: Seq<char>, site: Seq<char>, resource_type: ResourceType) -> bool {
        ad_rules_block(self.engine.rules(), url, site, resource_type_name_spec(resource_type), AD_REQUEST_METHOD@)
    }

    /// A request whose URLs cannot be parsed is no ad.
    fn is_ad(&self, url: &String, site: &String, resource_type: ResourceType) -> bool {
        engine_blocks(&self.engine, url.as_str(), site.as_str(), resource_type_name(resource_type), AD_REQUEST_METHOD)
    }
}

} // verus!
