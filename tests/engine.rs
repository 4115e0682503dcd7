use spider_network::ads::{resource_type_name, AdEngine, AdblockAdvisor};
use spider_network::model::{
    AuthChallengeResponse, CdpCommand, Credentials, LoadingFailed, NetworkEvent, RequestPaused,
    RequestWillBeSent, Response, ResponseReceived,
};
use spider_network::network::NetworkManager;
use spider_network::policy::{should_block, FilterFlags, NoAdvisor, PolicyTables, ResourceType};

fn drain(nm: &mut NetworkManager) -> Vec<NetworkEvent> {
    let mut out = Vec::new();
    while let Some(e) = nm.poll() {
        out.push(e);
    }
    out
}

fn commands(events: &[NetworkEvent]) -> Vec<CdpCommand> {
    events
        .iter()
        .filter_map(|e| match e {
            NetworkEvent::SendCdpRequest(c) => Some(c.clone()),
            _ => None,
        })
        .collect()
}

fn will_be_sent(id: &str, url: &str, redirect: Option<Response>) -> RequestWillBeSent {
    RequestWillBeSent {
        request_id: id.to_string(),
        frame_id: Some("frame".to_string()),
        url: url.to_string(),
        redirect_response: redirect,
    }
}

fn response(url: &str, status: i64) -> Response {
    Response { url: url.to_string(), status, mime_type: "text/html".to_string() }
}

fn paused(id: &str, network_id: Option<&str>, rt: ResourceType, url: &str) -> RequestPaused {
    RequestPaused {
        request_id: id.to_string(),
        network_id: network_id.map(|s| s.to_string()),
        resource_type: rt,
        url: url.to_string(),
        is_same_site: false,
    }
}

fn creds() -> Credentials {
    Credentials { username: "user".to_string(), password: "pass".to_string() }
}

fn flags(ignore_visuals: bool, block_stylesheets: bool, block_javascript: bool) -> FilterFlags {
    FilterFlags { ignore_visuals, block_stylesheets, block_javascript, only_html: false }
}

#[test]
fn allow_listed_script_is_continued() {
    let t = PolicyTables::standard();
    let url = "react.production.min.js".to_string();
    assert!(!should_block(&t, flags(false, false, true), ResourceType::Script, &url, false));
}

#[test]
fn unknown_script_is_blocked() {
    let t = PolicyTables::standard();
    let url = "evil-tracker.js".to_string();
    assert!(should_block(&t, flags(false, false, true), ResourceType::Script, &url, false));
}

#[test]
fn image_blocked_when_visuals_ignored() {
    let t = PolicyTables::standard();
    let url = "https://example.org/a.png".to_string();
    assert!(should_block(&t, flags(true, false, false), ResourceType::Image, &url, false));
    assert!(should_block(&t, flags(true, false, true), ResourceType::Image, &url, false));
    assert!(!should_block(&t, flags(false, false, false), ResourceType::Image, &url, false));
}

#[test]
fn background_and_tracker_rules() {
    let t = PolicyTables::standard();
    let plain = "https://example.org/x".to_string();
    assert!(should_block(&t, flags(false, false, false), ResourceType::Prefetch, &plain, false));
    assert!(should_block(&t, flags(false, false, false), ResourceType::Ping, &plain, false));
    assert!(should_block(&t, flags(false, true, false), ResourceType::Stylesheet, &plain, false));
    assert!(!should_block(&t, flags(false, false, false), ResourceType::Stylesheet, &plain, false));
    let ga = "https://www.google-analytics.com/analytics.js".to_string();
    assert!(should_block(&t, flags(false, false, false), ResourceType::Document, &ga, false));
    let gtm = "https://www.googletagmanager.com/gtm.js".to_string();
    assert!(should_block(&t, flags(false, false, false), ResourceType::Document, &gtm, false));
    let li = "https://px.ads.linkedin.com/collect".to_string();
    assert!(should_block(&t, flags(false, false, false), ResourceType::Document, &li, false));
}

#[test]
fn ad_verdict_applies_to_asset_categories() {
    let t = PolicyTables::standard();
    let u = "https://example.org/banner-ads.png".to_string();
    assert!(should_block(&t, flags(false, false, false), ResourceType::Xhr, &u, true));
    assert!(!should_block(&t, flags(false, false, false), ResourceType::Document, &u, true));
    assert!(!should_block(&t, flags(false, false, false), ResourceType::Xhr, &u, false));
}

#[test]
fn content_type_table() {
    let t = PolicyTables::standard();
    assert!(t.is_ignored_content_type(&"application/pdf".to_string()));
    assert!(!t.is_ignored_content_type(&"text/html".to_string()));
}

#[test]
fn paused_script_requests_follow_policy() {
    let mut nm = NetworkManager::new(false, 30_000);
    nm.filters.block_javascript = true;
    nm.set_request_interception(true);
    drain(&mut nm);
    nm.on_fetch_request_paused(&paused("i1", Some("r1"), ResourceType::Script, "react.production.min.js"), &NoAdvisor);
    nm.on_fetch_request_paused(&paused("i2", Some("r2"), ResourceType::Script, "evil-tracker.js"), &NoAdvisor);
    let cmds = commands(&drain(&mut nm));
    assert_eq!(cmds.len(), 2);
    assert!(matches!(&cmds[0], CdpCommand::ContinueRequest { request_id } if request_id == "i1"));
    assert!(matches!(&cmds[1], CdpCommand::FulfillRequest { request_id, response_code: 200 } if request_id == "i2"));
}

#[test]
fn auth_retry_is_bounded() {
    let mut nm = NetworkManager::new(false, 30_000);
    nm.authenticate(creds());
    drain(&mut nm);
    let id = "auth-1".to_string();
    nm.on_fetch_auth_required(&id);
    nm.on_fetch_auth_required(&id);
    let cmds = commands(&drain(&mut nm));
    assert_eq!(cmds.len(), 2);
    match &cmds[0] {
        CdpCommand::ContinueWithAuth { response, username, password, .. } => {
            assert_eq!(*response, AuthChallengeResponse::ProvideCredentials);
            assert_eq!(username.as_deref(), Some("user"));
            assert_eq!(password.as_deref(), Some("pass"));
        }
        _ => panic!("expected an auth answer"),
    }
    assert!(matches!(&cmds[1], CdpCommand::ContinueWithAuth { response: AuthChallengeResponse::CancelAuth, .. }));
}

#[test]
fn auth_without_credentials_defers() {
    let mut nm = NetworkManager::new(false, 30_000);
    nm.on_fetch_auth_required(&"a".to_string());
    let cmds = commands(&drain(&mut nm));
    assert!(matches!(&cmds[0], CdpCommand::ContinueWithAuth { response: AuthChallengeResponse::Default, username: None, .. }));
}

#[test]
fn enabling_interception_twice_sends_once() {
    let mut nm = NetworkManager::new(false, 30_000);
    nm.set_request_interception(true);
    nm.set_request_interception(true);
    let cmds = commands(&drain(&mut nm));
    let enables = cmds.iter().filter(|c| matches!(c, CdpCommand::FetchEnable { handle_auth_requests: true })).count();
    let caches = cmds.iter().filter(|c| matches!(c, CdpCommand::SetCacheDisabled { .. })).count();
    assert_eq!(enables, 1);
    assert!(caches <= 1);
    assert!(matches!(&cmds[0], CdpCommand::SetCacheDisabled { cache_disabled: true }));
}

#[test]
fn disabling_interception_sends_disable() {
    let mut nm = NetworkManager::new(false, 30_000);
    nm.set_request_interception(true);
    drain(&mut nm);
    nm.set_request_interception(false);
    let cmds = commands(&drain(&mut nm));
    assert_eq!(cmds.len(), 2);
    assert!(matches!(&cmds[0], CdpCommand::SetCacheDisabled { cache_disabled: false }));
    assert!(matches!(&cmds[1], CdpCommand::FetchDisable));
}

#[test]
fn cache_mode_only_sent_on_change() {
    let mut nm = NetworkManager::new(false, 30_000);
    nm.set_cache_enabled(true);
    assert!(drain(&mut nm).is_empty());
    nm.set_cache_enabled(false);
    let cmds = commands(&drain(&mut nm));
    assert_eq!(cmds.len(), 1);
    assert!(matches!(&cmds[0], CdpCommand::SetCacheDisabled { cache_disabled: true }));
}

#[test]
fn proxy_authorization_is_stripped() {
    let mut nm = NetworkManager::new(false, 30_000);
    nm.set_extra_headers(vec![
        ("x-test".to_string(), "1".to_string()),
        ("proxy-authorization".to_string(), "secret".to_string()),
        ("accept".to_string(), "*/*".to_string()),
    ]);
    let cmds = commands(&drain(&mut nm));
    assert_eq!(cmds.len(), 1);
    match &cmds[0] {
        CdpCommand::SetExtraHttpHeaders { headers } => {
            assert_eq!(headers.len(), 2);
            assert!(headers.iter().all(|(k, _)| k != "proxy-authorization"));
            assert_eq!(headers[0].0, "x-test");
            assert_eq!(headers[1].0, "accept");
        }
        _ => panic!("expected headers"),
    }
    assert_eq!(nm.extra_headers().len(), 2);
}

#[test]
fn offline_toggle_without_change_is_silent() {
    let mut nm = NetworkManager::new(false, 30_000);
    nm.set_offline_mode(false);
    assert!(drain(&mut nm).is_empty());
    nm.set_offline_mode(true);
    let cmds = commands(&drain(&mut nm));
    assert_eq!(cmds.len(), 1);
    assert!(matches!(&cmds[0], CdpCommand::EmulateNetworkConditions { offline: true }));
}

#[test]
fn init_commands_follow_settings() {
    let nm = NetworkManager::new(true, 1234);
    let chain = nm.init_commands();
    assert_eq!(chain.timeout_ms, 1234);
    assert_eq!(chain.commands.len(), 2);
    assert!(matches!(&chain.commands[1], CdpCommand::SetIgnoreCertificateErrors { ignore: true }));
    let plain = NetworkManager::new(false, 1234);
    assert_eq!(plain.init_commands().commands.len(), 1);
}

#[test]
fn terminal_events_remove_requests() {
    let mut nm = NetworkManager::new(false, 30_000);
    nm.on_request_will_be_sent(will_be_sent("r1", "https://a.test/", None));
    nm.on_request_will_be_sent(will_be_sent("r2", "https://b.test/", None));
    nm.on_request_will_be_sent(will_be_sent("r3", "https://c.test/", None));
    assert_eq!(nm.requests.len(), 3);
    nm.on_request_served_from_cache(&"r1".to_string());
    nm.on_response_received(&ResponseReceived { request_id: "r1".to_string(), response: response("https://a.test/", 200) });
    nm.on_network_loading_finished(&"r2".to_string());
    nm.on_network_loading_failed(&LoadingFailed { request_id: "r3".to_string(), error_text: "net::ERR".to_string() });
    assert!(nm.requests.is_empty());
    let events = drain(&mut nm);
    assert_eq!(events.len(), 6);
    match &events[3] {
        NetworkEvent::RequestFinished(r) => {
            assert_eq!(r.record.request_id, "r1");
            assert!(r.record.from_memory_cache);
            assert_eq!(r.record.response.as_ref().map(|x| x.status), Some(200));
        }
        _ => panic!("expected finished"),
    }
    assert!(matches!(&events[4], NetworkEvent::RequestFinished(r) if r.record.request_id == "r2"));
    match &events[5] {
        NetworkEvent::RequestFailed(r) => assert_eq!(r.record.failure_text.as_deref(), Some("net::ERR")),
        _ => panic!("expected failed"),
    }
}

#[test]
fn unknown_identifiers_are_ignored() {
    let mut nm = NetworkManager::new(false, 30_000);
    nm.on_network_loading_finished(&"nope".to_string());
    nm.on_request_served_from_cache(&"nope".to_string());
    nm.on_network_loading_failed(&LoadingFailed { request_id: "nope".to_string(), error_text: "x".to_string() });
    assert!(drain(&mut nm).is_empty());
}

#[test]
fn redirect_chain_is_oldest_first() {
    let mut nm = NetworkManager::new(false, 30_000);
    nm.on_request_will_be_sent(will_be_sent("r", "https://a.test/", None));
    nm.on_request_will_be_sent(will_be_sent("r", "https://b.test/", Some(response("https://a.test/", 301))));
    nm.on_request_will_be_sent(will_be_sent("r", "https://c.test/", Some(response("https://b.test/", 302))));
    assert_eq!(nm.requests.len(), 1);
    let chain = &nm.requests[0].redirect_chain;
    assert_eq!(chain.len(), 2);
    assert_eq!(chain[0].response.as_ref().map(|x| x.status), Some(301));
    assert_eq!(chain[1].response.as_ref().map(|x| x.status), Some(302));
}

fn pair_in_order(sent_first: bool) -> NetworkManager {
    let mut nm = NetworkManager::new(false, 30_000);
    nm.set_request_interception(true);
    let w = will_be_sent("net-1", "https://a.test/", None);
    let p = paused("fetch-1", Some("net-1"), ResourceType::Document, "https://a.test/");
    if sent_first {
        nm.on_request_will_be_sent(w);
        assert_eq!(nm.requests_will_be_sent.len(), 1);
        nm.on_fetch_request_paused(&p, &NoAdvisor);
    } else {
        nm.on_fetch_request_paused(&p, &NoAdvisor);
        nm.on_request_will_be_sent(w);
    }
    nm
}

#[test]
fn pairing_is_order_independent() {
    let a = pair_in_order(true);
    let b = pair_in_order(false);
    for nm in [&a, &b] {
        assert_eq!(nm.requests.len(), 1);
        assert!(nm.requests_will_be_sent.is_empty());
        assert!(nm.request_id_to_interception_id.is_empty());
        assert_eq!(nm.requests[0].record.request_id, "net-1");
        assert_eq!(nm.requests[0].record.interception_id.as_deref(), Some("fetch-1"));
        assert!(nm.requests[0].redirect_chain.is_empty());
    }
}

#[test]
fn auth_only_interception_continues_paused_requests() {
    let mut nm = NetworkManager::new(false, 30_000);
    nm.authenticate(creds());
    drain(&mut nm);
    nm.on_fetch_request_paused(&paused("i", Some("r"), ResourceType::Prefetch, "https://a.test/"), &NoAdvisor);
    let cmds = commands(&drain(&mut nm));
    assert!(matches!(&cmds[0], CdpCommand::ContinueRequest { request_id } if request_id == "i"));
}

#[test]
fn data_urls_are_not_buffered() {
    let mut nm = NetworkManager::new(false, 30_000);
    nm.set_request_interception(true);
    nm.on_request_will_be_sent(will_be_sent("d", "data:text/plain,hi", None));
    assert!(nm.requests_will_be_sent.is_empty());
    assert_eq!(nm.requests.len(), 1);
}

#[test]
fn adblock_advisor_flags_ad_assets() {
    let advisor = AdblockAdvisor::new();
    let mut nm = NetworkManager::new(false, 30_000);
    nm.set_request_interception(true);
    drain(&mut nm);
    nm.on_fetch_request_paused(&paused("i1", Some("r1"), ResourceType::Image, "https://cdn.test/top-ads.png"), &advisor);
    nm.on_fetch_request_paused(&paused("i2", Some("r2"), ResourceType::Image, "https://cdn.test/logo.png"), &advisor);
    let cmds = commands(&drain(&mut nm));
    assert!(matches!(&cmds[0], CdpCommand::FulfillRequest { request_id, .. } if request_id == "i1"));
    assert!(matches!(&cmds[1], CdpCommand::ContinueRequest { request_id } if request_id == "i2"));
}

#[test]
fn resource_type_names() {
    assert_eq!(resource_type_name(ResourceType::Xhr), "XHR");
    assert_eq!(resource_type_name(ResourceType::Image), "Image");
}

#[test]
fn tracker_block_is_always_on() {
    let t = PolicyTables::standard();
    let ga = "https://www.google-analytics.com/analytics.js".to_string();
    assert!(should_block(&t, flags(false, false, true), ResourceType::Document, &ga, false));
}

#[test]
fn proxy_authorization_stripped_in_any_case() {
    let mut nm = NetworkManager::new(false, 30_000);
    nm.set_extra_headers(vec![
        ("Proxy-Authorization".to_string(), "secret".to_string()),
        ("PROXY-AUTHORIZATION".to_string(), "secret".to_string()),
        ("Authorization".to_string(), "token".to_string()),
    ]);
    assert_eq!(nm.extra_headers().len(), 1);
    assert_eq!(nm.extra_headers()[0].0, "Authorization");
}

#[test]
fn no_advisor_never_blocks_assets() {
    let mut nm = NetworkManager::new(false, 30_000);
    nm.set_request_interception(true);
    drain(&mut nm);
    nm.on_fetch_request_paused(&paused("i", Some("r"), ResourceType::Image, "https://cdn.test/top-ads.png"), &NoAdvisor);
    let cmds = commands(&drain(&mut nm));
    assert!(matches!(&cmds[0], CdpCommand::ContinueRequest { .. }));
}

#[test]
fn buffered_redirect_leaves_no_live_duplicate() {
    let mut nm = NetworkManager::new(false, 30_000);
    nm.set_request_interception(true);
    nm.on_request_will_be_sent(will_be_sent("r", "https://a.test/", None));
    nm.on_fetch_request_paused(&paused("i1", Some("r"), ResourceType::Document, "https://a.test/"), &NoAdvisor);
    assert_eq!(nm.requests.len(), 1);
    nm.on_request_will_be_sent(will_be_sent("r", "https://b.test/", Some(response("https://a.test/", 301))));
    assert_eq!(nm.requests_will_be_sent.len(), 1);
    assert!(nm.requests.is_empty());
    nm.on_fetch_request_paused(&paused("i2", Some("r"), ResourceType::Document, "https://b.test/"), &NoAdvisor);
    assert!(nm.requests_will_be_sent.is_empty());
    assert_eq!(nm.requests.len(), 1);
    let chain = &nm.requests[0].redirect_chain;
    assert_eq!(chain.len(), 1);
    assert_eq!(chain[0].interception_id.as_deref(), Some("i1"));
    assert_eq!(chain[0].response.as_ref().map(|x| x.status), Some(301));
    assert_eq!(nm.requests[0].record.interception_id.as_deref(), Some("i2"));
}

#[test]
fn engine_without_rules_blocks_nothing() {
    let advisor = AdblockAdvisor { engine: AdEngine::new("") };
    let mut nm = NetworkManager::new(false, 30_000);
    nm.set_request_interception(true);
    drain(&mut nm);
    nm.on_fetch_request_paused(&paused("i1", Some("r1"), ResourceType::Image, "https://cdn.test/top-ads.png"), &advisor);
    let cmds = commands(&drain(&mut nm));
    assert!(matches!(&cmds[0], CdpCommand::ContinueRequest { request_id } if request_id == "i1"));
}
