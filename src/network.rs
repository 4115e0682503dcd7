//! The network manager: request lifecycle tracking, interception policy,
//! auth challenges and protocol mode reconciliation.
use vstd::prelude::*;
use std::collections::VecDeque;
use crate::model::{
    copy_opt_response, copy_opt_string, disjoint, find_key, lemma_contains_push,
    lemma_contains_remove, lemma_keys_remove, lemma_with_entry_contains, lemma_without_key_contains, Key,
    PendingRequest, index_in, keys_of, lemma_index_in_range,
    lemma_unique_push, lemma_unique_remove, put_key, take_key, unique, with_entry, without_key,
    AuthChallengeResponse, CdpCommand, CommandChain, Credentials, LoadingFailed, NetworkEvent,
    RequestPaused, RequestRecord, RequestWillBeSent, Response, ResponseReceived, TrackedRequest,
};
use crate::policy::{
    ad_site_context, ad_site_context_spec, is_ad_candidate, is_ad_candidate_spec, should_block, should_block_spec, BlockingAdvisor,
    FilterFlags, PolicyTables,
};

verus! {

/// The user's intent and the protocol modes derived from it.
#[derive(Clone, Copy, Debug)]
pub struct ModeState {
    pub user_interception: bool,
    pub protocol_interception: bool,
    pub user_cache_disabled: bool,
    pub protocol_cache_disabled: bool,
}

/// The protocol modes match the user's intent and the credentials.
pub open spec fn mode_consistent(m: ModeState, has_credentials: bool) -> bool {
    &&& m.protocol_interception == (m.user_interception || has_credentials)
    &&& m.protocol_cache_disabled == (m.user_cache_disabled || m.protocol_interception)
}

/// Re-derives the cache mode; a command only when it changed.
pub open spec fn cache_step(m: ModeState) -> (ModeState, Seq<CdpCommand>) {
    let d = m.user_cache_disabled || m.protocol_interception;
    if d == m.protocol_cache_disabled {
        (m, seq![])
    } else {
        (ModeState { protocol_cache_disabled: d, ..m }, seq![CdpCommand::SetCacheDisabled { cache_disabled: d }])
    }
}

/// Re-derives the interception mode; on a change, the cache mode follows
/// and then the interception command.
pub open spec fn interception_step(m: ModeState, has_credentials: bool) -> (ModeState, Seq<CdpCommand>) {
    let wanted = m.user_interception || has_credentials;
    if wanted == m.protocol_interception {
        (m, seq![])
    } else {
        let (m1, c) = cache_step(ModeState { protocol_interception: wanted, ..m });
        (
            m1,
            c.push(
                if wanted {
                    CdpCommand::FetchEnable { handle_auth_requests: true }
                } else {
                    CdpCommand::FetchDisable
                },
            ),
        )
    }
}

/// The effect of setting the user's interception intent.
pub open spec fn set_interception_spec(m: ModeState, enabled: bool, has_credentials: bool) -> (ModeState, Seq<CdpCommand>) {
    interception_step(ModeState { user_interception: enabled, ..m }, has_credentials)
}

/// Commands as queued events.
pub open spec fn sends(c: Seq<CdpCommand>) -> Seq<NetworkEvent> {
    c.map_values(|x: CdpCommand| NetworkEvent::SendCdpRequest(x))
}

/// The auth answer to a challenge for `id`.
pub open spec fn auth_decision(attempted: Seq<Seq<char>>, id: Seq<char>, has_credentials: bool) -> AuthChallengeResponse {
    if attempted.contains(id) {
        AuthChallengeResponse::CancelAuth
    } else if has_credentials {
        AuthChallengeResponse::ProvideCredentials
    } else {
        AuthChallengeResponse::Default
    }
}

/// The attempted identifiers after a challenge for `id`.
pub open spec fn attempts_after(attempted: Seq<Seq<char>>, id: Seq<char>, has_credentials: bool) -> Seq<Seq<char>> {
    if !attempted.contains(id) && has_credentials {
        attempted.push(id)
    } else {
        attempted
    }
}

/// Whether a header is the proxy authorization header; header names do
/// not depend on ASCII case.
pub open spec fn is_proxy_authorization(h: (String, String)) -> bool {
    crate::text::eq_ignore_ascii_case_spec(h.0@, "proxy-authorization"@)
}

/// The headers without the proxy authorization header.
pub open spec fn strip_proxy_authorization(h: Seq<(String, String)>) -> Seq<(String, String)> {
    h.filter(|p: (String, String)| !is_proxy_authorization(p))
}

/// The event sends exactly the headers `h`.
pub open spec fn sends_headers(e: NetworkEvent, h: Seq<(String, String)>) -> bool {
    match e {
        NetworkEvent::SendCdpRequest(CdpCommand::SetExtraHttpHeaders { headers }) => headers@ == h,
        _ => false,
    }
}

/// The views of tracked requests.
pub open spec fn tracked_views(s: Seq<TrackedRequest>) -> Seq<(RequestRecord, Seq<RequestRecord>)> {
    s.map_values(|t: TrackedRequest| t@)
}

/// The identifiers of tracked requests.
pub open spec fn view_keys(s: Seq<(RequestRecord, Seq<RequestRecord>)>) -> Seq<Seq<char>> {
    s.map_values(|t: (RequestRecord, Seq<RequestRecord>)| t.0.request_id@)
}


/// The correlation state of the engine, with tracked requests by their views.
pub struct Correlation {
    pub requests: Seq<(RequestRecord, Seq<RequestRecord>)>,
    pub sent: Seq<(RequestWillBeSent, Seq<RequestRecord>)>,
    pub pairs: Seq<(String, String)>,
    pub attempted: Seq<String>,
    pub queue: Seq<NetworkEvent>,
}

/// The record of a request first seen in `e`.
pub open spec fn new_record(e: RequestWillBeSent, interception_id: Option<String>, allow: bool) -> RequestRecord {
    RequestRecord {
        request_id: e.request_id,
        frame_id: e.frame_id,
        interception_id,
        allow_interception: allow,
        response: None,
        from_memory_cache: false,
        failure_text: None,
    }
}

/// The views of pending requests.
pub open spec fn pending_views(s: Seq<PendingRequest>) -> Seq<(RequestWillBeSent, Seq<RequestRecord>)> {
    s.map_values(|p: PendingRequest| p@)
}

/// Takes the leg that `e` follows out of the tracked requests. On a redirect
/// the leg, stamped with the redirect response, ends the chain it carried,
/// which is returned; otherwise the chain is empty.
pub open spec fn detach_spec(c: Correlation, e: RequestWillBeSent) -> (Correlation, Seq<RequestRecord>) {
    let i = index_in(view_keys(c.requests), e.request_id@);
    let redirected = i >= 0 && e.redirect_response.is_some();
    let prev = c.requests[i];
    let chain = if redirected {
        prev.1.push(RequestRecord { response: e.redirect_response, ..prev.0 })
    } else {
        Seq::empty()
    };
    let attempted = if redirected && prev.0.interception_id.is_some() {
        without_key(c.attempted, prev.0.interception_id.unwrap()@)
    } else {
        c.attempted
    };
    let rest = if i >= 0 {
        c.requests.remove(i)
    } else {
        c.requests
    };
    (Correlation { requests: rest, attempted, ..c }, chain)
}

/// Tracks the request of `e` with redirect chain `chain`; it waits no longer.
pub open spec fn track_spec(
    c: Correlation,
    e: RequestWillBeSent,
    interception_id: Option<String>,
    allow: bool,
    chain: Seq<RequestRecord>,
) -> Correlation {
    Correlation {
        requests: c.requests.push((new_record(e, interception_id, allow), chain)),
        sent: without_key(c.sent, e.request_id@),
        queue: c.queue.push(NetworkEvent::Request(e.request_id)),
        ..c
    }
}

/// Starts tracking the request of `e` right away.
pub open spec fn on_request_spec(
    c: Correlation,
    e: RequestWillBeSent,
    interception_id: Option<String>,
    allow: bool,
) -> Correlation {
    let (d, chain) = detach_spec(c, e);
    track_spec(d, e, interception_id, allow, chain)
}

/// Whether the engine waits for an interception event for `e`.
pub open spec fn expects_pause(m: ModeState, e: RequestWillBeSent) -> bool {
    m.protocol_interception && !crate::text::has_prefix(e.url@, "data:"@)
}

/// The effect of a will-be-sent event.
pub open spec fn will_be_sent_spec(c: Correlation, m: ModeState, e: RequestWillBeSent) -> Correlation {
    if expects_pause(m, e) {
        let p = index_in(keys_of(c.pairs), e.request_id@);
        if p >= 0 {
            on_request_spec(
                Correlation { pairs: c.pairs.remove(p), ..c },
                e,
                Some(c.pairs[p].1),
                m.user_interception,
            )
        } else {
            let (d, chain) = detach_spec(c, e);
            Correlation { sent: with_entry(d.sent, (e, chain)), ..d }
        }
    } else {
        on_request_spec(c, e, None, m.user_interception)
    }
}

/// The command that answers a paused request that nothing tracks yet.
pub open spec fn policy_command(flags: FilterFlags, e: RequestPaused, ad_match: bool) -> CdpCommand {
    if should_block_spec(flags, e.resource_type, e.url@, ad_match) {
        CdpCommand::FulfillRequest { request_id: e.request_id, response_code: 200 }
    } else {
        CdpCommand::ContinueRequest { request_id: e.request_id }
    }
}

/// The effect of a paused-for-interception event, given the ad verdict.
pub open spec fn paused_spec(
    c: Correlation,
    m: ModeState,
    flags: FilterFlags,
    e: RequestPaused,
    ad_match: bool,
) -> Correlation {
    let cont = NetworkEvent::SendCdpRequest(CdpCommand::ContinueRequest { request_id: e.request_id });
    if !m.user_interception && m.protocol_interception {
        Correlation { queue: c.queue.push(cont), ..c }
    } else {
        match e.network_id {
            Some(nid) => {
                let s = index_in(keys_of(c.sent), nid@);
                if s >= 0 {
                    track_spec(
                        Correlation { sent: c.sent.remove(s), ..c },
                        c.sent[s].0,
                        Some(e.request_id),
                        m.user_interception,
                        c.sent[s].1,
                    )
                } else {
                    Correlation {
                        pairs: with_entry(c.pairs, (nid, e.request_id)),
                        queue: c.queue.push(NetworkEvent::SendCdpRequest(policy_command(flags, e, ad_match))),
                        ..c
                    }
                }
            },
            None => Correlation { queue: c.queue.push(cont), ..c },
        }
    }
}

pub proof fn lemma_view_keys(s: Seq<TrackedRequest>)
    ensures
        keys_of(s) == view_keys(tracked_views(s)),
{
    assert(keys_of(s) =~= view_keys(tracked_views(s)));
}


/// The attempted identifiers once the request `r` is done.
pub open spec fn attempts_cleared(attempted: Seq<String>, r: RequestRecord) -> Seq<String> {
    match r.interception_id {
        Some(iid) => without_key(attempted, iid@),
        None => attempted,
    }
}

/// The engine of one browser session. Protocol events come in through the
/// `on_*` methods and configuration through the setters; lifecycle events
/// and commands leave, in order, through `poll`.
pub struct NetworkManager {
    pub queued_events: VecDeque<NetworkEvent>,
    pub ignore_httpserrors: bool,
    /// In-flight requests, at most one per identifier.
    pub requests: Vec<TrackedRequest>,
    /// Will-be-sent events waiting for their interception event.
    pub requests_will_be_sent: Vec<PendingRequest>,
    pub extra_headers: Vec<(String, String)>,
    /// Interception identifiers waiting for their will-be-sent event.
    pub request_id_to_interception_id: Vec<(String, String)>,
    /// Identifiers that already received a credentialed answer.
    pub attempted_authentications: Vec<String>,
    pub credentials: Option<Credentials>,
    pub mode: ModeState,
    pub offline: bool,
    /// Acknowledgement timeout of commands, in milliseconds.
    pub request_timeout_ms: u64,
    pub tables: PolicyTables,
    pub filters: FilterFlags,
}

impl NetworkManager {
    pub open spec fn correlation(&self) -> Correlation {
        Correlation {
            requests: tracked_views(self.requests@),
            sent: pending_views(self.requests_will_be_sent@),
            pairs: self.request_id_to_interception_id@,
            attempted: self.attempted_authentications@,
            queue: self.queued_events@,
        }
    }

    /// Everything but the correlation state is as in `other`.
    pub open spec fn same_settings(&self, other: &NetworkManager) -> bool {
        *self == (NetworkManager {
            requests: self.requests,
            requests_will_be_sent: self.requests_will_be_sent,
            request_id_to_interception_id: self.request_id_to_interception_id,
            attempted_authentications: self.attempted_authentications,
            queued_events: self.queued_events,
            ..*other
        })
    }

    pub open spec fn wf(&self) -> bool {
        &&& self.tables.is_standard()
        &&& unique(keys_of(self.requests@))
        &&& unique(keys_of(self.requests_will_be_sent@))
        &&& unique(keys_of(self.request_id_to_interception_id@))
        &&& unique(keys_of(self.attempted_authentications@))
        &&& disjoint(keys_of(self.requests_will_be_sent@), keys_of(self.requests@))
        &&& unique(keys_of(self.extra_headers@))
        &&& mode_consistent(self.mode, self.credentials.is_some())
        &&& forall|i: int| 0 <= i < self.extra_headers@.len()
            ==> !is_proxy_authorization(#[trigger] self.extra_headers@[i])
    }

    pub fn new(ignore_httpserrors: bool, request_timeout_ms: u64) -> (r: NetworkManager)
        ensures
            r.wf(),
            r.queued_events@.len() == 0,
            r.requests@.len() == 0,
            r.requests_will_be_sent@.len() == 0,
            r.request_id_to_interception_id@.len() == 0,
            r.attempted_authentications@.len() == 0,
            r.extra_headers@.len() == 0,
            r.credentials.is_none(),
            !r.mode.user_interception && !r.mode.protocol_interception,
            !r.mode.user_cache_disabled && !r.mode.protocol_cache_disabled,
            !r.offline,
            r.ignore_httpserrors == ignore_httpserrors,
            r.request_timeout_ms == request_timeout_ms,
            !r.filters.ignore_visuals && !r.filters.block_stylesheets,
            !r.filters.block_javascript && !r.filters.only_html,
    {
        let r = NetworkManager {
            queued_events: VecDeque::new(),
            ignore_httpserrors,
            requests: Vec::new(),
            requests_will_be_sent: Vec::new(),
            extra_headers: Vec::new(),
            request_id_to_interception_id: Vec::new(),
            attempted_authentications: Vec::new(),
            credentials: None,
            mode: ModeState {
                user_interception: false,
                protocol_interception: false,
                user_cache_disabled: false,
                protocol_cache_disabled: false,
            },
            offline: false,
            request_timeout_ms,
            tables: PolicyTables::standard(),
            filters: FilterFlags {
                ignore_visuals: false,
                block_stylesheets: false,
                block_javascript: false,
                only_html: false,
            },
        };
        assert(keys_of(r.requests@) =~= Seq::<Seq<char>>::empty());
        assert(keys_of(r.requests_will_be_sent@) =~= Seq::<Seq<char>>::empty());
        assert(keys_of(r.request_id_to_interception_id@) =~= Seq::<Seq<char>>::empty());
        assert(keys_of(r.attempted_authentications@) =~= Seq::<Seq<char>>::empty());
        assert(keys_of(r.extra_headers@) =~= Seq::<Seq<char>>::empty());
        r
    }

    /// The commands that open a session: enable the network domain, and
    /// ignore certificate errors when asked to.
    pub fn init_commands(&self) -> (r: CommandChain)
        ensures
            r.timeout_ms == self.request_timeout_ms,
            r.commands@ == if self.ignore_httpserrors {
                seq![CdpCommand::NetworkEnable, CdpCommand::SetIgnoreCertificateErrors { ignore: true }]
            } else {
                seq![CdpCommand::NetworkEnable]
            },
    {
        let mut v: Vec<CdpCommand> = Vec::new();
        v.push(CdpCommand::NetworkEnable);
        if self.ignore_httpserrors {
            v.push(CdpCommand::SetIgnoreCertificateErrors { ignore: true });
        }
        CommandChain { commands: v, timeout_ms: self.request_timeout_ms }
    }

    fn push_cdp_request(&mut self, cmd: CdpCommand)
        ensures
            final(self).queued_events@ == old(self).queued_events@.push(NetworkEvent::SendCdpRequest(cmd)),
            *final(self) == (NetworkManager { queued_events: final(self).queued_events, ..*old(self) }),
    {
        self.queued_events.push_back(NetworkEvent::SendCdpRequest(cmd));
    }

    /// The next queued event, in insertion order.
    pub fn poll(&mut self) -> (r: Option<NetworkEvent>)
        ensures
            old(self).queued_events@.len() == 0 ==> r.is_none() && final(self).queued_events@ == old(self).queued_events@,
            old(self).queued_events@.len() > 0 ==> r == Some(old(self).queued_events@[0])
                && final(self).queued_events@ == old(self).queued_events@.drop_first(),
            *final(self) == (NetworkManager { queued_events: final(self).queued_events, ..*old(self) }),
    {
        let r = self.queued_events.pop_front();
        proof {
            if old(self).queued_events@.len() > 0 {
                assert(final(self).queued_events@ =~= old(self).queued_events@.drop_first());
            }
        }
        r
    }

    pub fn extra_headers(&self) -> (r: &Vec<(String, String)>)
        ensures
            r == &self.extra_headers,
    {
        &self.extra_headers
    }

    /// Re-derives the cache mode and sends it when it changed.
    pub fn update_protocol_cache_disabled(&mut self)
        ensures
            final(self).mode == cache_step(old(self).mode).0,
            final(self).queued_events@ == old(self).queued_events@ + sends(cache_step(old(self).mode).1),
            *final(self) == (NetworkManager {
                queued_events: final(self).queued_events,
                mode: final(self).mode,
                ..*old(self)
            }),
    {
        let d = self.mode.user_cache_disabled || self.mode.protocol_interception;
        if d != self.mode.protocol_cache_disabled {
            self.mode.protocol_cache_disabled = d;
            self.push_cdp_request(CdpCommand::SetCacheDisabled { cache_disabled: d });
            assert(sends(seq![CdpCommand::SetCacheDisabled { cache_disabled: d }])
                =~= seq![NetworkEvent::SendCdpRequest(CdpCommand::SetCacheDisabled { cache_disabled: d })]);
        } else {
            assert(old(self).queued_events@ + sends(seq![]) =~= old(self).queued_events@);
        }
    }

    fn update_protocol_request_interception(&mut self)
        ensures
            final(self).mode == interception_step(old(self).mode, old(self).credentials.is_some()).0,
            final(self).queued_events@ == old(self).queued_events@
                + sends(interception_step(old(self).mode, old(self).credentials.is_some()).1),
            *final(self) == (NetworkManager {
                queued_events: final(self).queued_events,
                mode: final(self).mode,
                ..*old(self)
            }),
    {
        let enabled = self.mode.user_interception || self.credentials.is_some();
        if enabled == self.mode.protocol_interception {
            assert(old(self).queued_events@ + sends(seq![]) =~= old(self).queued_events@);
            return;
        }
        self.mode.protocol_interception = enabled;
        let ghost q1 = self.queued_events@;
        self.update_protocol_cache_disabled();
        let ghost c = cache_step(ModeState { protocol_interception: enabled, ..old(self).mode }).1;
        let cmd = if enabled {
            CdpCommand::FetchEnable { handle_auth_requests: true }
        } else {
            CdpCommand::FetchDisable
        };
        self.push_cdp_request(cmd);
        assert(sends(c.push(cmd)) =~= sends(c).push(NetworkEvent::SendCdpRequest(cmd)));
        assert(old(self).queued_events@ + sends(c.push(cmd)) =~= (old(self).queued_events@ + sends(c)).push(
            NetworkEvent::SendCdpRequest(cmd)));
    }

    /// Sets the user's interception intent and reconciles the protocol modes.
    pub fn set_request_interception(&mut self, enabled: bool)
        requires
            old(self).wf(),
        ensures
            final(self).wf(),
            final(self).mode == set_interception_spec(old(self).mode, enabled, old(self).credentials.is_some()).0,
            final(self).queued_events@ == old(self).queued_events@
                + sends(set_interception_spec(old(self).mode, enabled, old(self).credentials.is_some()).1),
            *final(self) == (NetworkManager {
                queued_events: final(self).queued_events,
                mode: final(self).mode,
                ..*old(self)
            }),
    {
        self.mode.user_interception = enabled;
        self.update_protocol_request_interception();
    }

    /// Sets the user's cache intent and reconciles the cache mode.
    pub fn set_cache_enabled(&mut self, enabled: bool)
        requires
            old(self).wf(),
        ensures
            final(self).wf(),
            final(self).mode == cache_step(ModeState { user_cache_disabled: !enabled, ..old(self).mode }).0,
            final(self).queued_events@ == old(self).queued_events@
                + sends(cache_step(ModeState { user_cache_disabled: !enabled, ..old(self).mode }).1),
            *final(self) == (NetworkManager {
                queued_events: final(self).queued_events,
                mode: final(self).mode,
                ..*old(self)
            }),
    {
        self.mode.user_cache_disabled = !enabled;
        self.update_protocol_cache_disabled();
    }

    /// Stores the credentials and reconciles the protocol modes.
    pub fn authenticate(&mut self, credentials: Credentials)
        requires
            old(self).wf(),
        ensures
            final(self).wf(),
            final(self).credentials == Some(credentials),
            final(self).mode == interception_step(old(self).mode, true).0,
            final(self).queued_events@ == old(self).queued_events@
                + sends(interception_step(old(self).mode, true).1),
            *final(self) == (NetworkManager {
                queued_events: final(self).queued_events,
                mode: final(self).mode,
                credentials: Some(credentials),
                ..*old(self)
            }),
    {
        self.credentials = Some(credentials);
        self.update_protocol_request_interception();
    }

    /// Switches offline emulation; a command only when the value changes.
    pub fn set_offline_mode(&mut self, value: bool)
        requires
            old(self).wf(),
        ensures
            final(self).wf(),
            final(self).offline == value,
            final(self).queued_events@ == if old(self).offline == value {
                old(self).queued_events@
            } else {
                old(self).queued_events@.push(
                    NetworkEvent::SendCdpRequest(CdpCommand::EmulateNetworkConditions { offline: value }))
            },
            *final(self) == (NetworkManager {
                queued_events: final(self).queued_events,
                offline: value,
                ..*old(self)
            }),
    {
        if self.offline == value {
            return;
        }
        self.offline = value;
        self.push_cdp_request(CdpCommand::EmulateNetworkConditions { offline: value });
    }

    /// Replaces the extra headers, without any proxy authorization header,
    /// and sends them. Header names are given once each, as in a map.
    pub fn set_extra_headers(&mut self, headers: Vec<(String, String)>)
        requires
            old(self).wf(),
            unique(keys_of(headers@)),
        ensures
            final(self).wf(),
            final(self).extra_headers@ == strip_proxy_authorization(headers@),
            final(self).queued_events@.len() == old(self).queued_events@.len() + 1,
            final(self).queued_events@.drop_last() == old(self).queued_events@,
            sends_headers(final(self).queued_events@.last(), strip_proxy_authorization(headers@)),
            *final(self) == (NetworkManager {
                queued_events: final(self).queued_events,
                extra_headers: final(self).extra_headers,
                ..*old(self)
            }),
    {
        let mut kept: Vec<(String, String)> = Vec::new();
        let mut i: usize = 0;
        proof {
            reveal(Seq::filter);
            assert(headers@.subrange(0, 0) =~= Seq::<(String, String)>::empty());
        }
        while i < headers.len()
            invariant
                0 <= i <= headers@.len(),
                kept@ == strip_proxy_authorization(headers@.subrange(0, i as int)),
                unique(keys_of(headers@)),
                unique(keys_of(kept@)),
                forall|j: int| 0 <= j < kept@.len() ==> exists|m: int| 0 <= m < i
                    && #[trigger] kept@[j].0@ == headers@[m].0@,
            decreases headers@.len() - i,
        {
            let h = &headers[i];
            proof {
                reveal(Seq::filter);
                assert(headers@.subrange(0, i + 1).drop_last() =~= headers@.subrange(0, i as int));
                assert(headers@.subrange(0, i + 1).last() == headers@[i as int]);
            }
            if !crate::text::eq_ignore_ascii_case(h.0.as_str(), "proxy-authorization") {
                let ghost before = kept@;
                let entry = (h.0.clone(), h.1.clone());
                proof {
                    if keys_of(before).contains(entry.0@) {
                        let j = choose|j: int| 0 <= j < keys_of(before).len() && keys_of(before)[j] == entry.0@;
                        assert(before[j].0@ == entry.0@);
                        let m = choose|m: int| 0 <= m < i && before[j].0@ == headers@[m].0@;
                        assert(keys_of(headers@)[m] == keys_of(headers@)[i as int]);
                    }
                    lemma_unique_push(keys_of(before), entry.0@);
                    crate::model::lemma_keys_push(before, entry);
                }
                kept.push(entry);
                proof {
                    assert forall|j: int| 0 <= j < kept@.len() implies exists|m: int| 0 <= m < i + 1
                        && #[trigger] kept@[j].0@ == headers@[m].0@ by {
                        if j < before.len() {
                            assert(kept@[j] == before[j]);
                        } else {
                            assert(kept@[j].0@ == headers@[i as int].0@);
                        }
                    }
                }
            }
            i = i + 1;
        }
        assert(headers@.subrange(0, i as int) =~= headers@);
        let mut sent: Vec<(String, String)> = Vec::new();
        let mut j: usize = 0;
        while j < kept.len()
            invariant
                0 <= j <= kept@.len(),
                sent@ == kept@.subrange(0, j as int),
            decreases kept@.len() - j,
        {
            let h = &kept[j];
            sent.push((h.0.clone(), h.1.clone()));
            assert(sent@ =~= kept@.subrange(0, j + 1));
            j = j + 1;
        }
        assert(sent@ =~= kept@);
        proof {
            let pred = |p: (String, String)| !is_proxy_authorization(p);
            assert forall|k: int| 0 <= k < kept@.len() implies !is_proxy_authorization(#[trigger] kept@[k]) by {
                headers@.lemma_filter_pred(pred, k);
            }
        }
        self.extra_headers = kept;
        assert(sent@ == self.extra_headers@);
        self.push_cdp_request(CdpCommand::SetExtraHttpHeaders { headers: sent });
        assert(self.queued_events@.drop_last() =~= old(self).queued_events@);
    }

    fn has_attempted(&self, id: &String) -> (r: bool)
        ensures
            r == keys_of(self.attempted_authentications@).contains(id@),
    {
        let r = crate::text::contains_string(&self.attempted_authentications, id);
        proof {
            let vs = keys_of(self.attempted_authentications@);
            if r {
                let i = choose|i: int| 0 <= i < self.attempted_authentications@.len()
                    && self.attempted_authentications@[i]@ == id@;
                assert(vs[i] == id@);
            }
            if vs.contains(id@) {
                let i = choose|i: int| 0 <= i < vs.len() && vs[i] == id@;
                assert(self.attempted_authentications@[i]@ == id@);
            }
        }
        r
    }

    /// Answers an auth challenge: cancel on a repeated challenge, provide the
    /// credentials once, or defer to the browser without credentials.
    pub fn on_fetch_auth_required(&mut self, request_id: &String)
        requires
            old(self).wf(),
        ensures
            final(self).wf(),
            keys_of(final(self).attempted_authentications@) == attempts_after(
                keys_of(old(self).attempted_authentications@),
                request_id@,
                old(self).credentials.is_some(),
            ),
            final(self).queued_events@ == old(self).queued_events@.push(NetworkEvent::SendCdpRequest(
                CdpCommand::ContinueWithAuth {
                    request_id: *request_id,
                    response: auth_decision(
                        keys_of(old(self).attempted_authentications@),
                        request_id@,
                        old(self).credentials.is_some(),
                    ),
                    username: match old(self).credentials {
                        Some(c) => Some(c.username),
                        None => None,
                    },
                    password: match old(self).credentials {
                        Some(c) => Some(c.password),
                        None => None,
                    },
                },
            )),
            *final(self) == (NetworkManager {
                queued_events: final(self).queued_events,
                attempted_authentications: final(self).attempted_authentications,
                ..*old(self)
            }),
    {
        let response = if self.has_attempted(request_id) {
            AuthChallengeResponse::CancelAuth
        } else if self.credentials.is_some() {
            let ghost before = keys_of(self.attempted_authentications@);
            self.attempted_authentications.push(request_id.clone());
            proof {
                assert(keys_of(self.attempted_authentications@) =~= before.push(request_id@));
                lemma_unique_push(before, request_id@);
            }
            AuthChallengeResponse::ProvideCredentials
        } else {
            AuthChallengeResponse::Default
        };
        let (username, password) = match &self.credentials {
            Some(c) => (Some(c.username.clone()), Some(c.password.clone())),
            None => (None, None),
        };
        self.push_cdp_request(CdpCommand::ContinueWithAuth {
            request_id: request_id.clone(),
            response,
            username,
            password,
        });
    }

    /// Stamps a redirected leg with its redirect response; its interception
    /// no longer counts as an auth attempt.
    fn handle_request_redirect(&mut self, request: &mut RequestRecord, response: Response)
        requires
            unique(keys_of(old(self).attempted_authentications@)),
        ensures
            *final(request) == (RequestRecord { response: Some(response), ..*old(request) }),
            unique(keys_of(final(self).attempted_authentications@)),
            final(self).attempted_authentications@ == attempts_cleared(
                old(self).attempted_authentications@,
                *old(request),
            ),
            *final(self) == (NetworkManager {
                attempted_authentications: final(self).attempted_authentications,
                ..*old(self)
            }),
    {
        request.response = Some(response);
        match &request.interception_id {
            Some(iid) => {
                let _ = take_key(&mut self.attempted_authentications, iid);
            },
            None => {},
        }
    }

    fn detach(&mut self, event: &RequestWillBeSent) -> (chain: Vec<RequestRecord>)
        requires
            old(self).wf(),
        ensures
            final(self).wf(),
            !keys_of(final(self).requests@).contains(event.request_id@),
            (final(self).correlation(), chain@) == detach_spec(old(self).correlation(), *event),
            *final(self) == (NetworkManager {
                requests: final(self).requests,
                attempted_authentications: final(self).attempted_authentications,
                ..*old(self)
            }),
    {
        proof {
            lemma_view_keys(self.requests@);
            lemma_index_in_range(keys_of(self.requests@), event.request_id@);
        }
        let ghost c = self.correlation();
        let ghost i = index_in(keys_of(self.requests@), event.request_id@);
        let mut chain: Vec<RequestRecord> = Vec::new();
        let taken = take_key(&mut self.requests, &event.request_id);
        let ghost rest = self.requests@;
        match taken {
            Some(prev) => {
                match &event.redirect_response {
                    Some(response) => {
                        let TrackedRequest { record, redirect_chain } = prev;
                        let mut record = record;
                        self.handle_request_redirect(&mut record, response.copy());
                        chain = redirect_chain;
                        chain.push(record);
                    },
                    None => {},
                }
            },
            None => {},
        }
        proof {
            if i >= 0 {
                assert(tracked_views(rest) =~= c.requests.remove(i));
            } else {
                assert(tracked_views(rest) =~= c.requests);
            }
            if i >= 0 && event.redirect_response.is_some() {
                assert(chain@ =~= c.requests[i].1.push(RequestRecord {
                    response: event.redirect_response,
                    ..c.requests[i].0
                }));
            } else {
                assert(chain@ =~= Seq::<RequestRecord>::empty());
            }
            assert forall|k: Seq<char>| keys_of(self.requests_will_be_sent@).contains(k)
                implies !keys_of(self.requests@).contains(k) by {
                if keys_of(self.requests@).contains(k) {
                    lemma_without_key_contains(old(self).requests@, event.request_id@, k);
                }
            }
        }
        chain
    }

    proof fn lemma_pending_views(s: Seq<PendingRequest>)
        ensures
            keys_of(pending_views(s)) == keys_of(s),
            forall|i: int| 0 <= i < s.len() ==> pending_views(s.remove(i)) == #[trigger] pending_views(s).remove(i),
            forall|x: PendingRequest| #[trigger] pending_views(with_entry(s, x)) == with_entry(pending_views(s), x@),
    {
        assert(keys_of(pending_views(s)) =~= keys_of(s));
        assert forall|i: int| 0 <= i < s.len() implies pending_views(s.remove(i)) == #[trigger] pending_views(s).remove(i) by {
            assert(pending_views(s.remove(i)) =~= pending_views(s).remove(i));
        }
        assert forall|x: PendingRequest| #[trigger] pending_views(with_entry(s, x)) == with_entry(pending_views(s), x@) by {
            let i = index_in(keys_of(s), x.key());
            if i >= 0 {
                assert(pending_views(s.update(i, x)) =~= pending_views(s).update(i, x@));
            } else {
                assert(pending_views(s.push(x)) =~= pending_views(s).push(x@));
            }
        }
    }

    fn track(&mut self, event: &RequestWillBeSent, interception_id: Option<String>, chain: Vec<RequestRecord>)
        requires
            old(self).wf(),
            !keys_of(old(self).requests@).contains(event.request_id@),
        ensures
            final(self).wf(),
            final(self).correlation() == track_spec(
                old(self).correlation(),
                *event,
                interception_id,
                old(self).mode.user_interception,
                chain@,
            ),
            final(self).same_settings(old(self)),
    {
        proof {
            Self::lemma_pending_views(self.requests_will_be_sent@);
            lemma_index_in_range(keys_of(self.requests_will_be_sent@), event.request_id@);
        }
        let ghost c = self.correlation();
        let ghost before = self.requests@;
        let _ = take_key(&mut self.requests_will_be_sent, &event.request_id);
        let rec = RequestRecord {
            request_id: event.request_id.clone(),
            frame_id: copy_opt_string(&event.frame_id),
            interception_id,
            allow_interception: self.mode.user_interception,
            response: None,
            from_memory_cache: false,
            failure_text: None,
        };
        let t = TrackedRequest { record: rec, redirect_chain: chain };
        proof {
            lemma_unique_push(keys_of(before), event.request_id@);
            crate::model::lemma_keys_push(before, t);
        }
        self.requests.push(t);
        self.queued_events.push_back(NetworkEvent::Request(event.request_id.clone()));
        proof {
            assert(tracked_views(self.requests@) =~= tracked_views(before).push(t@));
            assert forall|k: Seq<char>| keys_of(self.requests_will_be_sent@).contains(k)
                implies !keys_of(self.requests@).contains(k) by {
                lemma_without_key_contains(old(self).requests_will_be_sent@, event.request_id@, k);
                lemma_contains_push(keys_of(before), event.request_id@, k);
            }
        }
    }

    fn on_request(&mut self, event: &RequestWillBeSent, interception_id: Option<String>)
        requires
            old(self).wf(),
        ensures
            final(self).wf(),
            final(self).correlation() == on_request_spec(
                old(self).correlation(),
                *event,
                interception_id,
                old(self).mode.user_interception,
            ),
            final(self).same_settings(old(self)),
    {
        let chain = self.detach(event);
        self.track(event, interception_id, chain);
    }

    /// A request is about to be sent. With interception active (and not for
    /// a data URL) it is paired with its interception event, in either order.
    pub fn on_request_will_be_sent(&mut self, event: RequestWillBeSent)
        requires
            old(self).wf(),
        ensures
            final(self).wf(),
            final(self).correlation() == will_be_sent_spec(old(self).correlation(), old(self).mode, event),
            final(self).same_settings(old(self)),
    {
        if self.mode.protocol_interception && !crate::text::starts_with(event.url.as_str(), "data:") {
            let ghost c0 = self.correlation();
            let taken = take_key(&mut self.request_id_to_interception_id, &event.request_id);
            match taken {
                Some(pair) => {
                    let (_, interception_id) = pair;
                    proof {
                        let p = index_in(keys_of(c0.pairs), event.request_id@);
                        assert(self.correlation() == Correlation { pairs: c0.pairs.remove(p), ..c0 });
                    }
                    self.on_request(&event, Some(interception_id));
                },
                None => {
                    let ghost c1 = self.correlation();
                    let chain = self.detach(&event);
                    let ghost before = self.requests_will_be_sent@;
                    let ghost r = self.requests@;
                    let pending = PendingRequest { event, redirect_chain: chain };
                    put_key(&mut self.requests_will_be_sent, pending);
                    proof {
                        Self::lemma_pending_views(before);
                        assert forall|k: Seq<char>| keys_of(self.requests_will_be_sent@).contains(k)
                            implies !keys_of(self.requests@).contains(k) by {
                            lemma_with_entry_contains(before, pending, k);
                        }
                    }
                },
            }
        } else {
            self.on_request(&event, None);
        }
    }

    /// Handles a paused request whose answer depends on the ad verdict
    /// `ad_match`. Paired with a buffered will-be-sent event if there is one;
    /// otherwise its interception identifier is kept for the will-be-sent
    /// event still to come, and the request is continued or blocked by the
    /// interception policy. Interception held only for auth continues it.
    pub fn on_fetch_request_paused_with_verdict(&mut self, event: &RequestPaused, ad_match: bool)
        requires
            old(self).wf(),
        ensures
            final(self).wf(),
            final(self).correlation() == paused_spec(
                old(self).correlation(),
                old(self).mode,
                old(self).filters,
                *event,
                ad_match,
            ),
            final(self).same_settings(old(self)),
    {
        if !self.mode.user_interception && self.mode.protocol_interception {
            self.push_cdp_request(CdpCommand::ContinueRequest { request_id: event.request_id.clone() });
            return;
        }
        match &event.network_id {
            Some(network_id) => {
                let ghost c0 = self.correlation();
                proof {
                    Self::lemma_pending_views(old(self).requests_will_be_sent@);
                }
                let taken = take_key(&mut self.requests_will_be_sent, network_id);
                match taken {
                    Some(pending) => {
                        proof {
                            Self::lemma_pending_views(old(self).requests_will_be_sent@);
                            let i = index_in(keys_of(c0.sent), network_id@);
                            assert(self.correlation() == Correlation { sent: c0.sent.remove(i), ..c0 });
                            assert(keys_of(old(self).requests_will_be_sent@)[i] == network_id@);
                            assert(c0.sent[i] == pending@);
                            assert(keys_of(old(self).requests_will_be_sent@).contains(network_id@));
                            assert forall|k: Seq<char>| keys_of(self.requests_will_be_sent@).contains(k)
                                implies !keys_of(self.requests@).contains(k) by {
                                lemma_without_key_contains(old(self).requests_will_be_sent@, network_id@, k);
                            }
                        }
                        let ghost pv = pending@;
                        let PendingRequest { event: sent, redirect_chain } = pending;
                        assert(pv == (sent, redirect_chain@));
                        self.track(&sent, Some(event.request_id.clone()), redirect_chain);
                    },
                    None => {
                        proof {
                            assert(self.requests_will_be_sent@ == old(self).requests_will_be_sent@);
                        }
                        put_key(
                            &mut self.request_id_to_interception_id,
                            (network_id.clone(), event.request_id.clone()),
                        );
                        let block = should_block(
                            &self.tables,
                            self.filters,
                            event.resource_type,
                            &event.url,
                            ad_match,
                        );
                        let cmd = if block {
                            CdpCommand::FulfillRequest { request_id: event.request_id.clone(), response_code: 200 }
                        } else {
                            CdpCommand::ContinueRequest { request_id: event.request_id.clone() }
                        };
                        self.push_cdp_request(cmd);
                    },
                }
            },
            None => {
                self.push_cdp_request(CdpCommand::ContinueRequest { request_id: event.request_id.clone() });
            },
        }
    }

    /// Handles a paused request, asking `advisor` for an ad verdict where
    /// the policy consults one.
    pub fn on_fetch_request_paused<A: BlockingAdvisor>(&mut self, event: &RequestPaused, advisor: &A)
        requires
            old(self).wf(),
        ensures
            final(self).wf(),
            final(self).correlation() == paused_spec(
                old(self).correlation(),
                old(self).mode,
                old(self).filters,
                *event,
                !old(self).filters.ignore_visuals && is_ad_candidate_spec(event.resource_type)
                    && advisor.verdict(event.url@, ad_site_context_spec(event.url@, event.is_same_site), event.resource_type),
            ),
            final(self).same_settings(old(self)),
    {
        let ad_match = if !self.filters.ignore_visuals && is_ad_candidate(event.resource_type) {
            let site = ad_site_context(&event.url, event.is_same_site);
            advisor.is_ad(&event.url, &site, event.resource_type)
        } else {
            false
        };
        self.on_fetch_request_paused_with_verdict(event, ad_match);
    }

    /// Marks the request as served from the memory cache.
    pub fn on_request_served_from_cache(&mut self, request_id: &String)
        requires
            old(self).wf(),
        ensures
            final(self).wf(),
            ({
                let i = index_in(keys_of(old(self).requests@), request_id@);
                &&& i < 0 ==> *final(self) == *old(self)
                &&& i >= 0 ==> final(self).requests@ == old(self).requests@.update(
                    i,
                    TrackedRequest {
                        record: RequestRecord { from_memory_cache: true, ..old(self).requests@[i].record },
                        redirect_chain: old(self).requests@[i].redirect_chain,
                    },
                )
                &&& i >= 0 ==> *final(self) == (NetworkManager { requests: final(self).requests, ..*old(self) })
            }),
    {
        match find_key(&self.requests, request_id) {
            Some(i) => {
                let mut r = self.requests.remove(i);
                r.record.from_memory_cache = true;
                self.requests.insert(i, r);
                proof {
                    assert(self.requests@ =~= old(self).requests@.update(i as int, r));
                    assert(keys_of(self.requests@) =~= keys_of(old(self).requests@));
                }
            },
            None => {},
        }
    }

    /// A response arrived: the request is done and reported finished.
    pub fn on_response_received(&mut self, event: &ResponseReceived)
        requires
            old(self).wf(),
        ensures
            final(self).wf(),
            !keys_of(final(self).requests@).contains(event.request_id@),
            ({
                let i = index_in(keys_of(old(self).requests@), event.request_id@);
                &&& i < 0 ==> *final(self) == *old(self)
                &&& i >= 0 ==> final(self).requests@ == old(self).requests@.remove(i)
                &&& i >= 0 ==> final(self).queued_events@ == old(self).queued_events@.push(
                    NetworkEvent::RequestFinished(TrackedRequest {
                        record: RequestRecord {
                            response: Some(event.response),
                            ..old(self).requests@[i].record
                        },
                        redirect_chain: old(self).requests@[i].redirect_chain,
                    }),
                )
                &&& i >= 0 ==> *final(self) == (NetworkManager {
                    requests: final(self).requests,
                    queued_events: final(self).queued_events,
                    ..*old(self)
                })
            }),
    {
        proof {
            lemma_index_in_range(keys_of(self.requests@), event.request_id@);
        }
        match find_key(&self.requests, &event.request_id) {
            Some(i) => {
                let mut request = self.requests.remove(i);
                proof {
                    crate::model::lemma_keys_remove(old(self).requests@, i as int);
                    lemma_unique_remove(keys_of(old(self).requests@), i as int);
                }
                request.record.response = Some(event.response.copy());
                self.queued_events.push_back(NetworkEvent::RequestFinished(request));
            },
            None => {},
        }
    }

    /// The request finished loading: it is done and reported finished.
    pub fn on_network_loading_finished(&mut self, request_id: &String)
        requires
            old(self).wf(),
        ensures
            final(self).wf(),
            !keys_of(final(self).requests@).contains(request_id@),
            ({
                let i = index_in(keys_of(old(self).requests@), request_id@);
                &&& i < 0 ==> *final(self) == *old(self)
                &&& i >= 0 ==> final(self).requests@ == old(self).requests@.remove(i)
                &&& i >= 0 ==> final(self).attempted_authentications@ == attempts_cleared(
                    old(self).attempted_authentications@,
                    old(self).requests@[i].record,
                )
                &&& i >= 0 ==> final(self).queued_events@ == old(self).queued_events@.push(
                    NetworkEvent::RequestFinished(old(self).requests@[i]),
                )
                &&& i >= 0 ==> *final(self) == (NetworkManager {
                    requests: final(self).requests,
                    queued_events: final(self).queued_events,
                    attempted_authentications: final(self).attempted_authentications,
                    ..*old(self)
                })
            }),
    {
        proof {
            lemma_index_in_range(keys_of(self.requests@), request_id@);
        }
        match find_key(&self.requests, request_id) {
            Some(i) => {
                let request = self.requests.remove(i);
                proof {
                    crate::model::lemma_keys_remove(old(self).requests@, i as int);
                    lemma_unique_remove(keys_of(old(self).requests@), i as int);
                }
                match &request.record.interception_id {
                    Some(iid) => {
                        let _ = take_key(&mut self.attempted_authentications, iid);
                    },
                    None => {},
                }
                self.queued_events.push_back(NetworkEvent::RequestFinished(request));
            },
            None => {},
        }
    }

    /// The request failed to load: it is done and reported failed.
    pub fn on_network_loading_failed(&mut self, event: &LoadingFailed)
        requires
            old(self).wf(),
        ensures
            final(self).wf(),
            !keys_of(final(self).requests@).contains(event.request_id@),
            ({
                let i = index_in(keys_of(old(self).requests@), event.request_id@);
                &&& i < 0 ==> *final(self) == *old(self)
                &&& i >= 0 ==> final(self).requests@ == old(self).requests@.remove(i)
                &&& i >= 0 ==> final(self).attempted_authentications@ == attempts_cleared(
                    old(self).attempted_authentications@,
                    old(self).requests@[i].record,
                )
                &&& i >= 0 ==> final(self).queued_events@ == old(self).queued_events@.push(
                    NetworkEvent::RequestFailed(TrackedRequest {
                        record: RequestRecord {
                            failure_text: Some(event.error_text),
                            ..old(self).requests@[i].record
                        },
                        redirect_chain: old(self).requests@[i].redirect_chain,
                    }),
                )
                &&& i >= 0 ==> *final(self) == (NetworkManager {
                    requests: final(self).requests,
                    queued_events: final(self).queued_events,
                    attempted_authentications: final(self).attempted_authentications,
                    ..*old(self)
                })
            }),
    {
        proof {
            lemma_index_in_range(keys_of(self.requests@), event.request_id@);
        }
        match find_key(&self.requests, &event.request_id) {
            Some(i) => {
                let mut request = self.requests.remove(i);
                proof {
                    crate::model::lemma_keys_remove(old(self).requests@, i as int);
                    lemma_unique_remove(keys_of(old(self).requests@), i as int);
                }
                request.record.failure_text = Some(event.error_text.clone());
                match &request.record.interception_id {
                    Some(iid) => {
                        let _ = take_key(&mut self.attempted_authentications, iid);
                    },
                    None => {},
                }
                self.queued_events.push_back(NetworkEvent::RequestFailed(request));
            },
            None => {},
        }
    }
}

} // verus!
