//! Properties of the engine over several events or calls.
use vstd::prelude::*;
use crate::model::{
    index_in, keys_of, lemma_index_in, lemma_index_in_absent, lemma_index_in_range,
    lemma_contains_push, lemma_contains_remove, lemma_unique_push, lemma_unique_remove, unique, without_key, AuthChallengeResponse, CdpCommand,
    Key, NetworkEvent, RequestPaused, RequestRecord, RequestWillBeSent, TrackedRequest,
};
use crate::network::{
    attempts_after, auth_decision, cache_step, detach_spec, interception_step, track_spec, is_proxy_authorization, mode_consistent, new_record,
    on_request_spec, paused_spec, policy_command, set_interception_spec, strip_proxy_authorization,
    view_keys, will_be_sent_spec, Correlation, ModeState,
};
use crate::policy::FilterFlags;
use crate::text::has_prefix;

verus! {

/// After a request starts being tracked, identifiers stay unique and the
/// new request is the last entry.
pub proof fn lemma_on_request_unique(
    c: Correlation,
    e: RequestWillBeSent,
    interception_id: Option<String>,
    allow: bool,
)
    requires
        unique(view_keys(c.requests)),
    ensures
        ({
            let r = on_request_spec(c, e, interception_id, allow).requests;
            &&& unique(view_keys(r))
            &&& r.len() >= 1
            &&& index_in(view_keys(r), e.request_id@) == r.len() - 1
            &&& r.last().0 == new_record(e, interception_id, allow)
        }),
{
    let keys = view_keys(c.requests);
    let i = index_in(keys, e.request_id@);
    lemma_index_in_range(keys, e.request_id@);
    let rest = if i >= 0 {
        c.requests.remove(i)
    } else {
        c.requests
    };
    if i >= 0 {
        assert(view_keys(rest) =~= keys.remove(i));
        lemma_unique_remove(keys, i);
    }
    let r = on_request_spec(c, e, interception_id, allow).requests;
    let x = r.last();
    assert(r == rest.push(x));
    assert(view_keys(r) =~= view_keys(rest).push(e.request_id@));
    lemma_unique_push(view_keys(rest), e.request_id@);
}

/// Three chained will-be-sent events A, B, C for one identifier, B and C
/// each carrying the redirect response of the leg before, leave a request
/// whose redirect chain is A then B, each stamped with its redirect response.
pub proof fn lemma_redirect_chain_order(
    c: Correlation,
    a: RequestWillBeSent,
    b: RequestWillBeSent,
    cc: RequestWillBeSent,
    ia: Option<String>,
    ib: Option<String>,
    ic: Option<String>,
    allow: bool,
)
    requires
        unique(view_keys(c.requests)),
        !view_keys(c.requests).contains(a.request_id@),
        b.request_id@ == a.request_id@,
        cc.request_id@ == a.request_id@,
        b.redirect_response.is_some(),
        cc.redirect_response.is_some(),
    ensures
        ({
            let f = on_request_spec(on_request_spec(on_request_spec(c, a, ia, allow), b, ib, allow), cc, ic, allow);
            let i = index_in(view_keys(f.requests), a.request_id@);
            &&& 0 <= i < f.requests.len()
            &&& f.requests[i].0 == new_record(cc, ic, allow)
            &&& f.requests[i].1 == seq![
                RequestRecord { response: b.redirect_response, ..new_record(a, ia, allow) },
                RequestRecord { response: cc.redirect_response, ..new_record(b, ib, allow) },
            ]
        }),
{
    lemma_index_in_absent(view_keys(c.requests), a.request_id@);
    let c1 = on_request_spec(c, a, ia, allow);
    lemma_on_request_unique(c, a, ia, allow);
    assert(c1.requests.last().1 =~= Seq::<RequestRecord>::empty());
    let c2 = on_request_spec(c1, b, ib, allow);
    lemma_on_request_unique(c1, b, ib, allow);
    assert(c2.requests.last().1 =~= seq![
        RequestRecord { response: b.redirect_response, ..new_record(a, ia, allow) },
    ]);
    let c3 = on_request_spec(c2, cc, ic, allow);
    lemma_on_request_unique(c2, cc, ic, allow);
    assert(c3.requests.last().1 =~= seq![
        RequestRecord { response: b.redirect_response, ..new_record(a, ia, allow) },
        RequestRecord { response: cc.redirect_response, ..new_record(b, ib, allow) },
    ]);
}

/// With interception enabled by the user, a will-be-sent event and the
/// paused event for the same request leave the same tracked requests,
/// buffers and auth attempts in either order of arrival: those of tracking
/// the request right away with the paused event's interception identifier.
/// Only the policy command of the paused-first order differs in the queue.
pub proof fn lemma_pairing_order_independent(
    c: Correlation,
    m: ModeState,
    flags: FilterFlags,
    w: RequestWillBeSent,
    p: RequestPaused,
    ad_match: bool,
)
    requires
        unique(keys_of(c.sent)),
        unique(keys_of(c.pairs)),
        m.user_interception,
        m.protocol_interception,
        !has_prefix(w.url@, "data:"@),
        p.network_id.is_some(),
        p.network_id.unwrap()@ == w.request_id@,
        !keys_of(c.sent).contains(w.request_id@),
        !keys_of(c.pairs).contains(w.request_id@),
    ensures
        ({
            let x = paused_spec(will_be_sent_spec(c, m, w), m, flags, p, ad_match);
            let y = will_be_sent_spec(paused_spec(c, m, flags, p, ad_match), m, w);
            let paired = on_request_spec(c, w, Some(p.request_id), m.user_interception);
            &&& x.requests == paired.requests && y.requests == paired.requests
            &&& x.attempted == paired.attempted && y.attempted == paired.attempted
            &&& x.sent == c.sent && y.sent == c.sent
            &&& x.pairs == c.pairs && y.pairs == c.pairs
            &&& x.queue == c.queue.push(NetworkEvent::Request(w.request_id))
            &&& y.queue == c.queue.push(NetworkEvent::SendCdpRequest(policy_command(flags, p, ad_match))).push(
                NetworkEvent::Request(w.request_id),
            )
        }),
{
    let nid = p.network_id.unwrap();
    lemma_index_in_absent(keys_of(c.pairs), w.request_id@);
    lemma_index_in_absent(keys_of(c.sent), w.request_id@);
    assert(without_key(c.sent, w.request_id@) == c.sent);
    let (d, chain) = detach_spec(c, w);
    // will-be-sent first: buffered with its chain, then paired
    let c1 = will_be_sent_spec(c, m, w);
    let entry = (w, chain);
    assert(c1.sent == c.sent.push(entry));
    assert(keys_of(c.sent.push(entry)) =~= keys_of(c.sent).push(w.request_id@));
    lemma_unique_push(keys_of(c.sent), w.request_id@);
    assert(index_in(keys_of(c1.sent), nid@) == c.sent.len());
    assert(c1.sent.remove(c.sent.len() as int) =~= c.sent);
    assert(c1.sent[c.sent.len() as int] == entry);
    let x = paused_spec(c1, m, flags, p, ad_match);
    assert(x == track_spec(Correlation { sent: c.sent, ..c1 }, w, Some(p.request_id), m.user_interception, chain));
    // paused first: recorded, then paired by the will-be-sent event
    lemma_index_in_absent(keys_of(c.sent), nid@);
    let pair = (nid, p.request_id);
    lemma_index_in_absent(keys_of(c.pairs), nid@);
    let c2 = paused_spec(c, m, flags, p, ad_match);
    assert(c2.pairs == c.pairs.push(pair));
    assert(keys_of(c.pairs.push(pair)) =~= keys_of(c.pairs).push(nid@));
    lemma_unique_push(keys_of(c.pairs), nid@);
    assert(index_in(keys_of(c2.pairs), w.request_id@) == c.pairs.len());
    assert(c2.pairs.remove(c.pairs.len() as int) =~= c.pairs);
    let y = will_be_sent_spec(c2, m, w);
    let c3 = Correlation { pairs: c.pairs, ..c2 };
    assert(y == on_request_spec(c3, w, Some(p.request_id), m.user_interception));
    assert(detach_spec(c3, w).1 == chain);
}

/// Two consecutive auth challenges for one identifier with credentials set
/// never both provide them: a fresh identifier gets the credentials, and a
/// second challenge is always cancelled.
pub proof fn lemma_auth_retry_bound(attempted: Seq<Seq<char>>, id: Seq<char>)
    ensures
        !attempted.contains(id) ==> auth_decision(attempted, id, true)
            == AuthChallengeResponse::ProvideCredentials,
        auth_decision(attempts_after(attempted, id, true), id, true) == AuthChallengeResponse::CancelAuth,
{
    if !attempted.contains(id) {
        assert(attempted.push(id)[attempted.len() as int] == id);
    }
}

/// Enabling interception twice in a row sends the enable command once, after
/// at most one cache command, and the second call sends nothing.
pub proof fn lemma_interception_idempotent(m: ModeState, has_credentials: bool)
    requires
        mode_consistent(m, has_credentials),
    ensures
        ({
            let (m1, c1) = set_interception_spec(m, true, has_credentials);
            let (m2, c2) = set_interception_spec(m1, true, has_credentials);
            &&& mode_consistent(m1, has_credentials)
            &&& c2.len() == 0
            &&& m2 == m1
            &&& m.protocol_interception ==> c1.len() == 0
            &&& !m.protocol_interception ==> (c1 == seq![CdpCommand::FetchEnable { handle_auth_requests: true }]
                || c1 == seq![
                    CdpCommand::SetCacheDisabled { cache_disabled: true },
                    CdpCommand::FetchEnable { handle_auth_requests: true },
                ])
        }),
{
    let (m1, c1) = set_interception_spec(m, true, has_credentials);
    if !m.protocol_interception {
        if m.user_cache_disabled {
            assert(c1 =~= seq![CdpCommand::FetchEnable { handle_auth_requests: true }]);
        } else {
            assert(c1 =~= seq![
                CdpCommand::SetCacheDisabled { cache_disabled: true },
                CdpCommand::FetchEnable { handle_auth_requests: true },
            ]);
        }
    }
}

/// No header that is sent is the proxy authorization header.
pub proof fn lemma_headers_stripped(headers: Seq<(String, String)>)
    ensures
        forall|i: int| 0 <= i < strip_proxy_authorization(headers).len()
            ==> !is_proxy_authorization(#[trigger] strip_proxy_authorization(headers)[i]),
{
    let pred = |p: (String, String)| !is_proxy_authorization(p);
    assert forall|i: int| 0 <= i < strip_proxy_authorization(headers).len() implies
        !is_proxy_authorization(#[trigger] strip_proxy_authorization(headers)[i]) by {
        headers.lemma_filter_pred(pred, i);
    }
}

/// When the protocol modes already match the user's intent and the
/// credentials, reconciling them sends nothing and changes nothing.
pub proof fn lemma_reconcile_unchanged(m: ModeState, has_credentials: bool)
    requires
        mode_consistent(m, has_credentials),
    ensures
        interception_step(m, has_credentials).0 == m,
        interception_step(m, has_credentials).1.len() == 0,
        cache_step(m).0 == m,
        cache_step(m).1.len() == 0,
{
}

/// Taking one request out of the tracked requests leaves every other
/// identifier tracked exactly as before: it is present after iff it was,
/// with the same request.
pub proof fn lemma_remove_keeps_others(s: Seq<TrackedRequest>, i: int, k: Seq<char>)
    requires
        unique(keys_of(s)),
        0 <= i < s.len(),
        k != s[i].key(),
    ensures
        ({
            let r = s.remove(i);
            let a = index_in(keys_of(r), k);
            let b = index_in(keys_of(s), k);
            &&& (a >= 0 <==> b >= 0)
            &&& a >= 0 ==> r[a] == s[b]
        }),
{
    let r = s.remove(i);
    lemma_index_in_range(keys_of(s), k);
    lemma_index_in_range(keys_of(r), k);
    crate::model::lemma_keys_remove(s, i);
    lemma_unique_remove(keys_of(s), i);
    let b = index_in(keys_of(s), k);
    if b >= 0 {
        let b1 = if b < i { b } else { b - 1 };
        assert(b != i);
        assert(r[b1] == s[b]);
        assert(keys_of(r)[b1] == k);
        lemma_index_in(keys_of(r), k, b1);
    }
    let a = index_in(keys_of(r), k);
    if a >= 0 {
        let a0 = if a < i { a } else { a + 1 };
        assert(r[a] == s[a0]);
        assert(keys_of(s)[a0] == k);
        assert(keys_of(s).contains(k));
    }
}

/// Detaching the leg an event follows only ever removes tracked requests.
proof fn lemma_detach_shrinks(c: Correlation, e: RequestWillBeSent, k: Seq<char>)
    requires
        view_keys(detach_spec(c, e).0.requests).contains(k),
    ensures
        view_keys(c.requests).contains(k),
{
    let i = index_in(view_keys(c.requests), e.request_id@);
    lemma_index_in_range(view_keys(c.requests), e.request_id@);
    if i >= 0 {
        assert(view_keys(c.requests.remove(i)) =~= view_keys(c.requests).remove(i));
        lemma_contains_remove(view_keys(c.requests), i, k);
    }
}

/// A will-be-sent event tracks no identifier but its own: every request
/// tracked afterwards was tracked before or carries the event's identifier.
pub proof fn lemma_will_be_sent_adds_only_its_id(c: Correlation, m: ModeState, e: RequestWillBeSent, k: Seq<char>)
    requires
        view_keys(will_be_sent_spec(c, m, e).requests).contains(k),
    ensures
        view_keys(c.requests).contains(k) || k == e.request_id@,
{
    let p = index_in(keys_of(c.pairs), e.request_id@);
    let c0 = if crate::network::expects_pause(m, e) && p >= 0 {
        Correlation { pairs: c.pairs.remove(p), ..c }
    } else {
        c
    };
    let (d, chain) = detach_spec(c0, e);
    let r = will_be_sent_spec(c, m, e).requests;
    if crate::network::expects_pause(m, e) && p < 0 {
        assert(r == d.requests);
        lemma_detach_shrinks(c0, e, k);
    } else {
        let x = (new_record(e, if crate::network::expects_pause(m, e) {
            Some(c.pairs[p].1)
        } else {
            None
        }, m.user_interception), chain);
        assert(r == d.requests.push(x));
        assert(view_keys(d.requests.push(x)) =~= view_keys(d.requests).push(e.request_id@));
        lemma_contains_push(view_keys(d.requests), e.request_id@, k);
        if view_keys(d.requests).contains(k) {
            lemma_detach_shrinks(c0, e, k);
        }
    }
}

} // verus!
