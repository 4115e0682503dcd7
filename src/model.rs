//! Data of the engine: tracked requests, inbound events, outbound commands.
use vstd::prelude::*;
use crate::policy::ResourceType;

verus! {

/// The response of a request, as far as the engine keeps it.
#[derive(Clone, Debug)]
pub struct Response {
    pub url: String,
    pub status: i64,
    pub mime_type: String,
}

impl Response {
    pub fn copy(&self) -> (r: Response)
        ensures
            r == *self,
    {
        Response { url: self.url.clone(), status: self.status, mime_type: self.mime_type.clone() }
    }
}

pub fn copy_opt_string(o: &Option<String>) -> (r: Option<String>)
    ensures
        r == *o,
{
    match o {
        Some(s) => Some(s.clone()),
        None => None,
    }
}

pub fn copy_opt_response(o: &Option<Response>) -> (r: Option<Response>)
    ensures
        r == *o,
{
    match o {
        Some(s) => Some(s.copy()),
        None => None,
    }
}

/// One leg of an HTTP exchange: everything the engine records of a request
/// but its redirect chain.
#[derive(Clone, Debug)]
pub struct RequestRecord {
    pub request_id: String,
    pub frame_id: Option<String>,
    pub interception_id: Option<String>,
    /// Whether the user had interception enabled when the request was seen.
    pub allow_interception: bool,
    pub response: Option<Response>,
    pub from_memory_cache: bool,
    pub failure_text: Option<String>,
}

/// One logical HTTP exchange, built from several protocol events.
#[derive(Clone, Debug)]
pub struct TrackedRequest {
    pub record: RequestRecord,
    /// The legs that led here by redirection, oldest first.
    pub redirect_chain: Vec<RequestRecord>,
}

impl View for TrackedRequest {
    type V = (RequestRecord, Seq<RequestRecord>);

    open spec fn view(&self) -> (RequestRecord, Seq<RequestRecord>) {
        (self.record, self.redirect_chain@)
    }
}

/// The request is about to be sent.
#[derive(Clone, Debug)]
pub struct RequestWillBeSent {
    pub request_id: String,
    pub frame_id: Option<String>,
    pub url: String,
    /// Set when this request follows a redirect of the previous leg.
    pub redirect_response: Option<Response>,
}

impl RequestWillBeSent {
    pub fn copy(&self) -> (r: RequestWillBeSent)
        ensures
            r == *self,
    {
        RequestWillBeSent {
            request_id: self.request_id.clone(),
            frame_id: copy_opt_string(&self.frame_id),
            url: self.url.clone(),
            redirect_response: copy_opt_response(&self.redirect_response),
        }
    }
}

/// A will-be-sent event waiting for its interception event, with the
/// redirect chain taken over from the leg it follows.
#[derive(Clone, Debug)]
pub struct PendingRequest {
    pub event: RequestWillBeSent,
    pub redirect_chain: Vec<RequestRecord>,
}

impl View for PendingRequest {
    type V = (RequestWillBeSent, Seq<RequestRecord>);

    open spec fn view(&self) -> (RequestWillBeSent, Seq<RequestRecord>) {
        (self.event, self.redirect_chain@)
    }
}

impl Key for PendingRequest {
    open spec fn key(&self) -> Seq<char> {
        self.event.request_id@
    }
}

impl Keyed for PendingRequest {
    fn key_ref(&self) -> (r: &String) {
        &self.event.request_id
    }
}

impl Key for (RequestWillBeSent, Seq<RequestRecord>) {
    open spec fn key(&self) -> Seq<char> {
        self.0.request_id@
    }
}

/// The request was paused for interception.
#[derive(Clone, Debug)]
pub struct RequestPaused {
    /// Identifier of the interception.
    pub request_id: String,
    /// Identifier of the request in the network namespace, if known.
    pub network_id: Option<String>,
    pub resource_type: ResourceType,
    pub url: String,
    pub is_same_site: bool,
}

/// A response arrived for a request.
#[derive(Clone, Debug)]
pub struct ResponseReceived {
    pub request_id: String,
    pub response: Response,
}

/// A request failed to load.
#[derive(Clone, Debug)]
pub struct LoadingFailed {
    pub request_id: String,
    pub error_text: String,
}

/// User name and password for auth challenges.
#[derive(Clone, Debug)]
pub struct Credentials {
    pub username: String,
    pub password: String,
}

/// The answer to an auth challenge.
#[derive(PartialEq, Eq, Structural, Clone, Copy, Debug)]
pub enum AuthChallengeResponse {
    /// Defer to the browser's own handling.
    Default,
    /// Cancel the challenge.
    CancelAuth,
    /// Answer with the stored credentials.
    ProvideCredentials,
}

/// An outbound protocol command.
#[derive(Clone, Debug)]
pub enum CdpCommand {
    /// Enable the network domain.
    NetworkEnable,
    SetIgnoreCertificateErrors { ignore: bool },
    SetExtraHttpHeaders { headers: Vec<(String, String)> },
    SetCacheDisabled { cache_disabled: bool },
    /// Enable interception of every URL.
    FetchEnable { handle_auth_requests: bool },
    FetchDisable,
    ContinueRequest { request_id: String },
    /// Answer a paused request with an empty response of `response_code`.
    FulfillRequest { request_id: String, response_code: u16 },
    ContinueWithAuth {
        request_id: String,
        response: AuthChallengeResponse,
        username: Option<String>,
        password: Option<String>,
    },
    /// Network conditions with no added latency and unbounded throughput.
    EmulateNetworkConditions { offline: bool },
}

/// What the engine hands to its caller, one at a time.
#[derive(Clone, Debug)]
pub enum NetworkEvent {
    SendCdpRequest(CdpCommand),
    Request(String),
    Response(String),
    RequestFailed(TrackedRequest),
    RequestFinished(TrackedRequest),
}

/// Commands to run at session start, with the acknowledgement timeout.
#[derive(Clone, Debug)]
pub struct CommandChain {
    pub commands: Vec<CdpCommand>,
    pub timeout_ms: u64,
}

// Identifier bookkeeping over sequences of keys.

/// The keys are pairwise distinct.
pub open spec fn unique(keys: Seq<Seq<char>>) -> bool {
    forall|i: int, j: int| 0 <= i < keys.len() && 0 <= j < keys.len() && i != j ==> keys[i] != keys[j]
}

/// The position of `k` among `keys`, or -1.
pub open spec fn index_in(keys: Seq<Seq<char>>, k: Seq<char>) -> int {
    if exists|i: int| 0 <= i < keys.len() && keys[i] == k {
        choose|i: int| 0 <= i < keys.len() && keys[i] == k
    } else {
        -1
    }
}

pub proof fn lemma_index_in(keys: Seq<Seq<char>>, k: Seq<char>, i: int)
    requires
        unique(keys),
        0 <= i < keys.len(),
        keys[i] == k,
    ensures
        index_in(keys, k) == i,
{
}

pub proof fn lemma_index_in_absent(keys: Seq<Seq<char>>, k: Seq<char>)
    requires
        !keys.contains(k),
    ensures
        index_in(keys, k) == -1,
{
}

pub proof fn lemma_index_in_range(keys: Seq<Seq<char>>, k: Seq<char>)
    ensures
        -1 <= index_in(keys, k) < keys.len(),
        index_in(keys, k) >= 0 ==> keys[index_in(keys, k)] == k,
        index_in(keys, k) == -1 <==> !keys.contains(k),
{
    if exists|i: int| 0 <= i < keys.len() && keys[i] == k {
    } else {
        if keys.contains(k) {
            let j = choose|j: int| 0 <= j < keys.len() && keys[j] == k;
            assert(false);
        }
    }
}

pub proof fn lemma_unique_remove(keys: Seq<Seq<char>>, i: int)
    requires
        unique(keys),
        0 <= i < keys.len(),
    ensures
        unique(keys.remove(i)),
        !keys.remove(i).contains(keys[i]),
{
    let r = keys.remove(i);
    assert forall|a: int, b: int| 0 <= a < r.len() && 0 <= b < r.len() && a != b implies r[a] != r[b] by {
        let a0 = if a < i { a } else { a + 1 };
        let b0 = if b < i { b } else { b + 1 };
        assert(r[a] == keys[a0]);
        assert(r[b] == keys[b0]);
    }
    if r.contains(keys[i]) {
        let a = choose|a: int| 0 <= a < r.len() && r[a] == keys[i];
        let a0 = if a < i { a } else { a + 1 };
        assert(r[a] == keys[a0]);
    }
}

pub proof fn lemma_unique_push(keys: Seq<Seq<char>>, k: Seq<char>)
    requires
        unique(keys),
        !keys.contains(k),
    ensures
        unique(keys.push(k)),
        index_in(keys.push(k), k) == keys.len(),
{
    let p = keys.push(k);
    assert forall|a: int, b: int| 0 <= a < p.len() && 0 <= b < p.len() && a != b implies p[a] != p[b] by {
        if a < keys.len() && b < keys.len() {
            assert(p[a] == keys[a] && p[b] == keys[b]);
        } else if a < keys.len() {
            assert(p[a] == keys[a]);
            assert(keys.contains(keys[a]));
        } else if b < keys.len() {
            assert(p[b] == keys[b]);
            assert(keys.contains(keys[b]));
        }
    }
    lemma_index_in(p, k, keys.len() as int);
}

} // verus!

verus! {

/// A value filed under a string identifier.
pub trait Key {
    spec fn key(&self) -> Seq<char>;
}

/// A value whose identifier can be read at run time.
pub trait Keyed: Key {
    fn key_ref(&self) -> (r: &String)
        ensures
            r@ == self.key(),
    ;
}

impl Key for String {
    open spec fn key(&self) -> Seq<char> {
        self@
    }
}

impl Keyed for String {
    fn key_ref(&self) -> (r: &String) {
        self
    }
}

impl Key for (String, String) {
    open spec fn key(&self) -> Seq<char> {
        self.0@
    }
}

impl Keyed for (String, String) {
    fn key_ref(&self) -> (r: &String) {
        &self.0
    }
}

impl Key for RequestWillBeSent {
    open spec fn key(&self) -> Seq<char> {
        self.request_id@
    }
}

impl Keyed for RequestWillBeSent {
    fn key_ref(&self) -> (r: &String) {
        &self.request_id
    }
}

impl Key for TrackedRequest {
    open spec fn key(&self) -> Seq<char> {
        self.record.request_id@
    }
}

impl Keyed for TrackedRequest {
    fn key_ref(&self) -> (r: &String) {
        &self.record.request_id
    }
}

/// The identifiers of a sequence of keyed values.
pub open spec fn keys_of<T: Key>(s: Seq<T>) -> Seq<Seq<char>> {
    s.map_values(|x: T| x.key())
}

/// The sequence with the entry under `k` removed, if there is one.
pub open spec fn without_key<T: Key>(s: Seq<T>, k: Seq<char>) -> Seq<T> {
    let i = index_in(keys_of(s), k);
    if i >= 0 {
        s.remove(i)
    } else {
        s
    }
}

/// The sequence with `x` filed under its key, replacing an earlier entry.
pub open spec fn with_entry<T: Key>(s: Seq<T>, x: T) -> Seq<T> {
    let i = index_in(keys_of(s), x.key());
    if i >= 0 {
        s.update(i, x)
    } else {
        s.push(x)
    }
}

/// The position of the entry under `k`.
pub fn find_key<T: Keyed>(v: &Vec<T>, k: &String) -> (r: Option<usize>)
    requires
        unique(keys_of(v@)),
    ensures
        match r {
            Some(i) => i < v@.len() && index_in(keys_of(v@), k@) == i,
            None => index_in(keys_of(v@), k@) == -1,
        },
{
    let mut i: usize = 0;
    while i < v.len()
        invariant
            0 <= i <= v@.len(),
            unique(keys_of(v@)),
            forall|j: int| 0 <= j < i ==> v@[j].key() != k@,
        decreases v@.len() - i,
    {
        if *v[i].key_ref() == *k {
            proof {
                assert(keys_of(v@)[i as int] == k@);
                lemma_index_in(keys_of(v@), k@, i as int);
            }
            return Some(i);
        }
        i = i + 1;
    }
    proof {
        if keys_of(v@).contains(k@) {
            let j = choose|j: int| 0 <= j < keys_of(v@).len() && keys_of(v@)[j] == k@;
            assert(v@[j].key() == k@);
        }
        lemma_index_in_absent(keys_of(v@), k@);
    }
    None
}

pub proof fn lemma_keys_remove<T: Key>(s: Seq<T>, i: int)
    requires
        0 <= i < s.len(),
    ensures
        keys_of(s.remove(i)) == keys_of(s).remove(i),
{
    assert(keys_of(s.remove(i)) =~= keys_of(s).remove(i));
}

pub proof fn lemma_keys_push<T: Key>(s: Seq<T>, x: T)
    ensures
        keys_of(s.push(x)) == keys_of(s).push(x.key()),
{
    assert(keys_of(s.push(x)) =~= keys_of(s).push(x.key()));
}

/// Removes and returns the entry under `k`.
pub fn take_key<T: Keyed>(v: &mut Vec<T>, k: &String) -> (r: Option<T>)
    requires
        unique(keys_of(old(v)@)),
    ensures
        unique(keys_of(final(v)@)),
        final(v)@ == without_key(old(v)@, k@),
        !keys_of(final(v)@).contains(k@),
        match r {
            Some(x) => index_in(keys_of(old(v)@), k@) >= 0
                && x == old(v)@[index_in(keys_of(old(v)@), k@)],
            None => index_in(keys_of(old(v)@), k@) == -1,
        },
{
    proof {
        lemma_index_in_range(keys_of(old(v)@), k@);
    }
    match find_key(v, k) {
        Some(i) => {
            let x = v.remove(i);
            proof {
                lemma_keys_remove(old(v)@, i as int);
                lemma_unique_remove(keys_of(old(v)@), i as int);
            }
            Some(x)
        },
        None => None,
    }
}

/// Files `x` under its key, replacing an earlier entry.
pub fn put_key<T: Keyed>(v: &mut Vec<T>, x: T)
    requires
        unique(keys_of(old(v)@)),
    ensures
        unique(keys_of(final(v)@)),
        final(v)@ == with_entry(old(v)@, x),
{
    proof {
        lemma_index_in_range(keys_of(old(v)@), x.key());
    }
    let k = x.key_ref().clone();
    match find_key(v, &k) {
        Some(i) => {
            v.set(i, x);
            proof {
                assert(keys_of(final(v)@) =~= keys_of(old(v)@));
            }
        },
        None => {
            v.push(x);
            proof {
                lemma_keys_push(old(v)@, x);
                lemma_unique_push(keys_of(old(v)@), x.key());
            }
        },
    }
}

} // verus!

verus! {

/// No key of `a` is a key of `b`.
pub open spec fn disjoint(a: Seq<Seq<char>>, b: Seq<Seq<char>>) -> bool {
    forall|k: Seq<char>| a.contains(k) ==> !b.contains(k)
}

pub proof fn lemma_contains_remove(s: Seq<Seq<char>>, i: int, k: Seq<char>)
    requires
        0 <= i < s.len(),
        s.remove(i).contains(k),
    ensures
        s.contains(k),
{
    let j = choose|j: int| 0 <= j < s.remove(i).len() && s.remove(i)[j] == k;
    let j0 = if j < i { j } else { j + 1 };
    assert(s[j0] == k);
}

pub proof fn lemma_contains_push(s: Seq<Seq<char>>, x: Seq<char>, k: Seq<char>)
    ensures
        s.push(x).contains(k) <==> (s.contains(k) || k == x),
{
    if s.push(x).contains(k) {
        let j = choose|j: int| 0 <= j < s.push(x).len() && s.push(x)[j] == k;
        if j < s.len() {
            assert(s[j] == k);
        }
    }
    if s.contains(k) {
        let j = choose|j: int| 0 <= j < s.len() && s[j] == k;
        assert(s.push(x)[j] == k);
    }
    if k == x {
        assert(s.push(x)[s.len() as int] == k);
    }
}

pub proof fn lemma_contains_update(s: Seq<Seq<char>>, i: int, k: Seq<char>)
    requires
        0 <= i < s.len(),
    ensures
        s.update(i, s[i]) == s,
{
    assert(s.update(i, s[i]) =~= s);
}

} // verus!

verus! {

pub proof fn lemma_without_key_contains<T: Key>(s: Seq<T>, k: Seq<char>, k2: Seq<char>)
    requires
        keys_of(without_key(s, k)).contains(k2),
    ensures
        keys_of(s).contains(k2),
{
    lemma_index_in_range(keys_of(s), k);
    let i = index_in(keys_of(s), k);
    if i >= 0 {
        lemma_keys_remove(s, i);
        lemma_contains_remove(keys_of(s), i, k2);
    }
}

pub proof fn lemma_with_entry_contains<T: Key>(s: Seq<T>, x: T, k2: Seq<char>)
    requires
        keys_of(with_entry(s, x)).contains(k2),
    ensures
        keys_of(s).contains(k2) || k2 == x.key(),
{
    lemma_index_in_range(keys_of(s), x.key());
    let i = index_in(keys_of(s), x.key());
    if i >= 0 {
        assert(keys_of(s.update(i, x)) =~= keys_of(s));
    } else {
        lemma_keys_push(s, x);
        lemma_contains_push(keys_of(s), x.key(), k2);
    }
}

} // verus!
