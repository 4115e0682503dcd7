//! Policy tables and the interception decision for paused requests.
use vstd::prelude::*;
use crate::text::{contains_string, has_prefix, starts_with};

verus! {

/// Resource category of a request, as reported by the protocol.
#[derive(PartialEq, Eq, Structural, Clone, Copy, Debug)]
pub enum ResourceType {
    Document,
    Stylesheet,
    Image,
    Media,
    Font,
    Script,
    TextTrack,
    Xhr,
    Fetch,
    Prefetch,
    EventSource,
    WebSocket,
    Manifest,
    SignedExchange,
    Ping,
    CspViolationReport,
    Preflight,
    Other,
}

/// Background networking categories: always blocked when intercepted first.
pub open spec fn is_background_spec(t: ResourceType) -> bool {
    t == ResourceType::Prefetch || t == ResourceType::Ping
}

/// Visual categories: blocked when visuals are ignored.
pub open spec fn is_visual_spec(t: ResourceType) -> bool {
    t == ResourceType::Image || t == ResourceType::Media || t == ResourceType::Font
        || t == ResourceType::Other
}

/// Categories on which the ad advisor is consulted.
pub open spec fn is_ad_candidate_spec(t: ResourceType) -> bool {
    t == ResourceType::Image || t == ResourceType::Media || t == ResourceType::Stylesheet
        || t == ResourceType::Fetch || t == ResourceType::Xhr
}

pub fn is_background(t: ResourceType) -> (r: bool)
    ensures
        r == is_background_spec(t),
{
    matches!(t, ResourceType::Prefetch | ResourceType::Ping)
}

pub fn is_visual(t: ResourceType) -> (r: bool)
    ensures
        r == is_visual_spec(t),
{
    matches!(t, ResourceType::Image | ResourceType::Media | ResourceType::Font | ResourceType::Other)
}

pub fn is_ad_candidate(t: ResourceType) -> (r: bool)
    ensures
        r == is_ad_candidate_spec(t),
{
    matches!(
        t,
        ResourceType::Image | ResourceType::Media | ResourceType::Stylesheet | ResourceType::Fetch
            | ResourceType::Xhr
    )
}

/// Scripts and third-party endpoints that stay allowed while scripts are blocked.
pub open spec fn js_framework_allow_spec() -> Seq<Seq<char>> {
    seq![
        "jquery.min.js"@, "jquery.qtip.min.js"@, "jquery.js"@, "angular.js"@, "jquery.slim.js"@,
        "react.development.js"@, "react-dom.development.js"@, "react.production.min.js"@,
        "react-dom.production.min.js"@, "vue.global.js"@, "vue.esm-browser.js"@, "vue.js"@,
        "bootstrap.min.js"@, "bootstrap.bundle.min.js"@, "bootstrap.esm.min.js"@, "d3.min.js"@,
        "d3.js"@, "https://m.stripe.network/inner.html"@,
        "https://m.stripe.network/out-4.5.43.js"@,
        "https://challenges.cloudflare.com/turnstile"@, "https://js.stripe.com/v3/"@,
    ]
}

/// Content types that a crawler skips.
pub open spec fn ignore_content_types_spec() -> Seq<Seq<char>> {
    seq![
        "application/pdf"@, "application/zip"@, "application/x-rar-compressed"@,
        "application/x-tar"@, "image/png"@, "image/jpeg"@, "image/gif"@, "image/bmp"@,
        "image/svg+xml"@, "video/mp4"@, "video/x-msvideo"@, "video/x-matroska"@,
        "video/webm"@, "audio/mpeg"@, "audio/ogg"@,
        "application/vnd.openxmlformats-officedocument.wordprocessingml.document"@,
        "application/vnd.ms-excel"@,
        "application/vnd.openxmlformats-officedocument.spreadsheetml.sheet"@,
        "application/vnd.ms-powerpoint"@,
        "application/vnd.openxmlformats-officedocument.presentationml.presentation"@,
        "application/x-7z-compressed"@, "application/x-rpm"@,
        "application/x-shockwave-flash"@,
    ]
}

/// The views of a list of strings.
pub open spec fn views(v: Seq<String>) -> Seq<Seq<char>> {
    v.map_values(|s: String| s@)
}

fn push_str(v: &mut Vec<String>, s: &str)
    ensures
        views(final(v)@) == views(old(v)@).push(s@),
{
    v.push(s.to_owned());
    assert(views(final(v)@) =~= views(old(v)@).push(s@));
}

/// The immutable lookup tables of the interception policy, built once and
/// shared by reference.
pub struct PolicyTables {
    pub js_framework_allow: Vec<String>,
    pub ignore_content_types: Vec<String>,
}

impl PolicyTables {
    pub open spec fn is_standard(&self) -> bool {
        &&& views(self.js_framework_allow@) == js_framework_allow_spec()
        &&& views(self.ignore_content_types@) == ignore_content_types_spec()
    }

    /// The standard tables.
    pub fn standard() -> (r: PolicyTables)
        ensures
            r.is_standard(),
    {
        let mut a: Vec<String> = Vec::new();
        assert(views(a@) =~= Seq::<Seq<char>>::empty());
        push_str(&mut a, "jquery.min.js");
        push_str(&mut a, "jquery.qtip.min.js");
        push_str(&mut a, "jquery.js");
        push_str(&mut a, "angular.js");
        push_str(&mut a, "jquery.slim.js");
        push_str(&mut a, "react.development.js");
        push_str(&mut a, "react-dom.development.js");
        push_str(&mut a, "react.production.min.js");
        push_str(&mut a, "react-dom.production.min.js");
        push_str(&mut a, "vue.global.js");
        push_str(&mut a, "vue.esm-browser.js");
        push_str(&mut a, "vue.js");
        push_str(&mut a, "bootstrap.min.js");
        push_str(&mut a, "bootstrap.bundle.min.js");
        push_str(&mut a, "bootstrap.esm.min.js");
        push_str(&mut a, "d3.min.js");
        push_str(&mut a, "d3.js");
        push_str(&mut a, "https://m.stripe.network/inner.html");
        push_str(&mut a, "https://m.stripe.network/out-4.5.43.js");
        push_str(&mut a, "https://challenges.cloudflare.com/turnstile");
        push_str(&mut a, "https://js.stripe.com/v3/");
        assert(views(a@) =~= js_framework_allow_spec());
        let mut c: Vec<String> = Vec::new();
        assert(views(c@) =~= Seq::<Seq<char>>::empty());
        push_str(&mut c, "application/pdf");
        push_str(&mut c, "application/zip");
        push_str(&mut c, "application/x-rar-compressed");
        push_str(&mut c, "application/x-tar");
        push_str(&mut c, "image/png");
        push_str(&mut c, "image/jpeg");
        push_str(&mut c, "image/gif");
        push_str(&mut c, "image/bmp");
        push_str(&mut c, "image/svg+xml");
        push_str(&mut c, "video/mp4");
        push_str(&mut c, "video/x-msvideo");
        push_str(&mut c, "video/x-matroska");
        push_str(&mut c, "video/webm");
        push_str(&mut c, "audio/mpeg");
        push_str(&mut c, "audio/ogg");
        push_str(&mut c, "application/vnd.openxmlformats-officedocument.wordprocessingml.document");
        push_str(&mut c, "application/vnd.ms-excel");
        push_str(&mut c, "application/vnd.openxmlformats-officedocument.spreadsheetml.sheet");
        push_str(&mut c, "application/vnd.ms-powerpoint");
        push_str(&mut c, "application/vnd.openxmlformats-officedocument.presentationml.presentation");
        push_str(&mut c, "application/x-7z-compressed");
        push_str(&mut c, "application/x-rpm");
        push_str(&mut c, "application/x-shockwave-flash");
        assert(views(c@) =~= ignore_content_types_spec());
        PolicyTables { js_framework_allow: a, ignore_content_types: c }
    }

    /// Whether `url` is on the script allow-list (exact match).
    pub fn is_allowed_script(&self, url: &String) -> (r: bool)
        requires
            self.is_standard(),
        ensures
            r == js_framework_allow_spec().contains(url@),
    {
        let r = contains_string(&self.js_framework_allow, url);
        proof {
            if r {
                let i = choose|i: int| 0 <= i < self.js_framework_allow@.len()
                    && self.js_framework_allow@[i]@ == url@;
                assert(js_framework_allow_spec()[i] == url@);
            }
            if js_framework_allow_spec().contains(url@) {
                let i = choose|i: int| 0 <= i < js_framework_allow_spec().len()
                    && js_framework_allow_spec()[i] == url@;
                assert(self.js_framework_allow@[i]@ == url@);
            }
        }
        r
    }

    /// Whether responses of `content_type` are skipped.
    pub fn is_ignored_content_type(&self, content_type: &String) -> (r: bool)
        requires
            self.is_standard(),
        ensures
            r == ignore_content_types_spec().contains(content_type@),
    {
        let r = contains_string(&self.ignore_content_types, content_type);
        proof {
            if r {
                let i = choose|i: int| 0 <= i < self.ignore_content_types@.len()
                    && self.ignore_content_types@[i]@ == content_type@;
                assert(ignore_content_types_spec()[i] == content_type@);
            }
            if ignore_content_types_spec().contains(content_type@) {
                let i = choose|i: int| 0 <= i < ignore_content_types_spec().len()
                    && ignore_content_types_spec()[i] == content_type@;
                assert(self.ignore_content_types@[i]@ == content_type@);
            }
        }
        r
    }
}

} // verus!

verus! {

/// Analytics and ad-tag endpoints blocked when a request is intercepted
/// before the browser reports it.
pub open spec fn is_tracker_spec(url: Seq<char>) -> bool {
    has_prefix(url, "https://www.google-analytics.com"@)
        || has_prefix(url, "https://www.googletagmanager.com"@)
        || has_prefix(url, "https://px.ads.linkedin.com"@)
}

pub fn is_tracker(url: &String) -> (r: bool)
    ensures
        r == is_tracker_spec(url@),
{
    let u = url.as_str();
    starts_with(u, "https://www.google-analytics.com")
        || starts_with(u, "https://www.googletagmanager.com")
        || starts_with(u, "https://px.ads.linkedin.com")
}

/// The content-filtering switches of a session.
#[derive(Clone, Copy, Debug)]
pub struct FilterFlags {
    /// Ignore visuals (images, media, fonts and other).
    pub ignore_visuals: bool,
    /// Block CSS stylesheets.
    pub block_stylesheets: bool,
    /// Block javascript, except allow-listed scripts.
    pub block_javascript: bool,
    /// Only html from loading.
    pub only_html: bool,
}

/// The interception decision: a paused request is blocked (fulfilled with
/// an empty response) exactly when one of the rules below holds.
/// `ad_match` is the ad advisor's verdict on the request. The tracker rule
/// always applies, whatever the other switches say; with `NoAdvisor` the
/// last rule never fires.
pub open spec fn should_block_spec(
    flags: FilterFlags,
    resource_type: ResourceType,
    url: Seq<char>,
    ad_match: bool,
) -> bool {
    ||| is_background_spec(resource_type)
    ||| flags.ignore_visuals && is_visual_spec(resource_type)
    ||| flags.block_stylesheets && resource_type == ResourceType::Stylesheet
    ||| flags.block_javascript && resource_type == ResourceType::Script
        && !js_framework_allow_spec().contains(url)
    ||| is_tracker_spec(url)
    ||| !flags.ignore_visuals && is_ad_candidate_spec(resource_type) && ad_match
}

/// Decides whether a paused request is blocked.
pub fn should_block(
    tables: &PolicyTables,
    flags: FilterFlags,
    resource_type: ResourceType,
    url: &String,
    ad_match: bool,
) -> (r: bool)
    requires
        tables.is_standard(),
    ensures
        r == should_block_spec(flags, resource_type, url@, ad_match),
{
    is_background(resource_type)
        || (flags.ignore_visuals && is_visual(resource_type))
        || (flags.block_stylesheets && resource_type == ResourceType::Stylesheet)
        || (flags.block_javascript && resource_type == ResourceType::Script
            && !tables.is_allowed_script(url))
        || is_tracker(url)
        || (!flags.ignore_visuals && is_ad_candidate(resource_type) && ad_match)
}

/// The site context handed to the ad advisor: the request's own URL for a
/// same-site request, a neutral placeholder otherwise.
pub open spec fn ad_site_context_spec(url: Seq<char>, is_same_site: bool) -> Seq<char> {
    if is_same_site {
        url
    } else {
        "https://example.com"@
    }
}

pub fn ad_site_context(url: &String, is_same_site: bool) -> (r: String)
    ensures
        r@ == ad_site_context_spec(url@, is_same_site),
{
    if is_same_site {
        url.clone()
    } else {
        "https://example.com".to_owned()
    }
}

/// A source of ad verdicts, chosen when the engine is built.
pub trait BlockingAdvisor {
    /// The advisor's verdict on a request to `url` made in `site`.
    spec fn verdict(&self, url: Seq<char>, site: Seq<char>, resource_type: ResourceType) -> bool;

    /// Whether the request to `url`, made in `site`, is an ad.
    fn is_ad(&self, url: &String, site: &String, resource_type: ResourceType) -> (r: bool)
        ensures
            r == self.verdict(url@, site@, resource_type),
    ;
}

/// The advisor that never reports an ad.
pub struct NoAdvisor;

impl BlockingAdvisor for NoAdvisor {
    open spec fn verdict(&self, url: Seq<char>, site: Seq<char>, resource_type: ResourceType) -> bool {
        false
    }

    fn is_ad(&self, url: &String, site: &String, resource_type: ResourceType) -> bool {
        false
    }
}

} // verus!
