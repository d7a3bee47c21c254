//! URL rules: which URLs are fetched, and when a redirect stays on the same origin.

use crate::text::{same_text, views};
use vstd::prelude::*;

verus! {

/// Scheme, host and effective port of a URL.
#[derive(Debug, Clone, PartialEq, Eq)]
pub struct UrlParts {
    /// Lower-case scheme.
    pub scheme: String,
    /// Host, where the URL has one.
    pub host: Option<String>,
    /// Port, or the default port of the scheme.
    pub port: Option<u16>,
}

/// Scheme, host and port as plain values.
pub open spec fn url_view(parts: UrlParts) -> (Seq<char>, Option<Seq<char>>, Option<u16>) {
    (
        parts.scheme@,
        match parts.host {
            Some(host) => Some(host@),
            None => None,
        },
        parts.port,
    )
}

/// Scheme, host and effective port of the URL that `reqwest::Url::parse` reads from a text; `None`
/// where it rejects the text.
pub uninterp spec fn url_parse(text: Seq<char>) -> Option<
    (Seq<char>, Option<Seq<char>>, Option<u16>),
>;

/// Reads a URL with `reqwest::Url::parse` and hands its scheme, host and effective port out as
/// strings and a number. The result is a function of the text alone; which texts are URLs, and
/// what their parts are, is not stated.
#[verifier::external_body]
fn parse_url(text: &str) -> (parts: Option<UrlParts>)
    ensures
        url_parse(text@) == (match parts {
            Some(p) => Some(url_view(p)),
            None => None,
        }),
{
    let url = reqwest::Url::parse(text).ok()?;
    Some(UrlParts {
        scheme: url.scheme().to_owned(),
        host: url.host_str().map(str::to_owned),
        port: url.port_or_known_default(),
    })
}

/// A scheme that is fetched over HTTP.
pub open spec fn http_scheme(scheme: Seq<char>) -> bool {
    scheme == "http"@ || scheme == "https"@
}

/// Parts of an HTTP or HTTPS URL with a host.
pub open spec fn http_parts(parts: Option<(Seq<char>, Option<Seq<char>>, Option<u16>)>) -> bool {
    parts matches Some((scheme, host, _)) && http_scheme(scheme) && host is Some
}

/// The text is an HTTP or HTTPS URL with a host.
pub open spec fn http_url(text: Seq<char>) -> bool {
    http_parts(url_parse(text))
}

/// Both URLs are HTTP or HTTPS, and agree in scheme, host and effective port.
pub open spec fn same_origin_parts(
    a: (Seq<char>, Option<Seq<char>>, Option<u16>),
    b: (Seq<char>, Option<Seq<char>>, Option<u16>),
) -> bool {
    http_scheme(a.0) && http_scheme(b.0) && a == b
}

fn is_http_scheme(scheme: &String) -> (http: bool)
    ensures
        http == http_scheme(scheme@),
{
    same_text(scheme.as_str(), "http") || same_text(scheme.as_str(), "https")
}

/// Decides [`http_parts`] for parsed parts.
pub fn are_http_parts(parts: &Option<UrlParts>) -> (http: bool)
    ensures
        http == http_parts(match *parts {
            Some(p) => Some(url_view(p)),
            None => None,
        }),
{
    match parts {
        Some(p) => is_http_scheme(&p.scheme) && p.host.is_some(),
        None => false,
    }
}

/// Whether a text is an HTTP or HTTPS URL with a host.
pub fn is_http_url(text: &str) -> (http: bool)
    ensures
        http == http_url(text@),
{
    let parts: Option<UrlParts> = parse_url(text);
    are_http_parts(&parts)
}

fn same_host(a: &Option<String>, b: &Option<String>) -> (same: bool)
    ensures
        same == ((match *a {
            Some(x) => Some(x@),
            None => None::<Seq<char>>,
        }) == (match *b {
            Some(x) => Some(x@),
            None => None::<Seq<char>>,
        })),
{
    match (a, b) {
        (Some(x), Some(y)) => same_text(x.as_str(), y.as_str()),
        (None, None) => true,
        _ => false,
    }
}

fn same_port(a: Option<u16>, b: Option<u16>) -> (same: bool)
    ensures
        same == (a == b),
{
    match (a, b) {
        (Some(x), Some(y)) => x == y,
        (None, None) => true,
        _ => false,
    }
}

/// Decides [`same_origin_parts`].
pub fn parts_share_origin(a: &UrlParts, b: &UrlParts) -> (same: bool)
    ensures
        same == same_origin_parts(url_view(*a), url_view(*b)),
{
    is_http_scheme(&a.scheme) && is_http_scheme(&b.scheme) && same_text(
        a.scheme.as_str(),
        b.scheme.as_str(),
    ) && same_host(&a.host, &b.host) && same_port(a.port, b.port)
}

/// The texts are HTTP or HTTPS URLs of the same origin.
pub open spec fn same_origin(a: Seq<char>, b: Seq<char>) -> bool {
    url_parse(a) is Some && url_parse(b) is Some && same_origin_parts(
        url_parse(a)->0,
        url_parse(b)->0,
    )
}

/// Whether two texts are HTTP or HTTPS URLs of the same origin.
pub fn has_same_http_origin(initial_url: &str, redirect_url: &str) -> (same: bool)
    ensures
        same == same_origin(initial_url@, redirect_url@),
{
    match (parse_url(initial_url), parse_url(redirect_url)) {
        (Some(a), Some(b)) => parts_share_origin(&a, &b),
        _ => false,
    }
}

/// Largest number of redirects that one request follows.
pub const MAX_HTTP_REDIRECTS: usize = 10;

/// What to do with a redirect.
#[derive(Debug, Clone, Copy, PartialEq, Eq, Structural)]
pub enum RedirectDecision {
    /// Follow it.
    Follow,
    /// The request was redirected too often.
    TooMany,
    /// The chain of visited URLs is empty.
    MissingInitial,
    /// The target has another origin than the first URL of the chain.
    CrossOrigin,
}

/// What to do with a redirect from the URLs visited so far, the first of them the requested one.
pub open spec fn redirect_rule(previous: Seq<Seq<char>>, target: Seq<char>) -> RedirectDecision {
    if previous.len() > MAX_HTTP_REDIRECTS {
        RedirectDecision::TooMany
    } else if previous.len() == 0 {
        RedirectDecision::MissingInitial
    } else if same_origin(previous[0], target) {
        RedirectDecision::Follow
    } else {
        RedirectDecision::CrossOrigin
    }
}

/// Decides on a redirect.
pub fn redirect_decision(previous: &[String], target: &str) -> (decision: RedirectDecision)
    ensures
        decision == redirect_rule(views(previous@), target@),
{
    if previous.len() > MAX_HTTP_REDIRECTS {
        return RedirectDecision::TooMany;
    }
    if previous.len() == 0 {
        return RedirectDecision::MissingInitial;
    }
    if has_same_http_origin(previous[0].as_str(), target) {
        RedirectDecision::Follow
    } else {
        RedirectDecision::CrossOrigin
    }
}

/// Sharing an origin is symmetric and transitive, and both URLs are HTTP or HTTPS.
pub proof fn law_same_origin_equivalence(
    a: (Seq<char>, Option<Seq<char>>, Option<u16>),
    b: (Seq<char>, Option<Seq<char>>, Option<u16>),
    c: (Seq<char>, Option<Seq<char>>, Option<u16>),
)
    ensures
        same_origin_parts(a, b) == same_origin_parts(b, a),
        same_origin_parts(a, b) && same_origin_parts(b, c) ==> same_origin_parts(a, c),
        same_origin_parts(a, b) ==> http_scheme(a.0) && http_scheme(b.0),
{
}

/// However often a request is redirected, it stays with the origin that it was made to, and it is
/// redirected no more than [`MAX_HTTP_REDIRECTS`] times.
pub proof fn law_followed_redirects_keep_the_origin(visited: Seq<Seq<char>>)
    requires
        visited.len() > 1,
        forall|i: int|
            0 < i < visited.len() ==> redirect_rule(visited.take(i), #[trigger] visited[i])
                == RedirectDecision::Follow,
    ensures
        visited.len() <= MAX_HTTP_REDIRECTS + 1,
        forall|i: int, j: int|
            0 <= i < visited.len() && 0 <= j < visited.len() ==> #[trigger] same_origin(
                visited[i],
                visited[j],
            ),
{
    let last = visited.len() - 1;
    assert(redirect_rule(visited.take(last), visited[last]) == RedirectDecision::Follow);
    assert forall|i: int| 0 <= i < visited.len() implies #[trigger] same_origin(
        visited[0],
        visited[i],
    ) by {
        if i > 0 {
            assert(redirect_rule(visited.take(i), visited[i]) == RedirectDecision::Follow);
            assert(visited.take(i)[0] == visited[0]);
        } else {
            assert(redirect_rule(visited.take(1), visited[1]) == RedirectDecision::Follow);
            assert(visited.take(1)[0] == visited[0]);
            let first = url_parse(visited[0])->0;
            let second = url_parse(visited[1])->0;
            law_same_origin_equivalence(first, second, first);
        }
    }
    assert forall|i: int, j: int|
        0 <= i < visited.len() && 0 <= j < visited.len() implies #[trigger] same_origin(
        visited[i],
        visited[j],
    ) by {
        assert(same_origin(visited[0], visited[i]) && same_origin(visited[0], visited[j]));
        let first = url_parse(visited[0])->0;
        let one = url_parse(visited[i])->0;
        let other = url_parse(visited[j])->0;
        law_same_origin_equivalence(first, one, other);
        law_same_origin_equivalence(one, first, other);
    }
}

/// The scheme is one of the two that are fetched.
pub open spec fn has_http_scheme(parts: (Seq<char>, Option<Seq<char>>, Option<u16>)) -> bool {
    let (scheme, _, _) = parts;
    scheme == "http"@ || scheme == "https"@
}

/// The parts have a host.
pub open spec fn names_a_host(parts: (Seq<char>, Option<Seq<char>>, Option<u16>)) -> bool {
    let (_, host, _) = parts;
    host is Some
}

/// A URL is fetched exactly where it parses, its scheme is HTTP or HTTPS, and it names a host.
pub proof fn law_fetched_urls_name_a_host(text: &str, http: bool)
    requires
        call_ensures(is_http_url, (text,), http),
    ensures
        http <==> {
            &&& url_parse(text@) is Some
            &&& has_http_scheme(url_parse(text@)->0)
            &&& names_a_host(url_parse(text@)->0)
        },
{
}

/// Two URLs have an origin in common exactly where they agree in scheme, host and port, and the
/// scheme is HTTP or HTTPS.
pub proof fn law_origins_agree_in_every_part(a: UrlParts, b: UrlParts, same: bool)
    requires
        call_ensures(parts_share_origin, (&a, &b), same),
    ensures
        same <==> {
            &&& a.scheme@ == b.scheme@
            &&& a.scheme@ == "http"@ || a.scheme@ == "https"@
            &&& a.host is Some <==> b.host is Some
            &&& a.host is Some ==> a.host->0@ == b.host->0@
            &&& a.port == b.port
        },
{
}

/// A redirect is followed exactly where one to ten URLs were visited before it and it has the
/// origin of the first. Over ten visits are too many, whatever the target is.
pub proof fn law_redirects_are_followed_within_the_origin(
    previous: &[String],
    target: &str,
    decision: RedirectDecision,
)
    requires
        call_ensures(redirect_decision, (previous, target), decision),
    ensures
        decision is Follow <==> {
            &&& 1 <= previous@.len() <= 10
            &&& url_parse(previous@[0]@) is Some
            &&& url_parse(previous@[0]@) == url_parse(target@)
            &&& has_http_scheme(url_parse(target@)->0)
        },
        decision is TooMany <==> previous@.len() > 10,
        decision is MissingInitial <==> previous@.len() == 0,
{
    let texts = views(previous@);
    assert(texts.len() == previous@.len());
    if previous@.len() > 0 {
        assert(texts[0] == previous@[0]@);
    }
}

} // verus!
