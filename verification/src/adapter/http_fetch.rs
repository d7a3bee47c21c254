//! Conditional HTTP fetches.

use crate::adapter::cache_generation::option_text;
use crate::workflow::error::{error_text, AppError};
use crate::workflow::ports::Cancellation;
use vstd::prelude::*;

verus! {

/// Status of an answer without a body: the cached one is still good.
pub const STATUS_NOT_MODIFIED: u16 = 304;

/// One bounded conditional HTTP request.
#[derive(Debug, Clone, PartialEq, Eq)]
pub struct HttpRequest {
    /// Absolute HTTP or HTTPS URL.
    pub url: String,
    /// Optional `If-None-Match` validator.
    pub if_none_match: Option<String>,
    /// Optional `If-Modified-Since` validator.
    pub if_modified_since: Option<String>,
    /// Maximum accepted response body bytes.
    pub max_body_bytes: usize,
}

/// Bounded HTTP response and cache validators.
#[derive(Debug, Clone, PartialEq, Eq)]
pub struct HttpResponse {
    /// HTTP status code.
    pub status: u16,
    /// Response body constrained by the request bound.
    pub body: Vec<u8>,
    /// Optional response entity tag.
    pub etag: Option<String>,
    /// Optional response last-modified value.
    pub last_modified: Option<String>,
}

/// Failure to initialize or use an HTTP client safely.
#[derive(Debug, Clone, PartialEq, Eq)]
pub enum HttpClientError {
    /// TLS or client construction failed.
    Initialization {
        /// Client construction diagnostic.
        reason: String,
    },
    /// Request, redirect, response, or bounded body handling failed.
    Request {
        /// Request diagnostic.
        reason: String,
    },
}

impl HttpClientError {
    /// Diagnostic text.
    pub fn message(&self) -> (text: String)
        ensures
            text@ == match *self {
                HttpClientError::Initialization { reason } =>
                    "http client initialization failed: "@ + reason@,
                HttpClientError::Request { reason } => "http client request failed: "@ + reason@,
            },
    {
        match self {
            HttpClientError::Initialization { reason } => {
                let mut text: String = "http client initialization failed: ".to_owned();
                text.append(reason.as_str());
                text
            },
            HttpClientError::Request { reason } => {
                let mut text: String = "http client request failed: ".to_owned();
                text.append(reason.as_str());
                text
            },
        }
    }
}

/// Bounded HTTP client abstraction used by cache policy and tests.
pub trait HttpClient {
    /// Fetches one response while enforcing the request's body-size bound.
    ///
    /// # Errors
    ///
    /// Returns [`HttpClientError`] when client initialization, the request, response headers, or
    /// the bounded body read fails.
    fn fetch(&self, request: HttpRequest) -> (response: Result<HttpResponse, HttpClientError>);
}

/// What a conditional fetch came to.
#[derive(Debug, Clone, PartialEq, Eq)]
pub enum ConditionalFetchResult {
    /// The cached data is still good.
    CacheNotModified,
    /// Nothing could be fetched.
    FallbackCache,
    /// A response to look at.
    Network(HttpResponse),
}

/// A request for a URL with the given validators.
pub open spec fn is_request(
    request: HttpRequest,
    url: Seq<char>,
    max_bytes: usize,
    etag: Option<Seq<char>>,
    last_modified: Option<Seq<char>>,
) -> bool {
    &&& request.url@ == url
    &&& option_text(request.if_none_match) == etag
    &&& option_text(request.if_modified_since) == last_modified
    &&& request.max_body_bytes == max_bytes
}

/// What the answer to a request without validators comes to.
pub open spec fn plain_result(
    reply: Result<HttpResponse, HttpClientError>,
    result: ConditionalFetchResult,
) -> bool {
    match reply {
        Ok(response) => result == ConditionalFetchResult::Network(response),
        Err(_) => result is FallbackCache,
    }
}

/// A second, unconditional request came to a result.
pub open spec fn refetched<C: HttpClient>(
    client: &C,
    url: Seq<char>,
    max_bytes: usize,
    result: ConditionalFetchResult,
) -> bool {
    exists|request: HttpRequest, reply: Result<HttpResponse, HttpClientError>| #[trigger]
        call_ensures(C::fetch, (client, request), reply) && is_request(
            request,
            url,
            max_bytes,
            None,
            None,
        ) && plain_result(reply, result)
}

/// What the answer to a conditional request comes to: an answer without a body keeps the cache, or
/// is asked for again without validators where there is none.
pub open spec fn fetch_rule<C: HttpClient>(
    client: &C,
    url: Seq<char>,
    max_bytes: usize,
    has_cached: bool,
    reply: Result<HttpResponse, HttpClientError>,
    result: ConditionalFetchResult,
) -> bool {
    match reply {
        Ok(response) if response.status == STATUS_NOT_MODIFIED => if has_cached {
            result is CacheNotModified
        } else {
            refetched(client, url, max_bytes, result)
        },
        _ => plain_result(reply, result),
    }
}

/// Fetches a URL unless the cached data is still good.
pub fn fetch_with_conditional_cache<C: HttpClient>(
    client: &C,
    url: &str,
    max_bytes: usize,
    cached_etag: Option<String>,
    cached_last_modified: Option<String>,
    has_cached: bool,
) -> (result: ConditionalFetchResult)
    ensures
        exists|request: HttpRequest, reply: Result<HttpResponse, HttpClientError>| #[trigger]
            call_ensures(C::fetch, (client, request), reply) && is_request(
                request,
                url@,
                max_bytes,
                option_text(cached_etag),
                option_text(cached_last_modified),
            ) && fetch_rule(client, url@, max_bytes, has_cached, reply, result),
{
    let request: HttpRequest = HttpRequest {
        url: url.to_owned(),
        if_none_match: cached_etag,
        if_modified_since: cached_last_modified,
        max_body_bytes: max_bytes,
    };
    let ghost sent = request;
    let reply: Result<HttpResponse, HttpClientError> = client.fetch(request);
    let ghost first = reply;
    assert(call_ensures(C::fetch, (client, sent), first));
    match reply {
        Err(_) => ConditionalFetchResult::FallbackCache,
        Ok(response) => {
            if response.status != STATUS_NOT_MODIFIED {
                return ConditionalFetchResult::Network(response);
            }
            if has_cached {
                return ConditionalFetchResult::CacheNotModified;
            }
            let again: HttpRequest = HttpRequest {
                url: url.to_owned(),
                if_none_match: None,
                if_modified_since: None,
                max_body_bytes: max_bytes,
            };
            let ghost resent = again;
            let second: Result<HttpResponse, HttpClientError> = client.fetch(again);
            let ghost answer = second;
            assert(call_ensures(C::fetch, (client, resent), answer));
            let result: ConditionalFetchResult = match second {
                Err(_) => ConditionalFetchResult::FallbackCache,
                Ok(body) => ConditionalFetchResult::Network(body),
            };
            assert(plain_result(answer, result));
            assert(is_request(resent, url@, max_bytes, None, None));
            assert(refetched(client, url@, max_bytes, result));
            result
        },
    }
}

/// A client that starts no request once cancellation was requested.
#[derive(Debug)]
pub struct CancellableHttpClient<'a, C: HttpClient, X: Cancellation> {
    /// The client that makes the requests.
    pub inner: &'a C,
    /// Cancellation checked before each request.
    pub cancellation: &'a X,
}

impl<'a, C: HttpClient, X: Cancellation> HttpClient for CancellableHttpClient<'a, C, X> {
    fn fetch(&self, request: HttpRequest) -> (response: Result<HttpResponse, HttpClientError>)
        ensures
            exists|allowed: Result<(), AppError>| #[trigger]
                call_ensures(X::check, (self.cancellation,), allowed) && (match allowed {
                    Ok(_) => call_ensures(C::fetch, (self.inner, request), response),
                    Err(error) => response matches Err(HttpClientError::Request { reason })
                        && reason@ == error_text(error),
                }),
    {
        match self.cancellation.check() {
            Ok(()) => self.inner.fetch(request),
            Err(error) => Err(HttpClientError::Request { reason: error.message() }),
        }
    }
}

} // verus!
