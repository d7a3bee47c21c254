//! What is asked of a server, where the answer is kept, and which executable is started.

use crate::adapter::digest::sha256_text;
use crate::adapter::github_categories::CategorySelection;
use crate::adapter::github_meta::{
    github_etag, github_last_modified, load_github_meta_safelist, GithubMetaCache, GithubRefresh,
};
use crate::adapter::host::{first_present, select_executable};
use crate::adapter::http_cache::{
    body_limit, cache_paths_for_url, cached_etag, cached_last_modified, env_value,
    prepare_iplist_with_cache, remote_generation_store, CachePaths, LoadedRemoteCache,
    RemoteRefresh, ENV_KIDOBO_MAX_HTTP_BODY_BYTES,
};
use crate::adapter::http_fetch::{
    is_request, HttpClient, HttpClientError, HttpRequest, HttpResponse,
};
use crate::workflow::error::AppError;
use crate::workflow::paths::path_join;
use vstd::prelude::*;
use vstd::utf8::encode_utf8;

verus! {

/// A header is sent exactly where there is a remembered value, and then with that value.
pub open spec fn sends(header: Option<String>, remembered: Option<String>) -> bool {
    &&& header is Some <==> remembered is Some
    &&& header is Some ==> header->0@ == remembered->0@
}

/// A refresh of a feed asks for its URL and sends the validators that its cache remembers, where
/// it remembers any.
pub proof fn law_feed_request_sends_cached_validators<C: HttpClient>(
    client: &C,
    url: &str,
    cache: LoadedRemoteCache,
    env: Vec<(String, String)>,
    maxelem: u32,
    refresh: RemoteRefresh,
) -> (r: (HttpRequest, Result<HttpResponse, HttpClientError>))
    requires
        call_ensures(
            prepare_iplist_with_cache::<C>,
            (client, url, cache, &env, maxelem),
            refresh,
        ),
    ensures
        call_ensures(C::fetch, (client, r.0), r.1),
        r.0.url@ == url@,
        cache.metadata is None ==> r.0.if_none_match is None && r.0.if_modified_since is None,
        cache.metadata matches Some(metadata) ==> sends(r.0.if_none_match, metadata.etag) && sends(
            r.0.if_modified_since,
            metadata.last_modified,
        ),
{
    let max_bytes = body_limit(env_value(env@, ENV_KIDOBO_MAX_HTTP_BODY_BYTES@)) as usize;
    choose|request: HttpRequest, reply: Result<HttpResponse, HttpClientError>| #[trigger]
        call_ensures(C::fetch, (client, request), reply) && is_request(
            request,
            url@,
            max_bytes,
            cached_etag(cache),
            cached_last_modified(cache),
        )
}

/// A refresh of the GitHub metadata asks for its URL and sends the validators that its cache
/// remembers, where it remembers any.
pub proof fn law_github_request_sends_cached_validators<C: HttpClient>(
    client: &C,
    cache: GithubMetaCache,
    url: &str,
    selection: CategorySelection,
    env: Vec<(String, String)>,
    refresh: GithubRefresh,
) -> (r: (HttpRequest, Result<HttpResponse, HttpClientError>))
    requires
        call_ensures(
            load_github_meta_safelist::<C>,
            (client, cache, url, &selection, &env),
            refresh,
        ),
    ensures
        call_ensures(C::fetch, (client, r.0), r.1),
        r.0.url@ == url@,
        cache.meta is None ==> r.0.if_none_match is None && r.0.if_modified_since is None,
        cache.meta matches Some(meta) ==> sends(r.0.if_none_match, meta.etag) && sends(
            r.0.if_modified_since,
            meta.last_modified,
        ),
{
    let max_bytes = body_limit(env_value(env@, ENV_KIDOBO_MAX_HTTP_BODY_BYTES@)) as usize;
    choose|request: HttpRequest, reply: Result<HttpResponse, HttpClientError>| #[trigger]
        call_ensures(C::fetch, (client, request), reply) && is_request(
            request,
            url@,
            max_bytes,
            github_etag(cache),
            github_last_modified(cache),
        )
}

/// The files of a feed are named by the first sixteen digits of the digest of its URL.
pub proof fn law_cached_files_are_named_by_the_url(
    cache_dir: &str,
    url: &str,
    paths: CachePaths,
    store: String,
)
    requires
        call_ensures(cache_paths_for_url, (cache_dir, url), paths),
        call_ensures(remote_generation_store, (cache_dir, url), store),
    ensures
        ({
            let name = sha256_text(encode_utf8(url@)).take(16);
            &&& paths.iplist_path@ == path_join(cache_dir@, name + ".iplist"@)
            &&& paths.meta_path@ == path_join(cache_dir@, name + ".meta.json"@)
            &&& paths.raw_path@ == path_join(cache_dir@, name + ".raw"@)
            &&& store@ == path_join(path_join(cache_dir@, "v2/remote"@), name)
        }),
{
}

/// A candidate that is selected is there, and none before it is.
pub proof fn law_first_candidate_is_selected(
    candidates: Vec<String>,
    there: Vec<bool>,
    selected: String,
) -> (k: int)
    requires
        candidates@.len() == there@.len(),
        call_ensures(
            select_executable,
            (&candidates, &there),
            Ok::<String, AppError>(selected),
        ),
    ensures
        0 <= k < there@.len(),
        there@[k],
        selected@ == candidates@[k]@,
        forall|i: int| 0 <= i < k ==> !#[trigger] there@[i],
{
    let k = choose|i: int| #[trigger]
        first_present(there@, i) && selected@ == candidates@[i]@;
    assert(first_present(there@, k));
    k
}

} // verus!
