//! What a refresh of a cached feed gives.

use crate::adapter::cache_staging::StagedGeneration;
use crate::adapter::feed_text_laws::law_feed_holds_its_lines;
use crate::adapter::http_cache::{
    body_limit, cache_rule, contents_match, env_value, finished, generation_agrees, legacy_good,
    loaded_from, refresh_rule, rejection, update_of, usable_generation, CacheSource, HttpCacheError,
    LegacyIplist, LoadedRemoteCache, PendingUpdate, PreparedCachedIplist, RemoteCacheMetadata,
    RemoteRefresh, RemoteUpdate, ResponseRejection, StoredGeneration,
};
use crate::adapter::http_fetch::{
    fetch_rule, ConditionalFetchResult, HttpClient, HttpClientError, HttpResponse,
};
use crate::adapter::remote_parse::{
    broken_limit, data_count, feed_item, feed_networks, lemma_limit_within_lines,
    lemma_within_limits, utf8_lossy, FeedItem, RemoteFeedLimits,
};
use crate::numerals::{all_digits, digit_value};
use crate::policy::cidr_text::{models, CidrModel};
use crate::policy::notation_laws::{lemma_value_writes, lemma_writes_value, writes};
use crate::text::{lines, trim};
use vstd::prelude::*;

verus! {

// Settings --------------------------------------------------------------------------------------

/// A body may have the number of bytes that the setting gives in decimal digits, with a plus sign
/// or none in front and white space around it, up to 32 MiB; 8 MiB where there is no setting, or
/// one that is zero or no such number.
pub proof fn law_body_limit_follows_the_setting(setting: Seq<char>, digits: Seq<char>, n: nat)
    requires
        trim(setting) == digits || trim(setting) == seq!['+'] + digits,
        writes(digits, n, 10),
        n <= usize::MAX,
    ensures
        body_limit(None) == 8_388_608,
        n == 0 ==> body_limit(Some(setting)) == 8_388_608,
        0 < n <= 33_554_432 ==> body_limit(Some(setting)) == n,
        n > 33_554_432 ==> body_limit(Some(setting)) == 33_554_432,
{
    lemma_writes_value(digits, n, 10);
    let signed = seq!['+'] + digits;
    assert(signed.drop_first() =~= digits);
    assert(digit_value(digits[0]) < 10);
}

/// A setting that is no decimal number of the machine counts as none.
pub proof fn law_unreadable_body_limits_are_passed_over(setting: Seq<char>)
    requires
        forall|digits: Seq<char>, n: nat|
            #![trigger writes(digits, n, 10)]
            n <= usize::MAX && writes(digits, n, 10) ==> trim(setting) != digits && trim(setting)
                != seq!['+'] + digits,
    ensures
        body_limit(Some(setting)) == 8_388_608,
{
    let text = trim(setting);
    if text.len() > 0 && text[0] == '+' {
        let digits = text.drop_first();
        assert(text =~= seq!['+'] + digits);
        if digits.len() > 0 && all_digits(digits, 10) {
            lemma_value_writes(digits, 10);
        }
    } else if text.len() > 0 && all_digits(text, 10) {
        lemma_value_writes(text, 10);
    }
}

/// A variable has the value of its first entry.
pub proof fn law_environment_gives_the_first_entry(
    env: Seq<(String, String)>,
    name: Seq<char>,
    i: int,
)
    requires
        0 <= i < env.len(),
        env[i].0@ == name,
        forall|k: int| 0 <= k < i ==> (#[trigger] env[k]).0@ != name,
    ensures
        env_value(env, name) == Some(env[i].1@),
    decreases i,
{
    if i > 0 {
        let rest = env.drop_first();
        assert forall|k: int| 0 <= k < i - 1 implies (#[trigger] rest[k]).0@ != name by {
            assert(rest[k] == env[k + 1]);
        }
        law_environment_gives_the_first_entry(rest, name, i - 1);
    }
}

/// A variable without an entry has no value.
pub proof fn law_environment_gives_nothing_else(env: Seq<(String, String)>, name: Seq<char>)
    requires
        forall|k: int| 0 <= k < env.len() ==> (#[trigger] env[k]).0@ != name,
    ensures
        env_value(env, name) is None,
    decreases env.len(),
{
    if env.len() > 0 {
        let rest = env.drop_first();
        assert forall|k: int| 0 <= k < rest.len() implies (#[trigger] rest[k]).0@ != name by {
            assert(rest[k] == env[k + 1]);
        }
        law_environment_gives_nothing_else(rest, name);
    }
}

// Responses -------------------------------------------------------------------------------------

/// A response is accepted exactly when its status is one of success, its body is within the limit,
/// the feed is within its limits, and it names a network unless it has no data at all. An accepted
/// one gives the networks of its lines, and is cached with its bytes and validators.
pub proof fn law_response_is_accepted_for_its_networks(
    url: Seq<char>,
    response: HttpResponse,
    max_bytes: usize,
    limits: RemoteFeedLimits,
    verdict: Result<RemoteUpdate, ResponseRejection>,
    network: CidrModel,
)
    requires
        match rejection(response, max_bytes, limits) {
            Some(why) => verdict == Err::<RemoteUpdate, ResponseRejection>(why),
            None => verdict matches Ok(update) && update_of(url, response, update),
        },
        lines(utf8_lossy(response.body@)).len() <= usize::MAX,
    ensures
        ({
            let all = lines(utf8_lossy(response.body@));
            &&& verdict is Ok <==> {
                &&& 200 <= response.status <= 299
                &&& response.body@.len() <= max_bytes
                &&& data_count(all) <= limits.data_lines
                &&& feed_networks(all).to_set().len() <= limits.unique_cidrs
                &&& data_count(all) > 0 ==> feed_networks(all).len() > 0
            }
            &&& verdict matches Ok(update) ==> {
                &&& models(update.networks@).contains(network) <==> exists|i: int|
                    0 <= i < all.len() && feed_item(#[trigger] all[i]) == FeedItem::Network(network)
                &&& update.raw@ == response.body@
                &&& update.metadata.url@ == url
                &&& update.metadata.etag == response.etag
                &&& update.metadata.last_modified == response.last_modified
            }
            &&& verdict == Err::<RemoteUpdate, ResponseRejection>(
                ResponseRejection::Status(response.status),
            ) <==> !(200 <= response.status <= 299)
            &&& verdict == Err::<RemoteUpdate, ResponseRejection>(ResponseRejection::TooLarge)
                <==> 200 <= response.status <= 299 && response.body@.len() > max_bytes
        }),
{
    let all = lines(utf8_lossy(response.body@));
    if broken_limit(all, limits) is None {
        lemma_within_limits(all, limits);
    }
    if data_count(all) <= limits.data_lines {
        lemma_limit_within_lines(all, limits);
    }
    if let Ok(update) = verdict {
        law_feed_holds_its_lines(all, update.networks@, network);
    }
}

/// What a reply to a conditional request leads to: the response itself, except that one that says
/// nothing changed stands for the cache where there is one, and a request that failed falls back.
pub proof fn law_unchanged_feeds_come_from_the_cache<C: HttpClient>(
    client: &C,
    url: Seq<char>,
    max_bytes: usize,
    has_cached: bool,
    reply: Result<HttpResponse, HttpClientError>,
    result: ConditionalFetchResult,
)
    requires
        fetch_rule(client, url, max_bytes, has_cached, reply, result),
    ensures
        result is CacheNotModified <==> has_cached && reply is Ok && reply->Ok_0.status == 304,
        reply is Err ==> result is FallbackCache,
        reply is Ok && reply->Ok_0.status != 304 ==> result == ConditionalFetchResult::Network(
            reply->Ok_0,
        ),
{
}

/// Whatever becomes of a refresh, cached networks are not lost: one that brings nothing usable
/// settles on them, and on nothing only where there are none. Only a response that is accepted
/// replaces them.
pub proof fn law_refresh_keeps_cached_networks(
    url: Seq<char>,
    fetched: ConditionalFetchResult,
    cache: LoadedRemoteCache,
    max_bytes: usize,
    limits: RemoteFeedLimits,
    refresh: RemoteRefresh,
)
    requires
        refresh_rule(url, fetched, cache, max_bytes, limits, refresh),
    ensures
        refresh is Stage <==> fetched is Network && rejection(
            fetched->Network_0,
            max_bytes,
            limits,
        ) is None,
        refresh matches RemoteRefresh::Stage(pending) ==> pending.cache == cache && update_of(
            url,
            fetched->Network_0,
            pending.update,
        ),
        refresh matches RemoteRefresh::Settled(loaded) ==> {
            &&& cache.networks matches Some(networks) ==> loaded.networks@ == networks@
                && loaded.metadata == cache.metadata
            &&& cache.networks is None ==> loaded.networks@.len() == 0 && loaded.source
                == CacheSource::Empty
            &&& cache.networks is Some ==> loaded.source == if fetched is CacheNotModified {
                CacheSource::CacheNotModified
            } else {
                CacheSource::FallbackCache
            }
        },
{
}

/// An update whose files were staged is used and promoted later; where they could not be staged the
/// cached networks are used, and without any the failure stands.
pub proof fn law_staged_update_is_used(
    pending: PendingUpdate,
    staged: Result<StagedGeneration, HttpCacheError>,
    result: Result<PreparedCachedIplist, HttpCacheError>,
)
    requires
        finished(pending, staged, result),
    ensures
        result is Err <==> staged is Err && pending.cache.networks is None,
        result matches Err(error) ==> error == staged->Err_0,
        staged is Ok ==> result->Ok_0.loaded.networks@ == pending.update.networks@
            && result->Ok_0.loaded.source == CacheSource::Network
            && result->Ok_0.pending_promotion == Some(staged->Ok_0),
        staged is Err && pending.cache.networks is Some ==> result->Ok_0.loaded.networks@
            == pending.cache.networks->0@ && result->Ok_0.loaded.source
            == CacheSource::FallbackCache && result->Ok_0.pending_promotion is None,
{
}

// Cached data -----------------------------------------------------------------------------------

/// A cache is read from a generation whose contents match and agree with their checksums and with
/// the address; all before it are not usable. Where none is, it is read from the list of the older
/// layout.
pub proof fn law_cache_reads_the_first_usable_generation(
    url: Seq<char>,
    generations: Seq<StoredGeneration>,
    iplist_path: Seq<char>,
    legacy: (LegacyIplist, Option<RemoteCacheMetadata>),
    limits: RemoteFeedLimits,
    cache: Result<LoadedRemoteCache, HttpCacheError>,
) -> (i: int)
    requires
        cache_rule(url, generations, iplist_path, legacy, limits, cache),
    ensures
        0 <= i <= generations.len(),
        forall|k: int|
            0 <= k < i ==> exists|matching: bool|
                #[trigger] contents_match(
                    (#[trigger] generations[k]).candidate,
                    generations[k].reading,
                    matching,
                ) && !usable_generation(generations[k], matching, url, limits),
        i < generations.len() ==> contents_match(
            generations[i].candidate,
            generations[i].reading,
            true,
        ) && generation_agrees(generations[i].reading, Some(url)) && cache is Ok && loaded_from(
            generations[i],
            cache->Ok_0,
        ),
        i == generations.len() ==> match legacy.0 {
            LegacyIplist::Missing => cache is Ok && cache->Ok_0.networks is None
                && cache->Ok_0.metadata == legacy.1,
            LegacyIplist::Unreadable(_) => cache is Err,
            LegacyIplist::Text(text) => cache is Ok && cache->Ok_0.metadata == legacy.1 && (
            cache->Ok_0.networks is Some <==> legacy_good(text@, legacy.1, limits)),
        },
    decreases generations.len(),
{
    if generations.len() == 0 {
        0
    } else {
        let first = generations[0];
        let matching = choose|matching: bool| #[trigger]
            contents_match(first.candidate, first.reading, matching) && if usable_generation(
                first,
                matching,
                url,
                limits,
            ) {
                cache matches Ok(c) && loaded_from(first, c)
            } else {
                cache_rule(
                    url,
                    generations.drop_first(),
                    iplist_path,
                    legacy,
                    limits,
                    cache,
                )
            };
        if usable_generation(first, matching, url, limits) {
            0
        } else {
            let rest = generations.drop_first();
            let j = law_cache_reads_the_first_usable_generation(
                url,
                rest,
                iplist_path,
                legacy,
                limits,
                cache,
            );
            assert forall|k: int| 0 <= k < j + 1 implies exists|matching: bool|
                #[trigger] contents_match(
                    (#[trigger] generations[k]).candidate,
                    generations[k].reading,
                    matching,
                ) && !usable_generation(generations[k], matching, url, limits) by {
                if k == 0 {
                    assert(contents_match(
                        generations[0].candidate,
                        generations[0].reading,
                        matching,
                    ));
                } else {
                    assert(rest[k - 1] == generations[k]);
                }
            }
            if j < rest.len() {
                assert(rest[j] == generations[j + 1]);
            }
            j + 1
        }
    }
}

} // verus!
