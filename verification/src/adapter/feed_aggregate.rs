//! Aggregation of remote feeds that are fetched in chunks.

use crate::adapter::http_cache::HttpCacheError;
use crate::adapter::remote_parse::lemma_ascending_distinct;
use crate::ordering::{reversed, sort_stable, stably_sorted, Ranked};
use crate::policy::cidr_order::{ascending_cidrs, sort_distinct, sorted_distinct};
use crate::policy::cidr_text::{models, CidrModel};
use crate::policy::network_types::CanonicalCidr;
use crate::text::{same_text, views};
use crate::workflow::error::AppError;
use crate::workflow::ports::{allowed_by, check_cancellation, stopped_by, verdicts, Cancellation};
use crate::workflow::source::{
    notice_models, warning_model, Notice, NoticeModel, StagedPromotion, SyncSourceBatch,
    SyncSourceLoad,
};
use vstd::prelude::*;

verus! {

/// Maximum number of concurrent remote-feed workers.
pub const MAX_REMOTE_FETCH_WORKERS: usize = 5;

/// Identifier of the remote-feed provider.
pub const REMOTE_FEEDS_PROVIDER: &'static str = "remote-feeds";

/// Feeds that are fetched together.
#[derive(Debug, Clone, Copy)]
pub struct FeedRequest<'a> {
    /// URLs of the feeds.
    pub urls: &'a Vec<String>,
    /// User agent to fetch with.
    pub user_agent: &'a String,
    /// Timeout for one request, in seconds.
    pub timeout_secs: u32,
    /// Directory of the remote cache.
    pub cache_dir: &'a String,
    /// Recognized Kidobo environment values, as name and value.
    pub env: &'a Vec<(String, String)>,
    /// Configured set capacity.
    pub maxelem: u32,
}

/// A loaded feed and the cache selection that was staged for it.
pub struct PreparedFeed {
    /// Networks of the feed.
    pub networks: Vec<CanonicalCidr>,
    /// The cache selection.
    pub promotion: Option<StagedPromotion>,
}

/// What came of one feed.
pub struct FeedReply {
    /// Index of the feed among those fetched together.
    pub index: usize,
    /// The feed, or why it failed.
    pub result: Result<PreparedFeed, HttpCacheError>,
}

impl Ranked for FeedReply {
    open spec fn ranked_le(self, other: FeedReply) -> bool {
        self.index <= other.index
    }

    proof fn lemma_ranked_total(a: FeedReply, b: FeedReply) {
    }

    proof fn lemma_ranked_transitive(a: FeedReply, b: FeedReply, c: FeedReply) {
    }

    fn precedes(&self, other: &FeedReply) -> (before: bool) {
        self.index <= other.index
    }
}

/// Fetches feeds, several at a time and in any order.
pub trait FeedFetcher {
    /// Fetches the feeds of a request; a feed that was not started is left out.
    fn fetch_feeds(&self, request: FeedRequest<'_>) -> (replies: Vec<FeedReply>);
}

// Limits ----------------------------------------------------------------------------------------

/// Most networks that all feeds may hold together: four times the set capacity, between a floor
/// and two million.
pub open spec fn aggregate_limit(maxelem: u32) -> int {
    let wanted = 4 * maxelem;
    let capped = if wanted < 2_000_000 {
        wanted
    } else {
        2_000_000
    };
    if 8_192 < capped {
        capped
    } else {
        8_192
    }
}

/// Computes [`aggregate_limit`].
pub fn remote_aggregate_limit(maxelem: u32) -> (limit: usize)
    ensures
        limit == aggregate_limit(maxelem),
{
    let wanted: u64 = maxelem as u64 * 4;
    let capped: usize = if wanted < 2_000_000 {
        wanted as usize
    } else {
        2_000_000
    };
    if 8_192 < capped {
        capped
    } else {
        8_192
    }
}

/// Workers for a chunk: one for each feed, as many as there are processors, and at most
/// [`MAX_REMOTE_FETCH_WORKERS`].
pub open spec fn worker_count(url_count: int, cpu_parallelism: int) -> int {
    let processors = if cpu_parallelism < 1 {
        1
    } else {
        cpu_parallelism
    };
    let most = if processors < MAX_REMOTE_FETCH_WORKERS {
        processors
    } else {
        MAX_REMOTE_FETCH_WORKERS as int
    };
    if url_count < most {
        url_count
    } else {
        most
    }
}

/// Computes [`worker_count`].
pub fn remote_fetch_worker_count_for(url_count: usize, cpu_parallelism: usize) -> (workers: usize)
    ensures
        workers == worker_count(url_count as int, cpu_parallelism as int),
{
    let budget: usize = if cpu_parallelism == 0 {
        1
    } else {
        cpu_parallelism
    };
    let most: usize = if budget < MAX_REMOTE_FETCH_WORKERS {
        budget
    } else {
        MAX_REMOTE_FETCH_WORKERS
    };
    if url_count < most {
        url_count
    } else {
        most
    }
}

// Folding ---------------------------------------------------------------------------------------

/// What was aggregated so far.
pub struct FeedState {
    pub networks: Set<CidrModel>,
    pub notices: Seq<NoticeModel>,
    pub promotions: Seq<StagedPromotion>,
}

/// The URL with an index; empty where there is none.
pub open spec fn url_at(urls: Seq<Seq<char>>, index: usize) -> Seq<char> {
    if index < urls.len() {
        urls[index as int]
    } else {
        Seq::empty()
    }
}

/// Text of a failure that names the URL.
pub open spec fn url_failure(url: Seq<char>, error: HttpCacheError) -> Seq<char> {
    url + ": "@ + error.text()
}

/// Warning about a feed that is left out.
pub open spec fn soft_failure(url: Seq<char>, error: HttpCacheError) -> Seq<char> {
    "remote source fetch failed softly: "@ + ("source provider `"@ + REMOTE_FEEDS_PROVIDER@
        + "` failed: "@ + url_failure(url, error))
}

/// The aggregate after a feed.
pub open spec fn after_reply(state: FeedState, urls: Seq<Seq<char>>, reply: FeedReply) -> FeedState {
    match reply.result {
        Ok(feed) => FeedState {
            networks: state.networks.union(models(feed.networks@).to_set()),
            notices: state.notices,
            promotions: match feed.promotion {
                Some(promotion) => state.promotions.push(promotion),
                None => state.promotions,
            },
        },
        Err(error) => FeedState {
            notices: state.notices.push(
                warning_model(soft_failure(url_at(urls, reply.index), error)),
            ),
            ..state
        },
    }
}

/// The feed ends the aggregation: it holds too much, or its cache could not be staged.
pub open spec fn reply_fails(state: FeedState, reply: FeedReply, limit: usize) -> bool {
    match reply.result {
        Ok(feed) => state.networks.union(models(feed.networks@).to_set()).len() > limit,
        Err(error) => !(error is ReadIplist),
    }
}

/// The failure that a feed ends the aggregation with.
pub open spec fn failure_of(
    urls: Seq<Seq<char>>,
    reply: FeedReply,
    limit: usize,
    error: AppError,
) -> bool {
    match reply.result {
        Ok(_) => error == (AppError::SourceAggregateBudgetExceeded {
            entries: (limit + 1) as usize,
            limit,
        }),
        Err(why) => error matches AppError::CacheStaging { provider, reason } && provider@
            == REMOTE_FEEDS_PROVIDER@ && reason@ == url_failure(url_at(urls, reply.index), why),
    }
}

/// The aggregate after feeds.
pub open spec fn after_replies(
    state: FeedState,
    urls: Seq<Seq<char>>,
    replies: Seq<FeedReply>,
) -> FeedState
    decreases replies.len(),
{
    if replies.len() == 0 {
        state
    } else {
        after_reply(
            after_replies(state, urls, replies.drop_last()),
            urls,
            replies.last(),
        )
    }
}

/// The feed with an index is the first to end the aggregation.
pub open spec fn first_failure(
    state: FeedState,
    urls: Seq<Seq<char>>,
    replies: Seq<FeedReply>,
    limit: usize,
    index: int,
) -> bool {
    &&& 0 <= index < replies.len()
    &&& reply_fails(after_replies(state, urls, replies.take(index)), replies[index], limit)
    &&& none_fails(state, urls, replies.take(index), limit)
}

/// No feed ends the aggregation.
pub open spec fn none_fails(
    state: FeedState,
    urls: Seq<Seq<char>>,
    replies: Seq<FeedReply>,
    limit: usize,
) -> bool {
    forall|k: int|
        0 <= k < replies.len() ==> !reply_fails(
            after_replies(state, urls, replies.take(k)),
            #[trigger] replies[k],
            limit,
        )
}

/// What was aggregated so far.
pub struct FeedAggregate {
    networks: Vec<CanonicalCidr>,
    notices: Vec<Notice>,
    promotions: Vec<StagedPromotion>,
}

impl FeedAggregate {
    /// What the aggregate holds.
    pub closed spec fn state(self) -> FeedState {
        FeedState {
            networks: models(self.networks@).to_set(),
            notices: notice_models(self.notices@),
            promotions: self.promotions@,
        }
    }

    /// Networks are listed once each and in order.
    #[verifier::type_invariant]
    spec fn ascending(self) -> bool {
        ascending_cidrs(self.networks@)
    }

    /// Nothing is aggregated.
    pub fn new() -> (aggregate: FeedAggregate)
        ensures
            aggregate.state().networks == Set::<CidrModel>::empty(),
            aggregate.state().notices.len() == 0,
            aggregate.state().promotions.len() == 0,
    {
        let aggregate: FeedAggregate = FeedAggregate {
            networks: Vec::new(),
            notices: Vec::new(),
            promotions: Vec::new(),
        };
        assert(models(aggregate.networks@).to_set() =~= Set::<CidrModel>::empty());
        aggregate
    }

    /// Adds what came of one feed.
    fn absorb(self, urls: &Vec<String>, reply: FeedReply, limit: usize) -> (next: Result<
        FeedAggregate,
        AppError,
    >)
        requires
            limit < usize::MAX,
        ensures
            match next {
                Ok(aggregate) => !reply_fails(self.state(), reply, limit) && aggregate.state()
                    == after_reply(self.state(), views(urls@), reply),
                Err(error) => reply_fails(self.state(), reply, limit) && failure_of(
                    views(urls@),
                    reply,
                    limit,
                    error,
                ),
            },
    {
        proof {
            use_type_invariant(&self);
        }
        let ghost known = self.networks@;
        let FeedAggregate { networks: mut all, mut notices, mut promotions } = self;
        match reply.result {
            Ok(feed) => {
                let mut more: Vec<CanonicalCidr> = feed.networks;
                let ghost added = more@;
                all.append(&mut more);
                assert(all@ =~= known + added);
                let ghost joined = all@;
                let unique: Vec<CanonicalCidr> = sort_distinct(all);
                proof {
                    lemma_joined_networks(known, added, joined, unique@);
                    lemma_ascending_distinct(unique@);
                }
                if unique.len() > limit {
                    return Err(
                        AppError::SourceAggregateBudgetExceeded { entries: limit + 1, limit },
                    );
                }
                if let Some(promotion) = feed.promotion {
                    promotions.push(promotion);
                }
                Ok(FeedAggregate { networks: unique, notices, promotions })
            },
            Err(error) => {
                let mut reason: String = if reply.index < urls.len() {
                    urls[reply.index].clone()
                } else {
                    String::new()
                };
                proof {
                    assert(reason@ =~= url_at(views(urls@), reply.index));
                }
                reason.append(": ");
                reason.append(error.message().as_str());
                if let HttpCacheError::ReadIplist { .. } = error {
                    let failure: AppError = AppError::Source {
                        provider: REMOTE_FEEDS_PROVIDER,
                        reason,
                    };
                    let mut text: String = "remote source fetch failed softly: ".to_owned();
                    text.append(failure.message().as_str());
                    let ghost told = notices@;
                    notices.push(Notice::warning(text.as_str()));
                    assert(notice_models(notices@) =~= notice_models(told).push(
                        warning_model(text@),
                    ));
                    Ok(FeedAggregate { networks: all, notices, promotions })
                } else {
                    Err(AppError::CacheStaging { provider: REMOTE_FEEDS_PROVIDER, reason })
                }
            },
        }
    }

    /// Adds what came of the feeds of a chunk, in the order of their indexes.
    fn absorb_chunk(self, urls: &Vec<String>, replies: Vec<FeedReply>, limit: usize) -> (next: Result<
        FeedAggregate,
        AppError,
    >)
        requires
            limit < usize::MAX,
        ensures
            exists|ordered: Seq<FeedReply>| #[trigger]
                stably_sorted(replies@, ordered) && chunk_rule(
                    self.state(),
                    views(urls@),
                    ordered,
                    limit,
                    match next {
                        Ok(aggregate) => Ok(aggregate.state()),
                        Err(error) => Err(error),
                    },
                ),
    {
        let ghost start = self.state();
        let ghost texts = views(urls@);
        let ghost given = replies@;
        let sorted: Vec<FeedReply> = sort_stable(replies);
        let ghost ordered = sorted@;
        assert(stably_sorted(given, ordered));
        let mut rest: Vec<FeedReply> = reversed(sorted);
        let mut aggregate: FeedAggregate = self;
        let ghost mut n: int = 0;
        proof {
            assert(ordered.take(0) =~= Seq::<FeedReply>::empty());
            assert(ordered.skip(0) =~= ordered);
            assert(rest@ =~= ordered.reverse());
        }
        while rest.len() > 0
            invariant
                limit < usize::MAX,
                0 <= n <= ordered.len(),
                start == self.state(),
                texts == views(urls@),
                given == replies@,
                stably_sorted(given, ordered),
                rest@ == ordered.skip(n).reverse(),
                aggregate.state() == after_replies(start, texts, ordered.take(n)),
                none_fails(start, texts, ordered.take(n), limit),
            decreases rest@.len(),
        {
            let reply: FeedReply = rest.pop().unwrap();
            let ghost current = reply;
            proof {
                assert(current == ordered[n]);
                assert(rest@ =~= ordered.skip(n + 1).reverse());
            }
            match aggregate.absorb(urls, reply, limit) {
                Ok(next) => {
                    aggregate = next;
                },
                Err(error) => {
                    assert(first_failure(start, texts, ordered, limit, n));
                    return Err(error);
                },
            }
            proof {
                let seen = ordered.take(n + 1);
                assert(seen.drop_last() =~= ordered.take(n));
                assert(seen.last() == current);
                assert forall|k: int| 0 <= k < seen.len() implies !reply_fails(
                    after_replies(start, texts, seen.take(k)),
                    #[trigger] seen[k],
                    limit,
                ) by {
                    assert(seen.take(k) =~= ordered.take(n).take(k));
                    if k < n {
                        assert(ordered.take(n)[k] == seen[k]);
                    } else {
                        assert(ordered.take(n).take(k) =~= ordered.take(n));
                    }
                }
                n = n + 1;
            }
        }
        assert(ordered.take(n) =~= ordered);
        Ok(aggregate)
    }

    /// The source data that the aggregate makes.
    pub fn into_load(self) -> (load: SyncSourceLoad)
        ensures
            load_of(self.state(), load),
    {
        proof {
            use_type_invariant(&self);
        }
        SyncSourceLoad {
            primary: SyncSourceBatch { networks: self.networks, notices: self.notices },
            fallback: None,
            pending_promotions: self.promotions,
            fallback_failure: None,
        }
    }
}

proof fn lemma_joined_networks(
    known: Seq<CanonicalCidr>,
    added: Seq<CanonicalCidr>,
    joined: Seq<CanonicalCidr>,
    unique: Seq<CanonicalCidr>,
)
    requires
        joined == known + added,
        sorted_distinct(joined, unique),
    ensures
        models(unique).to_set() == models(known).to_set().union(models(added).to_set()),
{
    let (a, b, u) = (models(known), models(added), models(unique));
    assert forall|m: CidrModel| u.to_set().contains(m) <==> a.to_set().union(
        b.to_set(),
    ).contains(m) by {
        if u.contains(m) {
            let i = choose|i: int| 0 <= i < u.len() && u[i] == m;
            assert(unique.contains(unique[i]));
            assert(joined.contains(unique[i]));
            let k = choose|k: int| 0 <= k < joined.len() && joined[k] == unique[i];
            if k < known.len() {
                assert(a[k] == m);
            } else {
                assert(b[k - known.len()] == m);
            }
        }
        if a.contains(m) {
            let i = choose|i: int| 0 <= i < a.len() && a[i] == m;
            assert(joined[i] == known[i]);
            assert(joined.contains(known[i]));
            let k = choose|k: int| 0 <= k < unique.len() && unique[k] == known[i];
            assert(u[k] == m);
        }
        if b.contains(m) {
            let i = choose|i: int| 0 <= i < b.len() && b[i] == m;
            assert(joined[known.len() + i] == added[i]);
            assert(joined.contains(added[i]));
            let k = choose|k: int| 0 <= k < unique.len() && unique[k] == added[i];
            assert(u[k] == m);
        }
    }
    assert(u.to_set() =~= a.to_set().union(b.to_set()));
}

/// What the feeds of a chunk, in order, do to the aggregate.
pub open spec fn chunk_rule(
    state: FeedState,
    urls: Seq<Seq<char>>,
    replies: Seq<FeedReply>,
    limit: usize,
    next: Result<FeedState, AppError>,
) -> bool {
    match next {
        Ok(after) => none_fails(state, urls, replies, limit) && after == after_replies(
            state,
            urls,
            replies,
        ),
        Err(error) => exists|index: int| #[trigger]
            first_failure(state, urls, replies, limit, index) && failure_of(
                urls,
                replies[index],
                limit,
                error,
            ),
    }
}

/// The source data holds the aggregate.
pub open spec fn load_of(state: FeedState, load: SyncSourceLoad) -> bool {
    &&& ascending_cidrs(load.primary.networks@)
    &&& models(load.primary.networks@).to_set() == state.networks
    &&& notice_models(load.primary.notices@) == state.notices
    &&& load.fallback is None
    &&& load.pending_promotions@ == state.promotions
    &&& load.fallback_failure is None
}

// Chunks ----------------------------------------------------------------------------------------

/// The URLs without repetitions, in the order of their first occurrences.
pub open spec fn distinct_texts(urls: Seq<Seq<char>>) -> Seq<Seq<char>>
    decreases urls.len(),
{
    if urls.len() == 0 {
        Seq::empty()
    } else {
        let before = distinct_texts(urls.drop_last());
        if before.contains(urls.last()) {
            before
        } else {
            before.push(urls.last())
        }
    }
}

/// Drops repeated URLs.
pub fn distinct_urls(urls: &Vec<String>) -> (unique: Vec<String>)
    ensures
        views(unique@) == distinct_texts(views(urls@)),
{
    let ghost texts = views(urls@);
    let mut unique: Vec<String> = Vec::new();
    let mut i: usize = 0;
    assert(texts.take(0) =~= Seq::<Seq<char>>::empty());
    assert(views(unique@) =~= distinct_texts(texts.take(0)));
    while i < urls.len()
        invariant
            i <= urls@.len(),
            texts == views(urls@),
            views(unique@) == distinct_texts(texts.take(i as int)),
        decreases urls@.len() - i,
    {
        let ghost before = unique@;
        let mut found: bool = false;
        let mut k: usize = 0;
        while k < unique.len() && !found
            invariant
                i < urls@.len(),
                k <= unique@.len(),
                texts == views(urls@),
                found ==> views(unique@).contains(texts[i as int]),
                !found ==> forall|m: int| 0 <= m < k ==> (#[trigger] unique@[m])@ != texts[i as int],
            decreases unique@.len() - k + (if found {
                0int
            } else {
                1int
            }),
        {
            assert(texts[i as int] == urls@[i as int]@);
            if same_text(unique[k].as_str(), urls[i].as_str()) {
                assert(views(unique@)[k as int] == texts[i as int]);
                found = true;
            } else {
                k += 1;
            }
        }
        proof {
            assert(texts.take(i + 1).drop_last() =~= texts.take(i as int));
            assert(texts.take(i + 1).last() == texts[i as int]);
            if !found && views(unique@).contains(texts[i as int]) {
                let m = choose|m: int|
                    0 <= m < views(unique@).len() && views(unique@)[m] == texts[i as int];
                assert(unique@[m]@ == texts[i as int]);
            }
        }
        if !found {
            unique.push(urls[i].clone());
            assert(views(unique@) =~= views(before).push(texts[i as int]));
        }
        i += 1;
    }
    assert(texts.take(i as int) =~= texts);
    unique
}

/// A request for the feeds of a chunk.
pub open spec fn is_chunk_request(
    request: FeedRequest<'_>,
    plan: FeedRequest<'_>,
    urls: Seq<Seq<char>>,
) -> bool {
    &&& views(request.urls@) == urls
    &&& request.user_agent == plan.user_agent
    &&& request.timeout_secs == plan.timeout_secs
    &&& request.cache_dir == plan.cache_dir
    &&& request.env == plan.env
    &&& request.maxelem == plan.maxelem
}

/// Number of feeds in the next chunk.
pub open spec fn chunk_len(left: nat) -> int {
    if left < MAX_REMOTE_FETCH_WORKERS {
        left as int
    } else {
        MAX_REMOTE_FETCH_WORKERS as int
    }
}

/// The outcome of fetching feeds chunk by chunk, from a state on: cancellation before or after a
/// chunk is fetched, a failure in a chunk, or the aggregate of all chunks.
pub open spec fn chunks_rule<F: FeedFetcher>(
    fetcher: &F,
    plan: FeedRequest<'_>,
    checks: spec_fn(Result<(), AppError>) -> bool,
    urls: Seq<Seq<char>>,
    limit: usize,
    state: FeedState,
    outcome: Result<SyncSourceLoad, AppError>,
) -> bool
    decreases urls.len(),
{
    if urls.len() == 0 {
        outcome matches Ok(load) && load_of(state, load)
    } else {
        let n = chunk_len(urls.len());
        ||| stopped_by(checks, outcome)
        ||| allowed_by(checks) && exists|
            request: FeedRequest<'_>,
            replies: Vec<FeedReply>,
            ordered: Seq<FeedReply>,
        |
            {
                &&& #[trigger] call_ensures(F::fetch_feeds, (fetcher, request), replies)
                &&& #[trigger] stably_sorted(replies@, ordered)
                &&& is_chunk_request(request, plan, urls.take(n))
                &&& stopped_by(checks, outcome) || if none_fails(
                    state,
                    urls.take(n),
                    ordered,
                    limit,
                ) {
                    chunks_rule(
                        fetcher,
                        plan,
                        checks,
                        urls.skip(n),
                        limit,
                        after_replies(state, urls.take(n), ordered),
                        outcome,
                    )
                } else {
                    outcome matches Err(error) && exists|index: int| #[trigger]
                        first_failure(state, urls.take(n), ordered, limit, index) && failure_of(
                            urls.take(n),
                            ordered[index],
                            limit,
                            error,
                        )
                }
            }
    }
}

/// Fetches feeds chunk by chunk, from an aggregate on.
fn fetch_chunks<F: FeedFetcher, X: Cancellation + ?Sized>(
    fetcher: &F,
    plan: FeedRequest<'_>,
    urls: Vec<String>,
    limit: usize,
    aggregate: FeedAggregate,
    cancellation: &X,
) -> (outcome: Result<SyncSourceLoad, AppError>)
    requires
        limit < usize::MAX,
    ensures
        chunks_rule(
            fetcher,
            plan,
            verdicts(cancellation),
            views(urls@),
            limit,
            aggregate.state(),
            outcome,
        ),
    decreases urls@.len(),
{
    let ghost texts = views(urls@);
    if urls.len() == 0 {
        return Ok(aggregate.into_load());
    }
    if let Err(error) = check_cancellation(cancellation) {
        return Err(error);
    }
    let ghost n = chunk_len(texts.len());
    let ghost all = urls@;
    let mut chunk: Vec<String> = urls;
    let rest: Vec<String> = if chunk.len() > MAX_REMOTE_FETCH_WORKERS {
        chunk.split_off(MAX_REMOTE_FETCH_WORKERS)
    } else {
        Vec::new()
    };
    proof {
        assert(chunk@.len() == n);
        assert(chunk@ =~= all.take(n) && rest@ =~= all.skip(n));
        assert(views(chunk@) =~= texts.take(n));
        assert(views(rest@) =~= texts.skip(n));
    }
    let request: FeedRequest<'_> = FeedRequest {
        urls: &chunk,
        user_agent: plan.user_agent,
        timeout_secs: plan.timeout_secs,
        cache_dir: plan.cache_dir,
        env: plan.env,
        maxelem: plan.maxelem,
    };
    let replies: Vec<FeedReply> = fetcher.fetch_feeds(request);
    let ghost came = replies;
    assert(call_ensures(F::fetch_feeds, (fetcher, request), came));
    if let Err(error) = check_cancellation(cancellation) {
        return Err(error);
    }
    match aggregate.absorb_chunk(&chunk, replies, limit) {
        Ok(next) => fetch_chunks(fetcher, plan, rest, limit, next, cancellation),
        Err(error) => Err(error),
    }
}

/// Fetches remote feeds chunk by chunk and aggregates their networks, warnings and cache
/// selections.
///
/// Repeated URLs are fetched once. A feed whose cache cannot be read is left out with a warning;
/// any other cache failure, and more networks than the feeds may hold together, end the
/// aggregation.
pub fn prepare_remote_networks_in_chunks<F: FeedFetcher, X: Cancellation + ?Sized>(
    fetcher: &F,
    plan: FeedRequest<'_>,
    cancellation: &X,
) -> (outcome: Result<SyncSourceLoad, AppError>)
    ensures
        exists|start: FeedState|
            {
                &&& start.networks == Set::<CidrModel>::empty()
                &&& start.notices.len() == 0
                &&& start.promotions.len() == 0
                &&& #[trigger] chunks_rule(
                    fetcher,
                    plan,
                    verdicts(cancellation),
                    distinct_texts(views(plan.urls@)),
                    aggregate_limit(plan.maxelem) as usize,
                    start,
                    outcome,
                )
            },
{
    let limit: usize = remote_aggregate_limit(plan.maxelem);
    let unique: Vec<String> = distinct_urls(plan.urls);
    let aggregate: FeedAggregate = FeedAggregate::new();
    let ghost start = aggregate.state();
    let outcome: Result<SyncSourceLoad, AppError> = fetch_chunks(
        fetcher,
        plan,
        unique,
        limit,
        aggregate,
        cancellation,
    );
    assert(chunks_rule(
        fetcher,
        plan,
        verdicts(cancellation),
        distinct_texts(views(plan.urls@)),
        aggregate_limit(plan.maxelem) as usize,
        start,
        outcome,
    ));
    outcome
}

} // verus!
