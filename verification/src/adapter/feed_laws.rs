//! What the remote feeds contribute to a synchronization.

use crate::adapter::feed_aggregate::{
    after_replies, after_reply, aggregate_limit, chunk_len, chunks_rule, distinct_texts,
    is_chunk_request, none_fails, reply_fails, url_at, worker_count, FeedFetcher, FeedReply,
    FeedRequest, FeedState,
};
use crate::adapter::http_cache::HttpCacheError;
use crate::adapter::sync_sources::{feeds_rule, sync_provides, BuiltinSyncProvider, SourceWork};
use crate::ordering::stably_sorted;
use crate::policy::cidr_text::{models, CidrModel};
use crate::policy::config::Config;
use crate::text::views;
use crate::workflow::error::AppError;
use crate::workflow::paths::ResolvedPaths;
use crate::workflow::source::{
    notice_models, NoticeLevel, NoticeModel, StagedPromotion, SyncSourceLoad,
};
use vstd::prelude::*;

verus! {

/// One request for feeds and the replies to it.
pub struct FeedRound<'a> {
    pub request: FeedRequest<'a>,
    pub replies: Seq<FeedReply>,
}

/// The reply brought a feed that holds the network.
pub open spec fn brings(reply: FeedReply, network: CidrModel) -> bool {
    reply.result is Ok && models(reply.result->Ok_0.networks@).contains(network)
}

/// A reply of the round brought the network.
pub open spec fn round_brings(round: FeedRound<'_>, network: CidrModel) -> bool {
    exists|k: int| 0 <= k < round.replies.len() && brings(#[trigger] round.replies[k], network)
}

/// Some round brought the network.
pub open spec fn rounds_bring(rounds: Seq<FeedRound<'_>>, network: CidrModel) -> bool {
    exists|r: int| 0 <= r < rounds.len() && round_brings(#[trigger] rounds[r], network)
}

/// The addresses that the rounds asked for, in order.
pub open spec fn asked_urls(rounds: Seq<FeedRound<'_>>) -> Seq<Seq<char>>
    decreases rounds.len(),
{
    if rounds.len() == 0 {
        Seq::empty()
    } else {
        views(rounds[0].request.urls@) + asked_urls(rounds.drop_first())
    }
}

/// The round was asked of the fetcher, for the plan but for the addresses.
pub open spec fn round_asked<F: FeedFetcher>(
    fetcher: &F,
    plan: FeedRequest<'_>,
    round: FeedRound<'_>,
) -> bool {
    &&& exists|replies: Vec<FeedReply>|
        #[trigger] call_ensures(F::fetch_feeds, (fetcher, round.request), replies) && replies@
            == round.replies
    &&& round.request.user_agent == plan.user_agent
    &&& round.request.timeout_secs == plan.timeout_secs
    &&& round.request.cache_dir == plan.cache_dir
    &&& round.request.env == plan.env
    &&& round.request.maxelem == plan.maxelem
    &&& 0 < round.request.urls@.len() <= 5
}

/// The warning of a feed that could not be read.
pub open spec fn feed_warning(url: Seq<char>, error: HttpCacheError) -> NoticeModel {
    NoticeModel {
        level: NoticeLevel::Warning,
        message: "remote source fetch failed softly: "@ + ("source provider `"@ + "remote-feeds"@
            + "` failed: "@ + (url + ": "@ + error.text())),
    }
}

/// A reply that failed is announced with the address it was for.
pub open spec fn announced(
    notices: Seq<NoticeModel>,
    round: FeedRound<'_>,
    reply: FeedReply,
) -> bool {
    reply.result matches Err(error) ==> error is ReadIplist && (reply.index
        < round.request.urls@.len() ==> notices.contains(
        feed_warning(round.request.urls@[reply.index as int]@, error),
    ))
}

/// A reply with a promotion leaves it pending.
pub open spec fn kept(promotions: Seq<StagedPromotion>, reply: FeedReply) -> bool {
    reply.result matches Ok(feed) ==> (feed.promotion matches Some(promotion)
        ==> promotions.contains(promotion))
}

proof fn lemma_members<T>(a: Seq<T>, b: Seq<T>)
    requires
        a.to_multiset() == b.to_multiset(),
    ensures
        forall|x: T| #[trigger] a.contains(x) <==> b.contains(x),
{
    a.to_multiset_ensures();
    b.to_multiset_ensures();
    assert forall|x: T| #[trigger] a.contains(x) <==> b.contains(x) by {
        assert(a.contains(x) <==> a.to_multiset().count(x) > 0);
        assert(b.contains(x) <==> b.to_multiset().count(x) > 0);
    }
}

/// No reply before the last fails, and the last does not fail after them.
proof fn lemma_last_reply(
    state: FeedState,
    urls: Seq<Seq<char>>,
    replies: Seq<FeedReply>,
    limit: usize,
)
    requires
        none_fails(state, urls, replies, limit),
        replies.len() > 0,
    ensures
        none_fails(state, urls, replies.drop_last(), limit),
        !reply_fails(after_replies(state, urls, replies.drop_last()), replies.last(), limit),
        after_replies(state, urls, replies) == after_reply(
            after_replies(state, urls, replies.drop_last()),
            urls,
            replies.last(),
        ),
{
    let front = replies.drop_last();
    assert forall|k: int| 0 <= k < front.len() implies !reply_fails(
        after_replies(state, urls, front.take(k)),
        #[trigger] front[k],
        limit,
    ) by {
        assert(front[k] == replies[k]);
        assert(front.take(k) =~= replies.take(k));
    }
    assert(replies.take(replies.len() - 1) =~= front);
    assert(!reply_fails(
        after_replies(state, urls, replies.take(replies.len() - 1)),
        replies[replies.len() - 1],
        limit,
    ));
}

/// The networks that a reply adds.
proof fn lemma_reply_network(
    state: FeedState,
    urls: Seq<Seq<char>>,
    reply: FeedReply,
    limit: usize,
    m: CidrModel,
)
    requires
        !reply_fails(state, reply, limit),
    ensures
        after_reply(state, urls, reply).networks.contains(m) <==> state.networks.contains(m)
            || brings(reply, m),
        state.networks.len() <= limit ==> after_reply(state, urls, reply).networks.len() <= limit,
{
    if let Ok(feed) = reply.result {
        assert(models(feed.networks@).to_set().contains(m) <==> models(feed.networks@).contains(m));
    }
}

/// Some reply brings the network: the last, or one before it.
proof fn lemma_brings(replies: Seq<FeedReply>, m: CidrModel)
    requires
        replies.len() > 0,
    ensures
        (exists|k: int| 0 <= k < replies.len() && brings(#[trigger] replies[k], m)) <==> brings(
            replies.last(),
            m,
        ) || exists|k: int|
            0 <= k < replies.len() - 1 && brings(#[trigger] replies.drop_last()[k], m),
{
    let front = replies.drop_last();
    if brings(replies.last(), m) {
        assert(brings(replies[replies.len() - 1], m));
    }
    if exists|k: int| 0 <= k < front.len() && brings(#[trigger] front[k], m) {
        let k = choose|k: int| 0 <= k < front.len() && brings(#[trigger] front[k], m);
        assert(brings(replies[k], m));
    }
    if exists|k: int| 0 <= k < replies.len() && brings(#[trigger] replies[k], m) {
        let k = choose|k: int| 0 <= k < replies.len() && brings(#[trigger] replies[k], m);
        if k < front.len() {
            assert(brings(front[k], m));
        }
    }
}

/// The networks that the replies of a round add.
proof fn lemma_reply_networks(
    state: FeedState,
    urls: Seq<Seq<char>>,
    replies: Seq<FeedReply>,
    limit: usize,
    m: CidrModel,
)
    requires
        none_fails(state, urls, replies, limit),
    ensures
        after_replies(state, urls, replies).networks.contains(m) <==> state.networks.contains(m)
            || exists|k: int| 0 <= k < replies.len() && brings(#[trigger] replies[k], m),
        state.networks.len() <= limit ==> after_replies(state, urls, replies).networks.len()
            <= limit,
    decreases replies.len(),
{
    if replies.len() > 0 {
        let front = replies.drop_last();
        let last = replies.last();
        lemma_last_reply(state, urls, replies, limit);
        lemma_reply_networks(state, urls, front, limit, m);
        lemma_reply_network(after_replies(state, urls, front), urls, last, limit, m);
        lemma_brings(replies, m);
    }
}

/// The warnings that the replies of a round add.
proof fn lemma_reply_notices(
    state: FeedState,
    urls: Seq<Seq<char>>,
    replies: Seq<FeedReply>,
    limit: usize,
)
    requires
        none_fails(state, urls, replies, limit),
    ensures
        forall|n: NoticeModel| #[trigger]
            state.notices.contains(n) ==> after_replies(state, urls, replies).notices.contains(n),
        forall|k: int|
            0 <= k < replies.len() && (#[trigger] replies[k]).result is Err
                ==> replies[k].result->Err_0 is ReadIplist && after_replies(
                state,
                urls,
                replies,
            ).notices.contains(
                feed_warning(url_at(urls, replies[k].index), replies[k].result->Err_0),
            ),
    decreases replies.len(),
{
    if replies.len() > 0 {
        let front = replies.drop_last();
        let last = replies.last();
        let before = after_replies(state, urls, front).notices;
        let after = after_replies(state, urls, replies).notices;
        lemma_last_reply(state, urls, replies, limit);
        lemma_reply_notices(state, urls, front, limit);
        assert forall|n: NoticeModel| #[trigger] before.contains(n) implies after.contains(n) by {
            let i = choose|i: int| 0 <= i < before.len() && before[i] == n;
            assert(after[i] == n);
        }
        assert forall|k: int|
            0 <= k < replies.len() && (#[trigger] replies[k]).result is Err implies
            replies[k].result->Err_0 is ReadIplist && after.contains(
            feed_warning(url_at(urls, replies[k].index), replies[k].result->Err_0),
        ) by {
            if k < front.len() {
                assert(front[k] == replies[k]);
            } else {
                assert(after[after.len() - 1] == feed_warning(
                    url_at(urls, last.index),
                    last.result->Err_0,
                ));
            }
        }
    }
}

/// The promotions that the replies of a round add.
proof fn lemma_reply_promotions(
    state: FeedState,
    urls: Seq<Seq<char>>,
    replies: Seq<FeedReply>,
    limit: usize,
)
    requires
        none_fails(state, urls, replies, limit),
    ensures
        forall|p: StagedPromotion| #[trigger]
            state.promotions.contains(p) ==> after_replies(
                state,
                urls,
                replies,
            ).promotions.contains(p),
        forall|k: int|
            0 <= k < replies.len() ==> kept(
                after_replies(state, urls, replies).promotions,
                #[trigger] replies[k],
            ),
    decreases replies.len(),
{
    if replies.len() > 0 {
        let front = replies.drop_last();
        let last = replies.last();
        let before = after_replies(state, urls, front).promotions;
        let after = after_replies(state, urls, replies).promotions;
        lemma_last_reply(state, urls, replies, limit);
        lemma_reply_promotions(state, urls, front, limit);
        assert forall|p: StagedPromotion| #[trigger] before.contains(p) implies after.contains(
            p,
        ) by {
            let i = choose|i: int| 0 <= i < before.len() && before[i] == p;
            assert(after[i] == p);
        }
        assert forall|k: int| 0 <= k < replies.len() implies kept(after, #[trigger] replies[k]) by {
            if k < front.len() {
                assert(kept(before, front[k]));
            } else if last.result is Ok && last.result->Ok_0.promotion is Some {
                assert(after[after.len() - 1] == last.result->Ok_0.promotion->0);
            }
        }
    }
}

/// What a run over chunks gives, from a state on.
proof fn lemma_chunks<'a, F: FeedFetcher>(
    fetcher: &'a F,
    plan: FeedRequest<'a>,
    checks: spec_fn(Result<(), AppError>) -> bool,
    urls: Seq<Seq<char>>,
    limit: usize,
    state: FeedState,
    load: SyncSourceLoad,
) -> (rounds: Seq<FeedRound<'a>>)
    requires
        chunks_rule(fetcher, plan, checks, urls, limit, state, Ok(load)),
    ensures
        asked_urls(rounds) == urls,
        forall|r: int|
            0 <= r < rounds.len() ==> round_asked(fetcher, plan, #[trigger] rounds[r]),
        forall|m: CidrModel| #[trigger]
            models(load.primary.networks@).contains(m) <==> state.networks.contains(m)
                || rounds_bring(rounds, m),
        forall|n: NoticeModel| #[trigger]
            state.notices.contains(n) ==> notice_models(load.primary.notices@).contains(n),
        forall|p: StagedPromotion| #[trigger]
            state.promotions.contains(p) ==> load.pending_promotions@.contains(p),
        forall|r: int, k: int|
            0 <= r < rounds.len() && 0 <= k < rounds[r].replies.len() ==> announced(
                notice_models(load.primary.notices@),
                rounds[r],
                #[trigger] rounds[r].replies[k],
            ) && kept(load.pending_promotions@, rounds[r].replies[k]),
        state.networks.len() <= limit ==> models(load.primary.networks@).to_set().len() <= limit,
        load.fallback is None,
    decreases urls.len(),
{
    if urls.len() == 0 {
        assert forall|m: CidrModel| #[trigger]
            models(load.primary.networks@).contains(m) <==> state.networks.contains(m) by {
            assert(models(load.primary.networks@).to_set().contains(m) <==> models(
                load.primary.networks@,
            ).contains(m));
        }
        assert(asked_urls(Seq::<FeedRound>::empty()) =~= urls);
        Seq::empty()
    } else {
        let n = chunk_len(urls.len());
        let (request, replies, ordered) = choose|
            request: FeedRequest<'_>,
            replies: Vec<FeedReply>,
            ordered: Seq<FeedReply>,
        |
            {
                &&& #[trigger] call_ensures(F::fetch_feeds, (fetcher, request), replies)
                &&& #[trigger] stably_sorted(replies@, ordered)
                &&& is_chunk_request(request, plan, urls.take(n))
                &&& none_fails(state, urls.take(n), ordered, limit)
                &&& chunks_rule(
                    fetcher,
                    plan,
                    checks,
                    urls.skip(n),
                    limit,
                    after_replies(state, urls.take(n), ordered),
                    Ok::<SyncSourceLoad, AppError>(load),
                )
            };
        let part = urls.take(n);
        let next = after_replies(state, part, ordered);
        assert forall|m: CidrModel| #[trigger]
            next.networks.contains(m) <==> state.networks.contains(m) || exists|k: int|
                0 <= k < ordered.len() && brings(#[trigger] ordered[k], m) by {
            lemma_reply_networks(state, part, ordered, limit, m);
        }
        lemma_reply_networks(state, part, ordered, limit, arbitrary());
        lemma_reply_notices(state, part, ordered, limit);
        lemma_reply_promotions(state, part, ordered, limit);
        let rest = lemma_chunks(fetcher, plan, checks, urls.skip(n), limit, next, load);
        let round = FeedRound { request, replies: replies@ };
        let rounds = seq![round] + rest;
        lemma_members(replies@, ordered);
        assert(rounds.drop_first() =~= rest);
        assert(views(request.urls@) == part);
        assert(part + urls.skip(n) =~= urls);
        assert(request.urls@.len() == views(request.urls@).len());
        assert(round_asked(fetcher, plan, round));
        assert forall|r: int| 0 <= r < rounds.len() implies round_asked(
            fetcher,
            plan,
            #[trigger] rounds[r],
        ) by {
            if r > 0 {
                assert(rounds[r] == rest[r - 1]);
            }
        }
        lemma_round(state, next, round, ordered, rest, rounds);
        assert forall|m: CidrModel| #[trigger]
            models(load.primary.networks@).contains(m) <==> state.networks.contains(m)
                || rounds_bring(rounds, m) by {
            assert(next.networks.contains(m) <==> state.networks.contains(m) || round_brings(
                round,
                m,
            ));
            assert(rounds_bring(rounds, m) <==> round_brings(round, m) || rounds_bring(rest, m));
        }
        let notices = notice_models(load.primary.notices@);
        assert forall|r: int, k: int|
            0 <= r < rounds.len() && 0 <= k < rounds[r].replies.len() implies announced(
            notices,
            rounds[r],
            #[trigger] rounds[r].replies[k],
        ) && kept(load.pending_promotions@, rounds[r].replies[k]) by {
            let reply = rounds[r].replies[k];
            if r == 0 {
                assert(replies@.contains(reply));
                assert(ordered.contains(reply));
                let j = choose|j: int| 0 <= j < ordered.len() && ordered[j] == reply;
                assert(kept(next.promotions, ordered[j]));
                if reply.result is Err && reply.index < request.urls@.len() {
                    assert(views(request.urls@)[reply.index as int]
                        == request.urls@[reply.index as int]@);
                    assert(next.notices.contains(
                        feed_warning(url_at(part, reply.index), reply.result->Err_0),
                    ));
                }
            } else {
                assert(rounds[r] == rest[r - 1]);
                assert(announced(notices, rest[r - 1], rest[r - 1].replies[k]));
            }
        }
        rounds
    }
}

proof fn lemma_round(
    state: FeedState,
    next: FeedState,
    round: FeedRound<'_>,
    ordered: Seq<FeedReply>,
    rest: Seq<FeedRound<'_>>,
    rounds: Seq<FeedRound<'_>>,
)
    requires
        forall|x: FeedReply| #[trigger] round.replies.contains(x) <==> ordered.contains(x),
        rounds == seq![round] + rest,
        forall|m: CidrModel| #[trigger]
            next.networks.contains(m) <==> state.networks.contains(m) || exists|k: int|
                0 <= k < ordered.len() && brings(#[trigger] ordered[k], m),
    ensures
        forall|m: CidrModel| #[trigger]
            next.networks.contains(m) <==> state.networks.contains(m) || round_brings(round, m),
        forall|m: CidrModel| #[trigger]
            rounds_bring(rounds, m) <==> round_brings(round, m) || rounds_bring(rest, m),
{
    assert forall|m: CidrModel| #[trigger]
        next.networks.contains(m) <==> state.networks.contains(m) || round_brings(round, m) by {
        if round_brings(round, m) {
            let k = choose|k: int|
                0 <= k < round.replies.len() && brings(#[trigger] round.replies[k], m);
            assert(round.replies.contains(round.replies[k]));
            let j = choose|j: int| 0 <= j < ordered.len() && ordered[j] == round.replies[k];
            assert(brings(ordered[j], m));
        }
        if exists|k: int| 0 <= k < ordered.len() && brings(#[trigger] ordered[k], m) {
            let k = choose|k: int| 0 <= k < ordered.len() && brings(#[trigger] ordered[k], m);
            assert(ordered.contains(ordered[k]));
            assert(round.replies.contains(ordered[k]));
            let j = choose|j: int| 0 <= j < round.replies.len() && round.replies[j] == ordered[k];
            assert(brings(round.replies[j], m));
        }
    }
    assert forall|m: CidrModel| #[trigger] rounds_bring(rounds, m) <==> round_brings(round, m)
        || rounds_bring(rest, m) by {
        if rounds_bring(rounds, m) {
            let r = choose|r: int| 0 <= r < rounds.len() && round_brings(#[trigger] rounds[r], m);
            if r > 0 {
                assert(rounds[r] == rest[r - 1]);
            }
        }
        if round_brings(round, m) {
            assert(round_brings(rounds[0], m));
        }
        if rounds_bring(rest, m) {
            let r = choose|r: int| 0 <= r < rest.len() && round_brings(#[trigger] rest[r], m);
            assert(rounds[r + 1] == rest[r]);
        }
    }
}

proof fn lemma_distinct(urls: Seq<Seq<char>>)
    ensures
        distinct_texts(urls).no_duplicates(),
        forall|u: Seq<char>| #[trigger] urls.contains(u) <==> distinct_texts(urls).contains(u),
    decreases urls.len(),
{
    if urls.len() > 0 {
        let front = urls.drop_last();
        let last = urls.last();
        let before = distinct_texts(front);
        let all = distinct_texts(urls);
        lemma_distinct(front);
        assert forall|u: Seq<char>| #[trigger] urls.contains(u) <==> all.contains(u) by {
            if urls.contains(u) {
                let i = choose|i: int| 0 <= i < urls.len() && urls[i] == u;
                if i < front.len() {
                    assert(front[i] == u);
                    assert(front.contains(u));
                    let k = choose|k: int| 0 <= k < before.len() && before[k] == u;
                    assert(all[k] == u);
                } else if !before.contains(last) {
                    assert(all[all.len() - 1] == u);
                }
            }
            if all.contains(u) {
                let k = choose|k: int| 0 <= k < all.len() && all[k] == u;
                if k < before.len() {
                    assert(before[k] == u);
                    assert(before.contains(u));
                    assert(front.contains(u));
                    let i = choose|i: int| 0 <= i < front.len() && front[i] == u;
                    assert(urls[i] == u);
                } else {
                    assert(urls[urls.len() - 1] == u);
                }
            }
        }
    }
}

/// Each configured address is fetched, once, at most five at a time; the source gives exactly the
/// networks of the feeds that were read, of which there are no more than the limit. A feed that
/// could not be read takes nothing away from the others and is announced; every promotion stays
/// pending.
pub proof fn law_every_feed_is_fetched_and_loaded<'a, W: SourceWork>(
    provider: BuiltinSyncProvider<'a, W>,
    checks: spec_fn(Result<(), AppError>) -> bool,
    paths: &'a ResolvedPaths,
    config: &'a Config,
    env: &'a Vec<(String, String)>,
    load: SyncSourceLoad,
) -> (rounds: Seq<FeedRound<'a>>)
    requires
        provider is RemoteFeeds,
        sync_provides(provider, checks, paths, config, env, Ok(load)),
    ensures
        asked_urls(rounds).no_duplicates(),
        forall|u: Seq<char>| #[trigger]
            views(config.remote.urls@).contains(u) <==> asked_urls(rounds).contains(u),
        forall|r: int|
            0 <= r < rounds.len() ==> round_asked(
                provider->RemoteFeeds_0.work,
                FeedRequest {
                    urls: &config.remote.urls,
                    user_agent: &provider->RemoteFeeds_0.user_agent,
                    timeout_secs: config.remote.timeout_secs@,
                    cache_dir: &paths.remote_cache_dir,
                    env,
                    maxelem: config.ipset.maxelem@,
                },
                #[trigger] rounds[r],
            ),
        forall|m: CidrModel| #[trigger]
            models(load.primary.networks@).contains(m) <==> rounds_bring(rounds, m),
        forall|r: int, k: int|
            0 <= r < rounds.len() && 0 <= k < rounds[r].replies.len() ==> announced(
                notice_models(load.primary.notices@),
                rounds[r],
                #[trigger] rounds[r].replies[k],
            ) && kept(load.pending_promotions@, rounds[r].replies[k]),
        models(load.primary.networks@).to_set().len() <= 8_192 || models(
            load.primary.networks@,
        ).to_set().len() <= 4 * config.ipset.maxelem@ && models(
            load.primary.networks@,
        ).to_set().len() <= 2_000_000,
        load.fallback is None,
{
    let plan = FeedRequest {
        urls: &config.remote.urls,
        user_agent: &provider->RemoteFeeds_0.user_agent,
        timeout_secs: config.remote.timeout_secs@,
        cache_dir: &paths.remote_cache_dir,
        env,
        maxelem: config.ipset.maxelem@,
    };
    let work = provider->RemoteFeeds_0.work;
    let limit = aggregate_limit(plan.maxelem) as usize;
    let urls = distinct_texts(views(plan.urls@));
    assert(feeds_rule(work, plan, checks, Ok::<SyncSourceLoad, AppError>(load)));
    let start = choose|start: FeedState|
        {
            &&& start.networks == Set::<CidrModel>::empty()
            &&& start.notices.len() == 0
            &&& start.promotions.len() == 0
            &&& #[trigger] chunks_rule(work, plan, checks, urls, limit, start, Ok(load))
        };
    lemma_distinct(views(plan.urls@));
    lemma_chunks(work, plan, checks, urls, limit, start, load)
}

/// All feeds together may bring four times what the set can hold, between 8192 and two million.
pub proof fn law_aggregate_limit_follows_the_set_capacity(maxelem: u32)
    ensures
        8_192 <= aggregate_limit(maxelem) <= 2_000_000,
        8_192 <= 4 * maxelem <= 2_000_000 ==> aggregate_limit(maxelem) == 4 * maxelem,
        4 * maxelem <= 8_192 ==> aggregate_limit(maxelem) == 8_192,
        4 * maxelem >= 2_000_000 ==> aggregate_limit(maxelem) == 2_000_000,
{
}

/// There are never more workers than feeds, processors or five, and always one where there is a
/// feed.
pub proof fn law_workers_are_bounded(url_count: int, cpu_parallelism: int)
    requires
        0 <= url_count,
        0 <= cpu_parallelism,
    ensures
        worker_count(url_count, cpu_parallelism) <= url_count,
        worker_count(url_count, cpu_parallelism) <= 5,
        cpu_parallelism > 0 ==> worker_count(url_count, cpu_parallelism) <= cpu_parallelism,
        url_count > 0 ==> worker_count(url_count, cpu_parallelism) >= 1,
        worker_count(url_count, cpu_parallelism) == url_count || worker_count(
            url_count,
            cpu_parallelism,
        ) == 5 || worker_count(url_count, cpu_parallelism) == cpu_parallelism || worker_count(
            url_count,
            cpu_parallelism,
        ) == 1 && cpu_parallelism == 0,
{
}

} // verus!
