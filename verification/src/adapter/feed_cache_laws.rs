//! The cache of a feed across a refresh: what a dropped response leaves, and what a repaired
//! generation gives.

use crate::adapter::cache_generation::{
    distinct_safe_names, generation_id_text, generation_text, option_text, GenerationCandidate,
    GenerationFile, GenerationManifest,
};
use crate::adapter::cache_staging::{reached_step, StagedGeneration, StagingEvent, StagingStep};
use crate::adapter::http_cache::{
    cache_rule, contents_match, fallback_of, finished, generation_agrees, is_member_list,
    loaded_from, prepared, refresh_rule, rejection, update_of, usable_generation, CacheSource,
    CachedIplist, HttpCacheError, LegacyIplist, LoadedRemoteCache, PreparedCachedIplist,
    RemoteCacheMetadata, RemoteGenerationReading, RemoteRefresh, RemoteUpdate, StoredGeneration,
    GENERATION_IPLIST_FILE, GENERATION_METADATA_FILE, GENERATION_RAW_FILE,
};
use crate::adapter::http_fetch::{
    fetch_rule, ConditionalFetchResult, HttpClient, HttpClientError, HttpResponse,
};
use crate::adapter::remote_laws::{
    file_views, law_cached_update_reads_back, law_identifier_of_contents,
    law_written_list_reads_back, lemma_listing_unique, read_as_written, same_metadata,
};
use crate::adapter::remote_parse::{
    broken_limit, feed_networks, lemma_ascending_distinct, lemma_counts, lemma_within_limits,
    lists_networks, utf8_lossy, RemoteFeedLimits,
};
use crate::adapter::staging_laws::{
    damaged, directory_of, dropped, law_dropped_generation_leaves_the_store,
    law_promoted_generation_is_selected_first, law_staging_is_unselected, law_staging_repairs,
    lemma_directory_reads, planned, promoted_store, selected_directories, stages, DirectoryModel,
    StoreModel,
};
use crate::ordering::{lemma_sorted_members, stably_sorted};
use crate::policy::cidr_text::model_valid;
use crate::policy::network_types::CanonicalCidr;
use crate::text::{lines, trim};
use vstd::prelude::*;
use vstd::utf8::encode_utf8;

verus! {

/// The names of the members of a generation differ.
proof fn lemma_member_names()
    ensures
        GENERATION_RAW_FILE@ != GENERATION_IPLIST_FILE@,
        GENERATION_RAW_FILE@ != GENERATION_METADATA_FILE@,
        GENERATION_IPLIST_FILE@ != GENERATION_METADATA_FILE@,
{
    reveal_strlit("raw");
    reveal_strlit("iplist");
    reveal_strlit("meta.json");
    assert(GENERATION_RAW_FILE@.len() == 3);
    assert(GENERATION_IPLIST_FILE@.len() == 6);
    assert(GENERATION_METADATA_FILE@.len() == 9);
}

/// Whether the files of a generation match is decided by what was read of them.
proof fn lemma_match_determined(
    candidate: GenerationCandidate,
    reading: RemoteGenerationReading,
    a: bool,
    b: bool,
)
    requires
        contents_match(candidate, reading, a),
        contents_match(candidate, reading, b),
    ensures
        a == b,
{
    if let (Some(raw), Some(iplist), Some(metadata)) = (
        reading.raw,
        reading.iplist_bytes,
        reading.metadata_bytes,
    ) {
        let (x, sx) = choose|x: Seq<GenerationFile<'static>>, sx: Seq<GenerationFile<'static>>|
         #[trigger]
            stably_sorted(x, sx) && is_member_list(x, raw@, iplist@, metadata@) && a == (
            generation_text(sx) == candidate.id@);
        let (y, sy) = choose|y: Seq<GenerationFile<'static>>, sy: Seq<GenerationFile<'static>>|
         #[trigger]
            stably_sorted(y, sy) && is_member_list(y, raw@, iplist@, metadata@) && b == (
            generation_text(sy) == candidate.id@);
        lemma_member_names();
        assert(file_views(x) =~= file_views(y));
        law_identifier_of_contents(x, sx, y, sy);
    }
}

/// Networks of an optional list.
pub open spec fn listed(networks: Option<Vec<CanonicalCidr>>) -> Option<Seq<CanonicalCidr>> {
    match networks {
        Some(list) => Some(list@),
        None => None,
    }
}

/// What was read can be used for the URL within the limits.
pub open spec fn usable(url: Seq<char>, limits: RemoteFeedLimits, stored: StoredGeneration) -> bool {
    exists|matching: bool| #[trigger]
        contents_match(stored.candidate, stored.reading, matching) && usable_generation(
            stored,
            matching,
            url,
            limits,
        )
}

/// Readings of a cache with the same contents, or the same failure.
pub open spec fn same_cache(
    a: Result<LoadedRemoteCache, HttpCacheError>,
    b: Result<LoadedRemoteCache, HttpCacheError>,
) -> bool {
    match (a, b) {
        (Ok(x), Ok(y)) => {
            &&& listed(x.networks) == listed(y.networks)
            &&& x.metadata == y.metadata
            &&& option_text(x.generation_id) == option_text(y.generation_id)
        },
        (
            Err(HttpCacheError::ReadIplist { path: p, reason: r }),
            Err(HttpCacheError::ReadIplist { path: q, reason: t }),
        ) => p@ == q@ && r@ == t@,
        _ => false,
    }
}

/// What a cache is read from: the first generation, where it can be used, and what follows it
/// otherwise.
proof fn lemma_first_generation(
    url: Seq<char>,
    generations: Seq<StoredGeneration>,
    iplist_path: Seq<char>,
    legacy: (LegacyIplist, Option<RemoteCacheMetadata>),
    limits: RemoteFeedLimits,
    cache: Result<LoadedRemoteCache, HttpCacheError>,
)
    requires
        generations.len() > 0,
        cache_rule(url, generations, iplist_path, legacy, limits, cache),
    ensures
        if usable(url, limits, generations[0]) {
            cache matches Ok(c) && loaded_from(generations[0], c)
        } else {
            cache_rule(url, generations.drop_first(), iplist_path, legacy, limits, cache)
        },
{
    let first = generations[0];
    let m = choose|m: bool| #[trigger]
        contents_match(first.candidate, first.reading, m) && if usable_generation(
            first,
            m,
            url,
            limits,
        ) {
            cache matches Ok(c) && loaded_from(first, c)
        } else {
            cache_rule(url, generations.drop_first(), iplist_path, legacy, limits, cache)
        };
    if usable(url, limits, first) {
        let n = choose|n: bool| #[trigger]
            contents_match(first.candidate, first.reading, n) && usable_generation(
                first,
                n,
                url,
                limits,
            );
        lemma_match_determined(first.candidate, first.reading, m, n);
    }
}

/// The generation at `k` does not decide what the cache is: one before it can be used, or neither
/// reading of it can.
pub open spec fn undecided_at(
    url: Seq<char>,
    limits: RemoteFeedLimits,
    x: Seq<StoredGeneration>,
    y: Seq<StoredGeneration>,
    k: int,
) -> bool {
    ||| exists|j: int| 0 <= j < k && usable(url, limits, #[trigger] x[j])
    ||| !usable(url, limits, x[k]) && !usable(url, limits, y[k])
}

/// The cache of a feed is decided by what was read of its store and of its legacy files, as far as
/// the first generation that can be used: two readings of the store that differ only behind it, or
/// in generations that cannot be used either way, give the same cache.
pub proof fn law_cache_is_determined(
    url: Seq<char>,
    x: Seq<StoredGeneration>,
    y: Seq<StoredGeneration>,
    iplist_path: Seq<char>,
    legacy: (LegacyIplist, Option<RemoteCacheMetadata>),
    limits: RemoteFeedLimits,
    a: Result<LoadedRemoteCache, HttpCacheError>,
    b: Result<LoadedRemoteCache, HttpCacheError>,
)
    requires
        x.len() == y.len(),
        forall|k: int|
            #![trigger x[k]]
            #![trigger y[k]]
            0 <= k < x.len() ==> x[k] == y[k] || undecided_at(url, limits, x, y, k),
        cache_rule(url, x, iplist_path, legacy, limits, a),
        cache_rule(url, y, iplist_path, legacy, limits, b),
    ensures
        same_cache(a, b),
    decreases x.len(),
{
    if x.len() == 0 {
        if let (Ok(p), Ok(q)) = (a, b) {
            if let (Some(m), Some(n)) = (p.networks, q.networks) {
                lemma_listing_unique(m@, n@, feed_networks(lines(legacy.0->Text_0@)));
            }
        }
    } else {
        lemma_first_generation(url, x, iplist_path, legacy, limits, a);
        lemma_first_generation(url, y, iplist_path, legacy, limits, b);
        assert(x[0] == y[0] || undecided_at(url, limits, x, y, 0));
        if usable(url, limits, x[0]) {
            lemma_listing_unique(
                a->Ok_0.networks->0@,
                b->Ok_0.networks->0@,
                feed_networks(lines(x[0].reading.iplist->0@)),
            );
        } else {
            let u = x.drop_first();
            let v = y.drop_first();
            assert forall|k: int|
                #![trigger u[k]]
                #![trigger v[k]]
                0 <= k < u.len() implies u[k] == v[k] || undecided_at(url, limits, u, v, k) by {
                assert(u[k] == x[k + 1] && v[k] == y[k + 1]);
                if x[k + 1] != y[k + 1] && !(!usable(url, limits, x[k + 1]) && !usable(
                    url,
                    limits,
                    y[k + 1],
                )) {
                    let j = choose|j: int| 0 <= j < k + 1 && usable(url, limits, #[trigger] x[j]);
                    assert(u[j - 1] == x[j]);
                }
            }
            law_cache_is_determined(url, u, v, iplist_path, legacy, limits, a, b);
        }
    }
}

/// What is read of the generations that a store selects; `read` reads one directory.
pub open spec fn stored_generations(
    parse: spec_fn(Seq<u8>) -> Option<GenerationManifest>,
    read: spec_fn(Seq<char>, Option<DirectoryModel>) -> StoredGeneration,
    store: StoreModel,
) -> Seq<StoredGeneration> {
    selected_directories(parse, store).map_values(
        |selected: (Seq<char>, Option<DirectoryModel>)| read(selected.0, selected.1),
    )
}

/// The repair of a generation stays out of sight: the store does not select the generation, or
/// selects one before it that can be used, or cannot use it before nor after.
pub open spec fn repair_unseen(
    url: Seq<char>,
    limits: RemoteFeedLimits,
    parse: spec_fn(Seq<u8>) -> Option<GenerationManifest>,
    read: spec_fn(Seq<char>, Option<DirectoryModel>) -> StoredGeneration,
    before: StoreModel,
    after: StoreModel,
    id: Seq<char>,
) -> bool {
    forall|k: int|
        0 <= k < selected_directories(parse, before).len() && (#[trigger] selected_directories(
            parse,
            before,
        )[k]).0 == id ==> undecided_at(
            url,
            limits,
            stored_generations(parse, read, before),
            stored_generations(parse, read, after),
            k,
        )
}

/// A response that is taken is used at once and waits for promotion: a fetch that brings it is
/// staged, and once staging has finished its networks are what the call gives, with the staged
/// generation to promote; all the while the manifest holds the same bytes.
pub proof fn law_staged_response_waits_for_promotion<'a, C: HttpClient>(
    client: &C,
    url: Seq<char>,
    cache: LoadedRemoteCache,
    response: HttpResponse,
    max_bytes: usize,
    limits: RemoteFeedLimits,
    refresh: RemoteRefresh,
    files: Seq<GenerationFile<'a>>,
    events: Seq<StagingEvent>,
    stores: Seq<StoreModel>,
    n: int,
    staged: StagedGeneration,
    result: Result<PreparedCachedIplist, HttpCacheError>,
)
    requires
        rejection(response, max_bytes, limits) is None,
        prepared(
            client,
            url,
            cache,
            max_bytes,
            limits,
            Ok::<HttpResponse, HttpClientError>(response),
            refresh,
        ),
        planned(files, staged.generation_id@),
        stages(files, staged.generation_id@, events, stores),
        0 <= n < stores.len(),
        refresh matches RemoteRefresh::Stage(pending) ==> finished(pending, Ok(staged), result),
    ensures
        refresh matches RemoteRefresh::Stage(pending) && pending.cache == cache,
        result matches Ok(found) && {
            &&& lists_networks(
                found.loaded.networks@,
                feed_networks(lines(utf8_lossy(response.body@))),
            )
            &&& found.loaded.source == CacheSource::Network
            &&& found.pending_promotion == Some(staged)
        },
        stores[n].manifest == stores[0].manifest,
{
    let fetched = choose|fetched: ConditionalFetchResult| #[trigger]
        fetch_rule(
            client,
            url,
            max_bytes,
            cache.networks is Some,
            Ok::<HttpResponse, HttpClientError>(response),
            fetched,
        ) && refresh_rule(url, fetched, cache, max_bytes, limits, refresh);
    assert(fetched == ConditionalFetchResult::Network(response));
    law_staging_is_unselected(files, staged.generation_id@, events, stores, n);
}

/// A response that is staged and dropped without promotion changes nothing that a later call can
/// see: the manifest holds the same bytes, the cache reads as before, and a fetch that then fails
/// falls back to what it would have fallen back to before.
///
/// Left out is a response whose own generation was there and damaged, where the store selects that
/// generation, no usable one before it, and can use it once it is repaired: the repair stays, and
/// a later call uses it.
pub proof fn law_dropped_response_is_invisible<'a, C: HttpClient>(
    url: Seq<char>,
    parse: spec_fn(Seq<u8>) -> Option<GenerationManifest>,
    read: spec_fn(Seq<char>, Option<DirectoryModel>) -> StoredGeneration,
    files: Seq<GenerationFile<'a>>,
    events: Seq<StagingEvent>,
    stores: Seq<StoreModel>,
    staged: StagedGeneration,
    after: StoreModel,
    iplist_path: Seq<char>,
    legacy: (LegacyIplist, Option<RemoteCacheMetadata>),
    limits: RemoteFeedLimits,
    before_cache: Result<LoadedRemoteCache, HttpCacheError>,
    before_fallback: CachedIplist,
    after_cache: Result<LoadedRemoteCache, HttpCacheError>,
    client: &C,
    max_bytes: usize,
    failure: HttpClientError,
    refresh: RemoteRefresh,
)
    requires
        planned(files, staged.generation_id@),
        stages(files, staged.generation_id@, events, stores),
        reached_step(files.len(), events) == (StagingStep::Finished {
            fresh: staged.remove_on_drop,
        }),
        !staged.promoted,
        dropped(stores.last(), staged, after),
        damaged(stores[0], files, staged.generation_id@) ==> repair_unseen(
            url,
            limits,
            parse,
            read,
            stores[0],
            after,
            staged.generation_id@,
        ),
        cache_rule(
            url,
            stored_generations(parse, read, stores[0]),
            iplist_path,
            legacy,
            limits,
            before_cache,
        ),
        before_cache matches Ok(cache) ==> fallback_of(cache, before_fallback),
        cache_rule(
            url,
            stored_generations(parse, read, after),
            iplist_path,
            legacy,
            limits,
            after_cache,
        ),
        after_cache matches Ok(cache) ==> prepared(
            client,
            url,
            cache,
            max_bytes,
            limits,
            Err::<HttpResponse, HttpClientError>(failure),
            refresh,
        ),
    ensures
        after.manifest == stores[0].manifest,
        same_cache(before_cache, after_cache),
        after_cache is Ok ==> (refresh matches RemoteRefresh::Settled(fallback) && {
            &&& fallback.networks@ == before_fallback.networks@
            &&& fallback.source == before_fallback.source
            &&& fallback.metadata == before_fallback.metadata
        }),
{
    law_dropped_generation_leaves_the_store(files, events, stores, staged, after);
    let id = staged.generation_id@;
    let x = stored_generations(parse, read, stores[0]);
    let y = stored_generations(parse, read, after);
    let then = selected_directories(parse, stores[0]);
    let now = selected_directories(parse, after);
    assert(then.len() == now.len());
    assert forall|k: int|
        #![trigger x[k]]
        #![trigger y[k]]
        0 <= k < x.len() implies x[k] == y[k] || undecided_at(url, limits, x, y, k) by {
        assert(then[k].0 == now[k].0);
        if then[k].0 != id || !damaged(stores[0], files, id) {
            assert(then[k] == now[k]);
        }
        assert(x[k] == read(then[k].0, then[k].1));
        assert(y[k] == read(now[k].0, now[k].1));
    }
    law_cache_is_determined(url, x, y, iplist_path, legacy, limits, before_cache, after_cache);
    if let Ok(cache) = after_cache {
        let fetched = choose|fetched: ConditionalFetchResult| #[trigger]
            fetch_rule(
                client,
                url,
                max_bytes,
                cache.networks is Some,
                Err::<HttpResponse, HttpClientError>(failure),
                fetched,
            ) && refresh_rule(url, fetched, cache, max_bytes, limits, refresh);
        assert(refresh is Settled);
        let fallback = refresh->Settled_0;
        assert(fallback_of(cache, fallback));
        assert(fallback.networks@ =~= before_fallback.networks@);
    }
}

/// What was read of a feed's generation is what its directory holds, the list and the metadata
/// decoded.
pub open spec fn read_from(
    directory: DirectoryModel,
    update: RemoteUpdate,
    reading: RemoteGenerationReading,
) -> bool {
    &&& directory.contains_key(GENERATION_RAW_FILE@) ==> (reading.raw matches Some(bytes) && bytes@
        == directory[GENERATION_RAW_FILE@])
    &&& directory.contains_key(GENERATION_IPLIST_FILE@) ==> (reading.iplist_bytes matches Some(
        bytes,
    ) && bytes@ == directory[GENERATION_IPLIST_FILE@] && (bytes@ == encode_utf8(update.iplist@)
        ==> (reading.iplist matches Some(text) && text@ == update.iplist@)))
    &&& directory.contains_key(GENERATION_METADATA_FILE@) ==> (reading.metadata_bytes matches Some(
        bytes,
    ) && bytes@ == directory[GENERATION_METADATA_FILE@])
}

/// The bytes that an update's metadata was written as are read as that metadata.
pub open spec fn decodes_metadata(
    metadata_bytes: Seq<u8>,
    update: RemoteUpdate,
    reading: RemoteGenerationReading,
) -> bool {
    match reading.metadata_bytes {
        Some(bytes) => bytes@ == metadata_bytes ==> (reading.metadata matches Some(metadata)
            && same_metadata(metadata, update.metadata)),
        None => true,
    }
}

/// A directory with the files of an update is read as the update was written.
proof fn lemma_repaired_reading<'a>(
    update: RemoteUpdate,
    metadata_bytes: Seq<u8>,
    given: Seq<GenerationFile<'a>>,
    files: Seq<GenerationFile<'a>>,
    directory: DirectoryModel,
    reading: RemoteGenerationReading,
)
    requires
        is_member_list(given, update.raw@, encode_utf8(update.iplist@), metadata_bytes),
        stably_sorted(given, files),
        distinct_safe_names(files),
        directory == directory_of(files),
        read_from(directory, update, reading),
        decodes_metadata(metadata_bytes, update, reading),
    ensures
        read_as_written(update, metadata_bytes, reading),
{
    broadcast use vstd::seq_lib::group_to_multiset_ensures;

    lemma_member_names();
    lemma_sorted_members(given, files);
    lemma_directory_reads(files);
    assert forall|i: int| 0 <= i < given.len() implies directory.contains_key(
        (#[trigger] given[i]).name@,
    ) && directory[given[i].name@] == given[i].contents@ by {
        assert(given.contains(given[i]));
        assert(files.contains(given[i]));
        let k = choose|k: int| 0 <= k < files.len() && files[k] == given[i];
        assert(directory[files[k].name@] == files[k].contents@);
    }
    assert(given[0]@.0 == GENERATION_RAW_FILE@ && given[1]@.0 == GENERATION_IPLIST_FILE@
        && given[2]@.0 == GENERATION_METADATA_FILE@);
}

/// A refresh over a damaged generation repairs it: when the response that made the generation is
/// taken again and its staging finishes, what is read of the generation's directory is found under
/// its identifier, agrees with its metadata, stays within the limits, and gives the networks of the
/// response. The same holds where the generation had no directory.
pub proof fn law_refresh_repairs_damaged_generation<'a>(
    url: Seq<char>,
    response: HttpResponse,
    max_bytes: usize,
    limits: RemoteFeedLimits,
    update: RemoteUpdate,
    metadata_bytes: Seq<u8>,
    given: Seq<GenerationFile<'a>>,
    files: Seq<GenerationFile<'a>>,
    events: Seq<StagingEvent>,
    stores: Seq<StoreModel>,
    candidate: GenerationCandidate,
    reading: RemoteGenerationReading,
    matching: bool,
    networks: Seq<CanonicalCidr>,
)
    requires
        rejection(response, max_bytes, limits) is None,
        update_of(url, response, update),
        trim(url).len() > 0,
        forall|i: int|
            0 <= i < update.networks@.len() ==> model_valid((#[trigger] update.networks@[i])@),
        is_member_list(given, update.raw@, encode_utf8(update.iplist@), metadata_bytes),
        stably_sorted(given, files),
        planned(files, candidate.id@),
        stages(files, candidate.id@, events, stores),
        reached_step(files.len(), events) is Finished,
        !stores[0].generations.contains_key(candidate.id@) || damaged(
            stores[0],
            files,
            candidate.id@,
        ),
        read_from(stores.last().generations[candidate.id@], update, reading),
        decodes_metadata(metadata_bytes, update, reading),
        contents_match(candidate, reading, matching),
    ensures
        matching,
        generation_agrees(reading, Some(url)),
        broken_limit(lines(reading.iplist->0@), limits) is None,
        lists_networks(networks, feed_networks(lines(reading.iplist->0@))) <==> networks
            == update.networks@,
{
    law_staging_repairs(files, candidate.id@, events, stores);
    lemma_repaired_reading(
        update,
        metadata_bytes,
        given,
        files,
        stores.last().generations[candidate.id@],
        reading,
    );
    law_cached_update_reads_back(
        url,
        response,
        max_bytes,
        limits,
        update,
        metadata_bytes,
        given,
        files,
        candidate,
        reading,
        matching,
        networks,
    );
}

/// A refresh over a damaged generation is used by later calls: when the response that made the
/// generation is taken again, staged and promoted, the cache that is then read of the store holds
/// the networks of the response under the identifier of the generation, and a fetch that fails
/// falls back to them. The same holds where the generation had no directory.
///
/// `later` are the limits of the later call: those of the refresh, or others that the networks of
/// the response fit into.
pub proof fn law_promoted_refresh_is_used<'a, C: HttpClient>(
    url: Seq<char>,
    response: HttpResponse,
    max_bytes: usize,
    limits: RemoteFeedLimits,
    update: RemoteUpdate,
    metadata_bytes: Seq<u8>,
    given: Seq<GenerationFile<'a>>,
    files: Seq<GenerationFile<'a>>,
    events: Seq<StagingEvent>,
    stores: Seq<StoreModel>,
    staged: StagedGeneration,
    after: StoreModel,
    parse: spec_fn(Seq<u8>) -> Option<GenerationManifest>,
    read: spec_fn(Seq<char>, Option<DirectoryModel>) -> StoredGeneration,
    later: RemoteFeedLimits,
    iplist_path: Seq<char>,
    legacy: (LegacyIplist, Option<RemoteCacheMetadata>),
    cache: Result<LoadedRemoteCache, HttpCacheError>,
    client: &C,
    later_max_bytes: usize,
    failure: HttpClientError,
    refresh: RemoteRefresh,
)
    requires
        rejection(response, max_bytes, limits) is None,
        update_of(url, response, update),
        trim(url).len() > 0,
        forall|i: int|
            0 <= i < update.networks@.len() ==> model_valid((#[trigger] update.networks@[i])@),
        is_member_list(given, update.raw@, encode_utf8(update.iplist@), metadata_bytes),
        stably_sorted(given, files),
        planned(files, staged.generation_id@),
        stages(files, staged.generation_id@, events, stores),
        reached_step(files.len(), events) is Finished,
        !stores[0].generations.contains_key(staged.generation_id@) || damaged(
            stores[0],
            files,
            staged.generation_id@,
        ),
        generation_id_text(staged.generation_id@),
        staged.previous matches Some(old) ==> generation_id_text(old@) && old@
            != staged.generation_id@,
        promoted_store(parse, stores.last(), staged, after),
        ({
            let directory = stores.last().generations[staged.generation_id@];
            let stored = read(staged.generation_id@, Some(directory));
            &&& stored.candidate.id@ == staged.generation_id@
            &&& read_from(directory, update, stored.reading)
            &&& decodes_metadata(metadata_bytes, update, stored.reading)
        }),
        later == limits || (update.networks@.len() <= later.data_lines && update.networks@.len()
            <= later.unique_cidrs),
        cache_rule(
            url,
            stored_generations(parse, read, after),
            iplist_path,
            legacy,
            later,
            cache,
        ),
        cache matches Ok(found) ==> prepared(
            client,
            url,
            found,
            later_max_bytes,
            later,
            Err::<HttpResponse, HttpClientError>(failure),
            refresh,
        ),
    ensures
        cache matches Ok(found) && {
            &&& found.networks matches Some(list) && list@ == update.networks@
            &&& found.metadata matches Some(metadata) && same_metadata(metadata, update.metadata)
            &&& option_text(found.generation_id) == Some(staged.generation_id@)
        },
        refresh matches RemoteRefresh::Settled(fallback) && {
            &&& fallback.networks@ == update.networks@
            &&& fallback.source == CacheSource::FallbackCache
        },
{
    let id = staged.generation_id@;
    law_staging_repairs(files, id, events, stores);
    law_promoted_generation_is_selected_first(parse, files, events, stores, staged, after);
    let generations = stored_generations(parse, read, after);
    let stored = read(id, Some(stores.last().generations[id]));
    assert(generations[0] == stored);
    let matching = choose|matching: bool| #[trigger]
        contents_match(stored.candidate, stored.reading, matching) && if usable_generation(
            stored,
            matching,
            url,
            later,
        ) {
            cache matches Ok(c) && loaded_from(stored, c)
        } else {
            cache_rule(url, generations.drop_first(), iplist_path, legacy, later, cache)
        };
    law_refresh_repairs_damaged_generation(
        url,
        response,
        max_bytes,
        limits,
        update,
        metadata_bytes,
        given,
        files,
        events,
        stores,
        stored.candidate,
        stored.reading,
        matching,
        update.networks@,
    );
    lemma_repaired_reading(
        update,
        metadata_bytes,
        given,
        files,
        stores.last().generations[id],
        stored.reading,
    );
    let all = lines(utf8_lossy(response.body@));
    lemma_within_limits(all, limits);
    lemma_counts(all);
    lemma_ascending_distinct(update.networks@);
    let list = cache->Ok_0.networks->0@;
    law_written_list_reads_back(update.networks@, later, list);
    assert(usable_generation(stored, matching, url, later));
    let found = cache->Ok_0;
    let fetched = choose|fetched: ConditionalFetchResult| #[trigger]
        fetch_rule(
            client,
            url,
            later_max_bytes,
            found.networks is Some,
            Err::<HttpResponse, HttpClientError>(failure),
            fetched,
        ) && refresh_rule(url, fetched, found, later_max_bytes, later, refresh);
    assert(fallback_of(found, refresh->Settled_0));
}

} // verus!
