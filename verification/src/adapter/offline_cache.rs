//! Cached feeds read without network access.

use crate::adapter::http_cache::{
    contents_match, generation_agrees, is_url_hash, read_validated_remote_generation,
    remote_generation_contents_match, url_hash_text, StoredGeneration, GENERATION_IPLIST_FILE,
};
use crate::ordering::{reversed, sort_stable, stably_sorted, Ranked};
use crate::text::{
    lemma_text_le_total, lemma_text_le_transitive, text_le, text_le_str, trim, trimmed,
};
use crate::workflow::paths::path_join;
use vstd::prelude::*;

verus! {

/// A feed that the cache holds.
#[derive(Debug, Clone, PartialEq, Eq)]
pub struct OfflineRemoteGeneration {
    /// Cache key of the feed.
    pub url_hash: String,
    /// Path of the normalized list.
    pub iplist_path: String,
    /// URL of the feed.
    pub label: String,
    /// The normalized list.
    pub iplist: String,
}

/// One entry of the directory of feed stores.
#[derive(Debug, Clone, PartialEq, Eq)]
pub struct RemoteStoreReading {
    /// Name of the entry.
    pub name: String,
    /// The entry is a directory.
    pub is_directory: bool,
    /// Selected generations of the store and what was read of them.
    pub generations: Vec<StoredGeneration>,
}

impl Ranked for RemoteStoreReading {
    open spec fn ranked_le(self, other: RemoteStoreReading) -> bool {
        text_le(self.name@, other.name@)
    }

    proof fn lemma_ranked_total(a: RemoteStoreReading, b: RemoteStoreReading) {
        lemma_text_le_total(a.name@, b.name@);
    }

    proof fn lemma_ranked_transitive(
        a: RemoteStoreReading,
        b: RemoteStoreReading,
        c: RemoteStoreReading,
    ) {
        lemma_text_le_transitive(a.name@, b.name@, c.name@);
    }

    fn precedes(&self, other: &RemoteStoreReading) -> (before: bool) {
        text_le_str(self.name.as_str(), other.name.as_str())
    }
}

/// The entry is the store of a feed.
pub open spec fn is_store(store: RemoteStoreReading) -> bool {
    store.is_directory && url_hash_text(store.name@)
}

/// What an accepted generation gives.
pub open spec fn offline_of(
    name: Seq<char>,
    stored: StoredGeneration,
    generation: OfflineRemoteGeneration,
) -> bool {
    &&& generation.url_hash@ == name
    &&& generation.iplist_path@ == path_join(stored.candidate.directory@, GENERATION_IPLIST_FILE@)
    &&& stored.reading.metadata matches Some(metadata) && generation.label@ == trim(metadata.url@)
    &&& stored.reading.iplist == Some(generation.iplist)
}

/// The feed of a store: its first generation whose files are in order.
pub open spec fn store_rule(
    name: Seq<char>,
    generations: Seq<StoredGeneration>,
    found: Option<OfflineRemoteGeneration>,
) -> bool
    decreases generations.len(),
{
    if generations.len() == 0 {
        found is None
    } else {
        let first = generations[0];
        exists|matching: bool| #[trigger]
            contents_match(first.candidate, first.reading, matching) && if matching
                && generation_agrees(first.reading, None) {
                found matches Some(generation) && offline_of(name, first, generation)
            } else {
                store_rule(name, generations.drop_first(), found)
            }
    }
}

/// Finds the feed of a store.
pub fn offline_remote_generation(name: &String, generations: Vec<StoredGeneration>) -> (found: Option<
    OfflineRemoteGeneration,
>)
    ensures
        store_rule(name@, generations@, found),
    decreases generations@.len(),
{
    let mut rest: Vec<StoredGeneration> = generations;
    if rest.len() == 0 {
        return None;
    }
    let ghost all = rest@;
    let first: StoredGeneration = rest.remove(0);
    assert(rest@ =~= all.drop_first());
    let ghost given = first;
    let matching: bool = remote_generation_contents_match(&first.candidate, &first.reading);
    assert(contents_match(given.candidate, given.reading, matching));
    if matching {
        if let Some(generation) = read_validated_remote_generation(
            first.candidate.directory.as_str(),
            None,
            first.reading,
        ) {
            return Some(
                OfflineRemoteGeneration {
                    url_hash: name.clone(),
                    iplist_path: generation.iplist_path,
                    label: trimmed(generation.metadata.url.as_str()),
                    iplist: generation.iplist,
                },
            );
        }
    }
    offline_remote_generation(name, rest)
}

/// Feeds of the stores, in order.
pub open spec fn collected(
    stores: Seq<RemoteStoreReading>,
    generations: Seq<OfflineRemoteGeneration>,
) -> bool
    decreases stores.len(),
{
    if stores.len() == 0 {
        generations.len() == 0
    } else if !is_store(stores.last()) {
        collected(stores.drop_last(), generations)
    } else {
        ||| store_rule(stores.last().name@, stores.last().generations@, None) && collected(
            stores.drop_last(),
            generations,
        )
        ||| generations.len() > 0 && store_rule(
            stores.last().name@,
            stores.last().generations@,
            Some(generations.last()),
        ) && collected(stores.drop_last(), generations.drop_last())
    }
}

/// Collects the feeds that the stores hold, in the order of their cache keys.
pub fn collect_offline_remote_generations(entries: Vec<RemoteStoreReading>) -> (generations: Vec<
    OfflineRemoteGeneration,
>)
    ensures
        exists|ordered: Seq<RemoteStoreReading>| #[trigger]
            stably_sorted(entries@, ordered) && collected(ordered, generations@),
{
    let ghost given = entries@;
    let sorted: Vec<RemoteStoreReading> = sort_stable(entries);
    let ghost ordered = sorted@;
    assert(stably_sorted(given, ordered));
    let mut generations: Vec<OfflineRemoteGeneration> = Vec::new();
    let mut rest: Vec<RemoteStoreReading> = reversed(sorted);
    let ghost mut i: int = 0;
    assert(ordered.take(0) =~= Seq::<RemoteStoreReading>::empty());
    assert(ordered.skip(0) =~= ordered);
    assert(rest@ =~= ordered.reverse());
    while rest.len() > 0
        invariant
            0 <= i,
            i + rest@.len() == ordered.len(),
            rest@ == ordered.skip(i).reverse(),
            collected(ordered.take(i), generations@),
        decreases rest@.len(),
    {
        let ghost before = generations@;
        let store: RemoteStoreReading = rest.pop().unwrap();
        let ghost current = store;
        proof {
            assert(current == ordered[i]);
            assert(rest@ =~= ordered.skip(i + 1).reverse());
            assert(ordered.take(i + 1).drop_last() =~= ordered.take(i));
            assert(ordered.take(i + 1).last() == current);
        }
        if store.is_directory && is_url_hash(store.name.as_str()) {
            match offline_remote_generation(&store.name, store.generations) {
                Some(generation) => {
                    generations.push(generation);
                    assert(generations@.drop_last() =~= before);
                },
                None => {},
            }
        }
        proof {
            i = i + 1;
        }
    }
    assert(ordered.take(i) =~= ordered);
    generations
}

} // verus!
