//! What GitHub metadata gives.

use crate::adapter::cache_generation::option_text;
use crate::adapter::cache_staging::StagedGeneration;
use crate::adapter::digest::sha256_text;
use crate::adapter::github_categories::{
    normalizes, scope_compatible, selection_of, CategorySelection, GithubMetaCategorySidecar,
};
use crate::adapter::github_meta::{
    body_networks, complete_cache, files_rule, github_cache_rule, github_contents_match,
    github_refresh_rule, github_staging_rule, github_verdict_rule, incomplete, GithubMetaCache,
    GithubMetaLoadError, GithubMetaSource, GithubReading, GithubRefresh, GithubRejection,
    GithubUpdate, PreparedGithubMeta, StoredGithubGeneration,
};
use crate::adapter::http_fetch::{ConditionalFetchResult, HttpResponse};
use crate::adapter::json_tree::{
    empty_tree, extraction, has_key, holds_network, lemma_array, lemma_object, lists_network,
    selection_empty, selection_holds, JsonModel,
};
use crate::policy::cidr_text::{lemma_bare_text, models, parse_non_strict, CidrModel};
use crate::policy::config::CategoryModel;
use crate::policy::network_types::CanonicalCidr;
use crate::text::{lower, trim, views};
use vstd::prelude::*;

verus! {

// Documents -------------------------------------------------------------------------------------

/// A document holds the networks that its texts start with, at any depth, in arrays and under
/// whatever key, and no other; numbers and the like hold none.
pub proof fn law_document_holds_the_networks_of_its_texts(
    text: Seq<char>,
    items: Seq<JsonModel>,
    entries: Seq<(Seq<char>, JsonModel)>,
    key: Seq<char>,
    child: JsonModel,
    network: CidrModel,
)
    ensures
        holds_network(JsonModel::Text(text), network) <==> parse_non_strict(text) == Some(network),
        !holds_network(JsonModel::Array(Seq::empty()), network),
        !holds_network(JsonModel::Object(Seq::empty()), network),
        !holds_network(JsonModel::Scalar, network),
        holds_network(JsonModel::Array(items.push(child)), network) <==> holds_network(
            JsonModel::Array(items),
            network,
        ) || holds_network(child, network),
        holds_network(JsonModel::Object(entries.push((key, child))), network) <==> holds_network(
            JsonModel::Object(entries),
            network,
        ) || holds_network(child, network),
{
    let more = items.push(child);
    lemma_array(items);
    lemma_array(more);
    lemma_array(Seq::empty());
    lemma_object(entries);
    lemma_object(entries.push((key, child)));
    lemma_object(Seq::empty());
    if holds_network(JsonModel::Array(more), network) {
        let i = choose|i: int| 0 <= i < more.len() && holds_network(#[trigger] more[i], network);
        if i < items.len() {
            assert(holds_network(items[i], network));
        }
    }
    if holds_network(JsonModel::Array(items), network) {
        let i = choose|i: int| 0 <= i < items.len() && holds_network(#[trigger] items[i], network);
        assert(holds_network(more[i], network));
    }
    if holds_network(child, network) {
        assert(holds_network(more[items.len() as int], network));
    }
    let wider = entries.push((key, child));
    if holds_network(JsonModel::Object(wider), network) {
        let i = choose|i: int|
            0 <= i < wider.len() && holds_network((#[trigger] wider[i]).1, network);
        if i < entries.len() {
            assert(holds_network(entries[i].1, network));
        }
    }
    if holds_network(JsonModel::Object(entries), network) {
        let i = choose|i: int|
            0 <= i < entries.len() && holds_network((#[trigger] entries[i]).1, network);
        assert(holds_network(wider[i].1, network));
    }
    if holds_network(child, network) {
        assert(holds_network(wider[entries.len() as int].1, network));
    }
}

/// A document is empty when it is made of arrays and objects alone.
pub proof fn law_documents_of_empty_lists_are_empty(
    text: Seq<char>,
    items: Seq<JsonModel>,
    entries: Seq<(Seq<char>, JsonModel)>,
    key: Seq<char>,
    child: JsonModel,
)
    ensures
        !empty_tree(JsonModel::Text(text)),
        !empty_tree(JsonModel::Scalar),
        empty_tree(JsonModel::Array(Seq::empty())),
        empty_tree(JsonModel::Object(Seq::empty())),
        empty_tree(JsonModel::Array(items.push(child))) <==> empty_tree(JsonModel::Array(items))
            && empty_tree(child),
        empty_tree(JsonModel::Object(entries.push((key, child)))) <==> empty_tree(
            JsonModel::Object(entries),
        ) && empty_tree(child),
{
    let more = items.push(child);
    lemma_array(items);
    lemma_array(more);
    lemma_array(Seq::empty());
    lemma_object(entries);
    lemma_object(entries.push((key, child)));
    lemma_object(Seq::empty());
    if empty_tree(JsonModel::Array(more)) {
        assert(empty_tree(more[items.len() as int]));
        assert forall|i: int| 0 <= i < items.len() implies empty_tree(#[trigger] items[i]) by {
            assert(empty_tree(more[i]));
        }
    }
    if empty_tree(JsonModel::Array(items)) && empty_tree(child) {
        assert forall|i: int| 0 <= i < more.len() implies empty_tree(#[trigger] more[i]) by {
            if i < items.len() {
                assert(empty_tree(items[i]));
            }
        }
    }
    let wider = entries.push((key, child));
    if empty_tree(JsonModel::Object(wider)) {
        assert(empty_tree(wider[entries.len() as int].1));
        assert forall|i: int| 0 <= i < entries.len() implies empty_tree(
            (#[trigger] entries[i]).1,
        ) by {
            assert(empty_tree(wider[i].1));
        }
    }
    if empty_tree(JsonModel::Object(entries)) && empty_tree(child) {
        assert forall|i: int| 0 <= i < wider.len() implies empty_tree((#[trigger] wider[i]).1) by {
            if i < entries.len() {
                assert(empty_tree(entries[i].1));
            }
        }
    }
}

/// The document holds the network under one of the keys.
pub open spec fn holds_under(
    entries: Seq<(Seq<char>, JsonModel)>,
    keys: Seq<Seq<char>>,
    network: CidrModel,
) -> bool {
    exists|i: int|
        0 <= i < entries.len() && keys.contains((#[trigger] entries[i]).0) && holds_network(
            entries[i].1,
            network,
        )
}

/// One of the entries has the key.
pub open spec fn names(entries: Seq<(Seq<char>, JsonModel)>, key: Seq<char>) -> bool {
    exists|i: int| 0 <= i < entries.len() && (#[trigger] entries[i]).0 == key
}

/// Of a document in which every selected category is present, exactly the networks under the
/// selected categories are taken, and all of its networks where no category is selected. A
/// document without one of them gives nothing, and so does one that names no network there unless
/// it is empty there.
pub proof fn law_extraction_takes_the_selected_categories(
    model: JsonModel,
    selected: Option<Seq<Seq<char>>>,
    outcome: Option<Vec<CanonicalCidr>>,
    network: CidrModel,
)
    requires
        extraction(model, selected, outcome),
    ensures
        selected is None && outcome is Some ==> (models(outcome->0@).contains(network)
            <==> holds_network(model, network)),
        selected is Some && outcome is Some ==> model is Object && (models(
            outcome->0@,
        ).contains(network) <==> holds_under(model->Object_0, selected->0, network)),
        selected is Some && outcome is Some ==> forall|k: int|
            0 <= k < selected->0.len() ==> names(model->Object_0, #[trigger] selected->0[k]),
        selected is None && holds_network(model, network) ==> outcome is Some,
        selected is Some && model is Object && holds_under(model->Object_0, selected->0, network)
            && (forall|k: int|
            0 <= k < selected->0.len() ==> names(model->Object_0, #[trigger] selected->0[k]))
            ==> outcome is Some,
        selected is None && empty_tree(model) ==> outcome is Some,
        outcome is Some ==> outcome->0@.len() > 0 || selection_empty(model, selected),
{
    if holds_network(model, network) && selected is None {
        assert(selection_holds(model, selected, network));
    }
    if selected is Some && model is Object && holds_under(model->Object_0, selected->0, network) {
        assert(selection_holds(model, selected, network));
        if forall|k: int|
            0 <= k < selected->0.len() ==> names(model->Object_0, #[trigger] selected->0[k]) {
            assert forall|k: int| 0 <= k < selected->0.len() implies has_key(
                model->Object_0,
                #[trigger] selected->0[k],
            ) by {
                assert(names(model->Object_0, selected->0[k]));
            }
        }
    }
    if let Some(networks) = outcome {
        assert(lists_network(networks@, network) <==> selection_holds(model, selected, network));
        let listed = models(networks@);
        if listed.contains(network) {
            let k = choose|k: int| 0 <= k < listed.len() && listed[k] == network;
            assert(networks@[k]@ == network);
        }
        if lists_network(networks@, network) {
            let k = choose|k: int| 0 <= k < networks@.len() && (#[trigger] networks@[k])@ == network;
            assert(listed[k] == network);
        }
        if networks@.len() == 0 && !selection_empty(model, selected) {
            let some = choose|some: CidrModel| #[trigger] selection_holds(model, selected, some);
            assert(lists_network(networks@, some));
        }
        if selected is Some {
            assert forall|k: int| 0 <= k < selected->0.len() implies names(
                model->Object_0,
                #[trigger] selected->0[k],
            ) by {
                assert(has_key(model->Object_0, selected->0[k]));
            }
        }
    }
}

// Categories ------------------------------------------------------------------------------------

/// The selection is everything where all categories are asked for, the four of the default where
/// none is named, and the named ones in lower case, without white space around them and without
/// blank ones, where some are.
pub proof fn law_categories_are_selected_by_name(
    mode: CategoryModel,
    selection: CategorySelection,
    text: Seq<char>,
)
    requires
        selection_of(mode, selection),
    ensures
        selection is All <==> mode is All,
        mode is Default ==> (views(selection->Selected_0@).contains(text) <==> text == "api"@
            || text == "git"@ || text == "hooks"@ || text == "packages"@),
        mode matches CategoryModel::Explicit(values) ==> (views(selection->Selected_0@).contains(
            text,
        ) <==> text.len() > 0 && exists|i: int|
            0 <= i < values.len() && lower(trim(#[trigger] values[i])) == text),
{
    if mode is Default {
        let values = seq!["api"@, "git"@, "hooks"@, "packages"@];
        assert(views(selection->Selected_0@).contains(text) <==> normalizes(values, text));
        lemma_plain_word_api();
        assert(lower(trim(values[0])) == "api"@);
        assert(lower(trim(values[1])) == "git"@);
        assert(lower(trim(values[2])) == "hooks"@);
        assert(lower(trim(values[3])) == "packages"@);
    }
    if let CategoryModel::Explicit(values) = mode {
        assert(views(selection->Selected_0@).contains(text) <==> normalizes(values, text));
    }
}

proof fn lemma_plain_word(word: Seq<char>)
    requires
        word.len() > 0,
        forall|i: int| 0 <= i < word.len() ==> 'a' <= #[trigger] word[i] <= 'z',
    ensures
        lower(trim(word)) == word,
{
    lemma_bare_text(word);
    assert(lower(word) =~= word);
}

proof fn lemma_plain_word_api()
    ensures
        lower(trim("api"@)) == "api"@,
        lower(trim("git"@)) == "git"@,
        lower(trim("hooks"@)) == "hooks"@,
        lower(trim("packages"@)) == "packages"@,
        "api"@.len() > 0,
        "git"@.len() > 0,
        "hooks"@.len() > 0,
        "packages"@.len() > 0,
{
    reveal_strlit("api");
    reveal_strlit("git");
    reveal_strlit("hooks");
    reveal_strlit("packages");
    lemma_plain_word("api"@);
    lemma_plain_word("git"@);
    lemma_plain_word("hooks"@);
    lemma_plain_word("packages"@);
}

/// A cache may be used for everything whatever it was fetched for, and for some categories exactly
/// when it was fetched for the same ones.
pub proof fn law_cache_serves_the_categories_it_was_fetched_for(
    selection: CategorySelection,
    sidecar: Option<GithubMetaCategorySidecar>,
    text: Seq<char>,
)
    ensures
        selection is All ==> scope_compatible(selection, sidecar),
        selection matches CategorySelection::Selected(categories) && scope_compatible(
            selection,
            sidecar,
        ) ==> sidecar is Some && sidecar->0.mode@ == "selected"@ && (views(
            selection->Selected_0@,
        ).contains(text) <==> normalizes(views(sidecar->0.categories@), text)),
        selection is Selected && sidecar is None ==> !scope_compatible(selection, sidecar),
{
}

// Cached data -----------------------------------------------------------------------------------

/// Cached files are used exactly when they belong to the address, have their checksum, were fetched
/// for the selection and give networks for it; files of another address are not used at all.
pub proof fn law_cached_files_are_used_for_their_address(
    reading: GithubReading,
    selection: CategorySelection,
    url: Seq<char>,
    require_metadata: bool,
    cache: GithubMetaCache,
)
    requires
        files_rule(reading, selection, url, require_metadata, cache),
    ensures
        cache.networks is Some ==> {
            &&& reading.raw is Some
            &&& reading.metadata matches Some(meta) ==> trim(meta.url@) == trim(url)
                && sha256_text(reading.raw->0@) == meta.sha256_raw@
            &&& reading.metadata is None ==> !require_metadata && url
                == "https://api.github.com/meta"@
            &&& scope_compatible(selection, reading.sidecar)
            &&& body_networks(reading.raw->0@, selection, cache.networks)
        },
        reading.metadata matches Some(meta) && trim(meta.url@) != trim(url)
            ==> cache.networks is None && cache.raw is None && cache.meta is None,
        cache.networks is None && cache.raw is Some && scope_compatible(selection, reading.sidecar)
            ==> body_networks(cache.raw->0@, selection, None),
        reading.raw is Some && (reading.metadata matches Some(meta) && trim(meta.url@) == trim(url)
            && sha256_text(reading.raw->0@) == meta.sha256_raw@) ==> cache.raw == reading.raw
            && cache.meta == reading.metadata && cache.sidecar == reading.sidecar,
        reading.raw is Some && reading.metadata is None && !require_metadata && url
            == "https://api.github.com/meta"@ ==> cache.raw == reading.raw && cache.sidecar
            == reading.sidecar,
{
}

/// The cache of an endpoint is the first generation that has the contents that it is identified by
/// and is complete for the selection; where there is none, it is what the older files give.
pub proof fn law_github_cache_reads_the_first_complete_generation(
    generations: Seq<StoredGithubGeneration>,
    legacy: GithubReading,
    selection: CategorySelection,
    url: Seq<char>,
    cache: GithubMetaCache,
) -> (k: int)
    requires
        github_cache_rule(generations, legacy, selection, url, cache),
    ensures
        0 <= k <= generations.len(),
        forall|i: int|
            0 <= i < k ==> github_contents_match(#[trigger] generations[i], false) || incomplete(
                generations[i],
                selection,
                url,
            ),
        k == generations.len() ==> files_rule(legacy, selection, url, false, cache),
        k < generations.len() ==> {
            &&& github_contents_match(generations[k], true)
            &&& cache.generation_id is Some && cache.generation_id->0@
                == generations[k].candidate.id@
            &&& cache.raw is Some && cache.networks is Some
            &&& cache.raw == generations[k].reading.raw
            &&& cache.meta == generations[k].reading.metadata
            &&& body_networks(cache.raw->0@, selection, cache.networks)
        },
    decreases generations.len(),
{
    if generations.len() == 0 {
        0
    } else if github_contents_match(generations[0], true) && complete_cache(cache)
        && option_text(cache.generation_id) == Some(generations[0].candidate.id@) && files_rule(
        generations[0].reading,
        selection,
        url,
        true,
        GithubMetaCache { generation_id: None, ..cache },
    ) {
        0
    } else {
        let rest = generations.drop_first();
        let k = law_github_cache_reads_the_first_complete_generation(
            rest,
            legacy,
            selection,
            url,
            cache,
        );
        assert forall|i: int| 0 <= i < k + 1 implies github_contents_match(
            #[trigger] generations[i],
            false,
        ) || incomplete(generations[i], selection, url) by {
            if i > 0 {
                assert(generations[i] == rest[i - 1]);
            }
        }
        k + 1
    }
}

// Responses -------------------------------------------------------------------------------------

/// A response is accepted exactly when its status is one of success, its body is within the limit
/// and it gives networks for the selection; it is then kept with its bytes, validators and scope.
pub proof fn law_github_response_is_accepted_for_its_networks(
    url: Seq<char>,
    response: HttpResponse,
    max_bytes: usize,
    selection: CategorySelection,
    verdict: Result<GithubUpdate, GithubRejection>,
)
    requires
        github_verdict_rule(url, response, max_bytes, selection, verdict),
    ensures
        verdict is Ok ==> 200 <= response.status <= 299 && response.body@.len() <= max_bytes
            && body_networks(response.body@, selection, Some(verdict->Ok_0.networks))
            && verdict->Ok_0.raw@ == response.body@ && verdict->Ok_0.metadata.url@ == url
            && verdict->Ok_0.metadata.etag == response.etag && verdict->Ok_0.metadata.last_modified
            == response.last_modified,
        verdict == Err::<GithubUpdate, GithubRejection>(GithubRejection::Status(response.status))
            <==> !(200 <= response.status <= 299),
        verdict == Err::<GithubUpdate, GithubRejection>(GithubRejection::TooLarge) <==> 200
            <= response.status <= 299 && response.body@.len() > max_bytes,
        verdict == Err::<GithubUpdate, GithubRejection>(GithubRejection::Invalid)
            ==> body_networks(response.body@, selection, None),
{
}

/// Whatever becomes of a refresh, usable cached networks are not lost: one that brings nothing
/// usable settles on them, and only a response that is accepted replaces them.
pub proof fn law_github_refresh_keeps_cached_networks(
    url: Seq<char>,
    fetched: ConditionalFetchResult,
    cache: GithubMetaCache,
    max_bytes: usize,
    selection: CategorySelection,
    refresh: GithubRefresh,
)
    requires
        github_refresh_rule(url, fetched, cache, max_bytes, selection, refresh),
    ensures
        refresh is Persist ==> fetched is Network && 200 <= fetched->Network_0.status <= 299
            && fetched->Network_0.body@.len() <= max_bytes && body_networks(
            fetched->Network_0.body@,
            selection,
            Some(refresh->Persist_0.networks),
        ) && refresh->Persist_0.previous_generation == cache.generation_id,
        refresh matches GithubRefresh::Settled(result) ==> {
            &&& fetched is Network ==> !(200 <= fetched->Network_0.status <= 299)
                || fetched->Network_0.body@.len() > max_bytes || body_networks(
                fetched->Network_0.body@,
                selection,
                None,
            )
            &&& cache.networks is Some && cache.raw is Some && scope_compatible(
                selection,
                cache.sidecar,
            ) ==> result.networks@ == cache.networks->0@ && result.metadata == cache.meta
                && result.source == if fetched is CacheNotModified {
                GithubMetaSource::CacheNotModified
            } else {
                GithubMetaSource::FallbackCache
            }
            &&& cache.networks is None && cache.raw is None ==> result.networks@.len() == 0
                && result.source == GithubMetaSource::Empty
        },
{
}

/// An update whose files were staged comes first, with other cached networks behind it as a
/// fallback; where they could not be staged the cached networks stand in, with the failure kept,
/// and without any the failure stands.
pub proof fn law_staged_github_update_comes_first(
    networks: Seq<CanonicalCidr>,
    cached: Option<Vec<CanonicalCidr>>,
    staged: Result<StagedGeneration, GithubMetaLoadError>,
    prepared: Result<PreparedGithubMeta, GithubMetaLoadError>,
)
    requires
        github_staging_rule(networks, cached, staged, prepared),
    ensures
        prepared is Err <==> staged is Err && cached is None,
        staged is Ok ==> prepared->Ok_0.primary@ == networks && prepared->Ok_0.staged == Some(
            staged->Ok_0,
        ) && prepared->Ok_0.staging_failure is None,
        staged is Ok ==> (prepared->Ok_0.fallback is Some <==> cached is Some && cached->0@
            != networks),
        staged is Ok && prepared->Ok_0.fallback is Some ==> prepared->Ok_0.fallback->0@
            == cached->0@,
        staged is Err && cached is Some ==> prepared->Ok_0.primary@ == cached->0@
            && prepared->Ok_0.fallback is None && prepared->Ok_0.staged is None
            && prepared->Ok_0.staging_failure == Some(staged->Err_0),
{
}

} // verus!
