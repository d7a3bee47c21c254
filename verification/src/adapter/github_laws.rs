//! What the GitHub metadata cache gives back.

use crate::adapter::cache_generation::{generation_text, GenerationFile};
use crate::adapter::github_categories::{
    law_recorded_scope_is_compatible, mode_categories, selected_categories, selection_of,
    CategorySelection,
};
use crate::adapter::github_meta::{
    complete_cache, files_rule, github_contents_match, github_update_of, is_github_member_list,
    GithubMetaCache, GithubUpdate, StoredGithubGeneration, GENERATION_CATEGORY_FILE,
    GENERATION_META_FILE, GENERATION_RAW_FILE,
};
use crate::adapter::http_fetch::HttpResponse;
use crate::adapter::json_tree::{extraction, json_parse, lists_network, selection_holds, JsonModel};
use crate::adapter::remote_laws::{file_views, law_identifier_of_contents};
use crate::ordering::stably_sorted;
use crate::policy::cidr_order::{lemma_sorted_distinct_unique, sorted_distinct};
use crate::policy::cidr_text::lemma_model_injective;
use crate::policy::config::CategoryModel;
use crate::policy::network_types::CanonicalCidr;
use crate::text::views;
use vstd::prelude::*;

verus! {

/// What was read of a generation is what an update wrote.
pub open spec fn read_as_persisted(
    update: GithubUpdate,
    category_bytes: Seq<u8>,
    metadata_bytes: Seq<u8>,
    stored: StoredGithubGeneration,
) -> bool {
    &&& stored.reading.raw matches Some(raw) && raw@ == update.raw@
    &&& stored.category_bytes matches Some(bytes) && bytes@ == category_bytes
    &&& stored.metadata_bytes matches Some(bytes) && bytes@ == metadata_bytes
    &&& stored.reading.metadata matches Some(metadata) && metadata.url@ == update.metadata.url@
        && metadata.sha256_raw@ == update.metadata.sha256_raw@
    &&& stored.reading.sidecar matches Some(record) && record.mode@ == update.sidecar.mode@
        && views(record.categories@) == views(update.sidecar.categories@)
}

/// The networks of a selected part of a document are determined by it.
pub proof fn law_extraction_is_determined(
    model: JsonModel,
    selected: Option<Seq<Seq<char>>>,
    a: Option<Vec<CanonicalCidr>>,
    b: Option<Vec<CanonicalCidr>>,
)
    requires
        extraction(model, selected, a),
        extraction(model, selected, b),
    ensures
        a is Some <==> b is Some,
        a matches Some(x) ==> b matches Some(y) && x@ == y@,
{
    if let Some(x) = a {
        if let Some(y) = b {
            assert forall|c: CanonicalCidr| x@.contains(c) == #[trigger] y@.contains(c) by {
                assert(lists_network(x@, c@) <==> lists_network(y@, c@)) by {
                    assert(lists_network(x@, c@) <==> selection_holds(model, selected, c@));
                }
                lemma_listed(x@, c);
                lemma_listed(y@, c);
            }
            assert(sorted_distinct(x@, x@));
            assert(sorted_distinct(x@, y@));
            lemma_sorted_distinct_unique(x@, x@, y@);
        }
    }
}

/// A network is listed where it is a member.
proof fn lemma_listed(networks: Seq<CanonicalCidr>, cidr: CanonicalCidr)
    ensures
        lists_network(networks, cidr@) <==> networks.contains(cidr),
{
    if lists_network(networks, cidr@) {
        let i = choose|i: int| 0 <= i < networks.len() && (#[trigger] networks[i])@ == cidr@;
        lemma_model_injective(networks[i], cidr);
    }
    if networks.contains(cidr) {
        let i = choose|i: int| 0 <= i < networks.len() && networks[i] == cidr;
        assert(networks[i]@ == cidr@);
    }
}

/// What the cache of the GitHub endpoint gives back is what was written to it: a response that was
/// taken, and whose generation is read as it was written, is found under the identifier that it
/// was staged with, and is complete for the endpoint and the selection that it was fetched for,
/// with the networks of the response.
pub proof fn law_persisted_update_reads_back<'a>(
    url: Seq<char>,
    mode: CategoryModel,
    selection: CategorySelection,
    response: HttpResponse,
    previous: Option<String>,
    update: GithubUpdate,
    category_bytes: Seq<u8>,
    metadata_bytes: Seq<u8>,
    files: Seq<GenerationFile<'a>>,
    ordered: Seq<GenerationFile<'a>>,
    stored: StoredGithubGeneration,
    matching: bool,
    cache: GithubMetaCache,
)
    requires
        selection_of(mode, selection),
        github_update_of(url, response, selection, previous, update),
        is_github_member_list(files, update.raw@, category_bytes, metadata_bytes),
        stably_sorted(files, ordered),
        stored.candidate.id@ == generation_text(ordered),
        read_as_persisted(update, category_bytes, metadata_bytes, stored),
        github_contents_match(stored, matching),
        files_rule(stored.reading, selection, url, true, cache),
    ensures
        matching,
        complete_cache(cache),
        cache.networks->0@ == update.networks@,
{
    let (seen, sorted) = choose|
        seen: Seq<GenerationFile<'static>>,
        sorted: Seq<GenerationFile<'static>>,
    | #[trigger]
        stably_sorted(seen, sorted) && is_github_member_list(
            seen,
            stored.reading.raw->0@,
            category_bytes,
            metadata_bytes,
        ) && matching == (generation_text(sorted) == stored.candidate.id@);
    assert(file_views(files) =~= file_views(seen));
    reveal_strlit("raw.json");
    reveal_strlit("meta.json");
    reveal_strlit("categories.json");
    assert(GENERATION_RAW_FILE@.len() == 8);
    assert(GENERATION_META_FILE@.len() == 9);
    assert(GENERATION_CATEGORY_FILE@.len() == 15);
    law_identifier_of_contents(files, ordered, seen, sorted);
    let record = stored.reading.sidecar->0;
    match mode_categories(mode) {
        Some(values) => {
            law_recorded_scope_is_compatible(values, selection, record);
        },
        None => {},
    }
    let raw = stored.reading.raw->0@;
    assert(raw == response.body@);
    match json_parse(raw) {
        Some(model) => {
            law_extraction_is_determined(
                model,
                selected_categories(selection),
                Some(update.networks),
                cache.networks,
            );
        },
        None => {},
    }
}

} // verus!
