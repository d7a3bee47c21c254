//! What the offline sources contribute to a lookup.

use crate::adapter::cached_sources::{
    entry_views, gathers, generation_source, generation_sources, legacy_source, legacy_sources,
    line_entries, source_views, sources_rule, superseded, CachedRemoteSource, LegacySourceFile,
    SourceModel,
};
use crate::adapter::errors::SourceLoadError;
use crate::adapter::lookup_sources::{
    asn_answers, asn_shapes, blocklist_rule, canonical_shapes, entry_shapes, labelled_shapes,
    provides, remote_rule, selected_mode, source_shapes, BlocklistReading, BuiltinLookupProvider,
    EntryShape, OfflineFiles,
};
use crate::adapter::offline_cache::OfflineRemoteGeneration;
use crate::numerals::decimal;
use crate::ordering::stably_sorted;
use crate::policy::cidr_text::{cidr_text, parse_non_strict, CidrModel};
use crate::policy::config::{CategoryModel, Config, GithubMetaCategoryMode};
use crate::policy::lookup::LookupSourceEntry;
use crate::policy::network_types::CanonicalCidr;
use crate::text::{first_word, lines, trim, views};
use crate::workflow::error::AppError;
use crate::workflow::paths::{path_join, ResolvedPaths};
use vstd::prelude::*;

verus! {

// Lines -----------------------------------------------------------------------------------------

/// One of the lines starts with the word, which reads as the network.
pub open spec fn some_line_reads(
    all: Seq<Seq<char>>,
    model: CidrModel,
    word: Seq<char>,
) -> bool {
    exists|i: int|
        0 <= i < all.len() && parse_non_strict(#[trigger] all[i]) == Some(model) && first_word(
            all[i],
        ) == word
}

proof fn lemma_line_entries(all: Seq<Seq<char>>, model: CidrModel, word: Seq<char>)
    ensures
        line_entries(all).contains((model, word)) <==> some_line_reads(all, model, word),
    decreases all.len(),
{
    if all.len() > 0 {
        let front = all.drop_last();
        let before = line_entries(front);
        let now = line_entries(all);
        lemma_line_entries(front, model, word);
        if now.contains((model, word)) {
            let k = choose|k: int| 0 <= k < now.len() && now[k] == (model, word);
            if k < before.len() {
                assert(before[k] == (model, word));
                let i = choose|i: int|
                    0 <= i < front.len() && parse_non_strict(#[trigger] front[i]) == Some(model)
                        && first_word(front[i]) == word;
                assert(parse_non_strict(all[i]) == Some(model));
            } else {
                assert(parse_non_strict(all[all.len() - 1]) == Some(model));
            }
        }
        if some_line_reads(all, model, word) {
            let i = choose|i: int|
                0 <= i < all.len() && parse_non_strict(#[trigger] all[i]) == Some(model)
                    && first_word(all[i]) == word;
            if i < front.len() {
                assert(parse_non_strict(front[i]) == Some(model));
                let k = choose|k: int| 0 <= k < before.len() && before[k] == (model, word);
                assert(now[k] == (model, word));
            } else {
                assert(now[now.len() - 1] == (model, word));
            }
        }
    }
}

/// The entries of a text are the first words of its lines that read as networks, with what they
/// read as; other lines give nothing.
pub proof fn law_cached_lines_are_read_by_their_first_word(all: Seq<Seq<char>>)
    ensures
        forall|model: CidrModel, word: Seq<char>| #[trigger]
            line_entries(all).contains((model, word)) <==> some_line_reads(all, model, word),
{
    assert forall|model: CidrModel, word: Seq<char>| #[trigger]
        line_entries(all).contains((model, word)) <==> some_line_reads(all, model, word) by {
        lemma_line_entries(all, model, word);
    }
}

proof fn lemma_labelled(
    label: Seq<char>,
    entries: Seq<(CidrModel, Seq<char>)>,
    shape: EntryShape,
)
    ensures
        labelled_shapes(label, entries).contains(shape) <==> shape.0 == label && entries.contains(
            (shape.2, shape.1),
        ),
{
    let shapes = labelled_shapes(label, entries);
    if shapes.contains(shape) {
        let k = choose|k: int| 0 <= k < shapes.len() && shapes[k] == shape;
        assert(entries[k] == (shape.2, shape.1));
    }
    if shape.0 == label && entries.contains((shape.2, shape.1)) {
        let k = choose|k: int| 0 <= k < entries.len() && entries[k] == (shape.2, shape.1);
        assert(shapes[k] == shape);
    }
}

proof fn lemma_canonical(label: Seq<char>, cidrs: Seq<CanonicalCidr>, shape: EntryShape)
    ensures
        canonical_shapes(label, cidrs).contains(shape) <==> exists|i: int|
            0 <= i < cidrs.len() && shape == (label, cidr_text(cidrs[i]@), (#[trigger] cidrs[i])@),
{
    let shapes = canonical_shapes(label, cidrs);
    if shapes.contains(shape) {
        let k = choose|k: int| 0 <= k < shapes.len() && shapes[k] == shape;
        assert(shape == (label, cidr_text(cidrs[k]@), cidrs[k]@));
    }
    if exists|i: int|
        0 <= i < cidrs.len() && shape == (label, cidr_text(cidrs[i]@), (#[trigger] cidrs[i])@) {
        let i = choose|i: int|
            0 <= i < cidrs.len() && shape == (label, cidr_text(cidrs[i]@), (#[trigger] cidrs[i])@);
        assert(shapes[i] == shape);
    }
}

// Providers -------------------------------------------------------------------------------------

/// The local source gives the entries of the lines of the blocklist under its label, nothing where
/// the file is missing, and fails where it cannot be read.
pub proof fn law_local_lookup_reads_every_line<'a, R: OfflineFiles>(
    provider: BuiltinLookupProvider<'a, R>,
    paths: &ResolvedPaths,
    config: Option<&Config>,
    outcome: Result<Vec<LookupSourceEntry>, AppError>,
) -> (reading: BlocklistReading)
    requires
        provider is LocalBlocklist,
        provides(provider, paths, config, outcome),
    ensures
        call_ensures(
            R::blocklist,
            (provider->LocalBlocklist_0.files, &paths.blocklist_file),
            reading,
        ),
        outcome is Err <==> reading is Unreadable,
        reading is Missing ==> outcome->Ok_0@.len() == 0,
        reading matches BlocklistReading::Text(contents) ==> forall|shape: EntryShape| #[trigger]
            entry_shapes(outcome->Ok_0@).contains(shape) <==> shape.0 == "internal:blocklist"@
                && some_line_reads(lines(contents@), shape.2, shape.1),
{
    let files = provider->LocalBlocklist_0.files;
    let reading = choose|reading: BlocklistReading| #[trigger]
        call_ensures(R::blocklist, (files, &paths.blocklist_file), reading) && blocklist_rule(
            paths.blocklist_file@,
            reading,
            outcome,
        );
    if let BlocklistReading::Text(contents) = reading {
        assert forall|shape: EntryShape| #[trigger]
            entry_shapes(outcome->Ok_0@).contains(shape) <==> shape.0 == "internal:blocklist"@
                && some_line_reads(lines(contents@), shape.2, shape.1) by {
            lemma_labelled("internal:blocklist"@, line_entries(lines(contents@)), shape);
            lemma_line_entries(lines(contents@), shape.2, shape.1);
        }
    }
    reading
}

proof fn lemma_sources(sources: Seq<CachedRemoteSource>, shape: EntryShape)
    ensures
        source_shapes(sources).contains(shape) <==> exists|i: int|
            0 <= i < sources.len() && (#[trigger] sources[i]).label@ == shape.0 && entry_views(
                sources[i].entries@,
            ).contains((shape.2, shape.1)),
    decreases sources.len(),
{
    if sources.len() > 0 {
        let front = sources.drop_last();
        let last = sources.last();
        let before = source_shapes(front);
        let tail = labelled_shapes(last.label@, entry_views(last.entries@));
        let all = source_shapes(sources);
        lemma_sources(front, shape);
        lemma_labelled(last.label@, entry_views(last.entries@), shape);
        if all.contains(shape) {
            let k = choose|k: int| 0 <= k < all.len() && all[k] == shape;
            if k < before.len() {
                assert(before[k] == shape);
                let i = choose|i: int|
                    0 <= i < front.len() && (#[trigger] front[i]).label@ == shape.0 && entry_views(
                        front[i].entries@,
                    ).contains((shape.2, shape.1));
                assert(sources[i].label@ == shape.0);
            } else {
                assert(tail[k - before.len()] == shape);
                assert(sources[sources.len() - 1].label@ == shape.0);
            }
        }
        if exists|i: int|
            0 <= i < sources.len() && (#[trigger] sources[i]).label@ == shape.0 && entry_views(
                sources[i].entries@,
            ).contains((shape.2, shape.1)) {
            let i = choose|i: int|
                0 <= i < sources.len() && (#[trigger] sources[i]).label@ == shape.0 && entry_views(
                    sources[i].entries@,
                ).contains((shape.2, shape.1));
            if i < front.len() {
                assert(front[i].label@ == shape.0);
                let k = choose|k: int| 0 <= k < before.len() && before[k] == shape;
                assert(all[k] == shape);
            } else {
                let k = choose|k: int| 0 <= k < tail.len() && tail[k] == shape;
                assert(all[before.len() + k] == shape);
            }
        }
    }
}

/// The cached feeds give the entries of each of them under its own label, and fail where they
/// cannot be listed.
pub proof fn law_remote_lookup_gives_every_cached_feed<'a, R: OfflineFiles>(
    provider: BuiltinLookupProvider<'a, R>,
    paths: &ResolvedPaths,
    config: Option<&Config>,
    outcome: Result<Vec<LookupSourceEntry>, AppError>,
) -> (sources: Result<Vec<CachedRemoteSource>, SourceLoadError>)
    requires
        provider is RemoteCache,
        provides(provider, paths, config, outcome),
    ensures
        call_ensures(
            R::remote_sources,
            (provider->RemoteCache_0.files, &paths.remote_cache_dir),
            sources,
        ),
        outcome is Ok <==> sources is Ok,
        outcome is Ok ==> forall|shape: EntryShape| #[trigger]
            entry_shapes(outcome->Ok_0@).contains(shape) <==> exists|i: int|
                0 <= i < sources->Ok_0@.len() && (#[trigger] sources->Ok_0@[i]).label@ == shape.0
                    && entry_views(sources->Ok_0@[i].entries@).contains((shape.2, shape.1)),
{
    let files = provider->RemoteCache_0.files;
    let sources = choose|sources: Result<Vec<CachedRemoteSource>, SourceLoadError>| #[trigger]
        call_ensures(R::remote_sources, (files, &paths.remote_cache_dir), sources) && remote_rule(
            sources,
            outcome,
        );
    if outcome is Ok {
        assert forall|shape: EntryShape| #[trigger]
            entry_shapes(outcome->Ok_0@).contains(shape) <==> exists|i: int|
                0 <= i < sources->Ok_0@.len() && (#[trigger] sources->Ok_0@[i]).label@ == shape.0
                    && entry_views(sources->Ok_0@[i].entries@).contains((shape.2, shape.1)) by {
            lemma_sources(sources->Ok_0@, shape);
        }
    }
    sources
}

/// The safelists give the safe networks of the configuration and the cached GitHub networks under
/// their labels; without a configuration, or with metadata left out of it, they give nothing.
pub proof fn law_safelist_lookup_follows_the_configuration<'a, R: OfflineFiles>(
    provider: BuiltinLookupProvider<'a, R>,
    paths: &ResolvedPaths,
    config: Option<&Config>,
    outcome: Result<Vec<LookupSourceEntry>, AppError>,
)
    requires
        provider is ConfigSafelist || provider is GithubMeta,
        provides(provider, paths, config, outcome),
    ensures
        outcome is Ok,
        config is None ==> outcome->Ok_0@.len() == 0,
        provider is ConfigSafelist && config is Some ==> forall|shape: EntryShape| #[trigger]
            entry_shapes(outcome->Ok_0@).contains(shape) <==> exists|i: int|
                0 <= i < config->0.safe.ips@.len() && shape == (
                    "safelist:config"@,
                    cidr_text(config->0.safe.ips@[i]@),
                    (#[trigger] config->0.safe.ips@[i])@,
                ),
        provider is GithubMeta && config is Some && !config->0.safe.include_github_meta
            ==> outcome->Ok_0@.len() == 0,
        provider is GithubMeta && config is Some && config->0.safe.include_github_meta ==> exists|
            mode: GithubMetaCategoryMode,
            networks: Option<Vec<CanonicalCidr>>,
        |
            {
                &&& #[trigger] call_ensures(
                    R::github_networks,
                    (
                        provider->GithubMeta_0.files,
                        &paths.remote_cache_dir,
                        &config->0.safe.github_meta_url,
                        &mode,
                    ),
                    networks,
                )
                &&& mode@ == match config->0.safe.github_meta_categories {
                    None => CategoryModel::Default,
                    Some(values) => if values@.len() == 0 {
                        CategoryModel::All
                    } else {
                        CategoryModel::Explicit(views(values@))
                    },
                }
                &&& networks is None ==> outcome->Ok_0@.len() == 0
                &&& networks matches Some(list) ==> entry_shapes(outcome->Ok_0@) == Seq::new(
                    list@.len(),
                    |i: int| ("safelist:github-meta"@, cidr_text(list@[i]@), list@[i]@),
                )
            },
{
    if provider is ConfigSafelist && config is Some {
        assert forall|shape: EntryShape| #[trigger]
            entry_shapes(outcome->Ok_0@).contains(shape) <==> exists|i: int|
                0 <= i < config->0.safe.ips@.len() && shape == (
                    "safelist:config"@,
                    cidr_text(config->0.safe.ips@[i]@),
                    (#[trigger] config->0.safe.ips@[i])@,
                ) by {
            lemma_canonical("safelist:config"@, config->0.safe.ips@, shape);
        }
    }
    if provider is GithubMeta && config is Some && config->0.safe.include_github_meta {
        let active = config->0;
        let files = provider->GithubMeta_0.files;
        let cache_dir = &paths.remote_cache_dir;
        let (mode, networks) = choose|
            mode: GithubMetaCategoryMode,
            networks: Option<Vec<CanonicalCidr>>,
        |
            {
                &&& #[trigger] call_ensures(
                    R::github_networks,
                    (files, cache_dir, &active.safe.github_meta_url, &mode),
                    networks,
                )
                &&& mode@ == selected_mode(*active)
                &&& match networks {
                    Some(list) => entry_shapes(outcome->Ok_0@) == canonical_shapes(
                        "safelist:github-meta"@,
                        list@,
                    ),
                    None => outcome->Ok_0@.len() == 0,
                }
            };
        assert(call_ensures(
            R::github_networks,
            (files, cache_dir, &active.safe.github_meta_url, &mode),
            networks,
        ));
        if let Some(list) = networks {
            assert(entry_shapes(outcome->Ok_0@) =~= Seq::new(
                list@.len(),
                |i: int| ("safelist:github-meta"@, cidr_text(list@[i]@), list@[i]@),
            ));
        }
    }
}

/// The prefixes of one of the systems give the entry, under the label of the system.
pub open spec fn some_system_gives(
    asns: Seq<u32>,
    replies: Seq<Option<Vec<CanonicalCidr>>>,
    shape: EntryShape,
) -> bool {
    exists|i: int, k: int|
        0 <= i < asns.len() && replies[i] is Some && 0 <= k < replies[i]->0@.len() && shape == (
            "asn:AS"@ + decimal(asns[i] as nat),
            cidr_text(replies[i]->0@[k]@),
            (#[trigger] replies[i]->0@[k])@,
        )
}

proof fn lemma_systems(
    asns: Seq<u32>,
    replies: Seq<Option<Vec<CanonicalCidr>>>,
    shape: EntryShape,
)
    requires
        asns.len() == replies.len(),
    ensures
        asn_shapes(asns, replies).contains(shape) <==> some_system_gives(asns, replies, shape),
    decreases asns.len(),
{
    if asns.len() > 0 {
        let m = asns.len() - 1;
        let front = asns.drop_last();
        let early = replies.drop_last();
        let before = asn_shapes(front, early);
        let all = asn_shapes(asns, replies);
        let label = "asn:AS"@ + decimal(asns.last() as nat);
        lemma_systems(front, early, shape);
        if let Some(prefixes) = replies.last() {
            lemma_canonical(label, prefixes@, shape);
        }
        if all.contains(shape) {
            let k = choose|k: int| 0 <= k < all.len() && all[k] == shape;
            if k < before.len() {
                assert(before[k] == shape);
                let (i, j) = choose|i: int, j: int|
                    0 <= i < front.len() && early[i] is Some && 0 <= j < early[i]->0@.len()
                        && shape == (
                        "asn:AS"@ + decimal(front[i] as nat),
                        cidr_text(early[i]->0@[j]@),
                        (#[trigger] early[i]->0@[j])@,
                    );
                assert(replies[i]->0@[j] == early[i]->0@[j]);
            } else {
                let prefixes = replies.last()->0@;
                let tail = canonical_shapes(label, prefixes);
                assert(tail[k - before.len()] == shape);
                assert(tail.contains(shape));
                let j = choose|j: int|
                    0 <= j < prefixes.len() && shape == (
                        label,
                        cidr_text(prefixes[j]@),
                        (#[trigger] prefixes[j])@,
                    );
                assert(replies[m]->0@[j] == prefixes[j]);
            }
        }
        if some_system_gives(asns, replies, shape) {
            let (i, j) = choose|i: int, j: int|
                0 <= i < asns.len() && replies[i] is Some && 0 <= j < replies[i]->0@.len()
                    && shape == (
                    "asn:AS"@ + decimal(asns[i] as nat),
                    cidr_text(replies[i]->0@[j]@),
                    (#[trigger] replies[i]->0@[j])@,
                );
            if i < m {
                assert(early[i]->0@[j] == replies[i]->0@[j]);
                assert(before.contains(shape));
                let k = choose|k: int| 0 <= k < before.len() && before[k] == shape;
                assert(all[k] == shape);
            } else {
                let prefixes = replies.last()->0@;
                assert(prefixes[j] == replies[i]->0@[j]);
                let tail = canonical_shapes(label, prefixes);
                assert(tail.contains(shape));
                let k = choose|k: int| 0 <= k < tail.len() && tail[k] == shape;
                assert(all[before.len() + k] == shape);
            }
        }
    }
}

/// The cached prefixes of each banned system are given under the label of the system; a system
/// without a cache gives nothing and takes nothing away.
pub proof fn law_asn_lookup_gives_every_banned_system<'a, R: OfflineFiles>(
    provider: BuiltinLookupProvider<'a, R>,
    paths: &ResolvedPaths,
    config: &Config,
    outcome: Vec<LookupSourceEntry>,
) -> (replies: Seq<Option<Vec<CanonicalCidr>>>)
    requires
        provider is AsnCache,
        provides(provider, paths, Some(config), Ok(outcome)),
    ensures
        replies.len() == config.asn.banned@.len(),
        exists|dir: String|
            #![trigger dir@]
            dir@ == path_join(paths.cache_dir@, "asn"@) && forall|i: int|
                0 <= i < config.asn.banned@.len() ==> call_ensures(
                    R::asn_prefixes,
                    (provider->AsnCache_0.files, #[trigger] config.asn.banned@[i], &dir),
                    Ok::<Option<Vec<CanonicalCidr>>, String>(replies[i]),
                ),
        forall|shape: EntryShape| #[trigger]
            entry_shapes(outcome@).contains(shape) <==> some_system_gives(
                config.asn.banned@,
                replies,
                shape,
            ),
{
    let asns = config.asn.banned@;
    let files = provider->AsnCache_0.files;
    let (dir, replies) = choose|dir: String, replies: Seq<Option<Vec<CanonicalCidr>>>|
        {
            &&& dir@ == path_join(paths.cache_dir@, "asn"@)
            &&& replies.len() <= asns.len()
            &&& #[trigger] asn_answers(files, dir, asns.take(replies.len() as int), replies)
            &&& replies.len() == asns.len()
            &&& entry_shapes(outcome@) == asn_shapes(asns, replies)
        };
    assert(asns.take(asns.len() as int) =~= asns);
    assert(dir@ == path_join(paths.cache_dir@, "asn"@) && forall|i: int|
        0 <= i < asns.len() ==> call_ensures(
            R::asn_prefixes,
            (files, #[trigger] asns[i], &dir),
            Ok::<Option<Vec<CanonicalCidr>>, String>(replies[i]),
        ));
    assert forall|shape: EntryShape| #[trigger]
        entry_shapes(outcome@).contains(shape) <==> some_system_gives(asns, replies, shape) by {
        lemma_systems(asns, replies, shape);
    }
    replies
}

// Cached feeds ----------------------------------------------------------------------------------

proof fn lemma_legacy(
    generations: Seq<OfflineRemoteGeneration>,
    files: Seq<LegacySourceFile>,
    source: SourceModel,
)
    ensures
        legacy_sources(generations, files).contains(source) <==> exists|i: int|
            0 <= i < files.len() && !superseded(generations, #[trigger] files[i]) && source
                == legacy_source(files[i]),
    decreases files.len(),
{
    if files.len() > 0 {
        let front = files.drop_last();
        let before = legacy_sources(generations, front);
        let all = legacy_sources(generations, files);
        lemma_legacy(generations, front, source);
        if all.contains(source) {
            let k = choose|k: int| 0 <= k < all.len() && all[k] == source;
            if k < before.len() {
                assert(before[k] == source);
                let i = choose|i: int|
                    0 <= i < front.len() && !superseded(generations, #[trigger] front[i]) && source
                        == legacy_source(front[i]);
                assert(files[i] == front[i]);
            } else {
                assert(!superseded(generations, files[files.len() - 1]));
            }
        }
        if exists|i: int|
            0 <= i < files.len() && !superseded(generations, #[trigger] files[i]) && source
                == legacy_source(files[i]) {
            let i = choose|i: int|
                0 <= i < files.len() && !superseded(generations, #[trigger] files[i]) && source
                    == legacy_source(files[i]);
            if i < front.len() {
                assert(front[i] == files[i]);
                let k = choose|k: int| 0 <= k < before.len() && before[k] == source;
                assert(all[k] == source);
            } else {
                assert(all[all.len() - 1] == source);
            }
        }
    }
}

/// A stored generation stands for the feed of its hash, so that a list of the older layout with the
/// same hash is passed over; every other list is a feed of its own. Nothing else is.
pub proof fn law_generations_replace_older_lists(
    generations: Seq<OfflineRemoteGeneration>,
    files: Seq<LegacySourceFile>,
    sources: Vec<CachedRemoteSource>,
    source: SourceModel,
)
    requires
        sources_rule(generations, files, Ok(sources)),
    ensures
        source_views(sources@).contains(source) <==> (exists|i: int|
            0 <= i < generations.len() && source.path == (
            #[trigger] generations[i]).iplist_path@ && source.label == generations[i].label@
                && source.entries == line_entries(lines(generations[i].iplist@))) || exists|i: int|
            0 <= i < files.len() && !superseded(generations, #[trigger] files[i]) && source
                == legacy_source(files[i]),
        forall|i: int|
            0 <= i < files.len() && (#[trigger] files[i]).contents is Err ==> superseded(
                generations,
                files[i],
            ),
{
    let gathered = choose|gathered: Seq<CachedRemoteSource>| #[trigger]
        gathers(generations, files, gathered) && stably_sorted(gathered, sources@);
    gathered.to_multiset_ensures();
    sources@.to_multiset_ensures();
    let first = generation_sources(generations);
    let second = legacy_sources(generations, files);
    let all = first + second;
    lemma_legacy(generations, files, source);
    assert(source_views(sources@).contains(source) <==> all.contains(source)) by {
        if source_views(sources@).contains(source) {
            let k = choose|k: int|
                0 <= k < source_views(sources@).len() && source_views(sources@)[k] == source;
            assert(sources@.contains(sources@[k]));
            assert(sources@.to_multiset().count(sources@[k]) > 0);
            assert(gathered.contains(sources@[k]));
            let j = choose|j: int| 0 <= j < gathered.len() && gathered[j] == sources@[k];
            assert(source_views(gathered)[j] == source);
        }
        if all.contains(source) {
            let k = choose|k: int| 0 <= k < all.len() && all[k] == source;
            assert(source_views(gathered)[k] == source);
            assert(gathered.contains(gathered[k]));
            assert(gathered.to_multiset().count(gathered[k]) > 0);
            assert(sources@.contains(gathered[k]));
            let j = choose|j: int| 0 <= j < sources@.len() && sources@[j] == gathered[k];
            assert(source_views(sources@)[j] == source);
        }
    }
    if all.contains(source) {
        let k = choose|k: int| 0 <= k < all.len() && all[k] == source;
        if k < first.len() {
            assert(first[k] == generation_source(generations[k]));
            assert(source.path == generations[k].iplist_path@);
        } else {
            assert(second[k - first.len()] == source);
            assert(second.contains(source));
        }
    }
    if exists|i: int|
        0 <= i < generations.len() && source.path == (#[trigger] generations[i]).iplist_path@
            && source.label == generations[i].label@ && source.entries == line_entries(
            lines(generations[i].iplist@),
        ) {
        let i = choose|i: int|
            0 <= i < generations.len() && source.path == (#[trigger] generations[i]).iplist_path@
                && source.label == generations[i].label@ && source.entries == line_entries(
                lines(generations[i].iplist@),
            );
        assert(first[i] == source);
        assert(all[i] == source);
    }
    if second.contains(source) {
        let k = choose|k: int| 0 <= k < second.len() && second[k] == source;
        assert(all[first.len() + k] == source);
    }
}

/// A list of the older layout carries the address of its metadata as label, or else its file name.
pub proof fn law_older_lists_are_labelled(file: LegacySourceFile)
    ensures
        file.metadata_url matches Some(url) && trim(url@).len() > 0 ==> legacy_source(file).label
            == trim(file.metadata_url->0@),
        (file.metadata_url is None || trim(file.metadata_url->0@).len() == 0) ==> legacy_source(
            file,
        ).label == "remote:"@ + file.file_name@,
        file.contents matches Ok(text) ==> legacy_source(file).entries == line_entries(
            lines(text@),
        ),
{
}

} // verus!
