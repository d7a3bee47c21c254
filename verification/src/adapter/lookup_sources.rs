//! Providers of the offline lookup workflow.

use crate::adapter::cached_sources::{
    entry_views, line_entries, parse_cached_entries, CachedRemoteEntry, CachedRemoteSource,
};
use crate::adapter::errors::{source_load_text, SourceLoadError};
use crate::numerals::{decimal, decimal_text};
use crate::policy::cidr_text::{cidr_text, CidrModel};
use crate::policy::config::{CategoryModel, Config, GithubMetaCategoryMode};
use crate::policy::lookup::LookupSourceEntry;
use crate::policy::network_types::CanonicalCidr;
use crate::text::{lines, views};
use crate::workflow::error::AppError;
use crate::workflow::paths::{join_path, path_join, ResolvedPaths};
use crate::workflow::source::{
    id_texts, OfflineLookupContext, OfflineLookupProvider, OfflineLookupRegistry,
};
use vstd::prelude::*;

verus! {

/// Contents of the local blocklist file.
#[derive(Debug)]
pub enum BlocklistReading {
    /// There is no such file.
    Missing,
    /// The file cannot be read within its bound.
    Unreadable(String),
    /// What the file holds.
    Text(String),
}

/// Reads what the offline providers look at.
pub trait OfflineFiles {
    /// Reads the local blocklist.
    fn blocklist(&self, path: &String) -> (reading: BlocklistReading);

    /// Loads the cached feeds of a directory.
    fn remote_sources(&self, cache_dir: &String) -> (sources: Result<
        Vec<CachedRemoteSource>,
        SourceLoadError,
    >);

    /// Loads the cached GitHub networks, where there is a good cache for the selection.
    fn github_networks(
        &self,
        cache_dir: &String,
        url: &String,
        mode: &GithubMetaCategoryMode,
    ) -> (networks: Option<Vec<CanonicalCidr>>);

    /// Loads the cached prefixes of an ASN, where they are cached, or tells why they cannot be
    /// read.
    fn asn_prefixes(&self, asn: u32, cache_dir: &String) -> (prefixes: Result<
        Option<Vec<CanonicalCidr>>,
        String,
    >);
}

// Entries ---------------------------------------------------------------------------------------

/// Label, line and network of a lookup entry.
pub type EntryShape = (Seq<char>, Seq<char>, CidrModel);

/// Labels, lines and networks of lookup entries, in order.
pub open spec fn entry_shapes(entries: Seq<LookupSourceEntry>) -> Seq<EntryShape> {
    Seq::new(
        entries.len(),
        |i: int| (entries[i].source_label@, entries[i].source_line@, entries[i].cidr@),
    )
}

/// Entries under one label.
pub open spec fn labelled_shapes(label: Seq<char>, entries: Seq<(CidrModel, Seq<char>)>) -> Seq<
    EntryShape,
> {
    Seq::new(entries.len(), |i: int| (label, entries[i].1, entries[i].0))
}

/// Entries of networks that are written in their canonical form.
pub open spec fn canonical_shapes(label: Seq<char>, cidrs: Seq<CanonicalCidr>) -> Seq<EntryShape> {
    Seq::new(cidrs.len(), |i: int| (label, cidr_text(cidrs[i]@), cidrs[i]@))
}

/// Appends networks in their canonical form under a label.
pub fn append_canonical_entries(
    entries: &mut Vec<LookupSourceEntry>,
    source_label: &str,
    cidrs: &Vec<CanonicalCidr>,
)
    ensures
        entry_shapes(final(entries)@) == entry_shapes(old(entries)@) + canonical_shapes(
            source_label@,
            cidrs@,
        ),
{
    let ghost start = entry_shapes(entries@);
    let ghost shapes = canonical_shapes(source_label@, cidrs@);
    let mut i: usize = 0;
    assert(start + shapes.take(0) =~= start);
    while i < cidrs.len()
        invariant
            i <= cidrs@.len(),
            shapes == canonical_shapes(source_label@, cidrs@),
            entry_shapes(entries@) == start + shapes.take(i as int),
        decreases cidrs@.len() - i,
    {
        let ghost before = entries@;
        entries.push(
            LookupSourceEntry {
                source_label: source_label.to_owned(),
                source_line: cidrs[i].to_text(),
                cidr: cidrs[i],
            },
        );
        i += 1;
        assert(entry_shapes(entries@) =~= entry_shapes(before).push(shapes[i - 1]));
        assert(start + shapes.take(i as int) =~= (start + shapes.take(i - 1)).push(shapes[i - 1]));
    }
    assert(shapes.take(i as int) =~= shapes);
}

/// Appends entries under a label.
fn append_labelled(
    entries: &mut Vec<LookupSourceEntry>,
    label: &String,
    found: &Vec<CachedRemoteEntry>,
)
    ensures
        entry_shapes(final(entries)@) == entry_shapes(old(entries)@) + labelled_shapes(
            label@,
            entry_views(found@),
        ),
{
    let ghost start = entry_shapes(entries@);
    let ghost shapes = labelled_shapes(label@, entry_views(found@));
    let mut i: usize = 0;
    assert(start + shapes.take(0) =~= start);
    while i < found.len()
        invariant
            i <= found@.len(),
            shapes == labelled_shapes(label@, entry_views(found@)),
            entry_shapes(entries@) == start + shapes.take(i as int),
        decreases found@.len() - i,
    {
        let ghost before = entries@;
        entries.push(
            LookupSourceEntry {
                source_label: label.clone(),
                source_line: found[i].source_line.clone(),
                cidr: found[i].cidr,
            },
        );
        i += 1;
        assert(entry_shapes(entries@) =~= entry_shapes(before).push(shapes[i - 1]));
        assert(start + shapes.take(i as int) =~= (start + shapes.take(i - 1)).push(shapes[i - 1]));
    }
    assert(shapes.take(i as int) =~= shapes);
}

/// Entries of the lines of a source file under a label.
pub fn source_file_entries(contents: &str, source_label: &str) -> (entries: Vec<LookupSourceEntry>)
    ensures
        entry_shapes(entries@) == labelled_shapes(
            source_label@,
            line_entries(lines(contents@)),
        ),
{
    let found: Vec<CachedRemoteEntry> = parse_cached_entries(contents);
    let mut entries: Vec<LookupSourceEntry> = Vec::new();
    let label: String = source_label.to_owned();
    assert(entry_shapes(entries@) =~= Seq::<EntryShape>::empty());
    append_labelled(&mut entries, &label, &found);
    assert(entry_shapes(entries@) =~= labelled_shapes(label@, entry_views(found@)));
    entries
}

/// Entries of cached feeds, in order.
pub open spec fn source_shapes(sources: Seq<CachedRemoteSource>) -> Seq<EntryShape>
    decreases sources.len(),
{
    if sources.len() == 0 {
        Seq::empty()
    } else {
        source_shapes(sources.drop_last()) + labelled_shapes(
            sources.last().label@,
            entry_views(sources.last().entries@),
        )
    }
}

/// Lists the entries of cached feeds under their labels.
pub fn remote_source_entries(sources: &Vec<CachedRemoteSource>) -> (entries: Vec<LookupSourceEntry>)
    ensures
        entry_shapes(entries@) == source_shapes(sources@),
{
    let mut entries: Vec<LookupSourceEntry> = Vec::new();
    let mut i: usize = 0;
    assert(sources@.take(0) =~= Seq::<CachedRemoteSource>::empty());
    assert(entry_shapes(entries@) =~= source_shapes(sources@.take(0)));
    while i < sources.len()
        invariant
            i <= sources@.len(),
            entry_shapes(entries@) == source_shapes(sources@.take(i as int)),
        decreases sources@.len() - i,
    {
        append_labelled(&mut entries, &sources[i].label, &sources[i].entries);
        i += 1;
        proof {
            let next = sources@.take(i as int);
            assert(next.drop_last() =~= sources@.take(i - 1));
            assert(next.last() == sources@[i - 1]);
        }
    }
    assert(sources@.take(i as int) =~= sources@);
    entries
}

fn load_failure(error: &SourceLoadError) -> (failure: AppError)
    ensures
        failure matches AppError::LookupSourceLoad { reason } && reason@ == source_load_text(
            *error,
        ),
{
    AppError::LookupSourceLoad { reason: error.message() }
}

// Providers -------------------------------------------------------------------------------------

/// Outcome of a provider.
pub type OfflineOutcome = Result<Vec<LookupSourceEntry>, AppError>;

/// Provides the entries of the local blocklist.
#[derive(Debug)]
pub struct LocalBlocklistLookupProvider<'a, R: OfflineFiles> {
    /// Reads the file.
    pub files: &'a R,
}

/// What the local blocklist provides.
pub open spec fn blocklist_rule(
    path: Seq<char>,
    reading: BlocklistReading,
    outcome: OfflineOutcome,
) -> bool {
    match reading {
        BlocklistReading::Missing => outcome matches Ok(entries) && entries@.len() == 0,
        BlocklistReading::Unreadable(why) => outcome matches Err(
            AppError::LookupSourceLoad { reason },
        ) && reason@ == "failed to read source file "@ + path + ": "@ + why@,
        BlocklistReading::Text(contents) => outcome matches Ok(entries) && entry_shapes(entries@)
            == labelled_shapes("internal:blocklist"@, line_entries(lines(contents@))),
    }
}

impl<'a, R: OfflineFiles> LocalBlocklistLookupProvider<'a, R> {
    /// Loads the entries.
    pub fn entries(&self, context: &OfflineLookupContext<'_>) -> (outcome: OfflineOutcome)
        ensures
            exists|reading: BlocklistReading| #[trigger]
                call_ensures(R::blocklist, (self.files, &context.paths.blocklist_file), reading)
                    && blocklist_rule(context.paths.blocklist_file@, reading, outcome),
    {
        let path: &String = &context.paths.blocklist_file;
        let reading: BlocklistReading = self.files.blocklist(path);
        assert(call_ensures(R::blocklist, (self.files, &context.paths.blocklist_file), reading));
        match reading {
            BlocklistReading::Missing => Ok(Vec::new()),
            BlocklistReading::Unreadable(reason) => {
                let error: SourceLoadError = SourceLoadError::Source { path: path.clone(), reason };
                Err(load_failure(&error))
            },
            BlocklistReading::Text(contents) => Ok(
                source_file_entries(contents.as_str(), "internal:blocklist"),
            ),
        }
    }
}

/// Provides the entries of cached feeds.
#[derive(Debug)]
pub struct RemoteCacheLookupProvider<'a, R: OfflineFiles> {
    /// Reads the cache.
    pub files: &'a R,
}

/// What cached feeds provide.
pub open spec fn remote_rule(
    sources: Result<Vec<CachedRemoteSource>, SourceLoadError>,
    outcome: OfflineOutcome,
) -> bool {
    match sources {
        Ok(list) => outcome matches Ok(entries) && entry_shapes(entries@) == source_shapes(list@),
        Err(error) => outcome matches Err(AppError::LookupSourceLoad { reason }) && reason@
            == source_load_text(error),
    }
}

impl<'a, R: OfflineFiles> RemoteCacheLookupProvider<'a, R> {
    /// Loads the entries.
    pub fn entries(&self, context: &OfflineLookupContext<'_>) -> (outcome: OfflineOutcome)
        ensures
            exists|sources: Result<Vec<CachedRemoteSource>, SourceLoadError>| #[trigger]
                call_ensures(
                    R::remote_sources,
                    (self.files, &context.paths.remote_cache_dir),
                    sources,
                ) && remote_rule(sources, outcome),
    {
        let sources: Result<Vec<CachedRemoteSource>, SourceLoadError> = self.files.remote_sources(
            &context.paths.remote_cache_dir,
        );
        assert(call_ensures(
            R::remote_sources,
            (self.files, &context.paths.remote_cache_dir),
            sources,
        ));
        match sources {
            Ok(list) => Ok(remote_source_entries(&list)),
            Err(error) => Err(load_failure(&error)),
        }
    }
}

/// Provides the configured safelist.
#[derive(Debug, Default, Clone, Copy)]
pub struct ConfigSafelistLookupProvider;

impl ConfigSafelistLookupProvider {
    /// Lists the entries.
    pub fn entries(&self, context: &OfflineLookupContext<'_>) -> (outcome: OfflineOutcome)
        ensures
            outcome matches Ok(entries) && match context.config {
                Some(config) => entry_shapes(entries@) == canonical_shapes(
                    "safelist:config"@,
                    config.safe.ips@,
                ),
                None => entries@.len() == 0,
            },
    {
        let mut entries: Vec<LookupSourceEntry> = Vec::new();
        if let Some(config) = context.config {
            let ghost start = entry_shapes(entries@);
            append_canonical_entries(&mut entries, "safelist:config", &config.safe.ips);
            assert(start =~= Seq::<EntryShape>::empty());
            assert(entry_shapes(entries@) =~= canonical_shapes(
                "safelist:config"@,
                config.safe.ips@,
            ));
        }
        Ok(entries)
    }
}

/// Provides the cached GitHub safelist.
#[derive(Debug)]
pub struct GithubMetaLookupProvider<'a, R: OfflineFiles> {
    /// Reads the cache.
    pub files: &'a R,
}

/// What the cached GitHub safelist provides: nothing where it is not configured or not cached.
pub open spec fn github_rule<R: OfflineFiles>(
    files: &R,
    cache_dir: &String,
    config: Option<&Config>,
    outcome: OfflineOutcome,
) -> bool {
    match config {
        Some(active) if active.safe.include_github_meta => exists|
            mode: GithubMetaCategoryMode,
            networks: Option<Vec<CanonicalCidr>>,
        |
            #![trigger call_ensures(
                R::github_networks,
                (files, cache_dir, &active.safe.github_meta_url, &mode),
                networks,
            )]
            call_ensures(
                R::github_networks,
                (files, cache_dir, &active.safe.github_meta_url, &mode),
                networks,
            ) && mode@ == selected_mode(*active) && (outcome matches Ok(entries) && match networks {
                Some(list) => entry_shapes(entries@) == canonical_shapes(
                    "safelist:github-meta"@,
                    list@,
                ),
                None => entries@.len() == 0,
            }),
        _ => outcome matches Ok(entries) && entries@.len() == 0,
    }
}

/// The configured category selection.
pub open spec fn selected_mode(config: Config) -> CategoryModel {
    match config.safe.github_meta_categories {
        None => CategoryModel::Default,
        Some(values) => if values@.len() == 0 {
            CategoryModel::All
        } else {
            CategoryModel::Explicit(views(values@))
        },
    }
}

impl<'a, R: OfflineFiles> GithubMetaLookupProvider<'a, R> {
    /// Loads the entries.
    pub fn entries(&self, context: &OfflineLookupContext<'_>) -> (outcome: OfflineOutcome)
        ensures
            github_rule(self.files, &context.paths.remote_cache_dir, context.config, outcome),
    {
        let mut entries: Vec<LookupSourceEntry> = Vec::new();
        if let Some(config) = context.config {
            if config.safe.include_github_meta {
                let mode: GithubMetaCategoryMode = config.safe.github_meta_category_mode();
                let networks: Option<Vec<CanonicalCidr>> = self.files.github_networks(
                    &context.paths.remote_cache_dir,
                    &config.safe.github_meta_url,
                    &mode,
                );
                assert(call_ensures(
                    R::github_networks,
                    (
                        self.files,
                        &context.paths.remote_cache_dir,
                        &config.safe.github_meta_url,
                        &mode,
                    ),
                    networks,
                ));
                if let Some(list) = &networks {
                    let ghost start = entry_shapes(entries@);
                    append_canonical_entries(&mut entries, "safelist:github-meta", list);
                    assert(start =~= Seq::<EntryShape>::empty());
                    assert(entry_shapes(entries@) =~= canonical_shapes(
                        "safelist:github-meta"@,
                        list@,
                    ));
                }
            }
        }
        Ok(entries)
    }
}

/// Provides the cached prefixes of banned ASNs.
#[derive(Debug)]
pub struct AsnCacheLookupProvider<'a, R: OfflineFiles> {
    /// Reads the cache.
    pub files: &'a R,
}

/// Each ASN was answered with cached prefixes or none.
pub open spec fn asn_answers<R: OfflineFiles>(
    files: &R,
    dir: String,
    asns: Seq<u32>,
    replies: Seq<Option<Vec<CanonicalCidr>>>,
) -> bool {
    &&& replies.len() == asns.len()
    &&& forall|i: int|
        0 <= i < asns.len() ==> call_ensures(
            R::asn_prefixes,
            (files, #[trigger] asns[i], &dir),
            Ok(replies[i]),
        )
}

/// Entries of ASN prefixes, in order.
pub open spec fn asn_shapes(asns: Seq<u32>, replies: Seq<Option<Vec<CanonicalCidr>>>) -> Seq<
    EntryShape,
>
    decreases asns.len(),
{
    if asns.len() == 0 {
        Seq::empty()
    } else {
        let before = asn_shapes(asns.drop_last(), replies.drop_last());
        match replies.last() {
            Some(prefixes) => before + canonical_shapes(
                "asn:AS"@ + decimal(asns.last() as nat),
                prefixes@,
            ),
            None => before,
        }
    }
}

/// What the cached prefixes of banned ASNs provide: those of all, or the failure of the first that
/// cannot be read.
pub open spec fn asn_rule<R: OfflineFiles>(
    files: &R,
    cache_dir: Seq<char>,
    asns: Seq<u32>,
    outcome: OfflineOutcome,
) -> bool {
    exists|dir: String, replies: Seq<Option<Vec<CanonicalCidr>>>|
        {
            &&& dir@ == path_join(cache_dir, "asn"@)
            &&& replies.len() <= asns.len()
            &&& #[trigger] asn_answers(files, dir, asns.take(replies.len() as int), replies)
            &&& match outcome {
                Ok(entries) => replies.len() == asns.len() && entry_shapes(entries@) == asn_shapes(
                    asns,
                    replies,
                ),
                Err(error) => replies.len() < asns.len() && (error matches AppError::LookupSourceLoad {
                    reason,
                } && call_ensures(
                    R::asn_prefixes,
                    (files, asns[replies.len() as int], &dir),
                    Err(reason),
                )),
            }
        }
}

impl<'a, R: OfflineFiles> AsnCacheLookupProvider<'a, R> {
    /// Loads the entries.
    pub fn entries(&self, context: &OfflineLookupContext<'_>) -> (outcome: OfflineOutcome)
        ensures
            match context.config {
                Some(config) => asn_rule(
                    self.files,
                    context.paths.cache_dir@,
                    config.asn.banned@,
                    outcome,
                ),
                None => outcome matches Ok(entries) && entries@.len() == 0,
            },
    {
        let mut entries: Vec<LookupSourceEntry> = Vec::new();
        let config: &Config = match context.config {
            Some(config) => config,
            None => {
                return Ok(entries);
            },
        };
        let dir: String = join_path(context.paths.cache_dir.as_str(), "asn");
        let asns: &Vec<u32> = &config.asn.banned;
        let ghost mut replies: Seq<Option<Vec<CanonicalCidr>>> = Seq::empty();
        let mut i: usize = 0;
        proof {
            assert(asns@.take(0) =~= Seq::<u32>::empty());
            assert(entry_shapes(entries@) =~= asn_shapes(asns@.take(0), replies));
        }
        while i < asns.len()
            invariant
                i <= asns@.len(),
                asns@ == config.asn.banned@,
                context.config == Some(config),
                dir@ == path_join(context.paths.cache_dir@, "asn"@),
                replies.len() == i,
                asn_answers(self.files, dir, asns@.take(i as int), replies),
                entry_shapes(entries@) == asn_shapes(asns@.take(i as int), replies),
            decreases asns@.len() - i,
        {
            let asn: u32 = asns[i];
            let reply: Result<Option<Vec<CanonicalCidr>>, String> = self.files.asn_prefixes(
                asn,
                &dir,
            );
            match reply {
                Err(reason) => {
                    assert(call_ensures(
                        R::asn_prefixes,
                        (self.files, asns@[replies.len() as int], &dir),
                        Err(reason),
                    ));
                    return Err(AppError::LookupSourceLoad { reason });
                },
                Ok(prefixes) => {
                    assert(call_ensures(R::asn_prefixes, (self.files, asn, &dir), Ok(prefixes)));
                    let ghost before = replies;
                    proof {
                        replies = replies.push(prefixes);
                        let next = asns@.take(i + 1);
                        assert(next.drop_last() =~= asns@.take(i as int));
                        assert(next.last() == asn);
                        assert(replies.drop_last() =~= before);
                        assert forall|k: int| 0 <= k < next.len() implies call_ensures(
                            R::asn_prefixes,
                            (self.files, #[trigger] next[k], &dir),
                            Ok(replies[k]),
                        ) by {
                            if k < i {
                                assert(next[k] == asns@.take(i as int)[k]);
                            }
                        }
                    }
                    if let Some(list) = &prefixes {
                        let mut label: String = "asn:AS".to_owned();
                        label.append(decimal_text(asn as u128).as_str());
                        append_canonical_entries(&mut entries, label.as_str(), list);
                    }
                },
            }
            i += 1;
        }
        assert(asns@.take(i as int) =~= asns@);
        Ok(entries)
    }
}

/// A built-in offline provider.
#[derive(Debug)]
pub enum BuiltinLookupProvider<'a, R: OfflineFiles> {
    /// The local blocklist.
    LocalBlocklist(LocalBlocklistLookupProvider<'a, R>),
    /// Cached feeds.
    RemoteCache(RemoteCacheLookupProvider<'a, R>),
    /// The configured safelist.
    ConfigSafelist(ConfigSafelistLookupProvider),
    /// The cached GitHub safelist.
    GithubMeta(GithubMetaLookupProvider<'a, R>),
    /// The cached prefixes of banned ASNs.
    AsnCache(AsnCacheLookupProvider<'a, R>),
}

/// Identifier of a built-in provider.
pub open spec fn builtin_lookup_id<'a, R: OfflineFiles>(provider: BuiltinLookupProvider<'a, R>) -> Seq<
    char,
> {
    match provider {
        BuiltinLookupProvider::LocalBlocklist(_) => "local-blocklist"@,
        BuiltinLookupProvider::RemoteCache(_) => "remote-cache"@,
        BuiltinLookupProvider::ConfigSafelist(_) => "config-safelist"@,
        BuiltinLookupProvider::GithubMeta(_) => "github-meta-cache"@,
        BuiltinLookupProvider::AsnCache(_) => "asn-cache"@,
    }
}

/// What a built-in provider gives for paths and a configuration.
pub open spec fn provides<'a, R: OfflineFiles>(
    provider: BuiltinLookupProvider<'a, R>,
    paths: &ResolvedPaths,
    config: Option<&Config>,
    outcome: OfflineOutcome,
) -> bool {
    match provider {
        BuiltinLookupProvider::LocalBlocklist(p) => exists|reading: BlocklistReading| #[trigger]
            call_ensures(R::blocklist, (p.files, &paths.blocklist_file), reading) && blocklist_rule(
                paths.blocklist_file@,
                reading,
                outcome,
            ),
        BuiltinLookupProvider::RemoteCache(p) => exists|
            sources: Result<Vec<CachedRemoteSource>, SourceLoadError>,
        | #[trigger]
            call_ensures(R::remote_sources, (p.files, &paths.remote_cache_dir), sources)
                && remote_rule(sources, outcome),
        BuiltinLookupProvider::ConfigSafelist(_) => outcome matches Ok(entries) && match config {
            Some(active) => entry_shapes(entries@) == canonical_shapes(
                "safelist:config"@,
                active.safe.ips@,
            ),
            None => entries@.len() == 0,
        },
        BuiltinLookupProvider::GithubMeta(p) => github_rule(
            p.files,
            &paths.remote_cache_dir,
            config,
            outcome,
        ),
        BuiltinLookupProvider::AsnCache(p) => match config {
            Some(active) => asn_rule(p.files, paths.cache_dir@, active.asn.banned@, outcome),
            None => outcome matches Ok(entries) && entries@.len() == 0,
        },
    }
}

impl<'a, R: OfflineFiles> OfflineLookupProvider for BuiltinLookupProvider<'a, R> {
    fn id(&self) -> (id: &'static str)
        ensures
            id@ == builtin_lookup_id(*self),
    {
        match self {
            BuiltinLookupProvider::LocalBlocklist(_) => "local-blocklist",
            BuiltinLookupProvider::RemoteCache(_) => "remote-cache",
            BuiltinLookupProvider::ConfigSafelist(_) => "config-safelist",
            BuiltinLookupProvider::GithubMeta(_) => "github-meta-cache",
            BuiltinLookupProvider::AsnCache(_) => "asn-cache",
        }
    }

    fn offline_entries(&self, context: &OfflineLookupContext<'_>) -> (entries: OfflineOutcome)
        ensures
            provides(*self, context.paths, context.config, entries),
    {
        match self {
            BuiltinLookupProvider::LocalBlocklist(provider) => provider.entries(context),
            BuiltinLookupProvider::RemoteCache(provider) => provider.entries(context),
            BuiltinLookupProvider::ConfigSafelist(provider) => provider.entries(context),
            BuiltinLookupProvider::GithubMeta(provider) => provider.entries(context),
            BuiltinLookupProvider::AsnCache(provider) => provider.entries(context),
        }
    }
}

/// Identifiers of the built-in providers, in order.
pub open spec fn builtin_lookup_ids() -> Seq<Seq<char>> {
    seq![
        "local-blocklist"@,
        "remote-cache"@,
        "config-safelist"@,
        "github-meta-cache"@,
        "asn-cache"@,
    ]
}

/// Builds the registry of built-in offline providers.
pub fn build_offline_lookup_registry<'a, R: OfflineFiles>(files: &'a R) -> (registry: Result<
    OfflineLookupRegistry<BuiltinLookupProvider<'a, R>>,
    AppError,
>)
    ensures
        registry matches Ok(r) && {
            &&& id_texts(r.id_list()) == builtin_lookup_ids()
            &&& r.provider_list() == seq![
                BuiltinLookupProvider::LocalBlocklist(LocalBlocklistLookupProvider { files }),
                BuiltinLookupProvider::RemoteCache(RemoteCacheLookupProvider { files }),
                BuiltinLookupProvider::ConfigSafelist(ConfigSafelistLookupProvider),
                BuiltinLookupProvider::GithubMeta(GithubMetaLookupProvider { files }),
                BuiltinLookupProvider::AsnCache(AsnCacheLookupProvider { files }),
            ]
        },
{
    proof {
        reveal_strlit("local-blocklist");
        reveal_strlit("remote-cache");
        reveal_strlit("config-safelist");
        reveal_strlit("github-meta-cache");
        reveal_strlit("asn-cache");
        assert("local-blocklist"@[0] == 'l' && "config-safelist"@[0] == 'c');
        assert("local-blocklist"@.len() == 15 && "remote-cache"@.len() == 12);
        assert("github-meta-cache"@.len() == 17 && "asn-cache"@.len() == 9);
    }
    let mut registry: OfflineLookupRegistry<BuiltinLookupProvider<'a, R>> =
        OfflineLookupRegistry::new();
    let ghost start = id_texts(registry.id_list());
    assert(start =~= Seq::<Seq<char>>::empty());
    registry.register(
        BuiltinLookupProvider::LocalBlocklist(LocalBlocklistLookupProvider { files }),
    )?;
    assert(id_texts(registry.id_list()) =~= seq!["local-blocklist"@]);
    registry.register(BuiltinLookupProvider::RemoteCache(RemoteCacheLookupProvider { files }))?;
    assert(id_texts(registry.id_list()) =~= seq!["local-blocklist"@, "remote-cache"@]);
    registry.register(BuiltinLookupProvider::ConfigSafelist(ConfigSafelistLookupProvider))?;
    assert(id_texts(registry.id_list()) =~= seq![
        "local-blocklist"@,
        "remote-cache"@,
        "config-safelist"@,
    ]);
    registry.register(BuiltinLookupProvider::GithubMeta(GithubMetaLookupProvider { files }))?;
    assert(id_texts(registry.id_list()) =~= seq![
        "local-blocklist"@,
        "remote-cache"@,
        "config-safelist"@,
        "github-meta-cache"@,
    ]);
    registry.register(BuiltinLookupProvider::AsnCache(AsnCacheLookupProvider { files }))?;
    assert(id_texts(registry.id_list()) =~= builtin_lookup_ids());
    Ok(registry)
}

} // verus!
