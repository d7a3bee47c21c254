//! Generations of cached files: their content identifiers, the manifest that selects them, and
//! which of them are kept.

use crate::adapter::digest::{is_hex_of_length, lower_hex, sha256_hex, sha256_text};
use crate::ordering::{in_order, lemma_sorted_members, sort_stable, stably_sorted, Ranked};
use crate::text::{
    lemma_text_le_antisymmetric, lemma_text_le_total, lemma_text_le_transitive, same_text, text_le,
    text_le_str, to_chars, views,
};
use crate::workflow::paths::{join_path, path_join};
use vstd::prelude::*;
use vstd::utf8::encode_utf8;

verus! {

/// Version of the manifest.
pub const CACHE_SCHEMA_VERSION: u8 = 2;

/// Name of the manifest in its store.
pub const MANIFEST_FILE_NAME: &'static str = "current.json";

/// Largest manifest that is read.
pub const MANIFEST_READ_LIMIT: usize = 16_384;

/// Directory of the generations in their store.
pub const GENERATIONS_DIRECTORY: &'static str = "generations";

/// Selects the current generation of a store and the one before it.
#[derive(Debug, Clone, PartialEq, Eq)]
pub struct GenerationManifest {
    /// Version of the manifest.
    pub version: u8,
    /// Identifier of the current generation.
    pub current: String,
    /// Identifier of the generation before it.
    pub previous: Option<String>,
}

/// A generation that a manifest selects.
#[derive(Debug, Clone, PartialEq, Eq)]
pub struct GenerationCandidate {
    /// Identifier of the generation.
    pub id: String,
    /// Its directory.
    pub directory: String,
}

/// One file of a generation.
#[derive(Debug, Clone, Copy)]
pub struct GenerationFile<'a> {
    /// Name in the directory of the generation.
    pub name: &'static str,
    /// What the file holds.
    pub contents: &'a [u8],
}

/// A file of a generation and how much of it is read.
#[derive(Debug, Clone, Copy)]
pub struct GenerationFileLimit {
    /// Name in the directory of the generation.
    pub name: &'static str,
    /// Largest file that is read.
    pub read_limit: usize,
}

impl<'a> View for GenerationFile<'a> {
    type V = (Seq<char>, Seq<u8>);

    open spec fn view(&self) -> (Seq<char>, Seq<u8>) {
        (self.name@, self.contents@)
    }
}

impl<'a> Ranked for GenerationFile<'a> {
    open spec fn ranked_le(self, other: GenerationFile<'a>) -> bool {
        text_le(self.name@, other.name@)
    }

    proof fn lemma_ranked_total(a: GenerationFile<'a>, b: GenerationFile<'a>) {
        lemma_text_le_total(a.name@, b.name@);
    }

    proof fn lemma_ranked_transitive(
        a: GenerationFile<'a>,
        b: GenerationFile<'a>,
        c: GenerationFile<'a>,
    ) {
        lemma_text_le_transitive(a.name@, b.name@, c.name@);
    }

    fn precedes(&self, other: &GenerationFile<'a>) -> (before: bool) {
        text_le_str(self.name, other.name)
    }
}

// Identifiers -----------------------------------------------------------------------------------

/// A number as bytes, lowest first.
pub open spec fn le_bytes(n: nat, count: nat) -> Seq<u8>
    decreases count,
{
    if count == 0 {
        Seq::empty()
    } else {
        seq![(n % 256) as u8] + le_bytes(n / 256, (count - 1) as nat)
    }
}

/// A length as the bytes of a machine word, lowest first.
pub open spec fn word_bytes(n: nat) -> Seq<u8> {
    le_bytes(n, usize::BITS as nat / 8)
}

/// A file as part of the message that a generation is identified by: its name and contents, each
/// behind its length.
pub open spec fn file_frame(name: Seq<char>, contents: Seq<u8>) -> Seq<u8> {
    word_bytes(encode_utf8(name).len()) + encode_utf8(name) + word_bytes(contents.len()) + contents
}

/// The message that a generation is identified by.
pub open spec fn generation_message<'a>(files: Seq<GenerationFile<'a>>) -> Seq<u8>
    decreases files.len(),
{
    if files.len() == 0 {
        Seq::empty()
    } else {
        generation_message(files.drop_last()) + file_frame(files.last()@.0, files.last()@.1)
    }
}

/// Identifier of a generation, given its files in the order of their names.
pub open spec fn generation_text<'a>(files: Seq<GenerationFile<'a>>) -> Seq<char> {
    sha256_text(generation_message(files))
}

/// Shape of an identifier.
pub open spec fn generation_id_text(value: Seq<char>) -> bool {
    value.len() == 64 && lower_hex(value)
}

/// Appends a length.
fn push_word(out: &mut Vec<u8>, n: usize)
    ensures
        final(out)@ == old(out)@ + word_bytes(n as nat),
{
    let count: u32 = usize::BITS / 8;
    let mut rest: usize = n;
    let mut left: u32 = count;
    let ghost start = out@;
    assert(start + word_bytes(n as nat) =~= out@ + le_bytes(rest as nat, left as nat));
    while left > 0
        invariant
            start + word_bytes(n as nat) == out@ + le_bytes(rest as nat, left as nat),
        decreases left,
    {
        out.push((rest % 256) as u8);
        rest = rest / 256;
        left = left - 1;
        assert(start + word_bytes(n as nat) =~= out@ + le_bytes(rest as nat, left as nat));
    }
    assert(out@ =~= out@ + le_bytes(rest as nat, 0));
}

/// Appends bytes.
fn push_bytes(out: &mut Vec<u8>, bytes: &[u8])
    ensures
        final(out)@ == old(out)@ + bytes@,
{
    let ghost start = out@;
    let mut i: usize = 0;
    assert(start + bytes@.take(0) =~= out@);
    while i < bytes.len()
        invariant
            i <= bytes@.len(),
            out@ == start + bytes@.take(i as int),
        decreases bytes@.len() - i,
    {
        out.push(bytes[i]);
        i += 1;
        assert(out@ =~= start + bytes@.take(i as int));
    }
    assert(bytes@.take(i as int) =~= bytes@);
}

/// Identifies a generation by its files in the order of their names.
fn generation_id<'a>(files: &Vec<GenerationFile<'a>>) -> (id: String)
    ensures
        id@ == generation_text(files@),
        generation_id_text(id@),
{
    let mut message: Vec<u8> = Vec::new();
    let mut i: usize = 0;
    assert(files@.take(0) =~= Seq::empty());
    while i < files.len()
        invariant
            i <= files@.len(),
            message@ == generation_message(files@.take(i as int)),
        decreases files@.len() - i,
    {
        let file: GenerationFile<'a> = files[i];
        let ghost before = message@;
        let name: &[u8] = file.name.as_bytes();
        push_word(&mut message, name.len());
        push_bytes(&mut message, name);
        push_word(&mut message, file.contents.len());
        push_bytes(&mut message, file.contents);
        proof {
            let next = files@.take(i + 1);
            assert(next.drop_last() =~= files@.take(i as int));
            assert(next.last() == file);
            assert(message@ =~= before + file_frame(file@.0, file@.1));
        }
        i += 1;
    }
    assert(files@.take(i as int) =~= files@);
    let id: String = sha256_hex(message.as_slice());
    proof {
        crate::adapter::digest::law_hex_text_digits(
            crate::adapter::digest::sha256_digest(message@),
        );
    }
    id
}

/// Decides whether a text has the shape of an identifier.
pub fn is_generation_id(value: &str) -> (shaped: bool)
    ensures
        shaped == generation_id_text(value@),
{
    let chars: Vec<char> = to_chars(value);
    is_hex_of_length(chars.as_slice(), 64)
}

/// A character of a file name in a generation.
pub open spec fn safe_name_char(c: char) -> bool {
    ||| '0' <= c <= '9'
    ||| 'a' <= c <= 'z'
    ||| 'A' <= c <= 'Z'
    ||| c == '.'
    ||| c == '_'
    ||| c == '-'
}

/// A visible base name of letters, digits, dots, underscores and hyphens.
pub open spec fn safe_file_name(value: Seq<char>) -> bool {
    &&& value.len() > 0
    &&& value[0] != '.'
    &&& forall|i: int| 0 <= i < value.len() ==> safe_name_char(#[trigger] value[i])
}

/// Decides [`safe_file_name`].
pub fn is_safe_file_name(value: &str) -> (safe: bool)
    ensures
        safe == safe_file_name(value@),
{
    let chars: Vec<char> = to_chars(value);
    if chars.len() == 0 || chars[0] == '.' {
        return false;
    }
    let mut i: usize = 0;
    while i < chars.len()
        invariant
            i <= chars@.len(),
            chars@ == value@,
            forall|k: int| 0 <= k < i ==> safe_name_char(#[trigger] chars@[k]),
        decreases chars@.len() - i,
    {
        let c: char = chars[i];
        if !(('0' <= c && c <= '9') || ('a' <= c && c <= 'z') || ('A' <= c && c <= 'Z') || c == '.'
            || c == '_' || c == '-') {
            assert(!safe_name_char(value@[i as int]));
            return false;
        }
        i += 1;
    }
    true
}

// Plans -----------------------------------------------------------------------------------------

/// Why files make no generation.
#[derive(Debug, Clone, Copy, PartialEq, Eq, Structural)]
pub enum GenerationPlanError {
    /// There are no files.
    NoFiles,
    /// A name is unsafe, or two files have the same one.
    UnsafeNames,
}

impl GenerationPlanError {
    /// Diagnostic text.
    pub fn message(&self) -> (text: &'static str)
        ensures
            text@ == match *self {
                GenerationPlanError::NoFiles => "cache generation contains no files"@,
                GenerationPlanError::UnsafeNames =>
                    "cache generation file names must be unique safe basenames"@,
            },
    {
        match self {
            GenerationPlanError::NoFiles => "cache generation contains no files",
            GenerationPlanError::UnsafeNames => {
                "cache generation file names must be unique safe basenames"
            },
        }
    }
}

/// A generation before it is written.
#[derive(Debug, Clone)]
pub struct GenerationPlan<'a> {
    /// Files in the order of their names.
    pub files: Vec<GenerationFile<'a>>,
    /// Identifier of the generation.
    pub generation_id: String,
    /// The generation that stays selectable beside it.
    pub previous: Option<String>,
}

/// Every file has a safe name of its own.
pub open spec fn distinct_safe_names<'a>(files: Seq<GenerationFile<'a>>) -> bool {
    &&& forall|i: int| 0 <= i < files.len() ==> safe_file_name((#[trigger] files[i]).name@)
    &&& forall|i: int, j: int|
        0 <= i < j < files.len() ==> (#[trigger] files[i]).name@ != (#[trigger] files[j]).name@
}

/// The generation that stays selectable beside a new one: the given one, if it has the shape of an
/// identifier and is another generation.
pub open spec fn retained_previous(previous: Option<Seq<char>>, id: Seq<char>) -> Option<
    Seq<char>,
> {
    match previous {
        Some(old) if generation_id_text(old) && old != id => Some(old),
        _ => None,
    }
}

/// Text of an optional string.
pub open spec fn option_text(text: Option<String>) -> Option<Seq<char>> {
    match text {
        Some(t) => Some(t@),
        None => None,
    }
}

proof fn lemma_distinct_names_sorted<'a>(
    files: Seq<GenerationFile<'a>>,
    ordered: Seq<GenerationFile<'a>>,
)
    requires
        stably_sorted(files, ordered),
    ensures
        files.len() == ordered.len(),
        distinct_safe_names(files) <==> distinct_safe_names(ordered),
{
    broadcast use vstd::seq_lib::group_to_multiset_ensures;

    lemma_sorted_members(files, ordered);
    assert(files.len() == files.to_multiset().len());
    assert(ordered.len() == ordered.to_multiset().len());
    if distinct_safe_names(files) {
        lemma_safe_transfers(files, ordered);
    }
    if distinct_safe_names(ordered) {
        lemma_safe_transfers(ordered, files);
    }
}

/// Distinct safe names do not depend on the order of the files.
proof fn lemma_safe_transfers<'a>(a: Seq<GenerationFile<'a>>, b: Seq<GenerationFile<'a>>)
    requires
        a.to_multiset() == b.to_multiset(),
        distinct_safe_names(a),
    ensures
        distinct_safe_names(b),
{
    broadcast use vstd::seq_lib::group_to_multiset_ensures;

    assert(a.no_duplicates()) by {
        assert forall|i: int, j: int| 0 <= i < a.len() && 0 <= j < a.len() && i != j implies a[i]
            != a[j] by {
            if i < j {
                assert(a[i].name@ != a[j].name@);
            } else {
                assert(a[j].name@ != a[i].name@);
            }
        }
    }
    a.lemma_multiset_has_no_duplicates();
    b.lemma_multiset_has_no_duplicates_conv();
    assert forall|i: int| 0 <= i < b.len() implies safe_file_name((#[trigger] b[i]).name@) by {
        assert(b.contains(b[i]));
        assert(b.to_multiset().contains(b[i]));
        assert(a.contains(b[i]));
        let k = choose|k: int| 0 <= k < a.len() && a[k] == b[i];
        assert(safe_file_name(a[k].name@));
    }
    assert forall|i: int, j: int| 0 <= i < j < b.len() implies (#[trigger] b[i]).name@ != (
    #[trigger] b[j]).name@ by {
        assert(b[i] != b[j]);
        assert(b.contains(b[i]) && b.contains(b[j]));
        assert(b.to_multiset().contains(b[i]) && b.to_multiset().contains(b[j]));
        assert(a.contains(b[i]) && a.contains(b[j]));
        let m = choose|m: int| 0 <= m < a.len() && a[m] == b[i];
        let n = choose|n: int| 0 <= n < a.len() && a[n] == b[j];
        if m < n {
            assert(a[m].name@ != a[n].name@);
        } else {
            assert(a[n].name@ != a[m].name@);
        }
    }
}

/// Plans a generation of files.
pub fn plan_generation<'a>(files: &Vec<GenerationFile<'a>>, previous: Option<&str>) -> (plan:
    Result<GenerationPlan<'a>, GenerationPlanError>)
    ensures
        plan matches Err(error) ==> error == if files@.len() == 0 {
            GenerationPlanError::NoFiles
        } else {
            GenerationPlanError::UnsafeNames
        },
        plan is Ok <==> files@.len() > 0 && distinct_safe_names(files@),
        plan matches Ok(p) ==> {
            &&& stably_sorted(files@, p.files@)
            &&& p.files@.len() == files@.len()
            &&& distinct_safe_names(p.files@)
            &&& p.generation_id@ == generation_text(p.files@)
            &&& generation_id_text(p.generation_id@)
            &&& option_text(p.previous) == retained_previous(
                match previous {
                    Some(old) => Some(old@),
                    None => None,
                },
                p.generation_id@,
            )
        },
{
    if files.len() == 0 {
        return Err(GenerationPlanError::NoFiles);
    }
    let mut copy: Vec<GenerationFile<'a>> = Vec::new();
    let mut i: usize = 0;
    while i < files.len()
        invariant
            i <= files@.len(),
            copy@ == files@.take(i as int),
        decreases files@.len() - i,
    {
        copy.push(files[i]);
        i += 1;
        assert(copy@ =~= files@.take(i as int));
    }
    assert(copy@ =~= files@);
    let ordered: Vec<GenerationFile<'a>> = sort_stable(copy);
    proof {
        lemma_distinct_names_sorted(files@, ordered@);
    }
    let mut k: usize = 0;
    while k < ordered.len()
        invariant
            k <= ordered@.len(),
            in_order(ordered@),
            files@.len() > 0,
            distinct_safe_names(files@) <==> distinct_safe_names(ordered@),
            distinct_safe_names(ordered@.take(k as int)),
        decreases ordered@.len() - k,
    {
        let repeated: bool = k > 0 && same_text(ordered[k - 1].name, ordered[k].name);
        if repeated || !is_safe_file_name(ordered[k].name) {
            proof {
                if repeated {
                    assert(ordered@[k - 1].name@ == ordered@[k as int].name@);
                } else {
                    assert(!safe_file_name(ordered@[k as int].name@));
                }
            }
            return Err(GenerationPlanError::UnsafeNames);
        }
        proof {
            let next = ordered@.take(k + 1);
            let seen = ordered@.take(k as int);
            assert forall|i: int| 0 <= i < next.len() implies safe_file_name(
                (#[trigger] next[i]).name@,
            ) by {
                if i < k {
                    assert(seen[i] == next[i]);
                }
            }
            assert forall|i: int, j: int| 0 <= i < j < next.len() implies (#[trigger] next[i]).name@
                != (#[trigger] next[j]).name@ by {
                if j < k {
                    assert(seen[i] == next[i] && seen[j] == next[j]);
                } else if next[i].name@ == next[j].name@ {
                    let last = ordered@[k - 1];
                    if i < k - 1 {
                        assert(ordered@[i].ranked_le(last));
                    } else {
                        assert(ordered@[i] == last);
                    }
                    assert(last.ranked_le(ordered@[k as int]));
                    lemma_text_le_antisymmetric(last.name@, next[j].name@);
                }
            }
        }
        k += 1;
    }
    assert(ordered@.take(k as int) =~= ordered@);
    let generation_id: String = generation_id(&ordered);
    let kept: Option<String> = match previous {
        Some(old) => {
            if is_generation_id(old) && !same_text(old, generation_id.as_str()) {
                Some(old.to_owned())
            } else {
                None
            }
        },
        None => None,
    };
    Ok(GenerationPlan { files: ordered, generation_id, previous: kept })
}

/// Decides whether the files that were read are those that a candidate is identified by.
pub fn generation_contents_match<'a>(
    candidate: &GenerationCandidate,
    files: Vec<GenerationFile<'a>>,
) -> (matching: bool)
    ensures
        exists|ordered: Seq<GenerationFile<'a>>| #[trigger]
            stably_sorted(files@, ordered) && matching == (generation_text(ordered)
                == candidate.id@),
{
    let ghost given = files@;
    let ordered: Vec<GenerationFile<'a>> = sort_stable(files);
    assert(stably_sorted(given, ordered@));
    let id: String = generation_id(&ordered);
    same_text(id.as_str(), candidate.id.as_str())
}

// Selection -------------------------------------------------------------------------------------

/// Directory of a generation.
pub open spec fn generation_directory(store_root: Seq<char>, id: Seq<char>) -> Seq<char> {
    path_join(path_join(store_root, GENERATIONS_DIRECTORY@), id)
}

/// A manifest of the known version whose identifiers have the right shape and differ.
pub open spec fn usable_manifest(manifest: GenerationManifest) -> bool {
    &&& manifest.version == CACHE_SCHEMA_VERSION
    &&& generation_id_text(manifest.current@)
    &&& manifest.previous matches Some(old) ==> generation_id_text(old@) && old@
        != manifest.current@
}

/// Identifiers that a manifest selects, the current one first; none where there is no usable
/// manifest.
pub open spec fn selected_ids(manifest: Option<GenerationManifest>) -> Seq<Seq<char>> {
    match manifest {
        Some(m) if usable_manifest(m) => match m.previous {
            Some(old) => seq![m.current@, old@],
            None => seq![m.current@],
        },
        _ => Seq::empty(),
    }
}

/// Candidates for identifiers.
pub open spec fn are_candidates(
    store_root: Seq<char>,
    ids: Seq<Seq<char>>,
    candidates: Seq<GenerationCandidate>,
) -> bool {
    &&& candidates.len() == ids.len()
    &&& forall|i: int|
        0 <= i < ids.len() ==> (#[trigger] candidates[i]).id@ == ids[i]
            && candidates[i].directory@ == generation_directory(store_root, ids[i])
}

fn candidate_for(store_root: &str, id: &String) -> (candidate: GenerationCandidate)
    ensures
        candidate.id@ == id@,
        candidate.directory@ == generation_directory(store_root@, id@),
{
    let root: String = join_path(store_root, GENERATIONS_DIRECTORY);
    GenerationCandidate { id: id.clone(), directory: join_path(root.as_str(), id.as_str()) }
}

/// Lists the generations that a store's manifest selects.
pub fn generation_candidates(store_root: &str, manifest: &Option<GenerationManifest>) -> (candidates:
    Vec<GenerationCandidate>)
    ensures
        are_candidates(store_root@, selected_ids(*manifest), candidates@),
{
    let mut candidates: Vec<GenerationCandidate> = Vec::new();
    if let Some(m) = manifest {
        let previous_fits: bool = match &m.previous {
            Some(old) => is_generation_id(old.as_str()) && !same_text(
                old.as_str(),
                m.current.as_str(),
            ),
            None => true,
        };
        if m.version == CACHE_SCHEMA_VERSION && is_generation_id(m.current.as_str())
            && previous_fits {
            candidates.push(candidate_for(store_root, &m.current));
            if let Some(old) = &m.previous {
                candidates.push(candidate_for(store_root, old));
            }
        }
    }
    candidates
}

/// Whether pruning keeps a generation.
pub open spec fn kept_generation(name: Seq<char>, manifest: GenerationManifest) -> bool {
    ||| name == manifest.current@
    ||| manifest.previous matches Some(old) && name == old@
}

/// Decides whether pruning keeps a generation.
pub fn keeps_generation(name: &str, manifest: &GenerationManifest) -> (kept: bool)
    ensures
        kept == kept_generation(name@, *manifest),
{
    if same_text(name, manifest.current.as_str()) {
        return true;
    }
    match &manifest.previous {
        Some(old) => same_text(name, old.as_str()),
        None => false,
    }
}

/// Names of the generations that pruning removes, in the given order.
pub open spec fn pruned(names: Seq<Seq<char>>, manifest: GenerationManifest) -> Seq<Seq<char>> {
    names.filter(|name: Seq<char>| !kept_generation(name, manifest))
}

/// Lists the generations that pruning removes.
pub fn pruned_generations(names: &Vec<String>, manifest: &GenerationManifest) -> (removed: Vec<
    String,
>)
    ensures
        views(removed@) == pruned(views(names@), *manifest),
{
    let mut removed: Vec<String> = Vec::new();
    let ghost drop = |name: Seq<char>| !kept_generation(name, *manifest);
    let ghost all = views(names@);
    let mut i: usize = 0;
    proof {
        reveal(Seq::filter);
        assert(all.take(0) =~= Seq::<Seq<char>>::empty());
        assert(views(removed@) =~= all.take(0).filter(drop));
    }
    while i < names.len()
        invariant
            i <= names@.len(),
            all == views(names@),
            drop == (|name: Seq<char>| !kept_generation(name, *manifest)),
            views(removed@) == all.take(i as int).filter(drop),
        decreases names@.len() - i,
    {
        let ghost before = removed@;
        proof {
            reveal(Seq::filter);
            assert(all.take(i + 1).drop_last() =~= all.take(i as int));
            assert(all.take(i + 1).last() == names@[i as int]@);
        }
        if !keeps_generation(names[i].as_str(), manifest) {
            removed.push(names[i].clone());
            assert(views(removed@) =~= views(before).push(names@[i as int]@));
        }
        i += 1;
    }
    assert(all.take(i as int) =~= all);
    removed
}

/// What a store's clean-up does.
#[derive(Debug, Clone, PartialEq, Eq)]
pub enum CleanupPlan {
    /// Leave the store as it is.
    Nothing,
    /// Remove every generation: the store never selected one.
    RemoveAll,
    /// Remove all generations but the selected ones.
    Prune(GenerationManifest),
}

/// Decides what cleaning a store up does.
pub fn cleanup_unselected_generations(
    manifest: &Option<GenerationManifest>,
    manifest_exists: bool,
) -> (plan: CleanupPlan)
    ensures
        match plan {
            CleanupPlan::Nothing => selected_ids(*manifest).len() == 0 && manifest_exists,
            CleanupPlan::RemoveAll => selected_ids(*manifest).len() == 0 && !manifest_exists,
            CleanupPlan::Prune(kept) => {
                &&& selected_ids(*manifest).len() > 0
                &&& kept.version == CACHE_SCHEMA_VERSION
                &&& kept.current@ == manifest->0.current@
                &&& option_text(kept.previous) == option_text(manifest->0.previous)
            },
        },
{
    let candidates: Vec<GenerationCandidate> = generation_candidates("", manifest);
    if candidates.len() == 0 {
        return if manifest_exists {
            CleanupPlan::Nothing
        } else {
            CleanupPlan::RemoveAll
        };
    }
    let ghost ids = selected_ids(*manifest);
    assert(candidates@[0].id@ == ids[0]);
    let current: String = candidates[0].id.clone();
    let previous: Option<String> = if candidates.len() > 1 {
        assert(candidates@[1].id@ == ids[1]);
        Some(candidates[1].id.clone())
    } else {
        None
    };
    CleanupPlan::Prune(GenerationManifest { version: CACHE_SCHEMA_VERSION, current, previous })
}

/// Pruning removes no generation that the manifest selects, and removes every other one.
pub proof fn law_pruning_keeps_selected(names: Seq<Seq<char>>, manifest: GenerationManifest)
    requires
        usable_manifest(manifest),
    ensures
        forall|name: Seq<char>| #[trigger]
            pruned(names, manifest).contains(name) <==> (names.contains(name) && !selected_ids(
                Some(manifest),
            ).contains(name)),
    decreases names.len(),
{
    let ids = selected_ids(Some(manifest));
    assert(ids.contains(ids[0]));
    if let Some(_) = manifest.previous {
        assert(ids.contains(ids[1]));
    }
    reveal(Seq::filter);
    let removed = pruned(names, manifest);
    if names.len() > 0 {
        let front = names.drop_last();
        let last = names.last();
        law_pruning_keeps_selected(front, manifest);
        let before = pruned(front, manifest);
        assert forall|name: Seq<char>| #[trigger] removed.contains(name) <==> (names.contains(name)
            && !ids.contains(name)) by {
            assert(kept_generation(last, manifest) <==> ids.contains(last));
            assert(names =~= front.push(last));
            assert(names.contains(name) <==> front.contains(name) || name == last) by {
                if front.contains(name) {
                    let k = choose|k: int| 0 <= k < front.len() && front[k] == name;
                    assert(names[k] == name);
                }
                assert(names[names.len() - 1] == last);
            }
            assert(removed.contains(name) <==> before.contains(name) || (!kept_generation(
                last,
                manifest,
            ) && name == last)) by {
                if before.contains(name) {
                    let k = choose|k: int| 0 <= k < before.len() && before[k] == name;
                    assert(removed[k] == name);
                }
                if !kept_generation(last, manifest) {
                    assert(removed =~= before.push(last));
                    assert(removed[removed.len() - 1] == last);
                }
            }
        }
    }
}

} // verus!
