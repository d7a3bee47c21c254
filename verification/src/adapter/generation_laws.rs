//! What identifies a cached generation, which one a manifest selects, and which ones are kept.

use crate::adapter::cache_generation::{
    cleanup_unselected_generations, file_frame, generation_candidates, generation_id_text,
    generation_message, generation_text, is_generation_id, is_safe_file_name, keeps_generation,
    le_bytes, plan_generation, pruned, pruned_generations, safe_file_name, safe_name_char,
    word_bytes, CleanupPlan, GenerationCandidate, GenerationFile, GenerationManifest,
    GenerationPlan, GenerationPlanError,
};
use crate::adapter::digest::sha256_text;
use crate::ordering::lemma_sorted_members;
use crate::text::{text_le, views};
use crate::workflow::paths::path_join;
use vstd::prelude::*;
use vstd::utf8::encode_utf8;

verus! {

/// Sixty-four lower-case hexadecimal digits.
pub open spec fn digest_shaped(value: Seq<char>) -> bool {
    &&& value.len() == 64
    &&& forall|i: int|
        0 <= i < 64 ==> ('0' <= #[trigger] value[i] <= '9' || 'a' <= value[i] <= 'f')
}

/// A name of letters, digits, dots, underscores and hyphens that starts with no dot.
pub open spec fn plain_name(value: Seq<char>) -> bool {
    &&& value.len() > 0
    &&& value[0] != '.'
    &&& forall|i: int|
        0 <= i < value.len() ==> ('0' <= #[trigger] value[i] <= '9' || 'a' <= value[i] <= 'z'
            || 'A' <= value[i] <= 'Z' || value[i] == '.' || value[i] == '_' || value[i] == '-')
}

/// Number that bytes stand for, the least significant byte first.
pub open spec fn le_value(bytes: Seq<u8>) -> nat
    decreases bytes.len(),
{
    if bytes.len() == 0 {
        0
    } else {
        bytes[0] as nat + 256 * le_value(bytes.drop_first())
    }
}

/// Power of 256.
pub open spec fn byte_power(count: nat) -> nat
    decreases count,
{
    if count == 0 {
        1
    } else {
        256 * byte_power((count - 1) as nat)
    }
}

proof fn lemma_le_bytes(n: nat, count: nat)
    requires
        n < byte_power(count),
    ensures
        le_bytes(n, count).len() == count,
        le_value(le_bytes(n, count)) == n,
    decreases count,
{
    if count > 0 {
        let rest = (count - 1) as nat;
        assert(n / 256 < byte_power(rest));
        lemma_le_bytes(n / 256, rest);
        assert(le_bytes(n, count).drop_first() =~= le_bytes(n / 256, rest));
        assert(n == n % 256 + 256 * (n / 256));
    }
}

/// A length stands in a frame as a machine word, the least significant byte first.
pub proof fn law_lengths_are_framed_as_words(n: usize)
    ensures
        word_bytes(n as nat).len() == usize::BITS / 8,
        le_value(word_bytes(n as nat)) == n,
{
    reveal_with_fuel(byte_power, 9);
    if usize::BITS == 32 {
        assert(byte_power(4) == 0x1_0000_0000);
        lemma_le_bytes(n as nat, 4);
    } else {
        assert(byte_power(8) == 0x1_0000_0000_0000_0000);
        lemma_le_bytes(n as nat, 8);
    }
}

/// The message of a generation takes its files in order: each adds the length of its name, its
/// name, the length of its contents and its contents.
pub proof fn law_files_are_framed_in_order<'a>(
    files: Seq<GenerationFile<'a>>,
    file: GenerationFile<'a>,
)
    ensures
        generation_message(Seq::<GenerationFile<'a>>::empty()).len() == 0,
        generation_message(files.push(file)) == generation_message(files) + word_bytes(
            encode_utf8(file.name@).len(),
        ) + encode_utf8(file.name@) + word_bytes(file.contents@.len()) + file.contents@,
        generation_text(files) == sha256_text(generation_message(files)),
{
    assert(files.push(file).drop_last() =~= files);
    assert(generation_message(files) + file_frame(file.name@, file.contents@)
        =~= generation_message(files) + word_bytes(encode_utf8(file.name@).len()) + encode_utf8(
        file.name@,
    ) + word_bytes(file.contents@.len()) + file.contents@);
}

/// A generation can be planned exactly for files, at least one, with plain names that differ. The
/// plan has these files in the order of their names, and it keeps the previous identifier where
/// that is one and another than its own.
pub proof fn law_generation_is_planned_for_plain_names<'a>(
    files: Vec<GenerationFile<'a>>,
    previous: Option<&str>,
    plan: Result<GenerationPlan<'a>, GenerationPlanError>,
)
    requires
        call_ensures(plan_generation, (&files, previous), plan),
    ensures
        plan is Ok <==> files@.len() > 0 && (forall|i: int|
            0 <= i < files@.len() ==> plain_name((#[trigger] files@[i]).name@)) && (forall|
            i: int,
            j: int,
        |
            0 <= i < j < files@.len() ==> (#[trigger] files@[i]).name@ != (
            #[trigger] files@[j]).name@),
        plan is Err ==> (plan->Err_0 is NoFiles <==> files@.len() == 0),
        plan matches Ok(p) ==> {
            &&& p.files@.len() == files@.len()
            &&& forall|file: GenerationFile<'a>| #[trigger]
                p.files@.contains(file) <==> files@.contains(file)
            &&& forall|i: int, j: int|
                0 <= i < j < p.files@.len() ==> text_le(
                    (#[trigger] p.files@[i]).name@,
                    (#[trigger] p.files@[j]).name@,
                )
            &&& p.generation_id@ == sha256_text(generation_message(p.files@))
            &&& p.previous is Some <==> (previous matches Some(old) && digest_shaped(old@) && old@
                != p.generation_id@)
            &&& p.previous is Some ==> p.previous->0@ == previous->0@
        },
{
    assert forall|i: int| 0 <= i < files@.len() implies plain_name(#[trigger] files@[i].name@)
        == safe_file_name(files@[i].name@) by {
        lemma_plain_name(files@[i].name@);
    }
    if let Ok(p) = plan {
        lemma_sorted_members(files@, p.files@);
        if let Some(old) = previous {
            lemma_digest_shaped(old@);
        }
    }
}

proof fn lemma_plain_name(value: Seq<char>)
    ensures
        plain_name(value) == safe_file_name(value),
{
    if plain_name(value) {
        assert(forall|i: int|
            0 <= i < value.len() ==> safe_name_char(
                #[trigger] value[i],
            ));
    }
    if safe_file_name(value) {
        assert forall|i: int| 0 <= i < value.len() implies ('0' <= #[trigger] value[i] <= '9' || 'a'
            <= value[i] <= 'z' || 'A' <= value[i] <= 'Z' || value[i] == '.' || value[i] == '_'
            || value[i] == '-') by {
            assert(safe_name_char(value[i]));
        }
    }
}

proof fn lemma_digest_shaped(value: Seq<char>)
    ensures
        digest_shaped(value) == generation_id_text(value),
{
}

/// File names and identifiers are told by their characters.
pub proof fn law_names_are_told_by_their_characters(value: &str, safe: bool, shaped: bool)
    requires
        call_ensures(is_safe_file_name, (value,), safe),
        call_ensures(is_generation_id, (value,), shaped),
    ensures
        safe == plain_name(value@),
        shaped == digest_shaped(value@),
{
    lemma_plain_name(value@);
    lemma_digest_shaped(value@);
}

/// A manifest of the current schema whose identifiers are digests that differ.
pub open spec fn sound_manifest(manifest: GenerationManifest) -> bool {
    &&& manifest.version == 2
    &&& digest_shaped(manifest.current@)
    &&& manifest.previous is Some ==> digest_shaped(manifest.previous->0@)
        && manifest.previous->0@ != manifest.current@
}

/// A sound manifest selects its current generation first and the previous one after it, each in
/// the directory of its identifier below `generations`; any other manifest selects none.
pub proof fn law_manifest_selects_its_generations(
    store_root: &str,
    manifest: Option<GenerationManifest>,
    candidates: Vec<GenerationCandidate>,
)
    requires
        call_ensures(generation_candidates, (store_root, &manifest), candidates),
    ensures
        candidates@.len() == (if manifest is Some && sound_manifest(manifest->0) {
            if manifest->0.previous is Some {
                2int
            } else {
                1
            }
        } else {
            0
        }),
        candidates@.len() > 0 ==> candidates@[0].id@ == manifest->0.current@,
        candidates@.len() > 1 ==> candidates@[1].id@ == manifest->0.previous->0@,
        forall|i: int|
            0 <= i < candidates@.len() ==> (#[trigger] candidates@[i]).directory@ == path_join(
                path_join(store_root@, "generations"@),
                candidates@[i].id@,
            ),
{
    if let Some(m) = manifest {
        lemma_digest_shaped(m.current@);
        if let Some(old) = m.previous {
            lemma_digest_shaped(old@);
        }
    }
}

/// A generation is kept exactly where it is the current one or the previous one.
pub proof fn law_only_selected_generations_are_kept(
    name: &str,
    manifest: GenerationManifest,
    kept: bool,
)
    requires
        call_ensures(keeps_generation, (name, &manifest), kept),
    ensures
        kept <==> name@ == manifest.current@ || (manifest.previous is Some
            && name@ == manifest.previous->0@),
{
}

proof fn lemma_pruned(names: Seq<Seq<char>>, manifest: GenerationManifest, name: Seq<char>)
    ensures
        pruned(names, manifest).to_multiset().count(name) == if name == manifest.current@ || (
        manifest.previous is Some && name == manifest.previous->0@) {
            0
        } else {
            names.to_multiset().count(name)
        },
    decreases names.len(),
{
    broadcast use vstd::seq_lib::group_to_multiset_ensures;
    broadcast use vstd::multiset::group_multiset_axioms;

    reveal(Seq::filter);
    if names.len() > 0 {
        lemma_pruned(names.drop_last(), manifest, name);
        assert(names.drop_last().push(names.last()) =~= names);
    }
}

/// Pruning takes every generation that is neither the current one nor the previous one, as often
/// as it is listed, and takes no other.
pub proof fn law_pruning_takes_the_rest(
    names: Vec<String>,
    manifest: GenerationManifest,
    removed: Vec<String>,
    name: Seq<char>,
)
    requires
        call_ensures(pruned_generations, (&names, &manifest), removed),
    ensures
        views(removed@).to_multiset().count(name) == if name == manifest.current@ || (
        manifest.previous is Some && name == manifest.previous->0@) {
            0
        } else {
            views(names@).to_multiset().count(name)
        },
{
    lemma_pruned(views(names@), manifest, name);
}

/// What is left over is pruned under a sound manifest, is removed where there is no manifest at
/// all, and is left alone where there is one that cannot be used.
pub proof fn law_unusable_manifests_protect_generations(
    manifest: Option<GenerationManifest>,
    manifest_exists: bool,
    plan: CleanupPlan,
)
    requires
        call_ensures(cleanup_unselected_generations, (&manifest, manifest_exists), plan),
    ensures
        plan is Prune <==> manifest is Some && sound_manifest(manifest->0),
        plan is RemoveAll <==> !(manifest is Some && sound_manifest(manifest->0))
            && !manifest_exists,
        plan is Prune ==> plan->0.current@ == manifest->0.current@ && (plan->0.previous is Some
            <==> manifest->0.previous is Some),
        plan is Prune && manifest->0.previous is Some ==> plan->0.previous->0@
            == manifest->0.previous->0@,
{
    if let Some(m) = manifest {
        lemma_digest_shaped(m.current@);
        if let Some(old) = m.previous {
            lemma_digest_shaped(old@);
        }
    }
}

} // verus!
