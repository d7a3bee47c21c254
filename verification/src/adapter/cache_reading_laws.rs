//! When cached files are used, and what is told of those that are not.

use crate::adapter::blocklist_file::{words, BlocklistFastState};
use crate::adapter::cache_faults::{generation_fault, generation_fault_of, CacheFault};
use crate::adapter::digest::sha256_text;
use crate::adapter::http_cache::{
    contents_match, generation_agrees, RemoteGenerationReading, StoredGeneration,
};
use crate::adapter::offline_cache::{offline_of, store_rule, OfflineRemoteGeneration};
use crate::adapter::prompt::{ends_line, with_input, PromptInput};
use crate::adapter::remote_parse::RemoteFeedLimits;
use crate::text::{is_space, trim};
use crate::workflow::paths::path_join;
use vstd::prelude::*;
use vstd::utf8::encode_utf8;

verus! {

/// Metadata, response and list of a generation are there and agree: the checksums are those of the
/// files, and the URL is one.
pub open spec fn intact(reading: RemoteGenerationReading) -> bool {
    &&& reading.metadata is Some
    &&& reading.raw is Some
    &&& reading.iplist is Some
    &&& trim(reading.metadata->0.url@).len() > 0
    &&& sha256_text(reading.raw->0@) == reading.metadata->0.sha256_raw@
    &&& sha256_text(encode_utf8(reading.iplist->0@)) == reading.metadata->0.sha256_iplist@
}

/// The generation was judged to have the contents that it is identified by, and is intact.
pub open spec fn accepted(stored: StoredGeneration) -> bool {
    contents_match(stored.candidate, stored.reading, true) && intact(stored.reading)
}

/// The generation was judged to have other contents, or is not intact.
pub open spec fn passed_over(stored: StoredGeneration) -> bool {
    contents_match(stored.candidate, stored.reading, false) || !intact(stored.reading)
}

/// The first intact generation of a store is read offline, under its own URL as the label; a store
/// without one gives nothing.
pub proof fn law_store_gives_its_first_intact_generation(
    name: Seq<char>,
    generations: Seq<StoredGeneration>,
    found: Option<OfflineRemoteGeneration>,
) -> (k: int)
    requires
        store_rule(name, generations, found),
    ensures
        0 <= k <= generations.len(),
        forall|i: int| 0 <= i < k ==> passed_over(#[trigger] generations[i]),
        found is None <==> k == generations.len(),
        found matches Some(generation) ==> {
            &&& accepted(generations[k])
            &&& generation.url_hash@ == name
            &&& generation.label@ == trim(generations[k].reading.metadata->0.url@)
            &&& generation.iplist@ == generations[k].reading.iplist->0@
            &&& generation.iplist_path@ == path_join(
                generations[k].candidate.directory@,
                "iplist"@,
            )
        },
    decreases generations.len(),
{
    if generations.len() == 0 {
        0
    } else {
        let first = generations[0];
        let matching = choose|matching: bool| #[trigger]
            contents_match(first.candidate, first.reading, matching) && if matching
                && generation_agrees(first.reading, None) {
                found matches Some(generation) && offline_of(
                    name,
                    first,
                    generation,
                )
            } else {
                store_rule(name, generations.drop_first(), found)
            };
        if matching && generation_agrees(first.reading, None) {
            0
        } else {
            let rest = generations.drop_first();
            let k = law_store_gives_its_first_intact_generation(name, rest, found);
            assert forall|i: int| 0 <= i < k + 1 implies passed_over(#[trigger] generations[i]) by {
                if i > 0 {
                    assert(generations[i] == rest[i - 1]);
                }
            }
            k + 1
        }
    }
}

/// The fault of a generation names something that is wrong with it, and one without a fault is
/// complete, has the contents that it is identified by, and is intact under the expected URL.
pub proof fn law_faults_name_what_is_wrong(
    stored: StoredGeneration,
    expected_url: Option<&str>,
    limits: Option<RemoteFeedLimits>,
    fault: Option<CacheFault>,
)
    requires
        call_ensures(generation_fault, (&stored, expected_url, limits), fault),
    ensures
        stored.reading.raw is None || stored.reading.iplist_bytes is None
            || stored.reading.metadata_bytes is None ==> fault == Some(CacheFault::Incomplete),
        fault is None ==> accepted(stored),
        fault is None && expected_url is Some ==> trim(stored.reading.metadata->0.url@) == trim(
            expected_url->0@,
        ),
        fault == Some(CacheFault::ContentId) ==> contents_match(
            stored.candidate,
            stored.reading,
            false,
        ),
        fault == Some(CacheFault::Metadata) ==> stored.reading.metadata is None,
        fault == Some(CacheFault::Iplist) ==> stored.reading.iplist is None,
        fault == Some(CacheFault::Url) ==> stored.reading.metadata is Some && (trim(
            stored.reading.metadata->0.url@,
        ).len() == 0 || expected_url is Some && trim(stored.reading.metadata->0.url@) != trim(
            expected_url->0@,
        )),
        fault == Some(CacheFault::RawChecksum) ==> stored.reading.metadata is Some
            && stored.reading.raw is Some && sha256_text(stored.reading.raw->0@)
            != stored.reading.metadata->0.sha256_raw@,
        fault == Some(CacheFault::IplistChecksum) ==> stored.reading.metadata is Some
            && stored.reading.iplist is Some && sha256_text(
            encode_utf8(stored.reading.iplist->0@),
        ) != stored.reading.metadata->0.sha256_iplist@,
{
    let expected = match expected_url {
        Some(url) => Some(url@),
        None => None,
    };
    let matching = choose|matching: bool| #[trigger]
        contents_match(stored.candidate, stored.reading, matching) && fault == generation_fault_of(
            stored,
            matching,
            expected,
            limits,
        );
    assert(contents_match(stored.candidate, stored.reading, matching));
}

/// Typed bytes are taken as they come, up to the line feed or the end of the input.
pub proof fn law_typed_bytes_are_taken_up_to_the_line_feed(bytes: Seq<u8>, byte: u8)
    ensures
        byte != 10 ==> with_input(bytes, PromptInput::Byte(byte)) == bytes.push(byte)
            && !ends_line(PromptInput::Byte(byte)),
        with_input(bytes, PromptInput::Byte(10)) == bytes,
        with_input(bytes, PromptInput::End) == bytes,
        with_input(bytes, PromptInput::Idle) == bytes,
        ends_line(PromptInput::Byte(10)),
        ends_line(PromptInput::End),
        !ends_line(PromptInput::Idle),
{
}

proof fn lemma_word(s: Seq<char>, word: Seq<char>)
    requires
        word.len() > 0,
        forall|i: int| 0 <= i < word.len() ==> !is_space(#[trigger] word[i]),
        s.len() == 0 || is_space(s.last()),
    ensures
        words(s + word) == words(s).push(word),
    decreases word.len(),
{
    let all = s + word;
    let front = word.drop_last();
    assert(all.drop_last() =~= s + front);
    if front.len() > 0 {
        lemma_word(s, front);
        assert(words(s).push(front).drop_last() =~= words(s));
        assert(front.push(word.last()) =~= word);
    } else {
        assert(s + front =~= s);
        assert(seq![word.last()] =~= word);
    }
}

/// Words are what stands between white space: white space adds none, and a run of other characters
/// after it adds one.
pub proof fn law_words_stand_between_spaces(s: Seq<char>, space: char, word: Seq<char>)
    requires
        is_space(space),
        word.len() > 0,
        forall|i: int| 0 <= i < word.len() ==> !is_space(#[trigger] word[i]),
    ensures
        words(Seq::empty()).len() == 0,
        words(word) == seq![word],
        words(s.push(space)) == words(s),
        words(s.push(space) + word) == words(s).push(word),
{
    lemma_word(Seq::empty(), word);
    assert(Seq::<char>::empty() + word =~= word);
    assert(words(Seq::<char>::empty()).push(word) =~= seq![word]);
    assert(s.push(space).drop_last() =~= s);
    lemma_word(s.push(space), word);
}

/// A marker is read only from three words of which the first is the version.
pub proof fn law_marker_has_three_words(contents: &str, state: Option<BlocklistFastState>)
    requires
        call_ensures(BlocklistFastState::parse, (contents,), state),
    ensures
        state is Some ==> words(contents@).len() == 3 && words(contents@)[0] == "v1"@,
{
}

} // verus!
