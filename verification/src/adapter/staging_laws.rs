//! What staging and dropping a generation do to its store.

use crate::adapter::cache_generation::{
    distinct_safe_names, generation_id_text, generation_text, kept_generation, option_text,
    safe_file_name, selected_ids, GenerationFile, GenerationManifest, CACHE_SCHEMA_VERSION,
};
use crate::adapter::cache_staging::{
    following_step, law_promotion_selects, reached_step, StagedGeneration, StagingEvent,
    StagingStep,
};
use crate::ordering::{in_order, stably_sorted};
use vstd::prelude::*;

verus! {

/// Files of a directory: what each holds, by name.
pub type DirectoryModel = Map<Seq<char>, Seq<u8>>;

/// A store of generations on disk.
pub struct StoreModel {
    /// Directories of the generations, by identifier.
    pub generations: Map<Seq<char>, DirectoryModel>,
    /// The staging directory, where there is one.
    pub staging: Option<DirectoryModel>,
    /// Bytes of the manifest, where there is one.
    pub manifest: Option<Seq<u8>>,
}

/// A directory with the files and no others.
pub open spec fn directory_of<'a>(files: Seq<GenerationFile<'a>>) -> DirectoryModel
    decreases files.len(),
{
    if files.len() == 0 {
        Map::empty()
    } else {
        directory_of(files.drop_last()).insert(files.last().name@, files.last().contents@)
    }
}

/// The directory has the files' names, and what is read under them is what the identifier is made
/// of.
pub open spec fn holds_generation<'a>(
    directory: DirectoryModel,
    files: Seq<GenerationFile<'a>>,
    id: Seq<char>,
) -> bool {
    exists|read: Seq<GenerationFile<'a>>, ordered: Seq<GenerationFile<'a>>|
        {
            &&& #[trigger] stably_sorted(read, ordered)
            &&& reads_directory(directory, files, read)
            &&& generation_text(ordered) == id
        }
}

/// The files that are read of a directory under the files' names.
pub open spec fn reads_directory<'a>(
    directory: DirectoryModel,
    files: Seq<GenerationFile<'a>>,
    read: Seq<GenerationFile<'a>>,
) -> bool {
    &&& read.len() == files.len()
    &&& forall|i: int|
        0 <= i < files.len() ==> directory.contains_key((#[trigger] read[i]).name@)
            && read[i].name@ == files[i].name@ && directory[read[i].name@] == read[i].contents@
}

/// The generation has a directory whose contents were damaged.
pub open spec fn damaged<'a>(
    store: StoreModel,
    files: Seq<GenerationFile<'a>>,
    id: Seq<char>,
) -> bool {
    store.generations.contains_key(id) && !holds_generation(store.generations[id], files, id)
}

/// A step of staging was performed: what came of it tells of the store before it, and a step that
/// was done changed what it says. A step that failed may have been done in part.
pub open spec fn performed<'a>(
    files: Seq<GenerationFile<'a>>,
    id: Seq<char>,
    before: StoreModel,
    step: StagingStep,
    event: StagingEvent,
    after: StoreModel,
) -> bool {
    let done = event == StagingEvent::Done;
    match step {
        StagingStep::CreateStaging { .. } => after == if done {
            StoreModel { staging: Some(Map::empty()), ..before }
        } else {
            before
        },
        StagingStep::WriteFile { index } => {
            &&& after == (StoreModel { staging: after.staging, ..before })
            &&& done ==> before.staging is Some && after.staging == Some(
                before.staging->0.insert(files[index as int].name@, files[index as int].contents@),
            )
        },
        StagingStep::Inspect => {
            &&& after == before
            &&& done ==> !before.generations.contains_key(id)
            &&& event == StagingEvent::Present ==> before.generations.contains_key(id)
                && holds_generation(before.generations[id], files, id)
            &&& event == StagingEvent::Stale ==> damaged(before, files, id)
        },
        StagingStep::DropStaging | StagingStep::CleanUp => {
            &&& after == (StoreModel { staging: after.staging, ..before })
            &&& done ==> after.staging is None
        },
        StagingStep::RemoveStale | StagingStep::Withdraw => {
            &&& after == (StoreModel { generations: after.generations, ..before })
            &&& after.generations.remove(id) == before.generations.remove(id)
            &&& done ==> after.generations == before.generations.remove(id)
        },
        StagingStep::Publish { .. } => if done {
            before.staging is Some && after == (StoreModel {
                generations: before.generations.insert(id, before.staging->0),
                staging: None,
                ..before
            })
        } else {
            after == before
        },
        _ => after == before,
    }
}

/// A run of staging: the store before, between and after its steps.
pub open spec fn stages<'a>(
    files: Seq<GenerationFile<'a>>,
    id: Seq<char>,
    events: Seq<StagingEvent>,
    stores: Seq<StoreModel>,
) -> bool {
    &&& stores.len() == events.len() + 1
    &&& forall|i: int|
        #![trigger events[i]]
        0 <= i < events.len() ==> performed(
            files,
            id,
            stores[i],
            reached_step(files.len(), events.take(i)),
            events[i],
            stores[i + 1],
        )
}

/// The files are those of a plan: there are some, in the order of distinct safe names, and they
/// make the identifier.
pub open spec fn planned<'a>(files: Seq<GenerationFile<'a>>, id: Seq<char>) -> bool {
    &&& 0 < files.len() <= usize::MAX
    &&& in_order(files)
    &&& distinct_safe_names(files)
    &&& id == generation_text(files)
}

/// What holds of the store before a step, given the store at the start of the run.
spec fn ready<'a>(
    files: Seq<GenerationFile<'a>>,
    id: Seq<char>,
    start: StoreModel,
    step: StagingStep,
    store: StoreModel,
) -> bool {
    let complete = store.staging == Some(directory_of(files));
    let untouched = store.generations == start.generations;
    let published = store.generations == start.generations.insert(id, directory_of(files));
    let intact = start.generations.contains_key(id) && holds_generation(
        start.generations[id],
        files,
        id,
    );
    &&& store.manifest == start.manifest
    &&& store.generations.remove(id) == start.generations.remove(id)
    &&& match step {
        StagingStep::CreateRoot => untouched,
        StagingStep::CreateStaging { .. } => untouched,
        StagingStep::WriteFile { index } => untouched && index < files.len() && store.staging
            == Some(directory_of(files.take(index as int))),
        StagingStep::SyncStaging => untouched && complete,
        StagingStep::ReportStaged => untouched && complete,
        StagingStep::Inspect => untouched && complete,
        StagingStep::DropStaging => untouched && intact,
        StagingStep::RemoveStale => untouched && complete && damaged(start, files, id),
        StagingStep::Publish { fresh } => {
            &&& complete
            &&& store.generations == start.generations.remove(id)
            &&& if fresh {
                !start.generations.contains_key(id)
            } else {
                damaged(start, files, id)
            }
        },
        StagingStep::SyncRoot { fresh } => published && if fresh {
            !start.generations.contains_key(id)
        } else {
            damaged(start, files, id)
        },
        StagingStep::ReportPublished { fresh } | StagingStep::Finished { fresh } => if fresh {
            published && !start.generations.contains_key(id)
        } else {
            (published && damaged(start, files, id)) || (untouched && intact)
        },
        _ => true,
    }
}

/// A step leads from what holds before it to what holds before the next one.
proof fn lemma_step<'a>(
    files: Seq<GenerationFile<'a>>,
    id: Seq<char>,
    start: StoreModel,
    before: StoreModel,
    step: StagingStep,
    event: StagingEvent,
    after: StoreModel,
)
    requires
        planned(files, id),
        ready(files, id, start, step, before),
        performed(files, id, before, step, event, after),
    ensures
        ready(files, id, start, following_step(files.len(), step, event), after),
{
    let gone = start.generations.remove(id);
    assert(gone.insert(id, directory_of(files)) =~= start.generations.insert(
        id,
        directory_of(files),
    ));
    assert(start.generations.insert(id, directory_of(files)).remove(id) =~= gone);
    assert(gone.remove(id) =~= gone);
    if !start.generations.contains_key(id) {
        assert(gone =~= start.generations);
    }
    assert(files.take(0) =~= Seq::empty());
    if let StagingStep::WriteFile { index } = step {
        let next = files.take(index + 1);
        assert(next.drop_last() =~= files.take(index as int));
        assert(next.last() == files[index as int]);
        if index + 1 == files.len() {
            assert(next =~= files);
        }
    }
}

/// What holds of the store after a run.
proof fn lemma_run<'a>(
    files: Seq<GenerationFile<'a>>,
    id: Seq<char>,
    events: Seq<StagingEvent>,
    stores: Seq<StoreModel>,
    n: int,
)
    requires
        planned(files, id),
        stages(files, id, events, stores),
        0 <= n <= events.len(),
    ensures
        ready(files, id, stores[0], reached_step(files.len(), events.take(n)), stores[n]),
    decreases n,
{
    if n > 0 {
        lemma_run(files, id, events, stores, n - 1);
        let seen = events.take(n);
        assert(seen.drop_last() =~= events.take(n - 1));
        assert(seen.last() == events[n - 1]);
        lemma_step(
            files,
            id,
            stores[0],
            stores[n - 1],
            reached_step(files.len(), events.take(n - 1)),
            events[n - 1],
            stores[n],
        );
    }
}

/// A directory with the files is read as the files.
pub(crate) proof fn lemma_directory_reads<'a>(files: Seq<GenerationFile<'a>>)
    requires
        distinct_safe_names(files),
    ensures
        reads_directory(directory_of(files), files, files),
    decreases files.len(),
{
    if files.len() > 0 {
        let front = files.drop_last();
        assert(distinct_safe_names(front)) by {
            assert forall|i: int, j: int| 0 <= i < j < front.len() implies (
            #[trigger] front[i]).name@ != (#[trigger] front[j]).name@ by {
                assert(files[i].name@ != files[j].name@);
            }
            assert forall|i: int| 0 <= i < front.len() implies safe_file_name(
                (#[trigger] front[i]).name@,
            ) by {
                assert(front[i] == files[i]);
            }
        }
        lemma_directory_reads(front);
        assert forall|i: int| 0 <= i < files.len() implies directory_of(files).contains_key(
            (#[trigger] files[i]).name@,
        ) && directory_of(files)[files[i].name@] == files[i].contents@ by {
            if i < front.len() {
                assert(front[i] == files[i]);
                assert(files[i].name@ != files[files.len() - 1].name@);
            }
        }
    }
}

/// A directory with the files of a plan holds its generation.
proof fn lemma_directory_holds<'a>(files: Seq<GenerationFile<'a>>, id: Seq<char>)
    requires
        planned(files, id),
    ensures
        holds_generation(directory_of(files), files, id),
{
    lemma_directory_reads(files);
    assert(stably_sorted(files, files));
}

/// Staging that finishes ends with the right contents: the directory of the generation holds what
/// the identifier is made of, also where it was damaged before. A directory that was damaged or
/// did not exist then holds the files and no others.
pub proof fn law_staging_repairs<'a>(
    files: Seq<GenerationFile<'a>>,
    id: Seq<char>,
    events: Seq<StagingEvent>,
    stores: Seq<StoreModel>,
)
    requires
        planned(files, id),
        stages(files, id, events, stores),
        reached_step(files.len(), events) is Finished,
    ensures
        stores.last().generations.contains_key(id),
        holds_generation(stores.last().generations[id], files, id),
        !stores[0].generations.contains_key(id) || damaged(stores[0], files, id)
            ==> stores.last().generations[id] == directory_of(files),
{
    assert(events.take(events.len() as int) =~= events);
    lemma_run(files, id, events, stores, events.len() as int);
    lemma_directory_holds(files, id);
}

/// No step failed: each was done, or was a look that found something.
pub open spec fn smooth(count: nat, events: Seq<StagingEvent>) -> bool {
    forall|i: int|
        0 <= i < events.len() ==> #[trigger] events[i] == StagingEvent::Done || (reached_step(
            count,
            events.take(i),
        ) is Inspect && events[i] != StagingEvent::Broken)
}

/// Steps that are left at most when none fails.
spec fn steps_left(count: nat, step: StagingStep) -> int {
    match step {
        StagingStep::CreateRoot => count as int + 9,
        StagingStep::CreateStaging { .. } => count as int + 8,
        StagingStep::WriteFile { index } => if index < count {
            count - index + 7
        } else {
            8
        },
        StagingStep::SyncStaging => 7,
        StagingStep::ReportStaged => 6,
        StagingStep::Inspect => 5,
        StagingStep::RemoveStale => 4,
        StagingStep::Publish { .. } => 3,
        StagingStep::SyncRoot { .. } => 2,
        StagingStep::DropStaging => 2,
        StagingStep::ReportPublished { .. } => 1,
        _ => 0,
    }
}

/// The step is on the way to the end of staging, or is it.
spec fn advancing(step: StagingStep) -> bool {
    !(step is Withdraw || step is CleanUp || step is Failed)
}

proof fn lemma_advances(count: nat, events: Seq<StagingEvent>, n: int)
    requires
        0 < count <= usize::MAX,
        smooth(count, events),
        0 <= n <= events.len(),
    ensures
        ({
            let step = reached_step(count, events.take(n));
            &&& advancing(step)
            &&& step is Finished || steps_left(count, step) <= count + 9 - n
        }),
    decreases n,
{
    if n > 0 {
        lemma_advances(count, events, n - 1);
        let seen = events.take(n);
        assert(seen.drop_last() =~= events.take(n - 1));
        assert(seen.last() == events[n - 1]);
    }
}

/// Staging finishes wherever no step fails, whether the generation has no directory, the right one
/// or a damaged one.
pub proof fn law_staging_finishes(count: nat, events: Seq<StagingEvent>)
    requires
        0 < count <= usize::MAX,
        smooth(count, events),
        events.len() >= count + 9,
    ensures
        reached_step(count, events) is Finished,
{
    let n = count + 9;
    lemma_advances(count, events, events.len() as int);
    assert(events.take(events.len() as int) =~= events);
    lemma_advances(count, events, n as int);
    let step = reached_step(count, events);
    assert(steps_left(count, step) > 0 || step is Finished);
}

/// Whatever comes of it, staging leaves the manifest and all other generations as they were, at
/// every moment.
pub proof fn law_staging_is_unselected<'a>(
    files: Seq<GenerationFile<'a>>,
    id: Seq<char>,
    events: Seq<StagingEvent>,
    stores: Seq<StoreModel>,
    n: int,
)
    requires
        planned(files, id),
        stages(files, id, events, stores),
        0 <= n < stores.len(),
    ensures
        stores[n].manifest == stores[0].manifest,
        stores[n].generations.remove(id) == stores[0].generations.remove(id),
{
    lemma_run(files, id, events, stores, n);
}

/// A staged generation was dropped before its promotion: a directory that is new goes with it.
pub open spec fn dropped(before: StoreModel, staged: StagedGeneration, after: StoreModel) -> bool {
    after == if !staged.promoted && staged.remove_on_drop {
        StoreModel { generations: before.generations.remove(staged.generation_id@), ..before }
    } else {
        before
    }
}

/// A generation that is staged and dropped without promotion leaves the store as it was: the
/// manifest holds the same bytes and every generation has the directory that it had. Only a
/// directory of the same generation that was damaged is left repaired.
pub proof fn law_dropped_generation_leaves_the_store<'a>(
    files: Seq<GenerationFile<'a>>,
    events: Seq<StagingEvent>,
    stores: Seq<StoreModel>,
    staged: StagedGeneration,
    after: StoreModel,
)
    requires
        planned(files, staged.generation_id@),
        stages(files, staged.generation_id@, events, stores),
        reached_step(files.len(), events) == (StagingStep::Finished {
            fresh: staged.remove_on_drop,
        }),
        !staged.promoted,
        dropped(stores.last(), staged, after),
    ensures
        after.manifest == stores[0].manifest,
        after.generations == if damaged(stores[0], files, staged.generation_id@) {
            stores[0].generations.insert(staged.generation_id@, directory_of(files))
        } else {
            stores[0].generations
        },
{
    let id = staged.generation_id@;
    assert(events.take(events.len() as int) =~= events);
    lemma_run(files, id, events, stores, events.len() as int);
    let start = stores[0].generations;
    if staged.remove_on_drop {
        assert(start.insert(id, directory_of(files)).remove(id) =~= start);
    }
}

/// Directories of the generations that the manifest of a store selects, the current one first;
/// `parse` reads the bytes of a manifest.
pub open spec fn selected_directories(
    parse: spec_fn(Seq<u8>) -> Option<GenerationManifest>,
    store: StoreModel,
) -> Seq<(Seq<char>, Option<DirectoryModel>)> {
    let manifest = match store.manifest {
        Some(bytes) => parse(bytes),
        None => None,
    };
    selected_ids(manifest).map_values(
        |id: Seq<char>|
            (
                id,
                if store.generations.contains_key(id) {
                    Some(store.generations[id])
                } else {
                    None
                },
            ),
    )
}

/// A generation that is staged and dropped without promotion is invisible: what the store selects
/// is what it selected before. Left out is a selected generation whose directory was damaged and
/// which was staged again: it is left repaired.
pub proof fn law_dropped_generation_is_invisible<'a>(
    parse: spec_fn(Seq<u8>) -> Option<GenerationManifest>,
    files: Seq<GenerationFile<'a>>,
    events: Seq<StagingEvent>,
    stores: Seq<StoreModel>,
    staged: StagedGeneration,
    after: StoreModel,
)
    requires
        planned(files, staged.generation_id@),
        stages(files, staged.generation_id@, events, stores),
        reached_step(files.len(), events) == (StagingStep::Finished {
            fresh: staged.remove_on_drop,
        }),
        !staged.promoted,
        dropped(stores.last(), staged, after),
        damaged(stores[0], files, staged.generation_id@) ==> forall|k: int|
            0 <= k < selected_directories(parse, stores[0]).len() ==> (
            #[trigger] selected_directories(parse, stores[0])[k]).0 != staged.generation_id@,
    ensures
        selected_directories(parse, after) == selected_directories(parse, stores[0]),
{
    law_dropped_generation_leaves_the_store(files, events, stores, staged, after);
    let then = selected_directories(parse, stores[0]);
    let now = selected_directories(parse, after);
    assert(then.len() == now.len());
    assert forall|k: int| 0 <= k < then.len() implies then[k] == now[k] by {
        assert(then[k].0 == now[k].0);
    }
    assert(now =~= then);
}

/// A staged generation was promoted: the manifest reads as that of the generation, and the
/// generations that it selects have the directories that they had; others may be gone.
pub open spec fn promoted_store(
    parse: spec_fn(Seq<u8>) -> Option<GenerationManifest>,
    before: StoreModel,
    staged: StagedGeneration,
    after: StoreModel,
) -> bool {
    &&& after.manifest is Some
    &&& parse(after.manifest->0) matches Some(manifest) && {
        &&& manifest.version == CACHE_SCHEMA_VERSION
        &&& manifest.current@ == staged.generation_id@
        &&& option_text(manifest.previous) == option_text(staged.previous)
        &&& forall|name: Seq<char>|
            kept_generation(name, manifest) ==> (#[trigger] after.generations.contains_key(name)
                <==> before.generations.contains_key(name)) && (before.generations.contains_key(name)
                ==> after.generations[name] == before.generations[name])
    }
}

/// A generation that is staged and promoted is what its store selects first, with the contents that
/// its identifier is made of, also where its directory was damaged before.
pub proof fn law_promoted_generation_is_selected_first<'a>(
    parse: spec_fn(Seq<u8>) -> Option<GenerationManifest>,
    files: Seq<GenerationFile<'a>>,
    events: Seq<StagingEvent>,
    stores: Seq<StoreModel>,
    staged: StagedGeneration,
    after: StoreModel,
)
    requires
        planned(files, staged.generation_id@),
        stages(files, staged.generation_id@, events, stores),
        reached_step(files.len(), events) is Finished,
        generation_id_text(staged.generation_id@),
        staged.previous matches Some(old) ==> generation_id_text(old@) && old@
            != staged.generation_id@,
        promoted_store(parse, stores.last(), staged, after),
    ensures
        ({
            let id = staged.generation_id@;
            &&& selected_directories(parse, after).len() > 0
            &&& selected_directories(parse, after)[0] == (
                id,
                Some(stores.last().generations[id]),
            )
            &&& holds_generation(stores.last().generations[id], files, id)
        }),
{
    let id = staged.generation_id@;
    law_staging_repairs(files, id, events, stores);
    let manifest = parse(after.manifest->0)->0;
    law_promotion_selects(staged, manifest);
    assert(kept_generation(id, manifest));
    assert(after.generations.contains_key(id));
    assert(selected_ids(Some(manifest))[0] == id);
}

} // verus!
