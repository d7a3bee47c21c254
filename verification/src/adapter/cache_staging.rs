//! Staging and promotion of a generation: which step follows which, and what a failure undoes.

use crate::adapter::cache_generation::{
    generation_directory, generation_id_text, option_text, selected_ids, GenerationManifest,
    CACHE_SCHEMA_VERSION, GENERATIONS_DIRECTORY,
};
use crate::workflow::paths::join_path;
use vstd::prelude::*;

verus! {

/// How often a fresh staging directory is tried for.
pub const STAGING_ATTEMPTS: u8 = 32;

/// Moments at which a caller may look at, or fail, a commit.
#[derive(Debug, Clone, Copy, PartialEq, Eq, Structural)]
pub enum CommitStage {
    /// All files are written to the staging directory.
    Staged,
    /// The generation has its final directory.
    Published,
    /// The manifest selects the generation.
    ManifestCommitted,
}

/// What staging does next.
#[derive(Debug, Clone, Copy, PartialEq, Eq, Structural)]
pub enum StagingStep {
    /// Create the directory of the generations.
    CreateRoot,
    /// Create a staging directory under a name of its own.
    CreateStaging {
        /// Names tried before.
        attempt: u8,
    },
    /// Create, write and flush one file of the staging directory.
    WriteFile {
        /// Index of the file.
        index: usize,
    },
    /// Flush the staging directory.
    SyncStaging,
    /// Report [`CommitStage::Staged`].
    ReportStaged,
    /// Look whether the generation has a directory already, and whether it holds the same files.
    Inspect,
    /// Remove the staging directory in favour of the directory that exists.
    DropStaging,
    /// Remove the directory that exists: its files were damaged.
    RemoveStale,
    /// Rename the staging directory to that of the generation.
    Publish {
        /// The directory is new.
        fresh: bool,
    },
    /// Flush the directory of the generations.
    SyncRoot {
        /// The directory is new.
        fresh: bool,
    },
    /// Report [`CommitStage::Published`].
    ReportPublished {
        /// The directory is new.
        fresh: bool,
    },
    /// Remove the directory that was published, whatever comes of it.
    Withdraw,
    /// Remove the staging directory, whatever comes of it.
    CleanUp,
    /// The generation is staged.
    Finished {
        /// The directory is new.
        fresh: bool,
    },
    /// Staging failed.
    Failed,
}

/// What came of a step.
#[derive(Debug, Clone, Copy, PartialEq, Eq, Structural)]
pub enum StagingEvent {
    /// It was done, or a look found nothing there.
    Done,
    /// What was to be created, or was looked for, is there already.
    Present,
    /// What was looked for is there, with other contents.
    Stale,
    /// It failed.
    Broken,
}

/// The step after a step, for a generation of `count` files.
pub open spec fn following_step(count: nat, step: StagingStep, event: StagingEvent) -> StagingStep {
    match (step, event) {
        (StagingStep::CreateRoot, StagingEvent::Done) => StagingStep::CreateStaging { attempt: 0 },
        (StagingStep::CreateRoot, _) => StagingStep::Failed,
        (StagingStep::CreateStaging { .. }, StagingEvent::Done) => StagingStep::WriteFile {
            index: 0,
        },
        (StagingStep::CreateStaging { attempt }, StagingEvent::Present) => if attempt + 1
            < STAGING_ATTEMPTS {
            StagingStep::CreateStaging { attempt: (attempt + 1) as u8 }
        } else {
            StagingStep::Failed
        },
        (StagingStep::CreateStaging { .. }, _) => StagingStep::Failed,
        (StagingStep::WriteFile { index }, StagingEvent::Done) => if index + 1 < count {
            StagingStep::WriteFile { index: (index + 1) as usize }
        } else {
            StagingStep::SyncStaging
        },
        (StagingStep::SyncStaging, StagingEvent::Done) => StagingStep::ReportStaged,
        (StagingStep::ReportStaged, StagingEvent::Done) => StagingStep::Inspect,
        (StagingStep::Inspect, StagingEvent::Present) => StagingStep::DropStaging,
        (StagingStep::Inspect, StagingEvent::Stale) => StagingStep::RemoveStale,
        (StagingStep::Inspect, StagingEvent::Done) => StagingStep::Publish { fresh: true },
        (StagingStep::RemoveStale, StagingEvent::Done) => StagingStep::Publish { fresh: false },
        (StagingStep::DropStaging, StagingEvent::Done) => StagingStep::ReportPublished {
            fresh: false,
        },
        (StagingStep::Publish { fresh }, StagingEvent::Done) => StagingStep::SyncRoot { fresh },
        (StagingStep::SyncRoot { fresh }, StagingEvent::Done) => StagingStep::ReportPublished {
            fresh,
        },
        (StagingStep::ReportPublished { fresh }, StagingEvent::Done) => StagingStep::Finished {
            fresh,
        },
        (StagingStep::ReportPublished { fresh: true }, _) => StagingStep::Withdraw,
        (StagingStep::CleanUp, _) => StagingStep::Failed,
        (StagingStep::Finished { fresh }, _) => StagingStep::Finished { fresh },
        (StagingStep::Failed, _) => StagingStep::Failed,
        _ => StagingStep::CleanUp,
    }
}

/// Decides the step after a step.
pub fn next_step(count: usize, step: StagingStep, event: StagingEvent) -> (next: StagingStep)
    ensures
        next == following_step(count as nat, step, event),
{
    let done: bool = event == StagingEvent::Done;
    match step {
        StagingStep::CreateRoot => if done {
            StagingStep::CreateStaging { attempt: 0 }
        } else {
            StagingStep::Failed
        },
        StagingStep::CreateStaging { attempt } => if done {
            StagingStep::WriteFile { index: 0 }
        } else if event == StagingEvent::Present && attempt < STAGING_ATTEMPTS - 1 {
            StagingStep::CreateStaging { attempt: attempt + 1 }
        } else {
            StagingStep::Failed
        },
        StagingStep::WriteFile { index } => if !done {
            StagingStep::CleanUp
        } else if index < count && index + 1 < count {
            StagingStep::WriteFile { index: index + 1 }
        } else {
            StagingStep::SyncStaging
        },
        StagingStep::SyncStaging => if done {
            StagingStep::ReportStaged
        } else {
            StagingStep::CleanUp
        },
        StagingStep::ReportStaged => if done {
            StagingStep::Inspect
        } else {
            StagingStep::CleanUp
        },
        StagingStep::Inspect => if done {
            StagingStep::Publish { fresh: true }
        } else if event == StagingEvent::Present {
            StagingStep::DropStaging
        } else if event == StagingEvent::Stale {
            StagingStep::RemoveStale
        } else {
            StagingStep::CleanUp
        },
        StagingStep::DropStaging => if done {
            StagingStep::ReportPublished { fresh: false }
        } else {
            StagingStep::CleanUp
        },
        StagingStep::RemoveStale => if done {
            StagingStep::Publish { fresh: false }
        } else {
            StagingStep::CleanUp
        },
        StagingStep::Publish { fresh } => if done {
            StagingStep::SyncRoot { fresh }
        } else {
            StagingStep::CleanUp
        },
        StagingStep::SyncRoot { fresh } => if done {
            StagingStep::ReportPublished { fresh }
        } else {
            StagingStep::CleanUp
        },
        StagingStep::ReportPublished { fresh } => if done {
            StagingStep::Finished { fresh }
        } else if fresh {
            StagingStep::Withdraw
        } else {
            StagingStep::CleanUp
        },
        StagingStep::Withdraw => StagingStep::CleanUp,
        StagingStep::CleanUp => StagingStep::Failed,
        StagingStep::Finished { fresh } => StagingStep::Finished { fresh },
        StagingStep::Failed => StagingStep::Failed,
    }
}

/// The step that a run of events leads to.
pub open spec fn reached_step(count: nat, events: Seq<StagingEvent>) -> StagingStep
    decreases events.len(),
{
    if events.len() == 0 {
        StagingStep::CreateRoot
    } else {
        following_step(count, reached_step(count, events.drop_last()), events.last())
    }
}

/// The file with an index was written in a run of events.
pub open spec fn file_written(count: nat, events: Seq<StagingEvent>, index: int) -> bool {
    exists|k: int|
        0 <= k < events.len() && events[k] == StagingEvent::Done && #[trigger] reached_step(
            count,
            events.take(k),
        ) == (StagingStep::WriteFile { index: index as usize })
}

/// The step comes after all files are written.
pub open spec fn after_writing(step: StagingStep) -> bool {
    match step {
        StagingStep::SyncStaging => true,
        StagingStep::ReportStaged => true,
        StagingStep::Inspect => true,
        StagingStep::DropStaging => true,
        StagingStep::RemoveStale => true,
        StagingStep::Publish { .. } => true,
        StagingStep::SyncRoot { .. } => true,
        StagingStep::ReportPublished { .. } => true,
        StagingStep::Withdraw => true,
        StagingStep::Finished { .. } => true,
        _ => false,
    }
}

proof fn lemma_written(count: nat, events: Seq<StagingEvent>)
    requires
        0 < count <= usize::MAX,
    ensures
        match reached_step(count, events) {
            StagingStep::WriteFile { index } => index < count && forall|i: int|
                0 <= i < index ==> #[trigger] file_written(count, events, i),
            step => after_writing(step) ==> forall|i: int|
                0 <= i < count ==> #[trigger] file_written(count, events, i),
        },
    decreases events.len(),
{
    if events.len() > 0 {
        let before = events.drop_last();
        lemma_written(count, before);
        let step = reached_step(count, before);
        let m = events.len() - 1;
        assert(events.take(m) =~= before);
        assert forall|i: int| #[trigger] file_written(count, before, i) implies file_written(
            count,
            events,
            i,
        ) by {
            let k = choose|k: int|
                0 <= k < before.len() && before[k] == StagingEvent::Done
                    && #[trigger] reached_step(count, before.take(k)) == (StagingStep::WriteFile {
                    index: i as usize,
                });
            assert(events.take(k) =~= before.take(k));
            assert(events[k] == before[k]);
            assert(reached_step(count, events.take(k)) == (StagingStep::WriteFile {
                index: i as usize,
            }));
        }
        if let StagingStep::WriteFile { index } = step {
            if events.last() == StagingEvent::Done {
                assert(events[m] == StagingEvent::Done);
                assert(reached_step(count, events.take(m)) == (StagingStep::WriteFile {
                    index: index as usize,
                }));
                assert(file_written(count, events, index as int));
                match reached_step(count, events) {
                    StagingStep::WriteFile { index: next } => {
                        assert forall|i: int| 0 <= i < next implies #[trigger] file_written(
                            count,
                            events,
                            i,
                        ) by {
                            if i < index {
                                assert(file_written(count, before, i));
                            }
                        }
                    },
                    _ => {
                        assert forall|i: int| 0 <= i < count implies #[trigger] file_written(
                            count,
                            events,
                            i,
                        ) by {
                            if i < index {
                                assert(file_written(count, before, i));
                            }
                        }
                    },
                }
            }
        } else if after_writing(step) && after_writing(reached_step(count, events)) {
            assert forall|i: int| 0 <= i < count implies #[trigger] file_written(
                count,
                events,
                i,
            ) by {
                assert(file_written(count, before, i));
            }
        }
    }
}

/// A generation is published, and staging finishes, only after each of its files was written.
pub proof fn law_published_generation_is_complete(count: nat, events: Seq<StagingEvent>)
    requires
        0 < count <= usize::MAX,
    ensures
        reached_step(count, events) is Publish || reached_step(count, events) is Finished
            ==> forall|i: int| 0 <= i < count ==> #[trigger] file_written(count, events, i),
{
    lemma_written(count, events);
}

/// Every failure leads to `Failed` without finishing: where a staging directory may be left, it is
/// removed first, and a directory that was just published is withdrawn before.
pub proof fn law_failure_cleans_up(count: nat, step: StagingStep)
    requires
        !(step is Finished),
    ensures
        ({
            let next = following_step(count, step, StagingEvent::Broken);
            &&& next is Failed || next is CleanUp || next is Withdraw
            &&& next is Failed ==> step is CreateRoot || step is CreateStaging || step is CleanUp
                || step is Failed
            &&& step == (StagingStep::ReportPublished { fresh: true }) ==> next is Withdraw
            &&& next is Withdraw ==> following_step(count, next, StagingEvent::Broken) is CleanUp
        }),
        forall|event: StagingEvent| #[trigger]
            following_step(count, StagingStep::CleanUp, event) is Failed,
{
}

// Promotion -------------------------------------------------------------------------------------

/// Fully written generation whose manifest has not yet selected it.
///
/// Dropping an unpromoted generation removes a newly published directory when possible. A
/// content-addressed directory that already existed is left untouched because another selected
/// manifest may still reference it.
#[derive(Debug, Clone, PartialEq, Eq)]
pub struct StagedGeneration {
    /// Directory of the store.
    pub store_root: String,
    /// Identifier of the generation.
    pub generation_id: String,
    /// The generation that stays selectable beside it.
    pub previous: Option<String>,
    /// The directory is new and is removed if the generation is dropped before promotion.
    pub remove_on_drop: bool,
    /// The manifest selects the generation.
    pub promoted: bool,
}

impl StagedGeneration {
    /// A generation that was staged.
    pub fn new(
        store_root: &str,
        generation_id: &String,
        previous: &Option<String>,
        fresh: bool,
    ) -> (staged: StagedGeneration)
        ensures
            staged.store_root@ == store_root@,
            staged.generation_id@ == generation_id@,
            option_text(staged.previous) == option_text(*previous),
            staged.remove_on_drop == fresh,
            !staged.promoted,
    {
        StagedGeneration {
            store_root: store_root.to_owned(),
            generation_id: generation_id.clone(),
            previous: match previous {
                Some(old) => Some(old.clone()),
                None => None,
            },
            remove_on_drop: fresh,
            promoted: false,
        }
    }

    /// The manifest that promotion writes.
    pub fn manifest(&self) -> (manifest: GenerationManifest)
        ensures
            manifest.version == CACHE_SCHEMA_VERSION,
            manifest.current@ == self.generation_id@,
            option_text(manifest.previous) == option_text(self.previous),
    {
        GenerationManifest {
            version: CACHE_SCHEMA_VERSION,
            current: self.generation_id.clone(),
            previous: match &self.previous {
                Some(old) => Some(old.clone()),
                None => None,
            },
        }
    }

    /// Notes that the manifest was written.
    pub fn mark_promoted(&mut self)
        ensures
            *final(self) == (StagedGeneration {
                promoted: true,
                remove_on_drop: false,
                ..*old(self)
            }),
    {
        self.promoted = true;
        self.remove_on_drop = false;
    }

    /// The directory that dropping the generation removes.
    pub fn abandoned_directory(&self) -> (directory: Option<String>)
        ensures
            directory is Some <==> !self.promoted && self.remove_on_drop,
            directory matches Some(path) ==> path@ == generation_directory(
                self.store_root@,
                self.generation_id@,
            ),
    {
        if !self.promoted && self.remove_on_drop {
            let root: String = join_path(self.store_root.as_str(), GENERATIONS_DIRECTORY);
            Some(join_path(root.as_str(), self.generation_id.as_str()))
        } else {
            None
        }
    }
}

/// Once its manifest is written, a staged generation is the one that its store selects first, and
/// the generation before it stays selectable.
pub proof fn law_promotion_selects(staged: StagedGeneration, manifest: GenerationManifest)
    requires
        generation_id_text(staged.generation_id@),
        staged.previous matches Some(old) ==> generation_id_text(old@) && old@
            != staged.generation_id@,
        manifest.version == CACHE_SCHEMA_VERSION,
        manifest.current@ == staged.generation_id@,
        option_text(manifest.previous) == option_text(staged.previous),
    ensures
        selected_ids(Some(manifest)) == (match option_text(staged.previous) {
            Some(old) => seq![staged.generation_id@, old],
            None => seq![staged.generation_id@],
        }),
{
}

} // verus!
