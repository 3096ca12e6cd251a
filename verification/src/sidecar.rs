//! How the metadata file beside an event log is replaced and recovered: the
//! steps that are taken in its directory, and what a crash between two of
//! them leaves.

use vstd::prelude::*;

verus! {

/// What is seen of the files before a step of the recovery. The last answer
/// says whether the file that was read last holds valid metadata.
#[derive(Clone, Copy, Debug, PartialEq, Eq, Structural)]
pub struct Sighting {
    pub primary: bool,
    pub backup: bool,
    /// The file that an earlier layout used is there, and is another file.
    pub legacy: bool,
    pub temporaries: usize,
    pub readable: bool,
}

/// The file that the metadata came from.
#[derive(Clone, Copy, Debug, PartialEq, Eq, Structural)]
pub enum Source {
    Nothing,
    Primary,
    Backup,
    Legacy,
}

#[derive(Clone, Copy, Debug, PartialEq, Eq, Structural)]
pub enum RecoveryStage {
    Start,
    Trying(usize),
    Placed,
    ReadingPrimary,
    Tidying(Source),
    ReadingBackup,
    ReadingLegacy,
    Finishing(Source),
}

#[derive(Clone, Copy, Debug, PartialEq, Eq, Structural)]
pub enum RecoveryAction {
    /// Rename the backup to the primary file.
    RestoreBackup,
    ReadTemporary(usize),
    /// Rename a temporary file to the primary file.
    AdoptTemporary(usize),
    ReadPrimary,
    ReadBackup,
    ReadLegacy,
    RemoveBackup,
    /// Remove the primary file and rename the backup to it.
    ReplacePrimary,
    RemoveTemporaries,
    /// Write what was read from the earlier layout as the primary file.
    InstallLegacy,
    Finish(Source),
    /// Report why the file could not be read.
    Fail(Source),
}

/// What follows once the primary file is where it should be.
pub open spec fn placed_step(seen: Sighting) -> (RecoveryStage, RecoveryAction) {
    if seen.primary {
        (RecoveryStage::ReadingPrimary, RecoveryAction::ReadPrimary)
    } else if seen.legacy {
        (RecoveryStage::ReadingLegacy, RecoveryAction::ReadLegacy)
    } else {
        (RecoveryStage::Finishing(Source::Nothing), RecoveryAction::RemoveTemporaries)
    }
}

/// The next thing to do.
pub open spec fn recovery_step(stage: RecoveryStage, seen: Sighting) -> (
    RecoveryStage,
    RecoveryAction,
) {
    match stage {
        RecoveryStage::Start => if !seen.primary && seen.backup {
            (RecoveryStage::Placed, RecoveryAction::RestoreBackup)
        } else if !seen.primary && seen.temporaries > 0 {
            (RecoveryStage::Trying(0), RecoveryAction::ReadTemporary(0))
        } else {
            placed_step(seen)
        },
        RecoveryStage::Trying(index) => if seen.readable {
            (RecoveryStage::Placed, RecoveryAction::AdoptTemporary(index))
        } else if index + 1 < seen.temporaries {
            (
                RecoveryStage::Trying((index + 1) as usize),
                RecoveryAction::ReadTemporary((index + 1) as usize),
            )
        } else {
            placed_step(seen)
        },
        RecoveryStage::Placed => placed_step(seen),
        RecoveryStage::ReadingPrimary => if seen.readable && seen.backup {
            (RecoveryStage::Tidying(Source::Primary), RecoveryAction::RemoveBackup)
        } else if seen.readable {
            (RecoveryStage::Finishing(Source::Primary), RecoveryAction::RemoveTemporaries)
        } else if seen.backup {
            (RecoveryStage::ReadingBackup, RecoveryAction::ReadBackup)
        } else {
            (stage, RecoveryAction::Fail(Source::Primary))
        },
        RecoveryStage::Tidying(source) => (
            RecoveryStage::Finishing(source),
            RecoveryAction::RemoveTemporaries,
        ),
        RecoveryStage::ReadingBackup => if seen.readable {
            (RecoveryStage::Tidying(Source::Backup), RecoveryAction::ReplacePrimary)
        } else {
            (stage, RecoveryAction::Fail(Source::Primary))
        },
        RecoveryStage::ReadingLegacy => if seen.readable {
            (RecoveryStage::Finishing(Source::Legacy), RecoveryAction::InstallLegacy)
        } else {
            (stage, RecoveryAction::Fail(Source::Legacy))
        },
        RecoveryStage::Finishing(source) => (stage, RecoveryAction::Finish(source)),
    }
}

fn next_when_placed(seen: Sighting) -> (step: (RecoveryStage, RecoveryAction))
    ensures
        step == placed_step(seen),
{
    if seen.primary {
        (RecoveryStage::ReadingPrimary, RecoveryAction::ReadPrimary)
    } else if seen.legacy {
        (RecoveryStage::ReadingLegacy, RecoveryAction::ReadLegacy)
    } else {
        (RecoveryStage::Finishing(Source::Nothing), RecoveryAction::RemoveTemporaries)
    }
}

/// Decides on the next step of a recovery.
pub fn next_recovery(stage: RecoveryStage, seen: Sighting) -> (step: (
    RecoveryStage,
    RecoveryAction,
))
    ensures
        step == recovery_step(stage, seen),
{
    match stage {
        RecoveryStage::Start => {
            if !seen.primary && seen.backup {
                (RecoveryStage::Placed, RecoveryAction::RestoreBackup)
            } else if !seen.primary && seen.temporaries > 0 {
                (RecoveryStage::Trying(0), RecoveryAction::ReadTemporary(0))
            } else {
                next_when_placed(seen)
            }
        },
        RecoveryStage::Trying(index) => {
            if seen.readable {
                (RecoveryStage::Placed, RecoveryAction::AdoptTemporary(index))
            } else if index < seen.temporaries && index + 1 < seen.temporaries {
                (RecoveryStage::Trying(index + 1), RecoveryAction::ReadTemporary(index + 1))
            } else {
                next_when_placed(seen)
            }
        },
        RecoveryStage::Placed => next_when_placed(seen),
        RecoveryStage::ReadingPrimary => {
            if seen.readable && seen.backup {
                (RecoveryStage::Tidying(Source::Primary), RecoveryAction::RemoveBackup)
            } else if seen.readable {
                (RecoveryStage::Finishing(Source::Primary), RecoveryAction::RemoveTemporaries)
            } else if seen.backup {
                (RecoveryStage::ReadingBackup, RecoveryAction::ReadBackup)
            } else {
                (stage, RecoveryAction::Fail(Source::Primary))
            }
        },
        RecoveryStage::Tidying(source) => (
            RecoveryStage::Finishing(source),
            RecoveryAction::RemoveTemporaries,
        ),
        RecoveryStage::ReadingBackup => {
            if seen.readable {
                (RecoveryStage::Tidying(Source::Backup), RecoveryAction::ReplacePrimary)
            } else {
                (stage, RecoveryAction::Fail(Source::Primary))
            }
        },
        RecoveryStage::ReadingLegacy => {
            if seen.readable {
                (RecoveryStage::Finishing(Source::Legacy), RecoveryAction::InstallLegacy)
            } else {
                (stage, RecoveryAction::Fail(Source::Legacy))
            }
        },
        RecoveryStage::Finishing(source) => (stage, RecoveryAction::Finish(source)),
    }
}

#[derive(Clone, Copy, Debug, PartialEq, Eq, Structural)]
pub enum InstallStep {
    /// Write the new generation to a temporary file, and make it durable.
    WriteTemporary,
    RemoveBackup,
    /// Rename the primary file to the backup.
    SetAside,
    /// Rename the temporary file to the primary file.
    PutInPlace,
}

/// The steps that install a generation, where these files are there.
pub open spec fn install_plan(primary: bool, backup: bool) -> Seq<InstallStep> {
    seq![InstallStep::WriteTemporary] + (if backup {
        seq![InstallStep::RemoveBackup]
    } else {
        seq![]
    }) + (if primary {
        seq![InstallStep::SetAside, InstallStep::PutInPlace, InstallStep::RemoveBackup]
    } else {
        seq![InstallStep::PutInPlace]
    })
}

/// Plans the installation of a generation. The one before stays readable
/// until the new one is in place.
pub fn plan_install(primary: bool, backup: bool) -> (steps: Vec<InstallStep>)
    ensures
        steps@ == install_plan(primary, backup),
{
    let mut steps: Vec<InstallStep> = Vec::new();
    steps.push(InstallStep::WriteTemporary);
    if backup {
        steps.push(InstallStep::RemoveBackup);
    }
    if primary {
        steps.push(InstallStep::SetAside);
    }
    steps.push(InstallStep::PutInPlace);
    if primary {
        steps.push(InstallStep::RemoveBackup);
    }
    assert(steps@ =~= install_plan(primary, backup));
    steps
}

// ---------------------------------------------------------------------------
// What the steps do to the files.

/// The files of a directory, as far as the metadata goes: what each holds. The
/// legacy file is counted where it is another file than the primary one.
pub struct Files<G> {
    pub primary: Option<G>,
    pub backup: Option<G>,
    pub temporaries: Seq<G>,
    pub legacy: Option<G>,
}

pub open spec fn sighted<G>(files: Files<G>, readable: bool) -> Sighting {
    Sighting {
        primary: files.primary is Some,
        backup: files.backup is Some,
        legacy: files.legacy is Some,
        temporaries: files.temporaries.len() as usize,
        readable,
    }
}

/// The files after an action of the recovery.
pub open spec fn after_action<G>(files: Files<G>, action: RecoveryAction) -> Files<G> {
    match action {
        RecoveryAction::RestoreBackup => Files { primary: files.backup, backup: None, ..files },
        RecoveryAction::AdoptTemporary(index) => Files {
            primary: Some(files.temporaries[index as int]),
            temporaries: files.temporaries.remove(index as int),
            ..files
        },
        RecoveryAction::RemoveBackup => Files { backup: None, ..files },
        RecoveryAction::ReplacePrimary => Files { primary: files.backup, backup: None, ..files },
        RecoveryAction::RemoveTemporaries => Files { temporaries: seq![], ..files },
        RecoveryAction::InstallLegacy => Files { primary: files.legacy, ..files },
        _ => files,
    }
}

/// Whether the file that an action reads holds valid metadata.
pub open spec fn answer<G>(
    valid: spec_fn(G) -> bool,
    files: Files<G>,
    action: RecoveryAction,
) -> bool {
    match action {
        RecoveryAction::ReadTemporary(index) => valid(files.temporaries[index as int]),
        RecoveryAction::ReadPrimary => valid(files.primary->0),
        RecoveryAction::ReadBackup => valid(files.backup->0),
        RecoveryAction::ReadLegacy => valid(files.legacy->0),
        _ => false,
    }
}

pub open spec fn steps_left(stage: RecoveryStage, temporaries: nat) -> nat {
    match stage {
        RecoveryStage::Start => temporaries + 7,
        RecoveryStage::Trying(index) => (if index < temporaries {
            (temporaries - index) as nat
        } else {
            0
        }) + 6,
        RecoveryStage::Placed => 5,
        RecoveryStage::ReadingPrimary => 4,
        RecoveryStage::ReadingBackup => 3,
        RecoveryStage::ReadingLegacy => 2,
        RecoveryStage::Tidying(_) => 2,
        RecoveryStage::Finishing(_) => 1,
    }
}

pub enum Recovered<G> {
    /// There is no metadata.
    Nothing,
    Metadata(G),
    Failed,
}

/// A whole recovery: what it ends with, and the files that it leaves.
pub open spec fn recovery<G>(
    valid: spec_fn(G) -> bool,
    stage: RecoveryStage,
    files: Files<G>,
    readable: bool,
) -> (Recovered<G>, Files<G>)
    decreases steps_left(stage, files.temporaries.len() as usize as nat),
{
    let (next, action) = recovery_step(stage, sighted(files, readable));
    match action {
        RecoveryAction::Fail(_) => (Recovered::Failed, files),
        RecoveryAction::Finish(Source::Nothing) => (Recovered::Nothing, files),
        RecoveryAction::Finish(Source::Legacy) => (Recovered::Metadata(files.legacy->0), files),
        RecoveryAction::Finish(_) => (Recovered::Metadata(files.primary->0), files),
        _ => recovery(
            valid,
            next,
            after_action(files, action),
            answer(valid, files, action),
        ),
    }
}

/// The first of the files that holds valid metadata, if one does.
pub open spec fn first_valid<G>(valid: spec_fn(G) -> bool, list: Seq<G>) -> Option<G>
    decreases list.len(),
{
    if list.len() == 0 {
        None
    } else if valid(list.first()) {
        Some(list.first())
    } else {
        first_valid(valid, list.drop_first())
    }
}

/// What a directory holds: the primary file, or the backup where there is no
/// valid primary one, or a temporary file where there is neither, or the file
/// of the earlier layout.
pub open spec fn held<G>(valid: spec_fn(G) -> bool, files: Files<G>) -> Recovered<G> {
    match (files.primary, files.backup) {
        (Some(primary), _) => if valid(primary) {
            Recovered::Metadata(primary)
        } else {
            match files.backup {
                Some(backup) => if valid(backup) {
                    Recovered::Metadata(backup)
                } else {
                    Recovered::Failed
                },
                None => Recovered::Failed,
            }
        },
        (None, Some(backup)) => if valid(backup) {
            Recovered::Metadata(backup)
        } else {
            Recovered::Failed
        },
        (None, None) => match first_valid(valid, files.temporaries) {
            Some(generation) => Recovered::Metadata(generation),
            None => match files.legacy {
                Some(legacy) => if valid(legacy) {
                    Recovered::Metadata(legacy)
                } else {
                    Recovered::Failed
                },
                None => Recovered::Nothing,
            },
        },
    }
}

proof fn placed_files_are_read<G>(valid: spec_fn(G) -> bool, files: Files<G>)
    requires
        files.temporaries.len() <= usize::MAX,
        files.primary is Some || files.backup is None && first_valid(valid, files.temporaries)
            is None,
    ensures
        ({
            let ended = recovery(valid, RecoveryStage::Placed, files, false);
            &&& ended.0 == held(valid, files)
            &&& ended.0 is Metadata ==> ended.1.primary == Some(held(valid, files)->Metadata_0)
                && ended.1.backup is None
        }),
{
    reveal_with_fuel(recovery, 6);
}

proof fn temporaries_are_tried<G>(
    valid: spec_fn(G) -> bool,
    files: Files<G>,
    index: usize,
)
    requires
        files.temporaries.len() <= usize::MAX,
        index < files.temporaries.len(),
        files.primary is None,
        files.backup is None,
        forall|i: int| 0 <= i < index ==> !valid(#[trigger] files.temporaries[i]),
    ensures
        ({
            let ended = recovery(
                valid,
                RecoveryStage::Trying(index),
                files,
                valid(files.temporaries[index as int]),
            );
            &&& ended.0 == held(valid, files)
            &&& ended.0 is Metadata ==> ended.1.primary == Some(held(valid, files)->Metadata_0)
                && ended.1.backup is None
        }),
    decreases files.temporaries.len() - index,
{
    let generation = files.temporaries[index as int];
    if valid(generation) {
        first_valid_is_first(valid, files.temporaries, index as int);
        let moved = after_action(files, RecoveryAction::AdoptTemporary(index));
        placed_files_are_read(valid, moved);
    } else if index + 1 < files.temporaries.len() {
        temporaries_are_tried(valid, files, (index + 1) as usize);
    } else {
        none_is_valid(valid, files.temporaries);
        reveal_with_fuel(recovery, 6);
    }
}

proof fn first_valid_is_first<G>(valid: spec_fn(G) -> bool, list: Seq<G>, index: int)
    requires
        0 <= index < list.len(),
        valid(list[index]),
        forall|i: int| 0 <= i < index ==> !valid(#[trigger] list[i]),
    ensures
        first_valid(valid, list) == Some(list[index]),
    decreases list.len(),
{
    if index > 0 {
        assert(!valid(list[0]));
        let rest = list.drop_first();
        assert forall|i: int| 0 <= i < index - 1 implies !valid(#[trigger] rest[i]) by {
            assert(rest[i] == list[i + 1]);
        }
        first_valid_is_first(valid, rest, index - 1);
    }
}

proof fn none_is_valid<G>(valid: spec_fn(G) -> bool, list: Seq<G>)
    requires
        forall|i: int| 0 <= i < list.len() ==> !valid(#[trigger] list[i]),
    ensures
        first_valid(valid, list) is None,
    decreases list.len(),
{
    if list.len() > 0 {
        assert(!valid(list[0]));
        let rest = list.drop_first();
        assert forall|i: int| 0 <= i < rest.len() implies !valid(#[trigger] rest[i]) by {
            assert(rest[i] == list[i + 1]);
        }
        none_is_valid(valid, rest);
    }
}

/// A recovery ends with what the directory holds. Where that is metadata, it
/// leaves it as the primary file, without a backup.
pub proof fn recoveries_find_what_is_held<G>(valid: spec_fn(G) -> bool, files: Files<G>)
    requires
        files.temporaries.len() <= usize::MAX,
    ensures
        recovery(valid, RecoveryStage::Start, files, false).0 == held(valid, files),
        held(valid, files) matches Recovered::Metadata(generation) ==> {
            let left = recovery(valid, RecoveryStage::Start, files, false).1;
            left.primary == Some(generation) && left.backup is None
        },
{
    if files.primary is None && files.backup is Some {
        let moved = after_action(files, RecoveryAction::RestoreBackup);
        placed_files_are_read(valid, moved);
    } else if files.primary is None && files.temporaries.len() > 0 {
        temporaries_are_tried(valid, files, 0);
    } else {
        placed_files_are_read(valid, files);
    }
}

/// A second recovery ends as the first did, where that found metadata.
pub proof fn recoveries_repeat<G>(valid: spec_fn(G) -> bool, files: Files<G>)
    requires
        files.temporaries.len() <= usize::MAX,
        held(valid, files) is Metadata,
    ensures
        held(valid, recovery(valid, RecoveryStage::Start, files, false).1) == held(valid, files),
{
    recoveries_find_what_is_held(valid, files);
    held_is_valid(valid, files);
}

proof fn held_is_valid<G>(valid: spec_fn(G) -> bool, files: Files<G>)
    ensures
        held(valid, files) matches Recovered::Metadata(generation) ==> valid(generation),
{
    valid_first(valid, files.temporaries);
}

proof fn valid_first<G>(valid: spec_fn(G) -> bool, list: Seq<G>)
    ensures
        first_valid(valid, list) matches Some(generation) ==> valid(generation),
    decreases list.len(),
{
    if list.len() > 0 {
        valid_first(valid, list.drop_first());
    }
}

/// The files after a step of an installation. The temporary file of the
/// installation comes last.
pub open spec fn after_step<G>(files: Files<G>, step: InstallStep, generation: G) -> Files<G> {
    match step {
        InstallStep::WriteTemporary => Files {
            temporaries: files.temporaries.push(generation),
            ..files
        },
        InstallStep::RemoveBackup => Files { backup: None, ..files },
        InstallStep::SetAside => Files { primary: None, backup: files.primary, ..files },
        InstallStep::PutInPlace => Files {
            primary: Some(files.temporaries.last()),
            temporaries: files.temporaries.drop_last(),
            ..files
        },
    }
}

pub open spec fn after_steps<G>(files: Files<G>, steps: Seq<InstallStep>, generation: G) -> Files<G>
    decreases steps.len(),
{
    if steps.len() == 0 {
        files
    } else {
        after_step(after_steps(files, steps.drop_last(), generation), steps.last(), generation)
    }
}

/// The files after the first steps of an installation.
pub open spec fn interrupted<G>(files: Files<G>, generation: G, count: int) -> Files<G> {
    after_steps(
        files,
        install_plan(files.primary is Some, files.backup is Some).take(count),
        generation,
    )
}

proof fn plans_unfold<G>(files: Files<G>, generation: G, count: int)
    requires
        0 <= count < install_plan(files.primary is Some, files.backup is Some).len(),
    ensures
        interrupted(files, generation, 0) == files,
        interrupted(files, generation, count + 1) == after_step(
            interrupted(files, generation, count),
            install_plan(files.primary is Some, files.backup is Some)[count],
            generation,
        ),
{
    let plan = install_plan(files.primary is Some, files.backup is Some);
    assert(plan.take(count + 1).drop_last() =~= plan.take(count));
}

proof fn plans_unfold_whole<G>(files: Files<G>, generation: G)
    ensures
        ({
            let plan = install_plan(files.primary is Some, files.backup is Some);
            let f0 = files;
            let f1 = after_step(f0, plan[0], generation);
            let f2 = after_step(f1, plan[1], generation);
            let f3 = after_step(f2, plan[2], generation);
            let f4 = after_step(f3, plan[3], generation);
            let f5 = after_step(f4, plan[4], generation);
            &&& interrupted(files, generation, 0) == f0
            &&& plan.len() > 0 ==> interrupted(files, generation, 1) == f1
            &&& plan.len() > 1 ==> interrupted(files, generation, 2) == f2
            &&& plan.len() > 2 ==> interrupted(files, generation, 3) == f3
            &&& plan.len() > 3 ==> interrupted(files, generation, 4) == f4
            &&& plan.len() > 4 ==> interrupted(files, generation, 5) == f5
            &&& 2 <= plan.len() <= 5
        }),
{
    let plan = install_plan(files.primary is Some, files.backup is Some);
    plans_unfold(files, generation, 0);
    plans_unfold(files, generation, 1);
    if plan.len() > 2 {
        plans_unfold(files, generation, 2);
    }
    if plan.len() > 3 {
        plans_unfold(files, generation, 3);
    }
    if plan.len() > 4 {
        plans_unfold(files, generation, 4);
    }
}

/// A crash between two steps of an installation loses nothing: what the
/// directory then holds is the generation before or the new one.
pub proof fn crashes_keep_a_generation<G>(
    valid: spec_fn(G) -> bool,
    files: Files<G>,
    before: G,
    generation: G,
    count: int,
)
    requires
        files.primary == Some(before),
        valid(before),
        valid(generation),
        0 <= count <= install_plan(true, files.backup is Some).len(),
    ensures
        held(valid, interrupted(files, generation, count)) == Recovered::Metadata(before) || held(
            valid,
            interrupted(files, generation, count),
        ) == Recovered::Metadata(generation),
{
    plans_unfold_whole(files, generation);
}

/// A crash while the temporary file is written loses nothing either,
/// whatever was written of it.
pub proof fn torn_writes_keep_the_generation<G>(
    valid: spec_fn(G) -> bool,
    files: Files<G>,
    torn: G,
)
    requires
        held(valid, files) is Metadata,
        files.primary is Some || files.backup is Some,
    ensures
        held(valid, after_step(files, InstallStep::WriteTemporary, torn)) == held(valid, files),
{
}

/// Once all steps are taken, the directory holds the new generation.
pub proof fn installations_take_effect<G>(
    valid: spec_fn(G) -> bool,
    files: Files<G>,
    generation: G,
)
    requires
        valid(generation),
    ensures
        ({
            let count = install_plan(files.primary is Some, files.backup is Some).len() as int;
            let done = interrupted(files, generation, count);
            &&& held(valid, done) == Recovered::Metadata(generation)
            &&& done.primary == Some(generation)
            &&& done.backup is None
            &&& done.temporaries == files.temporaries
        }),
{
    plans_unfold_whole(files, generation);
    assert(files.temporaries.push(generation).drop_last() =~= files.temporaries);
}

} // verus!
