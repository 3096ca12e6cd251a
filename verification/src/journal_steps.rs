//! How the undo journal is replaced: which file is moved when, and where a
//! failure leaves it.

use vstd::prelude::*;

use crate::undo::JournalRecovery;

verus! {

/// What is done to replace the journal, in order.
#[derive(Clone, Copy, Debug, PartialEq, Eq, Structural)]
pub enum JournalAction {
    /// Write the new journal to a temporary file.
    Write,
    /// Make the temporary file durable.
    Sync,
    /// Rename the temporary file to the journal.
    Install,
    /// Remove the backup that is in the way.
    ClearBackup,
    /// Rename the journal to the backup.
    SetAside,
    /// Rename the temporary file to the journal, once more.
    InstallAgain,
    /// Rename the backup to the journal, as it was.
    PutBack,
    RemoveBackup,
}

#[derive(Clone, Copy, Debug, PartialEq, Eq, Structural)]
pub enum JournalStep {
    Act(JournalAction),
    /// The journal is replaced.
    Done,
    /// The journal is not replaced, for want of the action that failed.
    Failed(JournalAction),
}

/// The steps that make room for the new journal, where it could not simply be
/// renamed.
pub open spec fn making_room(journal: bool) -> JournalStep {
    if journal {
        JournalStep::Act(JournalAction::SetAside)
    } else {
        JournalStep::Act(JournalAction::InstallAgain)
    }
}

/// What follows an action, given whether it succeeded and which of the two
/// files are there afterwards.
pub open spec fn journal_step(
    action: JournalAction,
    succeeded: bool,
    journal: bool,
    backup: bool,
) -> JournalStep {
    match action {
        JournalAction::Write => if succeeded {
            JournalStep::Act(JournalAction::Sync)
        } else {
            JournalStep::Failed(action)
        },
        JournalAction::Sync => if succeeded {
            JournalStep::Act(JournalAction::Install)
        } else {
            JournalStep::Failed(action)
        },
        JournalAction::Install => if succeeded {
            JournalStep::Done
        } else if backup {
            JournalStep::Act(JournalAction::ClearBackup)
        } else {
            making_room(journal)
        },
        JournalAction::ClearBackup => if succeeded {
            making_room(journal)
        } else {
            JournalStep::Failed(action)
        },
        JournalAction::SetAside => if succeeded {
            JournalStep::Act(JournalAction::InstallAgain)
        } else {
            JournalStep::Failed(action)
        },
        JournalAction::InstallAgain => if succeeded {
            if backup {
                JournalStep::Act(JournalAction::RemoveBackup)
            } else {
                JournalStep::Done
            }
        } else if backup && !journal {
            JournalStep::Act(JournalAction::PutBack)
        } else {
            JournalStep::Failed(action)
        },
        JournalAction::PutBack => JournalStep::Failed(JournalAction::InstallAgain),
        JournalAction::RemoveBackup => if succeeded {
            JournalStep::Done
        } else {
            JournalStep::Failed(action)
        },
    }
}

fn make_room(journal: bool) -> (step: JournalStep)
    ensures
        step == making_room(journal),
{
    if journal {
        JournalStep::Act(JournalAction::SetAside)
    } else {
        JournalStep::Act(JournalAction::InstallAgain)
    }
}

/// Decides what follows an action.
pub fn next_journal_step(action: JournalAction, succeeded: bool, journal: bool, backup: bool) -> (
    step: JournalStep)
    ensures
        step == journal_step(action, succeeded, journal, backup),
{
    match (action, succeeded) {
        (JournalAction::Write, true) => JournalStep::Act(JournalAction::Sync),
        (JournalAction::Sync, true) => JournalStep::Act(JournalAction::Install),
        (JournalAction::Install, true) => JournalStep::Done,
        (JournalAction::Install, false) => {
            if backup {
                JournalStep::Act(JournalAction::ClearBackup)
            } else {
                make_room(journal)
            }
        },
        (JournalAction::ClearBackup, true) => make_room(journal),
        (JournalAction::SetAside, true) => JournalStep::Act(JournalAction::InstallAgain),
        (JournalAction::InstallAgain, true) => {
            if backup {
                JournalStep::Act(JournalAction::RemoveBackup)
            } else {
                JournalStep::Done
            }
        },
        (JournalAction::InstallAgain, false) => {
            if backup && !journal {
                JournalStep::Act(JournalAction::PutBack)
            } else {
                JournalStep::Failed(action)
            }
        },
        (JournalAction::PutBack, _) => JournalStep::Failed(JournalAction::InstallAgain),
        (JournalAction::RemoveBackup, true) => JournalStep::Done,
        _ => JournalStep::Failed(action),
    }
}

pub open spec fn failure_text(action: JournalAction) -> Seq<char> {
    match action {
        JournalAction::Write => "could not write terminal undo journal"@,
        JournalAction::Sync => "could not sync terminal undo journal"@,
        JournalAction::ClearBackup => "could not clear undo backup"@,
        JournalAction::SetAside => "could not stage undo journal"@,
        JournalAction::RemoveBackup => "could not remove undo backup"@,
        _ => "could not install terminal undo journal"@,
    }
}

/// What is said of an action that failed.
pub fn journal_failure(action: JournalAction) -> (text: &'static str)
    ensures
        text@ == failure_text(action),
{
    match action {
        JournalAction::Write => "could not write terminal undo journal",
        JournalAction::Sync => "could not sync terminal undo journal",
        JournalAction::ClearBackup => "could not clear undo backup",
        JournalAction::SetAside => "could not stage undo journal",
        JournalAction::RemoveBackup => "could not remove undo backup",
        _ => "could not install terminal undo journal",
    }
}

// ---------------------------------------------------------------------------
// What the actions do to the files.

/// The journal, its backup and the temporary file, by what they hold.
pub struct JournalFiles<G> {
    pub journal: Option<G>,
    pub backup: Option<G>,
    pub temporary: Option<G>,
}

/// The files after an action that succeeded.
pub open spec fn after_journal_action<G>(
    files: JournalFiles<G>,
    action: JournalAction,
    new: G,
) -> JournalFiles<G> {
    match action {
        JournalAction::Write => JournalFiles { temporary: Some(new), ..files },
        JournalAction::Sync => files,
        JournalAction::Install | JournalAction::InstallAgain => JournalFiles {
            journal: files.temporary,
            temporary: None,
            ..files
        },
        JournalAction::ClearBackup | JournalAction::RemoveBackup => JournalFiles {
            backup: None,
            ..files
        },
        JournalAction::SetAside => JournalFiles {
            journal: None,
            backup: files.journal,
            ..files
        },
        JournalAction::PutBack => JournalFiles {
            journal: files.backup,
            backup: None,
            ..files
        },
    }
}

/// What a recovery finds: the journal, or the backup where it is gone.
pub open spec fn journal_held<G>(files: JournalFiles<G>) -> Option<G> {
    if files.journal is Some {
        files.journal
    } else {
        files.backup
    }
}

/// A recovery keeps what is held.
pub proof fn recoveries_keep_what_is_held<G>(files: JournalFiles<G>, plan: JournalRecovery)
    requires
        plan.restore_backup == (files.backup is Some && files.journal is None),
        plan.remove_backup == (files.backup is Some && files.journal is Some),
    ensures
        (if plan.restore_backup {
            files.backup
        } else {
            files.journal
        }) == journal_held(files),
{
}

/// The files when an action is about to be taken.
spec fn stands<G>(files: JournalFiles<G>, action: JournalAction, old: G, new: G) -> bool {
    match action {
        JournalAction::Write => files.journal == Some(old),
        JournalAction::Sync | JournalAction::Install | JournalAction::ClearBackup => files.journal
            == Some(old) && files.temporary == Some(new),
        JournalAction::SetAside => files.journal == Some(old) && files.backup is None
            && files.temporary == Some(new),
        JournalAction::InstallAgain | JournalAction::PutBack => files.journal is None
            && files.backup == Some(old) && files.temporary == Some(new),
        JournalAction::RemoveBackup => files.journal == Some(new) && files.backup == Some(old),
    }
}

/// How a replacement goes on, given which actions succeed, for at most so
/// many actions.
pub open spec fn replaced<G>(
    files: JournalFiles<G>,
    action: JournalAction,
    new: G,
    succeeds: spec_fn(JournalAction) -> bool,
    limit: nat,
) -> (JournalFiles<G>, JournalStep)
    decreases limit,
{
    if limit == 0 {
        (files, JournalStep::Act(action))
    } else {
        let after = if succeeds(action) {
            after_journal_action(files, action, new)
        } else {
            files
        };
        match journal_step(
            action,
            succeeds(action),
            after.journal is Some,
            after.backup is Some,
        ) {
            JournalStep::Act(next) => replaced(after, next, new, succeeds, (limit - 1) as nat),
            step => (after, step),
        }
    }
}

proof fn replacements_stand<G>(
    files: JournalFiles<G>,
    action: JournalAction,
    old: G,
    new: G,
    succeeds: spec_fn(JournalAction) -> bool,
    limit: nat,
)
    requires
        stands(files, action, old, new),
    ensures
        ({
            let reached = replaced(files, action, new, succeeds, limit);
            &&& journal_held(reached.0) == Some(old) || journal_held(reached.0) == Some(new)
            &&& reached.1 == JournalStep::Done ==> reached.0.journal == Some(new)
        }),
    decreases limit,
{
    if limit > 0 {
        let after = if succeeds(action) {
            after_journal_action(files, action, new)
        } else {
            files
        };
        if let JournalStep::Act(next) = journal_step(
            action,
            succeeds(action),
            after.journal is Some,
            after.backup is Some,
        ) {
            replacements_stand(after, next, old, new, succeeds, (limit - 1) as nat);
        }
    }
}

/// Whichever actions fail, and wherever the replacement is cut off, the
/// journal before or the new one is held; where it is done, the new one is.
pub proof fn replacements_keep_a_journal<G>(
    files: JournalFiles<G>,
    old: G,
    new: G,
    succeeds: spec_fn(JournalAction) -> bool,
    limit: nat,
)
    requires
        files.journal == Some(old),
    ensures
        ({
            let reached = replaced(files, JournalAction::Write, new, succeeds, limit);
            &&& journal_held(reached.0) == Some(old) || journal_held(reached.0) == Some(new)
            &&& reached.1 == JournalStep::Done ==> reached.0.journal == Some(new)
        }),
{
    replacements_stand(files, JournalAction::Write, old, new, succeeds, limit);
}

} // verus!
