//! The order in which an operation on files is executed or undone, and where
//! it stops.

use vstd::prelude::*;

use crate::terminal::{TerminalOperation, TerminalOperationView};
use crate::terminal_report::{execution_request, request_for, undo_text, UndoOutcome};

verus! {

/// What is done for an execution, in order.
#[derive(Clone, Copy, Debug, PartialEq, Eq, Structural)]
pub enum ExecutionAction {
    /// Build the plan.
    Plan,
    /// Ask the plan whether it may run, given the confirmation.
    Authorize,
    /// Make the tool known.
    Register,
    /// Lend the resource to the one who asks.
    Grant,
    Validate,
    /// Open the files below the working directory.
    OpenFiles,
    Preview,
    Approve,
    Execute,
    Verify,
    Commit,
    /// Ask for the record that undoes the execution.
    ExportUndo,
    /// Add the record to the journal.
    KeepUndo,
}

/// What the transaction says of itself: whether it waits for approval once it
/// is validated, and, once it is committed, whether it can be undone and has
/// any output.
#[derive(Clone, Copy, Debug, PartialEq, Eq, Structural)]
pub struct TransactionFacts {
    pub awaiting_approval: bool,
    pub compensation_available: bool,
    pub has_output: bool,
}

/// What came of an action.
#[derive(Clone, Debug, PartialEq, Eq)]
pub enum Reply {
    Done,
    Failed(String),
}

#[derive(Clone, Debug, PartialEq, Eq)]
pub enum ExecutionStep {
    Act(ExecutionAction),
    Refused(String),
    Ended(UndoOutcome),
}

pub enum ExecutionStepView {
    Act(ExecutionAction),
    Refused(Seq<char>),
    /// Committed, with what is said of undoing it.
    Ended(Seq<char>),
}

impl View for ExecutionStep {
    type V = ExecutionStepView;

    open spec fn view(&self) -> ExecutionStepView {
        match self {
            ExecutionStep::Act(action) => ExecutionStepView::Act(*action),
            ExecutionStep::Refused(message) => ExecutionStepView::Refused(message@),
            ExecutionStep::Ended(undo) => ExecutionStepView::Ended(undo_text(*undo)),
        }
    }
}

/// What follows an action that succeeded.
pub open spec fn following(
    operation: TerminalOperationView,
    action: ExecutionAction,
    facts: TransactionFacts,
) -> ExecutionStepView {
    match action {
        ExecutionAction::Plan => ExecutionStepView::Act(ExecutionAction::Authorize),
        ExecutionAction::Authorize => match request_for(operation) {
            Ok(_) => ExecutionStepView::Act(ExecutionAction::Register),
            Err(message) => ExecutionStepView::Refused(message),
        },
        ExecutionAction::Register => ExecutionStepView::Act(ExecutionAction::Grant),
        ExecutionAction::Grant => ExecutionStepView::Act(ExecutionAction::Validate),
        ExecutionAction::Validate => ExecutionStepView::Act(ExecutionAction::OpenFiles),
        ExecutionAction::OpenFiles => ExecutionStepView::Act(ExecutionAction::Preview),
        ExecutionAction::Preview => if facts.awaiting_approval {
            ExecutionStepView::Act(ExecutionAction::Approve)
        } else {
            ExecutionStepView::Act(ExecutionAction::Execute)
        },
        ExecutionAction::Approve => ExecutionStepView::Act(ExecutionAction::Execute),
        ExecutionAction::Execute => ExecutionStepView::Act(ExecutionAction::Verify),
        ExecutionAction::Verify => ExecutionStepView::Act(ExecutionAction::Commit),
        ExecutionAction::Commit => if !facts.compensation_available {
            ExecutionStepView::Ended("not available"@)
        } else if !facts.has_output {
            ExecutionStepView::Ended(
                "persistent undo unavailable: "@ + "compensatable execution has no output"@,
            )
        } else {
            ExecutionStepView::Act(ExecutionAction::ExportUndo)
        },
        ExecutionAction::ExportUndo => ExecutionStepView::Act(ExecutionAction::KeepUndo),
        ExecutionAction::KeepUndo => ExecutionStepView::Ended("persistent undo available"@),
    }
}

/// What follows an action that failed: what is committed stays committed.
pub open spec fn stopping(action: ExecutionAction, message: Seq<char>) -> ExecutionStepView {
    match action {
        ExecutionAction::ExportUndo | ExecutionAction::KeepUndo => ExecutionStepView::Ended(
            "persistent undo unavailable: "@ + message,
        ),
        _ => ExecutionStepView::Refused(message),
    }
}

/// Decides what follows an action.
pub fn next_execution(
    operation: &TerminalOperation,
    action: ExecutionAction,
    reply: Reply,
    facts: TransactionFacts,
) -> (step: ExecutionStep)
    ensures
        step@ == match reply {
            Reply::Done => following(operation@, action, facts),
            Reply::Failed(message) => stopping(action, message@),
        },
{
    if let Reply::Failed(message) = reply {
        return match action {
            ExecutionAction::ExportUndo => ExecutionStep::Ended(UndoOutcome::NotExported(message)),
            ExecutionAction::KeepUndo => ExecutionStep::Ended(UndoOutcome::NotKept(message)),
            _ => ExecutionStep::Refused(message),
        };
    }
    let next = match action {
        ExecutionAction::Plan => ExecutionAction::Authorize,
        ExecutionAction::Authorize => {
            if let Err(error) = execution_request(operation) {
                return ExecutionStep::Refused(error.0);
            }
            ExecutionAction::Register
        },
        ExecutionAction::Register => ExecutionAction::Grant,
        ExecutionAction::Grant => ExecutionAction::Validate,
        ExecutionAction::Validate => ExecutionAction::OpenFiles,
        ExecutionAction::OpenFiles => ExecutionAction::Preview,
        ExecutionAction::Preview => {
            if facts.awaiting_approval {
                ExecutionAction::Approve
            } else {
                ExecutionAction::Execute
            }
        },
        ExecutionAction::Approve => ExecutionAction::Execute,
        ExecutionAction::Execute => ExecutionAction::Verify,
        ExecutionAction::Verify => ExecutionAction::Commit,
        ExecutionAction::Commit => {
            if !facts.compensation_available {
                return ExecutionStep::Ended(UndoOutcome::NotOffered);
            }
            if !facts.has_output {
                return ExecutionStep::Ended(UndoOutcome::NoOutput);
            }
            ExecutionAction::ExportUndo
        },
        ExecutionAction::ExportUndo => ExecutionAction::KeepUndo,
        ExecutionAction::KeepUndo => {
            return ExecutionStep::Ended(UndoOutcome::Kept);
        },
    };
    ExecutionStep::Act(next)
}

pub open spec fn actions_left(action: ExecutionAction) -> nat {
    match action {
        ExecutionAction::Plan => 13,
        ExecutionAction::Authorize => 12,
        ExecutionAction::Register => 11,
        ExecutionAction::Grant => 10,
        ExecutionAction::Validate => 9,
        ExecutionAction::OpenFiles => 8,
        ExecutionAction::Preview => 7,
        ExecutionAction::Approve => 6,
        ExecutionAction::Execute => 5,
        ExecutionAction::Verify => 4,
        ExecutionAction::Commit => 3,
        ExecutionAction::ExportUndo => 2,
        ExecutionAction::KeepUndo => 1,
    }
}

/// The actions that are taken from one on, given which of them succeed.
pub open spec fn taken(
    operation: TerminalOperationView,
    facts: TransactionFacts,
    action: ExecutionAction,
    succeeds: spec_fn(ExecutionAction) -> bool,
) -> Seq<ExecutionAction>
    decreases actions_left(action),
{
    if !succeeds(action) {
        seq![action]
    } else {
        match following(operation, action, facts) {
            ExecutionStepView::Act(next) => seq![action] + taken(operation, facts, next, succeeds),
            _ => seq![action],
        }
    }
}

/// `first` comes before `later` wherever `later` comes.
pub open spec fn comes_before(
    actions: Seq<ExecutionAction>,
    first: ExecutionAction,
    later: ExecutionAction,
) -> bool {
    forall|i: int|
        0 <= i < actions.len() && #[trigger] actions[i] == later ==> exists|j: int|
            0 <= j < i && #[trigger] actions[j] == first
}

proof fn placed_first(
    actions: Seq<ExecutionAction>,
    first: ExecutionAction,
    later: ExecutionAction,
)
    requires
        actions.len() > 0,
        actions[0] == first,
        first != later,
    ensures
        comes_before(actions, first, later),
{
    assert forall|i: int| 0 <= i < actions.len() && #[trigger] actions[i] == later implies exists|
        j: int,
    |
        0 <= j < i && #[trigger] actions[j] == first by {
        assert(actions[0] == first);
    }
}

proof fn order_survives(
    head: ExecutionAction,
    rest: Seq<ExecutionAction>,
    first: ExecutionAction,
    later: ExecutionAction,
)
    requires
        comes_before(rest, first, later),
        head != later,
    ensures
        comes_before(seq![head] + rest, first, later),
{
    let actions = seq![head] + rest;
    assert forall|i: int| 0 <= i < actions.len() && #[trigger] actions[i] == later implies exists|
        j: int,
    |
        0 <= j < i && #[trigger] actions[j] == first by {
        assert(rest[i - 1] == later);
        let j = choose|j: int| 0 <= j < i - 1 && #[trigger] rest[j] == first;
        assert(actions[j + 1] == first);
    }
}

/// Actions are taken in one order, each at most once.
proof fn taken_in_order(
    operation: TerminalOperationView,
    facts: TransactionFacts,
    action: ExecutionAction,
    succeeds: spec_fn(ExecutionAction) -> bool,
    first: ExecutionAction,
    later: ExecutionAction,
)
    requires
        actions_left(action) >= actions_left(first) > actions_left(later),
        first == ExecutionAction::Approve ==> facts.awaiting_approval,
    ensures
        comes_before(taken(operation, facts, action, succeeds), first, later),
    decreases actions_left(action),
{
    let actions = taken(operation, facts, action, succeeds);
    assert(actions[0] == action);
    if action == first {
        placed_first(actions, first, later);
    } else if succeeds(action) {
        if let ExecutionStepView::Act(next) = following(operation, action, facts) {
            taken_in_order(operation, facts, next, succeeds, first, later);
            order_survives(action, taken(operation, facts, next, succeeds), first, later);
        }
    }
}

/// Nothing is executed before it is planned, authorized, validated and
/// previewed, and approved where the transaction waits for that; nothing is
/// committed before it is verified.
pub proof fn effects_come_after_their_checks(
    operation: TerminalOperationView,
    facts: TransactionFacts,
    succeeds: spec_fn(ExecutionAction) -> bool,
)
    ensures
        ({
            let actions = taken(operation, facts, ExecutionAction::Plan, succeeds);
            &&& comes_before(actions, ExecutionAction::Plan, ExecutionAction::Execute)
            &&& comes_before(actions, ExecutionAction::Authorize, ExecutionAction::Execute)
            &&& comes_before(actions, ExecutionAction::Validate, ExecutionAction::Execute)
            &&& comes_before(actions, ExecutionAction::Preview, ExecutionAction::Execute)
            &&& facts.awaiting_approval ==> comes_before(
                actions,
                ExecutionAction::Approve,
                ExecutionAction::Execute,
            )
            &&& comes_before(actions, ExecutionAction::Verify, ExecutionAction::Commit)
        }),
{
    let start = ExecutionAction::Plan;
    let execute = ExecutionAction::Execute;
    taken_in_order(operation, facts, start, succeeds, ExecutionAction::Plan, execute);
    taken_in_order(operation, facts, start, succeeds, ExecutionAction::Authorize, execute);
    taken_in_order(operation, facts, start, succeeds, ExecutionAction::Validate, execute);
    taken_in_order(operation, facts, start, succeeds, ExecutionAction::Preview, execute);
    if facts.awaiting_approval {
        taken_in_order(operation, facts, start, succeeds, ExecutionAction::Approve, execute);
    }
    taken_in_order(
        operation,
        facts,
        start,
        succeeds,
        ExecutionAction::Verify,
        ExecutionAction::Commit,
    );
}

proof fn continued_after_success(
    operation: TerminalOperationView,
    facts: TransactionFacts,
    action: ExecutionAction,
    succeeds: spec_fn(ExecutionAction) -> bool,
    index: int,
)
    requires
        0 <= index < taken(operation, facts, action, succeeds).len() - 1,
    ensures
        succeeds(taken(operation, facts, action, succeeds)[index]),
    decreases actions_left(action),
{
    let actions = taken(operation, facts, action, succeeds);
    if let ExecutionStepView::Act(next) = following(operation, action, facts) {
        let rest = taken(operation, facts, next, succeeds);
        if index > 0 {
            assert(actions[index] == rest[index - 1]);
            continued_after_success(operation, facts, next, succeeds, index - 1);
        }
    }
}

/// An action that fails is the last one.
pub proof fn failures_stop_executions(
    operation: TerminalOperationView,
    facts: TransactionFacts,
    succeeds: spec_fn(ExecutionAction) -> bool,
    index: int,
)
    requires
        0 <= index < taken(operation, facts, ExecutionAction::Plan, succeeds).len(),
        !succeeds(taken(operation, facts, ExecutionAction::Plan, succeeds)[index]),
    ensures
        index == taken(operation, facts, ExecutionAction::Plan, succeeds).len() - 1,
{
    let actions = taken(operation, facts, ExecutionAction::Plan, succeeds);
    if index < actions.len() - 1 {
        continued_after_success(operation, facts, ExecutionAction::Plan, succeeds, index);
    }
}

/// Of an operation that is not on files below a root nothing more than the
/// plan is asked.
pub proof fn other_operations_are_not_executed(
    operation: TerminalOperationView,
    facts: TransactionFacts,
    succeeds: spec_fn(ExecutionAction) -> bool,
)
    requires
        operation is ListProcesses || operation is GitOperation || operation is RawShellCommand,
    ensures
        taken(operation, facts, ExecutionAction::Plan, succeeds).len() <= 2,
{
    reveal_with_fuel(taken, 3);
}

// ---------------------------------------------------------------------------
// Undoing.

/// What is done to undo the latest execution, in order.
#[derive(Clone, Copy, Debug, PartialEq, Eq, Structural)]
pub enum UndoAction {
    ReadJournal,
    Grant,
    Authorize,
    OpenFiles,
    Compensate,
    /// Take the record out of the journal.
    Forget,
}

#[derive(Clone, Debug, PartialEq, Eq)]
pub enum UndoStep {
    Act(UndoAction),
    Refused(String),
    Undone,
}

pub enum UndoStepView {
    Act(UndoAction),
    Refused(Seq<char>),
    Undone,
}

impl View for UndoStep {
    type V = UndoStepView;

    open spec fn view(&self) -> UndoStepView {
        match self {
            UndoStep::Act(action) => UndoStepView::Act(*action),
            UndoStep::Refused(message) => UndoStepView::Refused(message@),
            UndoStep::Undone => UndoStepView::Undone,
        }
    }
}

/// What follows an action that succeeded. A record leaves the journal only
/// once what it says is done.
pub open spec fn undo_following(action: UndoAction, found: bool) -> UndoStepView {
    match action {
        UndoAction::ReadJournal => if found {
            UndoStepView::Act(UndoAction::Grant)
        } else {
            UndoStepView::Refused("no persisted terminal undo is available"@)
        },
        UndoAction::Grant => UndoStepView::Act(UndoAction::Authorize),
        UndoAction::Authorize => UndoStepView::Act(UndoAction::OpenFiles),
        UndoAction::OpenFiles => UndoStepView::Act(UndoAction::Compensate),
        UndoAction::Compensate => UndoStepView::Act(UndoAction::Forget),
        UndoAction::Forget => UndoStepView::Undone,
    }
}

/// Decides what follows an action, where the journal held a record or not.
pub fn next_undo(action: UndoAction, reply: Reply, found: bool) -> (step: UndoStep)
    ensures
        step@ == match reply {
            Reply::Done => undo_following(action, found),
            Reply::Failed(message) => UndoStepView::Refused(message@),
        },
{
    if let Reply::Failed(message) = reply {
        return UndoStep::Refused(message);
    }
    match action {
        UndoAction::ReadJournal => {
            if found {
                UndoStep::Act(UndoAction::Grant)
            } else {
                UndoStep::Refused("no persisted terminal undo is available".to_owned())
            }
        },
        UndoAction::Grant => UndoStep::Act(UndoAction::Authorize),
        UndoAction::Authorize => UndoStep::Act(UndoAction::OpenFiles),
        UndoAction::OpenFiles => UndoStep::Act(UndoAction::Compensate),
        UndoAction::Compensate => UndoStep::Act(UndoAction::Forget),
        UndoAction::Forget => UndoStep::Undone,
    }
}

} // verus!
