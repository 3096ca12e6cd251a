//! What the terminal boundary reports of plans and executions.

use vstd::prelude::*;
use vstd::string::StringExecFns;

use crate::codec::outcome;
use crate::scan::{join, joined_with, trim, trimmed};
use crate::terminal::{
    debug_of, debug_text, TerminalCliError, TerminalOperation, TerminalOperationView,
};
use crate::text::{decimal, decimal_text, push_decimal, texts};

verus! {

/// What is known of the machine and the place where operations run.
#[derive(Clone, Debug, PartialEq, Eq)]
pub struct TerminalEnvironment {
    pub os: String,
    pub architecture: String,
    pub shell: Option<String>,
    pub working_directory: String,
    pub can_read_working_directory: bool,
    pub can_write_working_directory: bool,
    pub available_commands: Vec<String>,
}

/// What the planner says of an operation.
#[derive(Clone, Debug, PartialEq, Eq)]
pub struct PlanSummary {
    pub risk: String,
    pub disposition: String,
    pub compensation_available: bool,
}

/// An operation in words.
pub open spec fn description(operation: TerminalOperationView) -> Seq<char> {
    match operation {
        TerminalOperationView::FindFiles { root, pattern, max_results } => "find "@ + debug_text(
            pattern,
        ) + " under "@ + debug_text(root) + " (limit "@ + decimal(max_results as nat) + ")"@,
        TerminalOperationView::MoveFile { from, to } => "move "@ + debug_text(from) + " -> "@
            + debug_text(to),
        TerminalOperationView::CopyFile { from, to } => "copy "@ + debug_text(from) + " -> "@
            + debug_text(to),
        TerminalOperationView::RemoveFile { path } => "quarantine "@ + debug_text(path),
        TerminalOperationView::ListProcesses => "list processes"@,
        TerminalOperationView::GitOperation { action, args } => trimmed(
            "git "@ + action + " "@ + joined_with(args, " "@),
        ),
        TerminalOperationView::RawShellCommand { command } => "raw shell "@ + debug_text(command),
    }
}

pub fn describe_operation(operation: &TerminalOperation) -> (text: String)
    ensures
        text@ == description(operation@),
{
    match operation {
        TerminalOperation::FindFiles { root, pattern, max_results } => {
            let mut out = "find ".to_owned();
            out.append(debug_of(pattern.as_str()).as_str());
            out.append(" under ");
            out.append(debug_of(root.as_str()).as_str());
            out.append(" (limit ");
            push_decimal(&mut out, *max_results as u128);
            out.append(")");
            out
        },
        TerminalOperation::MoveFile { from, to } => {
            let mut out = "move ".to_owned();
            out.append(debug_of(from.as_str()).as_str());
            out.append(" -> ");
            out.append(debug_of(to.as_str()).as_str());
            out
        },
        TerminalOperation::CopyFile { from, to } => {
            let mut out = "copy ".to_owned();
            out.append(debug_of(from.as_str()).as_str());
            out.append(" -> ");
            out.append(debug_of(to.as_str()).as_str());
            out
        },
        TerminalOperation::RemoveFile { path } => {
            let mut out = "quarantine ".to_owned();
            out.append(debug_of(path.as_str()).as_str());
            out
        },
        TerminalOperation::ListProcesses => "list processes".to_owned(),
        TerminalOperation::GitOperation { action, args } => {
            let mut out = "git ".to_owned();
            out.append(action.as_str());
            out.append(" ");
            assert(texts(args@).skip(0) =~= texts(args@));
            out.append(join(args, 0, " ").as_str());
            trim(out.as_str())
        },
        TerminalOperation::RawShellCommand { command } => {
            let mut out = "raw shell ".to_owned();
            out.append(debug_of(command.as_str()).as_str());
            out
        },
    }
}

pub open spec fn yes_or_no(value: bool) -> Seq<char> {
    if value {
        "true"@
    } else {
        "false"@
    }
}

fn push_bool(out: &mut String, value: bool)
    ensures
        final(out)@ == old(out)@ + yes_or_no(value),
{
    if value {
        out.append("true");
    } else {
        out.append("false");
    }
}

/// At most the first sixteen commands.
pub open spec fn shown_commands(commands: Seq<Seq<char>>) -> Seq<Seq<char>> {
    if commands.len() <= 16 {
        commands
    } else {
        commands.take(16)
    }
}

pub open spec fn environment_text(environment: TerminalEnvironment) -> Seq<char> {
    let commands = shown_commands(texts(environment.available_commands@));
    let shell = match environment.shell {
        Some(shell) => shell@,
        None => "unknown"@,
    };
    let listed = if commands.len() == 0 {
        "none"@
    } else {
        joined_with(commands, ", "@)
    };
    "Terminal plan\nOS: "@ + environment.os@ + "\nArchitecture: "@ + environment.architecture@
        + "\nShell: "@ + shell + "\nWorking directory: "@ + environment.working_directory@
        + "\nRead hint: "@ + yes_or_no(environment.can_read_working_directory) + "\nWrite hint: "@
        + yes_or_no(environment.can_write_working_directory) + "\nAvailable commands (first "@
        + decimal(commands.len()) + "): "@ + listed
}

pub open spec fn plan_text(operation: TerminalOperationView, plan: PlanSummary) -> Seq<char> {
    "\nOperation: "@ + description(operation) + "\nRisk: "@ + plan.risk@ + "\nDisposition: "@
        + plan.disposition@ + "\nCompensation: "@ + (if plan.compensation_available {
        "available through a configured adapter"@
    } else {
        "not available"@
    }) + "\nExecution: plan-only; no effect was performed.\n"@
}

fn first_commands(commands: &Vec<String>) -> (shown: Vec<String>)
    ensures
        texts(shown@) == shown_commands(texts(commands@)),
{
    let mut shown: Vec<String> = Vec::new();
    let ghost all = texts(commands@);
    let mut index: usize = 0;
    assert(texts(shown@) =~= all.take(0));
    while index < commands.len() && index < 16
        invariant
            index <= commands@.len(),
            index <= 16,
            all == texts(commands@),
            texts(shown@) == all.take(index as int),
        decreases commands.len() - index,
    {
        let ghost before = shown@;
        shown.push(commands[index].clone());
        index += 1;
        proof {
            assert(texts(shown@) =~= texts(before).push(all[index - 1]));
            assert(texts(shown@) =~= all.take(index as int));
        }
    }
    assert(all.take(all.len() as int) =~= all);
    shown
}

fn render_environment(environment: &TerminalEnvironment) -> (text: String)
    ensures
        text@ == environment_text(*environment),
{
    let commands = first_commands(&environment.available_commands);
    let mut out = "Terminal plan\nOS: ".to_owned();
    out.append(environment.os.as_str());
    out.append("\nArchitecture: ");
    out.append(environment.architecture.as_str());
    out.append("\nShell: ");
    match &environment.shell {
        Some(shell) => out.append(shell.as_str()),
        None => out.append("unknown"),
    }
    out.append("\nWorking directory: ");
    out.append(environment.working_directory.as_str());
    out.append("\nRead hint: ");
    push_bool(&mut out, environment.can_read_working_directory);
    out.append("\nWrite hint: ");
    push_bool(&mut out, environment.can_write_working_directory);
    out.append("\nAvailable commands (first ");
    push_decimal(&mut out, commands.len() as u128);
    out.append("): ");
    if commands.len() == 0 {
        out.append("none");
    } else {
        assert(texts(commands@).skip(0) =~= texts(commands@));
        out.append(join(&commands, 0, ", ").as_str());
    }
    out
}

/// The report of a plan. Nothing is executed.
pub fn render_terminal_plan(
    operation: &TerminalOperation,
    environment: &TerminalEnvironment,
    plan: &PlanSummary,
) -> (text: String)
    ensures
        text@ == environment_text(*environment) + plan_text(operation@, *plan),
{
    let mut out = render_environment(environment);
    let mut rest = "\nOperation: ".to_owned();
    rest.append(describe_operation(operation).as_str());
    rest.append("\nRisk: ");
    rest.append(plan.risk.as_str());
    rest.append("\nDisposition: ");
    rest.append(plan.disposition.as_str());
    rest.append("\nCompensation: ");
    if plan.compensation_available {
        rest.append("available through a configured adapter");
    } else {
        rest.append("not available");
    }
    rest.append("\nExecution: plan-only; no effect was performed.\n");
    out.append(rest.as_str());
    out
}

// ---------------------------------------------------------------------------
// Executions.

/// The tools that operations may be executed with.
#[derive(Clone, Copy, Debug, PartialEq, Eq, Structural)]
pub enum TerminalTool {
    Find,
    Move,
    Copy,
    Remove,
}

/// What is asked of a tool: its inputs by name, and the resource that the
/// asker must be allowed to use.
#[derive(Clone, Debug, PartialEq, Eq)]
pub struct ExecutionRequest {
    pub tool: TerminalTool,
    pub input: Vec<(String, String)>,
    pub resource: String,
}

pub struct ExecutionRequestView {
    pub tool: TerminalTool,
    pub input: Seq<(Seq<char>, Seq<char>)>,
    pub resource: Seq<char>,
}

pub open spec fn pair_views(pairs: Seq<(String, String)>) -> Seq<(Seq<char>, Seq<char>)> {
    Seq::new(pairs.len(), |i: int| (pairs[i].0@, pairs[i].1@))
}

impl View for ExecutionRequest {
    type V = ExecutionRequestView;

    open spec fn view(&self) -> ExecutionRequestView {
        ExecutionRequestView {
            tool: self.tool,
            input: pair_views(self.input@),
            resource: self.resource@,
        }
    }
}

/// The tool request for an operation. Only operations on files below a root
/// can be executed; their inputs stand in the order of their names.
pub open spec fn request_for(operation: TerminalOperationView) -> Result<
    ExecutionRequestView,
    Seq<char>,
> {
    match operation {
        TerminalOperationView::FindFiles { root, pattern, max_results } => Ok(
            ExecutionRequestView {
                tool: TerminalTool::Find,
                input: seq![
                    ("max_results"@, decimal(max_results as nat)),
                    ("pattern"@, pattern),
                    ("root"@, root),
                ],
                resource: root,
            },
        ),
        TerminalOperationView::MoveFile { from, to } => Ok(
            ExecutionRequestView {
                tool: TerminalTool::Move,
                input: seq![("from"@, from), ("to"@, to)],
                resource: "filesystem"@,
            },
        ),
        TerminalOperationView::CopyFile { from, to } => Ok(
            ExecutionRequestView {
                tool: TerminalTool::Copy,
                input: seq![("from"@, from), ("to"@, to)],
                resource: "filesystem"@,
            },
        ),
        TerminalOperationView::RemoveFile { path } => Ok(
            ExecutionRequestView {
                tool: TerminalTool::Remove,
                input: seq![("path"@, path)],
                resource: "filesystem"@,
            },
        ),
        _ => Err("this execute boundary supports only rooted filesystem operations"@),
    }
}

fn pair(name: &str, value: &String) -> (pair: (String, String))
    ensures
        pair.0@ == name@,
        pair.1@ == value@,
{
    (name.to_owned(), value.clone())
}

/// Chooses the tool, its inputs and the resource for an operation.
pub fn execution_request(operation: &TerminalOperation) -> (result: Result<
    ExecutionRequest,
    TerminalCliError,
>)
    ensures
        outcome(result) == request_for(operation@),
{
    let mut input: Vec<(String, String)> = Vec::new();
    match operation {
        TerminalOperation::FindFiles { root, pattern, max_results } => {
            input.push(pair("max_results", &decimal_text(*max_results as u128)));
            input.push(pair("pattern", pattern));
            input.push(pair("root", root));
            assert(pair_views(input@) =~= seq![
                ("max_results"@, decimal(*max_results as nat)),
                ("pattern"@, pattern@),
                ("root"@, root@),
            ]);
            Ok(ExecutionRequest { tool: TerminalTool::Find, input, resource: root.clone() })
        },
        TerminalOperation::MoveFile { from, to } => {
            input.push(pair("from", from));
            input.push(pair("to", to));
            assert(pair_views(input@) =~= seq![("from"@, from@), ("to"@, to@)]);
            Ok(
                ExecutionRequest {
                    tool: TerminalTool::Move,
                    input,
                    resource: "filesystem".to_owned(),
                },
            )
        },
        TerminalOperation::CopyFile { from, to } => {
            input.push(pair("from", from));
            input.push(pair("to", to));
            assert(pair_views(input@) =~= seq![("from"@, from@), ("to"@, to@)]);
            Ok(
                ExecutionRequest {
                    tool: TerminalTool::Copy,
                    input,
                    resource: "filesystem".to_owned(),
                },
            )
        },
        TerminalOperation::RemoveFile { path } => {
            input.push(pair("path", path));
            assert(pair_views(input@) =~= seq![("path"@, path@)]);
            Ok(
                ExecutionRequest {
                    tool: TerminalTool::Remove,
                    input,
                    resource: "filesystem".to_owned(),
                },
            )
        },
        _ => Err(
            TerminalCliError(
                "this execute boundary supports only rooted filesystem operations".to_owned(),
            ),
        ),
    }
}

/// What became of the record that would undo an execution.
#[derive(Clone, Debug, PartialEq, Eq)]
pub enum UndoOutcome {
    NotOffered,
    NoOutput,
    NotExported(String),
    NotKept(String),
    Kept,
}

pub open spec fn undo_text(undo: UndoOutcome) -> Seq<char> {
    match undo {
        UndoOutcome::NotOffered => "not available"@,
        UndoOutcome::NoOutput => "persistent undo unavailable: "@
            + "compensatable execution has no output"@,
        UndoOutcome::NotExported(reason) => "persistent undo unavailable: "@ + reason@,
        UndoOutcome::NotKept(reason) => "persistent undo unavailable: "@ + reason@,
        UndoOutcome::Kept => "persistent undo available"@,
    }
}

pub fn compensation_status(undo: &UndoOutcome) -> (text: String)
    ensures
        text@ == undo_text(*undo),
{
    let mut out = "persistent undo unavailable: ".to_owned();
    match undo {
        UndoOutcome::NotOffered => {
            return "not available".to_owned();
        },
        UndoOutcome::Kept => {
            return "persistent undo available".to_owned();
        },
        UndoOutcome::NoOutput => out.append("compensatable execution has no output"),
        UndoOutcome::NotExported(reason) => out.append(reason.as_str()),
        UndoOutcome::NotKept(reason) => out.append(reason.as_str()),
    }
    out
}

pub open spec fn execution_text(
    operation: TerminalOperationView,
    preview: Seq<char>,
    output: Option<Seq<char>>,
    state: Seq<char>,
    undo: UndoOutcome,
) -> Seq<char> {
    "Terminal execution\nOperation: "@ + description(operation) + "\nPreview: "@ + preview
        + "\nOutput:\n"@ + (match output {
        Some(output) => output,
        None => "(empty)"@,
    }) + "\nState: "@ + state + "\nCompensation: "@ + undo_text(undo) + "\n"@
}

/// The report of an execution.
pub fn render_execution(
    operation: &TerminalOperation,
    preview: &str,
    output: Option<&str>,
    state: &str,
    undo: &UndoOutcome,
) -> (text: String)
    ensures
        text@ == execution_text(
            operation@,
            preview@,
            match output {
                Some(output) => Some(output@),
                None => None,
            },
            state@,
            *undo,
        ),
{
    let mut out = "Terminal execution\nOperation: ".to_owned();
    out.append(describe_operation(operation).as_str());
    out.append("\nPreview: ");
    out.append(preview);
    out.append("\nOutput:\n");
    match output {
        Some(output) => out.append(output),
        None => out.append("(empty)"),
    }
    out.append("\nState: ");
    out.append(state);
    out.append("\nCompensation: ");
    out.append(compensation_status(undo).as_str());
    out.append("\n");
    out
}

} // verus!
