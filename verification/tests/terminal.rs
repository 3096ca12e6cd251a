use orynth::execution::{
    next_execution, next_undo, ExecutionAction, ExecutionStep, Reply, TransactionFacts, UndoAction,
    UndoStep,
};
use orynth::terminal::{
    parse_terminal_cli, translate_terminal_text, TerminalCliCommand, TerminalCliError,
    TerminalOperation,
};
use orynth::terminal_report::{
    compensation_status, describe_operation, execution_request, render_execution,
    render_terminal_plan, PlanSummary, TerminalEnvironment, TerminalTool, UndoOutcome,
};
use orynth::undo::{
    append_record, decode_undo_record, encode_undo_record, parse_journal, plan_recovery,
    remove_latest, render_journal, render_undo, FilesystemUndoRecord, MAX_UNDO_ENTRIES,
};

/// A planner that refuses paths outside the root.
fn planner(operation: &TerminalOperation) -> Option<String> {
    let paths: Vec<&String> = match operation {
        TerminalOperation::FindFiles { root, .. } => vec![root],
        TerminalOperation::MoveFile { from, to } | TerminalOperation::CopyFile { from, to } => {
            vec![from, to]
        }
        TerminalOperation::RemoveFile { path } => vec![path],
        _ => vec![],
    };
    if paths.iter().any(|path| path.starts_with("..")) {
        Some("path leaves the root".to_owned())
    } else {
        None
    }
}

fn parse(args: &[&str]) -> Result<TerminalCliCommand, TerminalCliError> {
    parse_terminal_cli(args.iter().map(|arg| (*arg).to_owned()).collect(), &planner)
}

#[test]
fn parses_typed_terminal_plan_commands() {
    let command = parse(&[
        "plan",
        "find",
        "--root",
        "src",
        "--pattern",
        "*.rs",
        "--limit",
        "20",
    ])
    .unwrap();
    assert_eq!(
        command,
        TerminalCliCommand::Plan(TerminalOperation::FindFiles {
            root: "src".to_owned(),
            pattern: "*.rs".to_owned(),
            max_results: 20,
        })
    );
}

#[test]
fn rejects_unknown_or_incomplete_terminal_flags() {
    assert!(parse(&["plan", "move", "--from", "a"]).is_err());
    assert!(parse(&["plan", "copy", "--from", "a", "--to", "b", "--oops", "x"]).is_err());
    assert!(parse(&[
        "plan",
        "find",
        "--root",
        "src",
        "--pattern",
        "*",
        "--limit",
        "0"
    ])
    .is_err());
}

#[test]
fn raw_shell_plan_is_preserved_for_blocking_instead_of_execution() {
    let command = parse(&["plan", "shell", "rm", "-rf", "tmp"]).unwrap();
    assert!(matches!(
        command,
        TerminalCliCommand::Plan(TerminalOperation::RawShellCommand { .. })
    ));
}

#[test]
fn execute_commands_carry_explicit_confirmation() {
    let command = parse(&[
        "execute",
        "copy",
        "--from",
        "src.txt",
        "--to",
        "copy.txt",
        "--confirm",
    ])
    .unwrap();
    assert!(matches!(
        command,
        TerminalCliCommand::Execute {
            confirmed: true,
            operation: TerminalOperation::CopyFile { .. }
        }
    ));
}

#[test]
fn bounded_local_translation_returns_typed_operations() {
    assert_eq!(
        translate_terminal_text("find files matching '*.rs' under src", &planner).unwrap(),
        TerminalOperation::FindFiles {
            root: "src".to_owned(),
            pattern: "*.rs".to_owned(),
            max_results: 128,
        }
    );
    assert!(matches!(
        parse(&["translate", "copy", "source.txt", "to", "copy.txt"]).unwrap(),
        TerminalCliCommand::Translate(TerminalOperation::CopyFile { .. })
    ));
}

#[test]
fn unsupported_local_translation_is_rejected_without_guessing() {
    assert!(translate_terminal_text("clean up my downloads folder", &planner).is_err());
    assert!(translate_terminal_text("remove ../outside.txt", &planner).is_err());
}

fn refusal(args: &[&str]) -> String {
    parse(args).expect_err("command should be refused").to_text()
}

#[test]
fn command_lines_are_bounded_and_explained() {
    assert_eq!(parse(&[]), Ok(TerminalCliCommand::Help));
    assert_eq!(parse(&["-h", "x"]), Ok(TerminalCliCommand::Help));
    assert_eq!(parse(&["undo"]), Ok(TerminalCliCommand::Undo));
    assert_eq!(refusal(&["undo", "x"]), "undo does not accept arguments");
    assert_eq!(
        refusal(&["go"]),
        "expected `plan`, `execute`, `help`, or `--help`"
    );
    assert_eq!(refusal(&vec!["x"; 129]), "too many terminal CLI arguments");
    assert_eq!(
        refusal(&["plan", ""]),
        "terminal CLI argument is empty or too large"
    );
    assert_eq!(
        refusal(&["plan", "dance"]),
        "unknown terminal operation \"dance\""
    );
    assert_eq!(
        refusal(&["plan", "list-processes", "x"]),
        "list-processes does not accept arguments"
    );
    assert_eq!(refusal(&["plan", "git"]), "git requires an action");
    assert_eq!(refusal(&["plan", "shell"]), "shell requires a command");
    assert_eq!(
        refusal(&["execute", "remove", "--confirm", "--path", "a", "--confirm"]),
        "--confirm may be provided only once"
    );
    assert_eq!(
        refusal(&["execute", "remove", "--path", "../a"]),
        "path leaves the root"
    );
    assert_eq!(
        parse(&["execute", "remove", "--path", "a"]),
        Ok(TerminalCliCommand::Execute {
            operation: TerminalOperation::RemoveFile { path: "a".to_owned() },
            confirmed: false,
        })
    );
}

#[test]
fn flags_are_explained() {
    let find = |rest: &[&str]| {
        let mut args = vec!["plan", "find"];
        args.extend_from_slice(rest);
        refusal(&args)
    };
    assert_eq!(find(&["root"]), "terminal flags must use --name value");
    assert_eq!(find(&["--"]), "terminal flags must use --name value");
    assert_eq!(find(&["--to", "x"]), "unknown terminal flag --to");
    assert_eq!(find(&["--root"]), "terminal flag --root requires a value");
    assert_eq!(
        find(&["--root", "--limit"]),
        "terminal flag --root requires a value"
    );
    assert_eq!(
        find(&["--root", "a", "--root", "b"]),
        "terminal flag --root was repeated"
    );
    assert_eq!(find(&["--root", "a"]), "terminal plan requires --pattern");
    assert_eq!(
        find(&["--root", "a", "--pattern", "b", "--limit", "many"]),
        "find --limit must be an unsigned 16-bit integer"
    );
    assert_eq!(
        find(&["--root", "a", "--pattern", "b", "--limit", "0"]),
        "find --limit must be greater than zero"
    );
}

#[test]
fn phrases_are_read_in_lower_case() {
    let translate = |text: &str| translate_terminal_text(text, &planner);
    assert_eq!(translate(" Show Processes "), Ok(TerminalOperation::ListProcesses));
    assert_eq!(
        translate("delete \" a b \""),
        Ok(TerminalOperation::RemoveFile { path: "a b".to_owned() })
    );
    assert_eq!(
        translate("MOVE A to B to C"),
        Ok(TerminalOperation::MoveFile {
            from: "a".to_owned(),
            to: "b to c".to_owned(),
        })
    );
    assert_eq!(
        translate("git  status   -s"),
        Ok(TerminalOperation::GitOperation {
            action: "status".to_owned(),
            args: vec!["-s".to_owned()],
        })
    );
    let refused = |text: &str| translate(text).expect_err("phrase should be refused").to_text();
    assert_eq!(refused("  "), "terminal translation text is empty or too large");
    assert_eq!(
        refused(&"x".repeat(4097)),
        "terminal translation text is empty or too large"
    );
    assert_eq!(refused("find x"), "expected `find <pattern> under <root>`");
    assert_eq!(
        refused("find files matching x"),
        "expected `find files matching <pattern> under <root>`"
    );
    assert_eq!(refused("copy x"), "expected `copy <source> to <destination>`");
    assert_eq!(refused("move x"), "expected `move <source> to <destination>`");
    assert_eq!(
        refused("remove \"\""),
        "translated terminal value must not be empty"
    );
    assert_eq!(
        refused("dance"),
        "unsupported local terminal phrase; use an explicit typed command"
    );
}

#[test]
fn operations_are_described_and_requested() {
    let find = TerminalOperation::FindFiles {
        root: "s\"rc".to_owned(),
        pattern: "*.rs".to_owned(),
        max_results: 5,
    };
    assert_eq!(
        describe_operation(&find),
        "find \"*.rs\" under \"s\\\"rc\" (limit 5)"
    );
    let request = execution_request(&find).unwrap();
    assert_eq!(request.tool, TerminalTool::Find);
    assert_eq!(request.resource, "s\"rc");
    assert_eq!(request.input[0], ("max_results".to_owned(), "5".to_owned()));
    let git = TerminalOperation::GitOperation {
        action: "status".to_owned(),
        args: vec![],
    };
    assert_eq!(describe_operation(&git), "git status");
    assert_eq!(
        execution_request(&git).err().map(|error| error.to_text()),
        Some("this execute boundary supports only rooted filesystem operations".to_owned())
    );
    let remove = TerminalOperation::RemoveFile { path: "a".to_owned() };
    assert_eq!(describe_operation(&remove), "quarantine \"a\"");
    assert_eq!(execution_request(&remove).unwrap().resource, "filesystem");
}

#[test]
fn plans_are_reported() {
    let environment = TerminalEnvironment {
        os: "linux".to_owned(),
        architecture: "x86_64".to_owned(),
        shell: None,
        working_directory: "/w".to_owned(),
        can_read_working_directory: true,
        can_write_working_directory: false,
        available_commands: vec!["git".to_owned(), "ls".to_owned()],
    };
    let plan = PlanSummary {
        risk: "Low".to_owned(),
        disposition: "Allow".to_owned(),
        compensation_available: false,
    };
    assert_eq!(
        render_terminal_plan(&TerminalOperation::ListProcesses, &environment, &plan),
        "Terminal plan\nOS: linux\nArchitecture: x86_64\nShell: unknown\nWorking directory: /w\nRead hint: true\nWrite hint: false\nAvailable commands (first 2): git, ls\nOperation: list processes\nRisk: Low\nDisposition: Allow\nCompensation: not available\nExecution: plan-only; no effect was performed.\n"
    );
    let many = TerminalEnvironment {
        available_commands: (0..20).map(|index| format!("c{index}")).collect(),
        ..environment.clone()
    };
    assert!(render_terminal_plan(&TerminalOperation::ListProcesses, &many, &plan)
        .contains("Available commands (first 16): c0, "));
    let none = TerminalEnvironment {
        available_commands: vec![],
        ..environment
    };
    assert!(render_terminal_plan(&TerminalOperation::ListProcesses, &none, &plan)
        .contains("Available commands (first 0): none\n"));
}

#[test]
fn executions_are_reported() {
    let operation = TerminalOperation::CopyFile {
        from: "a".to_owned(),
        to: "b".to_owned(),
    };
    assert_eq!(
        render_execution(&operation, "copy a", None, "Committed", &UndoOutcome::Kept),
        "Terminal execution\nOperation: copy \"a\" -> \"b\"\nPreview: copy a\nOutput:\n(empty)\nState: Committed\nCompensation: persistent undo available\n"
    );
    assert_eq!(compensation_status(&UndoOutcome::NotOffered), "not available");
    assert_eq!(
        compensation_status(&UndoOutcome::NoOutput),
        "persistent undo unavailable: compensatable execution has no output"
    );
    assert_eq!(
        compensation_status(&UndoOutcome::NotKept("full".to_owned())),
        "persistent undo unavailable: full"
    );
}

fn records() -> Vec<FilesystemUndoRecord> {
    vec![
        FilesystemUndoRecord::Move {
            from: "a|b".to_owned(),
            to: "\u{00e9}".to_owned(),
        },
        FilesystemUndoRecord::Copy {
            to: "x y".to_owned(),
            content_digest: 0xabc,
            content_len: u64::MAX,
        },
        FilesystemUndoRecord::Quarantine {
            original: "o".to_owned(),
            quarantined: "q\n".to_owned(),
        },
    ]
}

#[test]
fn undo_journals_read_back() {
    let records = records();
    assert_eq!(
        encode_undo_record(&records[1]),
        "v1|copy|782079|0000000000000abc|18446744073709551615"
    );
    let source = render_journal(&records).unwrap();
    assert_eq!(parse_journal(&source), Ok(records));
    assert_eq!(parse_journal(""), Ok(vec![]));
    assert_eq!(parse_journal("\n\n"), Ok(vec![]));
}

#[test]
fn undo_journals_are_bounded() {
    let record = records().remove(0);
    let mut list = Vec::new();
    for _ in 0..MAX_UNDO_ENTRIES {
        append_record(&mut list, record.clone());
    }
    assert_eq!(list.len(), MAX_UNDO_ENTRIES);
    let last = records().remove(1);
    append_record(&mut list, last.clone());
    assert_eq!(list.len(), MAX_UNDO_ENTRIES);
    assert_eq!(list.last(), Some(&last));
    assert_eq!(remove_latest(&mut list), Ok(last));
    let mut none: Vec<FilesystemUndoRecord> = Vec::new();
    assert!(remove_latest(&mut none).is_err());
    let long: Vec<FilesystemUndoRecord> =
        (0..MAX_UNDO_ENTRIES + 1).map(|_| record.clone()).collect();
    assert!(render_journal(&long).is_err());
    let line = encode_undo_record(&record);
    let source = vec![line; MAX_UNDO_ENTRIES + 1].join("\n");
    assert_eq!(
        parse_journal(&source).err().map(|error| error.to_text()),
        Some("terminal undo journal has too many records".to_owned())
    );
    assert_eq!(
        parse_journal(&"x".repeat(65537)).err().map(|error| error.to_text()),
        Some("terminal undo record is too large".to_owned())
    );
    assert_eq!(
        parse_journal(&"\n".repeat(32 * 65536 + 1)).err().map(|error| error.to_text()),
        Some("terminal undo journal is too large".to_owned())
    );
}

#[test]
fn broken_undo_records_are_refused() {
    let refused = |line: &str| {
        decode_undo_record(line)
            .expect_err("record should be refused")
            .to_text()
    };
    assert_eq!(refused("v2|move|61|62"), "invalid terminal undo record");
    assert_eq!(refused("v1|move|61"), "invalid terminal undo record");
    assert_eq!(refused("v1|move||62"), "invalid terminal undo path encoding");
    assert_eq!(refused("v1|move|6|62"), "invalid terminal undo path encoding");
    assert_eq!(refused("v1|move|6g|62"), "invalid terminal undo path encoding");
    assert_eq!(refused("v1|move|ff|62"), "terminal undo path is not UTF-8");
    assert_eq!(refused("v1|copy|61|zz|1"), "invalid copy undo digest");
    assert_eq!(refused("v1|copy|61|1|x"), "invalid copy undo length");
    assert!(decode_undo_record("v1|quarantine|61|62").is_ok());
}

#[test]
fn undone_operations_are_reported() {
    assert_eq!(
        render_undo(&records()[1]),
        "Terminal undo\nRecord: Copy { to: \"x y\", content_digest: 2748, content_len: 18446744073709551615 }\nState: Compensated\n"
    );
    let shown = format!("{:?}", records()[0]);
    assert_eq!(
        render_undo(&records()[0]),
        format!("Terminal undo\nRecord: {shown}\nState: Compensated\n")
    );
}

#[test]
fn interrupted_writes_are_recovered() {
    let plan = plan_recovery(false, true, true);
    assert!(plan.restore_backup && !plan.remove_backup && plan.remove_temporary);
    let plan = plan_recovery(true, true, false);
    assert!(!plan.restore_backup && plan.remove_backup && !plan.remove_temporary);
}

fn executed(
    operation: &TerminalOperation,
    facts: TransactionFacts,
    failing: Option<ExecutionAction>,
) -> (Vec<ExecutionAction>, ExecutionStep) {
    let mut action = ExecutionAction::Plan;
    let mut taken = Vec::new();
    loop {
        taken.push(action);
        let reply = if failing == Some(action) {
            Reply::Failed("broken".to_owned())
        } else {
            Reply::Done
        };
        match next_execution(operation, action, reply, facts) {
            ExecutionStep::Act(next) => action = next,
            step => return (taken, step),
        }
    }
}

#[test]
fn executions_check_before_they_act() {
    let remove = TerminalOperation::RemoveFile { path: "a".to_owned() };
    let facts = TransactionFacts {
        awaiting_approval: true,
        compensation_available: true,
        has_output: true,
    };
    let (taken, step) = executed(&remove, facts, None);
    assert_eq!(step, ExecutionStep::Ended(UndoOutcome::Kept));
    assert_eq!(
        taken,
        vec![
            ExecutionAction::Plan,
            ExecutionAction::Authorize,
            ExecutionAction::Register,
            ExecutionAction::Grant,
            ExecutionAction::Validate,
            ExecutionAction::OpenFiles,
            ExecutionAction::Preview,
            ExecutionAction::Approve,
            ExecutionAction::Execute,
            ExecutionAction::Verify,
            ExecutionAction::Commit,
            ExecutionAction::ExportUndo,
            ExecutionAction::KeepUndo,
        ]
    );
    for failing in &taken[..11] {
        let (until, step) = executed(&remove, facts, Some(*failing));
        assert_eq!(until.last(), Some(failing));
        assert_eq!(step, ExecutionStep::Refused("broken".to_owned()));
    }
    assert_eq!(
        executed(&remove, facts, Some(ExecutionAction::ExportUndo)).1,
        ExecutionStep::Ended(UndoOutcome::NotExported("broken".to_owned()))
    );
    assert_eq!(
        executed(&remove, facts, Some(ExecutionAction::KeepUndo)).1,
        ExecutionStep::Ended(UndoOutcome::NotKept("broken".to_owned()))
    );
    let safe = TransactionFacts { awaiting_approval: false, ..facts };
    assert!(!executed(&remove, safe, None).0.contains(&ExecutionAction::Approve));
    let silent = TransactionFacts { has_output: false, ..facts };
    assert_eq!(
        executed(&remove, silent, None).1,
        ExecutionStep::Ended(UndoOutcome::NoOutput)
    );
    let lasting = TransactionFacts { compensation_available: false, ..facts };
    assert_eq!(
        executed(&remove, lasting, None).1,
        ExecutionStep::Ended(UndoOutcome::NotOffered)
    );
    let (taken, step) = executed(&TerminalOperation::ListProcesses, facts, None);
    assert_eq!(taken, vec![ExecutionAction::Plan, ExecutionAction::Authorize]);
    assert_eq!(
        step,
        ExecutionStep::Refused(
            "this execute boundary supports only rooted filesystem operations".to_owned()
        )
    );
}

#[test]
fn records_are_forgotten_once_they_are_undone() {
    let mut action = UndoAction::ReadJournal;
    let mut taken = Vec::new();
    loop {
        taken.push(action);
        match next_undo(action, Reply::Done, true) {
            UndoStep::Act(next) => action = next,
            step => {
                assert_eq!(step, UndoStep::Undone);
                break;
            }
        }
    }
    assert_eq!(
        taken,
        vec![
            UndoAction::ReadJournal,
            UndoAction::Grant,
            UndoAction::Authorize,
            UndoAction::OpenFiles,
            UndoAction::Compensate,
            UndoAction::Forget,
        ]
    );
    assert_eq!(
        next_undo(UndoAction::ReadJournal, Reply::Done, false),
        UndoStep::Refused("no persisted terminal undo is available".to_owned())
    );
    assert_eq!(
        next_undo(UndoAction::Compensate, Reply::Failed("gone".to_owned()), true),
        UndoStep::Refused("gone".to_owned())
    );
}
