use orynth::event_store::{ForkedRun, ReplayMode, StoredEvent};
use orynth::ids::{AgentId, BranchId, IdSource, RunId};
use orynth::inspector::{
    answer_debug_command, bound_tui_history, bounded_debug_detail, check_fork_ids, debug_banner,
    event_page, parse_debug_command, recorded_prefix, render_diff, render_fork, run_standing,
    AgentFigure, DebugCommand, DebugEvent, InspectorPane, RunFigures, DEBUG_HELP,
};
use orynth::kernel::{Event, EventKind, EventTrace};
use orynth::operator::{parse_args, parse_replay_mode, Command, HELP};
use orynth::state::{AgentStatus, RunStatus};
use orynth::table::Table;

fn parse(args: &[&str]) -> Result<Command, String> {
    parse_args(args.iter().map(|arg| (*arg).to_owned()).collect())
}

#[test]
fn parser_requires_explicit_inspect_inputs() {
    assert!(parse(&["inspect", "--db", "run.db"]).is_err());
    assert!(parse(&["inspect", "--run", "1"]).is_err());
    assert_eq!(parse(&["help"]), Ok(Command::Help));
    assert_eq!(
        parse(&["replay", "--db", "run.db", "--run", "1", "--at", "12"]),
        Ok(Command::Replay {
            database: "run.db".to_owned(),
            run: 1,
            at: Some(12),
        })
    );
    assert_eq!(
        parse(&[
            "fork", "--db", "run.db", "--run", "1", "--at", "2", "--child", "3", "--mode", "live"
        ]),
        Ok(Command::Fork {
            database: "run.db".to_owned(),
            run: 1,
            at: 2,
            child: 3,
            mode: ReplayMode::ForkLive,
        })
    );
    assert_eq!(
        parse(&["diff", "--db", "run.db", "--left", "1", "--right", "2"]),
        Ok(Command::Diff {
            database: "run.db".to_owned(),
            left: 1,
            right: 2,
        })
    );
    assert_eq!(
        parse(&["debug", "--db", "run.db", "--run", "1"]),
        Ok(Command::Debug {
            database: "run.db".to_owned(),
            run: 1,
        })
    );
    assert_eq!(
        parse(&["tui", "--demo"]),
        Ok(Command::Tui {
            database: ".orynth/runtime.db".to_owned(),
            run: None,
            demo: true,
        })
    );
}

#[test]
fn every_missing_input_is_named() {
    assert_eq!(parse(&[]), Ok(Command::Help));
    assert_eq!(
        parse(&["dance"]),
        Err(format!("unknown command \"dance\"\n\n{HELP}"))
    );
    assert_eq!(parse(&["inspect", "--db"]), Err("--db requires a path".to_owned()));
    assert_eq!(
        parse(&["inspect", "--run"]),
        Err("--run requires a numeric run id".to_owned())
    );
    assert_eq!(
        parse(&["inspect", "--run", "x"]),
        Err("invalid run id \"x\"".to_owned())
    );
    assert_eq!(
        parse(&["inspect", "--at", "1"]),
        Err(format!("unknown inspect argument \"--at\"\n\n{HELP}"))
    );
    assert_eq!(
        parse(&["replay", "--at", "x"]),
        Err("invalid event sequence \"x\"".to_owned())
    );
    assert_eq!(
        parse(&["fork", "--at"]),
        Err("--at requires a numeric fork sequence".to_owned())
    );
    assert_eq!(
        parse(&["fork", "--child", "-1"]),
        Err("invalid child run id \"-1\"".to_owned())
    );
    assert_eq!(
        parse(&["fork", "--mode"]),
        Err("--mode requires recorded, reexecute, or live".to_owned())
    );
    assert_eq!(
        parse(&["fork", "--db", "d", "--run", "1"]),
        Err(format!("fork requires --at\n\n{HELP}"))
    );
    assert_eq!(
        parse(&["fork", "--db", "d", "--run", "1", "--at", "2"]),
        Err(format!("fork requires --child\n\n{HELP}"))
    );
    assert_eq!(
        parse(&["diff", "--db", "d", "--left", "1"]),
        Err(format!("diff requires --right\n\n{HELP}"))
    );
    assert_eq!(parse(&["debug"]), Err(format!("debug requires --db\n\n{HELP}")));
    assert_eq!(
        parse(&["tui", "--demo", "--run", "4"]),
        Err("tui --demo cannot be combined with --run".to_owned())
    );
    assert_eq!(
        parse_replay_mode("odd"),
        Err("invalid replay mode \"odd\"; expected recorded, reexecute, or live".to_owned())
    );
}

fn history(count: u64) -> Vec<StoredEvent> {
    let mut ids = IdSource::with_prefix(5);
    let run_id = RunId::from_u64(19);
    (1..count + 1)
        .map(|sequence| StoredEvent {
            sequence,
            event: Event::new(
                &mut ids,
                1,
                run_id,
                if sequence == 1 {
                    EventKind::RunCreated { run_id }
                } else {
                    EventKind::AgentPaused {
                        agent_id: AgentId::from_u64(sequence),
                    }
                },
            ),
        })
        .collect()
}

#[test]
fn prefixes_end_at_the_selected_sequence() {
    assert_eq!(recorded_prefix(history(4), 19, Some(2)).unwrap().len(), 2);
    assert_eq!(recorded_prefix(history(4), 19, None).unwrap().len(), 4);
    assert_eq!(
        recorded_prefix(history(4), 19, Some(0)),
        Err("run 19 has no recorded event at or before sequence 0".to_owned())
    );
    assert_eq!(
        recorded_prefix(vec![], 999, None),
        Err("run 999 is not present".to_owned())
    );
}

#[test]
fn pages_and_windows_show_the_latest_events() {
    let events = history(10);
    let page: Vec<u64> = event_page(&events, Some(6), 3)
        .iter()
        .map(|stored| stored.sequence)
        .collect();
    assert_eq!(page, vec![3, 4, 5]);
    assert_eq!(event_page(&events, None, 100).len(), 10);
    assert_eq!(event_page(&events, Some(2), 16).len(), 1);
    let window = bound_tui_history(history(600));
    assert_eq!(window.len(), 512);
    assert_eq!(window[0].sequence, 89);
    assert_eq!(bound_tui_history(history(3)).len(), 3);
}

#[test]
fn runs_stand_as_their_last_event_says() {
    assert_eq!(run_standing(&vec![]), "EMPTY");
    let mut events = history(1);
    assert_eq!(run_standing(&events), "ACTIVE");
    let run_id = RunId::from_u64(19);
    for (kind, expected) in [
        (EventKind::RunCompleted { run_id }, "COMPLETED"),
        (EventKind::RunCancelled { run_id }, "CANCELLED"),
        (
            EventKind::RunFailed { run_id, message: String::new() },
            "FAILED",
        ),
    ] {
        events[0].event.kind = kind;
        assert_eq!(run_standing(&events), expected);
    }
}

#[test]
fn forks_are_reported() {
    assert!(check_fork_ids(0, 1).is_err());
    assert!(check_fork_ids(1, 0).is_err());
    assert!(check_fork_ids(1, 2).is_ok());
    let forked = ForkedRun {
        branch_id: BranchId::from_u64(1),
        parent_run_id: RunId::from_u64(31),
        child_run_id: RunId::from_u64(32),
        fork_sequence: 7,
        replay_mode: ReplayMode::ReexecuteLive,
        copied_event_count: 3,
        child_sequences: vec![],
        child_prefix: EventTrace::new(),
    };
    assert_eq!(
        render_fork(&forked),
        "Fork materialized\nBranch: branch-0000000000000001\nParent: run-000000000000001f at sequence 7\nChild: run-0000000000000020\nMode: ReexecuteLive\nCopied events: 3"
    );
}

fn figures(run: u64, status: RunStatus, events: usize) -> RunFigures {
    RunFigures {
        run_id: RunId::from_u64(run),
        status,
        events,
        tasks: 0,
        agents: 0,
        artifacts: 0,
        context_blocks: 0,
        context_invalidations: 0,
        assumptions: 0,
        conflicts: 0,
        tools: 0,
        capabilities: 0,
        cache_records: 0,
        failure_records: 0,
        managed_agents: Table::new(),
    }
}

#[test]
fn differences_between_runs_are_listed() {
    let mut left = figures(41, RunStatus::Active, 1);
    let mut right = figures(42, RunStatus::Completed, 2);
    let figure = |model: &str| AgentFigure {
        provider: "mock".to_owned(),
        model: model.to_owned(),
        status: AgentStatus::Running,
    };
    left.managed_agents.insert(AgentId::from_u64(2), figure("a"));
    right.managed_agents.insert(AgentId::from_u64(2), figure("b"));
    right.managed_agents.insert(AgentId::from_u64(1), figure("c"));
    assert_eq!(
        render_diff(&left, &right),
        "Recorded projection diff (provider calls: 0)\nLeft: run-0000000000000029\nRight: run-000000000000002a\nDifferences:\n  status: Active -> Completed\n  events: 1 -> 2\n  agent agent-0000000000000001: <absent> -> mock/c/ Running\n  agent agent-0000000000000002: mock/a/ Running -> mock/b/ Running\n"
    );
    assert!(render_diff(&right, &right)
        .ends_with("No differing recovered projection fields.\n"));
}

#[test]
fn debug_commands_are_read_and_answered() {
    let events = vec![
        DebugEvent { sequence: 1, detail: "RunCreated".to_owned() },
        DebugEvent { sequence: 4, detail: "d".repeat(600) },
    ];
    let answer = |line: &str| answer_debug_command(&parse_debug_command(line), &events);
    assert_eq!(parse_debug_command(" pane events "), DebugCommand::Pane(InspectorPane::Events));
    assert_eq!(parse_debug_command("select 0"), DebugCommand::Select(0));
    assert_eq!(parse_debug_command("next"), DebugCommand::Next);
    assert_eq!(parse_debug_command("prev"), DebugCommand::Previous);
    assert_eq!(parse_debug_command("show"), DebugCommand::Show);
    assert_eq!(parse_debug_command("breakpoints"), DebugCommand::Breakpoints);
    assert_eq!(answer("show"), None);
    assert_eq!(answer(""), Some(String::new()));
    assert_eq!(answer("help"), Some(format!("{DEBUG_HELP}\n")));
    assert_eq!(answer("exit"), Some("Leaving debug session.\n".to_owned()));
    assert_eq!(answer("event 1"), Some("#1 RunCreated\n".to_owned()));
    assert_eq!(answer("event 9"), Some("No event at sequence 9.\n".to_owned()));
    assert_eq!(
        answer("event x"),
        Some("event requires a numeric sequence.\n".to_owned())
    );
    assert_eq!(
        answer("select x"),
        Some("select requires a numeric index.\n".to_owned())
    );
    assert_eq!(
        answer("pane x"),
        Some(format!("unknown pane \"x\". {DEBUG_HELP}\n"))
    );
    assert_eq!(
        answer("dance"),
        Some(format!("Unknown debug command \"dance\". {DEBUG_HELP}\n"))
    );
    assert_eq!(
        answer("events"),
        Some(format!("#1 RunCreated\n#4 {}...\n", "d".repeat(512)))
    );
    assert_eq!(bounded_debug_detail("short"), "short");
    assert_eq!(
        debug_banner(RunId::from_u64(51)),
        format!("Orynth debug session for run-0000000000000033 (read-only)\n{DEBUG_HELP}\ndebug> ")
    );
}
