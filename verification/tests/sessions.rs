use orynth::config::RuntimeConfig;
use orynth::context::{
    ContextDraft, ContextError, ContextIdSource, ContextKind, ContextOwner, ContextScope,
};
use orynth::context_graph::ContextGraph;
use orynth::context_log::ContextEventLog;
use orynth::event_store::EventStore;
use orynth::figures::{observed_caches, run_figures};
use orynth::ids::{AgentId, IdSource, RunId};
use orynth::inspector::{
    debug_banner, debug_session, debug_step, render_diff, DebugEvent, DebugLine, RunFigures,
    DEBUG_HELP,
};
use orynth::journal_steps::{journal_failure, next_journal_step, JournalAction, JournalStep};
use orynth::kernel::{AgentIdentity, Event, EventKind, ModelClass, ModelRef};
use orynth::memory_store::InMemoryEventStore;
use orynth::operator::{parse_args, Command};
use orynth::state::RunStatus;

fn parse(args: &[&str]) -> Result<Command, String> {
    parse_args(args.iter().map(|arg| (*arg).to_owned()).collect())
}

#[test]
fn the_order_of_options_does_not_count() {
    let expected = parse(&[
        "fork", "--db", "run.db", "--run", "1", "--at", "2", "--child", "3", "--mode", "live",
    ]);
    assert!(expected.is_ok());
    assert_eq!(
        parse(&[
            "fork", "--mode", "live", "--child", "3", "--run", "1", "--at", "2", "--db", "run.db",
        ]),
        expected
    );
    assert_eq!(
        parse(&["diff", "--right", "2", "--left", "1", "--db", "run.db"]),
        parse(&["diff", "--db", "run.db", "--left", "1", "--right", "2"])
    );
}

#[test]
fn options_of_other_commands_are_refused() {
    assert!(parse(&["inspect", "--db", "run.db", "--run", "1"]).is_ok());
    assert!(parse(&["inspect", "--db", "run.db", "--run", "1", "--at", "1"]).is_err());
    assert!(parse(&["replay", "--db", "run.db", "--run", "1", "--child", "2"]).is_err());
    assert!(parse(&["debug", "--db", "run.db", "--run", "1", "--demo"]).is_err());
    assert!(parse(&["tui", "--demo"]).is_ok());
    assert!(parse(&["tui", "--demo", "--run", "1"]).is_err());
}

fn figures_of(store: &InMemoryEventStore, run: u64) -> Result<RunFigures, String> {
    let run_id = RunId::from_u64(run);
    let own = store.events(run_id).unwrap();
    run_figures(run_id, &own, |hash| Err(ContextError::MissingArtifact(hash)), 0, 0)
}

#[test]
fn compared_runs_are_counted_from_their_events() {
    let mut ids = IdSource::with_prefix(5);
    let mut store = InMemoryEventStore::new();
    for run in [41, 42] {
        let run_id = RunId::from_u64(run);
        let event = Event::new(&mut ids, 1, run_id, EventKind::RunCreated { run_id });
        store.append(event).unwrap();
    }
    let run_id = RunId::from_u64(42);
    let event = Event::new(&mut ids, 2, run_id, EventKind::RunCompleted { run_id });
    store.append(event).unwrap();
    let left = figures_of(&store, 41).unwrap();
    let right = figures_of(&store, 42).unwrap();
    let text = render_diff(&left, &right);
    assert!(text.starts_with("Recorded projection diff (provider calls: 0)\n"));
    assert!(text.contains("  status: Active -> Completed\n"));
    assert!(text.contains("  events: 1 -> 2\n"));
    for same in [&left, &right] {
        assert!(render_diff(same, same).ends_with("No differing recovered projection fields.\n"));
    }
    assert!(figures_of(&store, 43)
        .unwrap_err()
        .starts_with("could not recover recorded run 43: "));
}

#[test]
fn figures_count_agents_contexts_and_caches() {
    let mut ids = IdSource::with_prefix(5);
    let run_id = RunId::from_u64(7);
    let model = ModelRef::new("mock", "small", ModelClass::Cheap);
    let agent = AgentIdentity::new(&mut ids, "AUTH", "mission", model);
    let agent_id = agent.id;
    let cache = |byte: u8| EventKind::CacheObserved {
        provider: "mock".to_owned(),
        model: "small".to_owned(),
        prefix_hash: [byte; 32],
        estimated_prefix_tokens: 20,
        cached_input_tokens: 12,
    };
    let mut events = Vec::new();
    for kind in [
        EventKind::RunCreated { run_id },
        EventKind::AgentCreated { agent },
        cache(1),
        cache(2),
        cache(1),
    ] {
        events.push(Event::new(&mut ids, 1, run_id, kind));
    }
    let mut graph = ContextGraph::new();
    let draft = ContextDraft::new(
        "project.rules",
        ContextKind::Contract,
        ContextOwner::Runtime,
        ContextScope::Global,
        "typed state",
    );
    let publication = graph.publish(&mut ContextIdSource::new(), draft).unwrap();
    let mut log = ContextEventLog::new();
    log.record(&publication);
    events.extend(log.to_events(&mut ids, 2, run_id).unwrap());
    let telemetry = observed_caches(&events);
    assert_eq!(telemetry.len(), 2);
    let mut store = InMemoryEventStore::new();
    store.append_batch(&events).unwrap();
    let figures = figures_of(&store, 7).unwrap();
    assert_eq!(figures.status, RunStatus::Active);
    assert_eq!(figures.events, 6);
    assert_eq!(figures.agents, 1);
    assert_eq!(figures.cache_records, 2);
    assert_eq!(figures.context_blocks, 1);
    assert_eq!(figures.failure_records, 0);
    assert_eq!(figures.managed_agents.get(&agent_id).unwrap().model, "small");
}

fn typed(line: &str) -> DebugLine {
    DebugLine { line: line.to_owned(), drawn: format!("<{line}>\n") }
}

#[test]
fn sessions_end_at_the_first_quit() {
    let events = vec![DebugEvent { sequence: 1, detail: "RunCreated".to_owned() }];
    let run_id = RunId::from_u64(51);
    let cut = vec![typed("event 1"), typed("dance"), typed("pane x"), typed("show"), typed(" quit ")];
    let mut longer = cut.clone();
    longer.push(typed("event 1"));
    longer.push(typed("quit"));
    let text = debug_session(run_id, &cut, &events);
    assert_eq!(
        text,
        format!(
            "{}#1 RunCreated\ndebug> Unknown debug command \"dance\". {DEBUG_HELP}\ndebug> unknown pane \"x\". {DEBUG_HELP}\ndebug> <show>\ndebug> Leaving debug session.\n",
            debug_banner(run_id)
        )
    );
    assert_eq!(debug_session(run_id, &longer, &events), text);
    assert_eq!(debug_session(run_id, &vec![], &events), debug_banner(run_id));
}

#[test]
fn single_steps_say_whether_the_session_is_left() {
    let events = vec![];
    let reply = debug_step(false, "exit", "", &events);
    assert!(reply.left);
    assert_eq!(reply.text, "Leaving debug session.\n");
    let reply = debug_step(false, "next", "drawn\n", &events);
    assert!(!reply.left);
    assert_eq!(reply.text, "drawn\ndebug> ");
    let reply = debug_step(true, "help", "", &events);
    assert!(reply.left);
    assert_eq!(reply.text, "");
}

#[test]
fn journals_are_replaced_step_by_step() {
    let act = JournalStep::Act;
    let next = next_journal_step;
    assert_eq!(next(JournalAction::Write, true, true, false), act(JournalAction::Sync));
    assert_eq!(next(JournalAction::Sync, true, true, false), act(JournalAction::Install));
    assert_eq!(next(JournalAction::Install, true, true, false), JournalStep::Done);
    assert_eq!(next(JournalAction::Install, false, true, true), act(JournalAction::ClearBackup));
    assert_eq!(next(JournalAction::Install, false, true, false), act(JournalAction::SetAside));
    assert_eq!(next(JournalAction::ClearBackup, true, true, false), act(JournalAction::SetAside));
    assert_eq!(
        next(JournalAction::ClearBackup, true, false, false),
        act(JournalAction::InstallAgain)
    );
    assert_eq!(next(JournalAction::SetAside, true, false, true), act(JournalAction::InstallAgain));
    assert_eq!(
        next(JournalAction::InstallAgain, true, true, true),
        act(JournalAction::RemoveBackup)
    );
    assert_eq!(next(JournalAction::InstallAgain, false, false, true), act(JournalAction::PutBack));
    assert_eq!(
        next(JournalAction::PutBack, true, true, false),
        JournalStep::Failed(JournalAction::InstallAgain)
    );
    assert_eq!(next(JournalAction::RemoveBackup, true, true, false), JournalStep::Done);
    for (action, text) in [
        (JournalAction::Write, "could not write terminal undo journal"),
        (JournalAction::Sync, "could not sync terminal undo journal"),
        (JournalAction::ClearBackup, "could not clear undo backup"),
        (JournalAction::SetAside, "could not stage undo journal"),
        (JournalAction::RemoveBackup, "could not remove undo backup"),
    ] {
        assert_eq!(next(action, false, true, true), JournalStep::Failed(action));
        assert_eq!(journal_failure(action), text);
    }
    assert_eq!(
        journal_failure(JournalAction::InstallAgain),
        "could not install terminal undo journal"
    );
}

#[test]
fn whole_context_histories_replay() {
    let owner = ContextOwner::Agent(AgentId::from_u64(101));
    let mut graph = ContextGraph::new();
    let mut ids = ContextIdSource::new();
    let mut history = Vec::new();
    let mut references = Vec::new();
    for (namespace, content) in
        [("schema.users", "id: UUID"), ("auth.contract", "subject"), ("schema.users", "id: BIGINT")]
    {
        let mut draft = ContextDraft::new(
            namespace,
            ContextKind::Contract,
            owner,
            ContextScope::Team,
            content,
        );
        if namespace == "auth.contract" {
            draft = draft.with_dependency(references[0]);
        }
        let publication = graph.publish(&mut ids, draft).unwrap();
        references.push(publication.block.reference());
        history.extend(publication.transitions);
    }
    history.push(graph.pin(references[1]).unwrap());
    history.push(graph.archive(references[2]).unwrap());
    history.push(graph.restore(references[2]).unwrap());
    history.push(graph.unpin(references[1]).unwrap());
    let replayed = ContextGraph::replay(history).unwrap();
    for reference in references {
        let block = graph.block(reference).unwrap();
        assert_eq!(replayed.block(reference).unwrap(), block);
        assert_eq!(replayed.content(block.content_hash), graph.content(block.content_hash));
        assert_eq!(replayed.latest(&block.namespace), graph.latest(&block.namespace));
    }
    assert_eq!(replayed.block_count(), 3);
}

#[test]
fn empty_configurations_are_the_default() {
    assert_eq!(RuntimeConfig::parse(""), Ok(RuntimeConfig::default()));
    assert_eq!(RuntimeConfig::default().validate(), Ok(()));
}
