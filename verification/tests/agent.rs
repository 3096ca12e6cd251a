use orynth::agent::{
    validate_fork_prefix, AgentError, AgentSession, FinishReason, ProviderError, ProviderEvent,
    ProviderLimits, ProviderStream, StreamItem, StreamStep, ToolCall, MAX_AGENT_OUTPUT_BYTES,
};
use orynth::event_store::reconstruct_events;
use orynth::event_store::EventStore;
use orynth::ids::{AgentId, IdSource, RunId, TaskId};
use orynth::kernel::{
    AgentIdentity, Event, EventKind, EventTrace, ModelClass, ModelRef, Run, Task, Usage,
};
use orynth::memory_store::InMemoryEventStore;
use orynth::state::RunStatus;

const LIMITS: ProviderLimits = ProviderLimits {
    max_output_chunks: 64,
    max_payload_bytes: 1024,
    max_tool_calls: 2,
};

fn items(events: Vec<Result<ProviderEvent, ProviderError>>, cancelled: bool) -> ProviderStream {
    let steps = events
        .into_iter()
        .map(|event| StreamStep {
            at_ms: 7,
            cancelled,
            item: match event {
                Ok(event) => StreamItem::Event(event),
                Err(error) => StreamItem::Failed(error),
            },
        })
        .collect();
    ProviderStream::Items {
        steps,
        cancelled,
        ended_at_ms: 8,
    }
}

/// A provider that answers in words and reports one token for each.
fn mock_stream(prompt: &str, response: &str) -> Vec<Result<ProviderEvent, ProviderError>> {
    let mut events = Vec::new();
    let letters: Vec<char> = response.chars().collect();
    for chunk in letters.chunks(8) {
        events.push(Ok(ProviderEvent::TextDelta {
            text: chunk.iter().collect(),
        }));
    }
    let count = |text: &str| text.split_whitespace().count() as u64;
    events.push(Ok(ProviderEvent::Usage(Usage::new(count(prompt), count(response)))));
    events.push(Ok(ProviderEvent::Finish(FinishReason::Completed)));
    events
}

fn session(ids: &mut IdSource) -> AgentSession<&'static str> {
    let model = ModelRef::new("mock", "foundation", ModelClass::Cheap);
    let identity = AgentIdentity::new(ids, "foundation-agent", "test the foundation", model);
    AgentSession::new(identity, "mock")
}

#[test]
fn execution_keeps_logical_identity_and_records_transitions() {
    let mut ids = IdSource::with_prefix(5);
    let session = session(&mut ids);
    let identity = session.identity().id;
    let stream = items(mock_stream("say hello", "hello from the provider"), false);
    let execution = session
        .run(&mut ids, 1, LIMITS, "say hello", stream)
        .expect("mock execution should succeed");

    assert_eq!(execution.agent.id, identity);
    assert_eq!(execution.output_text(), "hello from the provider");
    assert_eq!(execution.usage.total_tokens(), 6);
    assert!(matches!(
        execution.trace.events().last().map(|event| &event.kind),
        Some(EventKind::RunCompleted { .. })
    ));
    assert_eq!(*session.provider(), "mock");
}

#[test]
fn cancellation_records_a_transition_without_accepting_chunks() {
    let mut ids = IdSource::with_prefix(5);
    let session = session(&mut ids);
    let stream = items(mock_stream("cancel me", "never accepted"), true);
    let error = session
        .run(&mut ids, 1, LIMITS, "cancel me", stream)
        .expect_err("run should cancel");

    assert!(matches!(error, AgentError::Cancelled { .. }));
    assert!(!error
        .trace()
        .events()
        .iter()
        .any(|event| matches!(event.kind, EventKind::ModelChunkReceived { .. })));
}

#[test]
fn provider_failure_is_observable() {
    let mut ids = IdSource::with_prefix(5);
    let session = session(&mut ids);
    let stream = items(vec![Err(ProviderError::Failed("mock failure".to_owned()))], false);
    let error = session
        .run(&mut ids, 1, LIMITS, "fail", stream)
        .expect_err("mock failure should propagate");

    assert!(matches!(error, AgentError::Provider { .. }));
    assert!(error
        .trace()
        .events()
        .iter()
        .any(|event| matches!(event.kind, EventKind::ModelFailed { .. })));
}

#[test]
fn provider_output_retention_is_bounded() {
    let mut ids = IdSource::with_prefix(5);
    let session = session(&mut ids);
    let stream = items(
        vec![Ok(ProviderEvent::TextDelta {
            text: "x".repeat(MAX_AGENT_OUTPUT_BYTES + 1),
        })],
        false,
    );
    let error = session
        .run(&mut ids, 1, LIMITS, "bound me", stream)
        .expect_err("oversized provider output should fail closed");
    assert!(matches!(error, AgentError::Provider { .. }));
}

#[test]
fn provider_output_chunk_cardinality_is_bounded() {
    let mut ids = IdSource::with_prefix(5);
    let session = session(&mut ids);
    let script = (0..LIMITS.max_output_chunks + 1)
        .map(|_| {
            Ok(ProviderEvent::TextDelta {
                text: "x".to_owned(),
            })
        })
        .collect();
    let error = session
        .run(&mut ids, 1, LIMITS, "bound chunks", items(script, false))
        .expect_err("too many provider chunks should fail closed");
    assert!(matches!(error, AgentError::Provider { .. }));
    assert_eq!(
        error.to_text(),
        "agent provider error: provider failed: provider emitted more than 64 output chunks"
    );
}

fn fork_prefix(ids: &mut IdSource, run: &Run, task: &Task, agent: &AgentIdentity) -> EventTrace {
    let mut prefix = EventTrace::default();
    prefix.record(Event::new(ids, 1, run.id, EventKind::RunCreated { run_id: run.id }));
    prefix.record(Event::new(
        ids,
        1,
        run.id,
        EventKind::TaskCreated {
            task_id: task.id,
            run_id: run.id,
            title: task.title.clone(),
        },
    ));
    prefix.record(Event::new(
        ids,
        1,
        run.id,
        EventKind::AgentCreated {
            agent: agent.clone(),
        },
    ));
    prefix
}

#[test]
fn fork_execution_reuses_child_identity_and_streams_live_provider_output() {
    let mut ids = IdSource::with_prefix(5);
    let session = session(&mut ids);
    let run = Run::new(&mut ids);
    let task = Task::new(&mut ids, run.id, "continue fork");
    let prefix = fork_prefix(&mut ids, &run, &task, session.identity());
    let stream = items(
        mock_stream("continue from the fork", "hello from the provider"),
        false,
    );
    let execution = session
        .run_fork(
            &mut ids,
            2,
            LIMITS,
            run.id,
            task,
            "continue from the fork",
            prefix,
            stream,
        )
        .expect("fork provider execution should succeed");

    assert_eq!(execution.run.id, run.id);
    assert_eq!(execution.agent.id, session.identity().id);
    assert_eq!(execution.output_text(), "hello from the provider");
    assert!(matches!(
        execution.trace.events().last().map(|event| &event.kind),
        Some(EventKind::RunCompleted { run_id }) if *run_id == run.id
    ));
}

#[test]
fn fork_execution_rejects_terminal_or_mismatched_prefixes_without_calling_provider() {
    let mut ids = IdSource::with_prefix(5);
    let session = session(&mut ids);
    let run = Run::new(&mut ids);
    let task = Task::new(&mut ids, run.id, "invalid fork");
    let mut prefix = EventTrace::default();
    prefix.record(Event::new(&mut ids, 1, run.id, EventKind::RunCreated { run_id: run.id }));
    prefix.record(Event::new(&mut ids, 1, run.id, EventKind::RunCompleted { run_id: run.id }));
    let length = prefix.len();

    let error = session
        .run_fork(
            &mut ids,
            2,
            LIMITS,
            run.id,
            task,
            "must not run",
            prefix,
            items(vec![], false),
        )
        .expect_err("terminal prefix should be rejected");
    assert!(matches!(error, AgentError::InvalidFork { .. }));
    assert_eq!(error.trace().len(), length);
}

#[test]
fn every_flaw_of_a_fork_prefix_is_named() {
    let mut ids = IdSource::with_prefix(5);
    let session = session(&mut ids);
    let run = Run::new(&mut ids);
    let task = Task::new(&mut ids, run.id, "t");
    let agent = session.identity().id;
    let good = fork_prefix(&mut ids, &run, &task, session.identity());
    assert_eq!(validate_fork_prefix(&good, run.id, &task, agent), Ok(()));
    assert_eq!(
        validate_fork_prefix(&EventTrace::new(), run.id, &task, agent),
        Err("fork prefix must contain at least run.created".to_owned())
    );
    assert_eq!(
        validate_fork_prefix(&good, RunId::from_u64(1), &task, agent),
        Err("fork prefix contains an event from another run".to_owned())
    );
    let headless = EventTrace {
        events: good.events()[1..].to_vec(),
    };
    assert_eq!(
        validate_fork_prefix(&headless, run.id, &task, agent),
        Err("fork prefix must begin with run.created for the child run".to_owned())
    );
    let other = Task {
        id: TaskId::from_u64(3),
        ..task.clone()
    };
    assert_eq!(
        validate_fork_prefix(&good, run.id, &other, agent),
        Err("fork prefix does not contain the requested task".to_owned())
    );
    assert_eq!(
        validate_fork_prefix(&good, run.id, &task, AgentId::from_u64(3)),
        Err("fork prefix does not contain the session agent".to_owned())
    );
    let mut ended = good.clone();
    ended.record(Event::new(
        &mut ids,
        1,
        run.id,
        EventKind::RunCancelled { run_id: run.id },
    ));
    assert_eq!(
        validate_fork_prefix(&ended, run.id, &task, agent),
        Err("live fork prefix cannot contain a terminal run event".to_owned())
    );
}

fn failure_of(script: Vec<Result<ProviderEvent, ProviderError>>) -> String {
    let mut ids = IdSource::with_prefix(5);
    let session = session(&mut ids);
    session
        .run(&mut ids, 1, LIMITS, "p", items(script, false))
        .expect_err("stream should be refused")
        .to_text()
}

fn started(id: &str) -> Result<ProviderEvent, ProviderError> {
    Ok(ProviderEvent::ToolCallStarted {
        call_id: id.to_owned(),
        name: "tool".to_owned(),
    })
}

fn completed(id: &str, arguments: String) -> Result<ProviderEvent, ProviderError> {
    Ok(ProviderEvent::ToolCallCompleted {
        call: ToolCall {
            call_id: id.to_owned(),
            name: "tool".to_owned(),
            arguments,
        },
    })
}

#[test]
fn malformed_streams_are_refused() {
    let prefix = "agent provider error: malformed provider stream: ";
    let finish = || Ok(ProviderEvent::Finish(FinishReason::Completed));
    assert_eq!(
        failure_of(vec![finish(), finish()]),
        format!("{prefix}provider emitted an event after finish")
    );
    assert_eq!(
        failure_of(vec![started("a"), started("a")]),
        format!("{prefix}duplicate tool-call start")
    );
    assert_eq!(
        failure_of(vec![started("a"), started("b"), started("c")]),
        format!("{prefix}provider emitted more than 2 active tool calls")
    );
    assert_eq!(
        failure_of(vec![Ok(ProviderEvent::ToolCallArgumentsDelta {
            call_id: "a".to_owned(),
            delta: "{}".to_owned(),
        })]),
        format!("{prefix}tool-call arguments arrived before start")
    );
    assert_eq!(
        failure_of(vec![completed("a", "x".repeat(1025))]),
        format!("{prefix}tool-call arguments exceed the provider bound")
    );
    assert_eq!(
        failure_of(vec![completed("a", String::new())]),
        format!("{prefix}tool-call completed without start")
    );
    assert_eq!(
        failure_of(vec![
            started("a"),
            completed("a", String::new()),
            started("b"),
            completed("b", String::new()),
            started("c"),
            completed("c", String::new()),
        ]),
        format!("{prefix}provider completed more than 2 tool calls")
    );
    assert_eq!(
        failure_of(vec![started("a"), finish()]),
        format!("{prefix}provider finished with incomplete tool call")
    );
    assert_eq!(
        failure_of(vec![Ok(ProviderEvent::ReasoningDelta { text: "hm".to_owned() })]),
        "agent provider error: provider failed: stream ended before a final chunk"
    );
}

#[test]
fn tool_calls_and_reasoning_are_recorded_as_chunks() {
    let mut ids = IdSource::with_prefix(5);
    let session = session(&mut ids);
    let stream = items(
        vec![
            Ok(ProviderEvent::ReasoningDelta { text: "hm".to_owned() }),
            started("a"),
            Ok(ProviderEvent::ToolCallArgumentsDelta {
                call_id: "a".to_owned(),
                delta: "{}".to_owned(),
            }),
            completed("a", "{}".to_owned()),
            Ok(ProviderEvent::TextDelta { text: String::new() }),
            Ok(ProviderEvent::Finish(FinishReason::Completed)),
        ],
        false,
    );
    let execution = session.run(&mut ids, 1, LIMITS, "p", stream).unwrap();
    assert_eq!(execution.tool_calls.len(), 1);
    assert_eq!(execution.output_text(), "");
    let indices: Vec<u32> = execution
        .trace
        .events()
        .iter()
        .filter_map(|event| match event.kind {
            EventKind::ModelChunkReceived { chunk_index, .. } => Some(chunk_index),
            _ => None,
        })
        .collect();
    assert_eq!(indices, vec![0, 1, 2, 3]);
}

#[test]
fn cancelled_finishes_and_refused_requests_end_the_run() {
    let mut ids = IdSource::with_prefix(5);
    let session = session(&mut ids);
    let stream = items(
        vec![started("a"), Ok(ProviderEvent::Finish(FinishReason::Cancelled))],
        false,
    );
    assert!(matches!(
        session.run(&mut ids, 1, LIMITS, "p", stream),
        Err(AgentError::Cancelled { .. })
    ));
    let stream = items(vec![Err(ProviderError::Cancelled)], false);
    assert!(matches!(
        session.run(&mut ids, 1, LIMITS, "p", stream),
        Err(AgentError::Cancelled { .. })
    ));
    let refused = ProviderStream::Refused(ProviderError::Cancelled);
    assert!(matches!(
        session.run(&mut ids, 1, LIMITS, "p", refused),
        Err(AgentError::Provider { error: ProviderError::Cancelled, .. })
    ));
    let invalid = ProviderStream::Items {
        steps: vec![StreamStep {
            at_ms: 2,
            cancelled: false,
            item: StreamItem::Refused(ProviderError::Cancelled),
        }],
        cancelled: false,
        ended_at_ms: 3,
    };
    assert!(matches!(
        session.run(&mut ids, 1, LIMITS, "p", invalid),
        Err(AgentError::Provider { .. })
    ));
}

#[test]
fn traces_replay_to_how_the_run_ended() {
    for (script, cancelled, expected) in [
        (mock_stream("p", "fine"), false, RunStatus::Completed),
        (mock_stream("p", "fine"), true, RunStatus::Cancelled),
        (vec![Err(ProviderError::Failed("x".to_owned()))], false, RunStatus::Failed),
    ] {
        let mut ids = IdSource::with_prefix(5);
        let session = session(&mut ids);
        let trace = match session.run(&mut ids, 1, LIMITS, "p", items(script, cancelled)) {
            Ok(execution) => execution.trace,
            Err(error) => error.trace().clone(),
        };
        let run_id = trace.events()[0].run_id;
        let mut store = InMemoryEventStore::new();
        store.append_trace(&trace).unwrap();
        let events = store.events(run_id).unwrap();
        assert_eq!(reconstruct_events(run_id, &events).unwrap().status, expected);
    }
}

#[test]
fn traces_show_exactly_one_ending() {
    for (script, cancelled) in [
        (mock_stream("p", "fine"), false),
        (mock_stream("p", "fine"), true),
        (vec![Err(ProviderError::Failed("x".to_owned()))], false),
    ] {
        let mut ids = IdSource::with_prefix(5);
        let session = session(&mut ids);
        let result = session.run(&mut ids, 1, LIMITS, "p", items(script, cancelled));
        let trace = match &result {
            Ok(execution) => &execution.trace,
            Err(error) => error.trace(),
        };
        let events = trace.events();
        let [.., before, last] = events else {
            panic!("the trace holds too little");
        };
        let fits = match &result {
            Ok(execution) => matches!(
                (&before.kind, &last.kind),
                (EventKind::ModelCompleted { usage, .. }, EventKind::RunCompleted { .. })
                    if *usage == execution.usage
            ),
            Err(AgentError::Cancelled { .. }) => matches!(
                (&before.kind, &last.kind),
                (EventKind::ModelCancelled { .. }, EventKind::RunCancelled { .. })
            ),
            Err(_) => matches!(
                (&before.kind, &last.kind),
                (EventKind::ModelFailed { .. }, EventKind::RunFailed { .. })
            ),
        };
        assert!(fits);
        let endings = events.iter().filter(|event| {
            matches!(
                event.kind,
                EventKind::RunCompleted { .. }
                    | EventKind::RunCancelled { .. }
                    | EventKind::RunFailed { .. }
            )
        });
        assert_eq!(endings.count(), 1);
        assert!(events.iter().all(|event| event.run_id == events[0].run_id));
    }
}
