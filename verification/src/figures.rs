//! The figures of a run, recovered from its recorded events alone.

use vstd::prelude::*;
use vstd::string::StringExecFns;

use crate::assumptions::{self, AssumptionGraph};
use crate::cache::{
    with_observation, CacheKey, CacheKeyView, CacheObservation, CacheObservationView, CacheRecord,
    CacheTelemetry,
};
use crate::codec::outcome;
use crate::context::{ContextError, ContextErrorView};
use crate::context_graph::{ContextGraph, ContextGraphView};
use crate::context_log::{recovered_by, transitions_in, ContextEventLog};
use crate::event_store::{
    bare, reconstruct_events, state_from, stored_views, StoredEvent, StoredEventView,
};
use crate::failure_memory::{self, FailureMemory};
use crate::ids::{AgentId, RunId};
use crate::inspector::{
    changed_figures_are_listed, differences, AgentFigure, AgentFigureView, RunFigures,
    RunFiguresView,
};
use crate::kernel::{event_views, Event, EventKind, EventKindView, EventView};
use crate::numerals::decimal_reads_back;
use crate::state::{AgentState, AgentStateView, RunStatus};
use crate::table::{entry_in_map, map_entry_has_index, Table};
use crate::text::{decimal, push_decimal};

verus! {

// ---------------------------------------------------------------------------
// What providers reported of their caches.

/// What an event says of a cache, if it says anything.
pub open spec fn observation_of(event: EventView) -> Option<CacheObservationView> {
    match event.kind {
        EventKindView::CacheObserved {
            provider,
            model,
            prefix_hash,
            estimated_prefix_tokens,
            cached_input_tokens,
        } => Some(
            CacheObservationView {
                key: CacheKeyView { provider, model, prefix_hash },
                estimated_prefix_tokens,
                observed_cached_tokens: cached_input_tokens,
                observed_at_ms: event.occurred_at_ms,
            },
        ),
        _ => None,
    }
}

/// The records that the events add up to.
pub open spec fn observed_in(events: Seq<EventView>) -> Map<CacheKeyView, CacheRecord>
    decreases events.len(),
{
    if events.len() == 0 {
        Map::empty()
    } else {
        let before = observed_in(events.drop_last());
        match observation_of(events.last()) {
            Some(observation) => with_observation(before, observation),
            None => before,
        }
    }
}

/// Gathers what the events say of caches.
pub fn observed_caches(events: &[Event]) -> (telemetry: CacheTelemetry)
    ensures
        telemetry@ == observed_in(event_views(events@)),
{
    let mut telemetry = CacheTelemetry::new();
    let ghost views = event_views(events@);
    let mut index: usize = 0;
    assert(views.take(0) =~= Seq::<EventView>::empty());
    while index < events.len()
        invariant
            index <= events@.len(),
            views == event_views(events@),
            telemetry@ == observed_in(views.take(index as int)),
        decreases events.len() - index,
    {
        let event = &events[index];
        proof {
            let now = views.take(index + 1);
            assert(now.drop_last() =~= views.take(index as int));
            assert(now.last() == event@);
        }
        match &event.kind {
            EventKind::CacheObserved {
                provider,
                model,
                prefix_hash,
                estimated_prefix_tokens,
                cached_input_tokens,
            } => {
                telemetry.record_observation(
                    CacheObservation {
                        key: CacheKey {
                            provider: provider.clone(),
                            model: model.clone(),
                            prefix_hash: *prefix_hash,
                        },
                        estimated_prefix_tokens: *estimated_prefix_tokens,
                        observed_cached_tokens: *cached_input_tokens,
                        observed_at_ms: event.occurred_at_ms,
                    },
                );
            },
            _ => {},
        }
        index += 1;
    }
    assert(views.take(views.len() as int) =~= views);
    telemetry
}

// ---------------------------------------------------------------------------
// Figures.

pub open spec fn agent_figure(agent: AgentStateView) -> AgentFigureView {
    AgentFigureView {
        provider: agent.model.provider,
        model: agent.model.model,
        status: agent.status,
    }
}

/// The agents by what a comparison reads of them.
pub open spec fn agent_figures(agents: Map<AgentId, AgentStateView>) -> Map<
    AgentId,
    AgentFigureView,
> {
    agents.map_values(|agent: AgentStateView| agent_figure(agent))
}

fn list_agents(agents: &Table<AgentId, AgentState>) -> (figures: Table<AgentId, AgentFigure>)
    ensures
        figures@ == agent_figures(agents@),
{
    let mut figures: Table<AgentId, AgentFigure> = Table::new();
    let count: usize = agents.len();
    let ghost keys = agents.keys();
    let ghost values = agents.values();
    let mut index: usize = 0;
    while index < count
        invariant
            index <= count,
            count == keys.len(),
            keys == agents.keys(),
            values == agents.values(),
            agents.well_formed(),
            forall|id: AgentId|
                #![trigger figures@.contains_key(id)]
                figures@.contains_key(id) == exists|i: int|
                    0 <= i < index && #[trigger] keys[i] == id,
            forall|i: int|
                0 <= i < index ==> figures@.contains_key(#[trigger] keys[i]) && figures@[keys[i]]
                    == agent_figure(values[i]@),
        decreases count - index,
    {
        let id = *agents.key_at(index);
        let agent = agents.value_at(index);
        let ghost before = figures@;
        let figure = AgentFigure {
            provider: agent.model.provider.clone(),
            model: agent.model.model.clone(),
            status: agent.status,
        };
        figures.insert(id, figure);
        proof {
            assert(keys[index as int] == id);
            assert forall|other: AgentId|
                #![trigger figures@.contains_key(other)]
                figures@.contains_key(other) == exists|i: int|
                    0 <= i < index + 1 && #[trigger] keys[i] == other by {
                assert(figures@.contains_key(other) == (before.contains_key(other) || other == id));
                if before.contains_key(other) {
                    let i = choose|i: int| 0 <= i < index && #[trigger] keys[i] == other;
                    assert(keys[i] == other);
                }
                if exists|i: int| 0 <= i < index + 1 && #[trigger] keys[i] == other {
                    let i = choose|i: int| 0 <= i < index + 1 && #[trigger] keys[i] == other;
                    if i < index {
                        assert(before.contains_key(keys[i]));
                    }
                }
            }
            assert forall|i: int| 0 <= i < index + 1 implies figures@.contains_key(
                #[trigger] keys[i],
            ) && figures@[keys[i]] == agent_figure(values[i]@) by {
                if i < index {
                    assert(before.contains_key(keys[i]));
                    entry_in_map(keys, values, i);
                    entry_in_map(keys, values, index as int);
                    if keys[i] == id {
                        let j = map_entry_has_index(keys, values, id);
                    }
                }
            }
        }
        index += 1;
    }
    proof {
        let expected = agent_figures(agents@);
        assert forall|id: AgentId|
            #![trigger figures@.dom().contains(id)]
            #![trigger expected.dom().contains(id)]
            figures@.dom().contains(id) == expected.dom().contains(id) && (figures@.dom().contains(
                id,
            ) ==> figures@[id] == expected[id]) by {
            assert(figures@.contains_key(id) == figures@.dom().contains(id));
            if agents@.contains_key(id) {
                let i = map_entry_has_index(keys, values, id);
                assert(keys[i] == id);
                entry_in_map(keys, values, i);
            }
            if figures@.contains_key(id) {
                let i = choose|i: int| 0 <= i < index && #[trigger] keys[i] == id;
                entry_in_map(keys, values, i);
            }
        }
        assert(figures@ =~= expected);
    }
    figures
}

/// A complaint about a run that cannot be recovered.
pub open spec fn unrecovered(run_id: RunId, message: Seq<char>) -> Seq<char> {
    "could not recover recorded run "@ + decimal(run_id.0 as nat) + ": "@ + message
}

/// The figures of a run, given its own events and the graph that its context
/// adds up to. How many tools and capabilities there are is told from
/// elsewhere.
pub open spec fn figures_from(
    run_id: RunId,
    own: Seq<StoredEventView>,
    context: Result<ContextGraphView, ContextErrorView>,
    tools: nat,
    capabilities: nat,
) -> Result<RunFiguresView, Seq<char>> {
    match state_from(own, run_id) {
        Err(error) => Err(unrecovered(run_id, error.text())),
        Ok(state) => match context {
            Err(error) => Err(unrecovered(run_id, error.text())),
            Ok(graph) => match assumptions::replayed(bare(own)) {
                Err(error) => Err(unrecovered(run_id, error.text())),
                Ok(claims) => match failure_memory::replayed(bare(own)) {
                    Err(error) => Err(unrecovered(run_id, error.text())),
                    Ok(failures) => Ok(
                        RunFiguresView {
                            run_id,
                            status: state.status,
                            events: own.len(),
                            tasks: state.tasks.len(),
                            agents: state.agents.len(),
                            artifacts: state.artifacts.len(),
                            context_blocks: graph.blocks.len(),
                            context_invalidations: graph.invalidations.len(),
                            assumptions: claims.assumptions.len(),
                            conflicts: claims.conflicts.len(),
                            tools,
                            capabilities,
                            cache_records: observed_in(bare(own)).len(),
                            failure_records: failures.len(),
                            managed_agents: agent_figures(state.agents),
                        },
                    ),
                },
            },
        },
    }
}

/// The context of a run: what its events describe, with artifacts as the
/// resolver answered.
pub open spec fn context_from<F: Fn([u8; 32]) -> Result<Vec<u8>, ContextError>>(
    resolver: F,
    own: Seq<StoredEventView>,
    context: Result<ContextGraphView, ContextErrorView>,
) -> bool {
    match transitions_in(bare(own)) {
        Err(error) => context == Err::<ContextGraphView, ContextErrorView>(error),
        Ok(log) => recovered_by(resolver, log, context),
    }
}

fn complain(run_id: RunId, message: String) -> (text: String)
    ensures
        text@ == unrecovered(run_id, message@),
{
    let mut text = "could not recover recorded run ".to_owned();
    push_decimal(&mut text, run_id.value() as u128);
    text.append(": ");
    text.append(message.as_str());
    text
}

fn bare_events(own: &Vec<StoredEvent>) -> (events: Vec<Event>)
    ensures
        event_views(events@) == bare(stored_views(own@)),
{
    let mut events: Vec<Event> = Vec::new();
    let ghost views = bare(stored_views(own@));
    let mut index: usize = 0;
    assert(event_views(events@) =~= views.take(0));
    while index < own.len()
        invariant
            index <= own@.len(),
            views == bare(stored_views(own@)),
            event_views(events@) == views.take(index as int),
        decreases own.len() - index,
    {
        let ghost before = events@;
        events.push(own[index].event.clone());
        index += 1;
        proof {
            assert(stored_views(own@)[index - 1] == own@[index - 1]@);
            assert(event_views(events@) =~= event_views(before).push(views[index - 1]));
            assert(event_views(events@) =~= views.take(index as int));
        }
    }
    assert(views.take(views.len() as int) =~= views);
    events
}

fn recover_context<F: Fn([u8; 32]) -> Result<Vec<u8>, ContextError>>(
    events: &Vec<Event>,
    own: &Vec<StoredEvent>,
    resolver: F,
) -> (result: Result<ContextGraph, ContextError>)
    requires
        event_views(events@) == bare(stored_views(own@)),
        forall|hash: [u8; 32]| call_requires(resolver, (hash,)),
    ensures
        context_from(resolver, stored_views(own@), outcome(result)),
{
    let log = ContextEventLog::from_events(events.as_slice())?;
    log.replay_with_content(resolver)
}

/// Recovers the figures of a run from its recorded events.
pub fn run_figures<F: Fn([u8; 32]) -> Result<Vec<u8>, ContextError>>(
    run_id: RunId,
    own: &Vec<StoredEvent>,
    resolver: F,
    tools: usize,
    capabilities: usize,
) -> (result: Result<RunFigures, String>)
    requires
        forall|hash: [u8; 32]| call_requires(resolver, (hash,)),
    ensures
        exists|context: Result<ContextGraphView, ContextErrorView>|
            #[trigger] context_from(resolver, stored_views(own@), context) && outcome(result)
                == figures_from(
                run_id,
                stored_views(own@),
                context,
                tools as nat,
                capabilities as nat,
            ),
{
    let ghost views = stored_views(own@);
    let events = bare_events(own);
    let recovered = recover_context(&events, own, resolver);
    let ghost context = outcome(recovered);
    assert(context_from(resolver, views, context));
    let state = match reconstruct_events(run_id, own) {
        Ok(state) => state,
        Err(error) => {
            return Err(complain(run_id, error.to_text()));
        },
    };
    let graph = match recovered {
        Ok(graph) => graph,
        Err(error) => {
            return Err(complain(run_id, error.to_text()));
        },
    };
    let claims = match AssumptionGraph::from_events(events.as_slice()) {
        Ok(claims) => claims,
        Err(error) => {
            return Err(complain(run_id, error.to_text()));
        },
    };
    let failures = match FailureMemory::from_events(events.as_slice()) {
        Ok(failures) => failures,
        Err(error) => {
            return Err(complain(run_id, error.to_text()));
        },
    };
    assert(views.len() == own@.len());
    Ok(
        RunFigures {
            run_id,
            status: state.status,
            events: own.len(),
            tasks: state.tasks.len(),
            agents: state.agents.len(),
            artifacts: state.artifacts.len(),
            context_blocks: graph.block_count(),
            context_invalidations: graph.invalidation_count(),
            assumptions: claims.assumptions().len(),
            conflicts: claims.conflicts().len(),
            tools,
            capabilities,
            cache_records: observed_caches(events.as_slice()).len(),
            failure_records: failures.records().len(),
            managed_agents: list_agents(&state.agents),
        },
    )
}

/// The figures count the events and show the status that they lead to; a run
/// without events has none.
pub proof fn figures_follow_the_events(
    run_id: RunId,
    own: Seq<StoredEventView>,
    context: Result<ContextGraphView, ContextErrorView>,
    tools: nat,
    capabilities: nat,
)
    ensures
        own.len() == 0 ==> figures_from(run_id, own, context, tools, capabilities) is Err,
        figures_from(run_id, own, context, tools, capabilities) matches Ok(figures) ==> {
            &&& figures.run_id == run_id
            &&& figures.events == own.len()
            &&& state_from(own, run_id) matches Ok(state) && figures.status == state.status
        },
{
}

proof fn statuses_have_their_own_names(left: RunStatus, right: RunStatus)
    requires
        left != right,
    ensures
        left.name() != right.name(),
{
    reveal_strlit("Active");
    reveal_strlit("Completed");
    reveal_strlit("Cancelled");
    reveal_strlit("Failed");
    assert("Active"@[0] == 'A');
    assert("Completed"@[1] == 'o');
    assert("Cancelled"@[1] == 'a');
    assert("Cancelled"@[0] == 'C');
    assert("Completed"@[0] == 'C');
    assert("Failed"@[0] == 'F');
}

proof fn status_and_events_are_listed(left: RunFiguresView, right: RunFiguresView)
    ensures
        left.status != right.status ==> differences(left, right).contains(
            "  "@ + "status"@ + ": "@ + left.status.name() + " -> "@ + right.status.name(),
        ),
        left.events != right.events ==> differences(left, right).contains(
            "  "@ + "events"@ + ": "@ + decimal(left.events) + " -> "@ + decimal(right.events),
        ),
{
    if left.status != right.status {
        statuses_have_their_own_names(left.status, right.status);
        changed_figures_are_listed(left, right, 0);
    }
    if left.events != right.events {
        decimal_reads_back(left.events);
        decimal_reads_back(right.events);
        changed_figures_are_listed(left, right, 1);
    }
}

/// Two runs that are recovered from their events are compared by what the
/// events lead to: a status that differs is listed, and so is a different
/// number of events.
pub proof fn compared_runs_show_their_events(
    left_run: RunId,
    left_own: Seq<StoredEventView>,
    left_context: Result<ContextGraphView, ContextErrorView>,
    right_run: RunId,
    right_own: Seq<StoredEventView>,
    right_context: Result<ContextGraphView, ContextErrorView>,
    tools: nat,
    capabilities: nat,
)
    requires
        figures_from(left_run, left_own, left_context, tools, capabilities) is Ok,
        figures_from(right_run, right_own, right_context, tools, capabilities) is Ok,
    ensures
        ({
            let left = figures_from(left_run, left_own, left_context, tools, capabilities)->Ok_0;
            let right = figures_from(
                right_run,
                right_own,
                right_context,
                tools,
                capabilities,
            )->Ok_0;
            let left_status = state_from(left_own, left_run)->Ok_0.status;
            let right_status = state_from(right_own, right_run)->Ok_0.status;
            &&& left_status != right_status ==> differences(left, right).contains(
                "  "@ + "status"@ + ": "@ + left_status.name() + " -> "@ + right_status.name(),
            )
            &&& left_own.len() != right_own.len() ==> differences(left, right).contains(
                "  "@ + "events"@ + ": "@ + decimal(left_own.len()) + " -> "@ + decimal(
                    right_own.len(),
                ),
            )
        }),
{
    let left = figures_from(left_run, left_own, left_context, tools, capabilities)->Ok_0;
    let right = figures_from(right_run, right_own, right_context, tools, capabilities)->Ok_0;
    figures_follow_the_events(left_run, left_own, left_context, tools, capabilities);
    figures_follow_the_events(right_run, right_own, right_context, tools, capabilities);
    status_and_events_are_listed(left, right);
}

} // verus!
