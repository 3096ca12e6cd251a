//! What operator commands carry, and what the inspector and the terminal
//! answer.

use vstd::prelude::*;

use crate::agent::concatenated;
use crate::cache::{CacheKeyView, CacheObservationView};
use crate::event_store::{bare, state_from, ReplayMode, StoredEventView};
use crate::execution::{
    following, stopping, undo_following, ExecutionAction, ExecutionStepView, TransactionFacts,
    UndoAction, UndoStepView,
};
use crate::figures::{figures_from, observed_in, observation_of};
use crate::context::ContextErrorView;
use crate::context_graph::ContextGraphView;
use crate::context_views::last_of;
use crate::fork_laws::parts_of_a_history_are_whole;
use crate::ids::{id_text, AgentId, RunId};
use crate::inspector::{
    agent_in, agent_lines, ahead_of, bounded_detail, debug_line, debug_lines, event_at, or_absent,
    prefix_of, standing, AgentFigureView, DebugEvent,
};
use crate::kernel::{EventKindView, EventView};
use crate::numerals::{decimal_reads_back, number_reads_back};
use crate::operator::{
    command_in, mode_named, no_options, options_in, with_option, CommandView, OptionsView, Verb,
};
use crate::operator_laws::names_differ;
use crate::scan::number_in;
use crate::state::Sequence;
use crate::terminal::TerminalOperationView;
use crate::terminal_report::{request_for, TerminalTool};
use crate::text::decimal;
use crate::undo::{with_record, FilesystemUndoRecordView, MAX_UNDO_ENTRIES};

verus! {

// ---------------------------------------------------------------------------
// Operator commands.

proof fn numbers_are_read(value: u64)
    ensures
        number_in(decimal(value as nat), 10, u64::MAX as nat) == Some(value as nat),
{
    decimal_reads_back(value as nat);
    number_reads_back(decimal(value as nat), 10, value as nat, u64::MAX as nat);
}

proof fn verbs_differ()
    ensures
        crate::operator::verb_named("inspect"@) == Some(Verb::Inspect),
        crate::operator::verb_named("replay"@) == Some(Verb::Replay),
        crate::operator::verb_named("fork"@) == Some(Verb::Fork),
        crate::operator::verb_named("diff"@) == Some(Verb::Diff),
        crate::operator::verb_named("debug"@) == Some(Verb::Debug),
        crate::operator::verb_named("tui"@) == Some(Verb::Tui),
        forall|name: Seq<char>|
            (name == "help"@ || name == "--help"@ || name == "-h"@)
                ==> #[trigger] crate::operator::verb_named(name) is None,
{
    reveal_strlit("inspect");
    reveal_strlit("replay");
    reveal_strlit("fork");
    reveal_strlit("diff");
    reveal_strlit("debug");
    reveal_strlit("tui");
    reveal_strlit("help");
    reveal_strlit("--help");
    reveal_strlit("-h");
    assert("inspect"@.len() == 7 && "replay"@.len() == 6 && "fork"@.len() == 4);
    assert("diff"@.len() == 4 && "debug"@.len() == 5 && "tui"@.len() == 3);
    assert("help"@.len() == 4 && "--help"@.len() == 6 && "-h"@.len() == 2);
    assert("fork"@[0] == 'f' && "diff"@[0] == 'd' && "help"@[0] == 'h');
    assert("replay"@[0] == 'r' && "--help"@[0] == '-');
}

proof fn one_option_more(
    verb: Verb,
    name: Seq<char>,
    value: Seq<char>,
    rest: Seq<Seq<char>>,
    options: OptionsView,
    next: OptionsView,
)
    requires
        name != "--demo"@,
        with_option(verb, seq![name, value] + rest, options) == Ok::<OptionsView, Seq<char>>(next),
    ensures
        options_in(verb, seq![name, value] + rest, options) == options_in(verb, rest, next),
{
    let all = seq![name, value] + rest;
    assert(all[0] == name);
    assert(all.skip(2) =~= rest);
}

/// Inspecting and debugging take the database and the run that are named.
pub proof fn inspections_carry_what_was_said(path: Seq<char>, run: u64)
    ensures
        command_in(
            seq!["inspect"@] + (seq!["--db"@, path] + seq!["--run"@, decimal(run as nat)]),
        ) == Ok::<CommandView, Seq<char>>(CommandView::Inspect { database: path, run }),
        command_in(
            seq!["debug"@] + (seq!["--db"@, path] + seq!["--run"@, decimal(run as nat)]),
        ) == Ok::<CommandView, Seq<char>>(CommandView::Debug { database: path, run }),
        command_in(
            seq!["replay"@] + (seq!["--db"@, path] + seq!["--run"@, decimal(run as nat)]),
        ) == Ok::<CommandView, Seq<char>>(CommandView::Replay { database: path, run, at: None }),
        command_in(
            seq!["tui"@] + (seq!["--db"@, path] + seq!["--run"@, decimal(run as nat)]),
        ) == Ok::<CommandView, Seq<char>>(
            CommandView::Tui { database: path, run: Some(run), demo: false },
        ),
{
    names_differ();
    verbs_differ();
    let none = no_options();
    let one = OptionsView { database: Some(path), ..none };
    let two = OptionsView { run: Some(run), ..one };
    let last = seq!["--run"@, decimal(run as nat)];
    let all = seq!["--db"@, path] + last;
    let empty = Seq::<Seq<char>>::empty();
    numbers_are_read(run);
    assert(last + empty =~= last);
    assert(all[0] == "--db"@ && all[1] == path);
    base_options(Verb::Inspect, path, run);
    base_options(Verb::Debug, path, run);
    base_options(Verb::Replay, path, run);
    base_options(Verb::Tui, path, run);
    assert((seq!["inspect"@] + all).skip(1) =~= all);
    assert((seq!["debug"@] + all).skip(1) =~= all);
    assert((seq!["replay"@] + all).skip(1) =~= all);
    assert((seq!["tui"@] + all).skip(1) =~= all);
}

proof fn base_options(verb: Verb, path: Seq<char>, run: u64)
    ensures
        options_in(
            verb,
            seq!["--db"@, path] + seq!["--run"@, decimal(run as nat)],
            no_options(),
        ) == Ok::<OptionsView, Seq<char>>(
            OptionsView { database: Some(path), run: Some(run), ..no_options() },
        ),
{
    base_options_and_more(verb, path, run, seq![]);
    assert(seq!["--run"@, decimal(run as nat)] + Seq::<Seq<char>>::empty()
        =~= seq!["--run"@, decimal(run as nat)]);
}

proof fn base_options_and_more(verb: Verb, path: Seq<char>, run: u64, rest: Seq<Seq<char>>)
    ensures
        options_in(
            verb,
            seq!["--db"@, path] + (seq!["--run"@, decimal(run as nat)] + rest),
            no_options(),
        ) == options_in(
            verb,
            rest,
            OptionsView { database: Some(path), run: Some(run), ..no_options() },
        ),
{
    names_differ();
    numbers_are_read(run);
    let none = no_options();
    let one = OptionsView { database: Some(path), ..none };
    let two = OptionsView { run: Some(run), ..one };
    let later = seq!["--run"@, decimal(run as nat)] + rest;
    let all = seq!["--db"@, path] + later;
    assert(all[0] == "--db"@ && all[1] == path);
    assert(later[0] == "--run"@ && later[1] == decimal(run as nat));
    one_option_more(verb, "--db"@, path, later, none, one);
    one_option_more(verb, "--run"@, decimal(run as nat), rest, one, two);
}

/// Replaying and forking take the position, the child and the mode that are
/// named.
pub proof fn forks_carry_what_was_said(
    path: Seq<char>,
    run: u64,
    at: u64,
    child: u64,
    mode: Seq<char>,
)
    requires
        mode_named(mode) is Ok,
    ensures
        command_in(
            seq!["replay"@] + (seq!["--db"@, path] + (seq!["--run"@, decimal(run as nat)] + seq![
                "--at"@,
                decimal(at as nat),
            ])),
        ) == Ok::<CommandView, Seq<char>>(
            CommandView::Replay { database: path, run, at: Some(at) },
        ),
        command_in(
            seq!["fork"@] + (seq!["--db"@, path] + (seq!["--run"@, decimal(run as nat)] + (seq![
                "--at"@,
                decimal(at as nat),
            ] + (seq!["--child"@, decimal(child as nat)] + seq!["--mode"@, mode])))),
        ) == Ok::<CommandView, Seq<char>>(
            CommandView::Fork { database: path, run, at, child, mode: mode_named(mode)->Ok_0 },
        ),
{
    names_differ();
    verbs_differ();
    numbers_are_read(at);
    numbers_are_read(child);
    let empty = Seq::<Seq<char>>::empty();
    let base = OptionsView { database: Some(path), run: Some(run), ..no_options() };
    let with_at = OptionsView { at: Some(at), ..base };
    let with_child = OptionsView { child: Some(child), ..with_at };
    let with_mode = OptionsView { mode: mode_named(mode)->Ok_0, ..with_child };
    let at_group = seq!["--at"@, decimal(at as nat)];
    let mode_group = seq!["--mode"@, mode];
    let child_on = seq!["--child"@, decimal(child as nat)] + mode_group;
    let at_on = at_group + child_on;
    assert(at_group + empty =~= at_group);
    assert(mode_group + empty =~= mode_group);
    assert(at_on[0] == "--at"@ && at_on[1] == decimal(at as nat));
    assert(child_on[0] == "--child"@ && child_on[1] == decimal(child as nat));
    one_option_more(Verb::Replay, "--at"@, decimal(at as nat), empty, base, with_at);
    one_option_more(Verb::Fork, "--at"@, decimal(at as nat), child_on, base, with_at);
    one_option_more(
        Verb::Fork,
        "--child"@,
        decimal(child as nat),
        mode_group,
        with_at,
        with_child,
    );
    one_option_more(Verb::Fork, "--mode"@, mode, empty, with_child, with_mode);
    base_options_and_more(Verb::Replay, path, run, at_group);
    base_options_and_more(Verb::Fork, path, run, at_on);
    let replaying = seq!["--db"@, path] + (seq!["--run"@, decimal(run as nat)] + at_group);
    let forking = seq!["--db"@, path] + (seq!["--run"@, decimal(run as nat)] + at_on);
    assert((seq!["replay"@] + replaying).skip(1) =~= replaying);
    assert((seq!["fork"@] + forking).skip(1) =~= forking);
}

/// The three modes, by the names that an operator uses.
pub proof fn modes_have_names()
    ensures
        mode_named("recorded"@) == Ok::<ReplayMode, Seq<char>>(ReplayMode::Recorded),
        mode_named("reexecute"@) == Ok::<ReplayMode, Seq<char>>(ReplayMode::ReexecuteLive),
        mode_named("live"@) == Ok::<ReplayMode, Seq<char>>(ReplayMode::ForkLive),
        forall|name: Seq<char>|
            name != "recorded"@ && name != "reexecute"@ && name != "live"@ ==> #[trigger]
                mode_named(name) is Err,
{
    reveal_strlit("recorded");
    reveal_strlit("reexecute");
    reveal_strlit("live");
    assert("recorded"@.len() == 8 && "reexecute"@.len() == 9 && "live"@.len() == 4);
}

/// A comparison has the run after `--left` on the left.
pub proof fn comparisons_carry_what_was_said(path: Seq<char>, left: u64, right: u64)
    ensures
        command_in(
            seq!["diff"@] + (seq!["--db"@, path] + (seq!["--left"@, decimal(left as nat)] + seq![
                "--right"@,
                decimal(right as nat),
            ])),
        ) == Ok::<CommandView, Seq<char>>(CommandView::Diff { database: path, left, right }),
{
    names_differ();
    verbs_differ();
    numbers_are_read(left);
    numbers_are_read(right);
    let empty = Seq::<Seq<char>>::empty();
    let none = no_options();
    let one = OptionsView { database: Some(path), ..none };
    let two = OptionsView { left: Some(left), ..one };
    let three = OptionsView { right: Some(right), ..two };
    let last = seq!["--right"@, decimal(right as nat)];
    let later = seq!["--left"@, decimal(left as nat)] + last;
    let all = seq!["--db"@, path] + later;
    assert(last + empty =~= last);
    assert(all[0] == "--db"@ && all[1] == path);
    assert(later[0] == "--left"@ && later[1] == decimal(left as nat));
    one_option_more(Verb::Diff, "--db"@, path, later, none, one);
    one_option_more(Verb::Diff, "--left"@, decimal(left as nat), last, one, two);
    one_option_more(Verb::Diff, "--right"@, decimal(right as nat), empty, two, three);
    assert((seq!["diff"@] + all).skip(1) =~= all);
}

// ---------------------------------------------------------------------------
// The inspector.

/// The prefix of a run up to a position holds exactly its events up to there,
/// in order; the whole run where no position is named. One without events is
/// refused.
pub proof fn prefixes_hold_the_events(events: Seq<StoredEventView>, run: u64, at: Option<u64>)
    ensures
        ({
            let wanted = match at {
                Some(sequence) => events.filter(
                    |stored: StoredEventView| stored.sequence <= sequence,
                ),
                None => events,
            };
            &&& prefix_of(events, run, at) is Ok <==> wanted.len() > 0
            &&& prefix_of(events, run, at) matches Ok(prefix) ==> prefix == wanted
        }),
{
    if let Some(sequence) = at {
        parts_of_a_history_are_whole(events, RunId(0), sequence);
    }
}

/// A page is the latest events before its position, in order, and no more
/// than was asked for.
pub proof fn pages_show_the_latest(events: Seq<StoredEventView>, before: Sequence, limit: nat)
    ensures
        ahead_of(events, before) == events.filter(
            |stored: StoredEventView| stored.sequence < before,
        ),
        last_of(events, limit as int).len() == if events.len() <= limit {
            events.len()
        } else {
            limit
        },
        forall|i: int|
            0 <= i < last_of(events, limit as int).len() ==> #[trigger] last_of(
                events,
                limit as int,
            )[i] == events[events.len() - last_of(events, limit as int).len() + i],
    decreases events.len(),
{
    reveal(Seq::filter);
    if events.len() > 0 {
        pages_show_the_latest(events.drop_last(), before, limit);
    }
}

/// A run stands as its last event says.
pub proof fn runs_stand_as_their_last_event_says(events: Seq<StoredEventView>)
    ensures
        events.len() == 0 <==> standing(events) == "EMPTY"@,
        events.len() > 0 ==> {
            let last = events.last().event.kind;
            &&& last is RunCompleted <==> standing(events) == "COMPLETED"@
            &&& last is RunCancelled <==> standing(events) == "CANCELLED"@
            &&& last is RunFailed <==> standing(events) == "FAILED"@
            &&& !(last is RunCompleted || last is RunCancelled || last is RunFailed)
                <==> standing(events) == "ACTIVE"@
        },
{
    reveal_strlit("EMPTY");
    reveal_strlit("COMPLETED");
    reveal_strlit("CANCELLED");
    reveal_strlit("FAILED");
    reveal_strlit("ACTIVE");
    assert("EMPTY"@.len() == 5 && "FAILED"@.len() == 6 && "ACTIVE"@.len() == 6);
    assert("COMPLETED"@.len() == 9 && "CANCELLED"@.len() == 9);
    assert("FAILED"@[0] == 'F' && "ACTIVE"@[0] == 'A');
    assert("COMPLETED"@[1] == 'O' && "CANCELLED"@[1] == 'A');
}

/// The debugger finds the first event at a position, and none where there is
/// none.
pub proof fn events_are_found_by_position(events: Seq<DebugEvent>, sequence: Sequence)
    ensures
        match event_at(events, sequence) {
            None => forall|i: int|
                0 <= i < events.len() ==> (#[trigger] events[i]).sequence != sequence,
            Some(event) => exists|i: int|
                {
                    &&& 0 <= i < events.len()
                    &&& #[trigger] events[i] == event
                    &&& event.sequence == sequence
                    &&& forall|j: int| 0 <= j < i ==> (#[trigger] events[j]).sequence != sequence
                },
        },
    decreases events.len(),
{
    if events.len() > 0 {
        let rest = events.drop_last();
        let last = events.len() - 1;
        events_are_found_by_position(rest, sequence);
        match event_at(rest, sequence) {
            Some(event) => {
                let i = choose|i: int|
                    {
                        &&& 0 <= i < rest.len()
                        &&& #[trigger] rest[i] == event
                        &&& event.sequence == sequence
                        &&& forall|j: int|
                            0 <= j < i ==> (#[trigger] rest[j]).sequence != sequence
                    };
                assert(events[i] == event);
                assert forall|j: int| 0 <= j < i implies (#[trigger] events[j]).sequence
                    != sequence by {
                    assert(rest[j] == events[j]);
                }
            },
            None => {
                assert forall|j: int| 0 <= j < last implies (#[trigger] events[j]).sequence
                    != sequence by {
                    assert(rest[j] == events[j]);
                }
                if events[last].sequence == sequence {
                    assert(events[last] == events.last());
                }
            },
        }
    }
}

/// A listing has a line for every event, in order. A line tells the position
/// and the detail, of which at most 512 characters are shown.
pub proof fn listings_have_a_line_for_every_event(events: Seq<DebugEvent>, detail: Seq<char>)
    ensures
        debug_lines(events) == concatenated(
            events.map_values(|event: DebugEvent| debug_line(event)),
        ),
        forall|i: int|
            0 <= i < events.len() ==> debug_line(#[trigger] events[i]) == "#"@ + decimal(
                events[i].sequence as nat,
            ) + " "@ + bounded_detail(events[i].detail@) + "\n"@,
        detail.len() <= 512 ==> bounded_detail(detail) == detail,
        detail.len() > 512 ==> bounded_detail(detail).len() == 515 && (forall|i: int|
            0 <= i < 512 ==> #[trigger] bounded_detail(detail)[i] == detail[i]),
    decreases events.len(),
{
    reveal_strlit("...");
    let lines = events.map_values(|event: DebugEvent| debug_line(event));
    if events.len() > 0 {
        listings_have_a_line_for_every_event(events.drop_last(), detail);
        assert(lines.drop_last() =~= events.drop_last().map_values(
            |event: DebugEvent| debug_line(event),
        ));
    } else {
        assert(lines =~= Seq::<Seq<char>>::empty());
    }
}

/// The figures of a run count what its events add up to: the tasks, agents and
/// artifacts of the replayed state, the context's blocks and notices, the
/// claims and their conflicts, the failures and the caches.
#[verifier::spinoff_prover]
pub proof fn figures_count_what_is_there(
    run_id: RunId,
    own: Seq<StoredEventView>,
    context: Result<ContextGraphView, ContextErrorView>,
    tools: nat,
    capabilities: nat,
)
    ensures
        figures_from(run_id, own, context, tools, capabilities) is Ok <==> {
            &&& state_from(own, run_id) is Ok
            &&& context is Ok
            &&& crate::assumptions::replayed(bare(own)) is Ok
            &&& crate::failure_memory::replayed(bare(own)) is Ok
        },
        figures_from(run_id, own, context, tools, capabilities) matches Ok(figures) ==> {
            let state = state_from(own, run_id)->Ok_0;
            let claims = crate::assumptions::replayed(bare(own))->Ok_0;
            &&& figures.tasks == state.tasks.dom().len()
            &&& figures.agents == state.agents.dom().len()
            &&& figures.artifacts == state.artifacts.dom().len()
            &&& figures.context_blocks == context->Ok_0.blocks.dom().len()
            &&& figures.context_invalidations == context->Ok_0.invalidations.len()
            &&& figures.assumptions == claims.assumptions.dom().len()
            &&& figures.conflicts == claims.conflicts.dom().len()
            &&& figures.failure_records == crate::failure_memory::replayed(
                bare(own),
            )->Ok_0.dom().len()
            &&& figures.cache_records == observed_in(bare(own)).dom().len()
            &&& figures.tools == tools
            &&& figures.capabilities == capabilities
            &&& figures.managed_agents.dom() =~= state.agents.dom()
            &&& forall|id: crate::ids::AgentId| #[trigger]
                state.agents.contains_key(id) ==> {
                    &&& figures.managed_agents[id].provider == state.agents[id].model.provider
                    &&& figures.managed_agents[id].model == state.agents[id].model.model
                    &&& figures.managed_agents[id].status == state.agents[id].status
                }
        },
{
}

/// An event tells of a cache exactly what it holds, at its own time; events of
/// other kinds tell nothing.
pub proof fn cache_events_tell_what_they_hold(event: EventView)
    ensures
        event.kind is CacheObserved <==> observation_of(event) is Some,
        event.kind matches EventKindView::CacheObserved {
            provider,
            model,
            prefix_hash,
            estimated_prefix_tokens,
            cached_input_tokens,
        } ==> observation_of(event) == Some(
            CacheObservationView {
                key: CacheKeyView { provider, model, prefix_hash },
                estimated_prefix_tokens,
                observed_cached_tokens: cached_input_tokens,
                observed_at_ms: event.occurred_at_ms,
            },
        ),
{
}

/// A cache is on record exactly where an event told of it.
pub proof fn caches_on_record_were_told_of(events: Seq<EventView>, key: CacheKeyView)
    ensures
        observed_in(events).contains_key(key) <==> exists|i: int|
            0 <= i < events.len() && (observation_of(#[trigger] events[i]) matches Some(seen)
                && seen.key == key),
    decreases events.len(),
{
    if events.len() > 0 {
        let rest = events.drop_last();
        let last = events.len() - 1;
        caches_on_record_were_told_of(rest, key);
        if observed_in(rest).contains_key(key) {
            let i = choose|i: int|
                0 <= i < rest.len() && (observation_of(#[trigger] rest[i]) matches Some(seen)
                    && seen.key == key);
            assert(observation_of(events[i])->0.key == key);
        } else {
            assert forall|i: int| 0 <= i < last implies !(observation_of(
                #[trigger] events[i],
            ) matches Some(seen) && seen.key == key) by {
                assert(rest[i] == events[i]);
            }
            assert(events[last] == events.last());
        }
    }
}

/// An agent that the two runs show differently has its line, with what each
/// run shows of it.
pub proof fn changed_agents_are_listed(
    left: Map<AgentId, AgentFigureView>,
    right: Map<AgentId, AgentFigureView>,
    ids: Seq<AgentId>,
    k: int,
)
    requires
        0 <= k < ids.len(),
        agent_in(left, ids[k]) != agent_in(right, ids[k]),
    ensures
        agent_lines(left, right, ids).contains(
            "  agent "@ + id_text("agent"@, ids[k].0) + ": "@ + or_absent(agent_in(left, ids[k]))
                + " -> "@ + or_absent(agent_in(right, ids[k])),
        ),
        left.contains_key(ids[k]) <==> agent_in(left, ids[k]) is Some,
        agent_in(left, ids[k]) matches Some(text) ==> text == left[ids[k]].provider + "/"@
            + left[ids[k]].model + "/ "@ + left[ids[k]].status.name(),
    decreases ids.len(),
{
    let now = agent_lines(left, right, ids);
    let line = "  agent "@ + id_text("agent"@, ids[k].0) + ": "@ + or_absent(
        agent_in(left, ids[k]),
    ) + " -> "@ + or_absent(agent_in(right, ids[k]));
    if k == ids.len() - 1 {
        assert(now.last() == line);
        assert(now[now.len() - 1] == line);
    } else {
        let rest = ids.drop_last();
        assert(rest[k] == ids[k]);
        changed_agents_are_listed(left, right, rest, k);
        let before = agent_lines(left, right, rest);
        let place = choose|place: int| 0 <= place < before.len() && before[place] == line;
        assert(now[place] == before[place]);
    }
}

// ---------------------------------------------------------------------------
// The terminal.

/// Only operations on files are executed, each by its own tool, on the paths
/// that it names.
pub proof fn requests_name_what_is_asked(operation: TerminalOperationView)
    ensures
        match operation {
            TerminalOperationView::FindFiles { root, pattern, max_results } => request_for(
                operation,
            ) matches Ok(request) && {
                &&& request.tool == TerminalTool::Find
                &&& request.resource == root
                &&& request.input == seq![
                    ("max_results"@, decimal(max_results as nat)),
                    ("pattern"@, pattern),
                    ("root"@, root),
                ]
            },
            TerminalOperationView::MoveFile { from, to } => request_for(operation) matches Ok(
                request,
            ) && request.tool == TerminalTool::Move && request.input == seq![
                ("from"@, from),
                ("to"@, to),
            ] && request.resource == "filesystem"@,
            TerminalOperationView::CopyFile { from, to } => request_for(operation) matches Ok(
                request,
            ) && request.tool == TerminalTool::Copy && request.input == seq![
                ("from"@, from),
                ("to"@, to),
            ] && request.resource == "filesystem"@,
            TerminalOperationView::RemoveFile { path } => request_for(operation) matches Ok(
                request,
            ) && request.tool == TerminalTool::Remove && request.input == seq![("path"@, path)]
                && request.resource == "filesystem"@,
            _ => request_for(operation) is Err,
        },
{
}

/// An execution that fails before it is committed is refused with the reason;
/// one that is committed stays so, and says whether it can be undone.
pub proof fn committed_executions_stay(
    operation: TerminalOperationView,
    action: ExecutionAction,
    facts: TransactionFacts,
    message: Seq<char>,
)
    ensures
        (action == ExecutionAction::ExportUndo || action == ExecutionAction::KeepUndo)
            <==> stopping(action, message) is Ended,
        stopping(action, message) is Refused ==> stopping(action, message)
            == ExecutionStepView::Refused(message),
        stopping(action, message) matches ExecutionStepView::Ended(text) ==> text
            == "persistent undo unavailable: "@ + message,
        following(operation, action, facts) is Ended ==> action == ExecutionAction::Commit
            || action == ExecutionAction::KeepUndo,
        following(operation, ExecutionAction::KeepUndo, facts) == ExecutionStepView::Ended(
            "persistent undo available"@,
        ),
        following(operation, action, facts) == ExecutionStepView::Act(ExecutionAction::ExportUndo)
            <==> action == ExecutionAction::Commit && facts.compensation_available
            && facts.has_output,
        !facts.compensation_available ==> following(operation, ExecutionAction::Commit, facts)
            == ExecutionStepView::Ended("not available"@),
{
}

/// Undoing does what the record says before the record is forgotten, and only
/// where there is one; it is allowed before files are opened.
pub proof fn undoing_forgets_last(action: UndoAction, found: bool)
    ensures
        undo_following(action, found) == UndoStepView::Act(UndoAction::Forget) <==> action
            == UndoAction::Compensate,
        undo_following(action, found) == UndoStepView::Act(UndoAction::Compensate) <==> action
            == UndoAction::OpenFiles,
        undo_following(action, found) == UndoStepView::Act(UndoAction::OpenFiles) <==> action
            == UndoAction::Authorize,
        undo_following(action, found) == UndoStepView::Act(UndoAction::Authorize) <==> action
            == UndoAction::Grant,
        undo_following(action, found) == UndoStepView::Act(UndoAction::Grant) <==> action
            == UndoAction::ReadJournal && found,
        undo_following(action, found) is Undone <==> action == UndoAction::Forget,
        undo_following(action, found) is Refused <==> action == UndoAction::ReadJournal && !found,
{
}

/// The journal keeps the records that were there, in order, and the new one at
/// the end; only where it is full does the oldest go.
pub proof fn journals_keep_their_order(
    records: Seq<FilesystemUndoRecordView>,
    record: FilesystemUndoRecordView,
)
    requires
        records.len() <= MAX_UNDO_ENTRIES,
    ensures
        with_record(records, record).last() == record,
        records.len() < MAX_UNDO_ENTRIES ==> with_record(records, record).drop_last() == records,
        records.len() == MAX_UNDO_ENTRIES ==> with_record(records, record).drop_last()
            == records.skip(1),
{
    let now = with_record(records, record);
    if records.len() < MAX_UNDO_ENTRIES {
        assert(now.drop_last() =~= records);
    } else {
        assert(now.drop_last() =~= records.skip(1));
    }
}

} // verus!
