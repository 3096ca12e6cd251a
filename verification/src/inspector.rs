//! What the operator's inspector selects and reports.

use vstd::prelude::*;
use vstd::string::StringExecFns;

use crate::context_views::last_of;
use crate::event_store::{
    select_up_to, stored_views, up_to, ForkedRun, ReplayMode, StoredEvent, StoredEventView,
};
use crate::ids::{id_text, AgentId, RunId};
use crate::kernel::{EventKind, EventKindView};
use crate::scan::{
    begins_with, is_text, join, joined_with, number_in, parse_number, starts_with_text,
    strip_prefix, trim, trimmed,
};
use crate::state::{AgentStatus, RunStatus, Sequence};
use crate::table::{listing, table_is_listed, Table};
use crate::terminal::{debug_of, debug_text};
use crate::text::{chars_of, decimal, decimal_text, joined, push_decimal, text_of_chars, texts};

verus! {

pub const MAX_TUI_EVENT_WINDOW: usize = 512;

// ---------------------------------------------------------------------------
// Selecting events.

/// The recorded events of a run up to a position, or why there are none.
pub open spec fn prefix_of(events: Seq<StoredEventView>, run: u64, at: Option<u64>) -> Result<
    Seq<StoredEventView>,
    Seq<char>,
> {
    match at {
        Some(sequence) => if up_to(events, sequence).len() == 0 {
            Err(
                "run "@ + decimal(run as nat) + " has no recorded event at or before sequence "@
                    + decimal(sequence as nat),
            )
        } else {
            Ok(up_to(events, sequence))
        },
        None => if events.len() == 0 {
            Err("run "@ + decimal(run as nat) + " is not present"@)
        } else {
            Ok(events)
        },
    }
}

pub fn recorded_prefix(events: Vec<StoredEvent>, run: u64, at: Option<u64>) -> (result: Result<
    Vec<StoredEvent>,
    String,
>)
    ensures
        match prefix_of(stored_views(events@), run, at) {
            Ok(prefix) => result matches Ok(found) && stored_views(found@) == prefix,
            Err(refused) => result matches Err(message) && message@ == refused,
        },
{
    let mut complaint = "run ".to_owned();
    push_decimal(&mut complaint, run as u128);
    match at {
        Some(sequence) => {
            let prefix = select_up_to(&events, sequence);
            assert(stored_views(prefix@).len() == prefix@.len());
            if prefix.len() == 0 {
                complaint.append(" has no recorded event at or before sequence ");
                push_decimal(&mut complaint, sequence as u128);
                return Err(complaint);
            }
            Ok(prefix)
        },
        None => {
            assert(stored_views(events@).len() == events@.len());
            if events.len() == 0 {
                complaint.append(" is not present");
                return Err(complaint);
            }
            Ok(events)
        },
    }
}

/// How a run stands, by its last event.
pub open spec fn standing(events: Seq<StoredEventView>) -> Seq<char> {
    if events.len() == 0 {
        "EMPTY"@
    } else {
        match events.last().event.kind {
            EventKindView::RunCompleted { .. } => "COMPLETED"@,
            EventKindView::RunCancelled { .. } => "CANCELLED"@,
            EventKindView::RunFailed { .. } => "FAILED"@,
            _ => "ACTIVE"@,
        }
    }
}

pub fn run_standing(events: &Vec<StoredEvent>) -> (text: String)
    ensures
        text@ == standing(stored_views(events@)),
{
    if events.len() == 0 {
        return "EMPTY".to_owned();
    }
    let last = &events[events.len() - 1];
    assert(stored_views(events@).last() == last@);
    match &last.event.kind {
        EventKind::RunCompleted { .. } => "COMPLETED".to_owned(),
        EventKind::RunCancelled { .. } => "CANCELLED".to_owned(),
        EventKind::RunFailed { .. } => "FAILED".to_owned(),
        _ => "ACTIVE".to_owned(),
    }
}

/// The events before a position.
pub open spec fn ahead_of(events: Seq<StoredEventView>, before: Sequence) -> Seq<StoredEventView>
    decreases events.len(),
{
    if events.len() == 0 {
        seq![]
    } else if events.last().sequence < before {
        ahead_of(events.drop_last(), before).push(events.last())
    } else {
        ahead_of(events.drop_last(), before)
    }
}

/// The last `limit` events of a list.
fn last_events(events: Vec<StoredEvent>, limit: usize) -> (window: Vec<StoredEvent>)
    ensures
        stored_views(window@) == last_of(stored_views(events@), limit as int),
{
    if events.len() <= limit {
        return events;
    }
    let ghost views = stored_views(events@);
    let from: usize = events.len() - limit;
    let mut window: Vec<StoredEvent> = Vec::new();
    let mut index: usize = from;
    assert(stored_views(window@) =~= views.subrange(from as int, from as int));
    while index < events.len()
        invariant
            from <= index <= events@.len(),
            views == stored_views(events@),
            stored_views(window@) == views.subrange(from as int, index as int),
        decreases events.len() - index,
    {
        let ghost before = window@;
        window.push(events[index].clone());
        index += 1;
        proof {
            assert(stored_views(window@) =~= stored_views(before).push(views[index - 1]));
            assert(stored_views(window@) =~= views.subrange(from as int, index as int));
        }
    }
    assert(views.subrange(from as int, views.len() as int) =~= views.skip(from as int));
    window
}

/// A page of at most `limit` events before a position, the latest ones, in
/// order.
pub fn event_page(events: &Vec<StoredEvent>, before_sequence: Option<u64>, limit: usize) -> (page:
    Vec<StoredEvent>)
    ensures
        stored_views(page@) == last_of(
            ahead_of(
                stored_views(events@),
                match before_sequence {
                    Some(before) => before,
                    None => u64::MAX,
                },
            ),
            limit as int,
        ),
{
    let before: u64 = match before_sequence {
        Some(before) => before,
        None => u64::MAX,
    };
    let ghost views = stored_views(events@);
    let mut selected: Vec<StoredEvent> = Vec::new();
    let mut index: usize = 0;
    proof {
        assert(views.take(0) =~= Seq::<StoredEventView>::empty());
        assert(stored_views(selected@) =~= Seq::<StoredEventView>::empty());
    }
    while index < events.len()
        invariant
            index <= events@.len(),
            views == stored_views(events@),
            stored_views(selected@) == ahead_of(views.take(index as int), before),
        decreases events.len() - index,
    {
        proof {
            let now = views.take(index + 1);
            assert(now.drop_last() =~= views.take(index as int));
            assert(now.last() == events@[index as int]@);
        }
        if events[index].sequence < before {
            let ghost earlier = selected@;
            selected.push(events[index].clone());
            assert(stored_views(selected@) =~= stored_views(earlier).push(
                events@[index as int]@,
            ));
        }
        index += 1;
    }
    assert(views.take(views.len() as int) =~= views);
    last_events(selected, limit)
}

/// At most the window's worth of a history, the latest events.
pub fn bound_tui_history(events: Vec<StoredEvent>) -> (window: Vec<StoredEvent>)
    ensures
        stored_views(window@) == last_of(stored_views(events@), MAX_TUI_EVENT_WINDOW as int),
{
    last_events(events, MAX_TUI_EVENT_WINDOW)
}

// ---------------------------------------------------------------------------
// Forks.

/// Checks the identities of a fork.
pub fn check_fork_ids(run: u64, child: u64) -> (result: Result<(), String>)
    ensures
        match result {
            Ok(_) => run != 0 && child != 0,
            Err(message) => (run == 0 || child == 0) && message@
                == "parent and child run ids must be non-zero"@,
        },
{
    if run == 0 || child == 0 {
        return Err("parent and child run ids must be non-zero".to_owned());
    }
    Ok(())
}

/// A mode as `{:?}` shows it.
pub open spec fn mode_text(mode: ReplayMode) -> Seq<char> {
    match mode {
        ReplayMode::Recorded => "Recorded"@,
        ReplayMode::ReexecuteLive => "ReexecuteLive"@,
        ReplayMode::ForkLive => "ForkLive"@,
    }
}

pub open spec fn fork_text(forked: ForkedRun) -> Seq<char> {
    "Fork materialized\nBranch: "@ + id_text("branch"@, forked.branch_id.0) + "\nParent: "@
        + id_text("run"@, forked.parent_run_id.0) + " at sequence "@ + decimal(
        forked.fork_sequence as nat,
    ) + "\nChild: "@ + id_text("run"@, forked.child_run_id.0) + "\nMode: "@ + mode_text(
        forked.replay_mode,
    ) + "\nCopied events: "@ + decimal(forked.copied_event_count as nat)
}

/// The report of a fork.
pub fn render_fork(forked: &ForkedRun) -> (text: String)
    ensures
        text@ == fork_text(*forked),
{
    let mut out = "Fork materialized\nBranch: ".to_owned();
    out.append(forked.branch_id.to_text().as_str());
    out.append("\nParent: ");
    out.append(forked.parent_run_id.to_text().as_str());
    out.append(" at sequence ");
    push_decimal(&mut out, forked.fork_sequence as u128);
    out.append("\nChild: ");
    out.append(forked.child_run_id.to_text().as_str());
    out.append("\nMode: ");
    match forked.replay_mode {
        ReplayMode::Recorded => out.append("Recorded"),
        ReplayMode::ReexecuteLive => out.append("ReexecuteLive"),
        ReplayMode::ForkLive => out.append("ForkLive"),
    }
    out.append("\nCopied events: ");
    push_decimal(&mut out, forked.copied_event_count as u128);
    out
}

// ---------------------------------------------------------------------------
// Differences between runs.

/// What a comparison reads of an agent.
#[derive(Clone, Debug, PartialEq, Eq)]
pub struct AgentFigure {
    pub provider: String,
    pub model: String,
    pub status: AgentStatus,
}

pub struct AgentFigureView {
    pub provider: Seq<char>,
    pub model: Seq<char>,
    pub status: AgentStatus,
}

impl View for AgentFigure {
    type V = AgentFigureView;

    open spec fn view(&self) -> AgentFigureView {
        AgentFigureView {
            provider: self.provider@,
            model: self.model@,
            status: self.status,
        }
    }
}

/// What a comparison reads of a recovered run.
#[derive(Debug)]
pub struct RunFigures {
    pub run_id: RunId,
    pub status: RunStatus,
    pub events: usize,
    pub tasks: usize,
    pub agents: usize,
    pub artifacts: usize,
    pub context_blocks: usize,
    pub context_invalidations: usize,
    pub assumptions: usize,
    pub conflicts: usize,
    pub tools: usize,
    pub capabilities: usize,
    pub cache_records: usize,
    pub failure_records: usize,
    pub managed_agents: Table<AgentId, AgentFigure>,
}

pub struct RunFiguresView {
    pub run_id: RunId,
    pub status: RunStatus,
    pub events: nat,
    pub tasks: nat,
    pub agents: nat,
    pub artifacts: nat,
    pub context_blocks: nat,
    pub context_invalidations: nat,
    pub assumptions: nat,
    pub conflicts: nat,
    pub tools: nat,
    pub capabilities: nat,
    pub cache_records: nat,
    pub failure_records: nat,
    pub managed_agents: Map<AgentId, AgentFigureView>,
}

impl View for RunFigures {
    type V = RunFiguresView;

    open spec fn view(&self) -> RunFiguresView {
        RunFiguresView {
            run_id: self.run_id,
            status: self.status,
            events: self.events as nat,
            tasks: self.tasks as nat,
            agents: self.agents as nat,
            artifacts: self.artifacts as nat,
            context_blocks: self.context_blocks as nat,
            context_invalidations: self.context_invalidations as nat,
            assumptions: self.assumptions as nat,
            conflicts: self.conflicts as nat,
            tools: self.tools as nat,
            capabilities: self.capabilities as nat,
            cache_records: self.cache_records as nat,
            failure_records: self.failure_records as nat,
            managed_agents: self.managed_agents@,
        }
    }
}

/// The figures by name.
pub open spec fn fields_of(figures: RunFiguresView) -> Seq<(Seq<char>, Seq<char>)> {
    seq![
        ("status"@, figures.status.name()),
        ("events"@, decimal(figures.events)),
        ("tasks"@, decimal(figures.tasks)),
        ("agents"@, decimal(figures.agents)),
        ("artifacts"@, decimal(figures.artifacts)),
        ("context blocks"@, decimal(figures.context_blocks)),
        ("context invalidations"@, decimal(figures.context_invalidations)),
        ("assumptions"@, decimal(figures.assumptions)),
        ("conflicts"@, decimal(figures.conflicts)),
        ("tools"@, decimal(figures.tools)),
        ("capabilities"@, decimal(figures.capabilities)),
        ("cache records"@, decimal(figures.cache_records)),
        ("failure records"@, decimal(figures.failure_records)),
    ]
}

/// A line for each of the first `count` figures that differ.
pub open spec fn field_lines(
    left: Seq<(Seq<char>, Seq<char>)>,
    right: Seq<(Seq<char>, Seq<char>)>,
    count: nat,
) -> Seq<Seq<char>>
    decreases count,
{
    if count == 0 {
        seq![]
    } else {
        let before = field_lines(left, right, (count - 1) as nat);
        let i = count - 1;
        if left[i].1 == right[i].1 {
            before
        } else {
            before.push("  "@ + left[i].0 + ": "@ + left[i].1 + " -> "@ + right[i].1)
        }
    }
}

fn field(name: &str, value: usize) -> (pair: (String, String))
    ensures
        pair.0@ == name@,
        pair.1@ == decimal(value as nat),
{
    (name.to_owned(), decimal_text(value as u128))
}

pub open spec fn pairs_as(pairs: Seq<(String, String)>) -> Seq<(Seq<char>, Seq<char>)> {
    Seq::new(pairs.len(), |i: int| (pairs[i].0@, pairs[i].1@))
}

fn list_fields(figures: &RunFigures) -> (fields: Vec<(String, String)>)
    ensures
        pairs_as(fields@) == fields_of(figures@),
{
    let mut fields: Vec<(String, String)> = Vec::new();
    fields.push(("status".to_owned(), figures.status.to_text()));
    fields.push(field("events", figures.events));
    fields.push(field("tasks", figures.tasks));
    fields.push(field("agents", figures.agents));
    fields.push(field("artifacts", figures.artifacts));
    fields.push(field("context blocks", figures.context_blocks));
    fields.push(field("context invalidations", figures.context_invalidations));
    fields.push(field("assumptions", figures.assumptions));
    fields.push(field("conflicts", figures.conflicts));
    fields.push(field("tools", figures.tools));
    fields.push(field("capabilities", figures.capabilities));
    fields.push(field("cache records", figures.cache_records));
    fields.push(field("failure records", figures.failure_records));
    assert(pairs_as(fields@) =~= fields_of(figures@));
    fields
}

pub open spec fn agent_text(agent: AgentFigureView) -> Seq<char> {
    agent.provider + "/"@ + agent.model + "/ "@ + agent.status.name()
}

/// An agent's text in one run.
pub open spec fn agent_in(agents: Map<AgentId, AgentFigureView>, id: AgentId) -> Option<Seq<char>> {
    if agents.contains_key(id) {
        Some(agent_text(agents[id]))
    } else {
        None
    }
}

pub open spec fn or_absent(text: Option<Seq<char>>) -> Seq<char> {
    match text {
        Some(text) => text,
        None => "<absent>"@,
    }
}

/// The agents of either run.
pub open spec fn either(
    left: Map<AgentId, AgentFigureView>,
    right: Map<AgentId, AgentFigureView>,
) -> Map<AgentId, bool> {
    Map::new(|id: AgentId| left.contains_key(id) || right.contains_key(id), |id: AgentId| true)
}

/// A line for each of the agents that differ.
pub open spec fn agent_lines(
    left: Map<AgentId, AgentFigureView>,
    right: Map<AgentId, AgentFigureView>,
    ids: Seq<AgentId>,
) -> Seq<Seq<char>>
    decreases ids.len(),
{
    if ids.len() == 0 {
        seq![]
    } else {
        let before = agent_lines(left, right, ids.drop_last());
        let id = ids.last();
        if agent_in(left, id) == agent_in(right, id) {
            before
        } else {
            before.push(
                "  agent "@ + id_text("agent"@, id.0) + ": "@ + or_absent(agent_in(left, id))
                    + " -> "@ + or_absent(agent_in(right, id)),
            )
        }
    }
}

/// All the differences of two runs.
pub open spec fn differences(left: RunFiguresView, right: RunFiguresView) -> Seq<Seq<char>> {
    field_lines(fields_of(left), fields_of(right), 13) + agent_lines(
        left.managed_agents,
        right.managed_agents,
        listing::<AgentId, bool>(either(left.managed_agents, right.managed_agents)),
    )
}

pub open spec fn diff_text(left: RunFiguresView, right: RunFiguresView) -> Seq<char> {
    let found = differences(left, right);
    let header = "Recorded projection diff (provider calls: 0)\nLeft: "@ + id_text(
        "run"@,
        left.run_id.0,
    ) + "\nRight: "@ + id_text("run"@, right.run_id.0) + "\n"@;
    if found.len() == 0 {
        header + "No differing recovered projection fields.\n"@
    } else {
        header + "Differences:\n"@ + joined_with(found, "\n"@) + "\n"@
    }
}

fn show_agent(agents: &Table<AgentId, AgentFigure>, id: AgentId) -> (text: Option<String>)
    ensures
        match text {
            Some(text) => agent_in(agents@, id) == Some(text@),
            None => agent_in(agents@, id) is None,
        },
{
    match agents.get(&id) {
        Some(agent) => {
            let mut out = agent.provider.clone();
            out.append("/");
            out.append(agent.model.as_str());
            out.append("/ ");
            out.append(agent.status.to_text().as_str());
            Some(out)
        },
        None => None,
    }
}

fn add_keys(
    agents: &Table<AgentId, AgentFigure>,
    all: &mut Table<AgentId, bool>,
    seen: Ghost<Map<AgentId, bool>>,
)
    requires
        old(all)@ == seen@,
        forall|id: AgentId| #[trigger] seen@.contains_key(id) ==> seen@[id],
    ensures
        final(all)@ == Map::new(
            |id: AgentId| seen@.contains_key(id) || agents@.contains_key(id),
            |id: AgentId| true,
        ),
{
    let count: usize = agents.len();
    let mut index: usize = 0;
    let ghost keys = agents.keys();
    let ghost values = agents.values();
    while index < count
        invariant
            index <= count,
            count == agents.keys().len(),
            keys == agents.keys(),
            values == agents.values(),
            agents.well_formed(),
            forall|id: AgentId| #[trigger] seen@.contains_key(id) ==> seen@[id],
            forall|id: AgentId|
                #![trigger all@.contains_key(id)]
                all@.contains_key(id) == (seen@.contains_key(id) || exists|i: int|
                    0 <= i < index && keys[i] == id),
            forall|id: AgentId| #[trigger] all@.contains_key(id) ==> all@[id],
        decreases count - index,
    {
        let id = *agents.key_at(index);
        all.insert(id, true);
        index += 1;
    }
    proof {
        table_is_listed(keys, values);
        let expected = Map::new(
            |id: AgentId| seen@.contains_key(id) || agents@.contains_key(id),
            |id: AgentId| true,
        );
        assert forall|id: AgentId| all@.contains_key(id) == expected.contains_key(id) by {
            let order = listing::<AgentId, AgentFigureView>(agents@);
            if agents@.contains_key(id) {
                assert(order.contains(id));
                let i = choose|i: int| 0 <= i < order.len() && order[i] == id;
                assert(keys[i] == id);
            }
            if exists|i: int| 0 <= i < count && keys[i] == id {
                let i = choose|i: int| 0 <= i < count && keys[i] == id;
                assert(order[i] == id);
                assert(agents@.contains_key(order[i]));
            }
        }
        assert(all@ =~= expected);
    }
}

fn compare_fields(left: &RunFigures, right: &RunFigures) -> (list: Vec<String>)
    ensures
        texts(list@) == field_lines(fields_of(left@), fields_of(right@), 13),
{
    let left_fields = list_fields(left);
    let right_fields = list_fields(right);
    let ghost left_views = fields_of(left@);
    let ghost right_views = fields_of(right@);
    let mut list: Vec<String> = Vec::new();
    let mut index: usize = 0;
    assert(texts(list@) =~= Seq::<Seq<char>>::empty());
    assert(pairs_as(left_fields@).len() == 13 && pairs_as(right_fields@).len() == 13);
    while index < 13
        invariant
            index <= 13,
            left_fields@.len() == 13,
            right_fields@.len() == 13,
            pairs_as(left_fields@) == left_views,
            pairs_as(right_fields@) == right_views,
            texts(list@) == field_lines(left_views, right_views, index as nat),
        decreases 13 - index,
    {
        let name = left_fields[index].0.as_str();
        let left_value = left_fields[index].1.as_str();
        let right_value = right_fields[index].1.as_str();
        proof {
            assert(left_views[index as int] == pairs_as(left_fields@)[index as int]);
            assert(right_views[index as int] == pairs_as(right_fields@)[index as int]);
        }
        if !is_text(left_value, right_value) {
            let mut line = "  ".to_owned();
            line.append(name);
            line.append(": ");
            line.append(left_value);
            line.append(" -> ");
            line.append(right_value);
            let ghost before = list@;
            list.push(line);
            assert(texts(list@) =~= texts(before).push(line@));
        }
        index += 1;
    }
    list
}

fn same_optional(left: &Option<String>, right: &Option<String>) -> (same: bool)
    ensures
        same == match (*left, *right) {
            (Some(left), Some(right)) => left@ == right@,
            (None, None) => true,
            _ => false,
        },
{
    match (left, right) {
        (Some(left), Some(right)) => is_text(left.as_str(), right.as_str()),
        (None, None) => true,
        _ => false,
    }
}

fn push_or_absent(out: &mut String, text: &Option<String>)
    ensures
        final(out)@ == old(out)@ + or_absent(
            match *text {
                Some(text) => Some(text@),
                None => None,
            },
        ),
{
    match text {
        Some(text) => out.append(text.as_str()),
        None => out.append("<absent>"),
    }
}

fn compare_agents(left: &RunFigures, right: &RunFigures, list: &mut Vec<String>)
    ensures
        texts(final(list)@) == texts(old(list)@) + agent_lines(
            left.managed_agents@,
            right.managed_agents@,
            listing::<AgentId, bool>(either(left.managed_agents@, right.managed_agents@)),
        ),
{
    let mut all: Table<AgentId, bool> = Table::new();
    let ghost left_agents = left.managed_agents@;
    let ghost right_agents = right.managed_agents@;
    add_keys(&left.managed_agents, &mut all, Ghost(Map::empty()));
    let ghost middle = all@;
    add_keys(&right.managed_agents, &mut all, Ghost(middle));
    assert(all@ =~= either(left_agents, right_agents));
    let count: usize = all.len();
    let ghost ids = listing::<AgentId, bool>(all@);
    let ghost base = texts(list@);
    let mut index: usize = 0;
    proof {
        table_is_listed(all.keys(), all.values());
        assert(ids.take(0) =~= Seq::<AgentId>::empty());
        assert(base + agent_lines(left_agents, right_agents, ids.take(0)) =~= base);
    }
    while index < count
        invariant
            index <= count,
            count == all.keys().len(),
            ids.len() == count,
            forall|i: int| 0 <= i < count ==> (#[trigger] all.keys()[i]) == ids[i],
            left_agents == left.managed_agents@,
            right_agents == right.managed_agents@,
            texts(list@) == base + agent_lines(
                left_agents,
                right_agents,
                ids.take(index as int),
            ),
        decreases count - index,
    {
        let id = *all.key_at(index);
        let ghost so_far = agent_lines(left_agents, right_agents, ids.take(index as int));
        proof {
            let now = ids.take(index + 1);
            assert(now.drop_last() =~= ids.take(index as int));
            assert(now.last() == id);
        }
        let left_value = show_agent(&left.managed_agents, id);
        let right_value = show_agent(&right.managed_agents, id);
        if !same_optional(&left_value, &right_value) {
            let mut line = "  agent ".to_owned();
            line.append(id.to_text().as_str());
            line.append(": ");
            push_or_absent(&mut line, &left_value);
            line.append(" -> ");
            push_or_absent(&mut line, &right_value);
            let ghost before = list@;
            list.push(line);
            proof {
                assert(texts(list@) =~= texts(before).push(line@));
                assert(texts(list@) =~= base + so_far.push(line@));
            }
        }
        index += 1;
    }
    assert(ids.take(count as int) =~= ids);
}

/// The report of what differs between two recovered runs.
pub fn render_diff(left: &RunFigures, right: &RunFigures) -> (text: String)
    ensures
        text@ == diff_text(left@, right@),
{
    let mut list = compare_fields(left, right);
    compare_agents(left, right, &mut list);
    let mut out = "Recorded projection diff (provider calls: 0)\nLeft: ".to_owned();
    out.append(left.run_id.to_text().as_str());
    out.append("\nRight: ");
    out.append(right.run_id.to_text().as_str());
    out.append("\n");
    assert(texts(list@).len() == list@.len());
    if list.len() == 0 {
        out.append("No differing recovered projection fields.\n");
    } else {
        out.append("Differences:\n");
        assert(texts(list@).skip(0) =~= texts(list@));
        out.append(join(&list, 0, "\n").as_str());
        out.append("\n");
    }
    out
}

proof fn equal_fields_have_no_lines(fields: Seq<(Seq<char>, Seq<char>)>, count: nat)
    ensures
        field_lines(fields, fields, count).len() == 0,
    decreases count,
{
    if count > 0 {
        equal_fields_have_no_lines(fields, (count - 1) as nat);
    }
}

proof fn equal_agents_have_no_lines(agents: Map<AgentId, AgentFigureView>, ids: Seq<AgentId>)
    ensures
        agent_lines(agents, agents, ids).len() == 0,
    decreases ids.len(),
{
    if ids.len() > 0 {
        equal_agents_have_no_lines(agents, ids.drop_last());
    }
}

/// The line for a figure that differs.
pub open spec fn change_line(
    left: Seq<(Seq<char>, Seq<char>)>,
    right: Seq<(Seq<char>, Seq<char>)>,
    i: int,
) -> Seq<char> {
    "  "@ + left[i].0 + ": "@ + left[i].1 + " -> "@ + right[i].1
}

proof fn changed_fields_have_lines(
    left: Seq<(Seq<char>, Seq<char>)>,
    right: Seq<(Seq<char>, Seq<char>)>,
    count: nat,
    i: int,
)
    requires
        0 <= i < count,
        left[i].1 != right[i].1,
    ensures
        field_lines(left, right, count).contains(change_line(left, right, i)),
    decreases count,
{
    let now = field_lines(left, right, count);
    let before = field_lines(left, right, (count - 1) as nat);
    if i == count - 1 {
        assert(now.last() == change_line(left, right, i));
    } else {
        changed_fields_have_lines(left, right, (count - 1) as nat, i);
        let place = choose|k: int|
            0 <= k < before.len() && before[k] == change_line(left, right, i);
        assert(now[place] == before[place]);
    }
}

/// Every figure that two runs do not share is listed, with both values.
pub proof fn changed_figures_are_listed(left: RunFiguresView, right: RunFiguresView, i: int)
    requires
        0 <= i < fields_of(left).len(),
        fields_of(left)[i].1 != fields_of(right)[i].1,
    ensures
        differences(left, right).contains(change_line(fields_of(left), fields_of(right), i)),
{
    let lines = field_lines(fields_of(left), fields_of(right), 13);
    let line = change_line(fields_of(left), fields_of(right), i);
    changed_fields_have_lines(fields_of(left), fields_of(right), 13, i);
    let place = choose|k: int| 0 <= k < lines.len() && lines[k] == line;
    assert(differences(left, right)[place] == line);
}

/// A run does not differ from itself.
pub proof fn runs_equal_themselves(figures: RunFiguresView)
    ensures
        differences(figures, figures).len() == 0,
{
    equal_fields_have_no_lines(fields_of(figures), 13);
    equal_agents_have_no_lines(
        figures.managed_agents,
        listing::<AgentId, bool>(either(figures.managed_agents, figures.managed_agents)),
    );
}

// ---------------------------------------------------------------------------
// The debugger.

pub const DEBUG_HELP: &'static str = "Commands: show | pane <overview|agents|events|breakpoints> | next | prev | select <index> | events | event <sequence> | breakpoints | help | quit";

#[derive(Clone, Copy, Debug, PartialEq, Eq, Structural)]
pub enum InspectorPane {
    Overview,
    Agents,
    Events,
    Breakpoints,
}

#[derive(Clone, Debug, PartialEq, Eq)]
pub enum DebugCommand {
    Nothing,
    Help,
    Show,
    Next,
    Previous,
    Events,
    Breakpoints,
    Quit,
    Pane(InspectorPane),
    UnknownPane(String),
    Select(u64),
    BadIndex,
    Event(u64),
    BadSequence,
    Unknown(String),
}

pub enum DebugCommandView {
    Nothing,
    Help,
    Show,
    Next,
    Previous,
    Events,
    Breakpoints,
    Quit,
    Pane(InspectorPane),
    UnknownPane(Seq<char>),
    Select(u64),
    BadIndex,
    Event(u64),
    BadSequence,
    Unknown(Seq<char>),
}

impl View for DebugCommand {
    type V = DebugCommandView;

    open spec fn view(&self) -> DebugCommandView {
        match *self {
            DebugCommand::Nothing => DebugCommandView::Nothing,
            DebugCommand::Help => DebugCommandView::Help,
            DebugCommand::Show => DebugCommandView::Show,
            DebugCommand::Next => DebugCommandView::Next,
            DebugCommand::Previous => DebugCommandView::Previous,
            DebugCommand::Events => DebugCommandView::Events,
            DebugCommand::Breakpoints => DebugCommandView::Breakpoints,
            DebugCommand::Quit => DebugCommandView::Quit,
            DebugCommand::Pane(pane) => DebugCommandView::Pane(pane),
            DebugCommand::UnknownPane(name) => DebugCommandView::UnknownPane(name@),
            DebugCommand::Select(index) => DebugCommandView::Select(index),
            DebugCommand::BadIndex => DebugCommandView::BadIndex,
            DebugCommand::Event(sequence) => DebugCommandView::Event(sequence),
            DebugCommand::BadSequence => DebugCommandView::BadSequence,
            DebugCommand::Unknown(text) => DebugCommandView::Unknown(text@),
        }
    }
}

pub open spec fn pane_named(name: Seq<char>) -> Option<InspectorPane> {
    if name == "overview"@ {
        Some(InspectorPane::Overview)
    } else if name == "agents"@ {
        Some(InspectorPane::Agents)
    } else if name == "events"@ {
        Some(InspectorPane::Events)
    } else if name == "breakpoints"@ {
        Some(InspectorPane::Breakpoints)
    } else {
        None
    }
}

pub fn parse_debug_pane(name: &str) -> (pane: Option<InspectorPane>)
    ensures
        pane == pane_named(name@),
{
    if is_text(name, "overview") {
        Some(InspectorPane::Overview)
    } else if is_text(name, "agents") {
        Some(InspectorPane::Agents)
    } else if is_text(name, "events") {
        Some(InspectorPane::Events)
    } else if is_text(name, "breakpoints") {
        Some(InspectorPane::Breakpoints)
    } else {
        None
    }
}

/// The text without `start`, however often it begins with it.
pub open spec fn without_starts(text: Seq<char>, start: Seq<char>) -> Seq<char>
    decreases text.len(),
{
    if start.len() > 0 && begins_with(text, start) {
        without_starts(text.skip(start.len() as int), start)
    } else {
        text
    }
}

fn strip_starts(text: &str, start: &str) -> (rest: String)
    requires
        start@.len() > 0,
    ensures
        rest@ == without_starts(text@, start@),
{
    let mut rest = text.to_owned();
    let mut going = true;
    while going
        invariant
            start@.len() > 0,
            without_starts(rest@, start@) == without_starts(text@, start@),
            !going ==> !begins_with(rest@, start@),
        decreases rest@.len(), going as int,
    {
        match strip_prefix(rest.as_str(), start) {
            Some(shorter) => {
                rest = shorter;
            },
            None => {
                going = false;
            },
        }
    }
    rest
}

/// The command on a line.
pub open spec fn debug_command(line: Seq<char>) -> DebugCommandView {
    let command = trimmed(line);
    if command.len() == 0 {
        DebugCommandView::Nothing
    } else if command == "help"@ {
        DebugCommandView::Help
    } else if command == "show"@ {
        DebugCommandView::Show
    } else if command == "next"@ {
        DebugCommandView::Next
    } else if command == "prev"@ {
        DebugCommandView::Previous
    } else if command == "events"@ {
        DebugCommandView::Events
    } else if command == "breakpoints"@ {
        DebugCommandView::Breakpoints
    } else if command == "quit"@ || command == "exit"@ {
        DebugCommandView::Quit
    } else if begins_with(command, "pane "@) {
        let name = trimmed(without_starts(command, "pane "@));
        match pane_named(name) {
            Some(pane) => DebugCommandView::Pane(pane),
            None => DebugCommandView::UnknownPane(name),
        }
    } else if begins_with(command, "select "@) {
        match number_in(
            trimmed(without_starts(command, "select "@)),
            10,
            usize::MAX as nat,
        ) {
            Some(index) => DebugCommandView::Select(index as u64),
            None => DebugCommandView::BadIndex,
        }
    } else if begins_with(command, "event "@) {
        match number_in(trimmed(without_starts(command, "event "@)), 10, u64::MAX as nat) {
            Some(sequence) => DebugCommandView::Event(sequence as u64),
            None => DebugCommandView::BadSequence,
        }
    } else {
        DebugCommandView::Unknown(command)
    }
}

/// Reads a line of the debugger.
pub fn parse_debug_command(line: &str) -> (command: DebugCommand)
    ensures
        command@ == debug_command(line@),
{
    let command = trim(line);
    proof {
        reveal_strlit("");
        reveal_strlit("pane ");
        reveal_strlit("select ");
        reveal_strlit("event ");
        if command@.len() == 0 {
            assert(command@ =~= ""@);
        }
    }
    let text = command.as_str();
    if is_text(text, "") {
        DebugCommand::Nothing
    } else if is_text(text, "help") {
        DebugCommand::Help
    } else if is_text(text, "show") {
        DebugCommand::Show
    } else if is_text(text, "next") {
        DebugCommand::Next
    } else if is_text(text, "prev") {
        DebugCommand::Previous
    } else if is_text(text, "events") {
        DebugCommand::Events
    } else if is_text(text, "breakpoints") {
        DebugCommand::Breakpoints
    } else if is_text(text, "quit") || is_text(text, "exit") {
        DebugCommand::Quit
    } else if starts_with_text(text, "pane ") {
        let name = trim(strip_starts(text, "pane ").as_str());
        match parse_debug_pane(name.as_str()) {
            Some(pane) => DebugCommand::Pane(pane),
            None => DebugCommand::UnknownPane(name),
        }
    } else if starts_with_text(text, "select ") {
        let value = trim(strip_starts(text, "select ").as_str());
        match parse_number(value.as_str(), 10, usize::MAX as u64) {
            Some(index) => DebugCommand::Select(index),
            None => DebugCommand::BadIndex,
        }
    } else if starts_with_text(text, "event ") {
        let value = trim(strip_starts(text, "event ").as_str());
        match parse_number(value.as_str(), 10, u64::MAX) {
            Some(sequence) => DebugCommand::Event(sequence),
            None => DebugCommand::BadSequence,
        }
    } else {
        DebugCommand::Unknown(command)
    }
}

/// At most 512 characters, with an ellipsis for the rest.
pub open spec fn bounded_detail(detail: Seq<char>) -> Seq<char> {
    if detail.len() > 512 {
        detail.take(512) + "..."@
    } else {
        detail
    }
}

pub fn bounded_debug_detail(detail: &str) -> (bounded: String)
    ensures
        bounded@ == bounded_detail(detail@),
{
    let chars = chars_of(detail);
    if chars.len() > 512 {
        let mut out = text_of_chars(
            vstd::slice::slice_subrange(chars.as_slice(), 0, 512),
        );
        assert(detail@.subrange(0, 512) =~= detail@.take(512));
        out.append("...");
        out
    } else {
        detail.to_owned()
    }
}

/// A recorded event as the debugger shows it.
#[derive(Clone, Debug, PartialEq, Eq)]
pub struct DebugEvent {
    pub sequence: Sequence,
    pub detail: String,
}

pub open spec fn debug_line(event: DebugEvent) -> Seq<char> {
    "#"@ + decimal(event.sequence as nat) + " "@ + bounded_detail(event.detail@) + "\n"@
}

pub open spec fn debug_lines(events: Seq<DebugEvent>) -> Seq<char>
    decreases events.len(),
{
    if events.len() == 0 {
        seq![]
    } else {
        debug_lines(events.drop_last()) + debug_line(events.last())
    }
}

/// The first event at a position.
pub open spec fn event_at(events: Seq<DebugEvent>, sequence: Sequence) -> Option<DebugEvent>
    decreases events.len(),
{
    if events.len() == 0 {
        None
    } else {
        match event_at(events.drop_last(), sequence) {
            Some(event) => Some(event),
            None => if events.last().sequence == sequence {
                Some(events.last())
            } else {
                None
            },
        }
    }
}

/// What the debugger answers by itself. Commands that show a pane are
/// answered by whoever draws panes.
pub open spec fn debug_answer(command: DebugCommandView, events: Seq<DebugEvent>) -> Option<
    Seq<char>,
> {
    match command {
        DebugCommandView::Nothing => Some(seq![]),
        DebugCommandView::Help => Some(DEBUG_HELP@ + "\n"@),
        DebugCommandView::Events => Some(debug_lines(events)),
        DebugCommandView::Quit => Some("Leaving debug session.\n"@),
        DebugCommandView::UnknownPane(name) => Some(
            "unknown pane "@ + debug_text(name) + ". "@ + DEBUG_HELP@ + "\n"@,
        ),
        DebugCommandView::BadIndex => Some("select requires a numeric index.\n"@),
        DebugCommandView::Event(sequence) => match event_at(events, sequence) {
            Some(event) => Some(debug_line(event)),
            None => Some("No event at sequence "@ + decimal(sequence as nat) + ".\n"@),
        },
        DebugCommandView::BadSequence => Some("event requires a numeric sequence.\n"@),
        DebugCommandView::Unknown(text) => Some(
            "Unknown debug command "@ + debug_text(text) + ". "@ + DEBUG_HELP@ + "\n"@,
        ),
        _ => None,
    }
}

fn push_debug_line(out: &mut String, event: &DebugEvent)
    ensures
        final(out)@ == old(out)@ + debug_line(*event),
{
    let mut line = "#".to_owned();
    push_decimal(&mut line, event.sequence as u128);
    line.append(" ");
    line.append(bounded_debug_detail(event.detail.as_str()).as_str());
    line.append("\n");
    out.append(line.as_str());
}

fn render_events(events: &Vec<DebugEvent>) -> (text: String)
    ensures
        text@ == debug_lines(events@),
{
    let mut out = String::new();
    let mut index: usize = 0;
    assert(events@.take(0) =~= Seq::<DebugEvent>::empty());
    assert(out@ =~= Seq::<char>::empty());
    while index < events.len()
        invariant
            index <= events@.len(),
            out@ == debug_lines(events@.take(index as int)),
        decreases events.len() - index,
    {
        proof {
            let now = events@.take(index + 1);
            assert(now.drop_last() =~= events@.take(index as int));
            assert(now.last() == events@[index as int]);
        }
        push_debug_line(&mut out, &events[index]);
        index += 1;
    }
    assert(events@.take(events@.len() as int) =~= events@);
    out
}

proof fn found_event_stays(events: Seq<DebugEvent>, sequence: Sequence, count: int)
    requires
        0 <= count <= events.len(),
        event_at(events.take(count), sequence) is Some,
    ensures
        event_at(events, sequence) == event_at(events.take(count), sequence),
    decreases events.len(),
{
    if count < events.len() {
        assert(events.drop_last().take(count) =~= events.take(count));
        found_event_stays(events.drop_last(), sequence, count);
    } else {
        assert(events.take(count) =~= events);
    }
}

fn find_event(events: &Vec<DebugEvent>, sequence: Sequence) -> (found: Option<usize>)
    ensures
        match found {
            Some(index) => index < events@.len() && event_at(events@, sequence) == Some(
                events@[index as int],
            ),
            None => event_at(events@, sequence) is None,
        },
{
    let mut index: usize = 0;
    assert(events@.take(0) =~= Seq::<DebugEvent>::empty());
    while index < events.len()
        invariant
            index <= events@.len(),
            event_at(events@.take(index as int), sequence) is None,
        decreases events.len() - index,
    {
        proof {
            let now = events@.take(index + 1);
            assert(now.drop_last() =~= events@.take(index as int));
            assert(now.last() == events@[index as int]);
        }
        if events[index].sequence == sequence {
            proof {
                found_event_stays(events@, sequence, index + 1);
            }
            return Some(index);
        }
        index += 1;
    }
    assert(events@.take(events@.len() as int) =~= events@);
    None
}

/// Answers a command of the debugger. Nothing in the run changes.
pub fn answer_debug_command(command: &DebugCommand, events: &Vec<DebugEvent>) -> (answer: Option<
    String,
>)
    ensures
        match answer {
            Some(text) => debug_answer(command@, events@) == Some(text@),
            None => debug_answer(command@, events@) is None,
        },
{
    match command {
        DebugCommand::Nothing => {
            let none = String::new();
            assert(none@ =~= Seq::<char>::empty());
            Some(none)
        },
        DebugCommand::Help => Some(joined(DEBUG_HELP, "\n")),
        DebugCommand::Events => Some(render_events(events)),
        DebugCommand::Quit => Some("Leaving debug session.\n".to_owned()),
        DebugCommand::UnknownPane(name) => {
            let mut out = "unknown pane ".to_owned();
            out.append(debug_of(name.as_str()).as_str());
            out.append(". ");
            out.append(DEBUG_HELP);
            out.append("\n");
            Some(out)
        },
        DebugCommand::BadIndex => Some("select requires a numeric index.\n".to_owned()),
        DebugCommand::Event(sequence) => match find_event(events, *sequence) {
            Some(index) => {
                let mut out = String::new();
                assert(out@ =~= Seq::<char>::empty());
                push_debug_line(&mut out, &events[index]);
                assert(out@ =~= debug_line(events@[index as int]));
                Some(out)
            },
            None => {
                let mut out = "No event at sequence ".to_owned();
                push_decimal(&mut out, *sequence as u128);
                out.append(".\n");
                Some(out)
            },
        },
        DebugCommand::BadSequence => Some("event requires a numeric sequence.\n".to_owned()),
        DebugCommand::Unknown(text) => {
            let mut out = "Unknown debug command ".to_owned();
            out.append(debug_of(text.as_str()).as_str());
            out.append(". ");
            out.append(DEBUG_HELP);
            out.append("\n");
            Some(out)
        },
        _ => None,
    }
}

/// What a debug session begins with.
pub fn debug_banner(run_id: RunId) -> (text: String)
    ensures
        text@ == banner_text(run_id),
{
    let mut out = "Orynth debug session for ".to_owned();
    out.append(run_id.to_text().as_str());
    out.append(" (read-only)\n");
    out.append(DEBUG_HELP);
    out.append("\ndebug> ");
    out
}

/// One line of a session. The drawing is what whoever draws panes answers,
/// where the line asks for a pane.
#[derive(Clone, Debug, PartialEq, Eq)]
pub struct DebugLine {
    pub line: String,
    pub drawn: String,
}

/// A session so far: what was written, and whether it was left.
pub struct DebugCourse {
    pub text: Seq<char>,
    pub left: bool,
}

/// What is answered to a line.
pub open spec fn line_answer(line: Seq<char>, drawn: Seq<char>, events: Seq<DebugEvent>) -> Seq<
    char,
> {
    match debug_answer(debug_command(line), events) {
        Some(answer) => answer,
        None => drawn,
    }
}

/// What is written after a line, and whether the session is left by then.
/// Once it is left, nothing is written.
pub open spec fn reply_to(
    left: bool,
    line: Seq<char>,
    drawn: Seq<char>,
    events: Seq<DebugEvent>,
) -> DebugCourse {
    if left {
        DebugCourse { text: seq![], left: true }
    } else if debug_command(line) is Quit {
        DebugCourse { text: line_answer(line, drawn, events), left: true }
    } else {
        DebugCourse { text: line_answer(line, drawn, events) + "debug> "@, left: false }
    }
}

pub open spec fn banner_text(run_id: RunId) -> Seq<char> {
    "Orynth debug session for "@ + id_text("run"@, run_id.0) + " (read-only)\n"@ + DEBUG_HELP@
        + "\ndebug> "@
}

/// A session over some lines.
pub open spec fn debug_course(
    run_id: RunId,
    lines: Seq<DebugLine>,
    events: Seq<DebugEvent>,
) -> DebugCourse
    decreases lines.len(),
{
    if lines.len() == 0 {
        DebugCourse { text: banner_text(run_id), left: false }
    } else {
        let before = debug_course(run_id, lines.drop_last(), events);
        let reply = reply_to(before.left, lines.last().line@, lines.last().drawn@, events);
        DebugCourse { text: before.text + reply.text, left: reply.left }
    }
}

/// What a session writes after a line, and whether it is left by then.
#[derive(Clone, Debug, PartialEq, Eq)]
pub struct DebugReply {
    pub text: String,
    pub left: bool,
}

/// Takes one line of a session. Nothing in the run changes.
pub fn debug_step(left: bool, line: &str, drawn: &str, events: &Vec<DebugEvent>) -> (reply:
    DebugReply)
    ensures
        reply.text@ == reply_to(left, line@, drawn@, events@).text,
        reply.left == reply_to(left, line@, drawn@, events@).left,
{
    if left {
        let none = String::new();
        assert(none@ =~= Seq::<char>::empty());
        return DebugReply { text: none, left: true };
    }
    let command = parse_debug_command(line);
    let mut text = match answer_debug_command(&command, events) {
        Some(answer) => answer,
        None => drawn.to_owned(),
    };
    if let DebugCommand::Quit = command {
        return DebugReply { text, left: true };
    }
    text.append("debug> ");
    DebugReply { text, left: false }
}

/// Everything that a session writes.
pub fn debug_session(run_id: RunId, lines: &Vec<DebugLine>, events: &Vec<DebugEvent>) -> (text:
    String)
    ensures
        text@ == debug_course(run_id, lines@, events@).text,
{
    let mut text = debug_banner(run_id);
    let mut left = false;
    let mut index: usize = 0;
    assert(lines@.take(0) =~= Seq::<DebugLine>::empty());
    while index < lines.len()
        invariant
            index <= lines@.len(),
            debug_course(run_id, lines@.take(index as int), events@) == (DebugCourse {
                text: text@,
                left,
            }),
        decreases lines.len() - index,
    {
        let line = &lines[index];
        let reply = debug_step(left, line.line.as_str(), line.drawn.as_str(), events);
        proof {
            let now = lines@.take(index + 1);
            assert(now.drop_last() =~= lines@.take(index as int));
            assert(now.last() == line);
        }
        text.append(reply.text.as_str());
        left = reply.left;
        index += 1;
    }
    assert(lines@.take(lines@.len() as int) =~= lines@);
    text
}

/// Once a session is left, later lines change nothing.
pub proof fn lines_after_quit_change_nothing(
    run_id: RunId,
    lines: Seq<DebugLine>,
    more: Seq<DebugLine>,
    events: Seq<DebugEvent>,
)
    requires
        debug_course(run_id, lines, events).left,
    ensures
        debug_course(run_id, lines + more, events) == debug_course(run_id, lines, events),
    decreases more.len(),
{
    if more.len() == 0 {
        assert(lines + more =~= lines);
    } else {
        assert((lines + more).drop_last() =~= lines + more.drop_last());
        lines_after_quit_change_nothing(run_id, lines, more.drop_last(), events);
        let told = debug_course(run_id, lines, events);
        assert(told.text + Seq::<char>::empty() =~= told.text);
    }
}

/// A session begins with its banner. It is left at the first line that asks
/// to quit, and by no other; then it ends with a farewell.
pub proof fn sessions_end_with_quit(
    run_id: RunId,
    lines: Seq<DebugLine>,
    events: Seq<DebugEvent>,
)
    ensures
        ({
            let told = debug_course(run_id, lines, events);
            let banner = banner_text(run_id);
            &&& told.text.len() >= banner.len() && told.text.take(banner.len() as int) == banner
            &&& told.left <==> exists|i: int|
                0 <= i < lines.len() && debug_command((#[trigger] lines[i]).line@) is Quit
            &&& told.left ==> {
                let farewell = "Leaving debug session.\n"@;
                &&& told.text.len() >= farewell.len()
                &&& told.text.skip(told.text.len() - farewell.len()) == farewell
            }
        }),
    decreases lines.len(),
{
    let told = debug_course(run_id, lines, events);
    let banner = banner_text(run_id);
    if lines.len() == 0 {
        assert(told.text.take(banner.len() as int) =~= banner);
    } else {
        sessions_end_with_quit(run_id, lines.drop_last(), events);
        let before = debug_course(run_id, lines.drop_last(), events);
        let last = lines.last();
        assert(told.text.take(banner.len() as int) =~= before.text.take(banner.len() as int));
        if before.left {
            let i = choose|i: int|
                0 <= i < lines.drop_last().len() && debug_command(
                    (#[trigger] lines.drop_last()[i]).line@,
                ) is Quit;
            assert(lines[i] == lines.drop_last()[i]);
            assert(before.text + Seq::<char>::empty() =~= before.text);
        } else {
            assert forall|i: int| 0 <= i < lines.len() - 1 implies !(debug_command(
                (#[trigger] lines[i]).line@,
            ) is Quit) by {
                assert(lines.drop_last()[i] == lines[i]);
            }
            if debug_command(last.line@) is Quit {
                assert(lines[lines.len() - 1] == last);
                let farewell = "Leaving debug session.\n"@;
                assert(told.text.skip(told.text.len() - farewell.len()) =~= farewell);
            }
        }
    }
}

} // verus!
