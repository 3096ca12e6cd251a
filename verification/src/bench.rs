//! What the measuring harness decides: its command line, its workloads and
//! its report. Time and memory are read elsewhere.

use vstd::prelude::*;
use vstd::string::StringExecFns;

use crate::agent::{note, noted, notes_join, Note};
use crate::assumptions;
use crate::context_codec;
use crate::ids::{AgentId, IdSource, RunId, TaskId};
use crate::ipc::{self, IpcEnvelope};
use crate::kernel::{
    event_views, AgentIdentity, AgentIdentityView, Event, EventKind, EventKindView, EventTrace,
    ModelClass, ModelClassView, ModelRef, ModelRefView, Run, Task, Usage,
};
use crate::ranking::{best, keep_best, ranked, ranked_is_sorted, views_of, Ranked};
use crate::scan::{
    begins_with, is_text, join, joined_with, lines, lines_of, number_in, parse_number,
    split_whitespace, starts_with_text, words_of,
};
use crate::terminal::{debug_of, debug_text};
use crate::text::{chars_of, decimal, decimal_text, joined, push_decimal, texts};

verus! {

// ---------------------------------------------------------------------------
// The report.

/// One measured scenario.
#[derive(Clone, Debug, PartialEq, Eq)]
pub struct Measurement {
    pub area: String,
    pub scenario: String,
    pub size: usize,
    pub samples: usize,
    pub median_us: u128,
    pub p95_us: u128,
    pub rss_before_kib: Option<u64>,
    pub rss_after_kib: Option<u64>,
    pub operations: usize,
    pub notes: String,
}

pub open spec fn header_text() -> Seq<char> {
    "area\tscenario\tsize\tsamples\tmedian_us\tp95_us\trss_before_kib\trss_after_kib\toperations\tnotes"@
}

/// A separator becomes a space.
pub open spec fn on_one_line(c: char) -> char {
    if c == '\t' || c == '\n' || c == '\r' {
        ' '
    } else {
        c
    }
}

pub open spec fn flattened(text: Seq<char>) -> Seq<char> {
    Seq::new(text.len(), |i: int| on_one_line(text[i]))
}

pub open spec fn known_number(value: Option<u64>) -> Seq<char> {
    match value {
        Some(value) => decimal(value as nat),
        None => "NA"@,
    }
}

/// The columns of a measurement.
pub open spec fn columns_of(measurement: Measurement) -> Seq<Seq<char>> {
    seq![
        measurement.area@,
        measurement.scenario@,
        decimal(measurement.size as nat),
        decimal(measurement.samples as nat),
        decimal(measurement.median_us as nat),
        decimal(measurement.p95_us as nat),
        known_number(measurement.rss_before_kib),
        known_number(measurement.rss_after_kib),
        decimal(measurement.operations as nat),
        flattened(measurement.notes@),
    ]
}

fn flatten(text: &str) -> (flat: String)
    ensures
        flat@ == flattened(text@),
{
    let chars = chars_of(text);
    let mut flat = String::new();
    let mut index: usize = 0;
    assert(flat@ =~= flattened(text@).take(0));
    while index < chars.len()
        invariant
            index <= chars@.len(),
            chars@ == text@,
            flat@ == flattened(text@).take(index as int),
        decreases chars.len() - index,
    {
        let c: char = chars[index];
        if c == '\t' || c == '\n' || c == '\r' {
            flat.push(' ');
        } else {
            flat.push(c);
        }
        index += 1;
        assert(flat@ =~= flattened(text@).take(index as int));
    }
    assert(flattened(text@).take(text@.len() as int) =~= flattened(text@));
    flat
}

fn known(value: Option<u64>) -> (text: String)
    ensures
        text@ == known_number(value),
{
    match value {
        Some(value) => decimal_text(value as u128),
        None => "NA".to_owned(),
    }
}

impl Measurement {
    pub fn header() -> (text: String)
        ensures
            text@ == header_text(),
    {
        "area\tscenario\tsize\tsamples\tmedian_us\tp95_us\trss_before_kib\trss_after_kib\toperations\tnotes".to_owned()
    }

    /// The columns with tabs between them.
    pub fn line(&self) -> (text: String)
        ensures
            text@ == joined_with(columns_of(*self), "\t"@),
    {
        let mut columns: Vec<String> = Vec::new();
        columns.push(self.area.clone());
        columns.push(self.scenario.clone());
        columns.push(decimal_text(self.size as u128));
        columns.push(decimal_text(self.samples as u128));
        columns.push(decimal_text(self.median_us));
        columns.push(decimal_text(self.p95_us));
        columns.push(known(self.rss_before_kib));
        columns.push(known(self.rss_after_kib));
        columns.push(decimal_text(self.operations as u128));
        columns.push(flatten(self.notes.as_str()));
        assert(texts(columns@).skip(0) =~= columns_of(*self));
        join(&columns, 0, "\t")
    }
}

/// The lines of measurements, each ended.
pub open spec fn report_lines(measurements: Seq<Measurement>) -> Seq<char>
    decreases measurements.len(),
{
    if measurements.len() == 0 {
        seq![]
    } else {
        report_lines(measurements.drop_last()) + joined_with(
            columns_of(measurements.last()),
            "\t"@,
        ) + "\n"@
    }
}

/// The report: a header and a line for each measurement.
pub fn render_report(measurements: &Vec<Measurement>) -> (text: String)
    ensures
        text@ == header_text() + "\n"@ + report_lines(measurements@),
{
    let mut out = Measurement::header();
    out.append("\n");
    let ghost start = out@;
    let mut index: usize = 0;
    assert(measurements@.take(0) =~= Seq::<Measurement>::empty());
    assert(out@ =~= start + report_lines(measurements@.take(0)));
    while index < measurements.len()
        invariant
            index <= measurements@.len(),
            out@ == start + report_lines(measurements@.take(index as int)),
        decreases measurements.len() - index,
    {
        proof {
            let now = measurements@.take(index + 1);
            assert(now.drop_last() =~= measurements@.take(index as int));
            assert(now.last() == measurements@[index as int]);
        }
        out.append(measurements[index].line().as_str());
        out.append("\n");
        index += 1;
        assert(out@ =~= start + report_lines(measurements@.take(index as int)));
    }
    assert(measurements@.take(measurements@.len() as int) =~= measurements@);
    out
}

// ---------------------------------------------------------------------------
// The command line.

/// Where a text stands first in a list, or its length.
pub open spec fn first_at(list: Seq<Seq<char>>, name: Seq<char>) -> int
    decreases list.len(),
{
    if list.len() == 0 || list[0] == name {
        0
    } else {
        1 + first_at(list.skip(1), name)
    }
}

proof fn first_at_is(list: Seq<Seq<char>>, name: Seq<char>, place: int)
    requires
        0 <= place <= list.len(),
        forall|i: int| 0 <= i < place ==> #[trigger] list[i] != name,
        place < list.len() ==> list[place] == name,
    ensures
        first_at(list, name) == place,
    decreases list.len(),
{
    if place > 0 {
        assert(list[0] != name);
        assert forall|i: int| 0 <= i < place - 1 implies #[trigger] list.skip(1)[i] != name by {
            assert(list[i + 1] != name);
        }
        first_at_is(list.skip(1), name, place - 1);
    }
}

/// The value of an option, and the arguments without the two.
pub open spec fn option_taken(args: Seq<Seq<char>>, name: Seq<char>) -> Result<
    (Option<Seq<char>>, Seq<Seq<char>>),
    Seq<char>,
> {
    let place = first_at(args, name);
    if place == args.len() {
        Ok((None, args))
    } else if place + 1 >= args.len() {
        Err(name + " requires a value"@)
    } else {
        Ok((Some(args[place + 1]), args.remove(place + 1).remove(place)))
    }
}

/// Takes an option and its value out of the arguments.
pub fn take_option(args: &mut Vec<String>, name: &str) -> (result: Result<Option<String>, String>)
    ensures
        match option_taken(texts(old(args)@), name@) {
            Ok((value, rest)) => {
                &&& texts(final(args)@) == rest
                &&& match value {
                    Some(value) => result matches Ok(Some(found)) && found@ == value,
                    None => result == Ok::<Option<String>, String>(None),
                }
            },
            Err(refused) => result matches Err(message) && message@ == refused && final(args)@
                == old(args)@,
        },
{
    let ghost all = texts(args@);
    let count: usize = args.len();
    let mut place: usize = 0;
    while place < count && !is_text(args[place].as_str(), name)
        invariant
            place <= count,
            count == args@.len(),
            all == texts(args@),
            forall|i: int| 0 <= i < place ==> #[trigger] all[i] != name@,
        decreases count - place,
    {
        assert(all[place as int] == args@[place as int]@);
        place += 1;
    }
    proof {
        if place < count {
            assert(all[place as int] == args@[place as int]@);
        }
        first_at_is(all, name@, place as int);
    }
    if place == count {
        return Ok(None);
    }
    if place + 1 >= count {
        return Err(joined(name, " requires a value"));
    }
    assert(all[place + 1] == args@[place + 1]@);
    let value = args.remove(place + 1);
    assert(texts(args@) =~= all.remove(place + 1));
    let _ = args.remove(place);
    assert(texts(args@) =~= all.remove(place + 1).remove(place as int));
    Ok(Some(value))
}

/// What the harness is asked to do.
#[derive(Clone, Debug, PartialEq, Eq)]
pub enum BenchCommand {
    All { samples: usize, output: Option<String>, startup_binary: Option<String> },
    Startup { samples: usize, output: Option<String>, binary: Option<String> },
    Memory { agents: usize, hold_ms: u64 },
    FuzzSmoke { iterations: usize },
    Faults,
}

fn parse_size(text: &str, complaint: &str) -> (result: Result<usize, String>)
    ensures
        match number_in(text@, 10, usize::MAX as nat) {
            Some(number) => result matches Ok(value) && value == number,
            None => result matches Err(message) && message@ == complaint@,
        },
{
    match parse_number(text, 10, usize::MAX as u64) {
        Some(number) => Ok(number as usize),
        None => Err(complaint.to_owned()),
    }
}

/// An option's text, or what stands in for it.
pub open spec fn or_text(value: Option<Seq<char>>, other: Seq<char>) -> Seq<char> {
    match value {
        Some(value) => value,
        None => other,
    }
}

pub open spec fn optional_text(value: Option<String>) -> Option<Seq<char>> {
    match value {
        Some(value) => Some(value@),
        None => None,
    }
}

/// A number among the arguments, with a default.
pub open spec fn size_option(
    args: Seq<Seq<char>>,
    name: Seq<char>,
    other: Seq<char>,
    largest: nat,
) -> Result<(nat, Seq<Seq<char>>), Seq<char>> {
    match option_taken(args, name) {
        Err(error) => Err(error),
        Ok((value, rest)) => match number_in(or_text(value, other), 10, largest) {
            None => Err(name + " must be numeric"@),
            Some(number) => Ok((number, rest)),
        },
    }
}

fn take_size(args: &mut Vec<String>, name: &str, other: &str) -> (result: Result<usize, String>)
    ensures
        match size_option(texts(old(args)@), name@, other@, usize::MAX as nat) {
            Ok((number, rest)) => {
                &&& texts(final(args)@) == rest
                &&& result matches Ok(value) && value == number
            },
            Err(refused) => result matches Err(message) && message@ == refused,
        },
{
    let text = match take_option(args, name)? {
        Some(text) => text,
        None => other.to_owned(),
    };
    match parse_number(text.as_str(), 10, usize::MAX as u64) {
        Some(number) => Ok(number as usize),
        None => Err(joined(name, " must be numeric")),
    }
}

fn take_word(args: &mut Vec<String>, name: &str, other: &str) -> (result: Result<u64, String>)
    ensures
        match size_option(texts(old(args)@), name@, other@, u64::MAX as nat) {
            Ok((number, rest)) => {
                &&& texts(final(args)@) == rest
                &&& result matches Ok(value) && value == number
            },
            Err(refused) => result matches Err(message) && message@ == refused,
        },
{
    let text = match take_option(args, name)? {
        Some(text) => text,
        None => other.to_owned(),
    };
    match parse_number(text.as_str(), 10, u64::MAX) {
        Some(number) => Ok(number),
        None => Err(joined(name, " must be numeric")),
    }
}

/// What a command line asks for, and the arguments that are left.
pub struct Asked {
    pub command: BenchCommandView,
    pub rest: Seq<Seq<char>>,
}

pub enum BenchCommandView {
    All { samples: nat, output: Option<Seq<char>>, startup_binary: Option<Seq<char>> },
    Startup { samples: nat, output: Option<Seq<char>>, binary: Option<Seq<char>> },
    Memory { agents: nat, hold_ms: nat },
    FuzzSmoke { iterations: nat },
    Faults,
}

impl View for BenchCommand {
    type V = BenchCommandView;

    open spec fn view(&self) -> BenchCommandView {
        match *self {
            BenchCommand::All { samples, output, startup_binary } => BenchCommandView::All {
                samples: samples as nat,
                output: optional_text(output),
                startup_binary: optional_text(startup_binary),
            },
            BenchCommand::Startup { samples, output, binary } => BenchCommandView::Startup {
                samples: samples as nat,
                output: optional_text(output),
                binary: optional_text(binary),
            },
            BenchCommand::Memory { agents, hold_ms } => BenchCommandView::Memory {
                agents: agents as nat,
                hold_ms: hold_ms as nat,
            },
            BenchCommand::FuzzSmoke { iterations } => BenchCommandView::FuzzSmoke {
                iterations: iterations as nat,
            },
            BenchCommand::Faults => BenchCommandView::Faults,
        }
    }
}

/// The arguments after the name of the command, if one was given.
pub open spec fn named_command(args: Seq<Seq<char>>) -> (Seq<char>, Seq<Seq<char>>) {
    if args.len() > 0 && !begins_with(args[0], "-"@) {
        (args[0], args.remove(0))
    } else {
        ("all"@, args)
    }
}

pub open spec fn memory_asked(args: Seq<Seq<char>>) -> Result<Asked, Seq<char>> {
    match option_taken(args, "--agents"@) {
        Err(error) => Err(error),
        Ok((None, _)) => Err("memory requires --agents"@),
        Ok((Some(agents), rest)) => match number_in(agents, 10, usize::MAX as nat) {
            None => Err("--agents must be numeric"@),
            Some(agents) => match size_option(rest, "--hold-ms"@, "500"@, u64::MAX as nat) {
                Err(error) => Err(error),
                Ok((hold_ms, rest)) => Ok(
                    Asked { command: BenchCommandView::Memory { agents, hold_ms }, rest },
                ),
            },
        },
    }
}

/// What a command line asks for.
pub open spec fn bench_asked(args: Seq<Seq<char>>) -> Result<Asked, Seq<char>> {
    let (name, args) = named_command(args);
    match size_option(args, "--samples"@, "3"@, usize::MAX as nat) {
        Err(error) => Err(error),
        Ok((samples, args)) => match option_taken(args, "--output"@) {
            Err(error) => Err(error),
            Ok((output, args)) => {
                let samples = if samples == 0 {
                    1
                } else {
                    samples
                };
                if name == "all"@ {
                    match option_taken(args, "--startup-bin"@) {
                        Err(error) => Err(error),
                        Ok((startup_binary, rest)) => Ok(
                            Asked {
                                command: BenchCommandView::All { samples, output, startup_binary },
                                rest,
                            },
                        ),
                    }
                } else if name == "startup"@ {
                    match option_taken(args, "--binary"@) {
                        Err(error) => Err(error),
                        Ok((binary, rest)) => Ok(
                            Asked {
                                command: BenchCommandView::Startup { samples, output, binary },
                                rest,
                            },
                        ),
                    }
                } else if name == "memory"@ {
                    memory_asked(args)
                } else if name == "fuzz-smoke"@ {
                    match size_option(args, "--iterations"@, "10000"@, usize::MAX as nat) {
                        Err(error) => Err(error),
                        Ok((iterations, rest)) => Ok(
                            Asked { command: BenchCommandView::FuzzSmoke { iterations }, rest },
                        ),
                    }
                } else if name == "faults"@ {
                    Ok(Asked { command: BenchCommandView::Faults, rest: args })
                } else {
                    Err("unknown benchmark command "@ + debug_text(name))
                }
            },
        },
    }
}

fn parse_memory(args: &mut Vec<String>) -> (result: Result<BenchCommand, String>)
    ensures
        match memory_asked(texts(old(args)@)) {
            Ok(asked) => {
                &&& result matches Ok(command) && command@ == asked.command
                &&& texts(final(args)@) == asked.rest
            },
            Err(refused) => result matches Err(message) && message@ == refused,
        },
{
    let agents: usize = match take_option(args, "--agents")? {
        None => {
            return Err("memory requires --agents".to_owned());
        },
        Some(text) => parse_size(text.as_str(), "--agents must be numeric")?,
    };
    proof {
        reveal_strlit("--hold-ms");
        reveal_strlit(" must be numeric");
    }
    let hold_ms: u64 = take_word(args, "--hold-ms", "500")?;
    Ok(BenchCommand::Memory { agents, hold_ms })
}

/// Reads the harness's command line. The arguments that are left over are
/// handed back.
pub fn parse_bench(args: &mut Vec<String>) -> (result: Result<BenchCommand, String>)
    ensures
        match bench_asked(texts(old(args)@)) {
            Ok(asked) => {
                &&& result matches Ok(command) && command@ == asked.command
                &&& texts(final(args)@) == asked.rest
            },
            Err(refused) => result matches Err(message) && message@ == refused,
        },
{
    let ghost all = texts(args@);
    let name = if args.len() > 0 && !starts_with_text(args[0].as_str(), "-") {
        assert(all[0] == args@[0]@);
        let name = args.remove(0);
        assert(texts(args@) =~= all.remove(0));
        name
    } else {
        proof {
            if args@.len() > 0 {
                assert(all[0] == args@[0]@);
            }
        }
        "all".to_owned()
    };
    let samples: usize = take_size(args, "--samples", "3")?;
    let output = take_option(args, "--output")?;
    let samples: usize = if samples == 0 {
        1
    } else {
        samples
    };
    let command = name.as_str();
    if is_text(command, "all") {
        let startup_binary = take_option(args, "--startup-bin")?;
        Ok(BenchCommand::All { samples, output, startup_binary })
    } else if is_text(command, "startup") {
        let binary = take_option(args, "--binary")?;
        Ok(BenchCommand::Startup { samples, output, binary })
    } else if is_text(command, "memory") {
        parse_memory(args)
    } else if is_text(command, "fuzz-smoke") {
        let iterations: usize = take_size(args, "--iterations", "10000")?;
        Ok(BenchCommand::FuzzSmoke { iterations })
    } else if is_text(command, "faults") {
        Ok(BenchCommand::Faults)
    } else {
        Err(joined("unknown benchmark command ", debug_of(command).as_str()))
    }
}

/// Texts as `{:?}` shows them in a list.
pub open spec fn debug_texts(list: Seq<Seq<char>>) -> Seq<Seq<char>> {
    list.map_values(|text: Seq<char>| debug_text(text))
}

/// The complaint about arguments that are left over.
pub fn leftover_complaint(args: &Vec<String>) -> (text: String)
    ensures
        text@ == "unexpected arguments: ["@ + joined_with(debug_texts(texts(args@)), ", "@)
            + "]"@,
{
    let mut shown: Vec<String> = Vec::new();
    let ghost expected = debug_texts(texts(args@));
    let mut index: usize = 0;
    assert(texts(shown@) =~= expected.take(0));
    while index < args.len()
        invariant
            index <= args@.len(),
            expected == debug_texts(texts(args@)),
            texts(shown@) == expected.take(index as int),
        decreases args.len() - index,
    {
        let ghost before = shown@;
        shown.push(debug_of(args[index].as_str()));
        index += 1;
        proof {
            assert(texts(shown@) =~= texts(before).push(expected[index - 1]));
            assert(texts(shown@) =~= expected.take(index as int));
        }
    }
    assert(texts(shown@).skip(0) =~= expected);
    let mut out = "unexpected arguments: [".to_owned();
    out.append(join(&shown, 0, ", ").as_str());
    out.append("]");
    out
}

// ---------------------------------------------------------------------------
// Durations.

/// A duration, ranked by its length.
#[derive(Clone, Copy, Debug, PartialEq, Eq)]
pub struct Duration(pub u128);

impl View for Duration {
    type V = u128;

    open spec fn view(&self) -> u128 {
        self.0
    }
}

impl Ranked for Duration {
    open spec fn no_later(a: u128, b: u128) -> bool {
        a <= b
    }

    proof fn ranking_laws(a: u128, b: u128, c: u128) {
    }

    fn ranks_no_later(&self, other: &Duration) -> (answer: bool) {
        self.0 <= other.0
    }
}

/// The median and the 95th percentile: of the values in ascending order, the
/// ones half way and nineteen twentieths of the way to the last.
pub fn percentile_pair(values: &Vec<u128>) -> (pair: (u128, u128))
    requires
        values@.len() > 0,
    ensures
        ({
            let sorted = ranked::<Duration>(values@);
            let last = values@.len() - 1;
            &&& sorted.len() == values@.len()
            &&& pair.0 == sorted[last / 2]
            &&& pair.1 == sorted[(last * 95) / 100]
        }),
{
    let mut sorted: Vec<Duration> = Vec::new();
    let count: usize = values.len();
    let mut index: usize = 0;
    proof {
        assert(values@.take(0) =~= Seq::<u128>::empty());
        ranked_is_sorted::<Duration>(Seq::empty());
        assert(views_of(sorted@) =~= best::<Duration>(Seq::empty(), count as int));
    }
    while index < count
        invariant
            index <= count,
            count == values@.len(),
            sorted@.len() <= index,
            views_of(sorted@) == best::<Duration>(values@.take(index as int), count as int),
        decreases count - index,
    {
        keep_best(
            &mut sorted,
            Duration(values[index]),
            count,
            Ghost(values@.take(index as int)),
        );
        proof {
            let now = values@.take(index + 1);
            assert(now =~= values@.take(index as int).push(values@[index as int]));
            ranked_is_sorted::<Duration>(now);
            assert(sorted@.len() == views_of(sorted@).len());
        }
        index += 1;
    }
    proof {
        assert(values@.take(count as int) =~= values@);
        ranked_is_sorted::<Duration>(values@);
        assert(views_of(sorted@) == ranked::<Duration>(values@));
        assert(sorted@.len() == views_of(sorted@).len());
    }
    let last: usize = count - 1;
    let middle: usize = last / 2;
    let late: u128 = (last as u128 * 95) / 100;
    assert(0 <= late <= last) by (nonlinear_arith)
        requires
            late == (last * 95) / 100,
            last >= 0,
    ;
    let pair = (sorted[middle].0, sorted[late as usize].0);
    proof {
        assert(views_of(sorted@)[middle as int] == sorted@[middle as int].0);
        assert(views_of(sorted@)[late as int] == sorted@[late as int].0);
    }
    pair
}

// ---------------------------------------------------------------------------
// Workloads.

pub open spec fn bench_model() -> ModelRefView {
    ModelRefView { provider: "mock"@, model: "benchmark"@, class: ModelClassView::Cheap }
}

/// How many chunks a history of a given size holds.
pub open spec fn chunks_for(size: int) -> int {
    if size <= 6 {
        0
    } else {
        size - 6
    }
}

pub open spec fn bench_opening(
    at_ms: u128,
    run_id: RunId,
    agent: AgentIdentityView,
    task_id: TaskId,
) -> Seq<Note> {
    seq![
        Note { at_ms, kind: EventKindView::RunCreated { run_id } },
        Note {
            at_ms,
            kind: EventKindView::TaskCreated { task_id, run_id, title: "benchmark task"@ },
        },
        Note { at_ms, kind: EventKindView::AgentCreated { agent } },
        Note {
            at_ms,
            kind: EventKindView::ModelRequested { agent_id: agent.id, model: agent.model },
        },
    ]
}

pub open spec fn bench_chunks(at_ms: u128, agent_id: AgentId, count: int) -> Seq<Note> {
    Seq::new(
        count as nat,
        |i: int|
            Note {
                at_ms,
                kind: EventKindView::ModelChunkReceived {
                    agent_id,
                    chunk_index: (i % 4294967296) as u32,
                },
            },
    )
}

pub open spec fn bench_closing(at_ms: u128, run_id: RunId, agent_id: AgentId, count: int) -> Seq<
    Note,
> {
    seq![
        Note {
            at_ms,
            kind: EventKindView::ModelCompleted {
                agent_id,
                usage: Usage {
                    input_tokens: count as u64,
                    output_tokens: count as u64,
                    cached_input_tokens: None,
                },
            },
        },
        Note { at_ms, kind: EventKindView::RunCompleted { run_id } },
    ]
}

/// A whole run of a given size, from creation to completion.
pub fn benchmark_events(ids: &mut IdSource, at_ms: u128, size: usize) -> (events: Vec<Event>)
    requires
        old(ids).can_issue((9 + chunks_for(size as int)) as nat),
    ensures
        ({
            let run_id = RunId(old(ids).upcoming(0));
            let agent = AgentIdentityView {
                id: AgentId(old(ids).upcoming(1)),
                name: "benchmark-agent"@,
                mission: "measure event history"@,
                model: bench_model(),
            };
            let task_id = TaskId(old(ids).upcoming(2));
            let count = chunks_for(size as int);
            let notes = bench_opening(at_ms, run_id, agent, task_id) + bench_chunks(
                at_ms,
                agent.id,
                count,
            ) + bench_closing(at_ms, run_id, agent.id, count);
            &&& event_views(events@) == noted(Seq::empty(), *old(ids), 3, run_id, notes)
            &&& final(ids).issued_from(old(ids), 3 + notes.len())
        }),
{
    let ghost start = *ids;
    let run = Run::new(ids);
    let run_id = run.id;
    let agent = AgentIdentity::new(
        ids,
        "benchmark-agent",
        "measure event history",
        ModelRef::new("mock", "benchmark", ModelClass::Cheap),
    );
    let task = Task::new(ids, run_id, "benchmark task");
    let agent_id = agent.id;
    let ghost agent_view = agent@;
    let ghost opening = bench_opening(at_ms, run_id, agent_view, task.id);
    let ghost base = *ids;
    let mut trace = EventTrace::new();
    note(&mut trace, ids, at_ms, run_id, EventKind::RunCreated { run_id });
    note(
        &mut trace,
        ids,
        at_ms,
        run_id,
        EventKind::TaskCreated { task_id: task.id, run_id, title: task.title.clone() },
    );
    let model = agent.model.clone();
    note(&mut trace, ids, at_ms, run_id, EventKind::AgentCreated { agent });
    note(&mut trace, ids, at_ms, run_id, EventKind::ModelRequested { agent_id, model });
    let chunks: usize = if size <= 6 {
        0
    } else {
        size - 6
    };
    let ghost count = chunks as int;
    let ghost all_chunks = bench_chunks(at_ms, agent_id, count);
    proof {
        assert(trace@ =~= noted(Seq::empty(), start, 3, run_id, opening + all_chunks.take(0)));
    }
    let mut index: usize = 0;
    while index < chunks
        invariant
            index <= chunks,
            count == chunks,
            start.can_issue((9 + chunks) as nat),
            opening.len() == 4,
            all_chunks == bench_chunks(at_ms, agent_id, count),
            ids.issued_from(&start, (7 + index) as nat),
            trace@ == noted(
                Seq::empty(),
                start,
                3,
                run_id,
                opening + all_chunks.take(index as int),
            ),
        decreases chunks - index,
    {
        let ghost before = *ids;
        let chunk_index: u32 = (index as u64 % 4294967296) as u32;
        note(
            &mut trace,
            ids,
            at_ms,
            run_id,
            EventKind::ModelChunkReceived { agent_id, chunk_index },
        );
        proof {
            let made = all_chunks[index as int];
            notes_join(
                Seq::empty(),
                start,
                3,
                before,
                run_id,
                opening + all_chunks.take(index as int),
                seq![made],
            );
            assert((opening + all_chunks.take(index as int)) + seq![made] =~= opening
                + all_chunks.take(index + 1));
        }
        index += 1;
    }
    assert(all_chunks.take(count) =~= all_chunks);
    let ghost before = *ids;
    let usage = Usage::new(chunks as u64, chunks as u64);
    let ghost closing = bench_closing(at_ms, run_id, agent_id, count);
    note(&mut trace, ids, at_ms, run_id, EventKind::ModelCompleted { agent_id, usage });
    let ghost middle = *ids;
    note(&mut trace, ids, at_ms, run_id, EventKind::RunCompleted { run_id });
    proof {
        notes_join(
            Seq::empty(),
            start,
            3,
            before,
            run_id,
            opening + all_chunks,
            seq![closing[0]],
        );
        notes_join(
            Seq::empty(),
            start,
            3,
            middle,
            run_id,
            opening + all_chunks + seq![closing[0]],
            seq![closing[1]],
        );
        assert(opening + all_chunks + seq![closing[0]] + seq![closing[1]] =~= opening + all_chunks
            + closing);
    }
    trace.events
}

/// The bytes that the decoders are fed for a seed.
pub open spec fn smoke_bytes(seed: int) -> Seq<u8> {
    Seq::new(
        (seed % 257 + 1) as nat,
        |i: int|
            if i == 1 {
                (seed / 256 % 256) as u8
            } else if i == 2 {
                255u8
            } else if i == 3 {
                0u8
            } else if i == 4 {
                127u8
            } else {
                (seed % 256) as u8
            },
    )
}

pub fn smoke_input(seed: usize) -> (bytes: Vec<u8>)
    ensures
        bytes@ == smoke_bytes(seed as int),
{
    let length: usize = seed % 257 + 1;
    let low: u8 = (seed % 256) as u8;
    let high: u8 = (seed / 256 % 256) as u8;
    let mut bytes: Vec<u8> = Vec::new();
    let mut index: usize = 0;
    assert(bytes@ =~= smoke_bytes(seed as int).take(0));
    while index < length
        invariant
            index <= length,
            length == seed % 257 + 1,
            low == seed % 256,
            high == seed / 256 % 256,
            bytes@ == smoke_bytes(seed as int).take(index as int),
        decreases length - index,
    {
        let byte: u8 = if index == 1 {
            high
        } else if index == 2 {
            255
        } else if index == 3 {
            0
        } else if index == 4 {
            127
        } else {
            low
        };
        bytes.push(byte);
        index += 1;
        assert(bytes@ =~= smoke_bytes(seed as int).take(index as int));
    }
    assert(smoke_bytes(seed as int).take(length as int) =~= smoke_bytes(seed as int));
    bytes
}

pub open spec fn one_if(refused: bool) -> nat {
    if refused {
        1
    } else {
        0
    }
}

/// How many of the three decoders refuse the bytes.
pub open spec fn refusals_of(bytes: Seq<u8>) -> nat {
    one_if(context_codec::decoded(1, bytes) is Err) + one_if(ipc::decoded(2, bytes) is Err)
        + one_if(assumptions::decoded(2, bytes) is Err)
}

pub open spec fn refusals_below(seeds: nat) -> nat
    decreases seeds,
{
    if seeds == 0 {
        0
    } else {
        refusals_below((seeds - 1) as nat) + refusals_of(smoke_bytes(seeds - 1))
    }
}

/// Feeds every decoder with made-up bytes: how many cases there were, and how
/// many were refused.
pub fn fuzz_smoke(iterations: usize) -> (counts: (usize, usize))
    requires
        iterations * 3 <= usize::MAX,
    ensures
        counts.0 == 3 * iterations,
        counts.1 == refusals_below(iterations as nat),
{
    let mut exercised: usize = 0;
    let mut rejected: usize = 0;
    let mut seed: usize = 0;
    while seed < iterations
        invariant
            seed <= iterations,
            iterations * 3 <= usize::MAX,
            exercised == 3 * seed,
            rejected == refusals_below(seed as nat),
            rejected <= 3 * seed,
        decreases iterations - seed,
    {
        let bytes = smoke_input(seed);
        if context_codec::decode_transition(1, bytes.as_slice()).is_err() {
            rejected += 1;
        }
        if IpcEnvelope::decode(2, bytes.as_slice()).is_err() {
            rejected += 1;
        }
        if assumptions::decode_transition(2, bytes.as_slice()).is_err() {
            rejected += 1;
        }
        exercised += 3;
        seed += 1;
    }
    (exercised, rejected)
}

pub open spec fn fuzz_text(iterations: nat, exercised: nat, rejected: nat) -> Seq<char> {
    "FUZZ_SMOKE\titerations="@ + decimal(iterations) + "\tcases="@ + decimal(exercised)
        + "\trejected="@ + decimal(rejected) + "\tpanics=0"@
}

pub fn render_fuzz(iterations: usize, exercised: usize, rejected: usize) -> (text: String)
    ensures
        text@ == fuzz_text(iterations as nat, exercised as nat, rejected as nat),
{
    let mut out = "FUZZ_SMOKE\titerations=".to_owned();
    push_decimal(&mut out, iterations as u128);
    out.append("\tcases=");
    push_decimal(&mut out, exercised as u128);
    out.append("\trejected=");
    push_decimal(&mut out, rejected as u128);
    out.append("\tpanics=0");
    out
}

/// Where a torn write is cut, for a suffix of a given length.
pub fn fault_cuts(length: usize) -> (cuts: Vec<usize>)
    ensures
        cuts@ == seq![
            0usize,
            1usize,
            (length / 2) as usize,
            if length == 0 {
                0usize
            } else {
                (length - 1) as usize
            },
            length,
        ],
{
    let mut cuts: Vec<usize> = Vec::new();
    cuts.push(0);
    cuts.push(1);
    cuts.push(length / 2);
    cuts.push(
        if length == 0 {
            0
        } else {
            length - 1
        },
    );
    cuts.push(length);
    assert(cuts@ =~= seq![
        0usize,
        1usize,
        (length / 2) as usize,
        if length == 0 {
            0usize
        } else {
            (length - 1) as usize
        },
        length,
    ]);
    cuts
}

/// How many events a log cut there must recover.
pub fn expected_after_cut(cut: usize, length: usize) -> (count: usize)
    ensures
        count == if cut == length {
            2int
        } else {
            1int
        },
{
    if cut == length {
        2
    } else {
        1
    }
}

// ---------------------------------------------------------------------------
// Memory.

/// The first line that begins with a text.
pub open spec fn first_line_with(list: Seq<Seq<char>>, start: Seq<char>) -> Option<Seq<char>>
    decreases list.len(),
{
    if list.len() == 0 {
        None
    } else {
        match first_line_with(list.drop_last(), start) {
            Some(line) => Some(line),
            None => if begins_with(list.last(), start) {
                Some(list.last())
            } else {
                None
            },
        }
    }
}

/// The resident set in a process status text, in kibibytes.
pub open spec fn resident_in(status: Seq<char>) -> Option<nat> {
    match first_line_with(lines_of(status), "VmRSS:"@) {
        None => None,
        Some(line) => if words_of(line).len() < 2 {
            None
        } else {
            number_in(words_of(line)[1], 10, u64::MAX as nat)
        },
    }
}

proof fn found_line_stays(list: Seq<Seq<char>>, start: Seq<char>, count: int)
    requires
        0 <= count <= list.len(),
        first_line_with(list.take(count), start) is Some,
    ensures
        first_line_with(list, start) == first_line_with(list.take(count), start),
    decreases list.len(),
{
    if count < list.len() {
        assert(list.drop_last().take(count) =~= list.take(count));
        found_line_stays(list.drop_last(), start, count);
    } else {
        assert(list.take(count) =~= list);
    }
}

pub fn parse_resident(status: &str) -> (kib: Option<u64>)
    ensures
        match kib {
            Some(kib) => resident_in(status@) == Some(kib as nat),
            None => resident_in(status@) is None,
        },
{
    let list = lines(status);
    let ghost views = texts(list@);
    let mut index: usize = 0;
    assert(views.take(0) =~= Seq::<Seq<char>>::empty());
    while index < list.len()
        invariant
            index <= list@.len(),
            views == texts(list@),
            views == lines_of(status@),
            first_line_with(views.take(index as int), "VmRSS:"@) is None,
        decreases list.len() - index,
    {
        let line = list[index].as_str();
        proof {
            let now = views.take(index + 1);
            assert(now.drop_last() =~= views.take(index as int));
            assert(now.last() == line@);
        }
        if starts_with_text(line, "VmRSS:") {
            proof {
                found_line_stays(views, "VmRSS:"@, index + 1);
            }
            let words = split_whitespace(line);
            if words.len() < 2 {
                assert(texts(words@).len() == words@.len());
                return None;
            }
            assert(texts(words@)[1] == words@[1]@);
            return parse_number(words[1].as_str(), 10, u64::MAX);
        }
        index += 1;
    }
    assert(views.take(views.len() as int) =~= views);
    None
}

pub open spec fn memory_text(
    agents: nat,
    before: Option<u64>,
    after: Option<u64>,
    events: nat,
) -> Seq<char> {
    "MEMORY\tagents="@ + decimal(agents) + "\trss_before_kib="@ + known_number(before)
        + "\trss_after_kib="@ + known_number(after) + "\tevents="@ + decimal(events)
        + "\tcontext_blocks="@ + decimal(agents)
}

pub fn render_memory(agents: usize, before: Option<u64>, after: Option<u64>, events: usize) -> (text:
    String)
    ensures
        text@ == memory_text(agents as nat, before, after, events as nat),
{
    let mut out = "MEMORY\tagents=".to_owned();
    push_decimal(&mut out, agents as u128);
    out.append("\trss_before_kib=");
    out.append(known(before).as_str());
    out.append("\trss_after_kib=");
    out.append(known(after).as_str());
    out.append("\tevents=");
    push_decimal(&mut out, events as u128);
    out.append("\tcontext_blocks=");
    push_decimal(&mut out, agents as u128);
    out
}

} // verus!
