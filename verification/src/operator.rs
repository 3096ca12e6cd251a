//! The operator's command line.

use vstd::prelude::*;
use vstd::string::StringExecFns;

use crate::codec::outcome;
use crate::event_store::ReplayMode;
use crate::scan::{is_text, number_in, parse_number};
use crate::state::phrase;
use crate::terminal::{debug_of, debug_text};
use crate::text::{joined, texts};

verus! {

pub const HELP: &'static str = "Usage:\n  orynth tui [--db <path>] [--run <run-id>]\n  orynth tui --demo\n  orynth inspect --db <path> --run <run-id>\n  orynth replay --db <path> --run <run-id> [--at <sequence>]\n  orynth fork --db <path> --run <run-id> --at <sequence> --child <run-id> [--mode recorded|reexecute|live]\n  orynth diff --db <path> --left <run-id> --right <run-id>\n  orynth debug --db <path> --run <run-id>\n  orynth help";

#[derive(Clone, Debug, PartialEq, Eq)]
pub enum Command {
    Help,
    Inspect { database: String, run: u64 },
    Replay { database: String, run: u64, at: Option<u64> },
    Fork { database: String, run: u64, at: u64, child: u64, mode: ReplayMode },
    Diff { database: String, left: u64, right: u64 },
    Debug { database: String, run: u64 },
    Tui { database: String, run: Option<u64>, demo: bool },
}

#[allow(inconsistent_fields)]
pub enum CommandView {
    Help,
    Inspect { database: Seq<char>, run: u64 },
    Replay { database: Seq<char>, run: u64, at: Option<u64> },
    Fork { database: Seq<char>, run: u64, at: u64, child: u64, mode: ReplayMode },
    Diff { database: Seq<char>, left: u64, right: u64 },
    Debug { database: Seq<char>, run: u64 },
    Tui { database: Seq<char>, run: Option<u64>, demo: bool },
}

impl View for Command {
    type V = CommandView;

    open spec fn view(&self) -> CommandView {
        match *self {
            Command::Help => CommandView::Help,
            Command::Inspect { database, run } => CommandView::Inspect {
                database: database@,
                run,
            },
            Command::Replay { database, run, at } => CommandView::Replay {
                database: database@,
                run,
                at,
            },
            Command::Fork { database, run, at, child, mode } => CommandView::Fork {
                database: database@,
                run,
                at,
                child,
                mode,
            },
            Command::Diff { database, left, right } => CommandView::Diff {
                database: database@,
                left,
                right,
            },
            Command::Debug { database, run } => CommandView::Debug { database: database@, run },
            Command::Tui { database, run, demo } => CommandView::Tui {
                database: database@,
                run,
                demo,
            },
        }
    }
}

/// The commands that take arguments.
#[derive(Clone, Copy, Debug, PartialEq, Eq, Structural)]
pub enum Verb {
    Inspect,
    Replay,
    Fork,
    Diff,
    Debug,
    Tui,
}

impl Verb {
    pub open spec fn name(self) -> Seq<char> {
        match self {
            Verb::Inspect => "inspect"@,
            Verb::Replay => "replay"@,
            Verb::Fork => "fork"@,
            Verb::Diff => "diff"@,
            Verb::Debug => "debug"@,
            Verb::Tui => "tui"@,
        }
    }

    fn as_str(self) -> (name: &'static str)
        ensures
            name@ == self.name(),
    {
        match self {
            Verb::Inspect => "inspect",
            Verb::Replay => "replay",
            Verb::Fork => "fork",
            Verb::Diff => "diff",
            Verb::Debug => "debug",
            Verb::Tui => "tui",
        }
    }
}

pub open spec fn verb_named(name: Seq<char>) -> Option<Verb> {
    if name == "inspect"@ {
        Some(Verb::Inspect)
    } else if name == "replay"@ {
        Some(Verb::Replay)
    } else if name == "fork"@ {
        Some(Verb::Fork)
    } else if name == "diff"@ {
        Some(Verb::Diff)
    } else if name == "debug"@ {
        Some(Verb::Debug)
    } else if name == "tui"@ {
        Some(Verb::Tui)
    } else {
        None
    }
}

fn find_verb(name: &str) -> (verb: Option<Verb>)
    ensures
        verb == verb_named(name@),
{
    if is_text(name, "inspect") {
        Some(Verb::Inspect)
    } else if is_text(name, "replay") {
        Some(Verb::Replay)
    } else if is_text(name, "fork") {
        Some(Verb::Fork)
    } else if is_text(name, "diff") {
        Some(Verb::Diff)
    } else if is_text(name, "debug") {
        Some(Verb::Debug)
    } else if is_text(name, "tui") {
        Some(Verb::Tui)
    } else {
        None
    }
}

// ---------------------------------------------------------------------------
// Options.

#[derive(Debug)]
struct Options {
    database: Option<String>,
    run: Option<u64>,
    at: Option<u64>,
    child: Option<u64>,
    mode: ReplayMode,
    left: Option<u64>,
    right: Option<u64>,
    demo: bool,
}

/// What has been said of a command.
pub struct OptionsView {
    pub database: Option<Seq<char>>,
    pub run: Option<u64>,
    pub at: Option<u64>,
    pub child: Option<u64>,
    pub mode: ReplayMode,
    pub left: Option<u64>,
    pub right: Option<u64>,
    pub demo: bool,
}

impl View for Options {
    type V = OptionsView;

    closed spec fn view(&self) -> OptionsView {
        OptionsView {
            database: match self.database {
                Some(database) => Some(database@),
                None => None,
            },
            run: self.run,
            at: self.at,
            child: self.child,
            mode: self.mode,
            left: self.left,
            right: self.right,
            demo: self.demo,
        }
    }
}

pub open spec fn no_options() -> OptionsView {
    OptionsView {
        database: None,
        run: None,
        at: None,
        child: None,
        mode: ReplayMode::Recorded,
        left: None,
        right: None,
        demo: false,
    }
}

/// The mode that an operator calls by a name.
pub open spec fn mode_named(value: Seq<char>) -> Result<ReplayMode, Seq<char>> {
    if value == "recorded"@ {
        Ok(ReplayMode::Recorded)
    } else if value == "reexecute"@ {
        Ok(ReplayMode::ReexecuteLive)
    } else if value == "live"@ {
        Ok(ReplayMode::ForkLive)
    } else {
        Err(
            "invalid replay mode "@ + debug_text(value)
                + "; expected recorded, reexecute, or live"@,
        )
    }
}

pub fn parse_replay_mode(value: &str) -> (result: Result<ReplayMode, String>)
    ensures
        match mode_named(value@) {
            Ok(mode) => result == Ok::<ReplayMode, String>(mode),
            Err(refused) => result matches Err(message) && message@ == refused,
        },
{
    if is_text(value, "recorded") {
        Ok(ReplayMode::Recorded)
    } else if is_text(value, "reexecute") {
        Ok(ReplayMode::ReexecuteLive)
    } else if is_text(value, "live") {
        Ok(ReplayMode::ForkLive)
    } else {
        Err(
            phrase(
                "invalid replay mode ",
                debug_of(value).as_str(),
                "; expected recorded, reexecute, or live",
            ),
        )
    }
}

/// The number after an option.
pub open spec fn number_after(
    args: Seq<Seq<char>>,
    missing: Seq<char>,
    invalid: Seq<char>,
) -> Result<u64, Seq<char>> {
    if args.len() < 2 {
        Err(missing)
    } else {
        match number_in(args[1], 10, u64::MAX as nat) {
            Some(number) => Ok(number as u64),
            None => Err(invalid + debug_text(args[1])),
        }
    }
}

fn parse_number_after(args: &Vec<String>, index: usize, missing: &str, invalid: &str) -> (result:
    Result<u64, String>)
    requires
        index < args@.len(),
    ensures
        match number_after(texts(args@).skip(index as int), missing@, invalid@) {
            Ok(number) => result == Ok::<u64, String>(number) && index + 1 < args@.len(),
            Err(refused) => result matches Err(message) && message@ == refused,
        },
{
    let ghost rest = texts(args@).skip(index as int);
    if args.len() - index < 2 {
        return Err(missing.to_owned());
    }
    let value = args[index + 1].as_str();
    assert(rest[1] == value@);
    match parse_number(value, 10, u64::MAX) {
        Some(number) => Ok(number),
        None => Err(joined(invalid, debug_of(value).as_str())),
    }
}

/// What one option adds. `args` begins with it.
pub open spec fn with_option(verb: Verb, args: Seq<Seq<char>>, options: OptionsView) -> Result<
    OptionsView,
    Seq<char>,
> {
    let name = args[0];
    if name == "--db"@ {
        if args.len() < 2 {
            Err("--db requires a path"@)
        } else {
            Ok(OptionsView { database: Some(args[1]), ..options })
        }
    } else if name == "--run"@ {
        match number_after(args, "--run requires a numeric run id"@, "invalid run id "@) {
            Ok(run) => Ok(OptionsView { run: Some(run), ..options }),
            Err(error) => Err(error),
        }
    } else if name == "--at"@ && verb == Verb::Replay {
        match number_after(
            args,
            "--at requires a numeric event sequence"@,
            "invalid event sequence "@,
        ) {
            Ok(at) => Ok(OptionsView { at: Some(at), ..options }),
            Err(error) => Err(error),
        }
    } else if name == "--at"@ && verb == Verb::Fork {
        match number_after(
            args,
            "--at requires a numeric fork sequence"@,
            "invalid fork sequence "@,
        ) {
            Ok(at) => Ok(OptionsView { at: Some(at), ..options }),
            Err(error) => Err(error),
        }
    } else if name == "--child"@ && verb == Verb::Fork {
        match number_after(args, "--child requires a numeric run id"@, "invalid child run id "@) {
            Ok(child) => Ok(OptionsView { child: Some(child), ..options }),
            Err(error) => Err(error),
        }
    } else if name == "--mode"@ && verb == Verb::Fork {
        if args.len() < 2 {
            Err("--mode requires recorded, reexecute, or live"@)
        } else {
            match mode_named(args[1]) {
                Ok(mode) => Ok(OptionsView { mode, ..options }),
                Err(error) => Err(error),
            }
        }
    } else if name == "--left"@ && verb == Verb::Diff {
        match number_after(args, "--left requires a numeric run id"@, "invalid left run id "@) {
            Ok(left) => Ok(OptionsView { left: Some(left), ..options }),
            Err(error) => Err(error),
        }
    } else if name == "--right"@ && verb == Verb::Diff {
        match number_after(args, "--right requires a numeric run id"@, "invalid right run id "@) {
            Ok(right) => Ok(OptionsView { right: Some(right), ..options }),
            Err(error) => Err(error),
        }
    } else if name == "--demo"@ && verb == Verb::Tui {
        Ok(OptionsView { demo: true, ..options })
    } else {
        Err(
            "unknown "@ + verb.name() + " argument "@ + debug_text(name) + "\n\n"@ + HELP@,
        )
    }
}

/// An option that stands alone.
pub open spec fn stands_alone(verb: Verb, name: Seq<char>) -> bool {
    name == "--demo"@ && verb == Verb::Tui
}

/// All the options of a command, up to the first that is refused.
pub open spec fn options_in(verb: Verb, args: Seq<Seq<char>>, options: OptionsView) -> Result<
    OptionsView,
    Seq<char>,
>
    decreases args.len(),
{
    if args.len() == 0 {
        Ok(options)
    } else {
        match with_option(verb, args, options) {
            Err(error) => Err(error),
            Ok(next) => if stands_alone(verb, args[0]) {
                options_in(verb, args.skip(1), next)
            } else {
                options_in(verb, args.skip(2), next)
            },
        }
    }
}

/// A complaint with the usage below it.
pub open spec fn with_help(complaint: Seq<char>) -> Seq<char> {
    complaint + "\n\n"@ + HELP@
}

fn explain(complaint: String) -> (message: String)
    ensures
        message@ == with_help(complaint@),
{
    let mut out = complaint;
    out.append("\n\n");
    out.append(HELP);
    out
}

/// The command that a verb and its options make.
pub open spec fn command_of(verb: Verb, options: OptionsView) -> Result<CommandView, Seq<char>> {
    if verb == Verb::Tui {
        if options.demo && options.run is Some {
            Err("tui --demo cannot be combined with --run"@)
        } else {
            Ok(
                CommandView::Tui {
                    database: match options.database {
                        Some(database) => database,
                        None => ".orynth/runtime.db"@,
                    },
                    run: options.run,
                    demo: options.demo,
                },
            )
        }
    } else if options.database is None {
        Err(with_help(verb.name() + " requires --db"@))
    } else {
        let database = options.database->0;
        match verb {
            Verb::Diff => match (options.left, options.right) {
                (None, _) => Err(with_help("diff requires --left"@)),
                (_, None) => Err(with_help("diff requires --right"@)),
                (Some(left), Some(right)) => Ok(CommandView::Diff { database, left, right }),
            },
            _ => match options.run {
                None => Err(with_help(verb.name() + " requires --run"@)),
                Some(run) => match verb {
                    Verb::Debug => Ok(CommandView::Debug { database, run }),
                    Verb::Inspect => Ok(CommandView::Inspect { database, run }),
                    Verb::Replay => Ok(CommandView::Replay { database, run, at: options.at }),
                    _ => match (options.at, options.child) {
                        (None, _) => Err(with_help("fork requires --at"@)),
                        (_, None) => Err(with_help("fork requires --child"@)),
                        (Some(at), Some(child)) => Ok(
                            CommandView::Fork { database, run, at, child, mode: options.mode },
                        ),
                    },
                },
            },
        }
    }
}

/// The command that a command line asks for.
pub open spec fn command_in(args: Seq<Seq<char>>) -> Result<CommandView, Seq<char>> {
    if args.len() == 0 || args[0] == "help"@ || args[0] == "--help"@ || args[0] == "-h"@ {
        Ok(CommandView::Help)
    } else {
        match verb_named(args[0]) {
            None => Err(with_help("unknown command "@ + debug_text(args[0]))),
            Some(verb) => match options_in(verb, args.skip(1), no_options()) {
                Err(error) => Err(error),
                Ok(options) => command_of(verb, options),
            },
        }
    }
}

/// Takes the option at `index`, and says where the next one is.
fn take_option(verb: Verb, args: &Vec<String>, index: usize, options: &mut Options) -> (result:
    Result<usize, String>)
    requires
        index < args@.len(),
    ensures
        match with_option(verb, texts(args@).skip(index as int), old(options)@) {
            Ok(next) => {
                &&& final(options)@ == next
                &&& result == Ok::<usize, String>(
                    if stands_alone(verb, texts(args@)[index as int]) {
                        (index + 1) as usize
                    } else {
                        (index + 2) as usize
                    },
                )
                &&& result->Ok_0 <= args@.len()
            },
            Err(refused) => result matches Err(message) && message@ == refused,
        },
{
    let ghost rest = texts(args@).skip(index as int);
    let name = args[index].as_str();
    let count: usize = args.len();
    assert(rest[0] == name@ && index < count);
    proof {
        reveal_strlit("--db");
        reveal_strlit("--run");
        reveal_strlit("--at");
        reveal_strlit("--child");
        reveal_strlit("--mode");
        reveal_strlit("--left");
        reveal_strlit("--right");
        reveal_strlit("--demo");
        assert("--demo"@[2] == 'd' && "--demo"@[3] == 'e');
        assert("--mode"@[2] == 'm');
        assert("--left"@[2] == 'l');
    }
    if is_text(name, "--db") {
        if args.len() - index < 2 {
            return Err("--db requires a path".to_owned());
        }
        assert(rest[1] == args@[index + 1]@);
        options.database = Some(args[index + 1].clone());
    } else if is_text(name, "--run") {
        options.run = Some(
            parse_number_after(args, index, "--run requires a numeric run id", "invalid run id ")?,
        );
    } else if is_text(name, "--at") && verb == Verb::Replay {
        options.at = Some(
            parse_number_after(
                args,
                index,
                "--at requires a numeric event sequence",
                "invalid event sequence ",
            )?,
        );
    } else if is_text(name, "--at") && verb == Verb::Fork {
        options.at = Some(
            parse_number_after(
                args,
                index,
                "--at requires a numeric fork sequence",
                "invalid fork sequence ",
            )?,
        );
    } else if is_text(name, "--child") && verb == Verb::Fork {
        options.child = Some(
            parse_number_after(
                args,
                index,
                "--child requires a numeric run id",
                "invalid child run id ",
            )?,
        );
    } else if is_text(name, "--mode") && verb == Verb::Fork {
        if args.len() - index < 2 {
            return Err("--mode requires recorded, reexecute, or live".to_owned());
        }
        assert(rest[1] == args@[index + 1]@);
        options.mode = parse_replay_mode(args[index + 1].as_str())?;
    } else if is_text(name, "--left") && verb == Verb::Diff {
        options.left = Some(
            parse_number_after(
                args,
                index,
                "--left requires a numeric run id",
                "invalid left run id ",
            )?,
        );
    } else if is_text(name, "--right") && verb == Verb::Diff {
        options.right = Some(
            parse_number_after(
                args,
                index,
                "--right requires a numeric run id",
                "invalid right run id ",
            )?,
        );
    } else if is_text(name, "--demo") && verb == Verb::Tui {
        options.demo = true;
        return Ok(index + 1);
    } else {
        let mut message = phrase("unknown ", verb.as_str(), " argument ");
        message.append(debug_of(name).as_str());
        message.append("\n\n");
        message.append(HELP);
        return Err(message);
    }
    Ok(index + 2)
}

fn conclude(verb: Verb, options: Options) -> (result: Result<Command, String>)
    ensures
        outcome(result) == command_of(verb, options@),
{
    if verb == Verb::Tui {
        if options.demo && options.run.is_some() {
            return Err("tui --demo cannot be combined with --run".to_owned());
        }
        let database = match options.database {
            Some(database) => database,
            None => ".orynth/runtime.db".to_owned(),
        };
        return Ok(Command::Tui { database, run: options.run, demo: options.demo });
    }
    let database = match options.database {
        Some(database) => database,
        None => {
            return Err(explain(joined(verb.as_str(), " requires --db")));
        },
    };
    if verb == Verb::Diff {
        let left: u64 = match options.left {
            Some(left) => left,
            None => {
                return Err(explain("diff requires --left".to_owned()));
            },
        };
        let right: u64 = match options.right {
            Some(right) => right,
            None => {
                return Err(explain("diff requires --right".to_owned()));
            },
        };
        return Ok(Command::Diff { database, left, right });
    }
    let run: u64 = match options.run {
        Some(run) => run,
        None => {
            return Err(explain(joined(verb.as_str(), " requires --run")));
        },
    };
    match verb {
        Verb::Debug => Ok(Command::Debug { database, run }),
        Verb::Inspect => Ok(Command::Inspect { database, run }),
        Verb::Replay => Ok(Command::Replay { database, run, at: options.at }),
        _ => {
            let at: u64 = match options.at {
                Some(at) => at,
                None => {
                    return Err(explain("fork requires --at".to_owned()));
                },
            };
            let child: u64 = match options.child {
                Some(child) => child,
                None => {
                    return Err(explain("fork requires --child".to_owned()));
                },
            };
            Ok(Command::Fork { database, run, at, child, mode: options.mode })
        },
    }
}

/// Reads a command line.
pub fn parse_args(args: Vec<String>) -> (result: Result<Command, String>)
    ensures
        outcome(result) == command_in(texts(args@)),
{
    let ghost all = texts(args@);
    if args.len() == 0 {
        return Ok(Command::Help);
    }
    let first = args[0].as_str();
    assert(all[0] == first@);
    if is_text(first, "help") || is_text(first, "--help") || is_text(first, "-h") {
        return Ok(Command::Help);
    }
    let verb = match find_verb(first) {
        Some(verb) => verb,
        None => {
            return Err(explain(joined("unknown command ", debug_of(first).as_str())));
        },
    };
    let mut options = Options {
        database: None,
        run: None,
        at: None,
        child: None,
        mode: ReplayMode::Recorded,
        left: None,
        right: None,
        demo: false,
    };
    let mut index: usize = 1;
    while index < args.len()
        invariant
            1 <= index <= args@.len(),
            all == texts(args@),
            options_in(verb, all.skip(index as int), options@) == options_in(
                verb,
                all.skip(1),
                no_options(),
            ),
            command_in(all) == match options_in(verb, all.skip(1), no_options()) {
                Err(error) => Err(error),
                Ok(options) => command_of(verb, options),
            },
        decreases args.len() - index,
    {
        let ghost rest = all.skip(index as int);
        assert(rest[0] == all[index as int]);
        let next: usize = take_option(verb, &args, index, &mut options)?;
        proof {
            assert(rest.skip(1) =~= all.skip(index + 1));
            if index + 2 <= all.len() {
                assert(rest.skip(2) =~= all.skip(index + 2));
            }
        }
        index = next;
    }
    assert(all.skip(index as int).len() == 0);
    conclude(verb, options)
}

} // verus!
