//! The terminal boundary: typed commands in place of shell text.

use vstd::prelude::*;
use vstd::utf8::encode_utf8;

use crate::codec::outcome;
use crate::scan::{
    after_prefix, begins_with, between, is_text, join, joined_with, number_in, parse_number,
    sides_of_text, split_once_text, split_whitespace, starts_with_text, strip_marks, strip_prefix,
    to_ascii_lower, trim, trimmed, words_of,
};
use crate::state::phrase;
use crate::table::Table;
use crate::text::{ascii_lower, blank, is_blank, joined, texts};

verus! {

pub const MAX_TERMINAL_CLI_ARGS: usize = 128;

pub const MAX_TERMINAL_CLI_TEXT_BYTES: usize = 4096;

// ---------------------------------------------------------------------------
// Operations and commands.

#[derive(Clone, Debug, PartialEq, Eq)]
pub enum TerminalOperation {
    FindFiles { root: String, pattern: String, max_results: u16 },
    MoveFile { from: String, to: String },
    CopyFile { from: String, to: String },
    RemoveFile { path: String },
    ListProcesses,
    GitOperation { action: String, args: Vec<String> },
    RawShellCommand { command: String },
}

pub enum TerminalOperationView {
    FindFiles { root: Seq<char>, pattern: Seq<char>, max_results: u16 },
    MoveFile { from: Seq<char>, to: Seq<char> },
    CopyFile { from: Seq<char>, to: Seq<char> },
    RemoveFile { path: Seq<char> },
    ListProcesses,
    GitOperation { action: Seq<char>, args: Seq<Seq<char>> },
    RawShellCommand { command: Seq<char> },
}

impl View for TerminalOperation {
    type V = TerminalOperationView;

    open spec fn view(&self) -> TerminalOperationView {
        match *self {
            TerminalOperation::FindFiles { root, pattern, max_results } =>
                TerminalOperationView::FindFiles { root: root@, pattern: pattern@, max_results },
            TerminalOperation::MoveFile { from, to } => TerminalOperationView::MoveFile {
                from: from@,
                to: to@,
            },
            TerminalOperation::CopyFile { from, to } => TerminalOperationView::CopyFile {
                from: from@,
                to: to@,
            },
            TerminalOperation::RemoveFile { path } => TerminalOperationView::RemoveFile {
                path: path@,
            },
            TerminalOperation::ListProcesses => TerminalOperationView::ListProcesses,
            TerminalOperation::GitOperation { action, args } =>
                TerminalOperationView::GitOperation { action: action@, args: texts(args@) },
            TerminalOperation::RawShellCommand { command } =>
                TerminalOperationView::RawShellCommand { command: command@ },
        }
    }
}

#[derive(Clone, Debug, PartialEq, Eq)]
pub enum TerminalCliCommand {
    Help,
    Plan(TerminalOperation),
    Translate(TerminalOperation),
    Undo,
    Execute { operation: TerminalOperation, confirmed: bool },
}

#[allow(inconsistent_fields)]
pub enum TerminalCliCommandView {
    Help,
    Plan(TerminalOperationView),
    Translate(TerminalOperationView),
    Undo,
    Execute { operation: TerminalOperationView, confirmed: bool },
}

impl View for TerminalCliCommand {
    type V = TerminalCliCommandView;

    open spec fn view(&self) -> TerminalCliCommandView {
        match *self {
            TerminalCliCommand::Help => TerminalCliCommandView::Help,
            TerminalCliCommand::Plan(operation) => TerminalCliCommandView::Plan(operation@),
            TerminalCliCommand::Translate(operation) => TerminalCliCommandView::Translate(
                operation@,
            ),
            TerminalCliCommand::Undo => TerminalCliCommandView::Undo,
            TerminalCliCommand::Execute { operation, confirmed } =>
                TerminalCliCommandView::Execute { operation: operation@, confirmed },
        }
    }
}

/// Why a command was refused.
#[derive(Clone, Debug, PartialEq, Eq)]
pub struct TerminalCliError(pub String);

impl View for TerminalCliError {
    type V = Seq<char>;

    open spec fn view(&self) -> Seq<char> {
        self.0@
    }
}

impl TerminalCliError {
    pub fn to_text(&self) -> (text: String)
        ensures
            text@ == self@,
    {
        self.0.clone()
    }
}

fn refuse<T>(message: &str) -> (result: Result<T, TerminalCliError>)
    ensures
        result matches Err(error) && error@ == message@,
{
    Err(TerminalCliError(message.to_owned()))
}

// ---------------------------------------------------------------------------
// Flags.

/// The flags `--name value` of a command, each at most once.
pub open spec fn flags_from(
    args: Seq<Seq<char>>,
    allowed: Seq<Seq<char>>,
    flags: Map<Seq<char>, Seq<char>>,
) -> Result<Map<Seq<char>, Seq<char>>, Seq<char>>
    decreases args.len(),
{
    if args.len() == 0 {
        Ok(flags)
    } else {
        match after_prefix(args[0], "--"@) {
            None => Err("terminal flags must use --name value"@),
            Some(flag) => if flag.len() == 0 {
                Err("terminal flags must use --name value"@)
            } else if !allowed.contains(flag) {
                Err("unknown terminal flag --"@ + flag)
            } else if args.len() < 2 || begins_with(args[1], "--"@) {
                Err("terminal flag --"@ + flag + " requires a value"@)
            } else if flags.contains_key(flag) {
                Err("terminal flag --"@ + flag + " was repeated"@)
            } else {
                flags_from(args.skip(2), allowed, flags.insert(flag, args[1]))
            },
        }
    }
}

fn is_allowed(flag: &str, allowed: &[&str]) -> (answer: bool)
    ensures
        answer == names_of(allowed@).contains(flag@),
{
    let mut index: usize = 0;
    while index < allowed.len()
        invariant
            index <= allowed@.len(),
            forall|i: int| 0 <= i < index ==> #[trigger] names_of(allowed@)[i] != flag@,
        decreases allowed.len() - index,
    {
        assert(names_of(allowed@)[index as int] == allowed@[index as int]@);
        if is_text(flag, allowed[index]) {
            return true;
        }
        index += 1;
    }
    false
}

pub open spec fn names_of(names: Seq<&str>) -> Seq<Seq<char>> {
    Seq::new(names.len(), |i: int| names[i]@)
}

fn parse_flags(args: &Vec<String>, allowed: &[&str]) -> (result: Result<
    Table<String, String>,
    TerminalCliError,
>)
    ensures
        outcome(result) == flags_from(texts(args@), names_of(allowed@), Map::empty()),
{
    let mut flags: Table<String, String> = Table::new();
    let ghost all = texts(args@);
    let ghost names = names_of(allowed@);
    let count: usize = args.len();
    let mut index: usize = 0;
    assert(all.skip(0) =~= all);
    while index < count
        invariant
            index <= count,
            count == args@.len(),
            all == texts(args@),
            names == names_of(allowed@),
            flags_from(all.skip(index as int), names, flags@) == flags_from(
                all,
                names,
                Map::empty(),
            ),
        decreases count - index,
    {
        let ghost rest = all.skip(index as int);
        assert(rest[0] == args@[index as int]@);
        let flag = match strip_prefix(args[index].as_str(), "--") {
            Some(flag) => flag,
            None => {
                return refuse("terminal flags must use --name value");
            },
        };
        if is_text(flag.as_str(), "") {
            proof {
                reveal_strlit("");
            }
            return refuse("terminal flags must use --name value");
        }
        proof {
            reveal_strlit("");
            if flag@.len() == 0 {
                assert(flag@ =~= ""@);
            }
        }
        if !is_allowed(flag.as_str(), allowed) {
            return Err(TerminalCliError(joined("unknown terminal flag --", flag.as_str())));
        }
        if count - index < 2 {
            return Err(
                TerminalCliError(phrase("terminal flag --", flag.as_str(), " requires a value")),
            );
        }
        let value = &args[index + 1];
        assert(rest[1] == value@);
        if starts_with_text(value.as_str(), "--") {
            return Err(
                TerminalCliError(phrase("terminal flag --", flag.as_str(), " requires a value")),
            );
        }
        if flags.contains_key(&flag) {
            return Err(
                TerminalCliError(phrase("terminal flag --", flag.as_str(), " was repeated")),
            );
        }
        flags.insert(flag, value.clone());
        assert(rest.skip(2) =~= all.skip(index + 2));
        index += 2;
    }
    assert(all.skip(index as int).len() == 0);
    Ok(flags)
}

pub open spec fn required(flags: Map<Seq<char>, Seq<char>>, name: Seq<char>) -> Result<
    Seq<char>,
    Seq<char>,
> {
    if flags.contains_key(name) {
        Ok(flags[name])
    } else {
        Err("terminal plan requires --"@ + name)
    }
}

fn required_flag(flags: &Table<String, String>, name: &str) -> (result: Result<
    String,
    TerminalCliError,
>)
    ensures
        outcome(result) == required(flags@, name@),
{
    match flags.get(&name.to_owned()) {
        Some(value) => Ok(value.clone()),
        None => Err(TerminalCliError(joined("terminal plan requires --", name))),
    }
}

pub open spec fn limit_in(value: Seq<char>) -> Result<u16, Seq<char>> {
    match number_in(value, 10, u16::MAX as nat) {
        None => Err("find --limit must be an unsigned 16-bit integer"@),
        Some(limit) => if limit == 0 {
            Err("find --limit must be greater than zero"@)
        } else {
            Ok(limit as u16)
        },
    }
}

fn parse_limit(value: String) -> (result: Result<u16, TerminalCliError>)
    ensures
        match limit_in(value@) {
            Ok(limit) => result == Ok::<u16, TerminalCliError>(limit),
            Err(refused) => result matches Err(error) && error@ == refused,
        },
{
    match parse_number(value.as_str(), 10, 65535) {
        None => refuse("find --limit must be an unsigned 16-bit integer"),
        Some(limit) => {
            if limit == 0 {
                return refuse("find --limit must be greater than zero");
            }
            Ok(limit as u16)
        },
    }
}

// ---------------------------------------------------------------------------
// Explicit operations.

/// Text as `{:?}` shows it.
pub uninterp spec fn debug_text(text: Seq<char>) -> Seq<char>;

/// `format!("{text:?}")` depends on the text alone.
#[verifier::external_body]
pub(crate) fn debug_of(text: &str) -> (shown: String)
    ensures
        shown@ == debug_text(text@),
{
    format!("{text:?}")
}

pub open spec fn two_paths(args: Seq<Seq<char>>) -> Result<(Seq<char>, Seq<char>), Seq<char>> {
    match flags_from(args, seq!["from"@, "to"@], Map::empty()) {
        Err(error) => Err(error),
        Ok(flags) => match required(flags, "from"@) {
            Err(error) => Err(error),
            Ok(from) => match required(flags, "to"@) {
                Err(error) => Err(error),
                Ok(to) => Ok((from, to)),
            },
        },
    }
}

pub open spec fn find_operation(args: Seq<Seq<char>>) -> Result<
    TerminalOperationView,
    Seq<char>,
> {
    match flags_from(args, seq!["root"@, "pattern"@, "limit"@], Map::empty()) {
        Err(error) => Err(error),
        Ok(flags) => match required(flags, "root"@) {
            Err(error) => Err(error),
            Ok(root) => match required(flags, "pattern"@) {
                Err(error) => Err(error),
                Ok(pattern) => match required(flags, "limit"@) {
                    Err(error) => Err(error),
                    Ok(limit) => match limit_in(limit) {
                        Err(error) => Err(error),
                        Ok(max_results) => Ok(
                            TerminalOperationView::FindFiles { root, pattern, max_results },
                        ),
                    },
                },
            },
        },
    }
}

/// The operation that a name and its arguments spell.
pub open spec fn operation_for(name: Seq<char>, args: Seq<Seq<char>>) -> Result<
    TerminalOperationView,
    Seq<char>,
> {
    if name == "find"@ {
        find_operation(args)
    } else if name == "move"@ {
        match two_paths(args) {
            Ok((from, to)) => Ok(TerminalOperationView::MoveFile { from, to }),
            Err(error) => Err(error),
        }
    } else if name == "copy"@ {
        match two_paths(args) {
            Ok((from, to)) => Ok(TerminalOperationView::CopyFile { from, to }),
            Err(error) => Err(error),
        }
    } else if name == "remove"@ {
        match flags_from(args, seq!["path"@], Map::empty()) {
            Err(error) => Err(error),
            Ok(flags) => match required(flags, "path"@) {
                Ok(path) => Ok(TerminalOperationView::RemoveFile { path }),
                Err(error) => Err(error),
            },
        }
    } else if name == "list-processes"@ {
        if args.len() > 0 {
            Err("list-processes does not accept arguments"@)
        } else {
            Ok(TerminalOperationView::ListProcesses)
        }
    } else if name == "git"@ {
        if args.len() == 0 {
            Err("git requires an action"@)
        } else {
            Ok(TerminalOperationView::GitOperation { action: args[0], args: args.skip(1) })
        }
    } else if name == "shell"@ {
        if args.len() == 0 {
            Err("shell requires a command"@)
        } else {
            Ok(TerminalOperationView::RawShellCommand { command: joined_with(args, " "@) })
        }
    } else {
        Err("unknown terminal operation "@ + debug_text(name))
    }
}

fn parse_two_paths(args: &Vec<String>) -> (result: Result<(String, String), TerminalCliError>)
    ensures
        match two_paths(texts(args@)) {
            Ok((from, to)) => result matches Ok(paths) && paths.0@ == from && paths.1@ == to,
            Err(refused) => result matches Err(error) && error@ == refused,
        },
{
    let allowed = ["from", "to"];
    assert(names_of(allowed@) =~= seq!["from"@, "to"@]);
    let flags = parse_flags(args, allowed.as_slice())?;
    let from = required_flag(&flags, "from")?;
    let to = required_flag(&flags, "to")?;
    Ok((from, to))
}

fn parse_find(args: &Vec<String>) -> (result: Result<TerminalOperation, TerminalCliError>)
    ensures
        outcome(result) == find_operation(texts(args@)),
{
    let allowed = ["root", "pattern", "limit"];
    assert(names_of(allowed@) =~= seq!["root"@, "pattern"@, "limit"@]);
    let flags = parse_flags(args, allowed.as_slice())?;
    let root = required_flag(&flags, "root")?;
    let pattern = required_flag(&flags, "pattern")?;
    let limit = required_flag(&flags, "limit")?;
    let max_results: u16 = parse_limit(limit)?;
    Ok(TerminalOperation::FindFiles { root, pattern, max_results })
}

/// The texts from `from` on.
fn texts_from(list: &Vec<String>, from: usize) -> (rest: Vec<String>)
    requires
        from <= list@.len(),
    ensures
        texts(rest@) == texts(list@).skip(from as int),
{
    let mut rest: Vec<String> = Vec::new();
    let ghost all = texts(list@);
    let mut index: usize = from;
    assert(texts(rest@) =~= all.subrange(from as int, from as int));
    while index < list.len()
        invariant
            from <= index <= list@.len(),
            all == texts(list@),
            texts(rest@) == all.subrange(from as int, index as int),
        decreases list.len() - index,
    {
        let ghost before = rest@;
        rest.push(list[index].clone());
        index += 1;
        proof {
            assert(texts(rest@) =~= texts(before).push(all[index - 1]));
            assert(texts(rest@) =~= all.subrange(from as int, index as int));
        }
    }
    assert(all.subrange(from as int, all.len() as int) =~= all.skip(from as int));
    rest
}

fn parse_terminal_operation(name: &str, args: &Vec<String>) -> (result: Result<
    TerminalOperation,
    TerminalCliError,
>)
    ensures
        outcome(result) == operation_for(name@, texts(args@)),
{
    assert(texts(args@).skip(0) =~= texts(args@));
    if is_text(name, "find") {
        parse_find(args)
    } else if is_text(name, "move") {
        let (from, to) = parse_two_paths(args)?;
        Ok(TerminalOperation::MoveFile { from, to })
    } else if is_text(name, "copy") {
        let (from, to) = parse_two_paths(args)?;
        Ok(TerminalOperation::CopyFile { from, to })
    } else if is_text(name, "remove") {
        let allowed = ["path"];
        assert(names_of(allowed@) =~= seq!["path"@]);
        let flags = parse_flags(args, allowed.as_slice())?;
        let path = required_flag(&flags, "path")?;
        Ok(TerminalOperation::RemoveFile { path })
    } else if is_text(name, "list-processes") {
        if args.len() > 0 {
            return refuse("list-processes does not accept arguments");
        }
        Ok(TerminalOperation::ListProcesses)
    } else if is_text(name, "git") {
        if args.len() == 0 {
            return refuse("git requires an action");
        }
        assert(texts(args@)[0] == args@[0]@);
        Ok(TerminalOperation::GitOperation { action: args[0].clone(), args: texts_from(args, 1) })
    } else if is_text(name, "shell") {
        if args.len() == 0 {
            return refuse("shell requires a command");
        }
        Ok(TerminalOperation::RawShellCommand { command: join(args, 0, " ") })
    } else {
        Err(
            TerminalCliError(joined("unknown terminal operation ", debug_of(name).as_str())),
        )
    }
}

// ---------------------------------------------------------------------------
// Phrases.

/// A value of a phrase, without the quotes around it.
pub open spec fn value_in(value: Seq<char>) -> Result<Seq<char>, Seq<char>> {
    let bare = trimmed(value);
    let inner = match between(bare, '"') {
        Some(inner) => inner,
        None => match between(bare, '\'') {
            Some(inner) => inner,
            None => bare,
        },
    };
    if trimmed(inner).len() == 0 {
        Err("translated terminal value must not be empty"@)
    } else {
        Ok(trimmed(inner))
    }
}

fn translated_value(value: &str) -> (result: Result<String, TerminalCliError>)
    ensures
        outcome(result) == value_in(value@),
{
    let bare = trim(value);
    let inner = match strip_marks(bare.as_str(), '"') {
        Some(inner) => inner,
        None => match strip_marks(bare.as_str(), '\'') {
            Some(inner) => inner,
            None => bare,
        },
    };
    let text = trim(inner.as_str());
    proof {
        reveal_strlit("");
        if text@.len() == 0 {
            assert(text@ =~= ""@);
        }
    }
    if is_text(text.as_str(), "") {
        return refuse("translated terminal value must not be empty");
    }
    Ok(text)
}

/// Two values, the first on the left of `separator`.
pub open spec fn values_around(
    rest: Seq<char>,
    separator: Seq<char>,
    expected: Seq<char>,
    right_first: bool,
) -> Result<(Seq<char>, Seq<char>), Seq<char>> {
    match sides_of_text(rest, separator) {
        None => Err(expected),
        Some((left, right)) => if right_first {
            match value_in(right) {
                Err(error) => Err(error),
                Ok(second) => match value_in(left) {
                    Err(error) => Err(error),
                    Ok(first) => Ok((first, second)),
                },
            }
        } else {
            match value_in(left) {
                Err(error) => Err(error),
                Ok(first) => match value_in(right) {
                    Err(error) => Err(error),
                    Ok(second) => Ok((first, second)),
                },
            }
        },
    }
}

fn parse_values_around(rest: &str, separator: &str, expected: &str, right_first: bool) -> (result:
    Result<(String, String), TerminalCliError>)
    ensures
        match values_around(rest@, separator@, expected@, right_first) {
            Ok((first, second)) => result matches Ok(pair) && pair.0@ == first && pair.1@
                == second,
            Err(refused) => result matches Err(error) && error@ == refused,
        },
{
    match split_once_text(rest, separator) {
        None => refuse(expected),
        Some((left, right)) => {
            if right_first {
                let second = translated_value(right.as_str())?;
                let first = translated_value(left.as_str())?;
                Ok((first, second))
            } else {
                let first = translated_value(left.as_str())?;
                let second = translated_value(right.as_str())?;
                Ok((first, second))
            }
        },
    }
}

pub open spec fn found_files(pair: Result<(Seq<char>, Seq<char>), Seq<char>>) -> Result<
    TerminalOperationView,
    Seq<char>,
> {
    match pair {
        Ok((pattern, root)) => Ok(
            TerminalOperationView::FindFiles { root, pattern, max_results: 128 },
        ),
        Err(error) => Err(error),
    }
}

/// The path of a phrase that removes a file.
pub open spec fn removed_path(phrase: Seq<char>) -> Option<Seq<char>> {
    match after_prefix(phrase, "remove "@) {
        Some(path) => Some(path),
        None => after_prefix(phrase, "delete "@),
    }
}

/// The operation that a phrase, in lower case and without spaces around it,
/// asks for.
pub open spec fn operation_in(phrase: Seq<char>) -> Result<TerminalOperationView, Seq<char>> {
    if phrase == "list processes"@ || phrase == "show processes"@ {
        Ok(TerminalOperationView::ListProcesses)
    } else if after_prefix(phrase, "find files matching "@) is Some {
        found_files(
            values_around(
                after_prefix(phrase, "find files matching "@)->0,
                " under "@,
                "expected `find files matching <pattern> under <root>`"@,
                true,
            ),
        )
    } else if after_prefix(phrase, "find "@) is Some {
        found_files(
            values_around(
                after_prefix(phrase, "find "@)->0,
                " under "@,
                "expected `find <pattern> under <root>`"@,
                true,
            ),
        )
    } else if after_prefix(phrase, "copy "@) is Some {
        match values_around(
            after_prefix(phrase, "copy "@)->0,
            " to "@,
            "expected `copy <source> to <destination>`"@,
            false,
        ) {
            Ok((from, to)) => Ok(TerminalOperationView::CopyFile { from, to }),
            Err(error) => Err(error),
        }
    } else if after_prefix(phrase, "move "@) is Some {
        match values_around(
            after_prefix(phrase, "move "@)->0,
            " to "@,
            "expected `move <source> to <destination>`"@,
            false,
        ) {
            Ok((from, to)) => Ok(TerminalOperationView::MoveFile { from, to }),
            Err(error) => Err(error),
        }
    } else if removed_path(phrase) is Some {
        match value_in(removed_path(phrase)->0) {
            Ok(path) => Ok(TerminalOperationView::RemoveFile { path }),
            Err(error) => Err(error),
        }
    } else if after_prefix(phrase, "git "@) is Some {
        let words = words_of(after_prefix(phrase, "git "@)->0);
        if words.len() == 0 {
            Err("expected `git <action>`"@)
        } else {
            Ok(TerminalOperationView::GitOperation { action: words[0], args: words.skip(1) })
        }
    } else {
        Err("unsupported local terminal phrase; use an explicit typed command"@)
    }
}

/// The operation that a text asks for, before any plan is made for it.
pub open spec fn translated(text: Seq<char>) -> Result<TerminalOperationView, Seq<char>> {
    if blank(text) || encode_utf8(text).len() > MAX_TERMINAL_CLI_TEXT_BYTES {
        Err("terminal translation text is empty or too large"@)
    } else {
        operation_in(ascii_lower(trimmed(text)))
    }
}

fn parse_phrase(phrase: &str) -> (result: Result<TerminalOperation, TerminalCliError>)
    ensures
        outcome(result) == operation_in(phrase@),
{
    if is_text(phrase, "list processes") || is_text(phrase, "show processes") {
        return Ok(TerminalOperation::ListProcesses);
    }
    if let Some(rest) = strip_prefix(phrase, "find files matching ") {
        let (pattern, root) = parse_values_around(
            rest.as_str(),
            " under ",
            "expected `find files matching <pattern> under <root>`",
            true,
        )?;
        return Ok(TerminalOperation::FindFiles { root, pattern, max_results: 128 });
    }
    if let Some(rest) = strip_prefix(phrase, "find ") {
        let (pattern, root) = parse_values_around(
            rest.as_str(),
            " under ",
            "expected `find <pattern> under <root>`",
            true,
        )?;
        return Ok(TerminalOperation::FindFiles { root, pattern, max_results: 128 });
    }
    if let Some(rest) = strip_prefix(phrase, "copy ") {
        let (from, to) = parse_values_around(
            rest.as_str(),
            " to ",
            "expected `copy <source> to <destination>`",
            false,
        )?;
        return Ok(TerminalOperation::CopyFile { from, to });
    }
    if let Some(rest) = strip_prefix(phrase, "move ") {
        let (from, to) = parse_values_around(
            rest.as_str(),
            " to ",
            "expected `move <source> to <destination>`",
            false,
        )?;
        return Ok(TerminalOperation::MoveFile { from, to });
    }
    let removed = match strip_prefix(phrase, "remove ") {
        Some(path) => Some(path),
        None => strip_prefix(phrase, "delete "),
    };
    if let Some(path) = removed {
        let path = translated_value(path.as_str())?;
        return Ok(TerminalOperation::RemoveFile { path });
    }
    if let Some(rest) = strip_prefix(phrase, "git ") {
        let words = split_whitespace(rest.as_str());
        if words.len() == 0 {
            return refuse("expected `git <action>`");
        }
        assert(texts(words@)[0] == words@[0]@);
        return Ok(
            TerminalOperation::GitOperation {
                action: words[0].clone(),
                args: texts_from(&words, 1),
            },
        );
    }
    refuse("unsupported local terminal phrase; use an explicit typed command")
}

fn translate(text: &str) -> (result: Result<TerminalOperation, TerminalCliError>)
    ensures
        outcome(result) == translated(text@),
{
    if is_blank(text) || text.as_bytes().len() > MAX_TERMINAL_CLI_TEXT_BYTES {
        return refuse("terminal translation text is empty or too large");
    }
    let phrase = to_ascii_lower(trim(text).as_str());
    parse_phrase(phrase.as_str())
}

// ---------------------------------------------------------------------------
// Plans.

/// An operation is accepted where a plan can be made for it. The planner says
/// why not.
pub open spec fn planned<P: Fn(&TerminalOperation) -> Option<String>>(
    planner: P,
    operation: Result<TerminalOperationView, Seq<char>>,
    result: Result<TerminalOperationView, Seq<char>>,
) -> bool {
    match operation {
        Err(refused) => result == Err::<TerminalOperationView, Seq<char>>(refused),
        Ok(operation) => exists|asked: TerminalOperation, answer: Option<String>|
            {
                &&& asked@ == operation
                &&& #[trigger] call_ensures(planner, (&asked,), answer)
                &&& result == match answer {
                    Some(reason) => Err::<TerminalOperationView, Seq<char>>(reason@),
                    None => Ok::<TerminalOperationView, Seq<char>>(operation),
                }
            },
    }
}

fn plan_operation<P: Fn(&TerminalOperation) -> Option<String>>(
    operation: TerminalOperation,
    planner: &P,
) -> (result: Result<TerminalOperation, TerminalCliError>)
    requires
        forall|operation: TerminalOperation| call_requires(*planner, (&operation,)),
    ensures
        planned(*planner, Ok(operation@), outcome(result)),
{
    let answer = planner(&operation);
    assert(call_ensures(*planner, (&operation,), answer));
    match answer {
        Some(reason) => Err(TerminalCliError(reason)),
        None => Ok(operation),
    }
}

/// Turns a phrase of the small local grammar into an operation, and makes a
/// plan for it. What the grammar does not know is refused.
pub fn translate_terminal_text<P: Fn(&TerminalOperation) -> Option<String>>(
    text: &str,
    planner: &P,
) -> (result: Result<TerminalOperation, TerminalCliError>)
    requires
        forall|operation: TerminalOperation| call_requires(*planner, (&operation,)),
    ensures
        planned(*planner, translated(text@), outcome(result)),
{
    let operation = translate(text)?;
    plan_operation(operation, planner)
}

// ---------------------------------------------------------------------------
// Commands.

/// The arguments without `--confirm`.
pub open spec fn unconfirmed(args: Seq<Seq<char>>) -> Seq<Seq<char>>
    decreases args.len(),
{
    if args.len() == 0 {
        seq![]
    } else if args.last() == "--confirm"@ {
        unconfirmed(args.drop_last())
    } else {
        unconfirmed(args.drop_last()).push(args.last())
    }
}

/// How often `--confirm` was given.
pub open spec fn confirmations(args: Seq<Seq<char>>) -> int {
    args.len() - unconfirmed(args).len()
}

pub open spec fn args_refusal(args: Seq<Seq<char>>) -> Option<Seq<char>> {
    if args.len() > MAX_TERMINAL_CLI_ARGS {
        Some("too many terminal CLI arguments"@)
    } else if exists|i: int|
        0 <= i < args.len() && ((#[trigger] args[i]).len() == 0 || encode_utf8(args[i]).len()
            > MAX_TERMINAL_CLI_TEXT_BYTES) {
        Some("terminal CLI argument is empty or too large"@)
    } else {
        None
    }
}

/// What a command line asks for.
pub enum Asked {
    Help,
    Undo,
    Translate(Result<TerminalOperationView, Seq<char>>),
    Plan(Result<TerminalOperationView, Seq<char>>),
    Execute { operation: Result<TerminalOperationView, Seq<char>>, confirmed: bool },
    Refused(Seq<char>),
}

pub open spec fn asked(args: Seq<Seq<char>>) -> Asked {
    if args_refusal(args) is Some {
        Asked::Refused(args_refusal(args)->0)
    } else if args.len() == 0 || args[0] == "help"@ || args[0] == "--help"@ || args[0] == "-h"@ {
        Asked::Help
    } else if args[0] == "translate"@ {
        Asked::Translate(translated(joined_with(args.skip(1), " "@)))
    } else if args[0] == "undo"@ {
        if args.len() != 1 {
            Asked::Refused("undo does not accept arguments"@)
        } else {
            Asked::Undo
        }
    } else if args[0] == "plan"@ {
        Asked::Plan(operation_for(args[1], args.skip(2)))
    } else if args[0] == "execute"@ {
        if confirmations(args.skip(2)) > 1 {
            Asked::Refused("--confirm may be provided only once"@)
        } else {
            Asked::Execute {
                operation: operation_for(args[1], unconfirmed(args.skip(2))),
                confirmed: confirmations(args.skip(2)) == 1,
            }
        }
    } else {
        Asked::Refused("expected `plan`, `execute`, `help`, or `--help`"@)
    }
}

/// The command for what was asked.
pub open spec fn commanded<P: Fn(&TerminalOperation) -> Option<String>>(
    planner: P,
    asked: Asked,
    result: Result<TerminalCliCommandView, Seq<char>>,
) -> bool {
    match asked {
        Asked::Help => result == Ok::<TerminalCliCommandView, Seq<char>>(
            TerminalCliCommandView::Help,
        ),
        Asked::Undo => result == Ok::<TerminalCliCommandView, Seq<char>>(
            TerminalCliCommandView::Undo,
        ),
        Asked::Refused(message) => result == Err::<TerminalCliCommandView, Seq<char>>(message),
        Asked::Translate(operation) => match result {
            Ok(TerminalCliCommandView::Translate(planned_for)) => planned(
                planner,
                operation,
                Ok(planned_for),
            ),
            Ok(_) => false,
            Err(message) => planned(planner, operation, Err(message)),
        },
        Asked::Plan(operation) => match result {
            Ok(TerminalCliCommandView::Plan(planned_for)) => planned(
                planner,
                operation,
                Ok(planned_for),
            ),
            Ok(_) => false,
            Err(message) => planned(planner, operation, Err(message)),
        },
        Asked::Execute { operation, confirmed } => match result {
            Ok(TerminalCliCommandView::Execute { operation: planned_for, confirmed: given }) =>
                given == confirmed && planned(planner, operation, Ok(planned_for)),
            Ok(_) => false,
            Err(message) => planned(planner, operation, Err(message)),
        },
    }
}

fn validate_cli_args(args: &Vec<String>) -> (result: Result<(), TerminalCliError>)
    ensures
        match args_refusal(texts(args@)) {
            Some(refused) => result matches Err(error) && error@ == refused,
            None => result is Ok,
        },
{
    if args.len() > MAX_TERMINAL_CLI_ARGS {
        return refuse("too many terminal CLI arguments");
    }
    let ghost all = texts(args@);
    let mut index: usize = 0;
    while index < args.len()
        invariant
            index <= args@.len(),
            all == texts(args@),
            all.len() <= MAX_TERMINAL_CLI_ARGS,
            forall|i: int|
                0 <= i < index ==> (#[trigger] all[i]).len() != 0 && encode_utf8(all[i]).len()
                    <= MAX_TERMINAL_CLI_TEXT_BYTES,
        decreases args.len() - index,
    {
        assert(all[index as int] == args@[index as int]@);
        let argument = args[index].as_str();
        proof {
            reveal_strlit("");
            if argument@.len() == 0 {
                assert(argument@ =~= ""@);
            }
        }
        if is_text(argument, "") || argument.as_bytes().len() > MAX_TERMINAL_CLI_TEXT_BYTES {
            return refuse("terminal CLI argument is empty or too large");
        }
        index += 1;
    }
    Ok(())
}

fn without_confirm(args: &Vec<String>, from: usize) -> (rest: Vec<String>)
    requires
        from <= args@.len(),
    ensures
        texts(rest@) == unconfirmed(texts(args@).skip(from as int)),
        rest@.len() <= args@.len() - from,
{
    let mut rest: Vec<String> = Vec::new();
    let ghost all = texts(args@).skip(from as int);
    let mut index: usize = from;
    proof {
        assert(all.take(0) =~= Seq::<Seq<char>>::empty());
        assert(texts(rest@) =~= Seq::<Seq<char>>::empty());
    }
    while index < args.len()
        invariant
            from <= index <= args@.len(),
            all == texts(args@).skip(from as int),
            texts(rest@) == unconfirmed(all.take(index - from)),
            rest@.len() <= index - from,
        decreases args.len() - index,
    {
        proof {
            let now = all.take(index + 1 - from);
            assert(now.drop_last() =~= all.take(index - from));
            assert(now.last() == args@[index as int]@);
        }
        if !is_text(args[index].as_str(), "--confirm") {
            let ghost before = rest@;
            rest.push(args[index].clone());
            assert(texts(rest@) =~= texts(before).push(args@[index as int]@));
        }
        index += 1;
    }
    assert(all.take(args@.len() - from) =~= all);
    rest
}

/// Reads a command line. Nothing is executed here, and nothing is guessed: an
/// operation is spelled out, or a phrase of the local grammar.
pub fn parse_terminal_cli<P: Fn(&TerminalOperation) -> Option<String>>(
    args: Vec<String>,
    planner: &P,
) -> (result: Result<TerminalCliCommand, TerminalCliError>)
    requires
        forall|operation: TerminalOperation| call_requires(*planner, (&operation,)),
        args@.len() != 1 || (args@[0]@ != "plan"@ && args@[0]@ != "execute"@),
    ensures
        commanded(*planner, asked(texts(args@)), outcome(result)),
{
    validate_cli_args(&args)?;
    let ghost all = texts(args@);
    if args.len() == 0 {
        return Ok(TerminalCliCommand::Help);
    }
    assert(all[0] == args@[0]@);
    let first = args[0].as_str();
    if is_text(first, "help") || is_text(first, "--help") || is_text(first, "-h") {
        return Ok(TerminalCliCommand::Help);
    }
    if is_text(first, "translate") {
        let text = join(&args, 1, " ");
        let operation = translate_terminal_text(text.as_str(), planner)?;
        return Ok(TerminalCliCommand::Translate(operation));
    }
    if is_text(first, "undo") {
        if args.len() != 1 {
            return refuse("undo does not accept arguments");
        }
        return Ok(TerminalCliCommand::Undo);
    }
    let executing = is_text(first, "execute");
    if !executing && !is_text(first, "plan") {
        return refuse("expected `plan`, `execute`, `help`, or `--help`");
    }
    proof {
        reveal_strlit("plan");
        reveal_strlit("execute");
    }
    assert(all[1] == args@[1]@);
    let name = args[1].as_str();
    if executing {
        let operation_args = without_confirm(&args, 2);
        let given: usize = args.len() - 2 - operation_args.len();
        assert(given == confirmations(all.skip(2)));
        if given > 1 {
            return refuse("--confirm may be provided only once");
        }
        let operation = parse_terminal_operation(name, &operation_args)?;
        let operation = plan_operation(operation, planner)?;
        Ok(TerminalCliCommand::Execute { operation, confirmed: given == 1 })
    } else {
        let operation_args = texts_from(&args, 2);
        let operation = parse_terminal_operation(name, &operation_args)?;
        let operation = plan_operation(operation, planner)?;
        Ok(TerminalCliCommand::Plan(operation))
    }
}

} // verus!
