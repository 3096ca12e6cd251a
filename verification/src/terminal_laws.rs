//! What the terminal's commands and phrases ask for.

use vstd::prelude::*;

use crate::scan::{after_prefix, begins_with, first_stand, joined_with, sides_of_text, trimmed};
use crate::terminal::{
    asked, confirmations, flags_from, operation_for, operation_in, unconfirmed, value_in, Asked,
    TerminalOperationView,
};
use crate::text::{stands_at, whitespace};

verus! {

// ---------------------------------------------------------------------------
// Commands.

/// A flag as it is written.
pub open spec fn flag(name: Seq<char>) -> Seq<char> {
    "--"@ + name
}

proof fn flags_name_themselves(name: Seq<char>)
    requires
        name.len() > 0,
    ensures
        after_prefix(flag(name), "--"@) == Some(name),
{
    reveal_strlit("--");
    assert(flag(name).take(2) =~= "--"@);
    assert(flag(name).skip(2) =~= name);
}

proof fn two_flags_are_read(
    first: Seq<char>,
    a: Seq<char>,
    second: Seq<char>,
    b: Seq<char>,
    allowed: Seq<Seq<char>>,
)
    requires
        first != second,
        first.len() > 0,
        second.len() > 0,
        allowed.contains(first),
        allowed.contains(second),
        !begins_with(a, "--"@),
        !begins_with(b, "--"@),
    ensures
        flags_from(seq![flag(first), a, flag(second), b], allowed, Map::empty()) == Ok::<
            Map<Seq<char>, Seq<char>>,
            Seq<char>,
        >(Map::<Seq<char>, Seq<char>>::empty().insert(first, a).insert(second, b)),
{
    let none = Map::<Seq<char>, Seq<char>>::empty();
    let all = seq![flag(first), a, flag(second), b];
    let rest = seq![flag(second), b];
    flags_name_themselves(first);
    flags_name_themselves(second);
    assert(all.skip(2) =~= rest);
    assert(rest.skip(2) =~= Seq::<Seq<char>>::empty());
    assert(flags_from(Seq::<Seq<char>>::empty(), allowed, none.insert(first, a).insert(second, b))
        is Ok);
    assert(flags_from(rest, allowed, none.insert(first, a)) == flags_from(
        rest.skip(2),
        allowed,
        none.insert(first, a).insert(second, b),
    ));
}

/// A move or a copy goes from the path after `--from` to the one after `--to`,
/// in whichever order the two are given.
pub proof fn paths_keep_their_places(from: Seq<char>, to: Seq<char>)
    requires
        !begins_with(from, "--"@),
        !begins_with(to, "--"@),
    ensures
        operation_for("move"@, seq![flag("from"@), from, flag("to"@), to]) == Ok::<
            TerminalOperationView,
            Seq<char>,
        >(TerminalOperationView::MoveFile { from, to }),
        operation_for("move"@, seq![flag("to"@), to, flag("from"@), from]) == Ok::<
            TerminalOperationView,
            Seq<char>,
        >(TerminalOperationView::MoveFile { from, to }),
        operation_for("copy"@, seq![flag("from"@), from, flag("to"@), to]) == Ok::<
            TerminalOperationView,
            Seq<char>,
        >(TerminalOperationView::CopyFile { from, to }),
        operation_for("copy"@, seq![flag("to"@), to, flag("from"@), from]) == Ok::<
            TerminalOperationView,
            Seq<char>,
        >(TerminalOperationView::CopyFile { from, to }),
{
    names_are_distinct();
    reveal_strlit("from");
    reveal_strlit("to");
    assert("from"@.len() == 4 && "to"@.len() == 2);
    let allowed = seq!["from"@, "to"@];
    assert(allowed[0] == "from"@ && allowed[1] == "to"@);
    two_flags_are_read("from"@, from, "to"@, to, allowed);
    two_flags_are_read("to"@, to, "from"@, from, allowed);
}

proof fn names_are_distinct()
    ensures
        "find"@.len() == 4,
        "move"@.len() == 4,
        "copy"@.len() == 4,
        "remove"@.len() == 6,
        "list-processes"@.len() == 14,
        "git"@.len() == 3,
        "shell"@.len() == 5,
        "find"@[0] == 'f',
        "move"@[0] == 'm',
        "copy"@[0] == 'c',
{
    reveal_strlit("find");
    reveal_strlit("move");
    reveal_strlit("copy");
    reveal_strlit("remove");
    reveal_strlit("list-processes");
    reveal_strlit("git");
    reveal_strlit("shell");
}

/// Removing takes the path after `--path`; git takes its action and the rest
/// as they are; the shell takes all its words; listing takes nothing.
pub proof fn operations_take_their_arguments(path: Seq<char>, args: Seq<Seq<char>>)
    requires
        !begins_with(path, "--"@),
    ensures
        operation_for("remove"@, seq![flag("path"@), path]) == Ok::<
            TerminalOperationView,
            Seq<char>,
        >(TerminalOperationView::RemoveFile { path }),
        args.len() > 0 ==> operation_for("git"@, args) == Ok::<TerminalOperationView, Seq<char>>(
            TerminalOperationView::GitOperation { action: args[0], args: args.skip(1) },
        ),
        args.len() > 0 ==> operation_for("shell"@, args) == Ok::<TerminalOperationView, Seq<char>>(
            TerminalOperationView::RawShellCommand { command: joined_with(args, " "@) },
        ),
        operation_for("git"@, seq![]) is Err,
        operation_for("shell"@, seq![]) is Err,
        operation_for("list-processes"@, args) is Ok <==> args.len() == 0,
        operation_for("list-processes"@, seq![]) == Ok::<TerminalOperationView, Seq<char>>(
            TerminalOperationView::ListProcesses,
        ),
{
    names_are_distinct();
    reveal_strlit("path");
    let allowed = seq!["path"@];
    assert(allowed[0] == "path"@);
    let all = seq![flag("path"@), path];
    flags_name_themselves("path"@);
    assert(all.skip(2) =~= Seq::<Seq<char>>::empty());
    let none = Map::<Seq<char>, Seq<char>>::empty();
    assert(flags_from(Seq::<Seq<char>>::empty(), allowed, none.insert("path"@, path)) is Ok);
    assert(flags_from(all, allowed, none) == flags_from(
        all.skip(2),
        allowed,
        none.insert("path"@, path),
    ));
}

/// Finding looks for the pattern below the root, up to the limit.
pub proof fn finding_takes_root_pattern_and_limit(
    root: Seq<char>,
    pattern: Seq<char>,
    limit: u16,
)
    requires
        limit > 0,
        !begins_with(root, "--"@),
        !begins_with(pattern, "--"@),
    ensures
        operation_for(
            "find"@,
            seq![
                flag("root"@),
                root,
                flag("pattern"@),
                pattern,
                flag("limit"@),
                crate::text::decimal(limit as nat),
            ],
        ) == Ok::<TerminalOperationView, Seq<char>>(
            TerminalOperationView::FindFiles { root, pattern, max_results: limit },
        ),
{
    reveal_strlit("--");
    reveal_strlit("root");
    reveal_strlit("pattern");
    reveal_strlit("limit");
    assert("root"@.len() == 4 && "pattern"@.len() == 7 && "limit"@.len() == 5);
    let number = crate::text::decimal(limit as nat);
    crate::numerals::decimal_reads_back(limit as nat);
    crate::numerals::number_reads_back(number, 10, limit as nat, u16::MAX as nat);
    crate::numerals::digits_are_plain(number, 10);
    assert(!begins_with(number, "--"@)) by {
        if begins_with(number, "--"@) {
            assert(number.take(2)[0] == "--"@[0]);
            assert(number[0] == '-');
        }
    }
    let allowed = seq!["root"@, "pattern"@, "limit"@];
    assert(allowed[0] == "root"@ && allowed[1] == "pattern"@ && allowed[2] == "limit"@);
    flags_name_themselves("root"@);
    flags_name_themselves("pattern"@);
    flags_name_themselves("limit"@);
    let none = Map::<Seq<char>, Seq<char>>::empty();
    let one = none.insert("root"@, root);
    let two = one.insert("pattern"@, pattern);
    let three = two.insert("limit"@, number);
    let all = seq![flag("root"@), root, flag("pattern"@), pattern, flag("limit"@), number];
    let later = seq![flag("pattern"@), pattern, flag("limit"@), number];
    let last = seq![flag("limit"@), number];
    assert(all.skip(2) =~= later);
    assert(later.skip(2) =~= last);
    assert(last.skip(2) =~= Seq::<Seq<char>>::empty());
    assert(flags_from(last.skip(2), allowed, three) == Ok::<_, Seq<char>>(three));
    assert(flags_from(last, allowed, two) == flags_from(last.skip(2), allowed, three));
    assert(flags_from(later, allowed, one) == flags_from(last, allowed, two));
    assert(flags_from(all, allowed, none) == flags_from(later, allowed, one));
}

/// The confirmation is not an argument: everything else is passed on, in
/// order.
pub proof fn confirmations_are_set_apart(args: Seq<Seq<char>>)
    ensures
        unconfirmed(args) == args.filter(|arg: Seq<char>| arg != "--confirm"@),
        confirmations(args) == args.filter(|arg: Seq<char>| arg == "--confirm"@).len(),
    decreases args.len(),
{
    reveal(Seq::filter);
    if args.len() > 0 {
        confirmations_are_set_apart(args.drop_last());
    }
}

/// What is executed is what the same words would have planned, and it is
/// confirmed exactly where that was said once.
pub proof fn executing_is_planning_and_more(args: Seq<Seq<char>>)
    requires
        args.len() >= 2,
        args[0] == "execute"@,
        !(asked(args) is Refused),
    ensures
        asked(args) matches Asked::Execute { operation, confirmed } && {
            let rest = args.skip(2);
            let bare = seq!["plan"@, args[1]] + rest.filter(
                |arg: Seq<char>| arg != "--confirm"@,
            );
            &&& confirmed <==> rest.contains("--confirm"@)
            &&& crate::terminal::args_refusal(bare) is None ==> asked(bare) == Asked::Plan(
                operation,
            )
        },
{
    reveal_strlit("execute");
    reveal_strlit("plan");
    reveal_strlit("help");
    reveal_strlit("--help");
    reveal_strlit("-h");
    reveal_strlit("translate");
    reveal_strlit("undo");
    assert("execute"@.len() == 7 && "plan"@.len() == 4 && "help"@.len() == 4);
    assert("--help"@.len() == 6 && "-h"@.len() == 2 && "translate"@.len() == 9);
    assert("undo"@.len() == 4);
    assert("plan"@[0] == 'p' && "help"@[0] == 'h' && "undo"@[0] == 'u');
    let rest = args.skip(2);
    confirmations_are_set_apart(rest);
    let bare = seq!["plan"@, args[1]] + unconfirmed(rest);
    assert(bare[0] == "plan"@ && bare[1] == args[1]);
    assert(bare.skip(2) =~= unconfirmed(rest));
    let given = rest.filter(|arg: Seq<char>| arg == "--confirm"@);
    confirmed_where_said(rest);
}

proof fn confirmed_where_said(args: Seq<Seq<char>>)
    ensures
        confirmations(args) > 0 <==> args.contains("--confirm"@),
        confirmations(args) >= 0,
    decreases args.len(),
{
    if args.len() > 0 {
        let rest = args.drop_last();
        let last = args.len() - 1;
        confirmed_where_said(rest);
        if rest.contains("--confirm"@) {
            let i = choose|i: int| 0 <= i < rest.len() && rest[i] == "--confirm"@;
            assert(args[i] == "--confirm"@);
        }
        if args.contains("--confirm"@) && args[last] != "--confirm"@ {
            let i = choose|i: int| 0 <= i < args.len() && args[i] == "--confirm"@;
            assert(rest[i] == "--confirm"@);
        }
    }
}

// ---------------------------------------------------------------------------
// Phrases.

/// A word: some text without spaces, and without quotes around it.
pub open spec fn plain_word(text: Seq<char>) -> bool {
    &&& text.len() > 0
    &&& forall|i: int| 0 <= i < text.len() ==> !whitespace(#[trigger] text[i])
    &&& text[0] != '"'
    &&& text[0] != '\''
}

proof fn plain_words_stand_for_themselves(word: Seq<char>)
    requires
        plain_word(word),
    ensures
        value_in(word) == Ok::<Seq<char>, Seq<char>>(word),
{
    assert(!whitespace(word[0]));
    assert(word.last() == word[word.len() - 1]);
    assert(trimmed(word) == word);
}

proof fn words_are_parted(left: Seq<char>, separator: Seq<char>, right: Seq<char>)
    requires
        plain_word(left),
        separator.len() > 0,
        separator[0] == ' ',
    ensures
        sides_of_text(left + separator + right, separator) == Some((left, right)),
{
    let text = left + separator + right;
    let place = left.len() as int;
    assert(text.subrange(place, place + separator.len()) =~= separator);
    nothing_stands_before(text, separator, place, 0);
    assert(text.take(place) =~= left);
    assert(text.skip(place + separator.len()) =~= right);
}

proof fn nothing_stands_before(text: Seq<char>, separator: Seq<char>, place: int, from: int)
    requires
        0 <= from <= place,
        separator.len() > 0,
        stands_at(text, separator, place),
        forall|i: int| 0 <= i < place ==> text[i] != separator[0],
    ensures
        first_stand(text, separator, from) == Some(place),
    decreases place - from,
{
    if from < place {
        if stands_at(text, separator, from) {
            assert(text.subrange(from, from + separator.len())[0] == separator[0]);
        }
        nothing_stands_before(text, separator, place, from + 1);
    }
}

/// A phrase moves or copies from the first word to the second.
pub proof fn phrases_keep_their_places(from: Seq<char>, to: Seq<char>)
    requires
        plain_word(from),
        plain_word(to),
    ensures
        operation_in("move "@ + (from + " to "@ + to)) == Ok::<TerminalOperationView, Seq<char>>(
            TerminalOperationView::MoveFile { from, to },
        ),
        operation_in("copy "@ + (from + " to "@ + to)) == Ok::<TerminalOperationView, Seq<char>>(
            TerminalOperationView::CopyFile { from, to },
        ),
{
    reveal_strlit(" to ");
    reveal_strlit("move ");
    reveal_strlit("copy ");
    reveal_strlit("find ");
    reveal_strlit("find files matching ");
    reveal_strlit("list processes");
    reveal_strlit("show processes");
    let rest = from + " to "@ + to;
    plain_words_stand_for_themselves(from);
    plain_words_stand_for_themselves(to);
    words_are_parted(from, " to "@, to);
    let moving = "move "@ + rest;
    let copying = "copy "@ + rest;
    prefixes_come_off("move "@, rest);
    prefixes_come_off("copy "@, rest);
    assert(moving[0] == 'm' && copying[0] == 'c');
    assert("list processes"@[0] == 'l' && "show processes"@[0] == 's');
    another_start("find "@, moving);
    another_start("find files matching "@, moving);
    another_start("copy "@, moving);
    another_start("find "@, copying);
    another_start("find files matching "@, copying);
}

proof fn prefixes_come_off(start: Seq<char>, rest: Seq<char>)
    ensures
        after_prefix(start + rest, start) == Some(rest),
{
    assert((start + rest).take(start.len() as int) =~= start);
    assert((start + rest).skip(start.len() as int) =~= rest);
}

proof fn another_start(start: Seq<char>, text: Seq<char>)
    requires
        start.len() > 0,
        text.len() > 0,
        text[0] != start[0],
    ensures
        after_prefix(text, start) is None,
{
    if begins_with(text, start) {
        assert(text.take(start.len() as int)[0] == start[0]);
    }
}

/// A phrase removes the path that it names, whichever of the two words it
/// uses.
pub proof fn phrases_remove_what_they_name(path: Seq<char>)
    requires
        plain_word(path),
    ensures
        operation_in("remove "@ + path) == Ok::<TerminalOperationView, Seq<char>>(
            TerminalOperationView::RemoveFile { path },
        ),
        operation_in("delete "@ + path) == Ok::<TerminalOperationView, Seq<char>>(
            TerminalOperationView::RemoveFile { path },
        ),
{
    reveal_strlit("move ");
    reveal_strlit("copy ");
    reveal_strlit("find ");
    reveal_strlit("remove ");
    reveal_strlit("delete ");
    reveal_strlit("find files matching ");
    reveal_strlit("list processes");
    reveal_strlit("show processes");
    let removing = "remove "@ + path;
    let deleting = "delete "@ + path;
    plain_words_stand_for_themselves(path);
    prefixes_come_off("remove "@, path);
    prefixes_come_off("delete "@, path);
    assert(removing[0] == 'r' && deleting[0] == 'd');
    assert("list processes"@[0] == 'l' && "show processes"@[0] == 's');
    another_start("find "@, removing);
    another_start("find files matching "@, removing);
    another_start("copy "@, removing);
    another_start("move "@, removing);
    another_start("find "@, deleting);
    another_start("find files matching "@, deleting);
    another_start("copy "@, deleting);
    another_start("move "@, deleting);
    another_start("remove "@, deleting);
}

/// A phrase finds the pattern that it names first, below the root that it
/// names last, up to 128 results.
pub proof fn phrases_find_what_they_name(pattern: Seq<char>, root: Seq<char>)
    requires
        plain_word(pattern),
        plain_word(root),
    ensures
        operation_in("find files matching "@ + (pattern + " under "@ + root)) == Ok::<
            TerminalOperationView,
            Seq<char>,
        >(TerminalOperationView::FindFiles { root, pattern, max_results: 128 }),
{
    reveal_strlit(" under ");
    reveal_strlit("find files matching ");
    reveal_strlit("list processes");
    reveal_strlit("show processes");
    let rest = pattern + " under "@ + root;
    plain_words_stand_for_themselves(pattern);
    plain_words_stand_for_themselves(root);
    words_are_parted(pattern, " under "@, root);
    let phrase = "find files matching "@ + rest;
    prefixes_come_off("find files matching "@, rest);
    assert(phrase[0] == 'f');
    assert("list processes"@[0] == 'l' && "show processes"@[0] == 's');
}

} // verus!
