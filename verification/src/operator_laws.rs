//! What holds of every operator command line.

use vstd::prelude::*;

use crate::event_store::ReplayMode;
use crate::operator::{
    command_in, no_options, options_in, stands_alone, verb_named, with_option, CommandView,
    OptionsView, Verb,
};

verus! {

/// An option with its value, or one that stands alone.
pub open spec fn is_group(verb: Verb, group: Seq<Seq<char>>) -> bool {
    if group.len() == 1 {
        stands_alone(verb, group[0])
    } else {
        group.len() == 2 && !stands_alone(verb, group[0])
    }
}

pub open spec fn all_groups(verb: Verb, groups: Seq<Seq<Seq<char>>>) -> bool {
    forall|i: int| 0 <= i < groups.len() ==> is_group(verb, #[trigger] groups[i])
}

/// No option is given twice.
pub open spec fn no_repeats(groups: Seq<Seq<Seq<char>>>) -> bool {
    forall|i: int, j: int|
        0 <= i < groups.len() && 0 <= j < groups.len() && i != j ==> (#[trigger] groups[i])[0] != (
        #[trigger] groups[j])[0]
}

/// The groups as arguments.
pub open spec fn spelled(groups: Seq<Seq<Seq<char>>>) -> Seq<Seq<char>>
    decreases groups.len(),
{
    if groups.len() == 0 {
        seq![]
    } else {
        groups[0] + spelled(groups.skip(1))
    }
}

/// What the groups add, one after the other.
spec fn after_groups(verb: Verb, groups: Seq<Seq<Seq<char>>>, options: OptionsView) -> Result<
    OptionsView,
    Seq<char>,
>
    decreases groups.len(),
{
    if groups.len() == 0 {
        Ok(options)
    } else {
        match with_option(verb, groups[0], options) {
            Err(error) => Err(error),
            Ok(next) => after_groups(verb, groups.skip(1), next),
        }
    }
}

proof fn groups_are_read_in_turn(
    verb: Verb,
    groups: Seq<Seq<Seq<char>>>,
    options: OptionsView,
)
    requires
        all_groups(verb, groups),
    ensures
        options_in(verb, spelled(groups), options) == after_groups(verb, groups, options),
    decreases groups.len(),
{
    if groups.len() > 0 {
        let group = groups[0];
        let rest = groups.skip(1);
        let args = spelled(groups);
        assert(is_group(verb, group));
        assert forall|i: int| 0 <= i < rest.len() implies is_group(verb, #[trigger] rest[i]) by {
            assert(is_group(verb, groups[i + 1]));
        }
        assert(args[0] == group[0]);
        if group.len() == 2 {
            assert(args[1] == group[1]);
            assert(args.skip(2) =~= spelled(rest));
        } else {
            names_differ();
            assert(args.skip(1) =~= spelled(rest));
        }
        assert(with_option(verb, args, options) == with_option(verb, group, options));
        if let Ok(next) = with_option(verb, group, options) {
            groups_are_read_in_turn(verb, rest, next);
        }
    }
}

/// One thing that can be said of a command.
enum Said {
    Text(Option<Seq<char>>),
    Number(Option<u64>),
    Mode(ReplayMode),
    Demo(bool),
    Nothing,
}

/// What the options say under a name.
spec fn said(options: OptionsView, name: Seq<char>) -> Said {
    if name == "--db"@ {
        Said::Text(options.database)
    } else if name == "--run"@ {
        Said::Number(options.run)
    } else if name == "--at"@ {
        Said::Number(options.at)
    } else if name == "--child"@ {
        Said::Number(options.child)
    } else if name == "--mode"@ {
        Said::Mode(options.mode)
    } else if name == "--left"@ {
        Said::Number(options.left)
    } else if name == "--right"@ {
        Said::Number(options.right)
    } else if name == "--demo"@ {
        Said::Demo(options.demo)
    } else {
        Said::Nothing
    }
}

/// What a group says, whatever was said before.
spec fn says(verb: Verb, group: Seq<Seq<char>>) -> Said {
    said(with_option(verb, group, no_options())->Ok_0, group[0])
}

proof fn a_group_says_one_thing(verb: Verb, group: Seq<Seq<char>>, options: OptionsView)
    ensures
        with_option(verb, group, options) is Ok <==> with_option(verb, group, no_options()) is Ok,
        with_option(verb, group, options) matches Ok(next) ==> {
            &&& said(next, group[0]) == says(verb, group)
            &&& forall|name: Seq<char>|
                name != group[0] ==> #[trigger] said(next, name) == said(options, name)
        },
{
    names_differ();
}

proof fn groups_say_what_they_say(
    verb: Verb,
    groups: Seq<Seq<Seq<char>>>,
    options: OptionsView,
)
    requires
        no_repeats(groups),
        after_groups(verb, groups, options) is Ok,
    ensures
        ({
            let all = after_groups(verb, groups, options)->Ok_0;
            &&& forall|i: int|
                0 <= i < groups.len() ==> {
                    &&& with_option(verb, #[trigger] groups[i], no_options()) is Ok
                    &&& said(all, groups[i][0]) == says(verb, groups[i])
                }
            &&& forall|name: Seq<char>|
                (forall|i: int| 0 <= i < groups.len() ==> (#[trigger] groups[i])[0] != name)
                    ==> #[trigger] said(all, name) == said(options, name)
        }),
    decreases groups.len(),
{
    if groups.len() > 0 {
        let group = groups[0];
        let rest = groups.skip(1);
        a_group_says_one_thing(verb, group, options);
        let next = with_option(verb, group, options)->Ok_0;
        assert forall|i: int, j: int|
            0 <= i < rest.len() && 0 <= j < rest.len() && i != j implies (#[trigger] rest[i])[0]
            != (#[trigger] rest[j])[0] by {
            assert(groups[i + 1][0] != groups[j + 1][0]);
        }
        groups_say_what_they_say(verb, rest, next);
        let all = after_groups(verb, groups, options)->Ok_0;
        assert forall|i: int| 0 <= i < rest.len() implies (#[trigger] rest[i])[0] != group[0] by {
            assert(groups[i + 1][0] != groups[0][0]);
        }
        assert forall|i: int| 0 <= i < groups.len() implies {
            &&& with_option(verb, #[trigger] groups[i], no_options()) is Ok
            &&& said(all, groups[i][0]) == says(verb, groups[i])
        } by {
            if i > 0 {
                assert(rest[i - 1] == groups[i]);
            }
        }
        assert forall|name: Seq<char>|
            (forall|i: int|
                0 <= i < groups.len() ==> (#[trigger] groups[i])[0] != name) implies #[trigger] said(
            all,
            name,
        ) == said(options, name) by {
            assert(groups[0][0] != name);
            assert forall|i: int| 0 <= i < rest.len() implies (#[trigger] rest[i])[0] != name by {
                assert(groups[i + 1][0] != name);
            }
        }
    }
}

proof fn groups_that_say_something_are_taken(
    verb: Verb,
    groups: Seq<Seq<Seq<char>>>,
    options: OptionsView,
)
    requires
        forall|i: int|
            0 <= i < groups.len() ==> with_option(verb, #[trigger] groups[i], no_options()) is Ok,
    ensures
        after_groups(verb, groups, options) is Ok,
    decreases groups.len(),
{
    if groups.len() > 0 {
        let rest = groups.skip(1);
        a_group_says_one_thing(verb, groups[0], options);
        assert forall|i: int| 0 <= i < rest.len() implies with_option(
            verb,
            #[trigger] rest[i],
            no_options(),
        ) is Ok by {
            assert(rest[i] == groups[i + 1]);
        }
        groups_that_say_something_are_taken(
            verb,
            rest,
            with_option(verb, groups[0], options)->Ok_0,
        );
    }
}

proof fn a_refused_group_refuses_all(
    verb: Verb,
    groups: Seq<Seq<Seq<char>>>,
    options: OptionsView,
    index: int,
)
    requires
        0 <= index < groups.len(),
        with_option(verb, groups[index], no_options()) is Err,
    ensures
        after_groups(verb, groups, options) is Err,
    decreases groups.len(),
{
    a_group_says_one_thing(verb, groups[0], options);
    if index > 0 {
        if let Ok(next) = with_option(verb, groups[0], options) {
            assert(groups.skip(1)[index - 1] == groups[index]);
            a_refused_group_refuses_all(verb, groups.skip(1), next, index - 1);
        }
    }
}

/// The names tell all that can be said.
proof fn names_tell_all(left: OptionsView, right: OptionsView)
    requires
        said(left, "--db"@) == said(right, "--db"@),
        said(left, "--run"@) == said(right, "--run"@),
        said(left, "--at"@) == said(right, "--at"@),
        said(left, "--child"@) == said(right, "--child"@),
        said(left, "--mode"@) == said(right, "--mode"@),
        said(left, "--left"@) == said(right, "--left"@),
        said(left, "--right"@) == said(right, "--right"@),
        said(left, "--demo"@) == said(right, "--demo"@),
    ensures
        left == right,
{
    names_differ();
}

/// The lists hold the same groups.
pub open spec fn same_groups(
    left: Seq<Seq<Seq<char>>>,
    right: Seq<Seq<Seq<char>>>,
) -> bool {
    forall|group: Seq<Seq<char>>| #[trigger] left.contains(group) <==> right.contains(group)
}

proof fn the_same_is_said(
    verb: Verb,
    left: Seq<Seq<Seq<char>>>,
    right: Seq<Seq<Seq<char>>>,
    name: Seq<char>,
)
    requires
        no_repeats(left),
        no_repeats(right),
        same_groups(left, right),
        after_groups(verb, left, no_options()) is Ok,
        after_groups(verb, right, no_options()) is Ok,
    ensures
        said(after_groups(verb, left, no_options())->Ok_0, name) == said(
            after_groups(verb, right, no_options())->Ok_0,
            name,
        ),
{
    groups_say_what_they_say(verb, left, no_options());
    groups_say_what_they_say(verb, right, no_options());
    if exists|i: int| 0 <= i < left.len() && (#[trigger] left[i])[0] == name {
        let i = choose|i: int| 0 <= i < left.len() && (#[trigger] left[i])[0] == name;
        assert(left.contains(left[i]));
        assert(right.contains(left[i]));
        let j = choose|j: int| 0 <= j < right.len() && right[j] == left[i];
        assert(said(after_groups(verb, right, no_options())->Ok_0, right[j][0]) == says(
            verb,
            right[j],
        ));
    } else {
        assert forall|j: int| 0 <= j < right.len() implies (#[trigger] right[j])[0] != name by {
            assert(right.contains(right[j]));
            assert(left.contains(right[j]));
            let i = choose|i: int| 0 <= i < left.len() && left[i] == right[j];
            assert(left[i][0] != name);
        }
    }
}

/// The order of the options does not change the command.
pub proof fn options_come_in_any_order(
    command: Seq<char>,
    left: Seq<Seq<Seq<char>>>,
    right: Seq<Seq<Seq<char>>>,
)
    requires
        verb_named(command) is Some,
        all_groups(verb_named(command)->0, left),
        all_groups(verb_named(command)->0, right),
        no_repeats(left),
        no_repeats(right),
        same_groups(left, right),
        command_in(seq![command] + spelled(left)) is Ok,
    ensures
        command_in(seq![command] + spelled(right)) == command_in(seq![command] + spelled(left)),
{
    let verb = verb_named(command)->0;
    let none = no_options();
    a_command_is_its_groups(command, left);
    a_command_is_its_groups(command, right);
    groups_say_what_they_say(verb, left, none);
    assert forall|j: int| 0 <= j < right.len() implies with_option(
        verb,
        #[trigger] right[j],
        none,
    ) is Ok by {
        assert(right.contains(right[j]));
        assert(left.contains(right[j]));
        let i = choose|i: int| 0 <= i < left.len() && left[i] == right[j];
        assert(with_option(verb, left[i], none) is Ok);
    }
    groups_that_say_something_are_taken(verb, right, none);
    the_same_is_said(verb, left, right, "--db"@);
    the_same_is_said(verb, left, right, "--run"@);
    the_same_is_said(verb, left, right, "--at"@);
    the_same_is_said(verb, left, right, "--child"@);
    the_same_is_said(verb, left, right, "--mode"@);
    the_same_is_said(verb, left, right, "--left"@);
    the_same_is_said(verb, left, right, "--right"@);
    the_same_is_said(verb, left, right, "--demo"@);
    names_tell_all(
        after_groups(verb, left, none)->Ok_0,
        after_groups(verb, right, none)->Ok_0,
    );
}

proof fn a_command_is_its_groups(command: Seq<char>, groups: Seq<Seq<Seq<char>>>)
    requires
        verb_named(command) is Some,
        all_groups(verb_named(command)->0, groups),
    ensures
        ({
            let verb = verb_named(command)->0;
            command_in(seq![command] + spelled(groups)) == match after_groups(
                verb,
                groups,
                no_options(),
            ) {
                Err(error) => Err::<CommandView, Seq<char>>(error),
                Ok(options) => crate::operator::command_of(verb, options),
            }
        }),
{
    let args = seq![command] + spelled(groups);
    assert(args[0] == command);
    assert(args.skip(1) =~= spelled(groups));
    groups_are_read_in_turn(verb_named(command)->0, groups, no_options());
    reveal_strlit("help");
    reveal_strlit("--help");
    reveal_strlit("-h");
    reveal_strlit("inspect");
    reveal_strlit("replay");
    reveal_strlit("fork");
    reveal_strlit("diff");
    reveal_strlit("debug");
    reveal_strlit("tui");
    assert("help"@[0] == 'h' && "--help"@[0] == '-' && "-h"@[0] == '-');
    assert(command[0] != 'h' && command[0] != '-') by {
        assert("inspect"@[0] == 'i' && "replay"@[0] == 'r' && "fork"@[0] == 'f');
        assert("diff"@[0] == 'd' && "debug"@[0] == 'd' && "tui"@[0] == 't');
    }
}

/// An option that a command has.
pub open spec fn own_option(verb: Verb, name: Seq<char>) -> bool {
    ||| name == "--db"@
    ||| name == "--run"@
    ||| name == "--at"@ && (verb == Verb::Replay || verb == Verb::Fork)
    ||| (name == "--child"@ || name == "--mode"@) && verb == Verb::Fork
    ||| (name == "--left"@ || name == "--right"@) && verb == Verb::Diff
    ||| name == "--demo"@ && verb == Verb::Tui
}

/// An option that a command does not have is refused, wherever it stands.
pub proof fn foreign_options_are_refused(
    command: Seq<char>,
    groups: Seq<Seq<Seq<char>>>,
    index: int,
)
    requires
        verb_named(command) is Some,
        all_groups(verb_named(command)->0, groups),
        0 <= index < groups.len(),
        !own_option(verb_named(command)->0, groups[index][0]),
    ensures
        command_in(seq![command] + spelled(groups)) is Err,
{
    a_command_is_its_groups(command, groups);
    a_refused_group_refuses_all(verb_named(command)->0, groups, no_options(), index);
}

/// The demonstration does not go with a run.
pub proof fn demonstrations_have_no_run(groups: Seq<Seq<Seq<char>>>, demo: int, run: int)
    requires
        all_groups(Verb::Tui, groups),
        no_repeats(groups),
        0 <= demo < groups.len(),
        0 <= run < groups.len(),
        groups[demo][0] == "--demo"@,
        groups[run][0] == "--run"@,
    ensures
        command_in(seq!["tui"@] + spelled(groups)) is Err,
{
    reveal_strlit("inspect");
    reveal_strlit("replay");
    reveal_strlit("fork");
    reveal_strlit("diff");
    reveal_strlit("debug");
    reveal_strlit("tui");
    assert("tui"@.len() == 3);
    assert(verb_named("tui"@) == Some(Verb::Tui));
    a_command_is_its_groups("tui"@, groups);
    let none = no_options();
    if after_groups(Verb::Tui, groups, none) is Ok {
        groups_say_what_they_say(Verb::Tui, groups, none);
        let all = after_groups(Verb::Tui, groups, none)->Ok_0;
        assert(said(all, groups[demo][0]) == says(Verb::Tui, groups[demo]));
        assert(said(all, groups[run][0]) == says(Verb::Tui, groups[run]));
        names_differ();
        assert(all.demo);
        assert(all.run is Some);
    }
}

/// No two of the options have the same name.
pub proof fn names_differ()
    ensures
        "--db"@ != "--run"@,
        "--db"@ != "--at"@,
        "--db"@ != "--child"@,
        "--db"@ != "--mode"@,
        "--db"@ != "--left"@,
        "--db"@ != "--right"@,
        "--db"@ != "--demo"@,
        "--run"@ != "--at"@,
        "--run"@ != "--child"@,
        "--run"@ != "--mode"@,
        "--run"@ != "--left"@,
        "--run"@ != "--right"@,
        "--run"@ != "--demo"@,
        "--at"@ != "--child"@,
        "--at"@ != "--mode"@,
        "--at"@ != "--left"@,
        "--at"@ != "--right"@,
        "--at"@ != "--demo"@,
        "--child"@ != "--mode"@,
        "--child"@ != "--left"@,
        "--child"@ != "--right"@,
        "--child"@ != "--demo"@,
        "--mode"@ != "--left"@,
        "--mode"@ != "--right"@,
        "--mode"@ != "--demo"@,
        "--left"@ != "--right"@,
        "--left"@ != "--demo"@,
        "--right"@ != "--demo"@,
{
    reveal_strlit("--db");
    reveal_strlit("--run");
    reveal_strlit("--at");
    reveal_strlit("--child");
    reveal_strlit("--mode");
    reveal_strlit("--left");
    reveal_strlit("--right");
    reveal_strlit("--demo");
    assert("--db"@.len() == 4 && "--db"@[2] == 'd');
    assert("--at"@.len() == 4 && "--at"@[2] == 'a');
    assert("--run"@.len() == 5);
    assert("--mode"@.len() == 6 && "--mode"@[2] == 'm');
    assert("--left"@.len() == 6 && "--left"@[2] == 'l');
    assert("--demo"@.len() == 6 && "--demo"@[2] == 'd');
    assert("--child"@.len() == 7 && "--child"@[2] == 'c');
    assert("--right"@.len() == 7 && "--right"@[2] == 'r');
}

} // verus!
