//! What a configuration file says.

use vstd::prelude::*;

use crate::config::{
    invalidity, read_line, section_named, with_entry, ConfigErrorView, ContextSettingsView,
    ModelRole, ModelSettingsView, ModelsSettingsView, PluginSettingsView, Reading,
    RuntimeConfigView, RuntimeSettingsView, SchedulerSettingsView, Section, SecuritySettingsView,
};
use crate::numerals::{decimal_reads_back, number_reads_back};
use crate::scan::{before_first, place_is_first, trimmed, trimmed_end, trimmed_start};
use crate::text::{blank, decimal, whitespace};

verus! {

/// The text in double quotes.
pub open spec fn in_quotes(text: Seq<char>) -> Seq<char> {
    seq!['"'] + text + seq!['"']
}

/// A truth value as it is written.
pub open spec fn spelled(value: bool) -> Seq<char> {
    if value {
        "true"@
    } else {
        "false"@
    }
}

proof fn bare_texts_trim_to_themselves(text: Seq<char>)
    requires
        text.len() > 0,
        !whitespace(text[0]),
        !whitespace(text.last()),
    ensures
        trimmed(text) == text,
{
}

proof fn quoted_texts_are_read(text: Seq<char>, key: Seq<char>, line: nat)
    ensures
        crate::config::string_value(in_quotes(text), key, line) == Ok::<
            Seq<char>,
            ConfigErrorView,
        >(text),
{
    let whole = in_quotes(text);
    assert(whole[0] == '"' && whole.last() == '"');
    bare_texts_trim_to_themselves(whole);
    assert(whole.subrange(1, whole.len() - 1) =~= text);
}

proof fn numbers_are_read(value: nat, largest: nat)
    requires
        value <= largest,
    ensures
        crate::scan::number_in(decimal(value), 10, largest) == Some(value),
{
    decimal_reads_back(value);
    number_reads_back(decimal(value), 10, value, largest);
}

/// The settings of the runtime read back: each entry sets what it names, to
/// the value that is written, and nothing else.
pub proof fn runtime_entries_read_back(
    config: RuntimeConfigView,
    number: u16,
    text: Seq<char>,
    line: nat,
)
    ensures
        with_entry(
            config,
            Section::Runtime,
            "max_concurrent_agents"@,
            decimal(number as nat),
            line,
        ) == Ok::<RuntimeConfigView, ConfigErrorView>(
            RuntimeConfigView {
                runtime: RuntimeSettingsView { max_concurrent_agents: number, ..config.runtime },
                ..config
            },
        ),
        with_entry(config, Section::Runtime, "event_store"@, in_quotes(text), line) == Ok::<
            RuntimeConfigView,
            ConfigErrorView,
        >(
            RuntimeConfigView {
                runtime: RuntimeSettingsView { event_store: text, ..config.runtime },
                ..config
            },
        ),
        with_entry(config, Section::Runtime, "artifact_dir"@, in_quotes(text), line) == Ok::<
            RuntimeConfigView,
            ConfigErrorView,
        >(
            RuntimeConfigView {
                runtime: RuntimeSettingsView { artifact_dir: text, ..config.runtime },
                ..config
            },
        ),
{
    reveal_strlit("max_concurrent_agents");
    reveal_strlit("event_store");
    reveal_strlit("artifact_dir");
    assert("max_concurrent_agents"@.len() == 21 && "event_store"@.len() == 11);
    assert("artifact_dir"@.len() == 12);
    numbers_are_read(number as nat, u16::MAX as nat);
    quoted_texts_are_read(text, "event_store"@, line);
    quoted_texts_are_read(text, "artifact_dir"@, line);
}

/// A model of the configuration, by its role.
pub open spec fn model_for(
    models: ModelsSettingsView,
    role: ModelRole,
) -> Option<ModelSettingsView> {
    match role {
        ModelRole::Manager => models.manager,
        ModelRole::Worker => models.worker,
        ModelRole::Local => models.local,
    }
}

/// What is set of a model, or nothing yet.
pub open spec fn model_so_far(
    models: ModelsSettingsView,
    role: ModelRole,
) -> ModelSettingsView {
    match model_for(models, role) {
        Some(model) => model,
        None => ModelSettingsView { provider: seq![], model: seq![], model_class: seq![] },
    }
}

/// The settings of a model read back, and leave the other models and all other
/// settings as they were.
pub proof fn model_entries_read_back(
    config: RuntimeConfigView,
    role: ModelRole,
    other: ModelRole,
    text: Seq<char>,
    line: nat,
)
    ensures
        with_entry(config, Section::Models(role), "provider"@, in_quotes(text), line) matches Ok(
            now,
        ) && {
            &&& now == (RuntimeConfigView { models: now.models, ..config })
            &&& model_for(now.models, role) == Some(
                ModelSettingsView { provider: text, ..model_so_far(config.models, role) },
            )
            &&& other != role ==> model_for(now.models, other) == model_for(config.models, other)
        },
        with_entry(config, Section::Models(role), "model"@, in_quotes(text), line) matches Ok(
            now,
        ) && {
            &&& now == (RuntimeConfigView { models: now.models, ..config })
            &&& model_for(now.models, role) == Some(
                ModelSettingsView { model: text, ..model_so_far(config.models, role) },
            )
            &&& other != role ==> model_for(now.models, other) == model_for(config.models, other)
        },
        with_entry(config, Section::Models(role), "class"@, in_quotes(text), line) matches Ok(
            now,
        ) && {
            &&& now == (RuntimeConfigView { models: now.models, ..config })
            &&& model_for(now.models, role) == Some(
                ModelSettingsView { model_class: text, ..model_so_far(config.models, role) },
            )
            &&& other != role ==> model_for(now.models, other) == model_for(config.models, other)
        },
{
    reveal_strlit("provider");
    reveal_strlit("model");
    reveal_strlit("class");
    assert("provider"@.len() == 8 && "model"@.len() == 5 && "class"@.len() == 5);
    assert("model"@[0] == 'm' && "class"@[0] == 'c');
    quoted_texts_are_read(text, "provider"@, line);
    quoted_texts_are_read(text, "model"@, line);
    quoted_texts_are_read(text, "class"@, line);
}

/// The settings of the scheduler, the context, security and the plugins read
/// back, each alone.
pub proof fn other_entries_read_back(
    config: RuntimeConfigView,
    number: u32,
    flag: bool,
    text: Seq<char>,
    line: nat,
)
    ensures
        with_entry(config, Section::Scheduler, "mode"@, in_quotes(text), line) == Ok::<
            RuntimeConfigView,
            ConfigErrorView,
        >(
            RuntimeConfigView {
                scheduler: SchedulerSettingsView { mode: text, ..config.scheduler },
                ..config
            },
        ),
        with_entry(config, Section::Scheduler, "prefer_warm_cache"@, spelled(flag), line) == Ok::<
            RuntimeConfigView,
            ConfigErrorView,
        >(
            RuntimeConfigView {
                scheduler: SchedulerSettingsView { prefer_warm_cache: flag, ..config.scheduler },
                ..config
            },
        ),
        with_entry(
            config,
            Section::Scheduler,
            "promote_after_failures"@,
            decimal(number as nat),
            line,
        ) == Ok::<RuntimeConfigView, ConfigErrorView>(
            RuntimeConfigView {
                scheduler: SchedulerSettingsView {
                    promote_after_failures: number,
                    ..config.scheduler
                },
                ..config
            },
        ),
        with_entry(config, Section::Context, "semantic_invalidation"@, spelled(flag), line)
            == Ok::<RuntimeConfigView, ConfigErrorView>(
            RuntimeConfigView {
                context: ContextSettingsView { semantic_invalidation: flag, ..config.context },
                ..config
            },
        ),
        with_entry(config, Section::Context, "subscriptions"@, spelled(flag), line) == Ok::<
            RuntimeConfigView,
            ConfigErrorView,
        >(
            RuntimeConfigView {
                context: ContextSettingsView { subscriptions: flag, ..config.context },
                ..config
            },
        ),
        with_entry(config, Section::Security, "default_network"@, in_quotes(text), line) == Ok::<
            RuntimeConfigView,
            ConfigErrorView,
        >(
            RuntimeConfigView {
                security: SecuritySettingsView { default_network: text },
                ..config
            },
        ),
        with_entry(config, Section::Plugins, "process"@, spelled(flag), line) == Ok::<
            RuntimeConfigView,
            ConfigErrorView,
        >(
            RuntimeConfigView {
                plugins: PluginSettingsView { process: flag, ..config.plugins },
                ..config
            },
        ),
        with_entry(config, Section::Plugins, "mcp"@, spelled(flag), line) == Ok::<
            RuntimeConfigView,
            ConfigErrorView,
        >(
            RuntimeConfigView {
                plugins: PluginSettingsView { mcp: flag, ..config.plugins },
                ..config
            },
        ),
        with_entry(config, Section::Plugins, "wasm"@, spelled(flag), line) == Ok::<
            RuntimeConfigView,
            ConfigErrorView,
        >(
            RuntimeConfigView {
                plugins: PluginSettingsView { wasm: flag, ..config.plugins },
                ..config
            },
        ),
{
    reveal_strlit("true");
    reveal_strlit("false");
    assert("true"@.len() == 4 && "false"@.len() == 5);
    reveal_strlit("mode");
    reveal_strlit("prefer_warm_cache");
    reveal_strlit("promote_after_failures");
    assert("mode"@.len() == 4 && "prefer_warm_cache"@.len() == 17);
    assert("promote_after_failures"@.len() == 22);
    reveal_strlit("semantic_invalidation");
    reveal_strlit("subscriptions");
    assert("semantic_invalidation"@.len() == 21 && "subscriptions"@.len() == 13);
    reveal_strlit("process");
    reveal_strlit("mcp");
    reveal_strlit("wasm");
    assert("process"@.len() == 7 && "mcp"@.len() == 3 && "wasm"@.len() == 4);
    numbers_are_read(number as nat, u32::MAX as nat);
    quoted_texts_are_read(text, "mode"@, line);
    quoted_texts_are_read(text, "default_network"@, line);
}

/// A configuration is valid exactly where agents may run, the stores, the
/// scheduler's mode and the network's default are named, and promotion takes
/// at least one failure.
pub proof fn valid_configurations_name_what_is_needed(config: RuntimeConfigView)
    ensures
        invalidity(config) is None <==> {
            &&& config.runtime.max_concurrent_agents > 0
            &&& !blank(config.runtime.event_store)
            &&& !blank(config.runtime.artifact_dir)
            &&& !blank(config.scheduler.mode)
            &&& config.scheduler.promote_after_failures > 0
            &&& !blank(config.security.default_network)
        },
{
}

/// Nothing before the first occurrence.
pub open spec fn free_of(text: Seq<char>, c: char) -> bool {
    forall|i: int| 0 <= i < text.len() ==> text[i] != c
}

/// A line `key = value` sets that entry of the section it stands in; the
/// section stays.
pub proof fn lines_set_their_entry(
    reading: Reading,
    key: Seq<char>,
    value: Seq<char>,
    number: nat,
)
    requires
        key.len() > 0,
        key[0] != '[',
        forall|i: int| 0 <= i < key.len() ==> !whitespace(#[trigger] key[i]),
        free_of(key, '='),
        free_of(key, '#'),
        value.len() > 0,
        !whitespace(value[0]),
        !whitespace(value.last()),
        free_of(value, '#'),
    ensures
        read_line(reading, key + " = "@ + value, number) == match with_entry(
            reading.config,
            reading.section,
            key,
            value,
            number,
        ) {
            Ok(config) => Ok::<Reading, ConfigErrorView>(
                Reading { config, section: reading.section },
            ),
            Err(error) => Err(error),
        },
{
    reveal_strlit(" = ");
    let line = key + " = "@ + value;
    assert(" = "@ =~= seq![' ', '=', ' ']);
    assert forall|i: int| 0 <= i < line.len() implies line[i] != '#' by {
        if i < key.len() {
            assert(line[i] == key[i]);
        } else if i >= key.len() + 3 {
            assert(line[i] == value[i - key.len() - 3]);
        }
    }
    place_is_first(line, '#', line.len() as int);
    assert(before_first(line, '#') =~= line);
    assert(line[0] == key[0]);
    assert(line.last() == value.last());
    bare_texts_trim_to_themselves(line);
    assert forall|i: int| 0 <= i < key.len() + 1 implies line[i] != '=' by {
        if i < key.len() {
            assert(line[i] == key[i]);
        }
    }
    assert(line[key.len() as int + 1] == '=');
    place_is_first(line, '=', key.len() as int + 1);
    let left = line.take(key.len() as int + 1);
    let right = line.skip(key.len() as int + 2);
    assert(left =~= key.push(' '));
    assert(left[0] == key[0]);
    assert(trimmed_start(left) == left);
    assert(left.drop_last() =~= key);
    assert(trimmed_end(left) == trimmed_end(key));
    assert(key.last() == key[key.len() - 1]);
    assert(trimmed_end(key) == key);
    assert(right =~= seq![' '] + value);
    assert(right.skip(1) =~= value);
    assert(trimmed_start(right) == trimmed_start(value));
    bare_texts_trim_to_themselves(value);
}

/// Blank lines and lines that are all comment change nothing.
pub proof fn comments_change_nothing(reading: Reading, line: Seq<char>, number: nat)
    requires
        blank(line) && free_of(line, '#') || line.len() > 0 && line[0] == '#',
    ensures
        read_line(reading, line, number) == Ok::<Reading, ConfigErrorView>(reading),
{
    if line.len() > 0 && line[0] == '#' {
        place_is_first(line, '#', 0);
        assert(before_first(line, '#') =~= Seq::<char>::empty());
    } else {
        place_is_first(line, '#', line.len() as int);
        assert(before_first(line, '#') =~= line);
        crate::scan::blank_texts_trim_to_nothing(line);
    }
}

/// A section as its header names it.
pub open spec fn header_of(section: Section) -> Seq<char> {
    match section {
        Section::Root => seq![],
        Section::Runtime => "runtime"@,
        Section::Models(ModelRole::Manager) => "models.manager"@,
        Section::Models(ModelRole::Worker) => "models.worker"@,
        Section::Models(ModelRole::Local) => "models.local"@,
        Section::Scheduler => "scheduler"@,
        Section::Context => "context"@,
        Section::Security => "security"@,
        Section::Plugins => "plugins"@,
    }
}

proof fn headers_name_their_section(section: Section)
    requires
        section != Section::Root,
    ensures
        section_named(header_of(section)) == Some(section),
        free_of(header_of(section), '#'),
        header_of(section).len() > 0,
{
    reveal_strlit("runtime");
    reveal_strlit("models.manager");
    reveal_strlit("models.worker");
    reveal_strlit("models.local");
    reveal_strlit("scheduler");
    reveal_strlit("context");
    reveal_strlit("security");
    reveal_strlit("plugins");
    assert("runtime"@.len() == 7 && "models.manager"@.len() == 14);
    assert("models.worker"@.len() == 13 && "models.local"@.len() == 12);
    assert("scheduler"@.len() == 9 && "context"@.len() == 7);
    assert("security"@.len() == 8 && "plugins"@.len() == 7);
    assert("runtime"@[0] == 'r' && "context"@[0] == 'c' && "plugins"@[0] == 'p');
}

/// A header in brackets begins its section and sets nothing.
pub proof fn headers_begin_their_section(reading: Reading, section: Section, number: nat)
    requires
        section != Section::Root,
    ensures
        read_line(reading, seq!['['] + header_of(section) + seq![']'], number) == Ok::<
            Reading,
            ConfigErrorView,
        >(Reading { config: reading.config, section }),
{
    let name = header_of(section);
    let line = seq!['['] + name + seq![']'];
    headers_name_their_section(section);
    assert forall|i: int| 0 <= i < line.len() implies line[i] != '#' by {
        if 0 < i < line.len() - 1 {
            assert(line[i] == name[i - 1]);
        }
    }
    place_is_first(line, '#', line.len() as int);
    assert(before_first(line, '#') =~= line);
    assert(line[0] == '[' && line.last() == ']');
    bare_texts_trim_to_themselves(line);
    assert(line.subrange(1, line.len() - 1) =~= name);
}

} // verus!
