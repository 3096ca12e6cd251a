//! The runtime's configuration file.

use vstd::prelude::*;
use vstd::string::StringExecFns;

use crate::codec::outcome;
use crate::scan::{
    before_first, between, is_text, lines, lines_of, number_in, parse_number, sides, split_once,
    strip_marks, text_before, trim, trimmed,
};
use crate::text::{whitespace, blank, chars_of, decimal, is_blank, push_decimal, texts};

verus! {

// ---------------------------------------------------------------------------
// Settings.

#[derive(Clone, Debug, PartialEq, Eq)]
pub struct RuntimeSettings {
    pub max_concurrent_agents: u16,
    pub event_store: String,
    pub artifact_dir: String,
}

pub struct RuntimeSettingsView {
    pub max_concurrent_agents: u16,
    pub event_store: Seq<char>,
    pub artifact_dir: Seq<char>,
}

impl View for RuntimeSettings {
    type V = RuntimeSettingsView;

    open spec fn view(&self) -> RuntimeSettingsView {
        RuntimeSettingsView {
            max_concurrent_agents: self.max_concurrent_agents,
            event_store: self.event_store@,
            artifact_dir: self.artifact_dir@,
        }
    }
}

impl RuntimeSettingsView {
    pub open spec fn initial() -> RuntimeSettingsView {
        RuntimeSettingsView {
            max_concurrent_agents: 6,
            event_store: ".orynth/runtime.db"@,
            artifact_dir: ".orynth/artifacts"@,
        }
    }
}

impl Default for RuntimeSettings {
    fn default() -> (settings: RuntimeSettings)
        ensures
            settings@ == RuntimeSettingsView::initial(),
    {
        let settings = RuntimeSettings {
            max_concurrent_agents: 6,
            event_store: ".orynth/runtime.db".to_owned(),
            artifact_dir: ".orynth/artifacts".to_owned(),
        };
        settings
    }
}

#[derive(Clone, Debug, PartialEq, Eq)]
pub struct ModelSettings {
    pub provider: String,
    pub model: String,
    pub model_class: String,
}

pub struct ModelSettingsView {
    pub provider: Seq<char>,
    pub model: Seq<char>,
    pub model_class: Seq<char>,
}

impl View for ModelSettings {
    type V = ModelSettingsView;

    open spec fn view(&self) -> ModelSettingsView {
        ModelSettingsView {
            provider: self.provider@,
            model: self.model@,
            model_class: self.model_class@,
        }
    }
}

impl ModelSettingsView {
    pub open spec fn initial() -> ModelSettingsView {
        ModelSettingsView {
            provider: seq![],
            model: seq![],
            model_class: seq![],
        }
    }
}

impl Default for ModelSettings {
    fn default() -> (settings: ModelSettings)
        ensures
            settings@ == ModelSettingsView::initial(),
    {
        let settings = ModelSettings {
            provider: String::new(),
            model: String::new(),
            model_class: String::new(),
        };
        assert(settings@.provider =~= Seq::<char>::empty());
        assert(settings@.model =~= Seq::<char>::empty());
        assert(settings@.model_class =~= Seq::<char>::empty());
        settings
    }
}

#[derive(Clone, Debug, PartialEq, Eq)]
pub struct SchedulerSettings {
    pub mode: String,
    pub prefer_warm_cache: bool,
    pub promote_after_failures: u32,
}

pub struct SchedulerSettingsView {
    pub mode: Seq<char>,
    pub prefer_warm_cache: bool,
    pub promote_after_failures: u32,
}

impl View for SchedulerSettings {
    type V = SchedulerSettingsView;

    open spec fn view(&self) -> SchedulerSettingsView {
        SchedulerSettingsView {
            mode: self.mode@,
            prefer_warm_cache: self.prefer_warm_cache,
            promote_after_failures: self.promote_after_failures,
        }
    }
}

impl SchedulerSettingsView {
    pub open spec fn initial() -> SchedulerSettingsView {
        SchedulerSettingsView {
            mode: "economy"@,
            prefer_warm_cache: true,
            promote_after_failures: 3,
        }
    }
}

impl Default for SchedulerSettings {
    fn default() -> (settings: SchedulerSettings)
        ensures
            settings@ == SchedulerSettingsView::initial(),
    {
        let settings = SchedulerSettings {
            mode: "economy".to_owned(),
            prefer_warm_cache: true,
            promote_after_failures: 3,
        };
        settings
    }
}

#[derive(Clone, Debug, PartialEq, Eq)]
pub struct ContextSettings {
    pub semantic_invalidation: bool,
    pub subscriptions: bool,
}

pub struct ContextSettingsView {
    pub semantic_invalidation: bool,
    pub subscriptions: bool,
}

impl View for ContextSettings {
    type V = ContextSettingsView;

    open spec fn view(&self) -> ContextSettingsView {
        ContextSettingsView {
            semantic_invalidation: self.semantic_invalidation,
            subscriptions: self.subscriptions,
        }
    }
}

impl ContextSettingsView {
    pub open spec fn initial() -> ContextSettingsView {
        ContextSettingsView {
            semantic_invalidation: true,
            subscriptions: true,
        }
    }
}

impl Default for ContextSettings {
    fn default() -> (settings: ContextSettings)
        ensures
            settings@ == ContextSettingsView::initial(),
    {
        let settings = ContextSettings {
            semantic_invalidation: true,
            subscriptions: true,
        };
        settings
    }
}

#[derive(Clone, Debug, PartialEq, Eq)]
pub struct SecuritySettings {
    pub default_network: String,
}

pub struct SecuritySettingsView {
    pub default_network: Seq<char>,
}

impl View for SecuritySettings {
    type V = SecuritySettingsView;

    open spec fn view(&self) -> SecuritySettingsView {
        SecuritySettingsView {
            default_network: self.default_network@,
        }
    }
}

impl SecuritySettingsView {
    pub open spec fn initial() -> SecuritySettingsView {
        SecuritySettingsView {
            default_network: "deny"@,
        }
    }
}

impl Default for SecuritySettings {
    fn default() -> (settings: SecuritySettings)
        ensures
            settings@ == SecuritySettingsView::initial(),
    {
        let settings = SecuritySettings {
            default_network: "deny".to_owned(),
        };
        settings
    }
}

#[derive(Clone, Debug, PartialEq, Eq)]
pub struct PluginSettings {
    pub process: bool,
    pub mcp: bool,
    pub wasm: bool,
}

pub struct PluginSettingsView {
    pub process: bool,
    pub mcp: bool,
    pub wasm: bool,
}

impl View for PluginSettings {
    type V = PluginSettingsView;

    open spec fn view(&self) -> PluginSettingsView {
        PluginSettingsView {
            process: self.process,
            mcp: self.mcp,
            wasm: self.wasm,
        }
    }
}

impl PluginSettingsView {
    pub open spec fn initial() -> PluginSettingsView {
        PluginSettingsView {
            process: true,
            mcp: true,
            wasm: false,
        }
    }
}

impl Default for PluginSettings {
    fn default() -> (settings: PluginSettings)
        ensures
            settings@ == PluginSettingsView::initial(),
    {
        let settings = PluginSettings {
            process: true,
            mcp: true,
            wasm: false,
        };
        settings
    }
}

#[derive(Clone, Debug, PartialEq, Eq)]
pub struct ModelsSettings {
    pub manager: Option<ModelSettings>,
    pub worker: Option<ModelSettings>,
    pub local: Option<ModelSettings>,
}

pub struct ModelsSettingsView {
    pub manager: Option<ModelSettingsView>,
    pub worker: Option<ModelSettingsView>,
    pub local: Option<ModelSettingsView>,
}

pub open spec fn model_view(model: Option<ModelSettings>) -> Option<ModelSettingsView> {
    match model {
        Some(model) => Some(model@),
        None => None,
    }
}

impl View for ModelsSettings {
    type V = ModelsSettingsView;

    open spec fn view(&self) -> ModelsSettingsView {
        ModelsSettingsView {
            manager: model_view(self.manager),
            worker: model_view(self.worker),
            local: model_view(self.local),
        }
    }
}

impl Default for ModelsSettings {
    fn default() -> (settings: ModelsSettings)
        ensures
            settings@ == (ModelsSettingsView { manager: None, worker: None, local: None }),
    {
        ModelsSettings { manager: None, worker: None, local: None }
    }
}

#[derive(Clone, Debug, PartialEq, Eq)]
pub struct RuntimeConfig {
    pub runtime: RuntimeSettings,
    pub models: ModelsSettings,
    pub scheduler: SchedulerSettings,
    pub context: ContextSettings,
    pub security: SecuritySettings,
    pub plugins: PluginSettings,
}

pub struct RuntimeConfigView {
    pub runtime: RuntimeSettingsView,
    pub models: ModelsSettingsView,
    pub scheduler: SchedulerSettingsView,
    pub context: ContextSettingsView,
    pub security: SecuritySettingsView,
    pub plugins: PluginSettingsView,
}

impl View for RuntimeConfig {
    type V = RuntimeConfigView;

    open spec fn view(&self) -> RuntimeConfigView {
        RuntimeConfigView {
            runtime: self.runtime@,
            models: self.models@,
            scheduler: self.scheduler@,
            context: self.context@,
            security: self.security@,
            plugins: self.plugins@,
        }
    }
}

impl RuntimeConfigView {
    pub open spec fn initial() -> RuntimeConfigView {
        RuntimeConfigView {
            runtime: RuntimeSettingsView::initial(),
            models: ModelsSettingsView { manager: None, worker: None, local: None },
            scheduler: SchedulerSettingsView::initial(),
            context: ContextSettingsView::initial(),
            security: SecuritySettingsView::initial(),
            plugins: PluginSettingsView::initial(),
        }
    }
}

impl Default for RuntimeConfig {
    fn default() -> (config: RuntimeConfig)
        ensures
            config@ == RuntimeConfigView::initial(),
    {
        RuntimeConfig {
            runtime: RuntimeSettings::default(),
            models: ModelsSettings::default(),
            scheduler: SchedulerSettings::default(),
            context: ContextSettings::default(),
            security: SecuritySettings::default(),
            plugins: PluginSettings::default(),
        }
    }
}

// ---------------------------------------------------------------------------
// Errors.

#[derive(Clone, Debug, PartialEq, Eq)]
pub enum ConfigError {
    Parse(String),
    Read(String),
    Invalid(String),
}

pub enum ConfigErrorView {
    Parse(Seq<char>),
    Read(Seq<char>),
    Invalid(Seq<char>),
}

impl View for ConfigError {
    type V = ConfigErrorView;

    open spec fn view(&self) -> ConfigErrorView {
        match *self {
            ConfigError::Parse(message) => ConfigErrorView::Parse(message@),
            ConfigError::Read(message) => ConfigErrorView::Read(message@),
            ConfigError::Invalid(message) => ConfigErrorView::Invalid(message@),
        }
    }
}

impl ConfigErrorView {
    pub open spec fn text(self) -> Seq<char> {
        match self {
            ConfigErrorView::Parse(message) => "configuration parse failed: "@ + message,
            ConfigErrorView::Read(message) => "configuration read failed: "@ + message,
            ConfigErrorView::Invalid(message) => "invalid configuration: "@ + message,
        }
    }
}

impl ConfigError {
    pub fn to_text(&self) -> (text: String)
        ensures
            text@ == self@.text(),
    {
        match self {
            ConfigError::Parse(message) => crate::text::joined(
                "configuration parse failed: ",
                message.as_str(),
            ),
            ConfigError::Read(message) => crate::text::joined(
                "configuration read failed: ",
                message.as_str(),
            ),
            ConfigError::Invalid(message) => crate::text::joined(
                "invalid configuration: ",
                message.as_str(),
            ),
        }
    }
}

/// A complaint about a line.
pub open spec fn at_line(line: nat, subject: Seq<char>, complaint: Seq<char>) -> ConfigErrorView {
    ConfigErrorView::Parse("line "@ + decimal(line) + ": "@ + subject + complaint)
}

fn complain(line: usize, subject: &str, complaint: &str) -> (error: ConfigError)
    ensures
        error@ == at_line(line as nat, subject@, complaint@),
{
    let mut out = "line ".to_owned();
    push_decimal(&mut out, line as u128);
    out.append(": ");
    out.append(subject);
    out.append(complaint);
    ConfigError::Parse(out)
}

// ---------------------------------------------------------------------------
// Sections and values.

#[derive(Clone, Copy, Debug, PartialEq, Eq, Structural)]
pub enum ModelRole {
    Manager,
    Worker,
    Local,
}

#[derive(Clone, Copy, Debug, PartialEq, Eq, Structural)]
pub enum Section {
    Root,
    Runtime,
    Models(ModelRole),
    Scheduler,
    Context,
    Security,
    Plugins,
}

/// The section with a name.
pub open spec fn section_named(name: Seq<char>) -> Option<Section> {
    if name == "runtime"@ {
        Some(Section::Runtime)
    } else if name == "models.manager"@ {
        Some(Section::Models(ModelRole::Manager))
    } else if name == "models.worker"@ {
        Some(Section::Models(ModelRole::Worker))
    } else if name == "models.local"@ {
        Some(Section::Models(ModelRole::Local))
    } else if name == "scheduler"@ {
        Some(Section::Scheduler)
    } else if name == "context"@ {
        Some(Section::Context)
    } else if name == "security"@ {
        Some(Section::Security)
    } else if name == "plugins"@ {
        Some(Section::Plugins)
    } else {
        None
    }
}

impl Section {
    fn parse(name: &str) -> (section: Option<Section>)
        ensures
            section == section_named(name@),
    {
        if is_text(name, "runtime") {
            Some(Section::Runtime)
        } else if is_text(name, "models.manager") {
            Some(Section::Models(ModelRole::Manager))
        } else if is_text(name, "models.worker") {
            Some(Section::Models(ModelRole::Worker))
        } else if is_text(name, "models.local") {
            Some(Section::Models(ModelRole::Local))
        } else if is_text(name, "scheduler") {
            Some(Section::Scheduler)
        } else if is_text(name, "context") {
            Some(Section::Context)
        } else if is_text(name, "security") {
            Some(Section::Security)
        } else if is_text(name, "plugins") {
            Some(Section::Plugins)
        } else {
            None
        }
    }
}

/// A value in double quotes.
pub open spec fn string_value(value: Seq<char>, key: Seq<char>, line: nat) -> Result<
    Seq<char>,
    ConfigErrorView,
> {
    match between(trimmed(value), '"') {
        Some(inner) => Ok(inner),
        None => Err(at_line(line, key, " must be a quoted string"@)),
    }
}

pub open spec fn bool_value(value: Seq<char>, key: Seq<char>, line: nat) -> Result<
    bool,
    ConfigErrorView,
> {
    if value == "true"@ {
        Ok(true)
    } else if value == "false"@ {
        Ok(false)
    } else {
        Err(at_line(line, key, " must be true or false"@))
    }
}

pub open spec fn number_value(
    value: Seq<char>,
    largest: nat,
    key: Seq<char>,
    line: nat,
    complaint: Seq<char>,
) -> Result<nat, ConfigErrorView> {
    match number_in(value, 10, largest) {
        Some(number) => Ok(number),
        None => Err(at_line(line, key, complaint)),
    }
}

fn parse_string(value: &str, key: &str, line: usize) -> (result: Result<String, ConfigError>)
    ensures
        outcome(result) == string_value(value@, key@, line as nat),
{
    match strip_marks(trim(value).as_str(), '"') {
        Some(inner) => Ok(inner),
        None => Err(complain(line, key, " must be a quoted string")),
    }
}

fn parse_bool(value: &str, key: &str, line: usize) -> (result: Result<bool, ConfigError>)
    ensures
        outcome(result) == bool_value(value@, key@, line as nat),
{
    if is_text(value, "true") {
        Ok(true)
    } else if is_text(value, "false") {
        Ok(false)
    } else {
        Err(complain(line, key, " must be true or false"))
    }
}

fn parse_u16(value: &str, key: &str, line: usize) -> (result: Result<u16, ConfigError>)
    ensures
        match number_value(
            value@,
            u16::MAX as nat,
            key@,
            line as nat,
            " must be an unsigned 16-bit integer"@,
        ) {
            Ok(number) => result == Ok::<u16, ConfigError>(number as u16) && number <= u16::MAX,
            Err(refused) => result matches Err(error) && error@ == refused,
        },
{
    match parse_number(value, 10, 65535) {
        Some(number) => Ok(number as u16),
        None => Err(complain(line, key, " must be an unsigned 16-bit integer")),
    }
}

fn parse_u32(value: &str, key: &str, line: usize) -> (result: Result<u32, ConfigError>)
    ensures
        match number_value(
            value@,
            u32::MAX as nat,
            key@,
            line as nat,
            " must be an unsigned 32-bit integer"@,
        ) {
            Ok(number) => result == Ok::<u32, ConfigError>(number as u32) && number <= u32::MAX,
            Err(refused) => result matches Err(error) && error@ == refused,
        },
{
    match parse_number(value, 10, 4294967295) {
        Some(number) => Ok(number as u32),
        None => Err(complain(line, key, " must be an unsigned 32-bit integer")),
    }
}

// ---------------------------------------------------------------------------
// Entries.

pub open spec fn unknown_key<T>(key: Seq<char>, line: nat) -> Result<T, ConfigErrorView> {
    Err(at_line(line, "unknown key "@, key))
}

pub open spec fn runtime_entry(
    settings: RuntimeSettingsView,
    key: Seq<char>,
    value: Seq<char>,
    line: nat,
) -> Result<RuntimeSettingsView, ConfigErrorView> {
    if key == "max_concurrent_agents"@ {
        match number_value(
            value,
            u16::MAX as nat,
            key,
            line,
            " must be an unsigned 16-bit integer"@,
        ) {
            Ok(number) => Ok(
                RuntimeSettingsView { max_concurrent_agents: number as u16, ..settings },
            ),
            Err(error) => Err(error),
        }
    } else if key == "event_store"@ {
        match string_value(value, key, line) {
            Ok(value) => Ok(RuntimeSettingsView { event_store: value, ..settings }),
            Err(error) => Err(error),
        }
    } else if key == "artifact_dir"@ {
        match string_value(value, key, line) {
            Ok(value) => Ok(RuntimeSettingsView { artifact_dir: value, ..settings }),
            Err(error) => Err(error),
        }
    } else {
        unknown_key(key, line)
    }
}

impl RuntimeSettings {
    fn set(&mut self, key: &str, value: &str, line: usize) -> (result: Result<(), ConfigError>)
        ensures
            match runtime_entry(old(self)@, key@, value@, line as nat) {
                Ok(settings) => result is Ok && final(self)@ == settings,
                Err(refused) => result matches Err(error) && error@ == refused && final(self)@
                    == old(self)@,
            },
    {
        if is_text(key, "max_concurrent_agents") {
            self.max_concurrent_agents = parse_u16(value, key, line)?;
        } else if is_text(key, "event_store") {
            self.event_store = parse_string(value, key, line)?;
        } else if is_text(key, "artifact_dir") {
            self.artifact_dir = parse_string(value, key, line)?;
        } else {
            return Err(complain(line, "unknown key ", key));
        }
        Ok(())
    }
}

pub open spec fn model_entry(
    settings: ModelSettingsView,
    key: Seq<char>,
    value: Seq<char>,
    line: nat,
) -> Result<ModelSettingsView, ConfigErrorView> {
    if key == "provider"@ {
        match string_value(value, key, line) {
            Ok(value) => Ok(ModelSettingsView { provider: value, ..settings }),
            Err(error) => Err(error),
        }
    } else if key == "model"@ {
        match string_value(value, key, line) {
            Ok(value) => Ok(ModelSettingsView { model: value, ..settings }),
            Err(error) => Err(error),
        }
    } else if key == "class"@ {
        match string_value(value, key, line) {
            Ok(value) => Ok(ModelSettingsView { model_class: value, ..settings }),
            Err(error) => Err(error),
        }
    } else {
        unknown_key(key, line)
    }
}

impl ModelSettings {
    fn set(&mut self, key: &str, value: &str, line: usize) -> (result: Result<(), ConfigError>)
        ensures
            match model_entry(old(self)@, key@, value@, line as nat) {
                Ok(settings) => result is Ok && final(self)@ == settings,
                Err(refused) => result matches Err(error) && error@ == refused && final(self)@
                    == old(self)@,
            },
    {
        if is_text(key, "provider") {
            self.provider = parse_string(value, key, line)?;
        } else if is_text(key, "model") {
            self.model = parse_string(value, key, line)?;
        } else if is_text(key, "class") {
            self.model_class = parse_string(value, key, line)?;
        } else {
            return Err(complain(line, "unknown key ", key));
        }
        Ok(())
    }
}

pub open spec fn scheduler_entry(
    settings: SchedulerSettingsView,
    key: Seq<char>,
    value: Seq<char>,
    line: nat,
) -> Result<SchedulerSettingsView, ConfigErrorView> {
    if key == "mode"@ {
        match string_value(value, key, line) {
            Ok(value) => Ok(SchedulerSettingsView { mode: value, ..settings }),
            Err(error) => Err(error),
        }
    } else if key == "prefer_warm_cache"@ {
        match bool_value(value, key, line) {
            Ok(value) => Ok(SchedulerSettingsView { prefer_warm_cache: value, ..settings }),
            Err(error) => Err(error),
        }
    } else if key == "promote_after_failures"@ {
        match number_value(
            value,
            u32::MAX as nat,
            key,
            line,
            " must be an unsigned 32-bit integer"@,
        ) {
            Ok(number) => Ok(
                SchedulerSettingsView { promote_after_failures: number as u32, ..settings },
            ),
            Err(error) => Err(error),
        }
    } else {
        unknown_key(key, line)
    }
}

impl SchedulerSettings {
    fn set(&mut self, key: &str, value: &str, line: usize) -> (result: Result<(), ConfigError>)
        ensures
            match scheduler_entry(old(self)@, key@, value@, line as nat) {
                Ok(settings) => result is Ok && final(self)@ == settings,
                Err(refused) => result matches Err(error) && error@ == refused && final(self)@
                    == old(self)@,
            },
    {
        if is_text(key, "mode") {
            self.mode = parse_string(value, key, line)?;
        } else if is_text(key, "prefer_warm_cache") {
            self.prefer_warm_cache = parse_bool(value, key, line)?;
        } else if is_text(key, "promote_after_failures") {
            self.promote_after_failures = parse_u32(value, key, line)?;
        } else {
            return Err(complain(line, "unknown key ", key));
        }
        Ok(())
    }
}

pub open spec fn context_entry(
    settings: ContextSettingsView,
    key: Seq<char>,
    value: Seq<char>,
    line: nat,
) -> Result<ContextSettingsView, ConfigErrorView> {
    if key == "semantic_invalidation"@ {
        match bool_value(value, key, line) {
            Ok(value) => Ok(ContextSettingsView { semantic_invalidation: value, ..settings }),
            Err(error) => Err(error),
        }
    } else if key == "subscriptions"@ {
        match bool_value(value, key, line) {
            Ok(value) => Ok(ContextSettingsView { subscriptions: value, ..settings }),
            Err(error) => Err(error),
        }
    } else {
        unknown_key(key, line)
    }
}

impl ContextSettings {
    fn set(&mut self, key: &str, value: &str, line: usize) -> (result: Result<(), ConfigError>)
        ensures
            match context_entry(old(self)@, key@, value@, line as nat) {
                Ok(settings) => result is Ok && final(self)@ == settings,
                Err(refused) => result matches Err(error) && error@ == refused && final(self)@
                    == old(self)@,
            },
    {
        if is_text(key, "semantic_invalidation") {
            self.semantic_invalidation = parse_bool(value, key, line)?;
        } else if is_text(key, "subscriptions") {
            self.subscriptions = parse_bool(value, key, line)?;
        } else {
            return Err(complain(line, "unknown key ", key));
        }
        Ok(())
    }
}

pub open spec fn security_entry(
    settings: SecuritySettingsView,
    key: Seq<char>,
    value: Seq<char>,
    line: nat,
) -> Result<SecuritySettingsView, ConfigErrorView> {
    if key == "default_network"@ {
        match string_value(value, key, line) {
            Ok(value) => Ok(SecuritySettingsView { default_network: value, ..settings }),
            Err(error) => Err(error),
        }
    } else {
        unknown_key(key, line)
    }
}

impl SecuritySettings {
    fn set(&mut self, key: &str, value: &str, line: usize) -> (result: Result<(), ConfigError>)
        ensures
            match security_entry(old(self)@, key@, value@, line as nat) {
                Ok(settings) => result is Ok && final(self)@ == settings,
                Err(refused) => result matches Err(error) && error@ == refused && final(self)@
                    == old(self)@,
            },
    {
        if is_text(key, "default_network") {
            self.default_network = parse_string(value, key, line)?;
        } else {
            return Err(complain(line, "unknown key ", key));
        }
        Ok(())
    }
}

pub open spec fn plugins_entry(
    settings: PluginSettingsView,
    key: Seq<char>,
    value: Seq<char>,
    line: nat,
) -> Result<PluginSettingsView, ConfigErrorView> {
    if key == "process"@ {
        match bool_value(value, key, line) {
            Ok(value) => Ok(PluginSettingsView { process: value, ..settings }),
            Err(error) => Err(error),
        }
    } else if key == "mcp"@ {
        match bool_value(value, key, line) {
            Ok(value) => Ok(PluginSettingsView { mcp: value, ..settings }),
            Err(error) => Err(error),
        }
    } else if key == "wasm"@ {
        match bool_value(value, key, line) {
            Ok(value) => Ok(PluginSettingsView { wasm: value, ..settings }),
            Err(error) => Err(error),
        }
    } else {
        unknown_key(key, line)
    }
}

impl PluginSettings {
    fn set(&mut self, key: &str, value: &str, line: usize) -> (result: Result<(), ConfigError>)
        ensures
            match plugins_entry(old(self)@, key@, value@, line as nat) {
                Ok(settings) => result is Ok && final(self)@ == settings,
                Err(refused) => result matches Err(error) && error@ == refused && final(self)@
                    == old(self)@,
            },
    {
        if is_text(key, "process") {
            self.process = parse_bool(value, key, line)?;
        } else if is_text(key, "mcp") {
            self.mcp = parse_bool(value, key, line)?;
        } else if is_text(key, "wasm") {
            self.wasm = parse_bool(value, key, line)?;
        } else {
            return Err(complain(line, "unknown key ", key));
        }
        Ok(())
    }
}

/// A model's settings with one entry set.
pub open spec fn role_entry(
    model: Option<ModelSettingsView>,
    key: Seq<char>,
    value: Seq<char>,
    line: nat,
) -> Result<Option<ModelSettingsView>, ConfigErrorView> {
    let before = match model {
        Some(model) => model,
        None => ModelSettingsView::initial(),
    };
    match model_entry(before, key, value, line) {
        Ok(model) => Ok(Some(model)),
        Err(error) => Err(error),
    }
}

/// The configuration with one entry of a section set.
pub open spec fn with_entry(
    config: RuntimeConfigView,
    section: Section,
    key: Seq<char>,
    value: Seq<char>,
    line: nat,
) -> Result<RuntimeConfigView, ConfigErrorView> {
    match section {
        Section::Root => Err(
            ConfigErrorView::Parse(
                "line "@ + decimal(line) + ": "@ + ("key "@ + key) + " must be inside a section"@,
            ),
        ),
        Section::Runtime => match runtime_entry(config.runtime, key, value, line) {
            Ok(runtime) => Ok(RuntimeConfigView { runtime, ..config }),
            Err(error) => Err(error),
        },
        Section::Models(ModelRole::Manager) => match role_entry(
            config.models.manager,
            key,
            value,
            line,
        ) {
            Ok(manager) => Ok(
                RuntimeConfigView {
                    models: ModelsSettingsView { manager, ..config.models },
                    ..config
                },
            ),
            Err(error) => Err(error),
        },
        Section::Models(ModelRole::Worker) => match role_entry(
            config.models.worker,
            key,
            value,
            line,
        ) {
            Ok(worker) => Ok(
                RuntimeConfigView {
                    models: ModelsSettingsView { worker, ..config.models },
                    ..config
                },
            ),
            Err(error) => Err(error),
        },
        Section::Models(ModelRole::Local) => match role_entry(
            config.models.local,
            key,
            value,
            line,
        ) {
            Ok(local) => Ok(
                RuntimeConfigView {
                    models: ModelsSettingsView { local, ..config.models },
                    ..config
                },
            ),
            Err(error) => Err(error),
        },
        Section::Scheduler => match scheduler_entry(config.scheduler, key, value, line) {
            Ok(scheduler) => Ok(RuntimeConfigView { scheduler, ..config }),
            Err(error) => Err(error),
        },
        Section::Context => match context_entry(config.context, key, value, line) {
            Ok(context) => Ok(RuntimeConfigView { context, ..config }),
            Err(error) => Err(error),
        },
        Section::Security => match security_entry(config.security, key, value, line) {
            Ok(security) => Ok(RuntimeConfigView { security, ..config }),
            Err(error) => Err(error),
        },
        Section::Plugins => match plugins_entry(config.plugins, key, value, line) {
            Ok(plugins) => Ok(RuntimeConfigView { plugins, ..config }),
            Err(error) => Err(error),
        },
    }
}

/// Sets one entry of a model's settings.
fn set_role(target: &mut Option<ModelSettings>, key: &str, value: &str, line: usize) -> (result:
    Result<(), ConfigError>)
    ensures
        match role_entry(model_view(*old(target)), key@, value@, line as nat) {
            Ok(model) => result is Ok && model_view(*final(target)) == model,
            Err(refused) => result matches Err(error) && error@ == refused,
        },
{
    let mut taken: Option<ModelSettings> = None;
    std::mem::swap(target, &mut taken);
    let mut model = match taken {
        Some(model) => model,
        None => ModelSettings::default(),
    };
    model.set(key, value, line)?;
    *target = Some(model);
    Ok(())
}

/// The part of a line that counts.
pub open spec fn meaning(line: Seq<char>) -> Seq<char> {
    trimmed(before_first(line, '#'))
}

/// What has been read: the configuration so far and the section it is in.
pub struct Reading {
    pub config: RuntimeConfigView,
    pub section: Section,
}

/// One more line.
pub open spec fn read_line(reading: Reading, raw: Seq<char>, number: nat) -> Result<
    Reading,
    ConfigErrorView,
> {
    let line = meaning(raw);
    if line.len() == 0 {
        Ok(reading)
    } else if line[0] == '[' {
        if line.last() != ']' {
            Err(at_line(number, "section header must end with ]"@, seq![]))
        } else {
            let name = line.subrange(1, line.len() - 1);
            match section_named(name) {
                Some(section) => Ok(Reading { section, ..reading }),
                None => Err(at_line(number, "unknown section ["@, name + "]"@)),
            }
        }
    } else {
        match sides(line, '=') {
            None => Err(at_line(number, "expected key = value"@, seq![])),
            Some((left, right)) => match with_entry(
                reading.config,
                reading.section,
                trimmed(left),
                trimmed(right),
                number,
            ) {
                Ok(config) => Ok(Reading { config, ..reading }),
                Err(error) => Err(error),
            },
        }
    }
}

/// The lines up to the first that cannot be read.
pub open spec fn read_lines(list: Seq<Seq<char>>) -> Result<Reading, ConfigErrorView>
    decreases list.len(),
{
    if list.len() == 0 {
        Ok(Reading { config: RuntimeConfigView::initial(), section: Section::Root })
    } else {
        match read_lines(list.drop_last()) {
            Ok(before) => read_line(before, list.last(), list.len()),
            Err(error) => Err(error),
        }
    }
}

/// What a configuration is refused for, if it is.
pub open spec fn invalidity(config: RuntimeConfigView) -> Option<Seq<char>> {
    if config.runtime.max_concurrent_agents == 0 {
        Some("runtime.max_concurrent_agents must be greater than zero"@)
    } else if blank(config.runtime.event_store) {
        Some("runtime.event_store must not be empty"@)
    } else if blank(config.runtime.artifact_dir) {
        Some("runtime.artifact_dir must not be empty"@)
    } else if blank(config.scheduler.mode) {
        Some("scheduler.mode must not be empty"@)
    } else if config.scheduler.promote_after_failures == 0 {
        Some("scheduler.promote_after_failures must be greater than zero"@)
    } else if blank(config.security.default_network) {
        Some("security.default_network must not be empty"@)
    } else {
        None
    }
}

/// The configuration that a source describes.
pub open spec fn configured(source: Seq<char>) -> Result<RuntimeConfigView, ConfigErrorView> {
    match read_lines(lines_of(source)) {
        Err(error) => Err(error),
        Ok(reading) => match invalidity(reading.config) {
            Some(message) => Err(ConfigErrorView::Invalid(message)),
            None => Ok(reading.config),
        },
    }
}

proof fn unread_line_stays(list: Seq<Seq<char>>, count: int)
    requires
        0 <= count <= list.len(),
        read_lines(list.take(count)) is Err,
    ensures
        read_lines(list) == read_lines(list.take(count)),
    decreases list.len(),
{
    if count < list.len() {
        assert(list.drop_last().take(count) =~= list.take(count));
        unread_line_stays(list.drop_last(), count);
    } else {
        assert(list.take(count) =~= list);
    }
}

impl RuntimeConfig {
    fn set(&mut self, section: Section, key: &str, value: &str, line: usize) -> (result: Result<
        (),
        ConfigError,
    >)
        ensures
            match with_entry(old(self)@, section, key@, value@, line as nat) {
                Ok(config) => result is Ok && final(self)@ == config,
                Err(refused) => result matches Err(error) && error@ == refused,
            },
    {
        match section {
            Section::Root => Err(
                complain(
                    line,
                    crate::text::joined("key ", key).as_str(),
                    " must be inside a section",
                ),
            ),
            Section::Runtime => self.runtime.set(key, value, line),
            Section::Models(ModelRole::Manager) => set_role(
                &mut self.models.manager,
                key,
                value,
                line,
            ),
            Section::Models(ModelRole::Worker) => set_role(
                &mut self.models.worker,
                key,
                value,
                line,
            ),
            Section::Models(ModelRole::Local) => set_role(
                &mut self.models.local,
                key,
                value,
                line,
            ),
            Section::Scheduler => self.scheduler.set(key, value, line),
            Section::Context => self.context.set(key, value, line),
            Section::Security => self.security.set(key, value, line),
            Section::Plugins => self.plugins.set(key, value, line),
        }
    }

    /// Reads a configuration: sections in brackets, entries `key = value`,
    /// comments from `#` on. What is not said has its default.
    pub fn parse(source: &str) -> (result: Result<RuntimeConfig, ConfigError>)
        ensures
            outcome(result) == configured(source@),
    {
        let list = lines(source);
        let ghost views = texts(list@);
        let mut config = RuntimeConfig::default();
        let mut section = Section::Root;
        let mut index: usize = 0;
        assert(views.take(0) =~= Seq::<Seq<char>>::empty());
        while index < list.len()
            invariant
                index <= list@.len(),
                views == texts(list@),
                views == lines_of(source@),
                read_lines(views.take(index as int)) == Ok::<Reading, ConfigErrorView>(
                    Reading { config: config@, section },
                ),
            decreases list.len() - index,
        {
            let raw = list[index].as_str();
            let number: usize = index + 1;
            proof {
                let now = views.take(index + 1);
                assert(now.drop_last() =~= views.take(index as int));
                assert(now.last() == raw@);
                if read_lines(now) is Err {
                    unread_line_stays(views, index + 1);
                }
            }
            let line = trim(text_before(raw, '#').as_str());
            let chars = chars_of(line.as_str());
            if chars.len() > 0 {
                if chars[0] == '[' {
                    if chars[chars.len() - 1] != ']' {
                        let none = "";
                        proof {
                            reveal_strlit("");
                            assert(none@ =~= Seq::<char>::empty());
                        }
                        return Err(complain(number, "section header must end with ]", none));
                    }
                    let name = if chars.len() >= 2 {
                        crate::scan::part(&chars, 1, chars.len() - 1)
                    } else {
                        String::new()
                    };
                    match Section::parse(name.as_str()) {
                        Some(found) => {
                            section = found;
                        },
                        None => {
                            return Err(
                                complain(
                                    number,
                                    "unknown section [",
                                    crate::text::joined(name.as_str(), "]").as_str(),
                                ),
                            );
                        },
                    }
                } else {
                    match split_once(line.as_str(), '=') {
                        None => {
                            let none = "";
                            proof {
                                reveal_strlit("");
                                assert(none@ =~= Seq::<char>::empty());
                            }
                            return Err(complain(number, "expected key = value", none));
                        },
                        Some((left, right)) => {
                            let key = trim(left.as_str());
                            let value = trim(right.as_str());
                            config.set(section, key.as_str(), value.as_str(), number)?;
                        },
                    }
                }
            }
            index += 1;
        }
        assert(views.take(views.len() as int) =~= views);
        config.validate()?;
        Ok(config)
    }

    /// Checks that limits are positive and names are not blank.
    pub fn validate(&self) -> (result: Result<(), ConfigError>)
        ensures
            match invalidity(self@) {
                Some(message) => result matches Err(error) && error@ == ConfigErrorView::Invalid(
                    message,
                ),
                None => result is Ok,
            },
    {
        if self.runtime.max_concurrent_agents == 0 {
            return Err(
                ConfigError::Invalid(
                    "runtime.max_concurrent_agents must be greater than zero".to_owned(),
                ),
            );
        }
        if is_blank(self.runtime.event_store.as_str()) {
            return Err(
                ConfigError::Invalid("runtime.event_store must not be empty".to_owned()),
            );
        }
        if is_blank(self.runtime.artifact_dir.as_str()) {
            return Err(
                ConfigError::Invalid("runtime.artifact_dir must not be empty".to_owned()),
            );
        }
        if is_blank(self.scheduler.mode.as_str()) {
            return Err(ConfigError::Invalid("scheduler.mode must not be empty".to_owned()));
        }
        if self.scheduler.promote_after_failures == 0 {
            return Err(
                ConfigError::Invalid(
                    "scheduler.promote_after_failures must be greater than zero".to_owned(),
                ),
            );
        }
        if is_blank(self.security.default_network.as_str()) {
            return Err(
                ConfigError::Invalid("security.default_network must not be empty".to_owned()),
            );
        }
        Ok(())
    }
}

/// The default configuration is valid.
pub proof fn defaults_are_valid()
    ensures
        invalidity(RuntimeConfigView::initial()) is None,
{
    reveal_strlit(".orynth/runtime.db");
    reveal_strlit(".orynth/artifacts");
    reveal_strlit("economy");
    reveal_strlit("deny");
    let config = RuntimeConfigView::initial();
    assert(!whitespace(config.runtime.event_store[0]));
    assert(!whitespace(config.runtime.artifact_dir[0]));
    assert(!whitespace(config.scheduler.mode[0]));
    assert(!whitespace(config.security.default_network[0]));
}

/// A source with no lines describes the default configuration.
pub proof fn nothing_said_is_the_default()
    ensures
        configured(seq![]) == Ok::<RuntimeConfigView, ConfigErrorView>(
            RuntimeConfigView::initial(),
        ),
{
    defaults_are_valid();
    assert(lines_of(Seq::<char>::empty()) =~= Seq::<Seq<char>>::empty());
}

/// Every configuration that is read is valid.
pub proof fn read_configurations_are_valid(source: Seq<char>)
    requires
        configured(source) is Ok,
    ensures
        invalidity(configured(source)->Ok_0) is None,
{
}

} // verus!
