//! Contracts of isolated plugin adapters: manifests, bounded messages and the
//! registry. No transport is part of them.

use vstd::prelude::*;
use vstd::utf8::encode_utf8;

use crate::ids::{id_text, AgentId, PluginId, TaskId};
use crate::kernel::TrustOrigin;
use crate::scan::{begins_with, starts_with_text};
use crate::state::phrase;
use crate::table::{listed, listing, table_is_listed, Key, Table, Replica};
use crate::text::{blank, decimal, is_blank, joined, numbered};

verus! {

pub const PLUGIN_PROTOCOL_VERSION: u16 = 1;

pub const MAX_NAME_BYTES: usize = 256;

pub const MAX_CAPABILITIES: usize = 64;

pub const MAX_PLUGINS: usize = 256;

pub const MAX_MESSAGE_BYTES: usize = 1048576;

/// The longest resource name of a capability.
pub const MAX_RESOURCE_BYTES: usize = 65536;

#[derive(Clone, Copy, Debug, PartialEq, Eq, Structural)]
pub enum PluginKind {
    Builtin,
    Native,
    Process,
    Mcp,
    Wasm,
}

/// What a capability is about.
#[derive(Debug, PartialEq, Eq)]
pub enum CapabilityDomain {
    Filesystem,
    Named(String),
}

pub enum CapabilityDomainView {
    Filesystem,
    Named(Seq<char>),
}

impl View for CapabilityDomain {
    type V = CapabilityDomainView;

    open spec fn view(&self) -> CapabilityDomainView {
        match *self {
            CapabilityDomain::Filesystem => CapabilityDomainView::Filesystem,
            CapabilityDomain::Named(name) => CapabilityDomainView::Named(name@),
        }
    }
}

// ---------------------------------------------------------------------------
// Errors.

#[derive(Clone, Debug, PartialEq, Eq)]
pub enum PluginError {
    Invalid(&'static str),
    UnsupportedVersion(u16),
    TooLarge(usize),
    MessageTooLarge(usize),
    Protocol(String),
    Crashed(String),
    TimedOut,
    CapabilityDenied(String),
    ResourceExhausted(String),
    Duplicate(PluginId),
}

pub enum PluginErrorView {
    Invalid(Seq<char>),
    UnsupportedVersion(u16),
    TooLarge(nat),
    MessageTooLarge(nat),
    Protocol(Seq<char>),
    Crashed(Seq<char>),
    TimedOut,
    CapabilityDenied(Seq<char>),
    ResourceExhausted(Seq<char>),
    Duplicate(PluginId),
}

impl View for PluginError {
    type V = PluginErrorView;

    open spec fn view(&self) -> PluginErrorView {
        match *self {
            PluginError::Invalid(message) => PluginErrorView::Invalid(message@),
            PluginError::UnsupportedVersion(version) => PluginErrorView::UnsupportedVersion(
                version,
            ),
            PluginError::TooLarge(size) => PluginErrorView::TooLarge(size as nat),
            PluginError::MessageTooLarge(size) => PluginErrorView::MessageTooLarge(size as nat),
            PluginError::Protocol(message) => PluginErrorView::Protocol(message@),
            PluginError::Crashed(message) => PluginErrorView::Crashed(message@),
            PluginError::TimedOut => PluginErrorView::TimedOut,
            PluginError::CapabilityDenied(message) => PluginErrorView::CapabilityDenied(message@),
            PluginError::ResourceExhausted(message) => PluginErrorView::ResourceExhausted(
                message@,
            ),
            PluginError::Duplicate(id) => PluginErrorView::Duplicate(id),
        }
    }
}

impl PluginErrorView {
    pub open spec fn text(self) -> Seq<char> {
        match self {
            PluginErrorView::Invalid(message) => "invalid plugin contract: "@ + message,
            PluginErrorView::UnsupportedVersion(version) =>
                "unsupported plugin protocol version "@ + decimal(version as nat),
            PluginErrorView::TooLarge(size) => "plugin value is too large: "@ + decimal(size),
            PluginErrorView::MessageTooLarge(size) => "plugin message is too large: "@ + decimal(
                size,
            ),
            PluginErrorView::Protocol(message) => "plugin protocol error: "@ + message,
            PluginErrorView::Crashed(message) => "plugin crashed: "@ + message,
            PluginErrorView::TimedOut => "plugin invocation timed out"@,
            PluginErrorView::CapabilityDenied(message) => "plugin capability denied: "@ + message,
            PluginErrorView::ResourceExhausted(message) => "plugin resource limit exceeded: "@
                + message,
            PluginErrorView::Duplicate(id) => "plugin "@ + id_text("plugin"@, id.0)
                + " is already registered"@,
        }
    }
}

impl PluginError {
    pub fn to_text(&self) -> (text: String)
        ensures
            text@ == self@.text(),
    {
        match self {
            PluginError::Invalid(message) => joined("invalid plugin contract: ", message),
            PluginError::UnsupportedVersion(version) => numbered(
                "unsupported plugin protocol version ",
                *version as u128,
            ),
            PluginError::TooLarge(size) => numbered(
                "plugin value is too large: ",
                *size as u128,
            ),
            PluginError::MessageTooLarge(size) => numbered(
                "plugin message is too large: ",
                *size as u128,
            ),
            PluginError::Protocol(message) => joined(
                "plugin protocol error: ",
                message.as_str(),
            ),
            PluginError::Crashed(message) => joined("plugin crashed: ", message.as_str()),
            PluginError::TimedOut => "plugin invocation timed out".to_owned(),
            PluginError::CapabilityDenied(message) => joined(
                "plugin capability denied: ",
                message.as_str(),
            ),
            PluginError::ResourceExhausted(message) => joined(
                "plugin resource limit exceeded: ",
                message.as_str(),
            ),
            PluginError::Duplicate(id) => phrase(
                "plugin ",
                id.to_text().as_str(),
                " is already registered",
            ),
        }
    }
}

/// A check's result, over what it refuses.
pub open spec fn checked(
    result: Result<(), PluginError>,
    refusal: Option<PluginErrorView>,
) -> bool {
    match refusal {
        Some(refused) => result matches Err(error) && error@ == refused,
        None => result is Ok,
    }
}

// ---------------------------------------------------------------------------
// Manifests.

pub open spec fn name_refusal(field: Seq<char>, value: Seq<char>) -> Option<PluginErrorView> {
    if blank(value) {
        Some(PluginErrorView::Invalid(field))
    } else if encode_utf8(value).len() > MAX_NAME_BYTES {
        Some(PluginErrorView::TooLarge(encode_utf8(value).len()))
    } else {
        None
    }
}

fn validate_name(field: &'static str, value: &str) -> (result: Result<(), PluginError>)
    ensures
        checked(result, name_refusal(field@, value@)),
{
    if is_blank(value) {
        return Err(PluginError::Invalid(field));
    }
    let length: usize = value.as_bytes().len();
    if length > MAX_NAME_BYTES {
        return Err(PluginError::TooLarge(length));
    }
    Ok(())
}

#[derive(Debug, PartialEq, Eq)]
pub struct PluginCapability {
    pub domain: CapabilityDomain,
    pub resource: String,
}

pub struct PluginCapabilityView {
    pub domain: CapabilityDomainView,
    pub resource: Seq<char>,
}

impl View for PluginCapability {
    type V = PluginCapabilityView;

    open spec fn view(&self) -> PluginCapabilityView {
        PluginCapabilityView { domain: self.domain@, resource: self.resource@ }
    }
}

pub open spec fn capability_views(list: Seq<PluginCapability>) -> Seq<PluginCapabilityView> {
    list.map_values(|capability: PluginCapability| capability@)
}

pub open spec fn capability_refusal(capability: PluginCapabilityView) -> Option<PluginErrorView> {
    if blank(capability.resource) {
        Some(PluginErrorView::Invalid("plugin capability resource is empty"@))
    } else if encode_utf8(capability.resource).len() > MAX_RESOURCE_BYTES {
        Some(PluginErrorView::TooLarge(encode_utf8(capability.resource).len()))
    } else {
        None
    }
}

impl PluginCapability {
    pub fn validate(&self) -> (result: Result<(), PluginError>)
        ensures
            checked(result, capability_refusal(self@)),
    {
        if is_blank(self.resource.as_str()) {
            return Err(PluginError::Invalid("plugin capability resource is empty"));
        }
        let length: usize = self.resource.as_str().as_bytes().len();
        if length > MAX_RESOURCE_BYTES {
            return Err(PluginError::TooLarge(length));
        }
        Ok(())
    }
}

#[derive(Clone, Copy, Debug, PartialEq, Eq)]
pub struct PluginResourceLimits {
    pub max_message_bytes: u32,
    pub max_memory_bytes: u64,
    pub max_fuel: u64,
    pub max_wall_time_ms: u64,
}

impl Default for PluginResourceLimits {
    fn default() -> (limits: PluginResourceLimits)
        ensures
            limits == (PluginResourceLimits {
                max_message_bytes: 1048576,
                max_memory_bytes: 67108864,
                max_fuel: 1000000,
                max_wall_time_ms: 30000,
            }),
            limits_refusal(limits) is None,
    {
        PluginResourceLimits {
            max_message_bytes: 1048576,
            max_memory_bytes: 67108864,
            max_fuel: 1000000,
            max_wall_time_ms: 30000,
        }
    }
}

pub open spec fn limits_refusal(limits: PluginResourceLimits) -> Option<PluginErrorView> {
    if limits.max_message_bytes == 0 || limits.max_message_bytes > MAX_MESSAGE_BYTES
        || limits.max_memory_bytes == 0 || limits.max_fuel == 0 || limits.max_wall_time_ms == 0 {
        Some(PluginErrorView::Invalid("plugin resource limits must be non-zero and bounded"@))
    } else {
        None
    }
}

impl PluginResourceLimits {
    pub fn validate(&self) -> (result: Result<(), PluginError>)
        ensures
            checked(result, limits_refusal(*self)),
    {
        if self.max_message_bytes == 0 || self.max_message_bytes as usize > MAX_MESSAGE_BYTES
            || self.max_memory_bytes == 0 || self.max_fuel == 0 || self.max_wall_time_ms == 0 {
            return Err(
                PluginError::Invalid("plugin resource limits must be non-zero and bounded"),
            );
        }
        Ok(())
    }
}

#[derive(Debug, PartialEq, Eq)]
pub struct PluginManifest {
    pub id: PluginId,
    pub protocol_version: u16,
    pub name: String,
    pub version: String,
    pub kind: PluginKind,
    pub capabilities: Vec<PluginCapability>,
    pub limits: PluginResourceLimits,
}

pub struct PluginManifestView {
    pub id: PluginId,
    pub protocol_version: u16,
    pub name: Seq<char>,
    pub version: Seq<char>,
    pub kind: PluginKind,
    pub capabilities: Seq<PluginCapabilityView>,
    pub limits: PluginResourceLimits,
}

impl View for PluginManifest {
    type V = PluginManifestView;

    open spec fn view(&self) -> PluginManifestView {
        PluginManifestView {
            id: self.id,
            protocol_version: self.protocol_version,
            name: self.name@,
            version: self.version@,
            kind: self.kind,
            capabilities: capability_views(self.capabilities@),
            limits: self.limits,
        }
    }
}

/// What the first refused capability is refused for.
pub open spec fn capabilities_refusal(list: Seq<PluginCapabilityView>) -> Option<PluginErrorView>
    decreases list.len(),
{
    if list.len() == 0 {
        None
    } else {
        match capabilities_refusal(list.drop_last()) {
            Some(refused) => Some(refused),
            None => capability_refusal(list.last()),
        }
    }
}

/// What a manifest is refused for, if it is.
pub open spec fn manifest_refusal(manifest: PluginManifestView) -> Option<PluginErrorView> {
    if manifest.id.0 == 0 {
        Some(PluginErrorView::Invalid("plugin ID must be non-zero"@))
    } else if manifest.protocol_version != PLUGIN_PROTOCOL_VERSION {
        Some(PluginErrorView::UnsupportedVersion(manifest.protocol_version))
    } else if name_refusal("plugin name"@, manifest.name) is Some {
        name_refusal("plugin name"@, manifest.name)
    } else if name_refusal("plugin version"@, manifest.version) is Some {
        name_refusal("plugin version"@, manifest.version)
    } else if manifest.capabilities.len() > MAX_CAPABILITIES {
        Some(PluginErrorView::TooLarge(manifest.capabilities.len()))
    } else if capabilities_refusal(manifest.capabilities) is Some {
        capabilities_refusal(manifest.capabilities)
    } else {
        limits_refusal(manifest.limits)
    }
}

proof fn refused_capability_stays(list: Seq<PluginCapabilityView>, count: int)
    requires
        0 <= count <= list.len(),
        capabilities_refusal(list.take(count)) is Some,
    ensures
        capabilities_refusal(list) == capabilities_refusal(list.take(count)),
    decreases list.len(),
{
    if count < list.len() {
        assert(list.drop_last().take(count) =~= list.take(count));
        refused_capability_stays(list.drop_last(), count);
    } else {
        assert(list.take(count) =~= list);
    }
}

fn validate_capabilities(list: &Vec<PluginCapability>) -> (result: Result<(), PluginError>)
    ensures
        checked(result, capabilities_refusal(capability_views(list@))),
{
    let ghost views = capability_views(list@);
    let mut index: usize = 0;
    assert(views.take(0) =~= Seq::<PluginCapabilityView>::empty());
    while index < list.len()
        invariant
            index <= list@.len(),
            views == capability_views(list@),
            capabilities_refusal(views.take(index as int)) is None,
        decreases list.len() - index,
    {
        proof {
            let now = views.take(index + 1);
            assert(now.drop_last() =~= views.take(index as int));
            assert(now.last() == list@[index as int]@);
            if capabilities_refusal(now) is Some {
                refused_capability_stays(views, index + 1);
            }
        }
        list[index].validate()?;
        index += 1;
    }
    assert(views.take(views.len() as int) =~= views);
    Ok(())
}

impl PluginManifest {
    pub fn validate(&self) -> (result: Result<(), PluginError>)
        ensures
            checked(result, manifest_refusal(self@)),
    {
        if self.id.value() == 0 {
            return Err(PluginError::Invalid("plugin ID must be non-zero"));
        }
        if self.protocol_version != PLUGIN_PROTOCOL_VERSION {
            return Err(PluginError::UnsupportedVersion(self.protocol_version));
        }
        validate_name("plugin name", self.name.as_str())?;
        validate_name("plugin version", self.version.as_str())?;
        assert(self@.capabilities.len() == self.capabilities@.len());
        if self.capabilities.len() > MAX_CAPABILITIES {
            return Err(PluginError::TooLarge(self.capabilities.len()));
        }
        validate_capabilities(&self.capabilities)?;
        self.limits.validate()
    }
}

// ---------------------------------------------------------------------------
// The registry.

#[derive(Debug)]
pub struct PluginRegistry {
    manifests: Table<PluginId, PluginManifest>,
}

impl View for PluginRegistry {
    type V = Map<PluginId, PluginManifestView>;

    closed spec fn view(&self) -> Map<PluginId, PluginManifestView> {
        self.manifests@
    }
}

pub open spec fn registration_refusal(
    registry: Map<PluginId, PluginManifestView>,
    manifest: PluginManifestView,
) -> Option<PluginErrorView> {
    if manifest_refusal(manifest) is Some {
        manifest_refusal(manifest)
    } else if registry.contains_key(manifest.id) {
        Some(PluginErrorView::Duplicate(manifest.id))
    } else if registry.len() >= MAX_PLUGINS {
        Some(PluginErrorView::TooLarge((registry.len() + 1) as nat))
    } else {
        None
    }
}

/// A manifest that a search asks for.
pub open spec fn wanted(
    manifest: PluginManifestView,
    kind: Option<PluginKind>,
    name_prefix: Seq<char>,
) -> bool {
    (kind matches Some(expected) ==> manifest.kind == expected) && begins_with(
        manifest.name,
        name_prefix,
    )
}

/// The wanted ones among the listed manifests.
pub open spec fn wanted_among(
    registry: Map<PluginId, PluginManifestView>,
    ids: Seq<PluginId>,
    kind: Option<PluginKind>,
    name_prefix: Seq<char>,
) -> Seq<PluginManifestView>
    decreases ids.len(),
{
    if ids.len() == 0 {
        seq![]
    } else {
        let before = wanted_among(registry, ids.drop_last(), kind, name_prefix);
        if wanted(registry[ids.last()], kind, name_prefix) {
            before.push(registry[ids.last()])
        } else {
            before
        }
    }
}

pub open spec fn manifest_views(list: Seq<&PluginManifest>) -> Seq<PluginManifestView> {
    Seq::new(list.len(), |i: int| list[i]@)
}

impl PluginRegistry {
    pub fn new() -> (registry: PluginRegistry)
        ensures
            registry@ == Map::<PluginId, PluginManifestView>::empty(),
            registry_valid(registry@),
    {
        PluginRegistry { manifests: Table::new() }
    }

    /// Registers a valid manifest under an identity that is not taken.
    pub fn register(&mut self, manifest: PluginManifest) -> (result: Result<(), PluginError>)
        requires
            registry_valid(old(self)@),
        ensures
            registry_valid(final(self)@),
            checked(result, registration_refusal(old(self)@, manifest@)),
            final(self)@ == if registration_refusal(old(self)@, manifest@) is None {
                old(self)@.insert(manifest@.id, manifest@)
            } else {
                old(self)@
            },
    {
        manifest.validate()?;
        if self.manifests.contains_key(&manifest.id) {
            return Err(PluginError::Duplicate(manifest.id));
        }
        let count: usize = self.manifests.len();
        if count >= MAX_PLUGINS {
            return Err(PluginError::TooLarge(count + 1));
        }
        self.manifests.insert(manifest.id, manifest);
        Ok(())
    }

    pub fn manifest(&self, id: PluginId) -> (manifest: Option<&PluginManifest>)
        ensures
            match manifest {
                Some(manifest) => self@.contains_key(id) && manifest@ == self@[id],
                None => !self@.contains_key(id),
            },
    {
        self.manifests.get(&id)
    }

    /// The manifests of a kind whose names begin with a prefix, in identity
    /// order.
    pub fn discover(&self, kind: Option<PluginKind>, name_prefix: &str) -> (result: Result<
        Vec<&PluginManifest>,
        PluginError,
    >)
        ensures
            match result {
                Ok(found) => {
                    &&& encode_utf8(name_prefix@).len() <= MAX_NAME_BYTES
                    &&& manifest_views(found@) == wanted_among(
                        self@,
                        listing::<PluginId, PluginManifestView>(self@),
                        kind,
                        name_prefix@,
                    )
                },
                Err(error) => {
                    &&& encode_utf8(name_prefix@).len() > MAX_NAME_BYTES
                    &&& error@ == PluginErrorView::TooLarge(encode_utf8(name_prefix@).len())
                },
            },
    {
        let length: usize = name_prefix.as_bytes().len();
        if length > MAX_NAME_BYTES {
            return Err(PluginError::TooLarge(length));
        }
        let mut found: Vec<&PluginManifest> = Vec::new();
        let count: usize = self.manifests.len();
        let ghost ids = listing::<PluginId, PluginManifestView>(self@);
        let mut index: usize = 0;
        proof {
            table_is_listed(self.manifests.keys(), self.manifests.values());
            assert(ids.take(0) =~= Seq::<PluginId>::empty());
            assert(manifest_views(found@) =~= Seq::<PluginManifestView>::empty());
        }
        while index < count
            invariant
                index <= count,
                count == self.manifests.keys().len(),
                ids.len() == count,
                forall|i: int| 0 <= i < count ==> (#[trigger] self.manifests.keys()[i]) == ids[i],
                manifest_views(found@) == wanted_among(
                    self@,
                    ids.take(index as int),
                    kind,
                    name_prefix@,
                ),
            decreases count - index,
        {
            let manifest = self.manifests.value_at(index);
            proof {
                assert(self.manifests.keys()[index as int] == ids[index as int]);
                let now = ids.take(index + 1);
                assert(now.drop_last() =~= ids.take(index as int));
                assert(now.last() == ids[index as int]);
            }
            let kind_matches = match kind {
                Some(expected) => manifest.kind == expected,
                None => true,
            };
            if kind_matches && starts_with_text(manifest.name.as_str(), name_prefix) {
                let ghost before = found@;
                found.push(manifest);
                assert(manifest_views(found@) =~= manifest_views(before).push(manifest@));
            }
            index += 1;
        }
        assert(ids.take(count as int) =~= ids);
        Ok(found)
    }
}

impl Clone for CapabilityDomain {
    fn clone(&self) -> (copy: CapabilityDomain)
        ensures
            copy@ == self@,
    {
        match self {
            CapabilityDomain::Filesystem => CapabilityDomain::Filesystem,
            CapabilityDomain::Named(name) => CapabilityDomain::Named(name.clone()),
        }
    }
}

impl Clone for PluginCapability {
    fn clone(&self) -> (copy: PluginCapability)
        ensures
            copy@ == self@,
    {
        PluginCapability { domain: self.domain.clone(), resource: self.resource.clone() }
    }
}

impl Clone for PluginManifest {
    fn clone(&self) -> (copy: PluginManifest)
        ensures
            copy@ == self@,
    {
        let mut capabilities: Vec<PluginCapability> = Vec::new();
        let ghost views = capability_views(self.capabilities@);
        let mut index: usize = 0;
        assert(capability_views(capabilities@) =~= views.take(0));
        while index < self.capabilities.len()
            invariant
                index <= self.capabilities@.len(),
                views == capability_views(self.capabilities@),
                capability_views(capabilities@) == views.take(index as int),
            decreases self.capabilities.len() - index,
        {
            let ghost before = capabilities@;
            capabilities.push(self.capabilities[index].clone());
            index += 1;
            proof {
                assert(capability_views(capabilities@) =~= capability_views(before).push(
                    views[index - 1],
                ));
                assert(capability_views(capabilities@) =~= views.take(index as int));
            }
        }
        assert(views.take(views.len() as int) =~= views);
        PluginManifest {
            id: self.id,
            protocol_version: self.protocol_version,
            name: self.name.clone(),
            version: self.version.clone(),
            kind: self.kind,
            capabilities,
            limits: self.limits,
        }
    }
}

impl Replica for PluginManifest {
    fn replica(&self) -> (copy: PluginManifest) {
        self.clone()
    }
}

impl Clone for PluginRegistry {
    fn clone(&self) -> (copy: PluginRegistry)
        ensures
            copy@ == self@,
    {
        PluginRegistry { manifests: self.manifests.clone() }
    }
}

impl Default for PluginRegistry {
    fn default() -> (registry: PluginRegistry)
        ensures
            registry@ == Map::<PluginId, PluginManifestView>::empty(),
            registry_valid(registry@),
    {
        PluginRegistry::new()
    }
}

/// Every registered manifest is valid, and there are no more than the limit.
pub open spec fn registry_valid(registry: Map<PluginId, PluginManifestView>) -> bool {
    &&& registry.dom().finite()
    &&& registry.len() <= MAX_PLUGINS
    &&& forall|id: PluginId| #[trigger]
        registry.contains_key(id) ==> registry[id].id == id && manifest_refusal(registry[id])
            is None
}

/// A search finds valid manifests only, and each once: the identities ascend.
pub proof fn discovered_manifests_are_valid_and_distinct(
    registry: Map<PluginId, PluginManifestView>,
    ids: Seq<PluginId>,
    kind: Option<PluginKind>,
    name_prefix: Seq<char>,
)
    requires
        registry_valid(registry),
        listed::<PluginId, PluginManifestView>(registry, ids),
    ensures
        ({
            let found = wanted_among(registry, ids, kind, name_prefix);
            &&& forall|i: int|
                0 <= i < found.len() ==> manifest_refusal(#[trigger] found[i]) is None && wanted(
                    found[i],
                    kind,
                    name_prefix,
                )
            &&& forall|i: int, j: int|
                0 <= i < j < found.len() ==> (#[trigger] found[i]).id.0 < (
                #[trigger] found[j]).id.0
        }),
{
    wanted_come_from_the_list(registry, ids, ids.len() as int, kind, name_prefix);
    assert(ids.take(ids.len() as int) =~= ids);
}

proof fn wanted_come_from_the_list(
    registry: Map<PluginId, PluginManifestView>,
    ids: Seq<PluginId>,
    count: int,
    kind: Option<PluginKind>,
    name_prefix: Seq<char>,
)
    requires
        registry_valid(registry),
        listed::<PluginId, PluginManifestView>(registry, ids),
        0 <= count <= ids.len(),
    ensures
        ({
            let found = wanted_among(registry, ids.take(count), kind, name_prefix);
            &&& forall|i: int|
                0 <= i < found.len() ==> manifest_refusal(#[trigger] found[i]) is None && wanted(
                    found[i],
                    kind,
                    name_prefix,
                )
            &&& forall|i: int|
                0 <= i < found.len() ==> exists|k: int|
                    0 <= k < count && (#[trigger] found[i]).id == #[trigger] ids[k]
            &&& forall|i: int, j: int|
                0 <= i < j < found.len() ==> (#[trigger] found[i]).id.0 < (
                #[trigger] found[j]).id.0
        }),
    decreases count,
{
    if count > 0 {
        wanted_come_from_the_list(registry, ids, count - 1, kind, name_prefix);
        assert(ids.take(count).drop_last() =~= ids.take(count - 1));
        let last = ids[count - 1];
        assert(registry.contains_key(last));
        let before = wanted_among(registry, ids.take(count - 1), kind, name_prefix);
        let found = wanted_among(registry, ids.take(count), kind, name_prefix);
        assert forall|i: int| 0 <= i < found.len() implies exists|k: int|
            0 <= k < count && (#[trigger] found[i]).id == #[trigger] ids[k] by {
            if i < before.len() {
                assert(found[i] == before[i]);
                let k = choose|k: int| 0 <= k < count - 1 && before[i].id == #[trigger] ids[k];
                assert(found[i].id == ids[k]);
            } else {
                assert(found[i].id == ids[count - 1]);
            }
        }
        assert forall|i: int, j: int| 0 <= i < j < found.len() implies (#[trigger] found[i]).id.0
            < (#[trigger] found[j]).id.0 by {
            assert(found[i] == before[i]);
            if j < before.len() {
                assert(found[j] == before[j]);
            } else {
                let k = choose|k: int| 0 <= k < count - 1 && before[i].id == #[trigger] ids[k];
                assert(PluginId::before(ids[k], ids[count - 1]));
            }
        }
    }
}

// ---------------------------------------------------------------------------
// Messages.

#[derive(Clone, Debug, PartialEq, Eq)]
pub struct PluginRequest {
    pub request_id: u64,
    pub method: String,
    pub payload: Vec<u8>,
}

pub open spec fn request_refusal(
    request_id: u64,
    method: Seq<char>,
    payload_length: nat,
    limits: PluginResourceLimits,
) -> Option<PluginErrorView> {
    if limits_refusal(limits) is Some {
        limits_refusal(limits)
    } else if request_id == 0 {
        Some(PluginErrorView::Invalid("plugin request ID must be non-zero"@))
    } else if name_refusal("plugin method"@, method) is Some {
        name_refusal("plugin method"@, method)
    } else if payload_length > limits.max_message_bytes {
        Some(PluginErrorView::MessageTooLarge(payload_length))
    } else {
        None
    }
}

impl PluginRequest {
    pub fn validate_with(&self, limits: PluginResourceLimits) -> (result: Result<(), PluginError>)
        ensures
            checked(
                result,
                request_refusal(self.request_id, self.method@, self.payload@.len(), limits),
            ),
    {
        limits.validate()?;
        if self.request_id == 0 {
            return Err(PluginError::Invalid("plugin request ID must be non-zero"));
        }
        validate_name("plugin method", self.method.as_str())?;
        if self.payload.len() > limits.max_message_bytes as usize {
            return Err(PluginError::MessageTooLarge(self.payload.len()));
        }
        Ok(())
    }
}

#[derive(Clone, Debug, PartialEq, Eq)]
pub struct PluginResponse {
    pub request_id: u64,
    pub payload: Vec<u8>,
    /// Where the output comes from. A valid manifest does not make it trusted.
    pub origin: TrustOrigin,
}

pub open spec fn response_refusal(
    request_id: u64,
    payload_length: nat,
    limits: PluginResourceLimits,
) -> Option<PluginErrorView> {
    if limits_refusal(limits) is Some {
        limits_refusal(limits)
    } else if request_id == 0 {
        Some(PluginErrorView::Invalid("plugin response ID must be non-zero"@))
    } else if payload_length > limits.max_message_bytes {
        Some(PluginErrorView::MessageTooLarge(payload_length))
    } else {
        None
    }
}

impl PluginResponse {
    pub fn validate_with(&self, limits: PluginResourceLimits) -> (result: Result<(), PluginError>)
        ensures
            checked(result, response_refusal(self.request_id, self.payload@.len(), limits)),
    {
        limits.validate()?;
        if self.request_id == 0 {
            return Err(PluginError::Invalid("plugin response ID must be non-zero"));
        }
        if self.payload.len() > limits.max_message_bytes as usize {
            return Err(PluginError::MessageTooLarge(self.payload.len()));
        }
        Ok(())
    }
}

/// Whatever limits a valid manifest sets, an accepted message is within the
/// protocol's own bound.
pub proof fn accepted_messages_are_bounded(
    request_id: u64,
    method: Seq<char>,
    payload_length: nat,
    limits: PluginResourceLimits,
)
    requires
        request_refusal(request_id, method, payload_length, limits) is None || response_refusal(
            request_id,
            payload_length,
            limits,
        ) is None,
    ensures
        payload_length <= MAX_MESSAGE_BYTES,
{
}

/// A way to call plugins.
pub trait PluginTransport {
    fn invoke(
        &mut self,
        agent_id: AgentId,
        task_id: Option<TaskId>,
        now_ms: u128,
        manifest: &PluginManifest,
        request: PluginRequest,
    ) -> Result<PluginResponse, PluginError>;
}

// ---------------------------------------------------------------------------
// Authorization.

/// The answers that a policy gave for the capabilities, in order. It is asked
/// up to its first denial.
pub open spec fn asked_policy<F: Fn(&PluginCapability) -> Option<String>>(
    policy: F,
    list: Seq<PluginCapability>,
    answers: Seq<Option<String>>,
) -> bool {
    &&& answers.len() <= list.len()
    &&& forall|i: int|
        0 <= i < answers.len() ==> call_ensures(policy, (&list[i],), #[trigger] answers[i])
    &&& forall|i: int| 0 <= i < answers.len() - 1 ==> (#[trigger] answers[i]) is None
    &&& answers.len() < list.len() ==> answers.len() > 0 && answers.last() is Some
}

/// The denial at the end of a policy's answers, if there is one.
pub open spec fn denial_in(answers: Seq<Option<String>>) -> Option<PluginErrorView> {
    if answers.len() > 0 && answers.last() is Some {
        Some(PluginErrorView::CapabilityDenied(answers.last()->0@))
    } else {
        None
    }
}

/// Asks a policy for each capability of a manifest. The policy says why it
/// denies one.
pub fn authorize_manifest<F: Fn(&PluginCapability) -> Option<String>>(
    policy: &F,
    manifest: &PluginManifest,
) -> (result: Result<(), PluginError>)
    requires
        forall|capability: PluginCapability| call_requires(*policy, (&capability,)),
    ensures
        exists|answers: Seq<Option<String>>|
            #[trigger] asked_policy(*policy, manifest.capabilities@, answers) && checked(
                result,
                denial_in(answers),
            ),
{
    let ghost mut answers: Seq<Option<String>> = seq![];
    let mut index: usize = 0;
    while index < manifest.capabilities.len()
        invariant
            index <= manifest.capabilities@.len(),
            forall|capability: PluginCapability| call_requires(*policy, (&capability,)),
            answers.len() == index,
            forall|i: int|
                0 <= i < answers.len() ==> call_ensures(
                    *policy,
                    (&manifest.capabilities@[i],),
                    #[trigger] answers[i],
                ),
            forall|i: int| 0 <= i < answers.len() ==> (#[trigger] answers[i]) is None,
        decreases manifest.capabilities.len() - index,
    {
        let answer = policy(&manifest.capabilities[index]);
        proof {
            answers = answers.push(answer);
        }
        if let Some(reason) = answer {
            proof {
                assert(asked_policy(*policy, manifest.capabilities@, answers));
            }
            return Err(PluginError::CapabilityDenied(reason));
        }
        index += 1;
    }
    assert(asked_policy(*policy, manifest.capabilities@, answers));
    Ok(())
}

/// A manifest is authorized only where every one of its capabilities was
/// asked for and allowed.
pub proof fn authorization_covers_every_capability<F: Fn(&PluginCapability) -> Option<String>>(
    policy: F,
    list: Seq<PluginCapability>,
    answers: Seq<Option<String>>,
)
    requires
        asked_policy(policy, list, answers),
        denial_in(answers) is None,
    ensures
        answers.len() == list.len(),
        forall|i: int|
            0 <= i < list.len() ==> (#[trigger] answers[i]) is None && call_ensures(
                policy,
                (&list[i],),
                answers[i],
            ),
{
}

/// Asks a policy, and then the owners of the resources, for each capability.
pub fn authorize_manifest_with_ownership<
    F: Fn(&PluginCapability) -> Option<String>,
    G: Fn(&PluginCapability) -> Option<String>,
>(policy: &F, ownership: &G, manifest: &PluginManifest) -> (result: Result<(), PluginError>)
    requires
        forall|capability: PluginCapability| call_requires(*policy, (&capability,)),
        forall|capability: PluginCapability| call_requires(*ownership, (&capability,)),
    ensures
        exists|answers: Seq<Option<String>>|
            #[trigger] asked_policy(*policy, manifest.capabilities@, answers) && match denial_in(
                answers,
            ) {
                Some(denied) => result matches Err(error) && error@ == denied,
                None => exists|more: Seq<Option<String>>|
                    #[trigger] asked_policy(*ownership, manifest.capabilities@, more) && checked(
                        result,
                        denial_in(more),
                    ),
            },
{
    authorize_manifest(policy, manifest)?;
    authorize_manifest(ownership, manifest)
}

} // verus!
