//! Deterministic, event-replayable assumptions and conflicts.
//!
//! Assumptions are runtime claims, not model-owned truth. Only normalized
//! contradictions are detected; semantic or fuzzy interpretation stays
//! outside the deterministic boundary.

use vstd::prelude::*;
use vstd::string::StringExecFns;
use vstd::utf8::encode_utf8;

use crate::codec::{
    blob64_bytes, concat_is_associative, get_bytes, get_u16, get_u16_of_bytes, get_u64,
    get_u64_of_bytes, get_u8, get_u8_of_bytes, group_codec, outcome, parsed, put_bytes, put_u16,
    put_u64, put_u8, regroup1, regroup2, regroup3, regroup4, text_from, text_of, u16_bytes,
    u64_bytes, u8_bytes, Reader,
};
use crate::ids::{
    a_source_never_repeats, id_text, AgentId, AssumptionId, ConflictId, IdSource, RunId,
};
use crate::kernel::{
    combine_all, combined_all, event_views, origin_byte, origin_for_tag, origin_of_byte, origin_tag,
    Event, EventKind, EventKindView, EventView, TrustOrigin,
};
use crate::state::phrase;
use crate::table::{ascending, entry_in_map, map_entry_has_index, Key, Record, Table, Replica};
use crate::text::{
    blank, chars_of, clone_texts, decimal, is_blank, lowered, numbered, push_decimal, same_texts,
    texts, to_lower_case, whitespace,
};

verus! {

pub const LEGACY_ASSUMPTION_SCHEMA_VERSION: u16 = 1;

pub const ASSUMPTION_SCHEMA_VERSION: u16 = 2;

pub const MAX_TEXT_BYTES: usize = 65536;

pub const MAX_LIST_ITEMS: usize = 64;

pub const MAX_INPUT_ORIGINS: usize = 32;

pub const MAX_PAYLOAD_BYTES: usize = 1048576;

// ---------------------------------------------------------------------------
// Normalization.

/// Text with its words separated by single spaces and nothing around them.
pub open spec fn collapsed(text: Seq<char>) -> Seq<char>
    decreases text.len(),
{
    if text.len() == 0 {
        seq![]
    } else {
        let before = collapsed(text.drop_last());
        if whitespace(text.last()) {
            before
        } else if before.len() > 0 && whitespace(text[text.len() - 2]) {
            before.push(' ').push(text.last())
        } else {
            before.push(text.last())
        }
    }
}

/// The form in which subjects and values are compared.
pub open spec fn normalized(text: Seq<char>) -> Seq<char> {
    lowered(collapsed(text))
}

fn collapse(value: &str) -> (text: String)
    ensures
        text@ == collapsed(value@),
{
    let chars = chars_of(value);
    let mut out = String::new();
    let mut empty = true;
    let mut index: usize = 0;
    assert(out@ =~= collapsed(value@.take(0)));
    while index < chars.len()
        invariant
            chars@ == value@,
            index <= chars@.len(),
            out@ == collapsed(value@.take(index as int)),
            empty == (out@.len() == 0),
        decreases chars.len() - index,
    {
        let c = chars[index];
        proof {
            let next = value@.take(index + 1);
            assert(next.drop_last() =~= value@.take(index as int));
            assert(next.last() == c);
            if index > 0 {
                assert(next[next.len() - 2] == value@[index - 1]);
            } else {
                assert(collapsed(value@.take(0)).len() == 0);
            }
        }
        if !c.is_whitespace() {
            if !empty && chars[index - 1].is_whitespace() {
                out.push(' ');
            }
            out.push(c);
            empty = false;
        }
        index += 1;
    }
    assert(value@.take(value@.len() as int) =~= value@);
    out
}

/// Lower case, with words separated by single spaces.
pub fn normalize(value: &str) -> (text: String)
    ensures
        text@ == normalized(value@),
{
    to_lower_case(collapse(value).as_str())
}

// ---------------------------------------------------------------------------
// Assumptions, conflicts and their views.

#[derive(Clone, Copy, Debug, PartialEq, Eq, Structural)]
pub enum AssumptionState {
    Active,
    Conflicted,
    Invalidated,
    Resolved,
}

#[derive(Clone, Debug, PartialEq, Eq)]
pub struct Assumption {
    pub id: AssumptionId,
    pub run_id: RunId,
    pub owner: AgentId,
    pub subject: String,
    pub normalized_value: String,
    pub claim: String,
    pub evidence: Vec<String>,
    pub dependencies: Vec<String>,
    pub revision: u64,
    pub confidence_millis: u16,
    pub state: AssumptionState,
    /// The effective origin of the claim after publication combines inputs.
    pub trust: TrustOrigin,
    /// Origins of evidence or other material used to derive the claim.
    pub input_origins: Vec<TrustOrigin>,
}

pub struct AssumptionView {
    pub id: AssumptionId,
    pub run_id: RunId,
    pub owner: AgentId,
    pub subject: Seq<char>,
    pub normalized_value: Seq<char>,
    pub claim: Seq<char>,
    pub evidence: Seq<Seq<char>>,
    pub dependencies: Seq<Seq<char>>,
    pub revision: u64,
    pub confidence_millis: u16,
    pub state: AssumptionState,
    pub trust: TrustOrigin,
    pub input_origins: Seq<TrustOrigin>,
}

impl View for Assumption {
    type V = AssumptionView;

    open spec fn view(&self) -> AssumptionView {
        AssumptionView {
            id: self.id,
            run_id: self.run_id,
            owner: self.owner,
            subject: self.subject@,
            normalized_value: self.normalized_value@,
            claim: self.claim@,
            evidence: texts(self.evidence@),
            dependencies: texts(self.dependencies@),
            revision: self.revision,
            confidence_millis: self.confidence_millis,
            state: self.state,
            trust: self.trust,
            input_origins: self.input_origins@,
        }
    }
}

fn clone_origins(list: &Vec<TrustOrigin>) -> (copy: Vec<TrustOrigin>)
    ensures
        copy@ == list@,
{
    vstd::slice::slice_to_vec(list.as_slice())
}

fn clone_agents(list: &Vec<AgentId>) -> (copy: Vec<AgentId>)
    ensures
        copy@ == list@,
{
    vstd::slice::slice_to_vec(list.as_slice())
}

impl Record for Assumption {
    fn duplicate(&self) -> (copy: Assumption) {
        Assumption {
            id: self.id,
            run_id: self.run_id,
            owner: self.owner,
            subject: self.subject.clone(),
            normalized_value: self.normalized_value.clone(),
            claim: self.claim.clone(),
            evidence: clone_texts(&self.evidence),
            dependencies: clone_texts(&self.dependencies),
            revision: self.revision,
            confidence_millis: self.confidence_millis,
            state: self.state,
            trust: self.trust,
            input_origins: clone_origins(&self.input_origins),
        }
    }

    fn same(&self, other: &Assumption) -> (same: bool) {
        let texts_agree = self.subject == other.subject && self.normalized_value
            == other.normalized_value && self.claim == other.claim && same_texts(
            &self.evidence,
            &other.evidence,
        ) && same_texts(&self.dependencies, &other.dependencies);
        if !texts_agree || self.input_origins.len() != other.input_origins.len() {
            return false;
        }
        let mut index: usize = 0;
        while index < self.input_origins.len()
            invariant
                self.input_origins@.len() == other.input_origins@.len(),
                index <= self.input_origins@.len(),
                forall|i: int|
                    0 <= i < index ==> self.input_origins@[i] == other.input_origins@[i],
            decreases self.input_origins.len() - index,
        {
            if self.input_origins[index] != other.input_origins[index] {
                return false;
            }
            index += 1;
        }
        assert(self.input_origins@ =~= other.input_origins@);
        self.id == other.id && self.run_id == other.run_id && self.owner == other.owner
            && self.revision == other.revision && self.confidence_millis
            == other.confidence_millis && self.state == other.state && self.trust == other.trust
    }
}

#[derive(Clone, Debug, PartialEq, Eq)]
pub struct AssumptionConflict {
    pub id: ConflictId,
    pub subject: String,
    pub left: AssumptionId,
    pub right: AssumptionId,
    pub affected_agents: Vec<AgentId>,
}

pub struct AssumptionConflictView {
    pub id: ConflictId,
    pub subject: Seq<char>,
    pub left: AssumptionId,
    pub right: AssumptionId,
    pub affected_agents: Seq<AgentId>,
}

impl View for AssumptionConflict {
    type V = AssumptionConflictView;

    open spec fn view(&self) -> AssumptionConflictView {
        AssumptionConflictView {
            id: self.id,
            subject: self.subject@,
            left: self.left,
            right: self.right,
            affected_agents: self.affected_agents@,
        }
    }
}

impl AssumptionConflict {
    pub fn duplicate(&self) -> (copy: AssumptionConflict)
        ensures
            copy@ == self@,
    {
        AssumptionConflict {
            id: self.id,
            subject: self.subject.clone(),
            left: self.left,
            right: self.right,
            affected_agents: clone_agents(&self.affected_agents),
        }
    }
}

impl Replica for AssumptionConflict {
    fn replica(&self) -> (copy: AssumptionConflict) {
        self.duplicate()
    }
}

#[derive(Clone, Debug, PartialEq, Eq)]
pub enum AssumptionTransition {
    Created { assumption: Assumption },
    StateChanged { assumption_id: AssumptionId, state: AssumptionState },
    ConflictDetected { conflict: AssumptionConflict },
}

pub enum AssumptionTransitionView {
    Created { assumption: AssumptionView },
    StateChanged { assumption_id: AssumptionId, state: AssumptionState },
    ConflictDetected { conflict: AssumptionConflictView },
}

impl View for AssumptionTransition {
    type V = AssumptionTransitionView;

    open spec fn view(&self) -> AssumptionTransitionView {
        match *self {
            AssumptionTransition::Created { assumption } => AssumptionTransitionView::Created {
                assumption: assumption@,
            },
            AssumptionTransition::StateChanged { assumption_id, state } =>
                AssumptionTransitionView::StateChanged { assumption_id, state },
            AssumptionTransition::ConflictDetected { conflict } =>
                AssumptionTransitionView::ConflictDetected { conflict: conflict@ },
        }
    }
}

impl AssumptionTransitionView {
    /// The transition moved to another run.
    pub open spec fn in_run(self, run_id: RunId) -> AssumptionTransitionView {
        match self {
            AssumptionTransitionView::Created { assumption } => AssumptionTransitionView::Created {
                assumption: AssumptionView { run_id, ..assumption },
            },
            other => other,
        }
    }
}

impl AssumptionTransition {
    pub fn with_run_id(self, run_id: RunId) -> (transition: AssumptionTransition)
        ensures
            transition@ == self@.in_run(run_id),
    {
        match self {
            AssumptionTransition::Created { assumption } => AssumptionTransition::Created {
                assumption: Assumption { run_id, ..assumption },
            },
            other => other,
        }
    }
}

#[derive(Clone, Debug, PartialEq, Eq)]
pub enum AssumptionError {
    Invalid(String),
    InvalidEncoding(String),
    UnsupportedVersion(u16),
    TooLarge { actual: usize, maximum: usize },
    Duplicate(AssumptionId),
    DuplicateConflict(ConflictId),
    Unknown(AssumptionId),
    TrustUpgrade { assumption_id: AssumptionId },
}

pub enum AssumptionErrorView {
    Invalid(Seq<char>),
    InvalidEncoding(Seq<char>),
    UnsupportedVersion(u16),
    TooLarge { actual: usize, maximum: usize },
    Duplicate(AssumptionId),
    DuplicateConflict(ConflictId),
    Unknown(AssumptionId),
    TrustUpgrade { assumption_id: AssumptionId },
}

impl View for AssumptionError {
    type V = AssumptionErrorView;

    open spec fn view(&self) -> AssumptionErrorView {
        match *self {
            AssumptionError::Invalid(message) => AssumptionErrorView::Invalid(message@),
            AssumptionError::InvalidEncoding(message) => AssumptionErrorView::InvalidEncoding(
                message@,
            ),
            AssumptionError::UnsupportedVersion(version) => AssumptionErrorView::UnsupportedVersion(
                version,
            ),
            AssumptionError::TooLarge { actual, maximum } => AssumptionErrorView::TooLarge {
                actual,
                maximum,
            },
            AssumptionError::Duplicate(id) => AssumptionErrorView::Duplicate(id),
            AssumptionError::DuplicateConflict(id) => AssumptionErrorView::DuplicateConflict(id),
            AssumptionError::Unknown(id) => AssumptionErrorView::Unknown(id),
            AssumptionError::TrustUpgrade { assumption_id } => AssumptionErrorView::TrustUpgrade {
                assumption_id,
            },
        }
    }
}

impl AssumptionErrorView {
    pub open spec fn text(self) -> Seq<char> {
        match self {
            AssumptionErrorView::Invalid(message) => "invalid assumption: "@ + message,
            AssumptionErrorView::InvalidEncoding(message) => "invalid assumption encoding: "@
                + message,
            AssumptionErrorView::UnsupportedVersion(version) =>
                "unsupported assumption schema version "@ + decimal(version as nat),
            AssumptionErrorView::TooLarge { actual, maximum } => "assumption payload is "@
                + decimal(actual as nat) + " bytes, maximum is "@ + decimal(maximum as nat),
            AssumptionErrorView::Duplicate(id) => "assumption "@ + id_text("assumption"@, id.0)
                + " already exists"@,
            AssumptionErrorView::DuplicateConflict(id) => "conflict "@ + id_text("conflict"@, id.0)
                + " already exists"@,
            AssumptionErrorView::Unknown(id) => "assumption "@ + id_text("assumption"@, id.0)
                + " is not present"@,
            AssumptionErrorView::TrustUpgrade { assumption_id } => "assumption "@ + id_text(
                "assumption"@,
                assumption_id.0,
            ) + " upgrades trust above its material inputs"@,
        }
    }
}

impl AssumptionError {
    pub fn to_text(&self) -> (text: String)
        ensures
            text@ == self@.text(),
    {
        match self {
            AssumptionError::Invalid(message) => {
                let mut out = "invalid assumption: ".to_owned();
                out.append(message.as_str());
                out
            },
            AssumptionError::InvalidEncoding(message) => {
                let mut out = "invalid assumption encoding: ".to_owned();
                out.append(message.as_str());
                out
            },
            AssumptionError::UnsupportedVersion(version) => numbered(
                "unsupported assumption schema version ",
                *version as u128,
            ),
            AssumptionError::TooLarge { actual, maximum } => {
                let mut out = numbered("assumption payload is ", *actual as u128);
                out.append(" bytes, maximum is ");
                push_decimal(&mut out, *maximum as u128);
                out
            },
            AssumptionError::Duplicate(id) => phrase(
                "assumption ",
                id.to_text().as_str(),
                " already exists",
            ),
            AssumptionError::DuplicateConflict(id) => phrase(
                "conflict ",
                id.to_text().as_str(),
                " already exists",
            ),
            AssumptionError::Unknown(id) => phrase(
                "assumption ",
                id.to_text().as_str(),
                " is not present",
            ),
            AssumptionError::TrustUpgrade { assumption_id } => phrase(
                "assumption ",
                assumption_id.to_text().as_str(),
                " upgrades trust above its material inputs",
            ),
        }
    }
}

// ---------------------------------------------------------------------------
// Validity.

pub open spec fn text_check(field: Seq<char>, value: Seq<char>) -> Result<(), AssumptionErrorView> {
    if blank(value) {
        Err(AssumptionErrorView::Invalid(field + " must not be empty"@))
    } else if encode_utf8(value).len() > MAX_TEXT_BYTES {
        Err(
            AssumptionErrorView::TooLarge {
                actual: encode_utf8(value).len() as usize,
                maximum: MAX_TEXT_BYTES,
            },
        )
    } else {
        Ok(())
    }
}

/// The first text of a list that is not valid decides.
pub open spec fn texts_check(field: Seq<char>, list: Seq<Seq<char>>) -> Result<
    (),
    AssumptionErrorView,
>
    decreases list.len(),
{
    if list.len() == 0 {
        Ok(())
    } else {
        match texts_check(field, list.drop_last()) {
            Err(error) => Err(error),
            Ok(_) => text_check(field, list.last()),
        }
    }
}

pub open spec fn text_list_check(field: Seq<char>, list: Seq<Seq<char>>) -> Result<
    (),
    AssumptionErrorView,
> {
    if list.len() > MAX_LIST_ITEMS {
        Err(AssumptionErrorView::Invalid(field + " has too many entries"@))
    } else {
        texts_check(field, list)
    }
}

/// The first error of two checks made in order.
pub open spec fn both(
    first: Result<(), AssumptionErrorView>,
    second: Result<(), AssumptionErrorView>,
) -> Result<(), AssumptionErrorView> {
    match first {
        Err(error) => Err(error),
        Ok(_) => second,
    }
}

fn validate_text(field: &str, value: &str) -> (result: Result<(), AssumptionError>)
    ensures
        outcome(result) == text_check(field@, value@),
{
    if is_blank(value) {
        let mut message = field.to_owned();
        message.append(" must not be empty");
        return Err(AssumptionError::Invalid(message));
    }
    let length: usize = value.as_bytes().len();
    if length > MAX_TEXT_BYTES {
        return Err(AssumptionError::TooLarge { actual: length, maximum: MAX_TEXT_BYTES });
    }
    Ok(())
}

/// Once one text of a list fails, later ones do not matter.
proof fn failed_check_stays(field: Seq<char>, list: Seq<Seq<char>>, count: int)
    requires
        0 <= count <= list.len(),
        texts_check(field, list.take(count)) is Err,
    ensures
        texts_check(field, list) == texts_check(field, list.take(count)),
    decreases list.len() - count,
{
    if count == list.len() {
        assert(list.take(count) =~= list);
    } else {
        assert(list.take(count + 1).drop_last() =~= list.take(count));
        failed_check_stays(field, list, count + 1);
    }
}

fn validate_text_list(field: &str, values: &Vec<String>) -> (result: Result<(), AssumptionError>)
    ensures
        outcome(result) == text_list_check(field@, texts(values@)),
{
    if values.len() > MAX_LIST_ITEMS {
        let mut message = field.to_owned();
        message.append(" has too many entries");
        return Err(AssumptionError::Invalid(message));
    }
    let ghost list = texts(values@);
    let mut index: usize = 0;
    assert(list.take(0) =~= Seq::<Seq<char>>::empty());
    while index < values.len()
        invariant
            index <= values@.len(),
            list == texts(values@),
            texts_check(field@, list.take(index as int)) is Ok,
            values@.len() <= MAX_LIST_ITEMS,
        decreases values.len() - index,
    {
        let checked = validate_text(field, values[index].as_str());
        proof {
            let next = list.take(index + 1);
            assert(next.drop_last() =~= list.take(index as int));
            assert(next.last() == values@[index as int]@);
        }
        match checked {
            Ok(_) => {},
            Err(error) => {
                proof {
                    failed_check_stays(field@, list, index + 1);
                }
                return Err(error);
            },
        }
        index += 1;
    }
    assert(list.take(list.len() as int) =~= list);
    Ok(())
}

/// A list that passes its check fits its encoding.
proof fn checked_texts_fit(field: Seq<char>, list: Seq<Seq<char>>)
    requires
        texts_check(field, list) is Ok,
    ensures
        forall|i: int| 0 <= i < list.len() ==> text_fits(#[trigger] list[i]),
    decreases list.len(),
{
    if list.len() > 0 {
        checked_texts_fit(field, list.drop_last());
        assert forall|i: int| 0 <= i < list.len() implies text_fits(#[trigger] list[i]) by {
            if i < list.len() - 1 {
                assert(list.drop_last()[i] == list[i]);
            }
        }
    }
}

pub open spec fn limits_check(assumption: AssumptionView) -> Result<(), AssumptionErrorView> {
    if assumption.revision == 0 {
        Err(AssumptionErrorView::Invalid("revision must be greater than zero"@))
    } else if assumption.confidence_millis > 1000 {
        Err(AssumptionErrorView::Invalid("confidence_millis must be at most 1000"@))
    } else if assumption.input_origins.len() > MAX_INPUT_ORIGINS {
        Err(
            AssumptionErrorView::TooLarge {
                actual: assumption.input_origins.len() as usize,
                maximum: MAX_INPUT_ORIGINS,
            },
        )
    } else {
        Ok(())
    }
}

pub open spec fn assumption_check(assumption: AssumptionView) -> Result<(), AssumptionErrorView> {
    if assumption.run_id.0 == 0 || assumption.owner.0 == 0 {
        Err(AssumptionErrorView::Invalid("run and owner IDs must be non-zero"@))
    } else {
        both(
            text_check("subject"@, assumption.subject),
            both(
                text_check("normalized value"@, assumption.normalized_value),
                both(
                    text_check("claim"@, assumption.claim),
                    both(
                        text_list_check("evidence"@, assumption.evidence),
                        both(
                            text_list_check("dependencies"@, assumption.dependencies),
                            limits_check(assumption),
                        ),
                    ),
                ),
            ),
        )
    }
}

impl Assumption {
    pub fn new(
        ids: &mut IdSource,
        run_id: RunId,
        owner: AgentId,
        subject: &str,
        value: &str,
        claim: &str,
    ) -> (assumption: Assumption)
        requires
            old(ids).can_issue(1),
        ensures
            assumption@ == (AssumptionView {
                id: AssumptionId(old(ids).upcoming(0)),
                run_id,
                owner,
                subject: normalized(subject@),
                normalized_value: normalized(value@),
                claim: claim@,
                evidence: seq![],
                dependencies: seq![],
                revision: 1,
                confidence_millis: 1000,
                state: AssumptionState::Active,
                trust: TrustOrigin::Generated,
                input_origins: seq![],
            }),
            final(ids).issued_from(old(ids), 1),
    {
        let assumption = Assumption {
            id: AssumptionId::new(ids),
            run_id,
            owner,
            subject: normalize(subject),
            normalized_value: normalize(value),
            claim: claim.to_owned(),
            evidence: Vec::new(),
            dependencies: Vec::new(),
            revision: 1,
            confidence_millis: 1000,
            state: AssumptionState::Active,
            trust: TrustOrigin::Generated,
            input_origins: Vec::new(),
        };
        assert(assumption@.evidence =~= seq![]);
        assert(assumption@.dependencies =~= seq![]);
        assert(assumption@.input_origins =~= seq![]);
        assumption
    }

    pub fn with_evidence(self, evidence: Vec<String>) -> (assumption: Assumption)
        ensures
            assumption@ == (AssumptionView { evidence: texts(evidence@), ..self@ }),
    {
        Assumption { evidence, ..self }
    }

    pub fn with_dependencies(self, dependencies: Vec<String>) -> (assumption: Assumption)
        ensures
            assumption@ == (AssumptionView { dependencies: texts(dependencies@), ..self@ }),
    {
        Assumption { dependencies, ..self }
    }

    pub fn with_confidence_millis(self, confidence_millis: u16) -> (assumption: Assumption)
        ensures
            assumption@ == (AssumptionView { confidence_millis, ..self@ }),
    {
        Assumption { confidence_millis, ..self }
    }

    pub fn with_trust(self, trust: TrustOrigin) -> (assumption: Assumption)
        ensures
            assumption@ == (AssumptionView { trust, ..self@ }),
    {
        Assumption { trust, ..self }
    }

    pub fn with_input_origin(self, origin: TrustOrigin) -> (assumption: Assumption)
        ensures
            assumption@ == (AssumptionView {
                input_origins: self@.input_origins.push(origin),
                ..self@
            }),
    {
        let mut assumption = self;
        assumption.input_origins.push(origin);
        assumption
    }

    /// The trust of the claim: its own combined with every input.
    pub fn effective_trust_origin(&self) -> (origin: TrustOrigin)
        ensures
            origin == combined_all(self@.trust, self@.input_origins),
    {
        combine_all(self.trust, &self.input_origins)
    }

    pub fn validate(&self) -> (result: Result<(), AssumptionError>)
        ensures
            outcome(result) == assumption_check(self@),
    {
        if self.run_id.value() == 0 || self.owner.value() == 0 {
            return Err(
                AssumptionError::Invalid("run and owner IDs must be non-zero".to_owned()),
            );
        }
        validate_text("subject", self.subject.as_str())?;
        validate_text("normalized value", self.normalized_value.as_str())?;
        validate_text("claim", self.claim.as_str())?;
        validate_text_list("evidence", &self.evidence)?;
        validate_text_list("dependencies", &self.dependencies)?;
        if self.revision == 0 {
            return Err(
                AssumptionError::Invalid("revision must be greater than zero".to_owned()),
            );
        }
        if self.confidence_millis > 1000 {
            return Err(
                AssumptionError::Invalid("confidence_millis must be at most 1000".to_owned()),
            );
        }
        let origins: usize = self.input_origins.len();
        if origins > MAX_INPUT_ORIGINS {
            return Err(
                AssumptionError::TooLarge { actual: origins, maximum: MAX_INPUT_ORIGINS },
            );
        }
        Ok(())
    }
}

// ---------------------------------------------------------------------------
// Bounded text.

pub open spec fn at_end<V>() -> Result<(V, Seq<u8>), AssumptionErrorView> {
    Err(AssumptionErrorView::InvalidEncoding("unexpected end of assumption payload"@))
}

#[verifier::opaque]
pub open spec fn text_bytes(text: Seq<char>) -> Seq<u8> {
    blob64_bytes(encode_utf8(text))
}

/// The encodings of some texts, one behind the other.
pub open spec fn texts_bytes(list: Seq<Seq<char>>) -> Seq<u8>
    decreases list.len(),
{
    if list.len() == 0 {
        seq![]
    } else {
        texts_bytes(list.drop_last()) + text_bytes(list.last())
    }
}

/// A list of texts behind its length.
pub open spec fn text_list_bytes(list: Seq<Seq<char>>) -> Seq<u8> {
    u16_bytes(list.len() as u16) + texts_bytes(list)
}

pub open spec fn text_fits(text: Seq<char>) -> bool {
    encode_utf8(text).len() <= MAX_TEXT_BYTES
}

pub open spec fn text_list_fits(list: Seq<Seq<char>>) -> bool {
    list.len() <= MAX_LIST_ITEMS && forall|i: int|
        0 <= i < list.len() ==> text_fits(#[trigger] list[i])
}

#[verifier::opaque]
pub open spec fn get_text(bytes: Seq<u8>) -> Result<(Seq<char>, Seq<u8>), AssumptionErrorView> {
    match get_u64(bytes) {
        None => at_end(),
        Some((length, rest)) => if length > MAX_TEXT_BYTES {
            Err(AssumptionErrorView::TooLarge { actual: length as usize, maximum: MAX_TEXT_BYTES })
        } else {
            match get_bytes(rest, length as nat) {
                None => at_end(),
                Some((front, rest)) => match text_of(front) {
                    Some(text) => Ok((text, rest)),
                    None => Err(AssumptionErrorView::InvalidEncoding("string is not UTF-8"@)),
                },
            }
        },
    }
}

/// `count` more texts behind those of `list`.
pub open spec fn get_texts(list: Seq<Seq<char>>, count: nat, bytes: Seq<u8>) -> Result<
    (Seq<Seq<char>>, Seq<u8>),
    AssumptionErrorView,
>
    decreases count,
{
    if count == 0 {
        Ok((list, bytes))
    } else {
        match get_text(bytes) {
            Err(error) => Err(error),
            Ok((text, rest)) => get_texts(list.push(text), (count - 1) as nat, rest),
        }
    }
}

pub open spec fn get_text_list(bytes: Seq<u8>) -> Result<(Seq<Seq<char>>, Seq<u8>), AssumptionErrorView> {
    match get_u16(bytes) {
        None => at_end(),
        Some((count, rest)) => if count > MAX_LIST_ITEMS {
            Err(AssumptionErrorView::InvalidEncoding("list has too many entries"@))
        } else {
            get_texts(seq![], count as nat, rest)
        },
    }
}

pub broadcast proof fn text_reads_back(text: Seq<char>, rest: Seq<u8>)
    requires
        text_fits(text),
    ensures
        #[trigger] get_text(text_bytes(text) + rest) == Ok::<_, AssumptionErrorView>((text, rest)),
{
    broadcast use group_codec;

    reveal(text_bytes);
    reveal(get_text);
    reveal(blob64_bytes);
    let bytes = encode_utf8(text);
    assert(blob64_bytes(bytes) + rest == u64_bytes(bytes.len() as u64) + (bytes + rest));
}

proof fn texts_read_back(before: Seq<Seq<char>>, list: Seq<Seq<char>>, more: nat, rest: Seq<u8>)
    requires
        forall|i: int| 0 <= i < list.len() ==> text_fits(#[trigger] list[i]),
    ensures
        get_texts(before, list.len() + more, texts_bytes(list) + rest) == get_texts(
            before + list,
            more,
            rest,
        ),
    decreases list.len(),
{
    if list.len() == 0 {
        assert(texts_bytes(list) + rest =~= rest);
        assert(before + list =~= before);
    } else {
        let front = list.drop_last();
        let tail = text_bytes(list.last()) + rest;
        assert(texts_bytes(list) + rest =~= texts_bytes(front) + tail);
        texts_read_back(before, front, more + 1, tail);
        text_reads_back(list.last(), rest);
        assert((before + front).push(list.last()) =~= before + list);
    }
}

pub broadcast proof fn text_list_reads_back(list: Seq<Seq<char>>, rest: Seq<u8>)
    requires
        text_list_fits(list),
    ensures
        #[trigger] get_text_list(text_list_bytes(list) + rest) == Ok::<_, AssumptionErrorView>(
            (list, rest),
        ),
{
    broadcast use group_codec;

    texts_read_back(seq![], list, 0, rest);
    assert(Seq::<Seq<char>>::empty() + list =~= list);
    assert(text_list_bytes(list) + rest == u16_bytes(list.len() as u16) + (texts_bytes(list)
        + rest));
}

fn unexpected_end() -> (error: AssumptionError)
    ensures
        error@ == (AssumptionErrorView::InvalidEncoding("unexpected end of assumption payload"@)),
{
    AssumptionError::InvalidEncoding("unexpected end of assumption payload".to_owned())
}

fn put_text(out: &mut Vec<u8>, value: &str)
    requires
        text_fits(value@),
    ensures
        final(out)@ == old(out)@ + text_bytes(value@),
{
    broadcast use concat_is_associative;
    reveal(text_bytes);
    reveal(blob64_bytes);
    let bytes = value.as_bytes();
    put_u64(out, bytes.len() as u64);
    put_bytes(out, bytes);
}

fn put_text_list(out: &mut Vec<u8>, list: &Vec<String>)
    requires
        text_list_fits(texts(list@)),
    ensures
        final(out)@ == old(out)@ + text_list_bytes(texts(list@)),
{
    broadcast use concat_is_associative;
    put_u16(out, list.len() as u16);
    let ghost base = out@;
    let mut index: usize = 0;
    assert(texts(list@.take(0)) =~= Seq::<Seq<char>>::empty());
    assert(base + texts_bytes(texts(list@.take(0))) =~= base);
    while index < list.len()
        invariant
            index <= list@.len(),
            text_list_fits(texts(list@)),
            out@ == base + texts_bytes(texts(list@.take(index as int))),
        decreases list.len() - index,
    {
        assert(texts(list@)[index as int] == list@[index as int]@);
        put_text(out, list[index].as_str());
        index += 1;
        proof {
            let now = texts(list@.take(index as int));
            assert(now.drop_last() =~= texts(list@.take(index - 1)));
            assert(now.last() == list@[index - 1]@);
            assert(out@ =~= base + texts_bytes(now));
        }
    }
    assert(list@.take(list@.len() as int) =~= list@);
}

fn read_text(reader: &mut Reader) -> (result: Result<String, AssumptionError>)
    ensures
        parsed(outcome(result), final(reader).left(), get_text(old(reader).left())),
{
    reveal(get_text);
    let Some(length) = reader.u64() else {
        return Err(unexpected_end());
    };
    if length > MAX_TEXT_BYTES as u64 {
        return Err(AssumptionError::TooLarge { actual: length as usize, maximum: MAX_TEXT_BYTES });
    }
    let Some(bytes) = reader.take(length as usize) else {
        return Err(unexpected_end());
    };
    match text_from(bytes) {
        Some(text) => Ok(text),
        None => Err(AssumptionError::InvalidEncoding("string is not UTF-8".to_owned())),
    }
}

fn read_text_list(reader: &mut Reader) -> (result: Result<Vec<String>, AssumptionError>)
    ensures
        match get_text_list(old(reader).left()) {
            Ok((list, left)) => result is Ok && texts(result->Ok_0@) == list
                && final(reader).left() == left,
            Err(error) => result is Err && result->Err_0@ == error,
        },
{
    let Some(count) = reader.u16() else {
        return Err(unexpected_end());
    };
    if count > MAX_LIST_ITEMS as u16 {
        return Err(AssumptionError::InvalidEncoding("list has too many entries".to_owned()));
    }
    let ghost whole = get_texts(seq![], count as nat, reader.left());
    let mut list: Vec<String> = Vec::new();
    let mut index: u16 = 0;
    assert(texts(list@) =~= Seq::<Seq<char>>::empty());
    while index < count
        invariant
            index <= count,
            whole == get_text_list(old(reader).left()),
            whole == get_texts(texts(list@), (count - index) as nat, reader.left()),
        decreases count - index,
    {
        let text = read_text(reader)?;
        let ghost before = texts(list@);
        list.push(text);
        assert(texts(list@) =~= before.push(text@));
        index += 1;
    }
    Ok(list)
}

// ---------------------------------------------------------------------------
// The encoding of transitions.

pub open spec fn state_byte(state: AssumptionState) -> u8 {
    match state {
        AssumptionState::Active => 0,
        AssumptionState::Conflicted => 1,
        AssumptionState::Invalidated => 2,
        AssumptionState::Resolved => 3,
    }
}

pub open spec fn state_from_byte(tag: u8) -> Result<AssumptionState, AssumptionErrorView> {
    if tag == 0 {
        Ok(AssumptionState::Active)
    } else if tag == 1 {
        Ok(AssumptionState::Conflicted)
    } else if tag == 2 {
        Ok(AssumptionState::Invalidated)
    } else if tag == 3 {
        Ok(AssumptionState::Resolved)
    } else {
        Err(AssumptionErrorView::InvalidEncoding("unknown state tag "@ + decimal(tag as nat)))
    }
}

pub open spec fn origins_bytes(list: Seq<TrustOrigin>) -> Seq<u8>
    decreases list.len(),
{
    if list.len() == 0 {
        seq![]
    } else {
        origins_bytes(list.drop_last()) + u8_bytes(origin_byte(list.last()))
    }
}

pub open spec fn origin_list_bytes(list: Seq<TrustOrigin>) -> Seq<u8> {
    u16_bytes(list.len() as u16) + origins_bytes(list)
}

pub open spec fn agents_bytes(list: Seq<AgentId>) -> Seq<u8>
    decreases list.len(),
{
    if list.len() == 0 {
        seq![]
    } else {
        agents_bytes(list.drop_last()) + u64_bytes(list.last().0)
    }
}

pub open spec fn agent_list_bytes(list: Seq<AgentId>) -> Seq<u8> {
    u16_bytes(list.len() as u16) + agents_bytes(list)
}

/// The identities of an assumption.
pub open spec fn head_bytes(assumption: AssumptionView) -> Seq<u8> {
    u64_bytes(assumption.id.0) + u64_bytes(assumption.run_id.0) + u64_bytes(assumption.owner.0)
}

/// The texts of an assumption.
pub open spec fn claim_bytes(assumption: AssumptionView) -> Seq<u8> {
    text_bytes(assumption.subject) + text_bytes(assumption.normalized_value) + text_bytes(
        assumption.claim,
    ) + text_list_bytes(assumption.evidence) + text_list_bytes(assumption.dependencies)
}

/// Revision, confidence and state.
pub open spec fn standing_bytes(assumption: AssumptionView) -> Seq<u8> {
    u64_bytes(assumption.revision) + u16_bytes(assumption.confidence_millis) + u8_bytes(
        state_byte(assumption.state),
    )
}

/// Trust and its inputs, which the legacy schema lacks.
pub open spec fn trust_bytes(assumption: AssumptionView) -> Seq<u8> {
    u8_bytes(origin_byte(assumption.trust)) + origin_list_bytes(assumption.input_origins)
}

pub open spec fn assumption_bytes(assumption: AssumptionView) -> Seq<u8> {
    head_bytes(assumption) + claim_bytes(assumption) + standing_bytes(assumption) + trust_bytes(
        assumption,
    )
}

pub open spec fn conflict_bytes(conflict: AssumptionConflictView) -> Seq<u8> {
    u64_bytes(conflict.id.0) + text_bytes(conflict.subject) + u64_bytes(conflict.left.0)
        + u64_bytes(conflict.right.0) + agent_list_bytes(conflict.affected_agents)
}

pub open spec fn transition_bytes(transition: AssumptionTransitionView) -> Seq<u8> {
    match transition {
        AssumptionTransitionView::Created { assumption } => u8_bytes(0) + assumption_bytes(
            assumption,
        ),
        AssumptionTransitionView::StateChanged { assumption_id, state } => u8_bytes(1) + u64_bytes(
            assumption_id.0,
        ) + u8_bytes(state_byte(state)),
        AssumptionTransitionView::ConflictDetected { conflict } => u8_bytes(2) + conflict_bytes(
            conflict,
        ),
    }
}

pub open spec fn conflict_check(conflict: AssumptionConflictView) -> Result<
    (),
    AssumptionErrorView,
> {
    match text_check("conflict subject"@, conflict.subject) {
        Err(error) => Err(error),
        Ok(_) => if conflict.affected_agents.len() > MAX_LIST_ITEMS {
            Err(AssumptionErrorView::Invalid("too many affected agents"@))
        } else {
            Ok(())
        },
    }
}

pub open spec fn transition_check(transition: AssumptionTransitionView) -> Result<
    (),
    AssumptionErrorView,
> {
    match transition {
        AssumptionTransitionView::Created { assumption } => assumption_check(assumption),
        AssumptionTransitionView::StateChanged { .. } => Ok(()),
        AssumptionTransitionView::ConflictDetected { conflict } => conflict_check(conflict),
    }
}

/// What encoding a transition yields.
pub open spec fn encoded(transition: AssumptionTransitionView) -> Result<
    Seq<u8>,
    AssumptionErrorView,
> {
    match transition_check(transition) {
        Err(error) => Err(error),
        Ok(_) => if transition_bytes(transition).len() > MAX_PAYLOAD_BYTES {
            Err(
                AssumptionErrorView::TooLarge {
                    actual: transition_bytes(transition).len() as usize,
                    maximum: MAX_PAYLOAD_BYTES,
                },
            )
        } else {
            Ok(transition_bytes(transition))
        },
    }
}

pub open spec fn get_state(bytes: Seq<u8>) -> Result<
    (AssumptionState, Seq<u8>),
    AssumptionErrorView,
> {
    match get_u8(bytes) {
        None => at_end(),
        Some((tag, rest)) => match state_from_byte(tag) {
            Err(error) => Err(error),
            Ok(state) => Ok((state, rest)),
        },
    }
}

pub open spec fn get_origin(bytes: Seq<u8>) -> Result<(TrustOrigin, Seq<u8>), AssumptionErrorView> {
    match get_u8(bytes) {
        None => at_end(),
        Some((tag, rest)) => match origin_of_byte(tag) {
            None => Err(
                AssumptionErrorView::InvalidEncoding(
                    "unknown trust origin tag "@ + decimal(tag as nat),
                ),
            ),
            Some(origin) => Ok((origin, rest)),
        },
    }
}

pub open spec fn get_origins(list: Seq<TrustOrigin>, count: nat, bytes: Seq<u8>) -> Result<
    (Seq<TrustOrigin>, Seq<u8>),
    AssumptionErrorView,
>
    decreases count,
{
    if count == 0 {
        Ok((list, bytes))
    } else {
        match get_origin(bytes) {
            Err(error) => Err(error),
            Ok((origin, rest)) => get_origins(list.push(origin), (count - 1) as nat, rest),
        }
    }
}

pub open spec fn get_origin_list(bytes: Seq<u8>) -> Result<
    (Seq<TrustOrigin>, Seq<u8>),
    AssumptionErrorView,
> {
    match get_u16(bytes) {
        None => at_end(),
        Some((count, rest)) => if count > MAX_INPUT_ORIGINS {
            Err(AssumptionErrorView::InvalidEncoding("too many input origins"@))
        } else {
            get_origins(seq![], count as nat, rest)
        },
    }
}

pub open spec fn get_agents(list: Seq<AgentId>, count: nat, bytes: Seq<u8>) -> Result<
    (Seq<AgentId>, Seq<u8>),
    AssumptionErrorView,
>
    decreases count,
{
    if count == 0 {
        Ok((list, bytes))
    } else {
        match get_u64(bytes) {
            None => at_end(),
            Some((id, rest)) => get_agents(list.push(AgentId(id)), (count - 1) as nat, rest),
        }
    }
}

pub open spec fn get_agent_list(bytes: Seq<u8>) -> Result<
    (Seq<AgentId>, Seq<u8>),
    AssumptionErrorView,
> {
    match get_u16(bytes) {
        None => at_end(),
        Some((count, rest)) => if count > MAX_LIST_ITEMS {
            Err(AssumptionErrorView::InvalidEncoding("too many affected agents"@))
        } else {
            get_agents(seq![], count as nat, rest)
        },
    }
}

/// The texts of an assumption, behind its identities.
pub open spec fn get_claims(head: AssumptionView, bytes: Seq<u8>) -> Result<
    (AssumptionView, Seq<u8>),
    AssumptionErrorView,
> {
    match get_text(bytes) {
        Err(error) => Err(error),
        Ok((subject, rest)) => match get_text(rest) {
            Err(error) => Err(error),
            Ok((normalized_value, rest)) => match get_text(rest) {
                Err(error) => Err(error),
                Ok((claim, rest)) => match get_text_list(rest) {
                    Err(error) => Err(error),
                    Ok((evidence, rest)) => match get_text_list(rest) {
                        Err(error) => Err(error),
                        Ok((dependencies, rest)) => Ok(
                            (
                                AssumptionView {
                                    subject,
                                    normalized_value,
                                    claim,
                                    evidence,
                                    dependencies,
                                    ..head
                                },
                                rest,
                            ),
                        ),
                    },
                },
            },
        },
    }
}

/// Revision, confidence and state, behind the texts.
pub open spec fn get_standing(head: AssumptionView, bytes: Seq<u8>) -> Result<
    (AssumptionView, Seq<u8>),
    AssumptionErrorView,
> {
    match get_u64(bytes) {
        None => at_end(),
        Some((revision, rest)) => match get_u16(rest) {
            None => at_end(),
            Some((confidence_millis, rest)) => match get_state(rest) {
                Err(error) => Err(error),
                Ok((state, rest)) => Ok(
                    (AssumptionView { revision, confidence_millis, state, ..head }, rest),
                ),
            },
        },
    }
}

/// Trust and its inputs; the legacy schema means generated content.
pub open spec fn get_trust(has_trust: bool, head: AssumptionView, bytes: Seq<u8>) -> Result<
    (AssumptionView, Seq<u8>),
    AssumptionErrorView,
> {
    if has_trust {
        match get_origin(bytes) {
            Err(error) => Err(error),
            Ok((trust, rest)) => match get_origin_list(rest) {
                Err(error) => Err(error),
                Ok((input_origins, rest)) => Ok(
                    (AssumptionView { trust, input_origins, ..head }, rest),
                ),
            },
        }
    } else {
        Ok(
            (
                AssumptionView {
                    trust: TrustOrigin::Generated,
                    input_origins: seq![],
                    ..head
                },
                bytes,
            ),
        )
    }
}

pub open spec fn assumption_head(id: u64, run_id: u64, owner: u64) -> AssumptionView {
    AssumptionView {
        id: AssumptionId(id),
        run_id: RunId(run_id),
        owner: AgentId(owner),
        subject: seq![],
        normalized_value: seq![],
        claim: seq![],
        evidence: seq![],
        dependencies: seq![],
        revision: 0,
        confidence_millis: 0,
        state: AssumptionState::Active,
        trust: TrustOrigin::Generated,
        input_origins: seq![],
    }
}

pub open spec fn get_assumption_fields(has_trust: bool, bytes: Seq<u8>) -> Result<
    (AssumptionView, Seq<u8>),
    AssumptionErrorView,
> {
    match get_u64(bytes) {
        None => at_end(),
        Some((id, rest)) => match get_u64(rest) {
            None => at_end(),
            Some((run_id, rest)) => match get_u64(rest) {
                None => at_end(),
                Some((owner, rest)) => match get_claims(assumption_head(id, run_id, owner), rest) {
                    Err(error) => Err(error),
                    Ok((head, rest)) => match get_standing(head, rest) {
                        Err(error) => Err(error),
                        Ok((head, rest)) => get_trust(has_trust, head, rest),
                    },
                },
            },
        },
    }
}

pub open spec fn get_assumption(has_trust: bool, bytes: Seq<u8>) -> Result<
    (AssumptionView, Seq<u8>),
    AssumptionErrorView,
> {
    match get_assumption_fields(has_trust, bytes) {
        Err(error) => Err(error),
        Ok((assumption, rest)) => match assumption_check(assumption) {
            Err(error) => Err(error),
            Ok(_) => Ok((assumption, rest)),
        },
    }
}

pub open spec fn get_conflict_fields(bytes: Seq<u8>) -> Result<
    (AssumptionConflictView, Seq<u8>),
    AssumptionErrorView,
> {
    match get_u64(bytes) {
        None => at_end(),
        Some((id, rest)) => match get_text(rest) {
            Err(error) => Err(error),
            Ok((subject, rest)) => match get_u64(rest) {
                None => at_end(),
                Some((left, rest)) => match get_u64(rest) {
                    None => at_end(),
                    Some((right, rest)) => match get_agent_list(rest) {
                        Err(error) => Err(error),
                        Ok((affected_agents, rest)) => Ok(
                            (
                                AssumptionConflictView {
                                    id: ConflictId(id),
                                    subject,
                                    left: AssumptionId(left),
                                    right: AssumptionId(right),
                                    affected_agents,
                                },
                                rest,
                            ),
                        ),
                    },
                },
            },
        },
    }
}

pub open spec fn get_conflict(bytes: Seq<u8>) -> Result<
    (AssumptionConflictView, Seq<u8>),
    AssumptionErrorView,
> {
    match get_conflict_fields(bytes) {
        Err(error) => Err(error),
        Ok((conflict, rest)) => match text_check("conflict subject"@, conflict.subject) {
            Err(error) => Err(error),
            Ok(_) => Ok((conflict, rest)),
        },
    }
}

pub open spec fn get_transition(version: u16, bytes: Seq<u8>) -> Result<
    (AssumptionTransitionView, Seq<u8>),
    AssumptionErrorView,
> {
    match get_u8(bytes) {
        None => at_end(),
        Some((tag, rest)) => if tag == 0 {
            match get_assumption(version == ASSUMPTION_SCHEMA_VERSION, rest) {
                Err(error) => Err(error),
                Ok((assumption, rest)) => Ok(
                    (AssumptionTransitionView::Created { assumption }, rest),
                ),
            }
        } else if tag == 1 {
            match get_u64(rest) {
                None => at_end(),
                Some((id, rest)) => match get_state(rest) {
                    Err(error) => Err(error),
                    Ok((state, rest)) => Ok(
                        (
                            AssumptionTransitionView::StateChanged {
                                assumption_id: AssumptionId(id),
                                state,
                            },
                            rest,
                        ),
                    ),
                },
            }
        } else if tag == 2 {
            match get_conflict(rest) {
                Err(error) => Err(error),
                Ok((conflict, rest)) => Ok(
                    (AssumptionTransitionView::ConflictDetected { conflict }, rest),
                ),
            }
        } else {
            Err(
                AssumptionErrorView::InvalidEncoding(
                    "unknown transition tag "@ + decimal(tag as nat),
                ),
            )
        },
    }
}

/// What a whole encoded transition means, or why it means nothing.
pub open spec fn decoded(version: u16, bytes: Seq<u8>) -> Result<
    AssumptionTransitionView,
    AssumptionErrorView,
> {
    if version != LEGACY_ASSUMPTION_SCHEMA_VERSION && version != ASSUMPTION_SCHEMA_VERSION {
        Err(AssumptionErrorView::UnsupportedVersion(version))
    } else if bytes.len() > MAX_PAYLOAD_BYTES {
        Err(
            AssumptionErrorView::TooLarge {
                actual: bytes.len() as usize,
                maximum: MAX_PAYLOAD_BYTES,
            },
        )
    } else {
        match get_transition(version, bytes) {
            Err(error) => Err(error),
            Ok((transition, rest)) => if rest.len() != 0 {
                Err(AssumptionErrorView::InvalidEncoding("trailing bytes"@))
            } else {
                Ok(transition)
            },
        }
    }
}

fn state_tag(state: AssumptionState) -> (tag: u8)
    ensures
        tag == state_byte(state),
{
    match state {
        AssumptionState::Active => 0,
        AssumptionState::Conflicted => 1,
        AssumptionState::Invalidated => 2,
        AssumptionState::Resolved => 3,
    }
}

fn put_origins(out: &mut Vec<u8>, list: &Vec<TrustOrigin>)
    requires
        list@.len() <= MAX_INPUT_ORIGINS,
    ensures
        final(out)@ == old(out)@ + origin_list_bytes(list@),
{
    broadcast use concat_is_associative;
    put_u16(out, list.len() as u16);
    let ghost base = out@;
    let mut index: usize = 0;
    assert(list@.take(0) =~= Seq::<TrustOrigin>::empty());
    assert(base + origins_bytes(list@.take(0)) =~= base);
    while index < list.len()
        invariant
            index <= list@.len(),
            out@ == base + origins_bytes(list@.take(index as int)),
        decreases list.len() - index,
    {
        put_u8(out, origin_tag(list[index]));
        index += 1;
        proof {
            assert(list@.take(index as int).drop_last() =~= list@.take(index - 1));
            assert(out@ =~= base + origins_bytes(list@.take(index as int)));
        }
    }
    assert(list@.take(list@.len() as int) =~= list@);
}

fn put_agents(out: &mut Vec<u8>, list: &Vec<AgentId>)
    requires
        list@.len() <= MAX_LIST_ITEMS,
    ensures
        final(out)@ == old(out)@ + agent_list_bytes(list@),
{
    broadcast use concat_is_associative;
    put_u16(out, list.len() as u16);
    let ghost base = out@;
    let mut index: usize = 0;
    assert(list@.take(0) =~= Seq::<AgentId>::empty());
    assert(base + agents_bytes(list@.take(0)) =~= base);
    while index < list.len()
        invariant
            index <= list@.len(),
            out@ == base + agents_bytes(list@.take(index as int)),
        decreases list.len() - index,
    {
        put_u64(out, list[index].value());
        index += 1;
        proof {
            assert(list@.take(index as int).drop_last() =~= list@.take(index - 1));
            assert(out@ =~= base + agents_bytes(list@.take(index as int)));
        }
    }
    assert(list@.take(list@.len() as int) =~= list@);
}

fn put_assumption(out: &mut Vec<u8>, assumption: &Assumption)
    requires
        assumption_check(assumption@) is Ok,
    ensures
        final(out)@ == old(out)@ + assumption_bytes(assumption@),
{
    broadcast use concat_is_associative;
    proof {
        checked_texts_fit("evidence"@, assumption@.evidence);
        checked_texts_fit("dependencies"@, assumption@.dependencies);
    }
    let ghost base = out@;
    put_u64(out, assumption.id.value());
    put_u64(out, assumption.run_id.value());
    put_u64(out, assumption.owner.value());
    assert(out@ == base + head_bytes(assumption@));
    let ghost base = out@;
    put_text(out, assumption.subject.as_str());
    put_text(out, assumption.normalized_value.as_str());
    put_text(out, assumption.claim.as_str());
    put_text_list(out, &assumption.evidence);
    put_text_list(out, &assumption.dependencies);
    assert(out@ == base + claim_bytes(assumption@));
    let ghost base = out@;
    put_u64(out, assumption.revision);
    put_u16(out, assumption.confidence_millis);
    put_u8(out, state_tag(assumption.state));
    assert(out@ == base + standing_bytes(assumption@));
    let ghost base = out@;
    put_u8(out, origin_tag(assumption.trust));
    put_origins(out, &assumption.input_origins);
    assert(out@ == base + trust_bytes(assumption@));
}

fn check_conflict(conflict: &AssumptionConflict) -> (result: Result<(), AssumptionError>)
    ensures
        outcome(result) == conflict_check(conflict@),
{
    validate_text("conflict subject", conflict.subject.as_str())?;
    if conflict.affected_agents.len() > MAX_LIST_ITEMS {
        return Err(AssumptionError::Invalid("too many affected agents".to_owned()));
    }
    Ok(())
}

fn put_conflict(out: &mut Vec<u8>, conflict: &AssumptionConflict)
    requires
        conflict_check(conflict@) is Ok,
    ensures
        final(out)@ == old(out)@ + conflict_bytes(conflict@),
{
    broadcast use concat_is_associative;
    put_u64(out, conflict.id.value());
    put_text(out, conflict.subject.as_str());
    put_u64(out, conflict.left.value());
    put_u64(out, conflict.right.value());
    put_agents(out, &conflict.affected_agents);
}

/// Encodes a valid transition under the current schema.
pub fn encode_transition(transition: &AssumptionTransition) -> (result: Result<
    Vec<u8>,
    AssumptionError,
>)
    ensures
        outcome(result) == encoded(transition@),
{
    broadcast use concat_is_associative;
    let mut out: Vec<u8> = Vec::new();
    match transition {
        AssumptionTransition::Created { assumption } => {
            assumption.validate()?;
            put_u8(&mut out, 0);
            put_assumption(&mut out, assumption);
        },
        AssumptionTransition::StateChanged { assumption_id, state } => {
            put_u8(&mut out, 1);
            put_u64(&mut out, assumption_id.value());
            put_u8(&mut out, state_tag(*state));
        },
        AssumptionTransition::ConflictDetected { conflict } => {
            check_conflict(conflict)?;
            put_u8(&mut out, 2);
            put_conflict(&mut out, conflict);
        },
    }
    assert(out@ =~= transition_bytes(transition@));
    let length: usize = out.len();
    if length > MAX_PAYLOAD_BYTES {
        return Err(AssumptionError::TooLarge { actual: length, maximum: MAX_PAYLOAD_BYTES });
    }
    Ok(out)
}

fn read_u64(reader: &mut Reader) -> (result: Result<u64, AssumptionError>)
    ensures
        match get_u64(old(reader).left()) {
            Some((value, left)) => result == Ok::<u64, AssumptionError>(value)
                && final(reader).left() == left,
            None => result is Err && result->Err_0@ == at_end::<u64>()->Err_0,
        },
{
    match reader.u64() {
        Some(value) => Ok(value),
        None => Err(unexpected_end()),
    }
}

fn read_state(reader: &mut Reader) -> (result: Result<AssumptionState, AssumptionError>)
    ensures
        match get_state(old(reader).left()) {
            Ok((state, left)) => result == Ok::<AssumptionState, AssumptionError>(state)
                && final(reader).left() == left,
            Err(error) => result is Err && result->Err_0@ == error,
        },
{
    let Some(tag) = reader.u8() else {
        return Err(unexpected_end());
    };
    match tag {
        0 => Ok(AssumptionState::Active),
        1 => Ok(AssumptionState::Conflicted),
        2 => Ok(AssumptionState::Invalidated),
        3 => Ok(AssumptionState::Resolved),
        _ => Err(AssumptionError::InvalidEncoding(numbered("unknown state tag ", tag as u128))),
    }
}

fn read_origin(reader: &mut Reader) -> (result: Result<TrustOrigin, AssumptionError>)
    ensures
        match get_origin(old(reader).left()) {
            Ok((origin, left)) => result == Ok::<TrustOrigin, AssumptionError>(origin)
                && final(reader).left() == left,
            Err(error) => result is Err && result->Err_0@ == error,
        },
{
    let Some(tag) = reader.u8() else {
        return Err(unexpected_end());
    };
    match origin_for_tag(tag) {
        Some(origin) => Ok(origin),
        None => Err(
            AssumptionError::InvalidEncoding(numbered("unknown trust origin tag ", tag as u128)),
        ),
    }
}

fn read_origin_list(reader: &mut Reader) -> (result: Result<Vec<TrustOrigin>, AssumptionError>)
    ensures
        parsed(outcome(result), final(reader).left(), get_origin_list(old(reader).left())),
{
    let Some(count) = reader.u16() else {
        return Err(unexpected_end());
    };
    if count > MAX_INPUT_ORIGINS as u16 {
        return Err(AssumptionError::InvalidEncoding("too many input origins".to_owned()));
    }
    let mut list: Vec<TrustOrigin> = Vec::new();
    let mut index: u16 = 0;
    assert(list@ =~= Seq::<TrustOrigin>::empty());
    while index < count
        invariant
            index <= count,
            get_origin_list(old(reader).left()) == get_origins(
                list@,
                (count - index) as nat,
                reader.left(),
            ),
        decreases count - index,
    {
        let origin = read_origin(reader)?;
        list.push(origin);
        index += 1;
    }
    Ok(list)
}

fn read_agent_list(reader: &mut Reader) -> (result: Result<Vec<AgentId>, AssumptionError>)
    ensures
        parsed(outcome(result), final(reader).left(), get_agent_list(old(reader).left())),
{
    let Some(count) = reader.u16() else {
        return Err(unexpected_end());
    };
    if count > MAX_LIST_ITEMS as u16 {
        return Err(AssumptionError::InvalidEncoding("too many affected agents".to_owned()));
    }
    let mut list: Vec<AgentId> = Vec::new();
    let mut index: u16 = 0;
    assert(list@ =~= Seq::<AgentId>::empty());
    while index < count
        invariant
            index <= count,
            get_agent_list(old(reader).left()) == get_agents(
                list@,
                (count - index) as nat,
                reader.left(),
            ),
        decreases count - index,
    {
        let id: u64 = read_u64(reader)?;
        list.push(AgentId::from_u64(id));
        index += 1;
    }
    Ok(list)
}

fn read_assumption_fields(has_trust: bool, reader: &mut Reader) -> (result: Result<
    Assumption,
    AssumptionError,
>)
    ensures
        parsed(
            outcome(result),
            final(reader).left(),
            get_assumption_fields(has_trust, old(reader).left()),
        ),
{
    let id = AssumptionId::from_u64(read_u64(reader)?);
    let run_id = RunId::from_u64(read_u64(reader)?);
    let owner = AgentId::from_u64(read_u64(reader)?);
    let subject = read_text(reader)?;
    let normalized_value = read_text(reader)?;
    let claim = read_text(reader)?;
    let evidence = read_text_list(reader)?;
    let dependencies = read_text_list(reader)?;
    let revision: u64 = read_u64(reader)?;
    let Some(confidence_millis) = reader.u16() else {
        return Err(unexpected_end());
    };
    let state = read_state(reader)?;
    let mut trust = TrustOrigin::Generated;
    let mut input_origins: Vec<TrustOrigin> = Vec::new();
    if has_trust {
        trust = read_origin(reader)?;
        input_origins = read_origin_list(reader)?;
    } else {
        assert(input_origins@ =~= seq![]);
    }
    Ok(
        Assumption {
            id,
            run_id,
            owner,
            subject,
            normalized_value,
            claim,
            evidence,
            dependencies,
            revision,
            confidence_millis,
            state,
            trust,
            input_origins,
        },
    )
}

fn read_assumption(has_trust: bool, reader: &mut Reader) -> (result: Result<
    Assumption,
    AssumptionError,
>)
    ensures
        parsed(
            outcome(result),
            final(reader).left(),
            get_assumption(has_trust, old(reader).left()),
        ),
{
    let assumption = read_assumption_fields(has_trust, reader)?;
    assumption.validate()?;
    Ok(assumption)
}

fn read_conflict(reader: &mut Reader) -> (result: Result<AssumptionConflict, AssumptionError>)
    ensures
        parsed(outcome(result), final(reader).left(), get_conflict(old(reader).left())),
{
    let id = ConflictId::from_u64(read_u64(reader)?);
    let subject = read_text(reader)?;
    let left = AssumptionId::from_u64(read_u64(reader)?);
    let right = AssumptionId::from_u64(read_u64(reader)?);
    let affected_agents = read_agent_list(reader)?;
    let conflict = AssumptionConflict { id, subject, left, right, affected_agents };
    validate_text("conflict subject", conflict.subject.as_str())?;
    Ok(conflict)
}

/// Decodes a transition of either schema and validates what it carries.
pub fn decode_transition(version: u16, bytes: &[u8]) -> (result: Result<
    AssumptionTransition,
    AssumptionError,
>)
    ensures
        outcome(result) == decoded(version, bytes@),
{
    if version != LEGACY_ASSUMPTION_SCHEMA_VERSION && version != ASSUMPTION_SCHEMA_VERSION {
        return Err(AssumptionError::UnsupportedVersion(version));
    }
    let length: usize = bytes.len();
    if length > MAX_PAYLOAD_BYTES {
        return Err(AssumptionError::TooLarge { actual: length, maximum: MAX_PAYLOAD_BYTES });
    }
    let mut reader = Reader::new(bytes);
    let Some(tag) = reader.u8() else {
        return Err(unexpected_end());
    };
    let transition = match tag {
        0 => AssumptionTransition::Created {
            assumption: read_assumption(version == ASSUMPTION_SCHEMA_VERSION, &mut reader)?,
        },
        1 => {
            let assumption_id = AssumptionId::from_u64(read_u64(&mut reader)?);
            let state = read_state(&mut reader)?;
            AssumptionTransition::StateChanged { assumption_id, state }
        },
        2 => AssumptionTransition::ConflictDetected { conflict: read_conflict(&mut reader)? },
        _ => {
            return Err(
                AssumptionError::InvalidEncoding(numbered("unknown transition tag ", tag as u128)),
            );
        },
    };
    if !reader.is_done() {
        return Err(AssumptionError::InvalidEncoding("trailing bytes".to_owned()));
    }
    Ok(transition)
}

// ---------------------------------------------------------------------------
// Reading back what was written.

proof fn origins_read_back(
    before: Seq<TrustOrigin>,
    list: Seq<TrustOrigin>,
    more: nat,
    rest: Seq<u8>,
)
    ensures
        get_origins(before, list.len() + more, origins_bytes(list) + rest) == get_origins(
            before + list,
            more,
            rest,
        ),
    decreases list.len(),
{
    if list.len() == 0 {
        assert(origins_bytes(list) + rest =~= rest);
        assert(before + list =~= before);
    } else {
        let front = list.drop_last();
        let tail = u8_bytes(origin_byte(list.last())) + rest;
        assert(origins_bytes(list) + rest =~= origins_bytes(front) + tail);
        origins_read_back(before, front, more + 1, tail);
        get_u8_of_bytes(origin_byte(list.last()), rest);
        assert((before + front).push(list.last()) =~= before + list);
    }
}

proof fn agents_read_back(before: Seq<AgentId>, list: Seq<AgentId>, more: nat, rest: Seq<u8>)
    ensures
        get_agents(before, list.len() + more, agents_bytes(list) + rest) == get_agents(
            before + list,
            more,
            rest,
        ),
    decreases list.len(),
{
    if list.len() == 0 {
        assert(agents_bytes(list) + rest =~= rest);
        assert(before + list =~= before);
    } else {
        let front = list.drop_last();
        let tail = u64_bytes(list.last().0) + rest;
        assert(agents_bytes(list) + rest =~= agents_bytes(front) + tail);
        agents_read_back(before, front, more + 1, tail);
        get_u64_of_bytes(list.last().0, rest);
        assert((before + front).push(list.last()) =~= before + list);
    }
}

proof fn claims_read_back(head: AssumptionView, assumption: AssumptionView, rest: Seq<u8>)
    requires
        assumption_check(assumption) is Ok,
    ensures
        get_claims(head, claim_bytes(assumption) + rest) == Ok::<_, AssumptionErrorView>(
            (
                AssumptionView {
                    subject: assumption.subject,
                    normalized_value: assumption.normalized_value,
                    claim: assumption.claim,
                    evidence: assumption.evidence,
                    dependencies: assumption.dependencies,
                    ..head
                },
                rest,
            ),
        ),
{
    checked_texts_fit("evidence"@, assumption.evidence);
    checked_texts_fit("dependencies"@, assumption.dependencies);
    let d = text_list_bytes(assumption.dependencies) + rest;
    let c = text_list_bytes(assumption.evidence) + d;
    let b = text_bytes(assumption.claim) + c;
    let a = text_bytes(assumption.normalized_value) + b;
    regroup4(
        text_bytes(assumption.subject),
        text_bytes(assumption.normalized_value),
        text_bytes(assumption.claim),
        text_list_bytes(assumption.evidence),
        text_list_bytes(assumption.dependencies),
        rest,
    );
    text_reads_back(assumption.subject, a);
    text_reads_back(assumption.normalized_value, b);
    text_reads_back(assumption.claim, c);
    text_list_reads_back(assumption.evidence, d);
    text_list_reads_back(assumption.dependencies, rest);
}

proof fn standing_reads_back(head: AssumptionView, assumption: AssumptionView, rest: Seq<u8>)
    ensures
        get_standing(head, standing_bytes(assumption) + rest) == Ok::<_, AssumptionErrorView>(
            (
                AssumptionView {
                    revision: assumption.revision,
                    confidence_millis: assumption.confidence_millis,
                    state: assumption.state,
                    ..head
                },
                rest,
            ),
        ),
{
    let tag = state_byte(assumption.state);
    let b = u8_bytes(tag) + rest;
    let a = u16_bytes(assumption.confidence_millis) + b;
    regroup2(
        u64_bytes(assumption.revision),
        u16_bytes(assumption.confidence_millis),
        u8_bytes(tag),
        rest,
    );
    get_u64_of_bytes(assumption.revision, a);
    get_u16_of_bytes(assumption.confidence_millis, b);
    get_u8_of_bytes(tag, rest);
}

proof fn trust_reads_back(head: AssumptionView, assumption: AssumptionView, rest: Seq<u8>)
    requires
        assumption.input_origins.len() <= MAX_INPUT_ORIGINS,
    ensures
        get_trust(true, head, trust_bytes(assumption) + rest) == Ok::<_, AssumptionErrorView>(
            (
                AssumptionView {
                    trust: assumption.trust,
                    input_origins: assumption.input_origins,
                    ..head
                },
                rest,
            ),
        ),
{
    let list = assumption.input_origins;
    let a = origin_list_bytes(list) + rest;
    regroup1(u8_bytes(origin_byte(assumption.trust)), origin_list_bytes(list), rest);
    get_u8_of_bytes(origin_byte(assumption.trust), a);
    regroup1(u16_bytes(list.len() as u16), origins_bytes(list), rest);
    get_u16_of_bytes(list.len() as u16, origins_bytes(list) + rest);
    origins_read_back(seq![], list, 0, rest);
    assert(Seq::<TrustOrigin>::empty() + list =~= list);
}

proof fn head_reads_back(has_trust: bool, assumption: AssumptionView, rest: Seq<u8>)
    ensures
        get_assumption_fields(has_trust, head_bytes(assumption) + rest) == match get_claims(
            assumption_head(assumption.id.0, assumption.run_id.0, assumption.owner.0),
            rest,
        ) {
            Err(error) => Err(error),
            Ok((head, rest)) => match get_standing(head, rest) {
                Err(error) => Err(error),
                Ok((head, rest)) => get_trust(has_trust, head, rest),
            },
        },
{
    let b = u64_bytes(assumption.owner.0) + rest;
    let a = u64_bytes(assumption.run_id.0) + b;
    regroup2(
        u64_bytes(assumption.id.0),
        u64_bytes(assumption.run_id.0),
        u64_bytes(assumption.owner.0),
        rest,
    );
    get_u64_of_bytes(assumption.id.0, a);
    get_u64_of_bytes(assumption.run_id.0, b);
    get_u64_of_bytes(assumption.owner.0, rest);
}

proof fn assumption_reads_back(assumption: AssumptionView)
    requires
        assumption_check(assumption) is Ok,
    ensures
        get_assumption(true, assumption_bytes(assumption)) == Ok::<_, AssumptionErrorView>(
            (assumption, Seq::<u8>::empty()),
        ),
{
    let empty = Seq::<u8>::empty();
    let c = trust_bytes(assumption) + empty;
    let b = standing_bytes(assumption) + c;
    let a = claim_bytes(assumption) + b;
    assert(assumption_bytes(assumption) == head_bytes(assumption) + a) by {
        let whole = assumption_bytes(assumption);
        assert(whole =~= whole + empty);
        regroup3(
            head_bytes(assumption),
            claim_bytes(assumption),
            standing_bytes(assumption),
            trust_bytes(assumption),
            empty,
        );
    }
    let head = assumption_head(assumption.id.0, assumption.run_id.0, assumption.owner.0);
    head_reads_back(true, assumption, a);
    claims_read_back(head, assumption, b);
    let head = get_claims(head, a)->Ok_0.0;
    standing_reads_back(head, assumption, c);
    let head = get_standing(head, b)->Ok_0.0;
    trust_reads_back(head, assumption, empty);
}

/// A legacy encoding ends before the trust fields.
pub open spec fn legacy_assumption_bytes(assumption: AssumptionView) -> Seq<u8> {
    head_bytes(assumption) + claim_bytes(assumption) + standing_bytes(assumption)
}

proof fn legacy_assumption_reads_back(assumption: AssumptionView)
    requires
        assumption_check(assumption) is Ok,
        assumption.trust == TrustOrigin::Generated,
        assumption.input_origins.len() == 0,
    ensures
        get_assumption(false, legacy_assumption_bytes(assumption)) == Ok::<
            _,
            AssumptionErrorView,
        >((assumption, Seq::<u8>::empty())),
{
    let empty = Seq::<u8>::empty();
    let b = standing_bytes(assumption) + empty;
    let a = claim_bytes(assumption) + b;
    assert(legacy_assumption_bytes(assumption) == head_bytes(assumption) + a) by {
        let whole = legacy_assumption_bytes(assumption);
        assert(whole =~= whole + empty);
        regroup2(
            head_bytes(assumption),
            claim_bytes(assumption),
            standing_bytes(assumption),
            empty,
        );
    }
    let head = assumption_head(assumption.id.0, assumption.run_id.0, assumption.owner.0);
    head_reads_back(false, assumption, a);
    claims_read_back(head, assumption, b);
    let head = get_claims(head, a)->Ok_0.0;
    standing_reads_back(head, assumption, empty);
    assert(assumption.input_origins =~= seq![]);
}

proof fn conflict_reads_back(conflict: AssumptionConflictView)
    requires
        conflict_check(conflict) is Ok,
    ensures
        get_conflict(conflict_bytes(conflict)) == Ok::<_, AssumptionErrorView>(
            (conflict, Seq::<u8>::empty()),
        ),
{
    let empty = Seq::<u8>::empty();
    let list = conflict.affected_agents;
    let d = agent_list_bytes(list) + empty;
    let c = u64_bytes(conflict.right.0) + d;
    let b = u64_bytes(conflict.left.0) + c;
    let a = text_bytes(conflict.subject) + b;
    assert(conflict_bytes(conflict) == u64_bytes(conflict.id.0) + a) by {
        let whole = conflict_bytes(conflict);
        assert(whole =~= whole + empty);
        regroup4(
            u64_bytes(conflict.id.0),
            text_bytes(conflict.subject),
            u64_bytes(conflict.left.0),
            u64_bytes(conflict.right.0),
            agent_list_bytes(list),
            empty,
        );
    }
    get_u64_of_bytes(conflict.id.0, a);
    text_reads_back(conflict.subject, b);
    get_u64_of_bytes(conflict.left.0, c);
    get_u64_of_bytes(conflict.right.0, d);
    regroup1(u16_bytes(list.len() as u16), agents_bytes(list), empty);
    get_u16_of_bytes(list.len() as u16, agents_bytes(list) + empty);
    agents_read_back(seq![], list, 0, empty);
    assert(Seq::<AgentId>::empty() + list =~= list);
}

/// Decoding gives back every transition that can be encoded.
pub proof fn decoding_inverts_encoding(transition: AssumptionTransitionView)
    requires
        encoded(transition) is Ok,
    ensures
        decoded(ASSUMPTION_SCHEMA_VERSION, encoded(transition)->Ok_0) == Ok::<
            AssumptionTransitionView,
            AssumptionErrorView,
        >(transition),
{
    match transition {
        AssumptionTransitionView::Created { assumption } => {
            get_u8_of_bytes(0, assumption_bytes(assumption));
            assumption_reads_back(assumption);
        },
        AssumptionTransitionView::StateChanged { assumption_id, state } => {
            let empty = Seq::<u8>::empty();
            let a = u8_bytes(state_byte(state)) + empty;
            let whole = transition_bytes(transition);
            assert(whole == u8_bytes(1) + (u64_bytes(assumption_id.0) + a)) by {
                assert(whole =~= whole + empty);
                regroup2(
                    u8_bytes(1),
                    u64_bytes(assumption_id.0),
                    u8_bytes(state_byte(state)),
                    empty,
                );
            }
            get_u8_of_bytes(1, u64_bytes(assumption_id.0) + a);
            get_u64_of_bytes(assumption_id.0, a);
            get_u8_of_bytes(state_byte(state), empty);
        },
        AssumptionTransitionView::ConflictDetected { conflict } => {
            get_u8_of_bytes(2, conflict_bytes(conflict));
            conflict_reads_back(conflict);
        },
    }
}

/// Assumptions of the legacy schema decode as generated content without
/// inputs.
pub proof fn legacy_assumptions_still_decode(assumption: AssumptionView)
    requires
        assumption_check(assumption) is Ok,
        assumption.trust == TrustOrigin::Generated,
        assumption.input_origins.len() == 0,
        (u8_bytes(0) + legacy_assumption_bytes(assumption)).len() <= MAX_PAYLOAD_BYTES,
    ensures
        decoded(
            LEGACY_ASSUMPTION_SCHEMA_VERSION,
            u8_bytes(0) + legacy_assumption_bytes(assumption),
        ) == Ok::<AssumptionTransitionView, AssumptionErrorView>(
            AssumptionTransitionView::Created { assumption },
        ),
{
    get_u8_of_bytes(0, legacy_assumption_bytes(assumption));
    legacy_assumption_reads_back(assumption);
}

// ---------------------------------------------------------------------------
// The graph.

/// Assumptions and the conflicts found between them.
#[derive(Debug, PartialEq, Eq)]
pub struct AssumptionGraph {
    assumptions: Table<AssumptionId, Assumption>,
    conflicts: Table<ConflictId, AssumptionConflict>,
}

pub struct AssumptionGraphView {
    pub assumptions: Map<AssumptionId, AssumptionView>,
    pub conflicts: Map<ConflictId, AssumptionConflictView>,
}

impl View for AssumptionGraph {
    type V = AssumptionGraphView;

    closed spec fn view(&self) -> AssumptionGraphView {
        AssumptionGraphView { assumptions: self.assumptions@, conflicts: self.conflicts@ }
    }
}

pub open spec fn empty_graph() -> AssumptionGraphView {
    AssumptionGraphView { assumptions: Map::empty(), conflicts: Map::empty() }
}

#[derive(Clone, Debug, PartialEq, Eq)]
pub struct AssumptionPublication {
    pub assumption: Assumption,
    pub conflicts: Vec<AssumptionConflict>,
    pub transitions: Vec<AssumptionTransition>,
}

pub struct AssumptionPublicationView {
    pub assumption: AssumptionView,
    pub conflicts: Seq<AssumptionConflictView>,
    pub transitions: Seq<AssumptionTransitionView>,
}

pub open spec fn conflict_views(list: Seq<AssumptionConflict>) -> Seq<AssumptionConflictView> {
    list.map_values(|conflict: AssumptionConflict| conflict@)
}

pub open spec fn transition_views(list: Seq<AssumptionTransition>) -> Seq<
    AssumptionTransitionView,
> {
    list.map_values(|transition: AssumptionTransition| transition@)
}

impl View for AssumptionPublication {
    type V = AssumptionPublicationView;

    open spec fn view(&self) -> AssumptionPublicationView {
        AssumptionPublicationView {
            assumption: self.assumption@,
            conflicts: conflict_views(self.conflicts@),
            transitions: transition_views(self.transitions@),
        }
    }
}

/// The assumption as it is published: normalized, with its trust combined
/// from all inputs.
pub open spec fn prepared(assumption: AssumptionView) -> AssumptionView {
    AssumptionView {
        subject: normalized(assumption.subject),
        normalized_value: normalized(assumption.normalized_value),
        trust: combined_all(assumption.trust, assumption.input_origins),
        ..assumption
    }
}

/// Two live assumptions give one subject different values.
pub open spec fn contradicts(existing: AssumptionView, assumption: AssumptionView) -> bool {
    &&& existing.subject == assumption.subject
    &&& existing.normalized_value != assumption.normalized_value
    &&& existing.state == AssumptionState::Active || existing.state == AssumptionState::Conflicted
}

/// `found` lists, in identity order, what contradicts an assumption.
pub open spec fn lists_contradictions(
    assumptions: Map<AssumptionId, AssumptionView>,
    assumption: AssumptionView,
    found: Seq<AssumptionId>,
) -> bool {
    &&& ascending(found)
    &&& forall|id: AssumptionId|
        #[trigger] found.contains(id) <==> assumptions.contains_key(id) && contradicts(
            assumptions[id],
            assumption,
        )
}

/// The owners of two assumptions, in order and once each.
pub open spec fn affected(left: AgentId, right: AgentId) -> Seq<AgentId> {
    if left.0 < right.0 {
        seq![left, right]
    } else if left == right {
        seq![left]
    } else {
        seq![right, left]
    }
}

/// The conflict between an assumption and the one stored under `existing`.
pub open spec fn conflict_between(
    existing: AssumptionId,
    owner: AgentId,
    assumption: AssumptionView,
    id: ConflictId,
) -> AssumptionConflictView {
    AssumptionConflictView {
        id,
        subject: assumption.subject,
        left: if existing.0 < assumption.id.0 { existing } else { assumption.id },
        right: if existing.0 < assumption.id.0 { assumption.id } else { existing },
        affected_agents: affected(owner, assumption.owner),
    }
}

/// The conflicts with everything in `found`, under the identities of `fresh`.
pub open spec fn conflicts_with(
    assumptions: Map<AssumptionId, AssumptionView>,
    assumption: AssumptionView,
    found: Seq<AssumptionId>,
    fresh: Seq<ConflictId>,
) -> Seq<AssumptionConflictView> {
    Seq::new(
        found.len(),
        |i: int| conflict_between(found[i], assumptions[found[i]].owner, assumption, fresh[i]),
    )
}

/// Every assumption of `found` marked as conflicted.
pub open spec fn marked(
    assumptions: Map<AssumptionId, AssumptionView>,
    found: Seq<AssumptionId>,
) -> Map<AssumptionId, AssumptionView>
    decreases found.len(),
{
    if found.len() == 0 {
        assumptions
    } else {
        let before = marked(assumptions, found.drop_last());
        before.insert(
            found.last(),
            AssumptionView { state: AssumptionState::Conflicted, ..before[found.last()] },
        )
    }
}

/// Conflicts stored under their identities.
pub open spec fn with_conflicts(
    conflicts: Map<ConflictId, AssumptionConflictView>,
    new: Seq<AssumptionConflictView>,
) -> Map<ConflictId, AssumptionConflictView>
    decreases new.len(),
{
    if new.len() == 0 {
        conflicts
    } else {
        with_conflicts(conflicts, new.drop_last()).insert(new.last().id, new.last())
    }
}

/// One state change and one conflict for everything in `found`.
pub open spec fn conflict_transitions(
    found: Seq<AssumptionId>,
    conflicts: Seq<AssumptionConflictView>,
) -> Seq<AssumptionTransitionView>
    decreases found.len(),
{
    if found.len() == 0 {
        seq![]
    } else {
        conflict_transitions(found.drop_last(), conflicts.drop_last()).push(
            AssumptionTransitionView::StateChanged {
                assumption_id: found.last(),
                state: AssumptionState::Conflicted,
            },
        ).push(AssumptionTransitionView::ConflictDetected { conflict: conflicts.last() })
    }
}

/// The published assumption: conflicted where anything contradicts it.
pub open spec fn settled(assumption: AssumptionView, found: Seq<AssumptionId>) -> AssumptionView {
    if found.len() > 0 {
        AssumptionView { state: AssumptionState::Conflicted, ..assumption }
    } else {
        assumption
    }
}

/// What publishing an assumption that is valid and new reports.
pub open spec fn publication(
    graph: AssumptionGraphView,
    assumption: AssumptionView,
    found: Seq<AssumptionId>,
    fresh: Seq<ConflictId>,
) -> AssumptionPublicationView {
    let conflicts = conflicts_with(graph.assumptions, assumption, found, fresh);
    let stored = settled(assumption, found);
    AssumptionPublicationView {
        assumption: stored,
        conflicts,
        transitions: seq![AssumptionTransitionView::Created { assumption: stored }]
            + conflict_transitions(found, conflicts),
    }
}

/// The graph after publishing an assumption that is valid and new.
pub open spec fn published(
    graph: AssumptionGraphView,
    assumption: AssumptionView,
    found: Seq<AssumptionId>,
    fresh: Seq<ConflictId>,
) -> AssumptionGraphView {
    AssumptionGraphView {
        assumptions: marked(
            graph.assumptions.insert(assumption.id, settled(assumption, found)),
            found,
        ),
        conflicts: with_conflicts(
            graph.conflicts,
            conflicts_with(graph.assumptions, assumption, found, fresh),
        ),
    }
}

/// The identities a source issues next.
pub open spec fn fresh_conflicts(ids: IdSource, count: nat) -> Seq<ConflictId> {
    Seq::new(count, |i: int| ConflictId(ids.upcoming(i as nat)))
}

/// The graph holds no conflict under an identity that the source has yet to
/// issue.
pub open spec fn conflicts_unissued(graph: AssumptionGraphView, ids: IdSource) -> bool {
    forall|ahead: nat|
        ids.can_issue(ahead + 1) ==> !graph.conflicts.contains_key(
            ConflictId(#[trigger] ids.upcoming(ahead)),
        )
}

proof fn published_conflicts_are_new(
    graph: AssumptionGraphView,
    claim: AssumptionView,
    found: Seq<AssumptionId>,
    ids: IdSource,
    later: IdSource,
)
    requires
        conflicts_unissued(graph, ids),
        ids.can_issue(found.len()),
        later.issued_from(&ids, found.len()),
    ensures
        ({
            let fresh = fresh_conflicts(ids, found.len());
            &&& fresh.no_duplicates()
            &&& forall|i: int|
                0 <= i < fresh.len() ==> !graph.conflicts.contains_key(#[trigger] fresh[i])
            &&& conflicts_unissued(published(graph, claim, found, fresh), later)
        }),
{
    let fresh = fresh_conflicts(ids, found.len());
    assert forall|i: int, j: int| 0 <= i < fresh.len() && 0 <= j < fresh.len() && i != j implies
        fresh[i] != fresh[j] by {
        a_source_never_repeats(ids, i as nat, j as nat);
    }
    assert forall|i: int| 0 <= i < fresh.len() implies !graph.conflicts.contains_key(
        #[trigger] fresh[i],
    ) by {
        assert(ids.can_issue((i as nat) + 1));
        assert(fresh[i] == ConflictId(ids.upcoming(i as nat)));
    }
    let all = conflicts_with(graph.assumptions, claim, found, fresh);
    let after = published(graph, claim, found, fresh);
    assert forall|ahead: nat| later.can_issue(ahead + 1) implies !after.conflicts.contains_key(
        ConflictId(#[trigger] later.upcoming(ahead)),
    ) by {
        let place = (found.len() + ahead) as nat;
        assert(later.upcoming(ahead) == ids.upcoming(place));
        assert(ids.can_issue(place + 1));
        let id = ConflictId(later.upcoming(ahead));
        assert forall|i: int| 0 <= i < all.len() implies (#[trigger] all[i]).id != id by {
            a_source_never_repeats(ids, i as nat, place);
        }
        new_conflicts_only(graph.conflicts, all, id);
    }
}

/// Why an assumption cannot be published.
pub open spec fn publish_refusal(graph: AssumptionGraphView, assumption: AssumptionView) -> Option<
    AssumptionErrorView,
> {
    match assumption_check(assumption) {
        Err(error) => Some(error),
        Ok(_) => if graph.assumptions.contains_key(assumption.id) {
            Some(AssumptionErrorView::Duplicate(assumption.id))
        } else {
            None
        },
    }
}

/// The graph after a transition and what applying it returns. A conflict
/// whose identity is taken replaces the one that is there, and is reported.
pub open spec fn applied(graph: AssumptionGraphView, transition: AssumptionTransitionView) -> (
    AssumptionGraphView,
    Result<(), AssumptionErrorView>,
) {
    match transition {
        AssumptionTransitionView::Created { assumption } => match assumption_check(assumption) {
            Err(error) => (graph, Err(error)),
            Ok(_) => if combined_all(assumption.trust, assumption.input_origins)
                != assumption.trust {
                (graph, Err(AssumptionErrorView::TrustUpgrade { assumption_id: assumption.id }))
            } else if graph.assumptions.contains_key(assumption.id) {
                (graph, Err(AssumptionErrorView::Duplicate(assumption.id)))
            } else {
                (
                    AssumptionGraphView {
                        assumptions: graph.assumptions.insert(assumption.id, assumption),
                        ..graph
                    },
                    Ok(()),
                )
            },
        },
        AssumptionTransitionView::StateChanged { assumption_id, state } =>
            if !graph.assumptions.contains_key(assumption_id) {
                (graph, Err(AssumptionErrorView::Unknown(assumption_id)))
            } else {
                (
                    AssumptionGraphView {
                        assumptions: graph.assumptions.insert(
                            assumption_id,
                            AssumptionView { state, ..graph.assumptions[assumption_id] },
                        ),
                        ..graph
                    },
                    Ok(()),
                )
            },
        AssumptionTransitionView::ConflictDetected { conflict } =>
            if !graph.assumptions.contains_key(conflict.left) {
                (graph, Err(AssumptionErrorView::Unknown(conflict.left)))
            } else if !graph.assumptions.contains_key(conflict.right) {
                (graph, Err(AssumptionErrorView::Unknown(conflict.right)))
            } else {
                (
                    AssumptionGraphView {
                        conflicts: graph.conflicts.insert(conflict.id, conflict),
                        ..graph
                    },
                    if graph.conflicts.contains_key(conflict.id) {
                        Err(AssumptionErrorView::DuplicateConflict(conflict.id))
                    } else {
                        Ok(())
                    },
                )
            },
    }
}

/// The graph after a list of transitions, or the first refusal.
pub open spec fn applied_all(
    graph: AssumptionGraphView,
    transitions: Seq<AssumptionTransitionView>,
) -> Result<AssumptionGraphView, AssumptionErrorView>
    decreases transitions.len(),
{
    if transitions.len() == 0 {
        Ok(graph)
    } else {
        match applied_all(graph, transitions.drop_last()) {
            Err(error) => Err(error),
            Ok(before) => match applied(before, transitions.last()) {
                (after, Ok(_)) => Ok(after),
                (_, Err(error)) => Err(error),
            },
        }
    }
}

/// What one event does to the graph; events of other kinds do nothing.
pub open spec fn event_applied(graph: AssumptionGraphView, event: EventView) -> Result<
    AssumptionGraphView,
    AssumptionErrorView,
> {
    match event.kind {
        EventKindView::AssumptionTransition { version, payload } => match decoded(
            version,
            payload,
        ) {
            Err(error) => Err(error),
            Ok(transition) => match applied(graph, transition) {
                (after, Ok(_)) => Ok(after),
                (_, Err(error)) => Err(error),
            },
        },
        _ => Ok(graph),
    }
}

/// The graph that a history adds up to, or the first refusal.
pub open spec fn replayed(events: Seq<EventView>) -> Result<
    AssumptionGraphView,
    AssumptionErrorView,
>
    decreases events.len(),
{
    if events.len() == 0 {
        Ok(empty_graph())
    } else {
        match replayed(events.drop_last()) {
            Err(error) => Err(error),
            Ok(graph) => event_applied(graph, events.last()),
        }
    }
}

proof fn refused_replay_stays(events: Seq<EventView>, count: int)
    requires
        0 <= count <= events.len(),
        replayed(events.take(count)) is Err,
    ensures
        replayed(events) == replayed(events.take(count)),
    decreases events.len() - count,
{
    if count == events.len() {
        assert(events.take(count) =~= events);
    } else {
        assert(events.take(count + 1).drop_last() =~= events.take(count));
        refused_replay_stays(events, count + 1);
    }
}

impl AssumptionGraph {
    pub fn new() -> (graph: AssumptionGraph)
        ensures
            graph@ == empty_graph(),
    {
        AssumptionGraph { assumptions: Table::new(), conflicts: Table::new() }
    }

    pub fn assumptions(&self) -> (assumptions: &Table<AssumptionId, Assumption>)
        ensures
            assumptions@ == self@.assumptions,
    {
        &self.assumptions
    }

    pub fn conflicts(&self) -> (conflicts: &Table<ConflictId, AssumptionConflict>)
        ensures
            conflicts@ == self@.conflicts,
    {
        &self.conflicts
    }

    /// The identities of what contradicts an assumption, in order.
    fn contradictions(&self, assumption: &Assumption) -> (found: Vec<AssumptionId>)
        ensures
            lists_contradictions(self@.assumptions, assumption@, found@),
            found@.len() <= self@.assumptions.len(),
    {
        let length: usize = self.assumptions.len();
        let ghost keys = self.assumptions.keys();
        let ghost values = self.assumptions.values();
        let mut found: Vec<AssumptionId> = Vec::new();
        let mut index: usize = 0;
        while index < length
            invariant
                length == keys.len(),
                keys == self.assumptions.keys(),
                values == self.assumptions.values(),
                self.assumptions.well_formed(),
                length == self@.assumptions.len(),
                index <= length,
                found@.len() <= index,
                ascending(found@),
                forall|j: int|
                    0 <= j < found@.len() ==> exists|i: int|
                        0 <= i < index && keys[i] == #[trigger] found@[j] && contradicts(
                            values[i]@,
                            assumption@,
                        ),
                forall|i: int|
                    0 <= i < index && contradicts(values[i]@, assumption@) ==> found@.contains(
                        #[trigger] keys[i],
                    ),
            decreases length - index,
        {
            let id = *self.assumptions.key_at(index);
            let existing = self.assumptions.value_at(index);
            let live = existing.state == AssumptionState::Active || existing.state
                == AssumptionState::Conflicted;
            let ghost before = found@;
            if existing.subject == assumption.subject && existing.normalized_value
                != assumption.normalized_value && live {
                found.push(id);
                proof {
                    assert(found@[found@.len() - 1] == id);
                    assert forall|i: int|
                        0 <= i < index && contradicts(
                            values[i]@,
                            assumption@,
                        ) implies found@.contains(#[trigger] keys[i]) by {
                        let j = choose|j: int| 0 <= j < before.len() && before[j] == keys[i];
                        assert(found@[j] == keys[i]);
                    }
                    assert forall|a: int, b: int| 0 <= a < b < found@.len() implies AssumptionId::before(
                        (#[trigger] found@[a]).model(),
                        (#[trigger] found@[b]).model(),
                    ) by {
                        assert(before[a] == found@[a]);
                        if b < before.len() {
                            assert(before[b] == found@[b]);
                        } else {
                            let i = choose|i: int|
                                0 <= i < index && keys[i] == before[a] && contradicts(
                                    values[i]@,
                                    assumption@,
                                );
                            assert(keys[i] == found@[a]);
                            assert(keys[index as int] == found@[b]);
                            assert(AssumptionId::before(keys[i].model(), keys[index as int].model()));
                        }
                    }
                    assert forall|j: int| 0 <= j < found@.len() implies exists|i: int|
                        0 <= i < index + 1 && keys[i] == #[trigger] found@[j] && contradicts(
                            values[i]@,
                            assumption@,
                        ) by {
                        if j < before.len() {
                            assert(before[j] == found@[j]);
                            let i = choose|i: int|
                                0 <= i < index && keys[i] == before[j] && contradicts(
                                    values[i]@,
                                    assumption@,
                                );
                            assert(keys[i] == found@[j]);
                        } else {
                            assert(keys[index as int] == found@[j]);
                        }
                    }
                }
            }
            index += 1;
        }
        proof {
            let map = self@.assumptions;
            assert forall|id: AssumptionId| #[trigger] found@.contains(id) <==> map.contains_key(
                id,
            ) && contradicts(map[id], assumption@) by {
                if found@.contains(id) {
                    let j = choose|j: int| 0 <= j < found@.len() && found@[j] == id;
                    assert(found@[j] == id);
                    let i = choose|i: int|
                        0 <= i < index && keys[i] == found@[j] && contradicts(
                            values[i]@,
                            assumption@,
                        );
                    entry_in_map(keys, values, i);
                }
                if map.contains_key(id) && contradicts(map[id], assumption@) {
                    let i = map_entry_has_index(keys, values, id);
                    assert(keys[i] == id);
                }
            }
        }
        found
    }

    fn affected_agents(left: AgentId, right: AgentId) -> (agents: Vec<AgentId>)
        ensures
            agents@ == affected(left, right),
    {
        let mut agents: Vec<AgentId> = Vec::new();
        if left.value() < right.value() {
            agents.push(left);
            agents.push(right);
        } else if left == right {
            agents.push(left);
        } else {
            agents.push(right);
            agents.push(left);
        }
        assert(agents@ =~= affected(left, right));
        agents
    }

    /// Publishes an assumption: it is normalized, its trust is combined from
    /// its inputs, and every live assumption that gives its subject another
    /// value is reported as a conflict. The source must be able to issue one
    /// conflict identity for each assumption.
    pub fn publish(&mut self, ids: &mut IdSource, assumption: Assumption) -> (result: Result<
        AssumptionPublication,
        AssumptionError,
    >)
        requires
            old(ids).can_issue(old(self)@.assumptions.len()),
        ensures
            match publish_refusal(old(self)@, prepared(assumption@)) {
                Some(error) => {
                    &&& result is Err
                    &&& result->Err_0@ == error
                    &&& final(self)@ == old(self)@
                    &&& final(ids).issued_from(old(ids), 0)
                },
                None => exists|found: Seq<AssumptionId>|
                    {
                        let fresh = fresh_conflicts(*old(ids), found.len());
                        &&& #[trigger] lists_contradictions(
                            old(self)@.assumptions,
                            prepared(assumption@),
                            found,
                        )
                        &&& result is Ok
                        &&& result->Ok_0@ == publication(
                            old(self)@,
                            prepared(assumption@),
                            found,
                            fresh,
                        )
                        &&& final(self)@ == published(
                            old(self)@,
                            prepared(assumption@),
                            found,
                            fresh,
                        )
                        &&& final(ids).issued_from(old(ids), found.len())
                    },
            },
            conflicts_unissued(old(self)@, *old(ids)) ==> {
                &&& conflicts_unissued(final(self)@, *final(ids))
                &&& result matches Ok(publication) ==> forall|i: int|
                    0 <= i < publication@.conflicts.len() ==> !old(self)@.conflicts.contains_key(
                        (#[trigger] publication@.conflicts[i]).id,
                    )
            },
    {
        let ghost start = self@;
        let ghost issued = *ids;
        let trust = assumption.effective_trust_origin();
        let mut assumption = assumption;
        assumption.subject = normalize(assumption.subject.as_str());
        assumption.normalized_value = normalize(assumption.normalized_value.as_str());
        assumption.trust = trust;
        let ghost claim = assumption@;
        assumption.validate()?;
        if self.assumptions.contains_key(&assumption.id) {
            return Err(AssumptionError::Duplicate(assumption.id));
        }
        let found = self.contradictions(&assumption);
        if found.len() > 0 {
            assumption.state = AssumptionState::Conflicted;
        }
        let ghost fresh = fresh_conflicts(issued, found@.len());
        let ghost stored = settled(claim, found@);
        let mut conflicts: Vec<AssumptionConflict> = Vec::new();
        let mut transitions: Vec<AssumptionTransition> = Vec::new();
        self.assumptions.insert(assumption.id, assumption.duplicate());
        transitions.push(AssumptionTransition::Created { assumption: assumption.duplicate() });
        let ghost all = conflicts_with(start.assumptions, claim, found@, fresh);
        let ghost base = start.assumptions.insert(claim.id, stored);
        let mut index: usize = 0;
        proof {
            assert(found@.take(0) =~= Seq::<AssumptionId>::empty());
            assert(all.take(0) =~= Seq::<AssumptionConflictView>::empty());
            assert(conflict_views(conflicts@) =~= all.take(0));
            assert(transition_views(transitions@) =~= seq![
                AssumptionTransitionView::Created { assumption: stored },
            ] + conflict_transitions(found@.take(0), all.take(0)));
        }
        while index < found.len()
            invariant
                index <= found@.len(),
                assumption@ == stored,
                stored == settled(claim, found@),
                !start.assumptions.contains_key(claim.id),
                lists_contradictions(start.assumptions, claim, found@),
                fresh == fresh_conflicts(issued, found@.len()),
                all == conflicts_with(start.assumptions, claim, found@, fresh),
                base == start.assumptions.insert(claim.id, stored),
                self.assumptions@ == marked(base, found@.take(index as int)),
                self.conflicts@ == with_conflicts(start.conflicts, all.take(index as int)),
                conflict_views(conflicts@) == all.take(index as int),
                transition_views(transitions@) == seq![
                    AssumptionTransitionView::Created { assumption: stored },
                ] + conflict_transitions(found@.take(index as int), all.take(index as int)),
                issued.can_issue(found@.len()),
                ids.issued_from(&issued, index as nat),
            decreases found.len() - index,
        {
            let existing_id = found[index];
            proof {
                assert(found@.contains(existing_id));
                assert forall|i: int| 0 <= i < index implies base.contains_key(
                    #[trigger] found@.take(index as int)[i],
                ) by {
                    assert(found@.contains(found@[i]));
                }
                marking_keeps_assumptions(base, found@.take(index as int));
                assert(found@.take(index + 1).drop_last() =~= found@.take(index as int));
                assert(all.take(index + 1).drop_last() =~= all.take(index as int));
            }
            let ghost before = self.assumptions@;
            let mut owner = assumption.owner;
            match self.assumptions.get_mut(&existing_id) {
                Some(existing) => {
                    owner = existing.owner;
                    existing.state = AssumptionState::Conflicted;
                },
                None => {},
            }
            let (left, right) = if existing_id.value() < assumption.id.value() {
                (existing_id, assumption.id)
            } else {
                (assumption.id, existing_id)
            };
            let conflict = AssumptionConflict {
                id: ConflictId::new(ids),
                subject: assumption.subject.clone(),
                left,
                right,
                affected_agents: AssumptionGraph::affected_agents(owner, assumption.owner),
            };
            assert(conflict@ == all[index as int]);
            let ghost old_transitions = transition_views(transitions@);
            let ghost old_conflicts = conflict_views(conflicts@);
            transitions.push(
                AssumptionTransition::StateChanged {
                    assumption_id: existing_id,
                    state: AssumptionState::Conflicted,
                },
            );
            transitions.push(
                AssumptionTransition::ConflictDetected { conflict: conflict.duplicate() },
            );
            self.conflicts.insert(conflict.id, conflict.duplicate());
            conflicts.push(conflict);
            proof {
                assert(conflict_views(conflicts@) =~= old_conflicts.push(conflict@));
                assert(all.take(index + 1) =~= all.take(index as int).push(all[index as int]));
                assert(transition_views(transitions@) =~= old_transitions.push(
                    AssumptionTransitionView::StateChanged {
                        assumption_id: existing_id,
                        state: AssumptionState::Conflicted,
                    },
                ).push(AssumptionTransitionView::ConflictDetected { conflict: conflict@ }));
                let head = seq![AssumptionTransitionView::Created { assumption: stored }];
                assert(transition_views(transitions@) =~= head + conflict_transitions(
                    found@.take(index + 1),
                    all.take(index + 1),
                ));
            }
            index += 1;
        }
        proof {
            assert(found@.take(found@.len() as int) =~= found@);
            assert(all.take(all.len() as int) =~= all);
            assert(lists_contradictions(start.assumptions, claim, found@));
            if conflicts_unissued(start, issued) {
                published_conflicts_are_new(start, claim, found@, issued, *ids);
                assert forall|i: int| 0 <= i < all.len() implies !start.conflicts.contains_key(
                    (#[trigger] all[i]).id,
                ) by {
                    assert(!start.conflicts.contains_key(fresh[i]));
                }
            }
        }
        Ok(AssumptionPublication { assumption, conflicts, transitions })
    }

    /// Applies a transition.
    pub fn apply(&mut self, transition: &AssumptionTransition) -> (result: Result<
        (),
        AssumptionError,
    >)
        ensures
            (final(self)@, outcome(result)) == applied(old(self)@, transition@),
    {
        match transition {
            AssumptionTransition::Created { assumption } => {
                assumption.validate()?;
                if assumption.effective_trust_origin() != assumption.trust {
                    return Err(AssumptionError::TrustUpgrade { assumption_id: assumption.id });
                }
                if self.assumptions.contains_key(&assumption.id) {
                    return Err(AssumptionError::Duplicate(assumption.id));
                }
                self.assumptions.insert(assumption.id, assumption.duplicate());
            },
            AssumptionTransition::StateChanged { assumption_id, state } => {
                let Some(assumption) = self.assumptions.get_mut(assumption_id) else {
                    return Err(AssumptionError::Unknown(*assumption_id));
                };
                assumption.state = *state;
            },
            AssumptionTransition::ConflictDetected { conflict } => {
                if !self.assumptions.contains_key(&conflict.left) {
                    return Err(AssumptionError::Unknown(conflict.left));
                }
                if !self.assumptions.contains_key(&conflict.right) {
                    return Err(AssumptionError::Unknown(conflict.right));
                }
                if self.conflicts.insert(conflict.id, conflict.duplicate()) {
                    return Err(AssumptionError::DuplicateConflict(conflict.id));
                }
            },
        }
        Ok(())
    }

    /// Rebuilds the graph from a history.
    pub fn from_events(events: &[Event]) -> (result: Result<AssumptionGraph, AssumptionError>)
        ensures
            outcome(result) == replayed(event_views(events@)),
    {
        let mut graph = AssumptionGraph::new();
        let ghost views = event_views(events@);
        let mut index: usize = 0;
        assert(views.take(0) =~= Seq::<EventView>::empty());
        while index < events.len()
            invariant
                index <= events@.len(),
                views == event_views(events@),
                replayed(views.take(index as int)) == Ok::<
                    AssumptionGraphView,
                    AssumptionErrorView,
                >(graph@),
            decreases events.len() - index,
        {
            let event = &events[index];
            proof {
                let next = views.take(index + 1);
                assert(next.drop_last() =~= views.take(index as int));
                assert(next.last() == event@);
                if replayed(next) is Err {
                    refused_replay_stays(views, index + 1);
                }
            }
            if let EventKind::AssumptionTransition { version, payload } = &event.kind {
                let transition = decode_transition(*version, payload.as_slice())?;
                graph.apply(&transition)?;
            }
            index += 1;
        }
        assert(views.take(views.len() as int) =~= views);
        Ok(graph)
    }
}

impl Clone for AssumptionGraph {
    fn clone(&self) -> (copy: AssumptionGraph)
        ensures
            copy@ == self@,
    {
        AssumptionGraph { assumptions: self.assumptions.clone(), conflicts: self.conflicts.clone() }
    }
}

impl Default for AssumptionGraph {
    fn default() -> (graph: AssumptionGraph)
        ensures
            graph@ == empty_graph(),
    {
        AssumptionGraph::new()
    }
}

/// Marking changes states only.
pub proof fn marking_keeps_assumptions(
    assumptions: Map<AssumptionId, AssumptionView>,
    found: Seq<AssumptionId>,
)
    requires
        forall|i: int| 0 <= i < found.len() ==> assumptions.contains_key(#[trigger] found[i]),
    ensures
        marked(assumptions, found).dom() == assumptions.dom(),
        forall|id: AssumptionId|
            assumptions.contains_key(id) ==> (#[trigger] marked(assumptions, found)[id]) == (
            AssumptionView {
                state: if found.contains(id) {
                    AssumptionState::Conflicted
                } else {
                    assumptions[id].state
                },
                ..assumptions[id]
            }),
    decreases found.len(),
{
    if found.len() > 0 {
        let front = found.drop_last();
        assert forall|i: int| 0 <= i < front.len() implies assumptions.contains_key(
            #[trigger] front[i],
        ) by {
            assert(front[i] == found[i]);
        }
        marking_keeps_assumptions(assumptions, front);
        assert(assumptions.contains_key(found[found.len() - 1]));
        assert(marked(assumptions, found).dom() =~= assumptions.dom());
        assert forall|id: AssumptionId| assumptions.contains_key(id) implies (
        #[trigger] marked(assumptions, found)[id]) == (AssumptionView {
            state: if found.contains(id) {
                AssumptionState::Conflicted
            } else {
                assumptions[id].state
            },
            ..assumptions[id]
        }) by {
            if id == found.last() {
                assert(found[found.len() - 1] == id);
            } else if front.contains(id) {
                let i = choose|i: int| 0 <= i < front.len() && front[i] == id;
                assert(found[i] == id);
            } else if found.contains(id) {
                let i = choose|i: int| 0 <= i < found.len() && found[i] == id;
                assert(front[i] == id);
            }
        }
    }
}

// ---------------------------------------------------------------------------
// Laws of the graph.

/// What contradicts an assumption is determined: two listings are equal.
pub proof fn contradictions_are_determined(
    assumptions: Map<AssumptionId, AssumptionView>,
    assumption: AssumptionView,
    first: Seq<AssumptionId>,
    second: Seq<AssumptionId>,
)
    requires
        lists_contradictions(assumptions, assumption, first),
        lists_contradictions(assumptions, assumption, second),
    ensures
        first == second,
{
    same_members_same_order(first, second);
}

/// Ascending lists with the same members are the same list.
proof fn same_members_same_order(first: Seq<AssumptionId>, second: Seq<AssumptionId>)
    requires
        ascending(first),
        ascending(second),
        forall|id: AssumptionId| #[trigger] first.contains(id) <==> second.contains(id),
    ensures
        first == second,
    decreases first.len(),
{
    if first.len() == 0 {
        if second.len() > 0 {
            assert(second.contains(second[0]));
            assert(first.contains(second[0]));
        }
        assert(first =~= second);
    } else if second.len() == 0 {
        assert(first.contains(first[0]));
    } else {
        let a = first.last();
        let b = second.last();
        assert(first[first.len() - 1] == a);
        assert(second[second.len() - 1] == b);
        assert(first.contains(a));
        assert(second.contains(b));
        assert(first.contains(b));
        let i = choose|i: int| 0 <= i < second.len() && second[i] == a;
        let j = choose|j: int| 0 <= j < first.len() && first[j] == b;
        if i < second.len() - 1 && j < first.len() - 1 {
            assert(AssumptionId::before(second[i].model(), second[second.len() - 1].model()));
            assert(AssumptionId::before(first[j].model(), first[first.len() - 1].model()));
        }
        assert(a == b);
        let front1 = first.drop_last();
        let front2 = second.drop_last();
        assert forall|x: int, y: int| 0 <= x < y < front1.len() implies AssumptionId::before(
            (#[trigger] front1[x]).model(),
            (#[trigger] front1[y]).model(),
        ) by {
            assert(front1[x] == first[x] && front1[y] == first[y]);
        }
        assert forall|x: int, y: int| 0 <= x < y < front2.len() implies AssumptionId::before(
            (#[trigger] front2[x]).model(),
            (#[trigger] front2[y]).model(),
        ) by {
            assert(front2[x] == second[x] && front2[y] == second[y]);
        }
        assert forall|id: AssumptionId| #[trigger] front1.contains(id) <==> front2.contains(
            id,
        ) by {
            if front1.contains(id) {
                let x = choose|x: int| 0 <= x < front1.len() && front1[x] == id;
                assert(first[x] == id);
                assert(AssumptionId::before(first[x].model(), first[first.len() - 1].model()));
                assert(first.contains(id));
                let y = choose|y: int| 0 <= y < second.len() && second[y] == id;
                assert(front2[y] == id);
            }
            if front2.contains(id) {
                let x = choose|x: int| 0 <= x < front2.len() && front2[x] == id;
                assert(second[x] == id);
                assert(AssumptionId::before(second[x].model(), second[second.len() - 1].model()));
                assert(second.contains(id));
                assert(first.contains(id));
                let y = choose|y: int| 0 <= y < first.len() && first[y] == id;
                assert(front1[y] == id);
            }
        }
        same_members_same_order(front1, front2);
        assert(first =~= front1.push(a));
        assert(second =~= front2.push(b));
    }
}

/// Combining a trust with inputs it was already combined with changes
/// nothing.
pub proof fn combination_is_stable(base: TrustOrigin, inputs: Seq<TrustOrigin>)
    ensures
        combined_all(combined_all(base, inputs), inputs) == combined_all(base, inputs),
{
    crate::kernel::combination_never_upgrades_trust(base, inputs);
    stable_below(combined_all(base, inputs), inputs);
}

proof fn stable_below(trust: TrustOrigin, inputs: Seq<TrustOrigin>)
    requires
        forall|i: int| 0 <= i < inputs.len() ==> trust.rank() <= (#[trigger] inputs[i]).rank(),
    ensures
        combined_all(trust, inputs) == trust,
    decreases inputs.len(),
{
    if inputs.len() > 0 {
        assert(trust.rank() <= inputs[inputs.len() - 1].rank());
        assert forall|i: int| 0 <= i < inputs.drop_last().len() implies trust.rank() <= (
        #[trigger] inputs.drop_last()[i]).rank() by {
            assert(inputs.drop_last()[i] == inputs[i]);
        }
        stable_below(trust, inputs.drop_last());
    }
}

/// The trust of a published assumption ranks no higher than the trust it was
/// made with, or than any of its inputs.
pub proof fn publication_never_upgrades_trust(assumption: AssumptionView)
    ensures
        prepared(assumption).trust.rank() <= assumption.trust.rank(),
        forall|i: int|
            0 <= i < assumption.input_origins.len() ==> prepared(assumption).trust.rank() <= (
            #[trigger] assumption.input_origins[i]).rank(),
        prepared(assumption).trust.trusted() ==> assumption.trust.trusted(),
{
    crate::kernel::combination_never_upgrades_trust(assumption.trust, assumption.input_origins);
}

/// Applying the transitions of a publication to the graph as it was gives the
/// graph as it is: what is recorded is enough to rebuild it.
pub proof fn publications_replay(
    graph: AssumptionGraphView,
    assumption: AssumptionView,
    found: Seq<AssumptionId>,
    fresh: Seq<ConflictId>,
)
    requires
        publish_refusal(graph, prepared(assumption)) is None,
        lists_contradictions(graph.assumptions, prepared(assumption), found),
        fresh.len() == found.len(),
        fresh.no_duplicates(),
        forall|i: int| 0 <= i < fresh.len() ==> !graph.conflicts.contains_key(#[trigger] fresh[i]),
    ensures
        applied_all(graph, publication(graph, prepared(assumption), found, fresh).transitions)
            == Ok::<AssumptionGraphView, AssumptionErrorView>(
            published(graph, prepared(assumption), found, fresh),
        ),
{
    let claim = prepared(assumption);
    combination_is_stable(assumption.trust, assumption.input_origins);
    let all = conflicts_with(graph.assumptions, claim, found, fresh);
    publication_replays_up_to(graph, claim, found, fresh, found.len() as int);
    assert(found.take(found.len() as int) =~= found);
    assert(all.take(found.len() as int) =~= all);
}

/// A graph without conflicts has none that is yet to be issued.
pub proof fn empty_graphs_have_no_conflicts(graph: AssumptionGraphView, ids: IdSource)
    requires
        graph.conflicts == Map::<ConflictId, AssumptionConflictView>::empty(),
    ensures
        conflicts_unissued(graph, ids),
{
}

/// What the encoded transitions say.
pub open spec fn decodings(list: Seq<Seq<u8>>) -> Seq<AssumptionTransitionView> {
    list.map_values(|bytes: Seq<u8>| decoded(ASSUMPTION_SCHEMA_VERSION, bytes)->Ok_0)
}

/// A publication is rebuilt from its transitions, also where they were
/// encoded and decoded in between. The identities of its conflicts come from
/// a source that has issued none of those in the graph twice.
pub proof fn encoded_publications_replay(
    graph: AssumptionGraphView,
    assumption: AssumptionView,
    found: Seq<AssumptionId>,
    ids: IdSource,
    list: Seq<Seq<u8>>,
)
    requires
        publish_refusal(graph, prepared(assumption)) is None,
        lists_contradictions(graph.assumptions, prepared(assumption), found),
        conflicts_unissued(graph, ids),
        ids.can_issue(found.len()),
        ({
            let made = publication(
                graph,
                prepared(assumption),
                found,
                fresh_conflicts(ids, found.len()),
            );
            &&& list.len() == made.transitions.len()
            &&& forall|i: int|
                0 <= i < list.len() ==> encoded(made.transitions[i]) == Ok::<
                    Seq<u8>,
                    AssumptionErrorView,
                >(#[trigger] list[i])
        }),
    ensures
        ({
            let fresh = fresh_conflicts(ids, found.len());
            let made = publication(graph, prepared(assumption), found, fresh);
            let rebuilt = Ok::<AssumptionGraphView, AssumptionErrorView>(
                published(graph, prepared(assumption), found, fresh),
            );
            &&& forall|i: int|
                0 <= i < list.len() ==> decoded(ASSUMPTION_SCHEMA_VERSION, #[trigger] list[i])
                    == Ok::<AssumptionTransitionView, AssumptionErrorView>(made.transitions[i])
            &&& applied_all(graph, made.transitions) == rebuilt
            &&& applied_all(graph, decodings(list)) == rebuilt
        }),
{
    let fresh = fresh_conflicts(ids, found.len());
    let made = publication(graph, prepared(assumption), found, fresh);
    assert forall|i: int, j: int| 0 <= i < fresh.len() && 0 <= j < fresh.len() && i != j implies
        fresh[i] != fresh[j] by {
        a_source_never_repeats(ids, i as nat, j as nat);
    }
    assert forall|i: int| 0 <= i < fresh.len() implies !graph.conflicts.contains_key(
        #[trigger] fresh[i],
    ) by {
        assert(ids.can_issue((i as nat) + 1));
        assert(fresh[i] == ConflictId(ids.upcoming(i as nat)));
    }
    publications_replay(graph, assumption, found, fresh);
    assert forall|i: int| 0 <= i < list.len() implies decoded(
        ASSUMPTION_SCHEMA_VERSION,
        #[trigger] list[i],
    ) == Ok::<AssumptionTransitionView, AssumptionErrorView>(made.transitions[i]) by {
        assert(encoded(made.transitions[i]) == Ok::<Seq<u8>, AssumptionErrorView>(list[i]));
        decoding_inverts_encoding(made.transitions[i]);
    }
    assert(decodings(list) =~= made.transitions);
}

/// A valid assumption that claims more trust than its inputs is not taken
/// over, and changes nothing.
pub proof fn upgraded_trust_is_refused(graph: AssumptionGraphView, assumption: AssumptionView)
    requires
        assumption_check(assumption) is Ok,
        combined_all(assumption.trust, assumption.input_origins) != assumption.trust,
    ensures
        applied(graph, AssumptionTransitionView::Created { assumption }) == (
            graph,
            Err::<(), AssumptionErrorView>(
                AssumptionErrorView::TrustUpgrade { assumption_id: assumption.id },
            ),
        ),
{
}

/// One more transition that is accepted.
proof fn accepted_transition_extends(
    graph: AssumptionGraphView,
    list: Seq<AssumptionTransitionView>,
    transition: AssumptionTransitionView,
    before: AssumptionGraphView,
    after: AssumptionGraphView,
)
    requires
        applied_all(graph, list) == Ok::<AssumptionGraphView, AssumptionErrorView>(before),
        applied(before, transition) == (after, Ok::<(), AssumptionErrorView>(())),
    ensures
        applied_all(graph, list.push(transition)) == Ok::<
            AssumptionGraphView,
            AssumptionErrorView,
        >(after),
{
    assert(list.push(transition).drop_last() =~= list);
}

proof fn publication_replays_up_to(
    graph: AssumptionGraphView,
    claim: AssumptionView,
    found: Seq<AssumptionId>,
    fresh: Seq<ConflictId>,
    count: int,
)
    requires
        0 <= count <= found.len(),
        publish_refusal(graph, claim) is None,
        combined_all(claim.trust, claim.input_origins) == claim.trust,
        lists_contradictions(graph.assumptions, claim, found),
        fresh.len() == found.len(),
        fresh.no_duplicates(),
        forall|i: int| 0 <= i < fresh.len() ==> !graph.conflicts.contains_key(#[trigger] fresh[i]),
    ensures
        ({
            let all = conflicts_with(graph.assumptions, claim, found, fresh);
            let stored = settled(claim, found);
            applied_all(
                graph,
                seq![AssumptionTransitionView::Created { assumption: stored }]
                    + conflict_transitions(found.take(count), all.take(count)),
            ) == Ok::<AssumptionGraphView, AssumptionErrorView>(
                AssumptionGraphView {
                    assumptions: marked(
                        graph.assumptions.insert(claim.id, stored),
                        found.take(count),
                    ),
                    conflicts: with_conflicts(graph.conflicts, all.take(count)),
                },
            )
        }),
    decreases count,
{
    let all = conflicts_with(graph.assumptions, claim, found, fresh);
    let stored = settled(claim, found);
    let created = AssumptionTransitionView::Created { assumption: stored };
    let base = graph.assumptions.insert(claim.id, stored);
    if count == 0 {
        assert(found.take(0) =~= Seq::<AssumptionId>::empty());
        assert(all.take(0) =~= Seq::<AssumptionConflictView>::empty());
        let none = Seq::<AssumptionTransitionView>::empty();
        assert(seq![created] + conflict_transitions(found.take(0), all.take(0)) =~= none.push(
            created,
        ));
        accepted_transition_extends(
            graph,
            none,
            created,
            graph,
            AssumptionGraphView { assumptions: base, ..graph },
        );
    } else {
        let last = count - 1;
        publication_replays_up_to(graph, claim, found, fresh, last);
        assert(found.take(count).drop_last() =~= found.take(last));
        assert(all.take(count).drop_last() =~= all.take(last));
        let changed = AssumptionTransitionView::StateChanged {
            assumption_id: found[last],
            state: AssumptionState::Conflicted,
        };
        let detected = AssumptionTransitionView::ConflictDetected { conflict: all[last] };
        let list = seq![created] + conflict_transitions(found.take(last), all.take(last));
        let g0 = AssumptionGraphView {
            assumptions: marked(base, found.take(last)),
            conflicts: with_conflicts(graph.conflicts, all.take(last)),
        };
        let g1 = AssumptionGraphView { assumptions: marked(base, found.take(count)), ..g0 };
        let g2 = AssumptionGraphView {
            conflicts: with_conflicts(graph.conflicts, all.take(count)),
            ..g1
        };
        assert forall|i: int| 0 <= i < found.len() implies base.contains_key(
            #[trigger] found[i],
        ) by {
            assert(found.contains(found[i]));
        }
        marking_keeps_assumptions(base, found.take(last));
        marking_keeps_assumptions(base, found.take(count));
        new_conflicts_only(graph.conflicts, all.take(last), fresh[last]);
        assert(applied(g0, changed) == (g1, Ok::<(), AssumptionErrorView>(())));
        accepted_transition_extends(graph, list, changed, g0, g1);
        assert(applied(g1, detected) == (g2, Ok::<(), AssumptionErrorView>(())));
        accepted_transition_extends(graph, list.push(changed), detected, g1, g2);
        assert(seq![created] + conflict_transitions(found.take(count), all.take(count))
            =~= list.push(changed).push(detected));
    }
}

/// An identity that is neither stored nor among new conflicts is still free
/// after they are stored.
pub proof fn new_conflicts_only(
    conflicts: Map<ConflictId, AssumptionConflictView>,
    new: Seq<AssumptionConflictView>,
    id: ConflictId,
)
    requires
        !conflicts.contains_key(id),
        forall|i: int| 0 <= i < new.len() ==> (#[trigger] new[i]).id != id,
    ensures
        !with_conflicts(conflicts, new).contains_key(id),
    decreases new.len(),
{
    if new.len() > 0 {
        assert(new[new.len() - 1].id != id);
        assert forall|i: int| 0 <= i < new.drop_last().len() implies (
        #[trigger] new.drop_last()[i]).id != id by {
            assert(new.drop_last()[i] == new[i]);
        }
        new_conflicts_only(conflicts, new.drop_last(), id);
    }
}

/// No two active assumptions contradict each other.
pub open spec fn consistent(assumptions: Map<AssumptionId, AssumptionView>) -> bool {
    forall|a: AssumptionId, b: AssumptionId|
        #![trigger assumptions[a], assumptions[b]]
        assumptions.contains_key(a) && assumptions.contains_key(b) && assumptions[a].state
            == AssumptionState::Active && assumptions[b].state == AssumptionState::Active
            ==> !contradicts(assumptions[a], assumptions[b])
}

/// Publishing never leaves two active assumptions in contradiction.
pub proof fn publishing_keeps_active_claims_consistent(
    graph: AssumptionGraphView,
    assumption: AssumptionView,
    found: Seq<AssumptionId>,
    fresh: Seq<ConflictId>,
)
    requires
        consistent(graph.assumptions),
        publish_refusal(graph, assumption) is None,
        lists_contradictions(graph.assumptions, assumption, found),
    ensures
        consistent(published(graph, assumption, found, fresh).assumptions),
{
    let stored = settled(assumption, found);
    let base = graph.assumptions.insert(assumption.id, stored);
    let after = published(graph, assumption, found, fresh).assumptions;
    assert forall|i: int| 0 <= i < found.len() implies base.contains_key(#[trigger] found[i]) by {
        assert(found.contains(found[i]));
    }
    marking_keeps_assumptions(base, found);
    assert forall|a: AssumptionId, b: AssumptionId|
        #![trigger after[a], after[b]]
        after.contains_key(a) && after.contains_key(b) && after[a].state == AssumptionState::Active
            && after[b].state == AssumptionState::Active implies !contradicts(
        after[a],
        after[b],
    ) by {
        assert(base.contains_key(a) && base.contains_key(b));
        assert(!found.contains(a) && !found.contains(b));
        if found.len() > 0 {
            assert(found.contains(found[0]));
            assert(a != assumption.id && b != assumption.id);
        }
        if a == assumption.id || b == assumption.id {
        } else {
            assert(after[a] == graph.assumptions[a] && after[b] == graph.assumptions[b]);
        }
    }
}

} // verus!
