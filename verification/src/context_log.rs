//! The transitions of a context graph as a log and as events of a run.

use vstd::prelude::*;

use crate::codec::outcome;
use crate::context::{
    transition_views, ContextError, ContextErrorView, ContextTransition, ContextTransitionView,
    CONTEXT_TRANSITION_VERSION,
};
use crate::context_codec::{
    decode_transition, decoded, decoding_inverts_encoding, encode_transition, encoded,
    transition_readable, MAX_CONTEXT_PAYLOAD_BYTES,
};
use crate::context_graph::{
    all_unresolved, answered, applied_all, empty_graph, ContextGraph, ContextGraphView,
    ContextPublication,
};
use crate::ids::{EventId, IdSource, RunId};
use crate::kernel::{event_views, Event, EventKind, EventKindView, EventView};

verus! {

#[derive(Clone, Debug, PartialEq, Eq)]
pub struct ContextEventLog {
    events: Vec<ContextTransition>,
}

impl View for ContextEventLog {
    type V = Seq<ContextTransitionView>;

    closed spec fn view(&self) -> Seq<ContextTransitionView> {
        transition_views(self.events@)
    }
}

/// The transitions that events carry, up to the first that cannot be read.
pub open spec fn transitions_in(events: Seq<EventView>) -> Result<
    Seq<ContextTransitionView>,
    ContextErrorView,
>
    decreases events.len(),
{
    if events.len() == 0 {
        Ok(seq![])
    } else {
        match transitions_in(events.drop_last()) {
            Err(error) => Err(error),
            Ok(before) => match events.last().kind {
                EventKindView::ContextTransition { version, payload } => match decoded(
                    version,
                    payload,
                ) {
                    Err(error) => Err(error),
                    Ok(transition) => Ok(before.push(transition)),
                },
                _ => Ok(before),
            },
        }
    }
}

/// The event that carries a transition.
pub open spec fn event_of(
    id: u64,
    run_id: RunId,
    occurred_at_ms: u128,
    transition: ContextTransitionView,
) -> EventView {
    EventView {
        id: EventId(id),
        run_id,
        occurred_at_ms,
        kind: EventKindView::ContextTransition {
            version: CONTEXT_TRANSITION_VERSION,
            payload: encoded(transition)->Ok_0,
        },
    }
}

/// One event for each transition, under identities issued in order.
pub open spec fn events_of(
    ids: IdSource,
    run_id: RunId,
    occurred_at_ms: u128,
    transitions: Seq<ContextTransitionView>,
) -> Seq<EventView> {
    Seq::new(
        transitions.len(),
        |i: int| event_of(ids.upcoming(i as nat), run_id, occurred_at_ms, transitions[i]),
    )
}

/// Every transition can be encoded.
pub open spec fn all_encodable(transitions: Seq<ContextTransitionView>) -> bool {
    forall|i: int| 0 <= i < transitions.len() ==> encoded(#[trigger] transitions[i]) is Ok
}

proof fn unreadable_event_stays(events: Seq<EventView>, count: int)
    requires
        0 <= count <= events.len(),
        transitions_in(events.take(count)) is Err,
    ensures
        transitions_in(events) == transitions_in(events.take(count)),
    decreases events.len(),
{
    if count < events.len() {
        assert(events.drop_last().take(count) =~= events.take(count));
        unreadable_event_stays(events.drop_last(), count);
    } else {
        assert(events.take(count) =~= events);
    }
}

fn clone_transitions(list: &Vec<ContextTransition>, out: &mut Vec<ContextTransition>)
    ensures
        transition_views(final(out)@) == transition_views(old(out)@) + transition_views(list@),
{
    let ghost base = transition_views(out@);
    let ghost views = transition_views(list@);
    let mut index: usize = 0;
    assert(base =~= base + views.take(0));
    while index < list.len()
        invariant
            index <= list@.len(),
            views == transition_views(list@),
            transition_views(out@) == base + views.take(index as int),
        decreases list.len() - index,
    {
        let ghost before = out@;
        out.push(list[index].clone());
        index += 1;
        proof {
            assert(transition_views(out@) =~= transition_views(before).push(views[index - 1]));
            assert(transition_views(out@) =~= base + views.take(index as int));
        }
    }
    assert(views.take(views.len() as int) =~= views);
}

/// The graph that a log describes, or why it describes none, where artifacts
/// are as the resolver answered.
pub open spec fn recovered_by<F: Fn([u8; 32]) -> Result<Vec<u8>, ContextError>>(
    resolver: F,
    log: Seq<ContextTransitionView>,
    graph: Result<ContextGraphView, ContextErrorView>,
) -> bool {
    exists|
        transitions: Seq<ContextTransition>,
        resolved: Seq<Result<Seq<u8>, ContextErrorView>>,
    |
        #![trigger answered(resolver, transitions, resolved)]
        {
            &&& transition_views(transitions) == log
            &&& answered(resolver, transitions, resolved)
            &&& graph == applied_all(empty_graph(), log.take(resolved.len() as int), resolved)
            &&& graph is Ok ==> resolved.len() == log.len()
        }
}

impl ContextEventLog {
    pub fn new() -> (log: ContextEventLog)
        ensures
            log@ == Seq::<ContextTransitionView>::empty(),
    {
        let log = ContextEventLog { events: Vec::new() };
        assert(log@ =~= Seq::<ContextTransitionView>::empty());
        log
    }

    /// Takes a publication's transitions into the log.
    pub fn record(&mut self, publication: &ContextPublication)
        ensures
            final(self)@ == old(self)@ + publication@.transitions,
    {
        clone_transitions(&publication.transitions, &mut self.events);
    }

    pub fn events(&self) -> (events: &[ContextTransition])
        ensures
            transition_views(events@) == self@,
    {
        self.events.as_slice()
    }

    pub fn from_transitions(transitions: Vec<ContextTransition>) -> (log: ContextEventLog)
        ensures
            log@ == transition_views(transitions@),
    {
        ContextEventLog { events: transitions }
    }

    /// The graph that the log describes, where no artifact is needed for it.
    pub fn replay(&self) -> (result: Result<ContextGraph, ContextError>)
        ensures
            outcome(result) == applied_all(empty_graph(), self@, all_unresolved(self@)),
            result matches Ok(graph) ==> graph@.valid(),
    {
        let mut transitions: Vec<ContextTransition> = Vec::new();
        clone_transitions(&self.events, &mut transitions);
        assert(transition_views(transitions@) =~= self@);
        ContextGraph::replay(transitions)
    }

    /// The graph that the log describes, with artifacts read by the resolver.
    pub fn replay_with_content<F: Fn([u8; 32]) -> Result<Vec<u8>, ContextError>>(
        &self,
        resolver: F,
    ) -> (result: Result<ContextGraph, ContextError>)
        requires
            forall|hash: [u8; 32]| call_requires(resolver, (hash,)),
        ensures
            recovered_by(resolver, self@, outcome(result)),
            result matches Ok(graph) ==> graph@.valid(),
    {
        let mut transitions: Vec<ContextTransition> = Vec::new();
        clone_transitions(&self.events, &mut transitions);
        assert(transition_views(transitions@) =~= self@);
        ContextGraph::replay_with_content(transitions, resolver)
    }

    /// The log as events of a run, at a time read by the caller.
    pub fn to_events(&self, ids: &mut IdSource, occurred_at_ms: u128, run_id: RunId) -> (result:
        Result<Vec<Event>, ContextError>)
        requires
            old(ids).can_issue(self@.len()),
        ensures
            match result {
                Ok(events) => {
                    &&& all_encodable(self@)
                    &&& event_views(events@) == events_of(
                        *old(ids),
                        run_id,
                        occurred_at_ms,
                        self@,
                    )
                    &&& final(ids).issued_from(old(ids), self@.len())
                },
                Err(error) => exists|i: int|
                    {
                        &&& 0 <= i < self@.len()
                        &&& all_encodable(self@.take(i))
                        &&& #[trigger] encoded(self@[i]) == Err::<Seq<u8>, ContextErrorView>(error@)
                        &&& final(ids).issued_from(old(ids), i as nat)
                    },
            },
    {
        let mut events: Vec<Event> = Vec::new();
        let mut index: usize = 0;
        let ghost views = self@;
        let ghost expected = events_of(*ids, run_id, occurred_at_ms, views);
        assert(event_views(events@) =~= expected.take(0));
        while index < self.events.len()
            invariant
                index <= self.events@.len(),
                views == self@,
                expected == events_of(*old(ids), run_id, occurred_at_ms, views),
                old(ids).can_issue(views.len()),
                ids.issued_from(old(ids), index as nat),
                all_encodable(views.take(index as int)),
                event_views(events@) == expected.take(index as int),
            decreases self.events.len() - index,
        {
            assert(views[index as int] == self.events@[index as int]@);
            let payload = match encode_transition(&self.events[index]) {
                Ok(payload) => payload,
                Err(error) => {
                    assert(encoded(views[index as int]) == Err::<Seq<u8>, ContextErrorView>(
                        error@,
                    ));
                    return Err(error);
                },
            };
            let ghost before = events@;
            let event = Event::new(
                ids,
                occurred_at_ms,
                run_id,
                EventKind::ContextTransition { version: CONTEXT_TRANSITION_VERSION, payload },
            );
            events.push(event);
            proof {
                assert(event@ == expected[index as int]);
                assert(event_views(events@) =~= event_views(before).push(event@));
                assert(event_views(events@) =~= expected.take(index + 1));
                assert forall|i: int| 0 <= i < index + 1 implies encoded(
                    #[trigger] views.take(index + 1)[i],
                ) is Ok by {
                    if i < index {
                        assert(views.take(index as int)[i] == views.take(index + 1)[i]);
                    }
                }
            }
            index += 1;
        }
        assert(views.take(views.len() as int) =~= views);
        assert(expected.take(expected.len() as int) =~= expected);
        Ok(events)
    }

    /// The transitions among events, in order. Other events are passed over.
    pub fn from_events(events: &[Event]) -> (result: Result<ContextEventLog, ContextError>)
        ensures
            outcome(result) == transitions_in(event_views(events@)),
    {
        let mut log = ContextEventLog::new();
        let ghost views = event_views(events@);
        let mut index: usize = 0;
        assert(views.take(0) =~= Seq::<EventView>::empty());
        while index < events.len()
            invariant
                index <= events@.len(),
                views == event_views(events@),
                transitions_in(views.take(index as int)) == Ok::<
                    Seq<ContextTransitionView>,
                    ContextErrorView,
                >(log@),
            decreases events.len() - index,
        {
            let event = &events[index];
            proof {
                let next = views.take(index + 1);
                assert(next.drop_last() =~= views.take(index as int));
                assert(next.last() == event@);
                if transitions_in(next) is Err {
                    unreadable_event_stays(views, index + 1);
                }
            }
            if let EventKind::ContextTransition { version, payload } = &event.kind {
                let transition = decode_transition(*version, payload.as_slice())?;
                let ghost before = log@;
                log.events.push(transition);
                assert(log@ =~= before.push(transition@));
            }
            index += 1;
        }
        assert(views.take(views.len() as int) =~= views);
        Ok(log)
    }
}

impl Default for ContextEventLog {
    fn default() -> (log: ContextEventLog)
        ensures
            log@ == Seq::<ContextTransitionView>::empty(),
    {
        ContextEventLog::new()
    }
}

/// A log written as events is read back from them.
pub proof fn logs_survive_as_events(
    ids: IdSource,
    run_id: RunId,
    occurred_at_ms: u128,
    transitions: Seq<ContextTransitionView>,
)
    requires
        all_encodable(transitions),
        forall|i: int|
            0 <= i < transitions.len() ==> transition_readable(#[trigger] transitions[i])
                && encoded(transitions[i])->Ok_0.len() <= MAX_CONTEXT_PAYLOAD_BYTES,
    ensures
        transitions_in(events_of(ids, run_id, occurred_at_ms, transitions)) == Ok::<
            Seq<ContextTransitionView>,
            ContextErrorView,
        >(transitions),
    decreases transitions.len(),
{
    let events = events_of(ids, run_id, occurred_at_ms, transitions);
    if transitions.len() > 0 {
        let rest = transitions.drop_last();
        assert forall|i: int| 0 <= i < rest.len() implies encoded(#[trigger] rest[i]) is Ok
            && transition_readable(rest[i]) && encoded(rest[i])->Ok_0.len()
            <= MAX_CONTEXT_PAYLOAD_BYTES by {
            assert(rest[i] == transitions[i]);
        }
        logs_survive_as_events(ids, run_id, occurred_at_ms, rest);
        assert(events.drop_last() =~= events_of(ids, run_id, occurred_at_ms, rest));
        let last = transitions[transitions.len() - 1];
        assert(transition_readable(last));
        decoding_inverts_encoding(last);
        assert(rest.push(last) =~= transitions);
    } else {
        assert(transitions =~= Seq::<ContextTransitionView>::empty());
    }
}

} // verus!
