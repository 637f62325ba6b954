//! Events that Home Assistant pushes over a subscription, and what the
//! dashboard is told of them.

use vstd::prelude::*;
use crate::json::{Json, key_index, find_key};
use crate::dashboard::{AppEvent, AppEventView};
use crate::protocol::{WSResult, result_debug};
use crate::text::concat;

verus! {

/// An entity's state, as Home Assistant sends it.
pub struct State {
    pub entity_id: String,
    pub state: String,
    pub attributes: Json,
    pub last_changed: String,
    pub last_updated: String,
    pub context: Option<Json>,
}

/// The data of a `state_changed` event.
pub struct StateChangedData {
    pub entity_id: Option<String>,
    pub new_state: Option<State>,
    pub old_state: Option<State>,
}

/// An event of the event bus.
pub struct HAEvent {
    pub context: Json,
    pub data: StateChangedData,
    pub event_type: String,
    pub origin: String,
    pub time_fired: String,
}

/// An entity's state in a `subscribe_entities` event. Times are the text of
/// the Unix seconds that Home Assistant sends.
pub struct CompressedEntityState {
    pub state: String,
    pub attributes: Option<Vec<(String, Json)>>,
    pub context: Option<Json>,
    pub last_changed: Option<String>,
    pub last_updated: Option<String>,
}

/// Attributes removed from an entity's state.
pub struct CompressedEntityRemoved {
    pub attributes: Vec<String>,
}

/// The change of an entity's state in a `subscribe_entities` event.
pub struct CompressedStateDiff {
    pub additions: Option<CompressedEntityState>,
    pub removals: Option<CompressedEntityRemoved>,
}

/// One event of a `subscribe_entities` subscription: states of entities
/// added, changes by entity, entities removed.
pub struct SubscribeEntitiesEvent {
    pub added: Option<Vec<(String, CompressedEntityState)>>,
    pub changed: Option<Vec<(String, CompressedStateDiff)>>,
    pub removed: Option<Vec<String>>,
}

/// An event pushed by Home Assistant.
pub enum Event {
    NormalEvent(HAEvent),
    CompressedEvent(SubscribeEntitiesEvent),
}

/// A message received once the dashboard runs: an event (`None` when it is
/// none of the known events), the result of a request, or anything else.
pub enum ServerMessage {
    Event(Option<Event>),
    Result(WSResult),
    Other,
}

/// The name to show for an entity: its `friendly_name` attribute when that
/// is a string, else its id.
pub open spec fn friendly_name_of(entity_id: Seq<char>, attributes: Option<Vec<(String, Json)>>) -> Seq<char> {
    match attributes {
        Some(attrs) => {
            let k = key_index(attrs@, "friendly_name"@);
            if k < attrs@.len() {
                match attrs@[k].1 {
                    Json::Str(s) => s@,
                    _ => entity_id,
                }
            } else {
                entity_id
            }
        },
        None => entity_id,
    }
}

/// The dashboard events for the entities of a `subscribe_entities` event
/// whose states arrived.
pub open spec fn added_events(added: Seq<(String, CompressedEntityState)>) -> Seq<AppEventView> {
    added.map_values(
        |p: (String, CompressedEntityState)|
            AppEventView::EventAdded {
                entity_id: p.0@,
                friendly_name: friendly_name_of(p.0@, p.1.attributes),
                state: p.1.state@,
            },
    )
}

/// The dashboard events for the entities of a `subscribe_entities` event
/// whose states changed: one for each change that carries a new state, in
/// order; a change that only removes attributes tells nothing.
pub open spec fn changed_events(changed: Seq<(String, CompressedStateDiff)>) -> Seq<AppEventView>
    decreases changed.len(),
{
    if changed.len() == 0 {
        Seq::empty()
    } else {
        let rest = changed_events(changed.drop_last());
        let last = changed.last();
        match last.1.additions {
            Some(a) => rest.push(AppEventView::StateChanged { entity_id: last.0@, state: a.state@ }),
            None => rest,
        }
    }
}

/// The messages on which the dashboard's network side works: a
/// `state_changed` event names its entity.
pub open spec fn message_handled(msg: ServerMessage) -> bool {
    match msg {
        ServerMessage::Event(Some(Event::NormalEvent(e))) => e.event_type@ == "state_changed"@
            ==> e.data.entity_id is Some,
        _ => true,
    }
}

/// The dashboard events for a message, except for a result (whose events
/// `ui_events_for` describes apart).
pub open spec fn ui_events_of(msg: ServerMessage) -> Seq<AppEventView> {
    match msg {
        ServerMessage::Event(None) => seq![AppEventView::Error("Unsupported event type"@)],
        ServerMessage::Event(Some(Event::NormalEvent(e))) => {
            if e.event_type@ == "state_changed"@ && e.data.new_state is Some {
                seq![
                    AppEventView::StateChanged {
                        entity_id: e.data.entity_id->0@,
                        state: e.data.new_state->0.state@,
                    },
                ]
            } else {
                Seq::empty()
            }
        },
        ServerMessage::Event(Some(Event::CompressedEvent(e))) => {
            let a = match e.added {
                Some(v) => added_events(v@),
                None => Seq::empty(),
            };
            let c = match e.changed {
                Some(v) => changed_events(v@),
                None => Seq::empty(),
            };
            a + c
        },
        ServerMessage::Result(r) => Seq::empty(),
        ServerMessage::Other => seq![AppEventView::Error("WS message unparsed"@)],
    }
}

/// The states of entities added by a `subscribe_entities` event (none when
/// it has no `a` part).
pub open spec fn added_states(e: SubscribeEntitiesEvent) -> Seq<(String, CompressedEntityState)> {
    match e.added {
        Some(v) => v@,
        None => Seq::empty(),
    }
}

/// The changes of a `subscribe_entities` event that carry a new state, in
/// the event's order.
pub open spec fn changes_with_state(e: SubscribeEntitiesEvent) -> Seq<(String, CompressedStateDiff)> {
    match e.changed {
        Some(v) => v@.filter(|p: (String, CompressedStateDiff)| carries_state(p)),
        None => Seq::empty(),
    }
}

/// A change carries a new state for its entity.
pub open spec fn carries_state(p: (String, CompressedStateDiff)) -> bool {
    p.1.additions is Some
}

/// What the dashboard is told of a `subscribe_entities` event.
pub open spec fn compressed_events(e: SubscribeEntitiesEvent) -> Seq<AppEventView> {
    ui_events_of(ServerMessage::Event(Some(Event::CompressedEvent(e))))
}

/// The state change that a change carrying a new state tells.
pub open spec fn state_change_of(p: (String, CompressedStateDiff)) -> AppEventView {
    AppEventView::StateChanged { entity_id: p.0@, state: p.1.additions->0.state@ }
}

/// Of a list of changes, the events are one state change per change that
/// carries a new state, in order.
proof fn lemma_changed_events_filter(changed: Seq<(String, CompressedStateDiff)>)
    ensures
        changed_events(changed) == changed.filter(|p: (String, CompressedStateDiff)| carries_state(p)).map_values(
            |p: (String, CompressedStateDiff)| state_change_of(p),
        ),
    decreases changed.len(),
{
    reveal_with_fuel(Seq::filter, 1);
    let pred = |p: (String, CompressedStateDiff)| carries_state(p);
    let f = |p: (String, CompressedStateDiff)| state_change_of(p);
    if changed.len() == 0 {
        assert(changed.filter(pred).map_values(f) =~= Seq::<AppEventView>::empty());
    } else {
        lemma_changed_events_filter(changed.drop_last());
        let sub = changed.drop_last().filter(pred);
        if pred(changed.last()) {
            assert(changed.filter(pred) == sub.push(changed.last()));
            assert(sub.push(changed.last()).map_values(f) =~= sub.map_values(f).push(f(changed.last())));
        } else {
            assert(changed.filter(pred) == sub);
        }
    }
}

/// The event that tells the name and state of an added entity.
pub open spec fn added_event_of(p: (String, CompressedEntityState)) -> AppEventView {
    AppEventView::EventAdded {
        entity_id: p.0@,
        friendly_name: friendly_name_of(p.0@, p.1.attributes),
        state: p.1.state@,
    }
}

/// A `subscribe_entities` event tells the dashboard the name and state of
/// each added entity, in order, and then one state change for each change
/// that carries a new state, in order, naming that change's entity and its
/// new state; nothing else.
pub proof fn lemma_compressed_event_tells_every_change(e: SubscribeEntitiesEvent)
    ensures
        compressed_events(e).len() == added_states(e).len() + changes_with_state(e).len(),
        forall|k: int|
            0 <= k < added_states(e).len() ==> compressed_events(e)[k] == added_event_of(
                added_states(e)[k],
            ),
        forall|k: int|
            0 <= k < changes_with_state(e).len() ==> compressed_events(e)[added_states(e).len() + k]
                == state_change_of(changes_with_state(e)[k]),
        forall|k: int| 0 <= k < changes_with_state(e).len() ==> carries_state(changes_with_state(e)[k]),
{
    match e.changed {
        Some(v) => {
            lemma_changed_events_filter(v@);
            v@.lemma_filter_len(|p: (String, CompressedStateDiff)| carries_state(p));
            assert forall|k: int| 0 <= k < changes_with_state(e).len() implies carries_state(
                changes_with_state(e)[k],
            ) by {
                v@.lemma_filter_pred(|p: (String, CompressedStateDiff)| carries_state(p), k);
            }
        },
        None => {},
    }
}

pub open spec fn events_view(v: Seq<AppEvent>) -> Seq<AppEventView> {
    v.map_values(|e: AppEvent| e@)
}

/// The name to show for an entity (see `friendly_name_of`).
pub fn friendly_name(entity_id: &String, attributes: &Option<Vec<(String, Json)>>) -> (n: String)
    ensures
        n@ == friendly_name_of(entity_id@, *attributes),
{
    match attributes {
        Some(attrs) => {
            let k: usize = find_key(attrs, "friendly_name");
            if k < attrs.len() {
                match &attrs[k].1 {
                    Json::Str(s) => s.clone(),
                    _ => entity_id.clone(),
                }
            } else {
                entity_id.clone()
            }
        },
        None => entity_id.clone(),
    }
}

proof fn lemma_events_push(v: Seq<AppEvent>, e: AppEvent)
    ensures
        events_view(v.push(e)) == events_view(v) + seq![e@],
{
    assert(events_view(v.push(e)) =~= events_view(v) + seq![e@]);
}

/// What the dashboard is told of a message received while it runs: the state
/// changes and names that it carries (a change that only removes attributes
/// tells nothing), `Unsupported event type` for an unknown event,
/// `WS message unparsed` for a message that is neither an event nor a
/// result, and `Result Error: ` and the result's debug text for a failed
/// result.
pub fn ui_events_for(msg: ServerMessage) -> (evs: Vec<AppEvent>)
    requires
        message_handled(msg),
    ensures
        match msg {
            ServerMessage::Result(r) => if r.success {
                evs@.len() == 0
            } else {
                events_view(evs@) == seq![AppEventView::Error("Result Error: "@ + result_debug(r))]
            },
            _ => events_view(evs@) == ui_events_of(msg),
        },
{
    let ghost m = msg;
    let mut evs: Vec<AppEvent> = Vec::new();
    match msg {
        ServerMessage::Event(None) => {
            evs.push(AppEvent::Error(String::from_str("Unsupported event type")));
            assert(events_view(evs@) =~= ui_events_of(m));
        },
        ServerMessage::Event(Some(Event::NormalEvent(e))) => {
            if str_is(&e.event_type, "state_changed") {
                match e.data.entity_id {
                    Some(entity_id) => {
                        match e.data.new_state {
                            Some(new_state) => {
                                evs.push(AppEvent::StateChanged { entity_id, state: new_state.state });
                            },
                            None => {},
                        }
                    },
                    None => {},
                }
            }
            assert(events_view(evs@) =~= ui_events_of(m));
        },
        ServerMessage::Event(Some(Event::CompressedEvent(e))) => {
            match &e.added {
                Some(added) => {
                    let mut i: usize = 0;
                    while i < added.len()
                        invariant
                            i <= added@.len(),
                            events_view(evs@) == added_events(added@.take(i as int)),
                        decreases added@.len() - i,
                    {
                        let entity_id = &added[i].0;
                        let st = &added[i].1;
                        let ev = AppEvent::EventAdded {
                            friendly_name: friendly_name(entity_id, &st.attributes),
                            state: st.state.clone(),
                            entity_id: entity_id.clone(),
                        };
                        proof {
                            lemma_events_push(evs@, ev);
                            assert(added_events(added@.take(i + 1)) =~= added_events(
                                added@.take(i as int),
                            ) + seq![ev@]);
                        }
                        evs.push(ev);
                        i += 1;
                    }
                    assert(added@.take(added@.len() as int) =~= added@);
                },
                None => {
                    assert(events_view(evs@) =~= Seq::empty());
                },
            }
            let ghost after_added = events_view(evs@);
            match &e.changed {
                Some(changed) => {
                    let mut i: usize = 0;
                    while i < changed.len()
                        invariant
                            i <= changed@.len(),
                            events_view(evs@) == after_added + changed_events(
                                changed@.take(i as int),
                            ),
                        decreases changed@.len() - i,
                    {
                        proof {
                            assert(changed@.take(i + 1).drop_last() =~= changed@.take(i as int));
                            assert(changed@.take(i + 1).last() == changed@[i as int]);
                        }
                        match &changed[i].1.additions {
                            Some(a) => {
                                let ev = AppEvent::StateChanged {
                                    entity_id: changed[i].0.clone(),
                                    state: a.state.clone(),
                                };
                                proof {
                                    lemma_events_push(evs@, ev);
                                }
                                evs.push(ev);
                            },
                            None => {},
                        }
                        i += 1;
                    }
                    assert(changed@.take(changed@.len() as int) =~= changed@);
                },
                None => {
                    assert(after_added + Seq::empty() =~= after_added);
                },
            }
        },
        ServerMessage::Result(r) => {
            if !r.success {
                let text = concat("Result Error: ", r.debug_text().as_str());
                evs.push(AppEvent::Error(text));
                assert(events_view(evs@) =~= seq![AppEventView::Error("Result Error: "@ + result_debug(r))]);
            }
        },
        ServerMessage::Other => {
            evs.push(AppEvent::Error(String::from_str("WS message unparsed")));
            assert(events_view(evs@) =~= ui_events_of(m));
        },
    }
    evs
}

/// Whether `s` holds the text `t`.
fn str_is(s: &String, t: &str) -> (b: bool)
    ensures
        b == (s@ == t@),
{
    crate::text::str_eq(s.as_str(), t)
}

/// The id and state of each entity of a list of states.
pub fn entity_states(states: &Vec<State>) -> (pairs: Vec<(String, String)>)
    ensures
        pairs@.len() == states@.len(),
        forall|i: int|
            0 <= i < states@.len() ==> (#[trigger] pairs@[i]).0@ == states@[i].entity_id@
                && pairs@[i].1@ == states@[i].state@,
{
    let mut pairs: Vec<(String, String)> = Vec::new();
    let mut i: usize = 0;
    while i < states.len()
        invariant
            i <= states@.len(),
            pairs@.len() == i,
            forall|j: int|
                0 <= j < i ==> (#[trigger] pairs@[j]).0@ == states@[j].entity_id@ && pairs@[j].1@
                    == states@[j].state@,
        decreases states@.len() - i,
    {
        pairs.push((states[i].entity_id.clone(), states[i].state.clone()));
        i += 1;
    }
    pairs
}

/// Whether the network side works on `msg` (see `message_handled`).
pub fn handles_message(msg: &ServerMessage) -> (b: bool)
    ensures
        b == message_handled(*msg),
{
    match msg {
        ServerMessage::Event(Some(Event::NormalEvent(e))) => {
            !str_is(&e.event_type, "state_changed") || e.data.entity_id.is_some()
        },
        _ => true,
    }
}

} // verus!
