use ha_tui::dashboard::AppEvent;
use ha_tui::events::{
    entity_states, friendly_name, handles_message, ui_events_for, CompressedEntityRemoved, CompressedEntityState,
    CompressedStateDiff, Event,
    HAEvent, ServerMessage, State, StateChangedData, SubscribeEntitiesEvent,
};
use ha_tui::json::Json;
use ha_tui::protocol::WSResult;

fn state(id: &str, st: &str) -> State {
    State {
        entity_id: id.to_string(),
        state: st.to_string(),
        attributes: Json::Object(vec![]),
        last_changed: "t".to_string(),
        last_updated: "t".to_string(),
        context: None,
    }
}

fn normal(event_type: &str, entity_id: Option<&str>, new_state: Option<State>) -> ServerMessage {
    ServerMessage::Event(Some(Event::NormalEvent(HAEvent {
        context: Json::Null,
        data: StateChangedData { entity_id: entity_id.map(|s| s.to_string()), new_state, old_state: None },
        event_type: event_type.to_string(),
        origin: "LOCAL".to_string(),
        time_fired: "t".to_string(),
    })))
}

fn compressed_state(st: &str, name: Option<&str>) -> CompressedEntityState {
    CompressedEntityState {
        state: st.to_string(),
        attributes: name.map(|n| vec![("friendly_name".to_string(), Json::Str(n.to_string()))]),
        context: None,
        last_changed: Some("1700000000.5".to_string()),
        last_updated: None,
    }
}

#[test]
fn state_changed_event_is_relayed() {
    let evs = ui_events_for(normal("state_changed", Some("light.a"), Some(state("light.a", "on"))));
    assert_eq!(evs.len(), 1);
    match &evs[0] {
        AppEvent::StateChanged { entity_id, state } => {
            assert_eq!(entity_id, "light.a");
            assert_eq!(state, "on");
        }
        _ => panic!("expected a state change"),
    }
}

#[test]
fn other_events_and_removals_are_ignored() {
    assert!(ui_events_for(normal("call_service", None, None)).is_empty());
    assert!(ui_events_for(normal("state_changed", Some("light.a"), None)).is_empty());
}

#[test]
fn state_changed_without_entity_is_detected() {
    assert!(!handles_message(&normal("state_changed", None, None)));
    assert!(handles_message(&normal("other", None, None)));
}

#[test]
fn compressed_event_gives_names_then_changes() {
    let msg = ServerMessage::Event(Some(Event::CompressedEvent(SubscribeEntitiesEvent {
        added: Some(vec![
            ("light.a".to_string(), compressed_state("off", Some("Kitchen"))),
            ("fan.b".to_string(), compressed_state("on", None)),
        ]),
        changed: Some(vec![(
            "light.a".to_string(),
            CompressedStateDiff { additions: Some(compressed_state("on", None)), removals: None },
        )]),
        removed: Some(vec!["x.y".to_string()]),
    })));
    assert!(handles_message(&msg));
    let evs = ui_events_for(msg);
    assert_eq!(evs.len(), 3);
    match &evs[0] {
        AppEvent::EventAdded { entity_id, friendly_name, state } => {
            assert_eq!(entity_id, "light.a");
            assert_eq!(friendly_name, "Kitchen");
            assert_eq!(state, "off");
        }
        _ => panic!("expected an added entity"),
    }
    match &evs[1] {
        AppEvent::EventAdded { friendly_name, .. } => assert_eq!(friendly_name, "fan.b"),
        _ => panic!("expected an added entity"),
    }
    match &evs[2] {
        AppEvent::StateChanged { entity_id, state } => {
            assert_eq!(entity_id, "light.a");
            assert_eq!(state, "on");
        }
        _ => panic!("expected a state change"),
    }
}

#[test]
fn change_that_only_removes_attributes_tells_nothing() {
    let msg = ServerMessage::Event(Some(Event::CompressedEvent(SubscribeEntitiesEvent {
        added: None,
        changed: Some(vec![
            ("light.a".to_string(), CompressedStateDiff { additions: Some(compressed_state("on", None)), removals: None }),
            (
                "fan.b".to_string(),
                CompressedStateDiff {
                    additions: None,
                    removals: Some(CompressedEntityRemoved { attributes: vec!["brightness".to_string()] }),
                },
            ),
        ]),
        removed: None,
    })));
    assert!(handles_message(&msg));
    let evs = ui_events_for(msg);
    assert_eq!(evs.len(), 1);
    match &evs[0] {
        AppEvent::StateChanged { entity_id, state } => {
            assert_eq!(entity_id, "light.a");
            assert_eq!(state, "on");
        }
        _ => panic!("expected a state change"),
    }
}

#[test]
fn friendly_name_falls_back_to_the_id() {
    let id = "light.a".to_string();
    assert_eq!(friendly_name(&id, &None), "light.a");
    assert_eq!(friendly_name(&id, &Some(vec![("friendly_name".to_string(), Json::UInt(3))])), "light.a");
    assert_eq!(friendly_name(&id, &Some(vec![("friendly_name".to_string(), Json::Str("Lamp".to_string()))])), "Lamp");
}

#[test]
fn unknown_and_unparsed_messages_are_reported() {
    match &ui_events_for(ServerMessage::Event(None))[0] {
        AppEvent::Error(t) => assert_eq!(t, "Unsupported event type"),
        _ => panic!("expected an error"),
    }
    match &ui_events_for(ServerMessage::Other)[0] {
        AppEvent::Error(t) => assert_eq!(t, "WS message unparsed"),
        _ => panic!("expected an error"),
    }
}

#[test]
fn failed_result_is_reported() {
    let r = WSResult { id: 7, success: false, result: None, error: None };
    let evs = ui_events_for(ServerMessage::Result(r));
    match &evs[0] {
        AppEvent::Error(t) => assert_eq!(t, "Result Error: WSResult { id: 7, success: false, result: None, error: None }"),
        _ => panic!("expected an error"),
    }
    assert!(ui_events_for(ServerMessage::Result(WSResult { id: 7, success: true, result: None, error: None })).is_empty());
}

#[test]
fn states_give_id_and_state() {
    let pairs = entity_states(&vec![state("light.a", "on"), state("fan.b", "off")]);
    assert_eq!(pairs, vec![("light.a".to_string(), "on".to_string()), ("fan.b".to_string(), "off".to_string())]);
}
