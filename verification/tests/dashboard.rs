use ha_tui::dashboard::{AppEvent, AppState, Card, Key, UiAction};

fn card(domain: &str) -> Card {
    Card {
        friendly_name: String::new(),
        state: String::new(),
        domain: domain.to_string(),
        services: vec![],
        card_type: "tile".to_string(),
    }
}

fn snapshot(ids: &[&str]) -> AppEvent {
    AppEvent::Snapshot {
        entities: ids.iter().map(|id| (id.to_string(), card(id.split('.').next().unwrap()))).collect(),
    }
}

fn ids(app: &AppState) -> Vec<String> {
    app.entities.keys().cloned().collect()
}

#[test]
fn new_dashboard_is_empty_and_connecting() {
    let app = AppState::new();
    assert_eq!(app.title, "Home Assistant");
    assert_eq!(app.status, "<connecting>");
    assert!(app.entities.is_empty());
    assert_eq!(app.selected, 0);
    assert!(app.last_error.is_none());
    assert_eq!(app.header_text(), "App status: <connecting>");
    assert_eq!(app.footer_text(), "q: quit | \u{2191}/\u{2193}: scroll");
}

#[test]
fn snapshot_adds_cards_in_order_and_resets_selection() {
    let mut app = AppState::new();
    app.apply(snapshot(&["light.a", "switch.b"]));
    app.on_key(Key::Down);
    assert_eq!(app.selected, 1);
    app.apply(snapshot(&["fan.c", "light.a"]));
    assert_eq!(ids(&app), vec!["light.a", "switch.b", "fan.c"]);
    assert_eq!(app.selected, 0);
    assert_eq!(app.entity_count(), 3);
}

#[test]
fn state_changes_update_only_known_cards() {
    let mut app = AppState::new();
    app.apply(snapshot(&["light.a", "switch.b"]));
    app.apply(AppEvent::StateChanged { entity_id: "switch.b".to_string(), state: "on".to_string() });
    app.apply(AppEvent::StateChanged { entity_id: "light.zzz".to_string(), state: "off".to_string() });
    assert_eq!(app.entities["switch.b"].state, "on");
    assert_eq!(app.entities["light.a"].state, "");
    assert_eq!(ids(&app), vec!["light.a", "switch.b"]);
}

#[test]
fn added_event_sets_name_and_state() {
    let mut app = AppState::new();
    app.apply(snapshot(&["light.a"]));
    app.apply(AppEvent::EventAdded {
        entity_id: "light.a".to_string(),
        friendly_name: "Kitchen".to_string(),
        state: "off".to_string(),
    });
    assert_eq!(app.entities["light.a"].friendly_name, "Kitchen");
    assert_eq!(app.entities["light.a"].state, "off");
}

#[test]
fn repeated_update_changes_nothing_more() {
    let mut app = AppState::new();
    app.apply(snapshot(&["light.a"]));
    let ev = || AppEvent::StateChanged { entity_id: "light.a".to_string(), state: "on".to_string() };
    app.apply(ev());
    let once = app.entities["light.a"].state.clone();
    app.apply(ev());
    assert_eq!(app.entities["light.a"].state, once);
    assert_eq!(app.entities.len(), 1);
}

#[test]
fn status_and_error_are_kept() {
    let mut app = AppState::new();
    app.apply(AppEvent::Status("Displaying".to_string()));
    app.apply(AppEvent::Error("boom".to_string()));
    assert_eq!(app.header_text(), "App status: Displaying");
    assert_eq!(app.footer_text(), "q: quit | \u{2191}/\u{2193}: scroll | Error -> boom");
    app.apply(AppEvent::CallService { entity_id: "x.y".to_string(), service: "toggle".to_string() });
    assert_eq!(app.status, "Displaying");
}

#[test]
fn selection_wraps_around() {
    let mut app = AppState::new();
    app.apply(snapshot(&["a.1", "a.2", "a.3"]));
    app.on_key(Key::Up);
    assert_eq!(app.selected, 2);
    app.on_key(Key::Down);
    assert_eq!(app.selected, 0);
    app.on_key(Key::Down);
    app.on_key(Key::Down);
    assert_eq!(app.selected, 2);
    app.on_key(Key::Down);
    assert_eq!(app.selected, 0);
}

#[test]
fn down_then_up_comes_back() {
    let mut app = AppState::new();
    app.apply(snapshot(&["a.1", "a.2", "a.3"]));
    for start in 0..3 {
        app.selected = start;
        app.on_key(Key::Down);
        app.on_key(Key::Up);
        assert_eq!(app.selected, start);
        app.on_key(Key::Up);
        app.on_key(Key::Down);
        assert_eq!(app.selected, start);
    }
}

#[test]
fn keys_give_actions() {
    let mut app = AppState::new();
    assert!(matches!(app.on_key(Key::Enter), UiAction::Continue));
    assert!(matches!(app.on_key(Key::Char('x')), UiAction::Continue));
    assert!(matches!(app.on_key(Key::Other), UiAction::Continue));
    assert!(matches!(app.on_key(Key::Char('q')), UiAction::Quit));
    app.apply(snapshot(&["light.a", "switch.b"]));
    app.on_key(Key::Down);
    match app.on_key(Key::Enter) {
        UiAction::Send(AppEvent::CallService { entity_id, service }) => {
            assert_eq!(entity_id, "switch.b");
            assert_eq!(service, "toggle");
        }
        _ => panic!("expected a service call"),
    }
}

#[test]
fn card_text_lists_state_domain_and_services() {
    let mut c = card("light");
    c.state = "on".to_string();
    c.services = vec!["light.turn_on".to_string(), "light.toggle".to_string()];
    assert_eq!(c.body_text(), "on\nlight\n[\"light.turn_on\", \"light.toggle\"]");
    assert_eq!(card("x").body_text(), "\nx\n[]");
    assert_eq!(Card::selection_mark(true), "^");
    assert_eq!(Card::selection_mark(false), "");
}

#[test]
fn selected_card_is_recognised() {
    let mut app = AppState::new();
    app.apply(snapshot(&["a.1", "a.2"]));
    app.on_key(Key::Down);
    assert!(app.is_selected(1));
    assert!(!app.is_selected(0));
}
