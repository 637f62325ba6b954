use ha_tui::dashboard::AppEvent;
use ha_tui::json::Json;
use ha_tui::protocol::{
    AuthInvalid, AuthOk, AuthRequired, ErrorCode, HaError, Response, WSClient, WSEvent, WSResult,
};
use ha_tui::worker::{connecting_event, services_for_entity, string_list, Stage, Worker, WorkerAction};

fn s(t: &str) -> Json {
    Json::Str(t.to_string())
}

fn obj(entries: Vec<(&str, Json)>) -> Json {
    Json::Object(entries.into_iter().map(|(k, v)| (k.to_string(), v)).collect())
}

/// The text of a request, with its entries in their order.
fn render(j: &Json) -> String {
    match j {
        Json::Null => "null".to_string(),
        Json::Bool(b) => b.to_string(),
        Json::UInt(n) => n.to_string(),
        Json::Number(t) => t.clone(),
        Json::Float(t) => t.clone(),
        Json::Str(t) => format!("\"{}\"", t),
        Json::Array(items) => format!("[{}]", items.iter().map(render).collect::<Vec<_>>().join(",")),
        Json::Object(e) => format!(
            "{{{}}}",
            e.iter().map(|(k, v)| format!("\"{}\":{}", k, render(v))).collect::<Vec<_>>().join(",")
        ),
    }
}

fn ok_result(id: u64, result: Option<Json>) -> Response {
    Response::Result(WSResult { id, success: true, result, error: None })
}

fn sent(actions: &[WorkerAction]) -> Vec<String> {
    actions
        .iter()
        .filter_map(|a| match a {
            WorkerAction::ToServer(j) => Some(render(j)),
            _ => None,
        })
        .collect()
}

fn statuses(actions: &[WorkerAction]) -> Vec<String> {
    actions
        .iter()
        .filter_map(|a| match a {
            WorkerAction::ToUi(AppEvent::Status(s)) => Some(s.clone()),
            _ => None,
        })
        .collect()
}

#[test]
fn auth_request_carries_the_token() {
    let client = WSClient { id: 0, ha_version: String::new() };
    assert_eq!(render(&client.auth_longlivedtoken("SECRET-REDACTED")), "{\"type\":\"auth\",\"access_token\":\"SECRET-REDACTED\"}");
}

#[test]
fn requests_take_new_ids() {
    let mut client = WSClient { id: 0, ha_version: "2024.1".to_string() };
    assert_eq!(render(&client.fetch_all_states()), "{\"id\":1,\"type\":\"get_states\"}");
    assert_eq!(
        render(&client.subscribe_all_state_changes()),
        "{\"id\":1,\"type\":\"subscribe_events\",\"event_type\":\"state_changed\"}"
    );
    assert_eq!(
        render(&client.fetch_lovelace_dashboard("dashboard-tui")),
        "{\"id\":2,\"type\":\"lovelace/config\",\"url_path\":\"dashboard-tui\",\"force\":false}"
    );
    assert_eq!(
        render(&client.subscribe_entities(&vec!["light.a".to_string(), "fan.b".to_string()])),
        "{\"id\":3,\"type\":\"subscribe_entities\",\"entity_ids\":[\"light.a\",\"fan.b\"]}"
    );
    assert_eq!(
        render(&client.fetch_services_for_entity("light.a")),
        "{\"id\":4,\"type\":\"get_services_for_target\",\"target\":{\"entity_id\":[\"light.a\"]}}"
    );
    assert_eq!(
        render(&client.call_service("toggle", "light.kitchen")),
        "{\"id\":5,\"type\":\"call_service\",\"domain\":\"light\",\"service\":\"toggle\",\"target\":{\"entity_id\":\"light.kitchen\"}}"
    );
    assert_eq!(client.id, 5);
}

#[test]
fn session_starts_with_the_greeting() {
    let ok = WSClient::new(Response::AuthRequired(AuthRequired { ha_version: "2025.2".to_string() }));
    match ok {
        Ok(s) => {
            assert_eq!(s.ha_version, "2025.2");
            assert_eq!(s.id, 0);
        }
        Err(_) => panic!("expected a session"),
    }
    let err = WSClient::new(Response::AuthOk(AuthOk { ha_version: "x".to_string() }));
    match err {
        Err(e) => {
            assert!(matches!(e, HaError::NotAuthRequired(_)));
            assert_eq!(e.message(), "Expected auth_required, got: AuthOk(AuthOk { ha_version: \"x\" })");
        }
        Ok(_) => panic!("expected an error"),
    }
}

#[test]
fn auth_reply_is_checked() {
    assert!(WSClient::check_auth_reply(Response::AuthOk(AuthOk { ha_version: "1".to_string() })).is_ok());
    match WSClient::check_auth_reply(Response::AuthInvalid(AuthInvalid { message: "bad token".to_string() })) {
        Err(e) => assert_eq!(e.message(), "Authentication failed: bad token"),
        Ok(_) => panic!("expected an error"),
    }
    match WSClient::check_auth_reply(ok_result(1, None)) {
        Err(e) => assert!(e.message().starts_with("Unexpected response after auth: ")),
        Ok(_) => panic!("expected an error"),
    }
}

#[test]
fn only_the_awaited_result_is_accepted() {
    let client = WSClient { id: 4, ha_version: String::new() };
    match client.get_result(ok_result(4, Some(Json::Bool(true)))) {
        Ok(Some(Json::Bool(true))) => {}
        _ => panic!("expected the value"),
    }
    match client.get_result(ok_result(3, None)) {
        Err(e) => assert_eq!(e.message(), "Wrong response: WSResult { id: 3, success: true, result: None, error: None }"),
        Ok(_) => panic!("expected an error"),
    }
    let failed = Response::Result(WSResult {
        id: 4,
        success: false,
        result: None,
        error: Some(ErrorCode { code: "not_found".to_string(), message: "nope".to_string() }),
    });
    assert!(matches!(client.get_result(failed), Err(HaError::WrongResponse(_))));
    match client.get_result(Response::Event(WSEvent { id: 4, event: Json::Null })) {
        Err(e) => assert_eq!(e.message(), "Unexpected response type: Event(WSEvent { id: 4, event: Null })"),
        Ok(_) => panic!("expected an error"),
    }
}

#[test]
fn error_code_text() {
    let e = ErrorCode { code: "unknown_command".to_string(), message: "Unknown command.".to_string() };
    assert_eq!(e.to_text(), "Error unknown_command -> Unknown command.");
}

#[test]
fn services_keep_the_entity_domain() {
    let offered = vec!["light.turn_on".to_string(), "switch.toggle".to_string(), "lightning.x".to_string()];
    assert_eq!(services_for_entity("light.kitchen", offered), vec!["light.turn_on", "lightning.x"]);
    assert!(string_list(&Json::Array(vec![s("a"), Json::Null])).is_none());
    assert!(string_list(&s("a")).is_none());
    assert_eq!(string_list(&Json::Array(vec![s("a"), s("b")])).unwrap(), vec!["a", "b"]);
    assert_eq!(
        HaError::InvalidServices(s("light.turn_on")).message(),
        "invalid type: string \"light.turn_on\", expected a sequence"
    );
    assert_eq!(
        HaError::InvalidServices(Json::Array(vec![s("a"), Json::Null])).message(),
        "invalid type: null, expected a string"
    );
}

fn dashboard_config() -> Json {
    obj(vec![(
        "views",
        Json::Array(vec![obj(vec![(
            "cards",
            Json::Array(vec![
                obj(vec![("entity", s("light.kitchen")), ("type", s("tile"))]),
                obj(vec![("entity", s("switch.fan")), ("type", s("button"))]),
            ]),
        )])]),
    )])
}

#[test]
fn the_session_runs_through_its_stages() {
    assert!(matches!(connecting_event(), AppEvent::Status(ref t) if t == "Connecting..."));
    let mut w = Worker::new("tok".to_string());

    let greeting = Response::AuthRequired(AuthRequired { ha_version: "2025.1".to_string() });
    assert!(w.handles_reply(&greeting));
    let a = w.on_reply(greeting).ok().unwrap();
    assert_eq!(statuses(&a), vec!["Connected to HA v2025.1"]);
    assert_eq!(sent(&a), vec!["{\"type\":\"auth\",\"access_token\":\"tok\"}"]);
    assert!(matches!(w.stage, Stage::AwaitAuthReply));

    let a = w.on_reply(Response::AuthOk(AuthOk { ha_version: "2025.1".to_string() })).ok().unwrap();
    assert_eq!(statuses(&a), vec!["Requesting entities"]);
    assert_eq!(sent(&a), vec!["{\"id\":1,\"type\":\"lovelace/config\",\"url_path\":\"dashboard-tui\",\"force\":false}"]);

    let reply = ok_result(1, Some(dashboard_config()));
    assert!(w.handles_reply(&reply));
    let a = w.on_reply(reply).ok().unwrap();
    assert_eq!(sent(&a), vec!["{\"id\":2,\"type\":\"get_services_for_target\",\"target\":{\"entity_id\":[\"light.kitchen\"]}}"]);

    let a = w
        .on_reply(ok_result(2, Some(Json::Array(vec![s("light.turn_on"), s("switch.turn_on")]))))
        .ok()
        .unwrap();
    assert_eq!(sent(&a), vec!["{\"id\":3,\"type\":\"get_services_for_target\",\"target\":{\"entity_id\":[\"switch.fan\"]}}"]);

    let a = w.on_reply(ok_result(3, Some(Json::Array(vec![s("switch.toggle")])))).ok().unwrap();
    assert_eq!(
        sent(&a),
        vec!["{\"id\":4,\"type\":\"subscribe_entities\",\"entity_ids\":[\"light.kitchen\",\"switch.fan\"]}"]
    );
    assert!(matches!(w.stage, Stage::AwaitSubscription));

    let a = w.on_reply(ok_result(4, None)).ok().unwrap();
    assert!(matches!(w.stage, Stage::Running));
    assert_eq!(a.len(), 2);
    match &a[0] {
        WorkerAction::ToUi(AppEvent::Snapshot { entities }) => {
            assert_eq!(entities.len(), 2);
            assert_eq!(entities[0].0, "light.kitchen");
            assert_eq!(entities[0].1.services, vec!["light.turn_on"]);
            assert_eq!(entities[1].1.services, vec!["switch.toggle"]);
            assert_eq!(entities[1].1.domain, "switch");
        }
        _ => panic!("expected the snapshot"),
    }
    assert_eq!(statuses(&a), vec!["Displaying"]);

    let cmd = AppEvent::CallService { entity_id: "switch.fan".to_string(), service: "toggle".to_string() };
    assert!(w.handles_command(&cmd));
    let j = w.on_ui_command(cmd).unwrap();
    assert_eq!(
        render(&j),
        "{\"id\":5,\"type\":\"call_service\",\"domain\":\"switch\",\"service\":\"toggle\",\"target\":{\"entity_id\":\"switch.fan\"}}"
    );
    assert!(w.on_ui_command(AppEvent::Status("x".to_string())).is_none());
    assert_eq!(w.client.id, 5);
}

#[test]
fn an_empty_dashboard_subscribes_at_once() {
    let mut w = Worker::new("tok".to_string());
    w.on_reply(Response::AuthRequired(AuthRequired { ha_version: "v".to_string() })).ok().unwrap();
    w.on_reply(Response::AuthOk(AuthOk { ha_version: "v".to_string() })).ok().unwrap();
    let a = w.on_reply(ok_result(1, Some(obj(vec![])))).ok().unwrap();
    assert_eq!(sent(&a), vec!["{\"id\":2,\"type\":\"subscribe_entities\",\"entity_ids\":[]}"]);
}

#[test]
fn replies_that_do_not_fit_end_the_session() {
    let mut w = Worker::new("tok".to_string());
    match w.on_reply(ok_result(0, None)) {
        Err(e) => assert!(e.message().starts_with("Expected auth_required, got: ")),
        Ok(_) => panic!("expected an error"),
    }
    let mut w = Worker::new("tok".to_string());
    w.on_reply(Response::AuthRequired(AuthRequired { ha_version: "v".to_string() })).ok().unwrap();
    match w.on_reply(Response::AuthInvalid(AuthInvalid { message: "Invalid access token".to_string() })) {
        Err(e) => assert_eq!(e.message(), "Authentication failed: Invalid access token"),
        Ok(_) => panic!("expected an error"),
    }
}

#[test]
fn malformed_services_end_the_session() {
    let mut w = Worker::new("tok".to_string());
    w.on_reply(Response::AuthRequired(AuthRequired { ha_version: "v".to_string() })).ok().unwrap();
    w.on_reply(Response::AuthOk(AuthOk { ha_version: "v".to_string() })).ok().unwrap();
    w.on_reply(ok_result(1, Some(dashboard_config()))).ok().unwrap();
    let bad = ok_result(2, Some(s("light.turn_on")));
    assert!(w.handles_reply(&bad));
    assert!(matches!(w.on_reply(bad), Err(HaError::InvalidServices(_))));
}

#[test]
fn replies_on_which_the_session_would_stop_are_detected() {
    let mut w = Worker::new("tok".to_string());
    w.on_reply(Response::AuthRequired(AuthRequired { ha_version: "v".to_string() })).ok().unwrap();
    w.on_reply(Response::AuthOk(AuthOk { ha_version: "v".to_string() })).ok().unwrap();
    assert!(!w.handles_reply(&ok_result(1, None)));
    let no_domain = obj(vec![("cards", Json::Array(vec![obj(vec![("entity", s("nodot")), ("type", s("tile"))])]))]);
    assert!(!w.handles_reply(&ok_result(1, Some(no_domain))));
    assert!(w.handles_reply(&ok_result(7, None)));
    let cmd = AppEvent::CallService { entity_id: "nodot".to_string(), service: "toggle".to_string() };
    assert!(!w.handles_command(&cmd));
}
