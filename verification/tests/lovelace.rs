use ha_tui::json::Json;
use ha_tui::lovelace::{card_from_json, extract_all_cards};
use ha_tui::worker::{cards_have_domains, dashboard_entities};

fn s(t: &str) -> Json {
    Json::Str(t.to_string())
}

fn obj(entries: Vec<(&str, Json)>) -> Json {
    Json::Object(entries.into_iter().map(|(k, v)| (k.to_string(), v)).collect())
}

fn card(t: &str, entity: Option<&str>) -> Json {
    match entity {
        Some(e) => obj(vec![("entity", s(e)), ("type", s(t))]),
        None => obj(vec![("type", s(t))]),
    }
}

#[test]
fn card_needs_a_string_type() {
    assert!(card_from_json(&obj(vec![("entity", s("light.a"))])).is_none());
    assert!(card_from_json(&obj(vec![("type", Json::UInt(3))])).is_none());
    assert!(card_from_json(&s("tile")).is_none());
    let c = card_from_json(&card("tile", Some("light.a"))).unwrap();
    assert_eq!(c.card_type, "tile");
    assert_eq!(c.entity.as_deref(), Some("light.a"));
    assert!(c.title.is_none());
}

#[test]
fn card_optional_fields_must_be_strings_or_null() {
    let ok = obj(vec![("name", Json::Null), ("title", s("T")), ("type", s("entities"))]);
    let c = card_from_json(&ok).unwrap();
    assert_eq!(c.title.as_deref(), Some("T"));
    assert!(c.name.is_none());
    let bad = obj(vec![("title", Json::Bool(true)), ("type", s("entities"))]);
    assert!(card_from_json(&bad).is_none());
    let bad_entities = obj(vec![("entities", s("x")), ("type", s("entities"))]);
    assert!(card_from_json(&bad_entities).is_none());
    let ok_entities = obj(vec![("entities", Json::Array(vec![s("light.a")])), ("type", s("entities"))]);
    assert!(card_from_json(&ok_entities).is_some());
}

#[test]
fn cards_are_found_at_every_depth() {
    // {"views": [{"cards": [A, {"type": "grid", "cards": [B]}]}]}
    let a = card("tile", Some("light.a"));
    let b = card("tile", Some("switch.b"));
    let grid = obj(vec![("cards", Json::Array(vec![b])), ("type", s("grid"))]);
    let view = obj(vec![("cards", Json::Array(vec![a, grid]))]);
    let root = obj(vec![("views", Json::Array(vec![view]))]);
    let cards = extract_all_cards(&root);
    let kinds: Vec<(String, Option<String>)> = cards.iter().map(|c| (c.card_type.clone(), c.entity.clone())).collect();
    // Each card is found once, before the cards nested in it.
    assert_eq!(
        kinds,
        vec![
            ("tile".to_string(), Some("light.a".to_string())),
            ("grid".to_string(), None),
            ("tile".to_string(), Some("switch.b".to_string())),
        ]
    );
}

#[test]
fn nested_stack_gives_each_card_once() {
    // {"cards":[{"type":"vertical-stack","cards":[{"type":"tile","entity":"light.a"}]}]}
    let stack = obj(vec![("cards", Json::Array(vec![card("tile", Some("light.a"))])), ("type", s("vertical-stack"))]);
    let root = obj(vec![("cards", Json::Array(vec![stack]))]);
    let cards = extract_all_cards(&root);
    assert_eq!(cards.len(), 2);
    assert_eq!(cards[0].card_type, "vertical-stack");
    assert_eq!(cards[1].card_type, "tile");
    assert_eq!(cards[1].entity.as_deref(), Some("light.a"));
}

#[test]
fn cards_under_other_keys_are_searched() {
    // a `cards` value that is no list is searched like any other value
    let inner = obj(vec![("cards", Json::Array(vec![card("tile", Some("fan.x"))]))]);
    let root = obj(vec![("cards", inner), ("other", Json::Array(vec![card("tile", Some("light.y"))]))]);
    let cards = extract_all_cards(&root);
    let ids: Vec<Option<String>> = cards.iter().map(|c| c.entity.clone()).collect();
    assert_eq!(ids, vec![Some("fan.x".to_string())]);
}

#[test]
fn single_card_field_is_found() {
    let inner = card("tile", Some("fan.c"));
    let root = obj(vec![("card", inner), ("type", s("conditional"))]);
    let cards = extract_all_cards(&root);
    assert_eq!(cards.len(), 1);
    assert_eq!(cards[0].entity.as_deref(), Some("fan.c"));
}

#[test]
fn scalars_hold_no_cards() {
    assert!(extract_all_cards(&Json::Null).is_empty());
    assert!(extract_all_cards(&s("cards")).is_empty());
}

#[test]
fn entities_take_their_domain() {
    let root = obj(vec![(
        "cards",
        Json::Array(vec![card("tile", Some("light.kitchen")), card("markdown", None), card("button", Some("switch.fan"))]),
    )]);
    let cards = extract_all_cards(&root);
    assert!(cards_have_domains(&cards));
    let entities = dashboard_entities(&cards);
    assert_eq!(entities.len(), 2);
    assert_eq!(entities[0].0, "light.kitchen");
    assert_eq!(entities[0].1.domain, "light");
    assert_eq!(entities[0].1.card_type, "tile");
    assert_eq!(entities[0].1.state, "");
    assert!(entities[0].1.services.is_empty());
    assert_eq!(entities[1].1.domain, "switch");
}

#[test]
fn entity_without_domain_is_detected() {
    let cards = extract_all_cards(&obj(vec![("cards", Json::Array(vec![card("tile", Some("nodot"))]))]));
    assert!(!cards_have_domains(&cards));
}
