use ha_tui::args::{Args, ArgsError};
use ha_tui::url::build_ws_url;

#[test]
fn http_becomes_ws() {
    assert_eq!(build_ws_url("http://homeassistant.local:8123"), "ws://homeassistant.local:8123/api/websocket");
}

#[test]
fn https_becomes_wss() {
    assert_eq!(build_ws_url("https://ha.example.org"), "wss://ha.example.org/api/websocket");
}

#[test]
fn trailing_slashes_are_dropped() {
    assert_eq!(build_ws_url("http://host:8123///"), "ws://host:8123/api/websocket");
    assert_eq!(build_ws_url("http://host:8123/"), build_ws_url("http://host:8123"));
}

#[test]
fn other_schemes_are_kept() {
    assert_eq!(build_ws_url("ws://host/"), "ws://host/api/websocket");
    assert_eq!(build_ws_url("host"), "host/api/websocket");
    assert_eq!(build_ws_url(""), "/api/websocket");
}

#[test]
fn scheme_only_base_loses_its_slashes() {
    assert_eq!(build_ws_url("http://"), "http:/api/websocket");
}

fn argv(items: &[&str]) -> Vec<String> {
    items.iter().map(|s| s.to_string()).collect()
}

#[test]
fn options_are_read() {
    let r = Args::parse(&argv(&["prog", "--ha-url", "http://h", "--ha-token", "t"]), None, None);
    match r {
        Ok(a) => {
            assert_eq!(a.ha_url, "http://h");
            assert_eq!(a.ha_token, "t");
        }
        Err(_) => panic!("expected arguments"),
    }
}

#[test]
fn environment_fills_missing_options() {
    let r = Args::parse(&argv(&["prog", "--ha-token", "t"]), Some("http://env".to_string()), Some("envtok".to_string()));
    match r {
        Ok(a) => {
            assert_eq!(a.ha_url, "http://env");
            assert_eq!(a.ha_token, "t");
        }
        Err(_) => panic!("expected arguments"),
    }
}

#[test]
fn last_option_wins() {
    let r = Args::parse(&argv(&["prog", "--ha-url", "a", "--ha-url", "b", "--ha-token", "t"]), None, None);
    match r {
        Ok(a) => assert_eq!(a.ha_url, "b"),
        Err(_) => panic!("expected arguments"),
    }
}

#[test]
fn missing_value_is_refused() {
    let r = Args::parse(&argv(&["prog", "--ha-url"]), Some("x".to_string()), Some("y".to_string()));
    match r {
        Err(e) => {
            assert!(matches!(e, ArgsError::MissingUrlValue));
            assert_eq!(e.message(), "Missing value for --ha-url");
        }
        Ok(_) => panic!("expected an error"),
    }
    let r = Args::parse(&argv(&["prog", "--ha-token"]), None, None);
    match r {
        Err(e) => assert_eq!(e.message(), "Missing value for --ha-token"),
        Ok(_) => panic!("expected an error"),
    }
}

#[test]
fn unknown_argument_is_refused() {
    let r = Args::parse(&argv(&["prog", "--verbose", "--ha-url"]), None, None);
    match r {
        Err(e) => assert_eq!(e.message(), "Unknown argument: --verbose"),
        Ok(_) => panic!("expected an error"),
    }
}

#[test]
fn missing_url_is_reported_before_token() {
    let r = Args::parse(&argv(&["prog"]), None, None);
    match r {
        Err(e) => assert_eq!(e.message(), "Missing --ha-url or HA_URL environment variable"),
        Ok(_) => panic!("expected an error"),
    }
    let r = Args::parse(&argv(&["prog"]), Some("u".to_string()), None);
    match r {
        Err(e) => assert_eq!(e.message(), "Missing --ha-token or HA_TOKEN environment variable"),
        Ok(_) => panic!("expected an error"),
    }
}

#[test]
fn empty_command_line_uses_environment() {
    let r = Args::parse(&Vec::new(), Some("u".to_string()), Some("t".to_string()));
    match r {
        Ok(a) => {
            assert_eq!(a.ha_url, "u");
            assert_eq!(a.ha_token, "t");
        }
        Err(_) => panic!("expected arguments"),
    }
}
