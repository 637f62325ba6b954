# ha_tui

A terminal dashboard for Home Assistant. It connects to the WebSocket API,
authenticates with a long-lived access token, reads the cards of the
`dashboard-tui` Lovelace dashboard, fetches the services of each entity,
subscribes to the entities, and shows one card per entity. Arrow keys move
the selection, Enter toggles the selected entity, `q` quits.

## Layout

- `src/` is the library, verified with Verus:
  - `url.rs`, `args.rs`: the WebSocket endpoint and the command line;
  - `json.rs`, `lovelace.rs`: JSON values and the search for cards in a
    dashboard configuration;
  - `protocol.rs`: the messages, the requests and the client's request ids;
  - `worker.rs`: the network side as a state machine from the greeting to the
    running subscription;
  - `events.rs`: what the dashboard is told of the events it receives;
  - `dashboard.rs`: the dashboard's state, its events and key bindings (the
    cards are held in an `indexmap::IndexMap`);
  - `layout.rs`: the grid of cards and the cell of each card, cut out of the
    screen by ratatui's `Layout`;
  - `text.rs`: small text operations.
- `app/` is the program: the terminal (crossterm, ratatui), the WebSocket
  connection (tokio, tokio-tungstenite) and the reading of JSON text (serde).
- `tests/` exercises the library.

Usage: `ha_tui --ha-url http://homeassistant.local:8123 --ha-token <token>`,
or the `HA_URL` and `HA_TOKEN` environment variables.
