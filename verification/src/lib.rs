//! A terminal dashboard for Home Assistant: the verified core.
//!
//! The library holds the logic of the dashboard: the WebSocket protocol as a
//! state machine over received messages, the interpretation of the Lovelace
//! configuration, the dashboard state and its key bindings, the card grid and
//! the command line. Terminal drawing and network I/O are left to the
//! program around it.

pub mod text;
pub mod url;
pub mod args;
pub mod json;
pub mod lovelace;
pub mod dashboard;
pub mod protocol;
pub mod events;
pub mod worker;
pub mod layout;
