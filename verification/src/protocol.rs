//! The Home Assistant WebSocket protocol: the messages, the requests, and the
//! dashboard's session as a state machine over the replies it receives.

use vstd::prelude::*;
use crate::json::{Json, json_debug};
use crate::text::{
    contains_char, domain_of, domain, concat, decimal, decimal_of, bool_string, bool_text,
    debug_str, debug_str_text,
};
use crate::dashboard::texts_view;

verus! {

/// The greeting of a new connection.
pub struct AuthRequired {
    pub ha_version: String,
}

/// Authentication succeeded.
pub struct AuthOk {
    pub ha_version: String,
}

/// Authentication failed, with the reason.
pub struct AuthInvalid {
    pub message: String,
}

/// An error that a failed request reports.
pub struct ErrorCode {
    pub code: String,
    pub message: String,
}

/// The answer to a request.
pub struct WSResult {
    pub id: u64,
    pub success: bool,
    pub result: Option<Json>,
    pub error: Option<ErrorCode>,
}

/// An event of a subscription.
pub struct WSEvent {
    pub id: u64,
    pub event: Json,
}

/// A message from Home Assistant, by its `type`.
pub enum Response {
    AuthRequired(AuthRequired),
    AuthOk(AuthOk),
    AuthInvalid(AuthInvalid),
    Result(WSResult),
    Event(WSEvent),
}

impl ErrorCode {
    /// `Error <code> -> <message>`.
    pub fn to_text(&self) -> (t: String)
        ensures
            t@ == "Error "@ + self.code@ + " -> "@ + self.message@,
    {
        let mut t = String::from_str("Error ");
        t.append(self.code.as_str());
        t.append(" -> ");
        t.append(self.message.as_str());
        t
    }
}

// ----- Debug texts ----------------------------------------------------------

/// The debug text of an error code: `ErrorCode { code: .., message: .. }`.
pub open spec fn error_code_debug(e: ErrorCode) -> Seq<char> {
    "ErrorCode { code: "@ + debug_str_text(e.code@) + ", message: "@ + debug_str_text(e.message@)
        + " }"@
}

/// The debug text of a result: `WSResult { id: .., success: .., result: ..,
/// error: .. }`, with `Some(..)` or `None` for the optional fields.
pub open spec fn result_debug(r: WSResult) -> Seq<char> {
    "WSResult { id: "@ + decimal_of(r.id as nat) + ", success: "@ + bool_text(r.success)
        + ", result: "@ + match r.result {
        Some(j) => "Some("@ + json_debug(j) + ")"@,
        None => "None"@,
    } + ", error: "@ + match r.error {
        Some(e) => "Some("@ + error_code_debug(e) + ")"@,
        None => "None"@,
    } + " }"@
}

/// The debug text of a message: its variant, and the debug text of what it
/// holds in brackets.
pub open spec fn response_debug(r: Response) -> Seq<char> {
    match r {
        Response::AuthRequired(a) => "AuthRequired(AuthRequired { ha_version: "@ + debug_str_text(
            a.ha_version@,
        ) + " })"@,
        Response::AuthOk(a) => "AuthOk(AuthOk { ha_version: "@ + debug_str_text(a.ha_version@)
            + " })"@,
        Response::AuthInvalid(a) => "AuthInvalid(AuthInvalid { message: "@ + debug_str_text(
            a.message@,
        ) + " })"@,
        Response::Result(w) => "Result("@ + result_debug(w) + ")"@,
        Response::Event(e) => "Event(WSEvent { id: "@ + decimal_of(e.id as nat) + ", event: "@
            + json_debug(e.event) + " })"@,
    }
}

impl ErrorCode {
    /// The debug text (see `error_code_debug`).
    pub fn debug_text(&self) -> (t: String)
        ensures
            t@ == error_code_debug(*self),
    {
        let mut t = String::from_str("ErrorCode { code: ");
        t.append(debug_str(self.code.as_str()).as_str());
        t.append(", message: ");
        t.append(debug_str(self.message.as_str()).as_str());
        t.append(" }");
        t
    }
}

impl WSResult {
    /// The debug text (see `result_debug`).
    pub fn debug_text(&self) -> (t: String)
        ensures
            t@ == result_debug(*self),
    {
        let mut t = String::from_str("WSResult { id: ");
        t.append(decimal(self.id).as_str());
        t.append(", success: ");
        t.append(bool_string(self.success).as_str());
        t.append(", result: ");
        match &self.result {
            Some(j) => {
                t.append("Some(");
                t.append(j.debug_text().as_str());
                t.append(")");
            },
            None => {
                t.append("None");
            },
        }
        t.append(", error: ");
        match &self.error {
            Some(e) => {
                t.append("Some(");
                t.append(e.debug_text().as_str());
                t.append(")");
            },
            None => {
                t.append("None");
            },
        }
        t.append(" }");
        t
    }
}

impl Response {
    /// The debug text (see `response_debug`).
    pub fn debug_text(&self) -> (t: String)
        ensures
            t@ == response_debug(*self),
    {
        match self {
            Response::AuthRequired(a) => {
                let mut t = String::from_str("AuthRequired(AuthRequired { ha_version: ");
                t.append(debug_str(a.ha_version.as_str()).as_str());
                t.append(" })");
                t
            },
            Response::AuthOk(a) => {
                let mut t = String::from_str("AuthOk(AuthOk { ha_version: ");
                t.append(debug_str(a.ha_version.as_str()).as_str());
                t.append(" })");
                t
            },
            Response::AuthInvalid(a) => {
                let mut t = String::from_str("AuthInvalid(AuthInvalid { message: ");
                t.append(debug_str(a.message.as_str()).as_str());
                t.append(" })");
                t
            },
            Response::Result(w) => {
                let mut t = String::from_str("Result(");
                t.append(w.debug_text().as_str());
                t.append(")");
                t
            },
            Response::Event(e) => {
                let mut t = String::from_str("Event(WSEvent { id: ");
                t.append(decimal(e.id).as_str());
                t.append(", event: ");
                t.append(e.event.debug_text().as_str());
                t.append(" })");
                t
            },
        }
    }
}

/// Why the session with Home Assistant ended.
pub enum HaError {
    /// The first message was not the greeting.
    NotAuthRequired(Response),
    /// Authentication was refused, with the reason.
    AuthFailed(String),
    /// The reply to authentication was neither success nor refusal.
    UnexpectedAfterAuth(Response),
    /// A result that failed or answers another request.
    WrongResponse(WSResult),
    /// A message that is not a result where a result was awaited.
    UnexpectedResponse(Response),
    /// The services of an entity, this value, are not a list of strings.
    InvalidServices(Json),
}

/// How a value that was not the expected one is described: `unit value`,
/// `null`, ``boolean `..` ``, ``integer `..` ``, ``floating point `..` ``,
/// `string` and the string's debug text, `sequence`, `map`.
pub open spec fn unexpected_text(v: Json) -> Seq<char> {
    match v {
        Json::Null => "null"@,
        Json::Bool(b) => "boolean `"@ + bool_text(b) + "`"@,
        Json::UInt(n) => "integer `"@ + decimal_of(n as nat) + "`"@,
        Json::Number(t) => "integer `"@ + t@ + "`"@,
        Json::Float(t) => "floating point `"@ + t@ + "`"@,
        Json::Str(t) => "string "@ + debug_str_text(t@),
        Json::Array(_) => "sequence"@,
        Json::Object(_) => "map"@,
    }
}

/// The position of the first value from `i` on that is not a string, or the
/// number of values.
pub open spec fn first_non_string(s: Seq<Json>, i: int) -> int
    decreases s.len() - i,
{
    if i < 0 || i >= s.len() {
        s.len() as int
    } else if s[i] is Str {
        first_non_string(s, i + 1)
    } else {
        i
    }
}

/// Why a value is no list of strings: for an array, its first value that is
/// no string, and `a string` was expected; for anything else, the value, and
/// `a sequence` was expected.
pub open spec fn services_error(v: Json) -> Seq<char> {
    match v {
        Json::Array(items) => {
            let k = first_non_string(items@, 0);
            if 0 <= k < items@.len() {
                "invalid type: "@ + unexpected_text(items@[k]) + ", expected a string"@
            } else {
                Seq::empty()
            }
        },
        _ => "invalid type: "@ + unexpected_text(v) + ", expected a sequence"@,
    }
}

/// The description of an unexpected value (see `unexpected_text`).
pub fn unexpected(v: &Json) -> (t: String)
    ensures
        t@ == unexpected_text(*v),
{
    match v {
        Json::Null => String::from_str("null"),
        Json::Bool(b) => {
            let mut t = String::from_str("boolean `");
            t.append(bool_string(*b).as_str());
            t.append("`");
            t
        },
        Json::UInt(n) => {
            let mut t = String::from_str("integer `");
            t.append(decimal(*n).as_str());
            t.append("`");
            t
        },
        Json::Number(text) => {
            let mut t = String::from_str("integer `");
            t.append(text.as_str());
            t.append("`");
            t
        },
        Json::Float(text) => {
            let mut t = String::from_str("floating point `");
            t.append(text.as_str());
            t.append("`");
            t
        },
        Json::Str(text) => concat("string ", debug_str(text.as_str()).as_str()),
        Json::Array(_) => String::from_str("sequence"),
        Json::Object(_) => String::from_str("map"),
    }
}

/// Why a value is no list of strings (see `services_error`).
pub fn services_error_text(v: &Json) -> (t: String)
    ensures
        t@ == services_error(*v),
{
    match v {
        Json::Array(items) => {
            let mut i: usize = 0;
            while i < items.len() && items[i].is_str()
                invariant
                    *v is Array,
                    (*v)->Array_0@ == items@,
                    i <= items@.len(),
                    first_non_string(items@, 0) == first_non_string(items@, i as int),
                decreases items@.len() - i,
            {
                i += 1;
            }
            if i < items.len() {
                let mut t = String::from_str("invalid type: ");
                t.append(unexpected(&items[i]).as_str());
                t.append(", expected a string");
                t
            } else {
                String::new()
            }
        },
        _ => {
            let mut t = String::from_str("invalid type: ");
            t.append(unexpected(v).as_str());
            t.append(", expected a sequence");
            t
        },
    }
}

impl HaError {
    /// The text of the error.
    pub fn message(&self) -> (m: String)
        ensures
            m@ == match self {
                HaError::NotAuthRequired(r) => "Expected auth_required, got: "@ + response_debug(*r),
                HaError::AuthFailed(reason) => "Authentication failed: "@ + reason@,
                HaError::UnexpectedAfterAuth(r) => "Unexpected response after auth: "@
                    + response_debug(*r),
                HaError::WrongResponse(r) => "Wrong response: "@ + result_debug(*r),
                HaError::UnexpectedResponse(r) => "Unexpected response type: "@ + response_debug(*r),
                HaError::InvalidServices(v) => services_error(*v),
            },
    {
        match self {
            HaError::NotAuthRequired(r) => concat("Expected auth_required, got: ", r.debug_text().as_str()),
            HaError::AuthFailed(reason) => concat("Authentication failed: ", reason.as_str()),
            HaError::UnexpectedAfterAuth(r) => concat(
                "Unexpected response after auth: ",
                r.debug_text().as_str(),
            ),
            HaError::WrongResponse(r) => concat("Wrong response: ", r.debug_text().as_str()),
            HaError::UnexpectedResponse(r) => concat("Unexpected response type: ", r.debug_text().as_str()),
            HaError::InvalidServices(v) => services_error_text(v),
        }
    }
}

// ----- Requests -----------------------------------------------------------

/// The entries of a JSON object (none for any other value).
pub open spec fn entries_of(j: Json) -> Seq<(String, Json)> {
    match j {
        Json::Object(e) => e@,
        _ => Seq::empty(),
    }
}

/// `j` is an object with `n` entries.
pub open spec fn is_object(j: Json, n: nat) -> bool {
    j is Object && entries_of(j).len() == n
}

/// The `i`-th entry of `j` has key `key`.
pub open spec fn key_is(j: Json, i: int, key: Seq<char>) -> bool {
    entries_of(j)[i].0@ == key
}

/// The value of the `i`-th entry of `j`.
pub open spec fn value_at(j: Json, i: int) -> Json {
    entries_of(j)[i].1
}

/// `j` is the string `t`.
pub open spec fn is_str(j: Json, t: Seq<char>) -> bool {
    j matches Json::Str(s) && s@ == t
}

/// `j` is an array of the strings `ts`.
pub open spec fn is_str_list(j: Json, ts: Seq<Seq<char>>) -> bool {
    j matches Json::Array(a) && a@.len() == ts.len() && forall|i: int|
        0 <= i < ts.len() ==> is_str(#[trigger] a@[i], ts[i])
}

/// A request with `n` entries that starts with `"id": id, "type": kind`.
pub open spec fn is_request(j: Json, id: u64, kind: Seq<char>, n: nat) -> bool {
    &&& is_object(j, n)
    &&& n >= 2
    &&& key_is(j, 0, "id"@)
    &&& value_at(j, 0) == Json::UInt(id)
    &&& key_is(j, 1, "type"@)
    &&& is_str(value_at(j, 1), kind)
}

/// `{"type": "auth", "access_token": token}`.
pub open spec fn is_auth_request(j: Json, token: Seq<char>) -> bool {
    &&& is_object(j, 2)
    &&& key_is(j, 0, "type"@)
    &&& is_str(value_at(j, 0), "auth"@)
    &&& key_is(j, 1, "access_token"@)
    &&& is_str(value_at(j, 1), token)
}

/// `{"id": id, "type": "get_states"}`.
pub open spec fn is_get_states_request(j: Json, id: u64) -> bool {
    is_request(j, id, "get_states"@, 2)
}

/// `{"id": id, "type": "subscribe_events", "event_type": "state_changed"}`.
pub open spec fn is_subscribe_events_request(j: Json, id: u64) -> bool {
    &&& is_request(j, id, "subscribe_events"@, 3)
    &&& key_is(j, 2, "event_type"@)
    &&& is_str(value_at(j, 2), "state_changed"@)
}

/// `{"id": id, "type": "lovelace/config", "url_path": dashboard, "force": false}`.
pub open spec fn is_lovelace_request(j: Json, id: u64, dashboard: Seq<char>) -> bool {
    &&& is_request(j, id, "lovelace/config"@, 4)
    &&& key_is(j, 2, "url_path"@)
    &&& is_str(value_at(j, 2), dashboard)
    &&& key_is(j, 3, "force"@)
    &&& value_at(j, 3) == Json::Bool(false)
}

/// `{"id": id, "type": "subscribe_entities", "entity_ids": [ids..]}`.
pub open spec fn is_subscribe_entities_request(j: Json, id: u64, ids: Seq<Seq<char>>) -> bool {
    &&& is_request(j, id, "subscribe_entities"@, 3)
    &&& key_is(j, 2, "entity_ids"@)
    &&& is_str_list(value_at(j, 2), ids)
}

/// `{"id": id, "type": "get_services_for_target", "target": {"entity_id": [entity_id]}}`.
pub open spec fn is_services_request(j: Json, id: u64, entity_id: Seq<char>) -> bool {
    &&& is_request(j, id, "get_services_for_target"@, 3)
    &&& key_is(j, 2, "target"@)
    &&& is_object(value_at(j, 2), 1)
    &&& key_is(value_at(j, 2), 0, "entity_id"@)
    &&& is_str_list(value_at(value_at(j, 2), 0), seq![entity_id])
}

/// `{"id": id, "type": "call_service", "domain": <domain of entity_id>,
/// "service": service, "target": {"entity_id": entity_id}}`.
pub open spec fn is_call_service_request(j: Json, id: u64, service: Seq<char>, entity_id: Seq<char>) -> bool {
    &&& is_request(j, id, "call_service"@, 5)
    &&& key_is(j, 2, "domain"@)
    &&& is_str(value_at(j, 2), domain_of(entity_id))
    &&& key_is(j, 3, "service"@)
    &&& is_str(value_at(j, 3), service)
    &&& key_is(j, 4, "target"@)
    &&& is_object(value_at(j, 4), 1)
    &&& key_is(value_at(j, 4), 0, "entity_id"@)
    &&& is_str(value_at(value_at(j, 4), 0), entity_id)
}

fn text(t: &str) -> (j: Json)
    ensures
        is_str(j, t@),
{
    Json::Str(String::from_str(t))
}

fn entry(key: &str, value: Json) -> (e: (String, Json))
    ensures
        e.0@ == key@,
        e.1 == value,
{
    (String::from_str(key), value)
}

fn id_entry(id: u64) -> (e: (String, Json))
    ensures
        e.0@ == "id"@,
        e.1 == Json::UInt(id),
{
    entry("id", Json::UInt(id))
}

/// An array of the given strings.
fn text_list(ids: &Vec<String>) -> (j: Json)
    ensures
        is_str_list(j, texts_view(ids@)),
{
    let mut items: Vec<Json> = Vec::new();
    let mut i: usize = 0;
    while i < ids.len()
        invariant
            i <= ids@.len(),
            items@.len() == i,
            forall|k: int| 0 <= k < i ==> is_str(#[trigger] items@[k], ids@[k]@),
        decreases ids@.len() - i,
    {
        items.push(Json::Str(ids[i].clone()));
        i += 1;
    }
    let j = Json::Array(items);
    assert forall|k: int| 0 <= k < ids@.len() implies is_str(
        #[trigger] items@[k],
        texts_view(ids@)[k],
    ) by {}
    j
}

/// The client side of a connection to Home Assistant: the id of the last
/// request and the version that the server announced. Each request method
/// gives the message to send; sending it and reading the reply are left to
/// the caller, who hands the reply to `get_result`.
pub struct WSClient {
    pub id: u64,
    pub ha_version: String,
}

/// The result that answers request `id`, if `reply` is one: a successful
/// result with that id.
pub open spec fn answer(id: u64, reply: Response) -> Option<Option<Json>> {
    match reply {
        Response::Result(r) => if r.success && r.id == id {
            Some(r.result)
        } else {
            None
        },
        _ => None,
    }
}

/// The error for a reply that does not answer the last request.
pub open spec fn result_error(reply: Response) -> HaError {
    match reply {
        Response::Result(r) => HaError::WrongResponse(r),
        _ => HaError::UnexpectedResponse(reply),
    }
}

impl WSClient {
    /// The session that a connection's first message opens: it must be the
    /// greeting, whose version the session keeps.
    pub fn new(greeting: Response) -> (r: Result<WSClient, HaError>)
        ensures
            match greeting {
                Response::AuthRequired(a) => r matches Ok(s) && s.id == 0 && s.ha_version@ == a.ha_version@,
                _ => r == Err::<WSClient, HaError>(HaError::NotAuthRequired(greeting)),
            },
    {
        match greeting {
            Response::AuthRequired(a) => Ok(WSClient { id: 0, ha_version: a.ha_version }),
            other => Err(HaError::NotAuthRequired(other)),
        }
    }

    /// The authentication request with a long-lived access token.
    pub fn auth_longlivedtoken(&self, ha_token: &str) -> (j: Json)
        ensures
            is_auth_request(j, ha_token@),
    {
        Json::Object(vec![entry("type", text("auth")), entry("access_token", text(ha_token))])
    }

    /// Whether the reply to authentication accepts it.
    pub fn check_auth_reply(reply: Response) -> (r: Result<(), HaError>)
        ensures
            match reply {
                Response::AuthOk(_) => r is Ok,
                Response::AuthInvalid(e) => r matches Err(HaError::AuthFailed(m)) && m@ == e.message@,
                _ => r == Err::<(), HaError>(HaError::UnexpectedAfterAuth(reply)),
            },
    {
        match reply {
            Response::AuthOk(_) => Ok(()),
            Response::AuthInvalid(e) => Err(HaError::AuthFailed(e.message)),
            other => Err(HaError::UnexpectedAfterAuth(other)),
        }
    }

    /// The value of the result that answers the last request.
    pub fn get_result(&self, reply: Response) -> (r: Result<Option<Json>, HaError>)
        ensures
            match answer(self.id, reply) {
                Some(v) => r == Ok::<Option<Json>, HaError>(v),
                None => r == Err::<Option<Json>, HaError>(result_error(reply)),
            },
    {
        match reply {
            Response::Result(ws_result) => {
                if ws_result.success && ws_result.id == self.id {
                    Ok(ws_result.result)
                } else {
                    Err(HaError::WrongResponse(ws_result))
                }
            },
            other => Err(HaError::UnexpectedResponse(other)),
        }
    }

    /// A request for every entity state, under a new id.
    pub fn fetch_all_states(&mut self) -> (j: Json)
        requires
            old(self).id < u64::MAX,
        ensures
            final(self).id == old(self).id + 1,
            final(self).ha_version == old(self).ha_version,
            is_get_states_request(j, final(self).id),
    {
        self.id = self.id + 1;
        Json::Object(vec![id_entry(self.id), entry("type", text("get_states"))])
    }

    /// A subscription to every `state_changed` event, under the last id.
    pub fn subscribe_all_state_changes(&self) -> (j: Json)
        ensures
            is_subscribe_events_request(j, self.id),
    {
        Json::Object(
            vec![
                id_entry(self.id),
                entry("type", text("subscribe_events")),
                entry("event_type", text("state_changed")),
            ],
        )
    }

    /// A request for the configuration of a dashboard, under a new id.
    pub fn fetch_lovelace_dashboard(&mut self, dashboard: &str) -> (j: Json)
        requires
            old(self).id < u64::MAX,
        ensures
            final(self).id == old(self).id + 1,
            final(self).ha_version == old(self).ha_version,
            is_lovelace_request(j, final(self).id, dashboard@),
    {
        self.id = self.id + 1;
        Json::Object(
            vec![
                id_entry(self.id),
                entry("type", text("lovelace/config")),
                entry("url_path", text(dashboard)),
                entry("force", Json::Bool(false)),
            ],
        )
    }

    /// A subscription to the states of the given entities, under a new id.
    pub fn subscribe_entities(&mut self, entity_ids: &Vec<String>) -> (j: Json)
        requires
            old(self).id < u64::MAX,
        ensures
            final(self).id == old(self).id + 1,
            final(self).ha_version == old(self).ha_version,
            is_subscribe_entities_request(j, final(self).id, texts_view(entity_ids@)),
    {
        self.id = self.id + 1;
        Json::Object(
            vec![
                id_entry(self.id),
                entry("type", text("subscribe_entities")),
                entry("entity_ids", text_list(entity_ids)),
            ],
        )
    }

    /// A request for the services of an entity, under a new id.
    pub fn fetch_services_for_entity(&mut self, entity_id: &str) -> (j: Json)
        requires
            old(self).id < u64::MAX,
        ensures
            final(self).id == old(self).id + 1,
            final(self).ha_version == old(self).ha_version,
            is_services_request(j, final(self).id, entity_id@),
    {
        self.id = self.id + 1;
        let ids = Json::Array(vec![text(entity_id)]);
        let target = Json::Object(vec![entry("entity_id", ids)]);
        Json::Object(
            vec![
                id_entry(self.id),
                entry("type", text("get_services_for_target")),
                entry("target", target),
            ],
        )
    }

    /// A call of `service` on an entity, under a new id.
    pub fn call_service(&mut self, service: &str, entity_id: &str) -> (j: Json)
        requires
            old(self).id < u64::MAX,
            contains_char(entity_id@, '.'),
        ensures
            final(self).id == old(self).id + 1,
            final(self).ha_version == old(self).ha_version,
            is_call_service_request(j, final(self).id, service@, entity_id@),
    {
        self.id = self.id + 1;
        let target = Json::Object(vec![entry("entity_id", text(entity_id))]);
        let d = domain(entity_id);
        Json::Object(
            vec![
                id_entry(self.id),
                entry("type", text("call_service")),
                entry("domain", Json::Str(d)),
                entry("service", text(service)),
                entry("target", target),
            ],
        )
    }
}

} // verus!
