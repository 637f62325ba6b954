//! The network side of the dashboard as a state machine: from the greeting
//! through authentication, the dashboard's configuration, the services of
//! each entity and the subscription, to the running session that relays
//! state changes and service calls.

use vstd::prelude::*;
use crate::json::Json;
use crate::text::{is_prefix_of, contains_char, domain_of, domain, starts_with, lemma_first_index};
use crate::lovelace::{LovelaceCard, LovelaceCardView, cards_view, cards_below, extract_all_cards};
use crate::dashboard::{Card, CardView, AppEvent, AppEventView, Entries, pairs_view, texts_view};
use crate::protocol::{
    Response, WSClient, HaError, answer, result_error, is_auth_request,
    is_lovelace_request, is_services_request, is_subscribe_entities_request,
    is_call_service_request,
};

verus! {

// ----- The dashboard's entities ---------------------------------------------

/// The entry that a card with an entity gives: its entity id, and a card
/// with the entity's domain and the card's type, the rest empty.
pub open spec fn card_entry(c: LovelaceCardView) -> (Seq<char>, CardView) {
    let id = c.entity->0;
    (
        id,
        CardView {
            friendly_name: Seq::empty(),
            state: Seq::empty(),
            domain: domain_of(id),
            services: Seq::empty(),
            card_type: c.card_type,
        },
    )
}

/// The entries that a dashboard's cards give: one for each card with an
/// entity, in order.
pub open spec fn dashboard_entries(cards: Seq<LovelaceCardView>) -> Entries
    decreases cards.len(),
{
    if cards.len() == 0 {
        Seq::empty()
    } else {
        let rest = dashboard_entries(cards.drop_last());
        if cards.last().entity is Some {
            rest.push(card_entry(cards.last()))
        } else {
            rest
        }
    }
}

/// Every card's entity id, where it has one, holds a `.` before its name.
pub open spec fn entities_have_domains(cards: Seq<LovelaceCardView>) -> bool {
    forall|i: int|
        0 <= i < cards.len() && (#[trigger] cards[i]).entity is Some ==> contains_char(
            cards[i].entity->0,
            '.',
        )
}

/// Every entity id of the entries holds a `.`.
pub open spec fn ids_have_domains(entries: Entries) -> bool {
    forall|i: int| 0 <= i < entries.len() ==> contains_char(#[trigger] entries[i].0, '.')
}

proof fn lemma_dashboard_entries_domains(cards: Seq<LovelaceCardView>)
    requires
        entities_have_domains(cards),
    ensures
        ids_have_domains(dashboard_entries(cards)),
    decreases cards.len(),
{
    if cards.len() > 0 {
        assert(entities_have_domains(cards.drop_last())) by {
            assert forall|i: int|
                0 <= i < cards.drop_last().len() && (#[trigger] cards.drop_last()[i]).entity is Some
                implies contains_char(cards.drop_last()[i].entity->0, '.') by {
                assert(cards.drop_last()[i] == cards[i]);
            }
        }
        lemma_dashboard_entries_domains(cards.drop_last());
        assert(cards[cards.len() - 1] == cards.last());
    }
}

/// Whether every card's entity id holds a `.`.
pub fn cards_have_domains(cards: &Vec<LovelaceCard>) -> (b: bool)
    ensures
        b == entities_have_domains(cards_view(cards@)),
{
    let mut i: usize = 0;
    while i < cards.len()
        invariant
            i <= cards@.len(),
            forall|k: int|
                0 <= k < i && (#[trigger] cards_view(cards@)[k]).entity is Some ==> contains_char(
                    cards_view(cards@)[k].entity->0,
                    '.',
                ),
        decreases cards@.len() - i,
    {
        assert(cards_view(cards@)[i as int] == cards@[i as int]@);
        match &cards[i].entity {
            Some(e) => {
                let k: usize = crate::text::find_char(e.as_str(), '.');
                proof {
                    lemma_first_index(e@, '.');
                }
                if k >= e.unicode_len() {
                    return false;
                }
            },
            None => {},
        }
        i += 1;
    }
    true
}

/// The entities of a dashboard, from its cards: each card that names an
/// entity gives the entity id and a card with the entity's domain.
pub fn dashboard_entities(cards: &Vec<LovelaceCard>) -> (entities: Vec<(String, Card)>)
    requires
        entities_have_domains(cards_view(cards@)),
    ensures
        pairs_view(entities@) == dashboard_entries(cards_view(cards@)),
{
    let ghost cv = cards_view(cards@);
    let mut entities: Vec<(String, Card)> = Vec::new();
    let mut i: usize = 0;
    while i < cards.len()
        invariant
            i <= cards@.len(),
            cv == cards_view(cards@),
            entities_have_domains(cv),
            pairs_view(entities@) == dashboard_entries(cv.take(i as int)),
        decreases cards@.len() - i,
    {
        assert(cv.take(i + 1).drop_last() =~= cv.take(i as int));
        assert(cv.take(i + 1).last() == cards@[i as int]@);
        match &cards[i].entity {
            Some(entity_id) => {
                let card = Card {
                    state: String::new(),
                    friendly_name: String::new(),
                    domain: domain(entity_id.as_str()),
                    card_type: cards[i].card_type.clone(),
                    services: Vec::new(),
                };
                let pair = (entity_id.clone(), card);
                proof {
                    assert(texts_view(card.services@) =~= Seq::empty());
                    assert(pairs_view(entities@.push(pair)) =~= pairs_view(entities@).push(
                        (pair.0@, pair.1@),
                    ));
                }
                entities.push(pair);
            },
            None => {},
        }
        i += 1;
    }
    assert(cv.take(cards@.len() as int) =~= cv);
    entities
}

/// The strings of a JSON array of strings; `None` for any other value.
pub open spec fn string_list_of(v: Json) -> Option<Seq<Seq<char>>> {
    match v {
        Json::Array(items) => if all_strings(items@) {
            Some(items@.map_values(|j: Json| j->Str_0@))
        } else {
            None
        },
        _ => None,
    }
}

/// Every value is a string.
pub open spec fn all_strings(s: Seq<Json>) -> bool {
    forall|i: int| 0 <= i < s.len() ==> (#[trigger] s[i]) is Str
}

/// The strings of a JSON array of strings.
pub fn string_list(v: &Json) -> (r: Option<Vec<String>>)
    ensures
        match r {
            Some(l) => string_list_of(*v) == Some(texts_view(l@)),
            None => string_list_of(*v) is None,
        },
{
    match v {
        Json::Array(items) => {
            let mut out: Vec<String> = Vec::new();
            let mut i: usize = 0;
            while i < items.len()
                invariant
                    *v is Array,
                    (*v)->Array_0@ == items@,
                    i <= items@.len(),
                    out@.len() == i,
                    forall|k: int| 0 <= k < i ==> (#[trigger] items@[k]) is Str,
                    forall|k: int| 0 <= k < i ==> (#[trigger] out@[k])@ == items@[k]->Str_0@,
                decreases items@.len() - i,
            {
                match &items[i] {
                    Json::Str(s) => {
                        out.push(s.clone());
                    },
                    _ => {
                        assert(!(items@[i as int] is Str));
                        assert(!all_strings(items@));
                        return None;
                    },
                }
                i += 1;
            }
            assert(texts_view(out@) =~= items@.map_values(|j: Json| j->Str_0@));
            Some(out)
        },
        _ => None,
    }
}

/// The services of an entity among those offered for it: the ones that start
/// with the entity's domain, in their order.
pub open spec fn services_for(entity_id: Seq<char>, services: Seq<Seq<char>>) -> Seq<Seq<char>> {
    services.filter(prefix_test(domain_of(entity_id)))
}

/// The test whether a text starts with `d`.
pub open spec fn prefix_test(d: Seq<char>) -> spec_fn(Seq<char>) -> bool {
    |x: Seq<char>| is_prefix_of(d, x)
}

proof fn lemma_filter_step(s: Seq<Seq<char>>, i: int, d: Seq<char>)
    requires
        0 <= i < s.len(),
    ensures
        s.take(i + 1).filter(prefix_test(d)) == if is_prefix_of(d, s[i]) {
            s.take(i).filter(prefix_test(d)).push(s[i])
        } else {
            s.take(i).filter(prefix_test(d))
        },
{
    reveal(Seq::filter);
    assert(s.take(i + 1).drop_last() =~= s.take(i));
    assert(s.take(i + 1).last() == s[i]);
}

/// The services of an entity among those offered for it (see `services_for`).
pub fn services_for_entity(entity_id: &str, services: Vec<String>) -> (r: Vec<String>)
    requires
        contains_char(entity_id@, '.'),
    ensures
        texts_view(r@) == services_for(entity_id@, texts_view(services@)),
{
    let d = domain(entity_id);
    let ghost sv = texts_view(services@);
    let mut r: Vec<String> = Vec::new();
    let mut i: usize = 0;
    while i < services.len()
        invariant
            i <= services@.len(),
            sv == texts_view(services@),
            d@ == domain_of(entity_id@),
            texts_view(r@) == sv.take(i as int).filter(prefix_test(domain_of(entity_id@))),
        decreases services@.len() - i,
    {
        proof {
            lemma_filter_step(sv, i as int, domain_of(entity_id@));
        }
        assert(sv[i as int] == services@[i as int]@);
        if starts_with(services[i].as_str(), d.as_str()) {
            let s = services[i].clone();
            proof {
                assert(texts_view(r@.push(s)) =~= texts_view(r@).push(s@));
            }
            r.push(s);
        }
        i += 1;
    }
    assert(sv.take(services@.len() as int) =~= sv);
    r
}

// ----- The state machine ----------------------------------------------------

/// Where the session stands.
pub enum Stage {
    /// Connected; the greeting is awaited.
    AwaitGreeting,
    /// The token was sent; its acceptance is awaited.
    AwaitAuthReply,
    /// The dashboard's configuration was asked for.
    AwaitDashboard,
    /// The services of the entity at this position were asked for.
    AwaitServices(usize),
    /// The subscription to the entities was asked for.
    AwaitSubscription,
    /// Events are relayed to the dashboard, service calls to the server.
    Running,
}

/// What the network side is to do.
pub enum WorkerAction {
    /// Send this message to Home Assistant.
    ToServer(Json),
    /// Tell the dashboard.
    ToUi(AppEvent),
}

/// The dashboard whose configuration the session reads.
pub open spec fn dashboard_name() -> Seq<char> {
    "dashboard-tui"@
}

/// The network side: the session, the token it authenticates with, and the
/// entities gathered before the dashboard gets them.
pub struct Worker {
    pub stage: Stage,
    pub client: WSClient,
    pub token: String,
    pub entities: Vec<(String, Card)>,
}

/// The entity ids of the entries.
pub open spec fn entity_ids(e: Entries) -> Seq<Seq<char>> {
    e.map_values(|p: (Seq<char>, CardView)| p.0)
}

/// `a` tells the dashboard `ev`.
pub open spec fn is_ui(a: WorkerAction, ev: AppEventView) -> bool {
    a matches WorkerAction::ToUi(e) && e@ == ev
}

/// The stage after the services of the entities before `next` are known.
pub open spec fn stage_after(next: int, n: int) -> Stage {
    if next < n {
        Stage::AwaitServices(next as usize)
    } else {
        Stage::AwaitSubscription
    }
}

/// The request that follows when the services of the entities before `next`
/// are known: the services of the next entity, or else the subscription to
/// all of them.
pub open spec fn is_next_request(a: WorkerAction, id: u64, entries: Entries, next: int) -> bool {
    a matches WorkerAction::ToServer(j) && if next < entries.len() {
        is_services_request(j, id, entries[next].0)
    } else {
        is_subscribe_entities_request(j, id, entity_ids(entries))
    }
}

impl Worker {
    /// The entities gathered so far.
    pub open spec fn entries(self) -> Entries {
        pairs_view(self.entities@)
    }

    /// The entity ids hold a domain, a services stage names an entity, and
    /// no request precedes the greeting.
    pub open spec fn wf(self) -> bool {
        &&& ids_have_domains(self.entries())
        &&& self.stage matches Stage::AwaitServices(i) ==> i < self.entities@.len()
        &&& self.stage is AwaitGreeting ==> self.client.id == 0
    }

    /// The replies on which the session works before it runs: the session
    /// cannot go on (it panics) on a dashboard answer without a value or with
    /// an entity id that has no domain, on a services answer without a value,
    /// and where the next request id would overflow.
    pub open spec fn reply_handled(self, reply: Response) -> bool {
        let id: u64 = self.client.id;
        match self.stage {
            Stage::AwaitGreeting => true,
            Stage::AwaitAuthReply => reply is AuthOk ==> id < u64::MAX,
            Stage::AwaitDashboard => match answer(id, reply) {
                Some(v) => v is Some && entities_have_domains(cards_below(v->0)) && id < u64::MAX,
                None => true,
            },
            Stage::AwaitServices(_) => match answer(id, reply) {
                Some(v) => v is Some && (string_list_of(v->0) is Some ==> id < u64::MAX),
                None => true,
            },
            Stage::AwaitSubscription => true,
            Stage::Running => false,
        }
    }

    /// What a reply does before the session runs (see `on_reply`).
    pub open spec fn reply_outcome(self, reply: Response, w2: Worker, r: Result<Vec<WorkerAction>, HaError>) -> bool {
        let id: u64 = self.client.id;
        match self.stage {
            Stage::AwaitGreeting => match reply {
                Response::AuthRequired(a) => {
                    &&& w2.stage == Stage::AwaitAuthReply
                    &&& w2.client.id == 0
                    &&& w2.client.ha_version@ == a.ha_version@
                    &&& w2.entries() == self.entries()
                    &&& r matches Ok(acts)
                    &&& acts@.len() == 2
                    &&& is_ui(acts@[0], AppEventView::Status("Connected to HA v"@ + a.ha_version@))
                    &&& acts@[1] matches WorkerAction::ToServer(j)
                    &&& is_auth_request(j, self.token@)
                },
                _ => r == Err::<Vec<WorkerAction>, HaError>(HaError::NotAuthRequired(reply)),
            },
            Stage::AwaitAuthReply => match reply {
                Response::AuthOk(_) => {
                    &&& w2.stage == Stage::AwaitDashboard
                    &&& w2.client.id == id + 1
                    &&& w2.client.ha_version@ == self.client.ha_version@
                    &&& w2.entries() == self.entries()
                    &&& r matches Ok(acts)
                    &&& acts@.len() == 2
                    &&& is_ui(acts@[0], AppEventView::Status("Requesting entities"@))
                    &&& acts@[1] matches WorkerAction::ToServer(j)
                    &&& is_lovelace_request(j, (id + 1) as u64, dashboard_name())
                },
                Response::AuthInvalid(e) => r matches Err(HaError::AuthFailed(m)) && m@
                    == e.message@,
                _ => r == Err::<Vec<WorkerAction>, HaError>(HaError::UnexpectedAfterAuth(reply)),
            },
            Stage::AwaitDashboard => match answer(id, reply) {
                Some(v) => {
                    let es = dashboard_entries(cards_below(v->0));
                    &&& w2.stage == stage_after(0, es.len() as int)
                    &&& w2.client.id == id + 1
                    &&& w2.client.ha_version@ == self.client.ha_version@
                    &&& w2.entries() == es
                    &&& r matches Ok(acts)
                    &&& acts@.len() == 1
                    &&& is_next_request(acts@[0], (id + 1) as u64, es, 0)
                },
                None => r == Err::<Vec<WorkerAction>, HaError>(result_error(reply)),
            },
            Stage::AwaitServices(i) => match answer(id, reply) {
                Some(v) => match string_list_of(v->0) {
                    Some(list) => {
                        let e = self.entries();
                        let key = e[i as int].0;
                        let es = e.update(
                            i as int,
                            (key, CardView { services: services_for(key, list), ..e[i as int].1 }),
                        );
                        &&& w2.stage == stage_after(i + 1, es.len() as int)
                        &&& w2.client.id == id + 1
                        &&& w2.client.ha_version@ == self.client.ha_version@
                        &&& w2.entries() == es
                        &&& r matches Ok(acts)
                        &&& acts@.len() == 1
                        &&& is_next_request(acts@[0], (id + 1) as u64, es, i + 1)
                    },
                    None => r == Err::<Vec<WorkerAction>, HaError>(HaError::InvalidServices(v->0)),
                },
                None => r == Err::<Vec<WorkerAction>, HaError>(result_error(reply)),
            },
            Stage::AwaitSubscription => match answer(id, reply) {
                Some(_) => {
                    &&& w2.stage == Stage::Running
                    &&& w2.client.id == id
                    &&& w2.client.ha_version@ == self.client.ha_version@
                    &&& w2.entries().len() == 0
                    &&& r matches Ok(acts)
                    &&& acts@.len() == 2
                    &&& is_ui(acts@[0], AppEventView::Snapshot { entities: self.entries() })
                    &&& is_ui(acts@[1], AppEventView::Status("Displaying"@))
                },
                None => r == Err::<Vec<WorkerAction>, HaError>(result_error(reply)),
            },
            Stage::Running => false,
        }
    }
}

/// The first thing the dashboard is told: the network side is connecting.
pub fn connecting_event() -> (ev: AppEvent)
    ensures
        ev@ == AppEventView::Status("Connecting..."@),
{
    AppEvent::Status(String::from_str("Connecting..."))
}

impl Worker {
    /// The network side before the connection, with the token it will
    /// authenticate with.
    pub fn new(token: String) -> (w: Worker)
        ensures
            w.stage == Stage::AwaitGreeting,
            w.client.id == 0,
            w.client.ha_version@ == Seq::<char>::empty(),
            w.token@ == token@,
            w.entries().len() == 0,
            w.wf(),
    {
        Worker {
            stage: Stage::AwaitGreeting,
            client: WSClient { id: 0, ha_version: String::new() },
            token,
            entities: Vec::new(),
        }
    }

    /// Whether the session works on `reply` (see `reply_handled`).
    pub fn handles_reply(&self, reply: &Response) -> (b: bool)
        requires
            self.wf(),
        ensures
            b == self.reply_handled(*reply),
    {
        let id: u64 = self.client.id;
        match self.stage {
            Stage::AwaitGreeting => true,
            Stage::AwaitAuthReply => match reply {
                Response::AuthOk(_) => id < u64::MAX,
                _ => true,
            },
            Stage::AwaitDashboard => match reply {
                Response::Result(r) => {
                    if r.success && r.id == id {
                        match &r.result {
                            Some(v) => {
                                let cards = extract_all_cards(v);
                                cards_have_domains(&cards) && id < u64::MAX
                            },
                            None => false,
                        }
                    } else {
                        true
                    }
                },
                _ => true,
            },
            Stage::AwaitServices(_) => match reply {
                Response::Result(r) => {
                    if r.success && r.id == id {
                        match &r.result {
                            Some(v) => {
                                match string_list(v) {
                                    Some(_) => id < u64::MAX,
                                    None => true,
                                }
                            },
                            None => false,
                        }
                    } else {
                        true
                    }
                },
                _ => true,
            },
            Stage::AwaitSubscription => true,
            Stage::Running => false,
        }
    }

    /// The request that follows once the services of the entities before
    /// `next` are known.
    fn next_request(&mut self, next: usize) -> (a: WorkerAction)
        requires
            old(self).client.id < u64::MAX,
            next <= old(self).entities@.len(),
        ensures
            final(self).client.id == old(self).client.id + 1,
            final(self).client.ha_version == old(self).client.ha_version,
            final(self).stage == stage_after(next as int, old(self).entities@.len() as int),
            final(self).entities == old(self).entities,
            final(self).token == old(self).token,
            is_next_request(a, final(self).client.id, old(self).entries(), next as int),
    {
        if next < self.entities.len() {
            let j = self.client.fetch_services_for_entity(self.entities[next].0.as_str());
            self.stage = Stage::AwaitServices(next);
            WorkerAction::ToServer(j)
        } else {
            let mut ids: Vec<String> = Vec::new();
            let mut k: usize = 0;
            while k < self.entities.len()
                invariant
                    k <= self.entities@.len(),
                    ids@.len() == k,
                    forall|m: int| 0 <= m < k ==> (#[trigger] ids@[m])@ == self.entities@[m].0@,
                decreases self.entities@.len() - k,
            {
                ids.push(self.entities[k].0.clone());
                k += 1;
            }
            assert(texts_view(ids@) =~= entity_ids(self.entries()));
            let j = self.client.subscribe_entities(&ids);
            self.stage = Stage::AwaitSubscription;
            WorkerAction::ToServer(j)
        }
    }

    /// Handles a reply before the session runs: checks the greeting and
    /// sends the token, checks the authentication and asks for the
    /// dashboard, gathers the dashboard's entities and asks for the services
    /// of each in turn, then subscribes to them; once subscribed, gives the
    /// dashboard its entities. A reply that does not fit ends the session
    /// with an error.
    pub fn on_reply(&mut self, reply: Response) -> (r: Result<Vec<WorkerAction>, HaError>)
        requires
            old(self).wf(),
            old(self).reply_handled(reply),
        ensures
            old(self).reply_outcome(reply, *final(self), r),
            r is Err ==> *final(self) == *old(self),
            final(self).wf(),
            final(self).token@ == old(self).token@,
    {
        let ghost w = *self;
        match self.stage {
            Stage::AwaitGreeting => {
                let client = WSClient::new(reply)?;
                let status = crate::text::concat("Connected to HA v", client.ha_version.as_str());
                let auth = client.auth_longlivedtoken(self.token.as_str());
                self.client = client;
                self.stage = Stage::AwaitAuthReply;
                Ok(vec![WorkerAction::ToUi(AppEvent::Status(status)), WorkerAction::ToServer(auth)])
            },
            Stage::AwaitAuthReply => {
                WSClient::check_auth_reply(reply)?;
                let j = self.client.fetch_lovelace_dashboard("dashboard-tui");
                self.stage = Stage::AwaitDashboard;
                Ok(
                    vec![
                        WorkerAction::ToUi(AppEvent::Status(String::from_str("Requesting entities"))),
                        WorkerAction::ToServer(j),
                    ],
                )
            },
            Stage::AwaitDashboard => {
                match self.client.get_result(reply) {
                    Ok(value) => {
                        let v = match value {
                            Some(v) => v,
                            None => vstd::pervasive::unreached(),
                        };
                        let cards = extract_all_cards(&v);
                        let entities = dashboard_entities(&cards);
                        proof {
                            lemma_dashboard_entries_domains(cards_view(cards@));
                        }
                        self.entities = entities;
                        let a = self.next_request(0);
                        Ok(vec![a])
                    },
                    Err(e) => Err(e),
                }
            },
            Stage::AwaitServices(i) => {
                match self.client.get_result(reply) {
                    Ok(value) => {
                        let v = match value {
                            Some(v) => v,
                            None => vstd::pervasive::unreached(),
                        };
                        let list = match string_list(&v) {
                            Some(l) => l,
                            None => {
                                return Err(HaError::InvalidServices(v));
                            },
                        };
                        assert(self.entries()[i as int].0 == self.entities@[i as int].0@);
                        assert(i < self.entities@.len());
                        let services = services_for_entity(self.entities[i].0.as_str(), list);
                        let n: usize = self.entities.len();
                        let ghost e = self.entries();
                        let ghost key = e[i as int].0;
                        self.entities[i].1.services = services;
                        assert(i < n);
                        assert(self.entries() =~= e.update(
                            i as int,
                            (key, CardView { services: services_for(key, string_list_of(v)->0), ..e[i as int].1 }),
                        ));
                        let a = self.next_request(i + 1);
                        Ok(vec![a])
                    },
                    Err(e) => Err(e),
                }
            },
            Stage::AwaitSubscription => {
                match self.client.get_result(reply) {
                    Ok(_) => {
                        let mut entities: Vec<(String, Card)> = Vec::new();
                        std::mem::swap(&mut entities, &mut self.entities);
                        self.stage = Stage::Running;
                        Ok(
                            vec![
                                WorkerAction::ToUi(AppEvent::Snapshot { entities }),
                                WorkerAction::ToUi(AppEvent::Status(String::from_str("Displaying"))),
                            ],
                        )
                    },
                    Err(e) => Err(e),
                }
            },
            Stage::Running => vstd::pervasive::unreached(),
        }
    }
}

impl Worker {
    /// The commands on which the running session works: a service call
    /// names an entity with a domain, and its request id does not overflow.
    pub open spec fn command_handled(self, cmd: AppEvent) -> bool {
        match cmd {
            AppEvent::CallService { entity_id, .. } => contains_char(entity_id@, '.')
                && self.client.id < u64::MAX,
            _ => true,
        }
    }

    /// Whether the running session works on `cmd` (see `command_handled`).
    pub fn handles_command(&self, cmd: &AppEvent) -> (b: bool)
        ensures
            b == self.command_handled(*cmd),
    {
        match cmd {
            AppEvent::CallService { entity_id, .. } => {
                let k: usize = crate::text::find_char(entity_id.as_str(), '.');
                proof {
                    lemma_first_index(entity_id@, '.');
                }
                k < entity_id.unicode_len() && self.client.id < u64::MAX
            },
            _ => true,
        }
    }

    /// Handles a command from the dashboard while the session runs: a
    /// service call becomes its request, under a new id; anything else is
    /// ignored.
    pub fn on_ui_command(&mut self, cmd: AppEvent) -> (r: Option<Json>)
        requires
            old(self).stage == Stage::Running,
            old(self).command_handled(cmd),
        ensures
            final(self).stage == Stage::Running,
            final(self).token@ == old(self).token@,
            final(self).entities == old(self).entities,
            final(self).client.ha_version == old(self).client.ha_version,
            match cmd {
                AppEvent::CallService { entity_id, service } => {
                    &&& final(self).client.id == old(self).client.id + 1
                    &&& r matches Some(j)
                    &&& is_call_service_request(j, final(self).client.id, service@, entity_id@)
                },
                _ => r is None && final(self).client.id == old(self).client.id,
            },
    {
        match cmd {
            AppEvent::CallService { entity_id, service } => Some(
                self.client.call_service(service.as_str(), entity_id.as_str()),
            ),
            _ => None,
        }
    }
}

// ----- Laws -----------------------------------------------------------------

/// The services kept for an entity are exactly the offered ones that start
/// with its domain, in their order.
pub proof fn lemma_services_match_domain(entity_id: Seq<char>, services: Seq<Seq<char>>)
    ensures
        forall|k: int|
            0 <= k < services_for(entity_id, services).len() ==> is_prefix_of(
                domain_of(entity_id),
                #[trigger] services_for(entity_id, services)[k],
            ),
        forall|k: int|
            0 <= k < services.len() && is_prefix_of(domain_of(entity_id), #[trigger] services[k])
                ==> services_for(entity_id, services).contains(services[k]),
        services_for(entity_id, services).len() <= services.len(),
{
    let p = prefix_test(domain_of(entity_id));
    services.lemma_filter_len(p);
    assert forall|k: int|
        0 <= k < services_for(entity_id, services).len() implies is_prefix_of(
        domain_of(entity_id),
        #[trigger] services_for(entity_id, services)[k],
    ) by {
        services.lemma_filter_pred(p, k);
    }
    assert forall|k: int|
        0 <= k < services.len() && is_prefix_of(domain_of(entity_id), #[trigger] services[k])
        implies services_for(entity_id, services).contains(services[k]) by {
        services.lemma_filter_contains(p, k);
    }
}

/// A reply never takes the request id back: a handled reply leaves it, or
/// moves it on by one for the one request it sends.
pub proof fn lemma_request_ids_advance(w: Worker, reply: Response, w2: Worker, r: Result<Vec<WorkerAction>, HaError>)
    requires
        w.wf(),
        w.reply_outcome(reply, w2, r),
        r is Ok,
    ensures
        w.client.id <= w2.client.id <= w.client.id + 1,
{
}

/// A reply moves the session one stage on: greeting, authentication,
/// dashboard, the services of each entity in order, subscription, running.
pub proof fn lemma_stages_in_order(w: Worker, reply: Response, w2: Worker, r: Result<Vec<WorkerAction>, HaError>)
    requires
        w.reply_outcome(reply, w2, r),
        r is Ok,
    ensures
        w.stage is AwaitGreeting ==> w2.stage is AwaitAuthReply,
        w.stage is AwaitAuthReply ==> w2.stage is AwaitDashboard,
        w.stage is AwaitDashboard ==> w2.stage == stage_after(0, w2.entries().len() as int),
        w.stage matches Stage::AwaitServices(i) ==> w2.stage == stage_after(
            i + 1,
            w2.entries().len() as int,
        ),
        w.stage is AwaitSubscription ==> w2.stage is Running,
{
}

} // verus!
