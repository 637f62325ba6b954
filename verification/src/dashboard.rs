//! The dashboard: its cards, the events that change it, and its key bindings.

use vstd::prelude::*;
use indexmap::IndexMap;

verus! {

/// A card of the dashboard: one entity, with what is shown of it.
pub struct Card {
    pub friendly_name: String,
    pub state: String,
    pub domain: String,
    pub services: Vec<String>,
    pub card_type: String,
}

/// The mathematical value of a card.
pub struct CardView {
    pub friendly_name: Seq<char>,
    pub state: Seq<char>,
    pub domain: Seq<char>,
    pub services: Seq<Seq<char>>,
    pub card_type: Seq<char>,
}

pub open spec fn texts_view(v: Seq<String>) -> Seq<Seq<char>> {
    crate::text::texts_of(v)
}

impl View for Card {
    type V = CardView;

    open spec fn view(&self) -> CardView {
        CardView {
            friendly_name: self.friendly_name@,
            state: self.state@,
            domain: self.domain@,
            services: texts_view(self.services@),
            card_type: self.card_type@,
        }
    }
}

/// The entries of a dashboard as a sequence: entity id and card.
pub type Entries = Seq<(Seq<char>, CardView)>;

/// The position of the first entry at or after `i` whose entity id is `key`,
/// or the number of entries when there is none.
pub open spec fn position_from(entries: Entries, key: Seq<char>, i: int) -> int
    decreases entries.len() - i,
{
    if i < 0 || i >= entries.len() {
        entries.len() as int
    } else if entries[i].0 == key {
        i
    } else {
        position_from(entries, key, i + 1)
    }
}

/// The position of the entry for `key`, or the number of entries when there
/// is none.
pub open spec fn position_of(entries: Entries, key: Seq<char>) -> int {
    position_from(entries, key, 0)
}

/// No entity id occurs twice.
pub open spec fn unique_keys(entries: Entries) -> bool {
    forall|i: int, j: int|
        0 <= i < entries.len() && 0 <= j < entries.len() && i != j ==> entries[i].0 != entries[j].0
}

/// Inserting `card` under `key`: an entry for `key` keeps its place and takes
/// the new card; a new key goes last.
pub open spec fn insert_entry(entries: Entries, key: Seq<char>, card: CardView) -> Entries {
    let i = position_of(entries, key);
    if i < entries.len() {
        entries.update(i, (key, card))
    } else {
        entries.push((key, card))
    }
}

/// Inserting each of `items` in order.
pub open spec fn extend_entries(entries: Entries, items: Entries) -> Entries
    decreases items.len(),
{
    if items.len() == 0 {
        entries
    } else {
        let last = items.last();
        insert_entry(extend_entries(entries, items.drop_last()), last.0, last.1)
    }
}

pub open spec fn pairs_view(items: Seq<(String, Card)>) -> Entries {
    items.map_values(|p: (String, Card)| (p.0@, p.1@))
}

#[verifier::external_type_specification]
#[verifier::external_body]
#[verifier::reject_recursive_types(K)]
#[verifier::reject_recursive_types(V)]
#[verifier::reject_recursive_types(S)]
pub struct ExIndexMap<K, V, S>(IndexMap<K, V, S>);

/// The entries of an entity map, in the map's order: entity id and card.
pub uninterp spec fn entity_entries(m: IndexMap<String, Card>) -> Seq<(Seq<char>, CardView)>;

/// Wraps `IndexMap::new`: a map without entries.
#[verifier::external_body]
fn new_entity_map() -> (m: IndexMap<String, Card>)
    ensures
        entity_entries(m) == Seq::<(Seq<char>, CardView)>::empty(),
{
    IndexMap::new()
}

/// Wraps `IndexMap::len`: the number of entries.
#[verifier::external_body]
fn entity_count(m: &IndexMap<String, Card>) -> (n: usize)
    ensures
        n == entity_entries(*m).len(),
{
    m.len()
}

/// Wraps `IndexMap::is_empty`: whether there is no entry.
#[verifier::external_body]
fn entity_map_is_empty(m: &IndexMap<String, Card>) -> (b: bool)
    ensures
        b == (entity_entries(*m).len() == 0),
{
    m.is_empty()
}

/// Wraps `IndexMap::get_index`: the entry at position `i`, if there is one.
#[verifier::external_body]
fn entity_at(m: &IndexMap<String, Card>, i: usize) -> (r: Option<(&String, &Card)>)
    ensures
        match r {
            Some((k, c)) => i < entity_entries(*m).len() && k@ == entity_entries(*m)[i as int].0
                && c@ == entity_entries(*m)[i as int].1,
            None => i >= entity_entries(*m).len(),
        },
{
    m.get_index(i)
}

/// Wraps `IndexMap::extend`: inserts each item in order, as `insert` does.
#[verifier::external_body]
fn entity_extend(m: &mut IndexMap<String, Card>, items: Vec<(String, Card)>)
    ensures
        entity_entries(*final(m)) == extend_entries(entity_entries(*old(m)), pairs_view(items@)),
{
    m.extend(items)
}

/// Wraps `IndexMap::get_mut`: the card stored under `key`, to be changed in
/// place; the entry keeps its key and its place.
#[verifier::external_body]
fn entity_get_mut<'a>(m: &'a mut IndexMap<String, Card>, key: &String) -> (r: Option<&'a mut Card>)
    ensures
        match r {
            Some(c) => {
                let i = position_of(entity_entries(*old(m)), key@);
                &&& i < entity_entries(*old(m)).len()
                &&& (*c)@ == entity_entries(*old(m))[i].1
                &&& entity_entries(*final(m)) == entity_entries(*old(m)).update(
                    i,
                    (key@, (*final(c))@),
                )
            },
            None => {
                &&& position_of(entity_entries(*old(m)), key@) == entity_entries(*old(m)).len()
                &&& entity_entries(*final(m)) == entity_entries(*old(m))
            },
        },
{
    m.get_mut(key)
}


/// Bounds of `position_from` and what holds of the entries it skips.
pub proof fn lemma_position_from(entries: Entries, key: Seq<char>, i: int)
    requires
        0 <= i <= entries.len(),
    ensures
        i <= position_from(entries, key, i) <= entries.len(),
        position_from(entries, key, i) < entries.len() ==> entries[position_from(
            entries,
            key,
            i,
        )].0 == key,
        forall|j: int| i <= j < position_from(entries, key, i) ==> entries[j].0 != key,
    decreases entries.len() - i,
{
    if i < entries.len() && entries[i].0 != key {
        lemma_position_from(entries, key, i + 1);
    }
}

/// Where there is an entry for `key`, `position_of` finds it.
pub proof fn lemma_position_of(entries: Entries, key: Seq<char>)
    ensures
        0 <= position_of(entries, key) <= entries.len(),
        position_of(entries, key) < entries.len() ==> entries[position_of(entries, key)].0 == key,
        position_of(entries, key) == entries.len() ==> forall|j: int|
            0 <= j < entries.len() ==> entries[j].0 != key,
        forall|j: int| 0 <= j < position_of(entries, key) ==> entries[j].0 != key,
{
    lemma_position_from(entries, key, 0);
}

/// With unique keys, the entry for a key is the one at its position.
pub proof fn lemma_position_unique(entries: Entries, key: Seq<char>, j: int)
    requires
        unique_keys(entries),
        0 <= j < entries.len(),
        entries[j].0 == key,
    ensures
        position_of(entries, key) == j,
{
    lemma_position_of(entries, key);
}

/// Inserting keeps keys unique.
pub proof fn lemma_insert_unique(entries: Entries, key: Seq<char>, card: CardView)
    requires
        unique_keys(entries),
    ensures
        unique_keys(insert_entry(entries, key, card)),
        insert_entry(entries, key, card).len() >= entries.len(),
{
    lemma_position_of(entries, key);
}

/// Extending keeps keys unique.
pub proof fn lemma_extend_unique(entries: Entries, items: Entries)
    requires
        unique_keys(entries),
    ensures
        unique_keys(extend_entries(entries, items)),
        extend_entries(entries, items).len() >= entries.len(),
    decreases items.len(),
{
    if items.len() > 0 {
        lemma_extend_unique(entries, items.drop_last());
        lemma_insert_unique(extend_entries(entries, items.drop_last()), items.last().0, items.last().1);
    }
}

/// An event between the network side and the dashboard.
pub enum AppEvent {
    /// The dashboard's entities, with their cards (from the network side).
    Snapshot { entities: Vec<(String, Card)> },
    /// An entity's state changed (from the network side).
    StateChanged { entity_id: String, state: String },
    /// An entity's name and state arrived (from the network side).
    EventAdded { entity_id: String, friendly_name: String, state: String },
    /// A new connection status (from the network side).
    Status(String),
    /// An error to show (from the network side).
    Error(String),
    /// A service to call on an entity (from the dashboard).
    CallService { entity_id: String, service: String },
}

/// The mathematical value of an event.
pub enum AppEventView {
    Snapshot { entities: Entries },
    StateChanged { entity_id: Seq<char>, state: Seq<char> },
    EventAdded { entity_id: Seq<char>, friendly_name: Seq<char>, state: Seq<char> },
    Status(Seq<char>),
    Error(Seq<char>),
    CallService { entity_id: Seq<char>, service: Seq<char> },
}

impl View for AppEvent {
    type V = AppEventView;

    open spec fn view(&self) -> AppEventView {
        match self {
            AppEvent::Snapshot { entities } => AppEventView::Snapshot {
                entities: pairs_view(entities@),
            },
            AppEvent::StateChanged { entity_id, state } => AppEventView::StateChanged {
                entity_id: entity_id@,
                state: state@,
            },
            AppEvent::EventAdded { entity_id, friendly_name, state } => AppEventView::EventAdded {
                entity_id: entity_id@,
                friendly_name: friendly_name@,
                state: state@,
            },
            AppEvent::Status(s) => AppEventView::Status(s@),
            AppEvent::Error(e) => AppEventView::Error(e@),
            AppEvent::CallService { entity_id, service } => AppEventView::CallService {
                entity_id: entity_id@,
                service: service@,
            },
        }
    }
}

/// What the dashboard shows and which card is selected.
pub struct AppState {
    pub title: &'static str,
    /// The cards, by entity id, in the dashboard's order.
    pub entities: IndexMap<String, Card>,
    /// The position of the selected card.
    pub selected: usize,
    pub status: String,
    pub last_error: Option<String>,
}

/// The mathematical value of the dashboard.
pub struct AppStateView {
    pub title: Seq<char>,
    pub entries: Entries,
    pub selected: int,
    pub status: Seq<char>,
    pub last_error: Option<Seq<char>>,
}

impl View for AppState {
    type V = AppStateView;

    open spec fn view(&self) -> AppStateView {
        AppStateView {
            title: self.title@,
            entries: entity_entries(self.entities),
            selected: self.selected as int,
            status: self.status@,
            last_error: match self.last_error {
                Some(e) => Some(e@),
                None => None,
            },
        }
    }
}

impl AppStateView {
    /// Entity ids are unique and the selection is the first card or a card.
    pub open spec fn wf(self) -> bool {
        &&& unique_keys(self.entries)
        &&& self.selected == 0 || 0 <= self.selected < self.entries.len()
    }

    /// `self` with the card at position `i` changed to `card`.
    pub open spec fn with_card(self, i: int, card: CardView) -> AppStateView {
        AppStateView { entries: self.entries.update(i, (self.entries[i].0, card)), ..self }
    }

    /// The dashboard after an event.
    pub open spec fn after_event(self, ev: AppEventView) -> AppStateView {
        match ev {
            AppEventView::Snapshot { entities } => AppStateView {
                entries: extend_entries(self.entries, entities),
                selected: 0,
                ..self
            },
            AppEventView::EventAdded { entity_id, friendly_name, state } => {
                let i = position_of(self.entries, entity_id);
                if i < self.entries.len() {
                    self.with_card(
                        i,
                        CardView { friendly_name, state, ..self.entries[i].1 },
                    )
                } else {
                    self
                }
            },
            AppEventView::StateChanged { entity_id, state } => {
                let i = position_of(self.entries, entity_id);
                if i < self.entries.len() {
                    self.with_card(i, CardView { state, ..self.entries[i].1 })
                } else {
                    self
                }
            },
            AppEventView::Status(s) => AppStateView { status: s, ..self },
            AppEventView::Error(e) => AppStateView { last_error: Some(e), ..self },
            AppEventView::CallService { .. } => self,
        }
    }
}

/// A key press on the dashboard.
pub enum Key {
    Char(char),
    Up,
    Down,
    Enter,
    Other,
}

/// What the dashboard does after a key press.
pub enum UiAction {
    /// Keep running.
    Continue,
    /// Leave the dashboard.
    Quit,
    /// Send an event to the network side.
    Send(AppEvent),
}

/// The service that Enter calls on the selected entity.
pub open spec fn enter_service() -> Seq<char> {
    "toggle"@
}

impl AppStateView {
    /// The selection after Up: the previous card, from the first to the last.
    pub open spec fn selected_after_up(self) -> int {
        if self.selected == 0 {
            self.entries.len() - 1
        } else {
            self.selected - 1
        }
    }

    /// The selection after Down: the next card, from the last to the first.
    pub open spec fn selected_after_down(self) -> int {
        if self.selected >= self.entries.len() - 1 {
            0
        } else {
            self.selected + 1
        }
    }

    /// The dashboard after a key press.
    pub open spec fn after_key(self, key: Key) -> AppStateView {
        match key {
            Key::Up => AppStateView { selected: self.selected_after_up(), ..self },
            Key::Down => AppStateView { selected: self.selected_after_down(), ..self },
            _ => self,
        }
    }

    /// Whether a key press is one on which the dashboard works: Up and Down
    /// need a card.
    pub open spec fn key_allowed(self, key: Key) -> bool {
        (key is Up || key is Down) ==> self.entries.len() > 0
    }
}

/// What a key press asks for: `q` quits; Enter on a dashboard with cards asks
/// for the `toggle` service on the selected entity; anything else continues.
pub open spec fn key_action_ok(s: AppStateView, key: Key, a: UiAction) -> bool {
    match key {
        Key::Char(c) if c == 'q' => a is Quit,
        Key::Enter => if s.entries.len() > 0 {
            match a {
                UiAction::Send(ev) => ev@ == (AppEventView::CallService {
                    entity_id: s.entries[s.selected].0,
                    service: enter_service(),
                }),
                _ => false,
            }
        } else {
            a is Continue
        },
        _ => a is Continue,
    }
}

impl AppState {
    /// The dashboard before anything arrived: no cards, status `<connecting>`.
    pub fn new() -> (app: AppState)
        ensures
            app@.title == "Home Assistant"@,
            app@.entries.len() == 0,
            app@.selected == 0,
            app@.status == "<connecting>"@,
            app@.last_error is None,
            app@.wf(),
    {
        AppState {
            title: "Home Assistant",
            entities: new_entity_map(),
            selected: 0,
            status: String::from_str("<connecting>"),
            last_error: None,
        }
    }

    /// The number of cards.
    pub fn entity_count(&self) -> (n: usize)
        ensures
            n == self@.entries.len(),
    {
        entity_count(&self.entities)
    }

    /// Applies an event that arrived from the network side.
    pub fn apply(&mut self, ev: AppEvent)
        requires
            old(self)@.wf(),
        ensures
            final(self)@ == old(self)@.after_event(ev@),
            final(self)@.wf(),
    {
        let ghost s = self@;
        let ghost v = ev@;
        match ev {
            AppEvent::Snapshot { entities } => {
                proof {
                    lemma_extend_unique(s.entries, pairs_view(entities@));
                }
                entity_extend(&mut self.entities, entities);
                self.selected = 0;
            },
            AppEvent::EventAdded { entity_id, friendly_name, state } => {
                proof {
                    lemma_position_of(s.entries, entity_id@);
                }
                match entity_get_mut(&mut self.entities, &entity_id) {
                    Some(card) => {
                        card.friendly_name = friendly_name;
                        card.state = state;
                    },
                    None => {},
                }
            },
            AppEvent::StateChanged { entity_id, state } => {
                proof {
                    lemma_position_of(s.entries, entity_id@);
                }
                match entity_get_mut(&mut self.entities, &entity_id) {
                    Some(card) => {
                        card.state = state;
                    },
                    None => {},
                }
            },
            AppEvent::Status(st) => {
                self.status = st;
            },
            AppEvent::Error(e) => {
                self.last_error = Some(e);
            },
            AppEvent::CallService { .. } => {},
        }
        assert(self@ =~= s.after_event(v));
    }

    /// Handles a key press: `q` quits, Up and Down move the selection around
    /// the cards, Enter asks for `toggle` on the selected entity.
    pub fn on_key(&mut self, key: Key) -> (a: UiAction)
        requires
            old(self)@.wf(),
            old(self)@.key_allowed(key),
        ensures
            final(self)@ == old(self)@.after_key(key),
            final(self)@.wf(),
            key_action_ok(old(self)@, key, a),
    {
        let ghost s = self@;
        match key {
            Key::Char(c) => {
                if c == 'q' {
                    return UiAction::Quit;
                }
                UiAction::Continue
            },
            Key::Up => {
                let n: usize = entity_count(&self.entities);
                self.selected = if self.selected == 0 {
                    n - 1
                } else {
                    self.selected - 1
                };
                assert(self@ =~= s.after_key(key));
                UiAction::Continue
            },
            Key::Down => {
                let n: usize = entity_count(&self.entities);
                self.selected = if self.selected >= n - 1 {
                    0
                } else {
                    self.selected + 1
                };
                assert(self@ =~= s.after_key(key));
                UiAction::Continue
            },
            Key::Enter => {
                if !entity_map_is_empty(&self.entities) {
                    match entity_at(&self.entities, self.selected) {
                        Some((entity_id, _)) => {
                            let service = String::from_str("toggle");
                            proof {
                                reveal_strlit("toggle");
                            }
                            UiAction::Send(
                                AppEvent::CallService { entity_id: entity_id.clone(), service },
                            )
                        },
                        None => UiAction::Continue,
                    }
                } else {
                    UiAction::Continue
                }
            },
            Key::Other => UiAction::Continue,
        }
    }
}

impl Card {
    /// The text of the card: its state, its domain, and its services.
    pub fn body_text(&self) -> (t: String)
        ensures
            t@ == self.state@ + "\n"@ + self.domain@ + "\n"@ + crate::text::debug_list_of(
                texts_view(self.services@),
            ),
    {
        let mut t = self.state.clone();
        t.append("\n");
        t.append(self.domain.as_str());
        t.append("\n");
        t.append(crate::text::debug_list(&self.services).as_str());
        t
    }

    /// The mark under the card: `^` when it is selected.
    pub fn selection_mark(selected: bool) -> (m: &'static str)
        ensures
            m@ == if selected { "^"@ } else { ""@ },
    {
        if selected {
            "^"
        } else {
            ""
        }
    }
}

/// The help line at the bottom of the dashboard.
pub open spec fn help_text() -> Seq<char> {
    "q: quit | \u{2191}/\u{2193}: scroll"@
}

impl AppState {
    /// The header: `App status: ` and the status.
    pub fn header_text(&self) -> (t: String)
        ensures
            t@ == "App status: "@ + self.status@,
    {
        crate::text::concat("App status: ", self.status.as_str())
    }

    /// The footer: the help line, and the last error after ` | Error -> `.
    pub fn footer_text(&self) -> (t: String)
        ensures
            t@ == match self.last_error {
                Some(e) => help_text() + " | Error -> "@ + e@,
                None => help_text(),
            },
    {
        match &self.last_error {
            Some(err) => {
                let mut t = String::from_str("q: quit | \u{2191}/\u{2193}: scroll");
                t.append(" | Error -> ");
                t.append(err.as_str());
                t
            },
            None => String::from_str("q: quit | \u{2191}/\u{2193}: scroll"),
        }
    }

    /// Whether the card at position `i` is the selected one.
    pub fn is_selected(&self, i: usize) -> (b: bool)
        ensures
            b == (i == self.selected),
    {
        i == self.selected
    }
}

// ----- Laws -----------------------------------------------------------------

/// Down then Up, and Up then Down, come back to the selected card.
pub proof fn lemma_up_down_inverse(s: AppStateView)
    requires
        s.wf(),
        s.entries.len() > 0,
    ensures
        s.after_key(Key::Down).after_key(Key::Up) == s,
        s.after_key(Key::Up).after_key(Key::Down) == s,
        s.after_key(Key::Up).wf(),
        s.after_key(Key::Down).wf(),
{
}

/// State and name updates change only the named card: the entity ids, their
/// order and every other card stay as they were.
pub proof fn lemma_updates_keep_cards(s: AppStateView, ev: AppEventView)
    requires
        s.wf(),
        ev is StateChanged || ev is EventAdded,
    ensures
        s.after_event(ev).entries.len() == s.entries.len(),
        forall|j: int|
            0 <= j < s.entries.len() ==> (#[trigger] s.after_event(ev).entries[j]).0
                == s.entries[j].0,
        forall|j: int|
            0 <= j < s.entries.len() && s.entries[j].0 != (match ev {
                AppEventView::StateChanged { entity_id, .. } => entity_id,
                AppEventView::EventAdded { entity_id, .. } => entity_id,
                _ => Seq::empty(),
            }) ==> (#[trigger] s.after_event(ev).entries[j]) == s.entries[j],
{
    match ev {
        AppEventView::StateChanged { entity_id, .. } => {
            lemma_position_of(s.entries, entity_id);
        },
        AppEventView::EventAdded { entity_id, .. } => {
            lemma_position_of(s.entries, entity_id);
        },
        _ => {},
    }
}

/// A state change of a shown entity replaces that card's state and nothing
/// else of it: its name, domain, services and type stay, and so do the
/// title, the selection, the status and the last error.
pub proof fn lemma_state_change_sets_state(s: AppStateView, entity_id: Seq<char>, state: Seq<char>, i: int)
    requires
        s.wf(),
        0 <= i < s.entries.len(),
        s.entries[i].0 == entity_id,
    ensures
        s.after_event(AppEventView::StateChanged { entity_id, state }).entries[i] == (
            entity_id,
            CardView {
                friendly_name: s.entries[i].1.friendly_name,
                state: state,
                domain: s.entries[i].1.domain,
                services: s.entries[i].1.services,
                card_type: s.entries[i].1.card_type,
            },
        ),
        s.after_event(AppEventView::StateChanged { entity_id, state }).entries.len() == s.entries.len(),
        s.after_event(AppEventView::StateChanged { entity_id, state }).title == s.title,
        s.after_event(AppEventView::StateChanged { entity_id, state }).selected == s.selected,
        s.after_event(AppEventView::StateChanged { entity_id, state }).status == s.status,
        s.after_event(AppEventView::StateChanged { entity_id, state }).last_error == s.last_error,
{
    lemma_position_unique(s.entries, entity_id, i);
}

/// The state of an added entity that is shown replaces that card's name and
/// state and nothing else of it: its domain, services and type stay, and so
/// do the title, the selection, the status and the last error.
pub proof fn lemma_added_sets_name_and_state(
    s: AppStateView,
    entity_id: Seq<char>,
    friendly_name: Seq<char>,
    state: Seq<char>,
    i: int,
)
    requires
        s.wf(),
        0 <= i < s.entries.len(),
        s.entries[i].0 == entity_id,
    ensures
        s.after_event(AppEventView::EventAdded { entity_id, friendly_name, state }).entries[i] == (
            entity_id,
            CardView {
                friendly_name: friendly_name,
                state: state,
                domain: s.entries[i].1.domain,
                services: s.entries[i].1.services,
                card_type: s.entries[i].1.card_type,
            },
        ),
        s.after_event(AppEventView::EventAdded { entity_id, friendly_name, state }).entries.len()
            == s.entries.len(),
        s.after_event(AppEventView::EventAdded { entity_id, friendly_name, state }).title == s.title,
        s.after_event(AppEventView::EventAdded { entity_id, friendly_name, state }).selected
            == s.selected,
        s.after_event(AppEventView::EventAdded { entity_id, friendly_name, state }).status == s.status,
        s.after_event(AppEventView::EventAdded { entity_id, friendly_name, state }).last_error
            == s.last_error,
{
    lemma_position_unique(s.entries, entity_id, i);
}

/// Applying a state or name update, a status or an error twice is applying
/// it once.
pub proof fn lemma_updates_idempotent(s: AppStateView, ev: AppEventView)
    requires
        s.wf(),
        !(ev is Snapshot),
    ensures
        s.after_event(ev).after_event(ev) == s.after_event(ev),
{
    match ev {
        AppEventView::StateChanged { entity_id, state } => {
            lemma_position_of(s.entries, entity_id);
            let i = position_of(s.entries, entity_id);
            if i < s.entries.len() {
                let s1 = s.after_event(ev);
                lemma_position_unique(s1.entries, entity_id, i);
                assert(s1.after_event(ev).entries =~= s1.entries);
            }
        },
        AppEventView::EventAdded { entity_id, .. } => {
            lemma_position_of(s.entries, entity_id);
            let i = position_of(s.entries, entity_id);
            if i < s.entries.len() {
                let s1 = s.after_event(ev);
                lemma_position_unique(s1.entries, entity_id, i);
                assert(s1.after_event(ev).entries =~= s1.entries);
            }
        },
        _ => {},
    }
}

/// Inserting keeps every entry's key in its place and holds `key` afterwards.
pub proof fn lemma_insert_keeps_places(entries: Entries, key: Seq<char>, card: CardView)
    ensures
        insert_entry(entries, key, card).len() >= entries.len(),
        forall|j: int|
            0 <= j < entries.len() ==> (#[trigger] insert_entry(entries, key, card)[j]).0
                == entries[j].0,
        exists|j: int|
            0 <= j < insert_entry(entries, key, card).len() && (#[trigger] insert_entry(
                entries,
                key,
                card,
            )[j]) == (key, card),
{
    lemma_position_of(entries, key);
    let i = position_of(entries, key);
    if i < entries.len() {
        assert(insert_entry(entries, key, card)[i] == (key, card));
    } else {
        assert(insert_entry(entries, key, card)[entries.len() as int] == (key, card));
    }
}

/// A snapshot keeps the cards already shown in their places, and afterwards
/// every entity of the snapshot has a card, after the cards already shown.
pub proof fn lemma_snapshot_keeps_places(entries: Entries, items: Entries)
    ensures
        extend_entries(entries, items).len() >= entries.len(),
        forall|j: int|
            0 <= j < entries.len() ==> (#[trigger] extend_entries(entries, items)[j]).0
                == entries[j].0,
        forall|k: int|
            0 <= k < items.len() ==> exists|j: int|
                0 <= j < extend_entries(entries, items).len() && (#[trigger] extend_entries(
                    entries,
                    items,
                )[j]).0 == (#[trigger] items[k]).0,
    decreases items.len(),
{
    if items.len() > 0 {
        let prev = extend_entries(entries, items.drop_last());
        lemma_snapshot_keeps_places(entries, items.drop_last());
        lemma_insert_keeps_places(prev, items.last().0, items.last().1);
        let next = extend_entries(entries, items);
        assert forall|k: int| 0 <= k < items.len() implies exists|j: int|
            0 <= j < next.len() && (#[trigger] next[j]).0 == (#[trigger] items[k]).0 by {
            if k < items.len() - 1 {
                assert(items.drop_last()[k] == items[k]);
                let j = choose|j: int| 0 <= j < prev.len() && (#[trigger] prev[j]).0 == items.drop_last()[k].0;
                assert(next[j].0 == prev[j].0);
            } else {
                let j = choose|j: int| 0 <= j < next.len() && (#[trigger] next[j]) == (items.last().0, items.last().1);
                assert(next[j].0 == items[k].0);
            }
        }
    }
}

/// The last card that `items` give for `key`, if they give one.
pub open spec fn last_card_for(items: Entries, key: Seq<char>) -> Option<CardView>
    decreases items.len(),
{
    if items.len() == 0 {
        None
    } else if items.last().0 == key {
        Some(items.last().1)
    } else {
        last_card_for(items.drop_last(), key)
    }
}

/// `entries` with each card whose key `items` give replaced by the last card
/// given for it.
pub open spec fn overwrite(entries: Entries, items: Entries) -> Entries {
    Seq::new(
        entries.len(),
        |j: int|
            match last_card_for(items, entries[j].0) {
                Some(c) => (entries[j].0, c),
                None => entries[j],
            },
    )
}

/// Every key that `items` give is a key of `entries`.
pub open spec fn keys_present(entries: Entries, items: Entries) -> bool {
    forall|k: int|
        0 <= k < items.len() ==> exists|j: int|
            0 <= j < entries.len() && (#[trigger] entries[j]).0 == (#[trigger] items[k]).0
}

proof fn lemma_extend_over_present(g: Entries, items: Entries)
    requires
        unique_keys(g),
        keys_present(g, items),
    ensures
        extend_entries(g, items) == overwrite(g, items),
    decreases items.len(),
{
    if items.len() == 0 {
        assert(overwrite(g, items) =~= g);
    } else {
        let prev = items.drop_last();
        let l = items.last();
        assert(keys_present(g, prev)) by {
            assert forall|k: int| 0 <= k < prev.len() implies exists|j: int|
                0 <= j < g.len() && (#[trigger] g[j]).0 == (#[trigger] prev[k]).0 by {
                assert(prev[k] == items[k]);
            }
        }
        lemma_extend_over_present(g, prev);
        let o = overwrite(g, prev);
        assert(items[items.len() - 1] == l);
        let j0 = choose|j: int| 0 <= j < g.len() && (#[trigger] g[j]).0 == items[items.len() - 1].0;
        lemma_position_unique(g, l.0, j0);
        assert(unique_keys(o));
        lemma_position_unique(o, l.0, j0);
        assert(extend_entries(g, items) =~= overwrite(g, items));
    }
}

proof fn lemma_extend_gives_last(e: Entries, items: Entries)
    requires
        unique_keys(e),
    ensures
        overwrite(extend_entries(e, items), items) == extend_entries(e, items),
    decreases items.len(),
{
    let f = extend_entries(e, items);
    if items.len() == 0 {
        assert(overwrite(f, items) =~= f);
    } else {
        let prev = items.drop_last();
        let l = items.last();
        let fp = extend_entries(e, prev);
        lemma_extend_gives_last(e, prev);
        lemma_extend_unique(e, prev);
        lemma_extend_unique(e, items);
        lemma_position_of(fp, l.0);
        assert forall|j: int| 0 <= j < f.len() implies (#[trigger] overwrite(f, items)[j]) == f[j] by {
            if f[j].0 == l.0 {
            } else {
                assert(j < fp.len());
                assert(f[j] == fp[j]);
                assert(overwrite(fp, prev)[j] == fp[j]);
            }
        }
        assert(overwrite(f, items) =~= f);
    }
}

/// A snapshot applied twice is applied once.
pub proof fn lemma_snapshot_idempotent(entries: Entries, items: Entries)
    requires
        unique_keys(entries),
    ensures
        extend_entries(extend_entries(entries, items), items) == extend_entries(entries, items),
{
    let f = extend_entries(entries, items);
    lemma_extend_unique(entries, items);
    lemma_snapshot_keeps_places(entries, items);
    lemma_extend_over_present(f, items);
    lemma_extend_gives_last(entries, items);
}

/// Every event applied twice is applied once.
pub proof fn lemma_events_idempotent(s: AppStateView, ev: AppEventView)
    requires
        s.wf(),
    ensures
        s.after_event(ev).after_event(ev) == s.after_event(ev),
{
    match ev {
        AppEventView::Snapshot { entities } => {
            lemma_snapshot_idempotent(s.entries, entities);
        },
        _ => {
            lemma_updates_idempotent(s, ev);
        },
    }
}

/// An event keeps the dashboard well formed.
pub proof fn lemma_event_keeps_wf(s: AppStateView, ev: AppEventView)
    requires
        s.wf(),
    ensures
        s.after_event(ev).wf(),
{
    match ev {
        AppEventView::Snapshot { entities } => {
            lemma_extend_unique(s.entries, entities);
        },
        AppEventView::StateChanged { entity_id, .. } => {
            lemma_updates_keep_cards(s, ev);
            lemma_position_of(s.entries, entity_id);
        },
        AppEventView::EventAdded { entity_id, .. } => {
            lemma_updates_keep_cards(s, ev);
            lemma_position_of(s.entries, entity_id);
        },
        _ => {},
    }
}

/// A key press on which the dashboard works keeps it well formed.
pub proof fn lemma_key_keeps_wf(s: AppStateView, key: Key)
    requires
        s.wf(),
        s.key_allowed(key),
    ensures
        s.after_key(key).wf(),
{
}

/// What reaches the dashboard: an event from the network side, or a key
/// press.
pub enum UiInput {
    Event(AppEventView),
    Press(Key),
}

/// The dashboard after one input.
pub open spec fn after_input(s: AppStateView, input: UiInput) -> AppStateView {
    match input {
        UiInput::Event(ev) => s.after_event(ev),
        UiInput::Press(key) => s.after_key(key),
    }
}

/// The dashboard after the inputs, in order.
pub open spec fn after_run(s: AppStateView, inputs: Seq<UiInput>) -> AppStateView
    decreases inputs.len(),
{
    if inputs.len() == 0 {
        s
    } else {
        after_input(after_run(s, inputs.drop_last()), inputs.last())
    }
}

/// Every key press of the run comes when the dashboard works on it (Up and
/// Down with cards shown).
pub open spec fn run_allowed(s: AppStateView, inputs: Seq<UiInput>) -> bool {
    forall|k: int|
        0 <= k < inputs.len() ==> match #[trigger] inputs[k] {
            UiInput::Press(key) => after_run(s, inputs.take(k)).key_allowed(key),
            _ => true,
        }
}

/// Over any run of events and key presses, the dashboard stays well formed:
/// entity ids stay unique, and while cards are shown the selection is one of
/// them.
pub proof fn lemma_runs_keep_selection(s: AppStateView, inputs: Seq<UiInput>)
    requires
        s.wf(),
        run_allowed(s, inputs),
    ensures
        after_run(s, inputs).wf(),
        after_run(s, inputs).entries.len() > 0 ==> 0 <= after_run(s, inputs).selected < after_run(
            s,
            inputs,
        ).entries.len(),
    decreases inputs.len(),
{
    if inputs.len() > 0 {
        let prev = inputs.drop_last();
        assert(run_allowed(s, prev)) by {
            assert forall|k: int| 0 <= k < prev.len() implies match #[trigger] prev[k] {
                UiInput::Press(key) => after_run(s, prev.take(k)).key_allowed(key),
                _ => true,
            } by {
                assert(prev[k] == inputs[k]);
                assert(prev.take(k) =~= inputs.take(k));
            }
        }
        lemma_runs_keep_selection(s, prev);
        let r = after_run(s, prev);
        let k = inputs.len() - 1;
        assert(inputs.take(k) =~= prev);
        assert(inputs[k] == inputs.last());
        match inputs.last() {
            UiInput::Event(ev) => {
                lemma_event_keeps_wf(r, ev);
            },
            UiInput::Press(key) => {
                lemma_key_keeps_wf(r, key);
            },
        }
    }
}

} // verus!
