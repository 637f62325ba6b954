//! Cards of a Lovelace dashboard configuration.

use vstd::prelude::*;
use crate::json::{Json, key_index, find_key, lemma_key_index_from, lemma_take_next};

verus! {

/// A dashboard card, with the fields that the dashboard reads.
pub struct LovelaceCard {
    pub card_type: String,
    pub title: Option<String>,
    pub name: Option<String>,
    pub entity: Option<String>,
}

/// The mathematical value of a card.
pub struct LovelaceCardView {
    pub card_type: Seq<char>,
    pub title: Option<Seq<char>>,
    pub name: Option<Seq<char>>,
    pub entity: Option<Seq<char>>,
}

pub open spec fn opt_text_view(o: Option<String>) -> Option<Seq<char>> {
    match o {
        Some(s) => Some(s@),
        None => None,
    }
}

impl View for LovelaceCard {
    type V = LovelaceCardView;

    open spec fn view(&self) -> LovelaceCardView {
        LovelaceCardView {
            card_type: self.card_type@,
            title: opt_text_view(self.title),
            name: opt_text_view(self.name),
            entity: opt_text_view(self.entity),
        }
    }
}

pub open spec fn cards_view(cards: Seq<LovelaceCard>) -> Seq<LovelaceCardView> {
    cards.map_values(|c: LovelaceCard| c@)
}

/// How an optional text field of a card object reads: `Some(None)` when the
/// key is absent or null, `Some(Some(s))` for a string, `None` (the object is
/// not a card) for any other value.
pub open spec fn optional_text_field(entries: Seq<(String, Json)>, key: Seq<char>) -> Option<
    Option<Seq<char>>,
> {
    let k = key_index(entries, key);
    if k >= entries.len() {
        Some(None)
    } else {
        match entries[k].1 {
            Json::Null => Some(None),
            Json::Str(s) => Some(Some(s@)),
            _ => None,
        }
    }
}

/// The `entities` field of a card object is absent, null or an array.
pub open spec fn entities_field_ok(entries: Seq<(String, Json)>) -> bool {
    let k = key_index(entries, "entities"@);
    k >= entries.len() || entries[k].1 is Null || entries[k].1 is Array
}

/// The card that a JSON value describes, if it describes one: an object with
/// a string `type`, optional string `title`, `name` and `entity`, and an
/// optional array `entities`; other keys are free.
pub open spec fn card_of(v: Json) -> Option<LovelaceCardView> {
    match v {
        Json::Object(entries) => {
            let e = entries@;
            let t = key_index(e, "type"@);
            let title = optional_text_field(e, "title"@);
            let name = optional_text_field(e, "name"@);
            let entity = optional_text_field(e, "entity"@);
            if t < e.len() && e[t].1 is Str && title is Some && name is Some && entity is Some
                && entities_field_ok(e) {
                Some(
                    LovelaceCardView {
                        card_type: e[t].1->Str_0@,
                        title: title->0,
                        name: name->0,
                        entity: entity->0,
                    },
                )
            } else {
                None
            }
        },
        _ => None,
    }
}

pub open spec fn opt_seq<A>(o: Option<A>) -> Seq<A> {
    match o {
        Some(a) => seq![a],
        None => Seq::empty(),
    }
}

/// The position of an object's `cards` entry when its value is an array (a
/// list of cards), else the number of entries.
pub open spec fn card_list_index(e: Seq<(String, Json)>) -> int {
    let c = key_index(e, "cards"@);
    if 0 <= c < e.len() && e[c].1 is Array {
        c
    } else {
        e.len() as int
    }
}

/// Every card found below `v`, each once, in the order of the search: in an
/// object, the elements of its `cards` array (each card, then what lies below
/// it), then its `card` (the card, then what lies below it), then what lies
/// below each of its other values; in an array, what lies below each element.
pub open spec fn cards_below(v: Json) -> Seq<LovelaceCardView>
    decreases v, 0int,
{
    match v {
        Json::Object(entries) => {
            let e = entries@;
            let c = key_index(e, "cards"@);
            let d = key_index(e, "card"@);
            let from_cards = if 0 <= c < e.len() {
                proof {
                    assert(decreases_to!(entries => e));
                    assert(decreases_to!(e => e[c]));
                }
                match e[c].1 {
                    Json::Array(items) => {
                        proof {
                            assert(decreases_to!(items => items@));
                        }
                        cards_in_list(items@)
                    },
                    _ => Seq::empty(),
                }
            } else {
                Seq::empty()
            };
            let from_card = if 0 <= d < e.len() {
                proof {
                    assert(decreases_to!(entries => e));
                    assert(decreases_to!(e => e[d]));
                }
                opt_seq(card_of(e[d].1)) + cards_below(e[d].1)
            } else {
                Seq::empty()
            };
            proof {
                assert(decreases_to!(entries => e));
            }
            from_cards + from_card + cards_below_values(e, card_list_index(e), d)
        },
        Json::Array(items) => {
            proof {
                assert(decreases_to!(items => items@));
            }
            cards_below_elements(items@)
        },
        _ => Seq::empty(),
    }
}

/// The cards of a `cards` list: each element that is a card, followed by
/// what lies below it.
pub open spec fn cards_in_list(s: Seq<Json>) -> Seq<LovelaceCardView>
    decreases s, 1int,
{
    if s.len() == 0 {
        Seq::empty()
    } else {
        let last = s[s.len() - 1];
        proof {
            assert(decreases_to!(s => s.subrange(0, s.len() - 1)));
        }
        cards_in_list(s.subrange(0, s.len() - 1)) + opt_seq(card_of(last)) + cards_below(last)
    }
}

/// What lies below each element of an array.
pub open spec fn cards_below_elements(s: Seq<Json>) -> Seq<LovelaceCardView>
    decreases s, 1int,
{
    if s.len() == 0 {
        Seq::empty()
    } else {
        proof {
            assert(decreases_to!(s => s.subrange(0, s.len() - 1)));
        }
        cards_below_elements(s.subrange(0, s.len() - 1)) + cards_below(s[s.len() - 1])
    }
}

/// What lies below each value of an object, except the values at positions
/// `c` and `d` (the card list and the single card, searched apart).
pub open spec fn cards_below_values(s: Seq<(String, Json)>, c: int, d: int) -> Seq<LovelaceCardView>
    decreases s, 1int,
{
    if s.len() == 0 {
        Seq::empty()
    } else {
        proof {
            assert(decreases_to!(s => s.subrange(0, s.len() - 1)));
            assert(decreases_to!(s => s[s.len() - 1]));
        }
        let k = s.len() - 1;
        cards_below_values(s.subrange(0, k), c, d) + if k == c || k == d {
            Seq::empty()
        } else {
            cards_below(s[k].1)
        }
    }
}


/// Reads an optional text field of a card object (see `optional_text_field`).
fn read_optional_text(entries: &Vec<(String, Json)>, key: &str) -> (r: Option<Option<String>>)
    ensures
        match r {
            Some(o) => optional_text_field(entries@, key@) == Some(opt_text_view(o)),
            None => optional_text_field(entries@, key@) is None,
        },
{
    let k: usize = find_key(entries, key);
    if k >= entries.len() {
        return Some(None);
    }
    match &entries[k].1 {
        Json::Null => Some(None),
        Json::Str(s) => Some(Some(s.clone())),
        _ => None,
    }
}

/// The card that a JSON value describes, if it describes one.
pub fn card_from_json(v: &Json) -> (r: Option<LovelaceCard>)
    ensures
        match r {
            Some(c) => card_of(*v) == Some(c@),
            None => card_of(*v) is None,
        },
{
    match v {
        Json::Object(entries) => {
            let t: usize = find_key(entries, "type");
            if t >= entries.len() {
                return None;
            }
            let card_type = match &entries[t].1 {
                Json::Str(s) => s.clone(),
                _ => {
                    return None;
                },
            };
            let title = match read_optional_text(entries, "title") {
                Some(o) => o,
                None => {
                    return None;
                },
            };
            let name = match read_optional_text(entries, "name") {
                Some(o) => o,
                None => {
                    return None;
                },
            };
            let entity = match read_optional_text(entries, "entity") {
                Some(o) => o,
                None => {
                    return None;
                },
            };
            let k: usize = find_key(entries, "entities");
            if k < entries.len() {
                match &entries[k].1 {
                    Json::Null => {},
                    Json::Array(_) => {},
                    _ => {
                        return None;
                    },
                }
            }
            Some(LovelaceCard { card_type, title, name, entity })
        },
        _ => None,
    }
}

proof fn lemma_cards_view_push(cards: Seq<LovelaceCard>, c: LovelaceCard)
    ensures
        cards_view(cards.push(c)) == cards_view(cards) + seq![c@],
{
    assert(cards_view(cards.push(c)) =~= cards_view(cards) + seq![c@]);
}

/// Appends the card that `v` describes, if any, to `found`.
fn push_card_of(v: &Json, found: &mut Vec<LovelaceCard>)
    ensures
        cards_view(final(found)@) == cards_view(old(found)@) + opt_seq(card_of(*v)),
{
    match card_from_json(v) {
        Some(c) => {
            proof {
                lemma_cards_view_push(found@, c);
            }
            found.push(c);
        },
        None => {
            assert(cards_view(found@) + opt_seq(card_of(*v)) =~= cards_view(found@));
        },
    }
}

/// Appends to `found` every card below `value` (see `cards_below`): the
/// cards already in `found` stay, in front.
pub fn collect_cards(value: &Json, found: &mut Vec<LovelaceCard>)
    ensures
        cards_view(final(found)@) == cards_view(old(found)@) + cards_below(*value),
    decreases value,
{
    let ghost start = cards_view(found@);
    match value {
        Json::Object(entries) => {
            let ghost e = entries@;
            let c: usize = find_key(entries, "cards");
            if c < entries.len() {
                match &entries[c].1 {
                    Json::Array(items) => {
                        let mut i: usize = 0;
                        while i < items.len()
                            invariant
                                i <= items@.len(),
                                cards_view(found@) == start + cards_in_list(items@.take(i as int)),
                                decreases_to!(*value => items@),
                            decreases items@.len() - i,
                        {
                            proof {
                                lemma_take_next(items@, i as int);
                                assert(decreases_to!(items@ => items@[i as int]));
                            }
                            push_card_of(&items[i], found);
                            collect_cards(&items[i], found);
                            i += 1;
                        }
                        assert(items@.take(items@.len() as int) =~= items@);
                    },
                    _ => {},
                }
            }
            let ghost after_cards = cards_view(found@);
            let d: usize = find_key(entries, "card");
            if d < entries.len() {
                proof {
                    assert(decreases_to!(entries => e));
                    assert(decreases_to!(e => e[d as int]));
                }
                push_card_of(&entries[d].1, found);
                collect_cards(&entries[d].1, found);
            }
            let ghost after_card = cards_view(found@);
            let list_index: usize = if c < entries.len() && entries[c].1.is_array() {
                c
            } else {
                entries.len()
            };
            assert(list_index == card_list_index(e));
            let mut i: usize = 0;
            while i < entries.len()
                invariant
                    e == entries@,
                    i <= e.len(),
                    cards_view(found@) == after_card + cards_below_values(
                        e.take(i as int),
                        list_index as int,
                        d as int,
                    ),
                    decreases_to!(*value => e),
                decreases e.len() - i,
            {
                proof {
                    lemma_take_next(e, i as int);
                    assert(decreases_to!(e => e[i as int]));
                }
                if i != list_index && i != d {
                    collect_cards(&entries[i].1, found);
                } else {
                    assert(cards_view(found@) + Seq::<LovelaceCardView>::empty() =~= cards_view(found@));
                }
                i += 1;
            }
            assert(e.take(e.len() as int) =~= e);
            proof {
                lemma_key_index_from(e, "cards"@, 0);
                lemma_key_index_from(e, "card"@, 0);
            }
        },
        Json::Array(items) => {
            let mut i: usize = 0;
            while i < items.len()
                invariant
                    i <= items@.len(),
                    cards_view(found@) == start + cards_below_elements(items@.take(i as int)),
                    decreases_to!(*value => items@),
                decreases items@.len() - i,
            {
                proof {
                    lemma_take_next(items@, i as int);
                    assert(decreases_to!(items@ => items@[i as int]));
                }
                collect_cards(&items[i], found);
                i += 1;
            }
            assert(items@.take(items@.len() as int) =~= items@);
        },
        _ => {
            assert(cards_view(found@) + cards_below(*value) =~= cards_view(found@));
        },
    }
}

/// Every card of a Lovelace configuration, nested ones included, in the order
/// of the search that `cards_below` describes.
pub fn extract_all_cards(root: &Json) -> (cards: Vec<LovelaceCard>)
    ensures
        cards_view(cards@) == cards_below(*root),
{
    let mut cards: Vec<LovelaceCard> = Vec::new();
    assert(cards_view(cards@) =~= Seq::empty());
    collect_cards(root, &mut cards);
    assert(Seq::<LovelaceCardView>::empty() + cards_below(*root) =~= cards_below(*root));
    cards
}

// ----- Laws -----------------------------------------------------------------

/// What a `cards` list finds includes, for each element, the element itself
/// when it is a card, and every card below it.
proof fn lemma_list_includes_element(s: Seq<Json>, i: int)
    requires
        0 <= i < s.len(),
    ensures
        card_of(s[i]) matches Some(c) ==> cards_in_list(s).contains(c),
        forall|x: LovelaceCardView| cards_below(s[i]).contains(x) ==> cards_in_list(s).contains(x),
    decreases s.len(),
{
    let prev = s.subrange(0, s.len() - 1);
    let last = s[s.len() - 1];
    let head = cards_in_list(prev);
    let tail = opt_seq(card_of(last)) + cards_below(last);
    assert(cards_in_list(s) == head + tail);
    if i < s.len() - 1 {
        assert(prev[i] == s[i]);
        lemma_list_includes_element(prev, i);
        if let Some(c) = card_of(s[i]) {
            let k = choose|k: int| 0 <= k < head.len() && head[k] == c;
            assert((head + tail)[k] == c);
        }
        assert forall|x: LovelaceCardView| cards_below(s[i]).contains(x) implies cards_in_list(
            s,
        ).contains(x) by {
            assert(cards_below(prev[i]).contains(x));
            assert(head.contains(x));
            let k = choose|k: int| 0 <= k < head.len() && head[k] == x;
            assert((head + tail)[k] == x);
        }
    } else {
        if let Some(c) = card_of(s[i]) {
            assert((head + tail)[head.len() as int] == c);
        }
        assert forall|x: LovelaceCardView| cards_below(s[i]).contains(x) implies cards_in_list(
            s,
        ).contains(x) by {
            let k = choose|k: int| 0 <= k < cards_below(last).len() && cards_below(last)[k] == x;
            let off = head.len() + opt_seq(card_of(last)).len();
            assert((head + tail)[off + k] == x);
        }
    }
}

/// The elements of an object's `cards` list, if it has one.
pub open spec fn listed_items(o: Json) -> Option<Seq<Json>> {
    match o {
        Json::Object(entries) => {
            let k = key_index(entries@, "cards"@);
            if 0 <= k < entries@.len() {
                match entries@[k].1 {
                    Json::Array(items) => Some(items@),
                    _ => None,
                }
            } else {
                None
            }
        },
        _ => None,
    }
}

/// The value of an object's `card` field, if it has one.
pub open spec fn single_card_value(o: Json) -> Option<Json> {
    match o {
        Json::Object(entries) => {
            let k = key_index(entries@, "card"@);
            if 0 <= k < entries@.len() {
                Some(entries@[k].1)
            } else {
                None
            }
        },
        _ => None,
    }
}

/// Every card of an object's `cards` list is found, and so is every card
/// nested below it: the search returns every card of the configuration,
/// nested ones included.
pub proof fn lemma_listed_cards_found(o: Json, i: int)
    requires
        listed_items(o) is Some,
        0 <= i < listed_items(o)->0.len(),
    ensures
        card_of(listed_items(o)->0[i]) matches Some(c) ==> cards_below(o).contains(c),
        forall|x: LovelaceCardView|
            cards_below(listed_items(o)->0[i]).contains(x) ==> cards_below(o).contains(x),
{
    let entries = o->Object_0@;
    let c = key_index(entries, "cards"@);
    lemma_key_index_from(entries, "cards"@, 0);
    let items = entries[c].1->Array_0@;
    assert(listed_items(o)->0 == items);
    lemma_list_includes_element(items, i);
    let a = cards_in_list(items);
    let d = key_index(entries, "card"@);
    let rest = (if 0 <= d < entries.len() {
        opt_seq(card_of(entries[d].1)) + cards_below(entries[d].1)
    } else {
        Seq::empty()
    }) + cards_below_values(entries, card_list_index(entries), d);
    assert(cards_below(o) =~= a + rest);
    if let Some(cv) = card_of(items[i]) {
        let k = choose|k: int| 0 <= k < a.len() && a[k] == cv;
        assert((a + rest)[k] == cv);
    }
    assert forall|x: LovelaceCardView| cards_below(items[i]).contains(x) implies cards_below(
        o,
    ).contains(x) by {
        assert(a.contains(x));
        let k = choose|k: int| 0 <= k < a.len() && a[k] == x;
        assert((a + rest)[k] == x);
    }
}

/// The card of an object's `card` field is found, and so is every card
/// nested below it.
pub proof fn lemma_single_card_found(o: Json)
    requires
        single_card_value(o) is Some,
    ensures
        card_of(single_card_value(o)->0) matches Some(c) ==> cards_below(o).contains(c),
        forall|x: LovelaceCardView|
            cards_below(single_card_value(o)->0).contains(x) ==> cards_below(o).contains(x),
{
    let entries = o->Object_0@;
    lemma_key_index_from(entries, "card"@, 0);
    lemma_key_index_from(entries, "cards"@, 0);
    let d = key_index(entries, "card"@);
    let v = entries[d].1;
    let c = key_index(entries, "cards"@);
    let a = if 0 <= c < entries.len() {
        match entries[c].1 {
            Json::Array(items) => cards_in_list(items@),
            _ => Seq::empty(),
        }
    } else {
        Seq::empty()
    };
    let m = opt_seq(card_of(v)) + cards_below(v);
    let z = cards_below_values(entries, card_list_index(entries), d);
    assert(cards_below(o) =~= a + m + z);
    if let Some(cv) = card_of(v) {
        assert((a + m + z)[a.len() as int] == cv);
    }
    assert forall|x: LovelaceCardView| cards_below(v).contains(x) implies cards_below(o).contains(
        x,
    ) by {
        let k = choose|k: int| 0 <= k < cards_below(v).len() && cards_below(v)[k] == x;
        let off = a.len() + opt_seq(card_of(v)).len();
        assert((a + m + z)[off + k] == x);
    }
}

/// An array holds the cards of its elements, in their order: appending an
/// element appends the cards below it.
pub proof fn lemma_array_cards_in_order(items: Seq<Json>, x: Json)
    ensures
        cards_below_elements(items.push(x)) == cards_below_elements(items) + cards_below(x),
        cards_below_elements(seq![x]) == cards_below(x),
{
    assert(items.push(x).subrange(0, items.len() as int) =~= items);
    let one = seq![x];
    assert(one.subrange(0, 0) =~= Seq::<Json>::empty());
    assert(one[0] == x);
    assert(cards_below_elements(one.subrange(0, 0)) == Seq::<LovelaceCardView>::empty());
    assert(cards_below_elements(one) == cards_below_elements(one.subrange(0, 0)) + cards_below(one[0]));
    assert(Seq::<LovelaceCardView>::empty() + cards_below(x) =~= cards_below(x));
}


/// What lies below the elements of a list is among the cards of the list.
proof fn lemma_elements_within_list(s: Seq<Json>)
    ensures
        forall|x: LovelaceCardView| cards_below_elements(s).contains(x) ==> cards_in_list(s).contains(x),
    decreases s.len(),
{
    if s.len() > 0 {
        let prev = s.subrange(0, s.len() - 1);
        let last = s[s.len() - 1];
        lemma_elements_within_list(prev);
        let head = cards_in_list(prev);
        let tail = opt_seq(card_of(last)) + cards_below(last);
        assert(cards_in_list(s) == head + tail);
        assert(cards_below_elements(s) == cards_below_elements(prev) + cards_below(last));
        assert forall|x: LovelaceCardView| cards_below_elements(s).contains(x) implies cards_in_list(
            s,
        ).contains(x) by {
            let k = choose|k: int| 0 <= k < cards_below_elements(s).len() && cards_below_elements(s)[k] == x;
            let m = cards_below_elements(prev).len();
            if k < m {
                assert(cards_below_elements(prev)[k] == x);
                assert(head.contains(x));
                let h = choose|h: int| 0 <= h < head.len() && head[h] == x;
                assert((head + tail)[h] == x);
            } else {
                assert(cards_below(last)[k - m] == x);
                let off = head.len() + opt_seq(card_of(last)).len();
                assert((head + tail)[off + k - m] == x);
            }
        }
    }
}

/// What lies below the value at position `j` is among what lies below the
/// values, when `j` is neither of the positions searched apart.
proof fn lemma_value_within_values(s: Seq<(String, Json)>, c: int, d: int, j: int)
    requires
        0 <= j < s.len(),
        j != c,
        j != d,
    ensures
        forall|x: LovelaceCardView| cards_below(s[j].1).contains(x) ==> cards_below_values(s, c, d).contains(x),
    decreases s.len(),
{
    let k = s.len() - 1;
    let prev = s.subrange(0, k);
    let head = cards_below_values(prev, c, d);
    let tail = if k == c || k == d {
        Seq::<LovelaceCardView>::empty()
    } else {
        cards_below(s[k].1)
    };
    assert(cards_below_values(s, c, d) == head + tail);
    if j < k {
        assert(prev[j] == s[j]);
        lemma_value_within_values(prev, c, d, j);
        assert forall|x: LovelaceCardView| cards_below(s[j].1).contains(x) implies cards_below_values(
            s,
            c,
            d,
        ).contains(x) by {
            assert(head.contains(x));
            let h = choose|h: int| 0 <= h < head.len() && head[h] == x;
            assert((head + tail)[h] == x);
        }
    } else {
        assert forall|x: LovelaceCardView| cards_below(s[j].1).contains(x) implies cards_below_values(
            s,
            c,
            d,
        ).contains(x) by {
            let h = choose|h: int| 0 <= h < tail.len() && tail[h] == x;
            assert((head + tail)[head.len() + h] == x);
        }
    }
}

/// The search reaches every value of an object: whatever its key and its
/// place, every card found below any value of an object is found below the
/// object.
pub proof fn lemma_every_value_searched(o: Json, j: int)
    requires
        o is Object,
        0 <= j < o->Object_0@.len(),
    ensures
        forall|x: LovelaceCardView|
            cards_below(o->Object_0@[j].1).contains(x) ==> cards_below(o).contains(x),
{
    let e = o->Object_0@;
    lemma_key_index_from(e, "cards"@, 0);
    lemma_key_index_from(e, "card"@, 0);
    let c = key_index(e, "cards"@);
    let d = key_index(e, "card"@);
    let cl = card_list_index(e);
    let a = if 0 <= c < e.len() {
        match e[c].1 {
            Json::Array(items) => cards_in_list(items@),
            _ => Seq::empty(),
        }
    } else {
        Seq::empty()
    };
    let m = if 0 <= d < e.len() {
        opt_seq(card_of(e[d].1)) + cards_below(e[d].1)
    } else {
        Seq::empty()
    };
    let z = cards_below_values(e, cl, d);
    assert(cards_below(o) =~= a + m + z);
    let v = e[j].1;
    if j == cl {
        let items = v->Array_0@;
        assert(cards_below(v) == cards_below_elements(items));
        assert(a == cards_in_list(items));
        lemma_elements_within_list(items);
        assert forall|x: LovelaceCardView| cards_below(v).contains(x) implies cards_below(o).contains(x) by {
            assert(a.contains(x));
            let h = choose|h: int| 0 <= h < a.len() && a[h] == x;
            assert((a + m + z)[h] == x);
        }
    } else if j == d {
        assert forall|x: LovelaceCardView| cards_below(v).contains(x) implies cards_below(o).contains(x) by {
            let h = choose|h: int| 0 <= h < cards_below(v).len() && cards_below(v)[h] == x;
            let off = a.len() + opt_seq(card_of(v)).len();
            assert((a + m + z)[off + h] == x);
        }
    } else {
        lemma_value_within_values(e, cl, d, j);
        assert forall|x: LovelaceCardView| cards_below(v).contains(x) implies cards_below(o).contains(x) by {
            assert(z.contains(x));
            let h = choose|h: int| 0 <= h < z.len() && z[h] == x;
            assert((a + m + z)[a.len() + m.len() + h] == x);
        }
    }
}

} // verus!
