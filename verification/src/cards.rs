//! The OT card data: each card's image and type, and the order of cards by
//! type that the limit lists are printed in.

use std::collections::HashMap;
use vstd::prelude::*;

use crate::text::{
    chars_eq, chars_of, compare_chars, debug_quoted, decimal, lemma_seq_lt_total, push_decimal,
    push_str, quote_debug, seq_lt, string_of, strings_view, Order,
};

verus! {

/// One card of the OT card data.
#[derive(Debug)]
pub struct Card {
    pub id: u32,
    pub image: Option<u32>,
    pub card_type: Option<Vec<String>>,
}

pub struct CardView {
    pub id: u32,
    pub image: Option<u32>,
    pub card_type: Option<Seq<Seq<char>>>,
}

impl View for Card {
    type V = CardView;

    open spec fn view(&self) -> CardView {
        CardView {
            id: self.id,
            image: self.image,
            card_type: match self.card_type {
                Some(t) => Some(strings_view(t@)),
                None => None,
            },
        }
    }
}

pub open spec fn cards_view(v: Seq<Card>) -> Seq<CardView> {
    v.map_values(|c: Card| c@)
}

/// Why a card could not be used.
#[derive(Clone, Copy, Debug, PartialEq, Eq, Structural)]
pub enum CardError {
    /// Two cards of the data share this ID.
    Duplicate(u32),
    /// No card has this ID.
    Missing(u32),
    /// The card has no image ID.
    NoImage(u32),
    /// The card has no type.
    NoType(u32),
    /// The card's type is empty or has an empty part.
    InvalidType(u32),
    /// A monster's type lacks its race or its category.
    InvalidMonsterType(u32),
}

/// The card data, indexed by card ID.
pub struct CardDatabase {
    cards: HashMap<u32, Card>,
}

/// The card with ID `id` in the data `cards`.
pub open spec fn lookup(cards: Map<u32, CardView>, id: u32) -> Option<CardView> {
    if cards.contains_key(id) {
        Some(cards[id])
    } else {
        None
    }
}

/// Card `j` repeats the ID of an earlier card.
pub open spec fn repeats_earlier(cards: Seq<CardView>, j: int) -> bool {
    exists|i: int| 0 <= i < j && cards[i].id == cards[j].id
}

pub open spec fn distinct_ids(cards: Seq<CardView>) -> bool {
    forall|j: int| 0 <= j < cards.len() ==> !#[trigger] repeats_earlier(cards, j)
}

/// The cards of `cards` by their IDs, each entered in turn.
pub open spec fn index_of(cards: Seq<CardView>) -> Map<u32, CardView>
    decreases cards.len(),
{
    if cards.len() == 0 {
        Map::empty()
    } else {
        index_of(cards.drop_last()).insert(cards.last().id, cards.last())
    }
}

/// Some card of `cards` has ID `id`.
pub open spec fn has_id(cards: Seq<CardView>, id: u32) -> bool {
    exists|i: int| 0 <= i < cards.len() && #[trigger] cards[i].id == id
}

/// Indexing cards with distinct IDs holds exactly their IDs, each with its card.
pub proof fn lemma_index_of(cards: Seq<CardView>)
    ensures
        forall|id: u32| #[trigger] index_of(cards).contains_key(id) <==> has_id(cards, id),
        distinct_ids(cards) ==> forall|j: int|
            0 <= j < cards.len() ==> #[trigger] index_of(cards)[cards[j].id] == cards[j],
    decreases cards.len(),
{
    if cards.len() > 0 {
        let init = cards.drop_last();
        lemma_index_of(init);
        let last = cards.last();
        assert(index_of(cards) == index_of(init).insert(last.id, last));
        assert forall|id: u32| #[trigger] index_of(cards).contains_key(id) <==> has_id(cards, id) by {
            assert(index_of(init).contains_key(id) <==> has_id(init, id));
            if has_id(init, id) {
                let i = choose|i: int| 0 <= i < init.len() && #[trigger] init[i].id == id;
                assert(cards[i].id == id);
            }
            if has_id(cards, id) && id != last.id {
                let i = choose|i: int| 0 <= i < cards.len() && #[trigger] cards[i].id == id;
                assert(i != cards.len() - 1);
                assert(init[i].id == id);
            }
            if id == last.id {
                assert(cards[cards.len() - 1].id == id);
            }
        }
        if distinct_ids(cards) {
            assert forall|j: int| 0 <= j < init.len() implies !#[trigger] repeats_earlier(init, j) by {
                assert(!repeats_earlier(cards, j));
                if repeats_earlier(init, j) {
                    let i = choose|i: int| 0 <= i < j && init[i].id == init[j].id;
                    assert(cards[i].id == cards[j].id);
                }
            }
            assert forall|j: int| 0 <= j < cards.len() implies #[trigger] index_of(cards)[cards[j].id]
                == cards[j] by {
                if j < cards.len() - 1 {
                    assert(index_of(init)[init[j].id] == init[j]);
                    assert(init[j] == cards[j]);
                    assert(!repeats_earlier(cards, cards.len() - 1));
                    assert(cards[j].id != cards.last().id);
                }
            }
        }
    }
}

impl View for CardDatabase {
    type V = Map<u32, CardView>;

    closed spec fn view(&self) -> Map<u32, CardView> {
        self.cards@.map_values(|c: Card| c@)
    }
}

/// The sort key of a card: its kind (monster, spell, trap, other), then the
/// rest of its type; for a monster, its category parts and then its race.
pub struct SortKey {
    pub kind: u8,
    pub details: Vec<Vec<char>>,
}

pub struct SortKeyView {
    pub kind: u8,
    pub details: Seq<Seq<char>>,
}

pub open spec fn details_view(v: Seq<Vec<char>>) -> Seq<Seq<char>> {
    v.map_values(|d: Vec<char>| d@)
}

impl View for SortKey {
    type V = SortKeyView;

    open spec fn view(&self) -> SortKeyView {
        SortKeyView { kind: self.kind, details: details_view(self.details@) }
    }
}

pub open spec fn has_empty_part(t: Seq<Seq<char>>) -> bool {
    exists|i: int| 0 <= i < t.len() && #[trigger] t[i].len() == 0
}

/// The sort key of card `id` with type `t`.
pub open spec fn type_key(id: u32, t: Option<Seq<Seq<char>>>) -> Result<SortKeyView, CardError> {
    match t {
        None => Err(CardError::NoType(id)),
        Some(t) => if t.len() == 0 || has_empty_part(t) {
            Err(CardError::InvalidType(id))
        } else if t[0] == "怪兽"@ {
            if t.len() < 3 {
                Err(CardError::InvalidMonsterType(id))
            } else {
                Ok(SortKeyView { kind: 0, details: t.skip(2).push(t[1]) })
            }
        } else {
            Ok(
                SortKeyView {
                    kind: if t[0] == "魔法"@ {
                        1
                    } else if t[0] == "陷阱"@ {
                        2
                    } else {
                        3
                    },
                    details: t.skip(1),
                },
            )
        },
    }
}

/// The sort key of card `id` in the data `cards`.
pub open spec fn key_spec(cards: Map<u32, CardView>, id: u32) -> Result<SortKeyView, CardError> {
    match lookup(cards, id) {
        None => Err(CardError::Missing(id)),
        Some(card) => type_key(id, card.card_type),
    }
}

/// The image ID of card `id` in the data `cards`.
pub open spec fn image_spec(cards: Map<u32, CardView>, id: u32) -> Result<u32, CardError> {
    match lookup(cards, id) {
        None => Err(CardError::Missing(id)),
        Some(card) => match card.image {
            Some(image) => Ok(image),
            None => Err(CardError::NoImage(id)),
        },
    }
}

impl CardDatabase {
    /// Indexes the cards by ID; fails at the first card whose ID was
    /// already seen.
    pub fn from_cards(cards: Vec<Card>) -> (r: Result<CardDatabase, CardError>)
        ensures
            match r {
                Ok(db) => {
                    &&& distinct_ids(cards_view(cards@))
                    &&& db@ == index_of(cards_view(cards@))
                    &&& forall|id: u32| #[trigger] db@.contains_key(id) <==> has_id(cards_view(cards@), id)
                    &&& forall|j: int|
                        #![trigger cards@[j]]
                        0 <= j < cards@.len() ==> db@.contains_key(cards@[j].id) && db@[cards@[j].id]
                            == cards@[j]@
                },
                Err(e) => exists|j: int|
                    0 <= j < cards@.len() && #[trigger] repeats_earlier(cards_view(cards@), j)
                        && e == CardError::Duplicate(cards@[j].id) && forall|k: int|
                        0 <= k < j ==> !repeats_earlier(cards_view(cards@), k),
            },
    {
        broadcast use vstd::std_specs::hash::group_hash_axioms;

        let ghost given = cards@;
        let ghost v = cards_view(cards@);
        let mut index: HashMap<u32, Card> = HashMap::with_capacity(cards.len());
        let ghost mut j: int = 0;
        for card in it: cards.into_iter()
            invariant
                it.seq() == given,
                j == it.index(),
                v == cards_view(given),
                index@.map_values(|c: Card| c@) == index_of(v.take(j)),
                distinct_ids(v.take(j)),
        {
            proof {
                assert(card == given[j]);
                lemma_index_of(v.take(j));
            }
            let id = card.id;
            let ghost before = index@;
            let old_card = index.insert(id, card);
            if old_card.is_some() {
                proof {
                    let pre = v.take(j);
                    assert(before.map_values(|c: Card| c@).contains_key(id));
                    let i = choose|i: int| 0 <= i < pre.len() && #[trigger] pre[i].id == id;
                    assert(v[i].id == v[j].id);
                    assert(repeats_earlier(v, j as int));
                    assert forall|k: int| 0 <= k < j implies !repeats_earlier(v, k) by {
                        assert(!repeats_earlier(pre, k));
                        if repeats_earlier(v, k) {
                            let i2 = choose|i2: int| 0 <= i2 < k && v[i2].id == v[k].id;
                            assert(pre[i2].id == pre[k].id);
                        }
                    }
                }
                return Err(CardError::Duplicate(id));
            }
            proof {
                let pre = v.take(j);
                let post = v.take(j + 1);
                assert(post.drop_last() == pre);
                assert(post.last() == v[j]);
                assert(!before.map_values(|c: Card| c@).contains_key(id));
                assert forall|k: int| 0 <= k < post.len() implies !#[trigger] repeats_earlier(post, k) by {
                    if k < j {
                        assert(!repeats_earlier(pre, k));
                        if repeats_earlier(post, k) {
                            let i2 = choose|i2: int| 0 <= i2 < k && post[i2].id == post[k].id;
                            assert(pre[i2].id == pre[k].id);
                        }
                    } else if repeats_earlier(post, k) {
                        let i2 = choose|i2: int| 0 <= i2 < k && post[i2].id == post[k].id;
                        assert(pre[i2].id == id);
                    }
                }
                assert(index@.map_values(|c: Card| c@) == index_of(post));
            }
            proof {
                j = j + 1;
            }
        }
        proof {
            assert(v.take(j) == v);
            lemma_index_of(v);
        }
        let db = CardDatabase { cards: index };
        assert forall|k: int| #![trigger cards@[k]] 0 <= k < cards@.len() implies db@.contains_key(
            cards@[k].id,
        ) && db@[cards@[k].id] == cards@[k]@ by {
            assert(v[k] == cards@[k]@);
            assert(has_id(v, v[k].id));
        }
        Ok(db)
    }

    /// The card with ID `id`.
    pub fn card(&self, id: u32) -> (r: Result<&Card, CardError>)
        ensures
            match r {
                Ok(card) => lookup(self@, id) == Some(card@),
                Err(e) => lookup(self@, id) is None && e == CardError::Missing(id),
            },
    {
        broadcast use vstd::std_specs::hash::group_hash_axioms;

        match self.cards.get(&id) {
            Some(card) => Ok(card),
            None => Err(CardError::Missing(id)),
        }
    }

    /// The image ID of card `id`.
    pub fn image_id(&self, id: u32) -> (r: Result<u32, CardError>)
        ensures
            r == image_spec(self@, id),
    {
        let card = self.card(id)?;
        match card.image {
            Some(image) => Ok(image),
            None => Err(CardError::NoImage(id)),
        }
    }

    /// The sort key of card `id`.
    pub fn sort_key(&self, id: u32) -> (r: Result<SortKey, CardError>)
        ensures
            match r {
                Ok(key) => key_spec(self@, id) == Ok::<SortKeyView, CardError>(key@),
                Err(e) => key_spec(self@, id) == Err::<SortKeyView, CardError>(e),
            },
    {
        let card = self.card(id)?;
        let parts = match &card.card_type {
            Some(parts) => parts,
            None => {
                return Err(CardError::NoType(id));
            },
        };
        let ghost t = strings_view(parts@);
        assert(card@.card_type == Some(t));
        assert(key_spec(self@, id) == type_key(id, Some(t)));
        if parts.len() == 0 {
            assert(t.len() == 0);
            return Err(CardError::InvalidType(id));
        }
        let mut texts: Vec<Vec<char>> = Vec::new();
        let mut i: usize = 0;
        while i < parts.len()
            invariant
                i <= parts@.len(),
                t == strings_view(parts@),
                key_spec(self@, id) == type_key(id, Some(t)),
                texts@.len() == i,
                forall|k: int| 0 <= k < i ==> (#[trigger] texts@[k])@ == t[k],
                forall|k: int| 0 <= k < i ==> t[k].len() > 0,
            decreases parts@.len() - i,
        {
            let text = chars_of(parts[i].as_str());
            if text.len() == 0 {
                assert(t[i as int].len() == 0);
                return Err(CardError::InvalidType(id));
            }
            texts.push(text);
            i = i + 1;
        }
        assert(!has_empty_part(t));
        let first = &texts[0];
        if chars_eq(first, &chars_of("怪兽")) {
            if texts.len() < 3 {
                return Err(CardError::InvalidMonsterType(id));
            }
            let mut details: Vec<Vec<char>> = Vec::new();
            let mut k: usize = 2;
            while k < texts.len()
                invariant
                    2 <= k <= texts@.len(),
                    texts@.len() == t.len(),
                    t == strings_view(parts@),
                    forall|m: int| 0 <= m < texts@.len() ==> (#[trigger] texts@[m])@ == t[m],
                    details_view(details@) == t.subrange(2, k as int),
                decreases texts@.len() - k,
            {
                let ghost before = details_view(details@);
                details.push(chars_of(parts[k].as_str()));
                assert(details_view(details@) == before.push(t[k as int]));
                assert(t.subrange(2, k + 1) == t.subrange(2, k as int).push(t[k as int]));
                k = k + 1;
            }
            let ghost before = details_view(details@);
            details.push(chars_of(parts[1].as_str()));
            assert(details_view(details@) == before.push(t[1]));
            assert(t.subrange(2, t.len() as int) == t.skip(2));
            Ok(SortKey { kind: 0, details })
        } else {
            let kind: u8 = if chars_eq(first, &chars_of("魔法")) {
                1
            } else if chars_eq(first, &chars_of("陷阱")) {
                2
            } else {
                3
            };
            let mut details: Vec<Vec<char>> = Vec::new();
            let mut k: usize = 1;
            while k < texts.len()
                invariant
                    1 <= k <= texts@.len(),
                    texts@.len() == t.len(),
                    t == strings_view(parts@),
                    forall|m: int| 0 <= m < texts@.len() ==> (#[trigger] texts@[m])@ == t[m],
                    details_view(details@) == t.subrange(1, k as int),
                decreases texts@.len() - k,
            {
                let ghost before = details_view(details@);
                details.push(chars_of(parts[k].as_str()));
                assert(details_view(details@) == before.push(t[k as int]));
                assert(t.subrange(1, k + 1) == t.subrange(1, k as int).push(t[k as int]));
                k = k + 1;
            }
            assert(t.subrange(1, t.len() as int) == t.skip(1));
            Ok(SortKey { kind, details })
        }
    }
}

// ---------------------------------------------------------------------------
// Messages
// ---------------------------------------------------------------------------

/// The quoted parts of a type, separated by `", "`.
pub open spec fn debug_items(ts: Seq<Seq<char>>) -> Seq<char>
    decreases ts.len(),
{
    if ts.len() == 0 {
        seq![]
    } else if ts.len() == 1 {
        debug_quoted(ts[0])
    } else {
        debug_items(ts.drop_last()) + ", "@ + debug_quoted(ts.last())
    }
}

/// A type as `{:?}` shows a list of strings.
pub open spec fn debug_list(ts: Seq<Seq<char>>) -> Seq<char> {
    "["@ + debug_items(ts) + "]"@
}

/// The type of card `id` as shown in messages; a card that is missing or
/// has no type (never the case for a type error) shows as `[]`.
pub open spec fn type_text(cards: Map<u32, CardView>, id: u32) -> Seq<char> {
    match lookup(cards, id) {
        Some(card) => match card.card_type {
            Some(t) => debug_list(t),
            None => debug_list(seq![]),
        },
        None => debug_list(seq![]),
    }
}

/// The message that reports `e` for the card data `cards`.
pub open spec fn error_message_spec(cards: Map<u32, CardView>, e: CardError) -> Seq<char> {
    match e {
        CardError::Duplicate(id) => "duplicate card ID "@ + decimal(id as nat),
        CardError::Missing(id) => "card "@ + decimal(id as nat) + " is missing from OT card data"@,
        CardError::NoImage(id) => "card "@ + decimal(id as nat) + " has no image ID"@,
        CardError::NoType(id) => "card "@ + decimal(id as nat) + " has no type"@,
        CardError::InvalidType(id) => "card "@ + decimal(id as nat) + " has an invalid type: "@
            + type_text(cards, id),
        CardError::InvalidMonsterType(id) => "monster card "@ + decimal(id as nat)
            + " has an invalid type: "@ + type_text(cards, id),
    }
}

impl CardDatabase {
    /// The type of card `id` as shown in messages.
    fn type_text(&self, id: u32) -> (s: Vec<char>)
        ensures
            s@ == type_text(self@, id),
    {
        let mut out: Vec<char> = Vec::new();
        push_str(&mut out, "[");
        if let Ok(card) = self.card(id) {
            if let Some(parts) = &card.card_type {
                let ghost t = strings_view(parts@);
                let mut k: usize = 0;
                while k < parts.len()
                    invariant
                        k <= parts@.len(),
                        t == strings_view(parts@),
                        out@ == "["@ + debug_items(t.take(k as int)),
                    decreases parts@.len() - k,
                {
                    assert(t.take(k + 1).drop_last() == t.take(k as int));
                    assert(t.take(k + 1).last() == parts@[k as int]@);
                    if k > 0 {
                        push_str(&mut out, ", ");
                    } else {
                        assert(t.take(1)[0] == parts@[0]@);
                    }
                    push_str(&mut out, quote_debug(parts[k].as_str()).as_str());
                    k = k + 1;
                }
                assert(t.take(parts@.len() as int) == t);
            } else {
                assert(debug_items(seq![]) == Seq::<char>::empty());
            }
        } else {
            assert(debug_items(seq![]) == Seq::<char>::empty());
        }
        push_str(&mut out, "]");
        out
    }

    /// The message that reports an error about this card data.
    pub fn error_message(&self, e: CardError) -> (m: String)
        ensures
            m@ == error_message_spec(self@, e),
    {
        let mut out: Vec<char> = Vec::new();
        match e {
            CardError::Duplicate(id) => {
                push_str(&mut out, "duplicate card ID ");
                push_decimal(&mut out, id as u64);
            },
            CardError::Missing(id) => {
                push_str(&mut out, "card ");
                push_decimal(&mut out, id as u64);
                push_str(&mut out, " is missing from OT card data");
            },
            CardError::NoImage(id) => {
                push_str(&mut out, "card ");
                push_decimal(&mut out, id as u64);
                push_str(&mut out, " has no image ID");
            },
            CardError::NoType(id) => {
                push_str(&mut out, "card ");
                push_decimal(&mut out, id as u64);
                push_str(&mut out, " has no type");
            },
            CardError::InvalidType(id) => {
                push_str(&mut out, "card ");
                push_decimal(&mut out, id as u64);
                push_str(&mut out, " has an invalid type: ");
                let mut t = self.type_text(id);
                out.append(&mut t);
            },
            CardError::InvalidMonsterType(id) => {
                push_str(&mut out, "monster card ");
                push_decimal(&mut out, id as u64);
                push_str(&mut out, " has an invalid type: ");
                let mut t = self.type_text(id);
                out.append(&mut t);
            },
        }
        string_of(&out)
    }
}

// ---------------------------------------------------------------------------
// Ordering cards by type
// ---------------------------------------------------------------------------

/// Lexicographic order on type details, part by part.
pub open spec fn details_lt(a: Seq<Seq<char>>, b: Seq<Seq<char>>) -> bool
    decreases a.len(),
{
    if a.len() == 0 {
        b.len() > 0
    } else if b.len() == 0 {
        false
    } else if a[0] != b[0] {
        seq_lt(a[0], b[0])
    } else {
        details_lt(a.drop_first(), b.drop_first())
    }
}

/// The order of sort keys: by kind, then by details.
pub open spec fn key_lt(a: SortKeyView, b: SortKeyView) -> bool {
    a.kind < b.kind || (a.kind == b.kind && details_lt(a.details, b.details))
}

pub proof fn lemma_details_lt_total(a: Seq<Seq<char>>, b: Seq<Seq<char>>)
    ensures
        a != b ==> details_lt(a, b) || details_lt(b, a),
        !(details_lt(a, b) && details_lt(b, a)),
    decreases a.len(),
{
    if a.len() > 0 && b.len() > 0 {
        lemma_seq_lt_total(a[0], b[0]);
        if a[0] == b[0] {
            lemma_details_lt_total(a.drop_first(), b.drop_first());
            if a.drop_first() == b.drop_first() {
                assert(a == seq![a[0]] + a.drop_first());
                assert(b == seq![b[0]] + b.drop_first());
            }
        }
    }
    if a.len() == 0 && b.len() == 0 {
        assert(a == b);
    }
}

pub proof fn lemma_details_lt_transitive(a: Seq<Seq<char>>, b: Seq<Seq<char>>, c: Seq<Seq<char>>)
    requires
        details_lt(a, b),
        details_lt(b, c),
    ensures
        details_lt(a, c),
    decreases a.len(),
{
    if a.len() > 0 && b.len() > 0 && c.len() > 0 {
        if a[0] != b[0] && b[0] != c[0] {
            crate::text::lemma_seq_lt_transitive(a[0], b[0], c[0]);
            lemma_seq_lt_total(a[0], c[0]);
        } else if a[0] == b[0] && b[0] == c[0] {
            lemma_details_lt_transitive(a.drop_first(), b.drop_first(), c.drop_first());
        }
    }
}

pub proof fn lemma_key_lt_total(a: SortKeyView, b: SortKeyView)
    ensures
        a != b ==> key_lt(a, b) || key_lt(b, a),
        !(key_lt(a, b) && key_lt(b, a)),
{
    lemma_details_lt_total(a.details, b.details);
}

pub proof fn lemma_key_lt_transitive(a: SortKeyView, b: SortKeyView, c: SortKeyView)
    requires
        key_lt(a, b),
        key_lt(b, c),
    ensures
        key_lt(a, c),
{
    if a.kind == b.kind && b.kind == c.kind {
        lemma_details_lt_transitive(a.details, b.details, c.details);
    }
}

/// Compares two sort keys.
pub fn compare_keys(a: &SortKey, b: &SortKey) -> (r: Order)
    ensures
        r == Order::Less <==> key_lt(a@, b@),
        r == Order::Equal <==> a@ == b@,
        r == Order::Greater <==> key_lt(b@, a@),
{
    proof {
        lemma_key_lt_total(a@, b@);
        lemma_details_lt_total(a@.details, a@.details);
    }
    if a.kind < b.kind {
        return Order::Less;
    }
    if a.kind > b.kind {
        return Order::Greater;
    }
    let ghost da = a@.details;
    let ghost db = b@.details;
    let mut i: usize = 0;
    assert(da.skip(0) == da);
    assert(db.skip(0) == db);
    while i < a.details.len() && i < b.details.len()
        invariant
            i <= a.details@.len(),
            i <= b.details@.len(),
            da == a@.details,
            db == b@.details,
            a.kind == b.kind,
            da.take(i as int) == db.take(i as int),
            details_lt(da, db) == details_lt(da.skip(i as int), db.skip(i as int)),
            details_lt(db, da) == details_lt(db.skip(i as int), da.skip(i as int)),
        decreases a.details@.len() - i,
    {
        let c = compare_chars(&a.details[i], &b.details[i]);
        assert(da.skip(i as int)[0] == da[i as int]);
        assert(db.skip(i as int)[0] == db[i as int]);
        match c {
            Order::Less => {
                proof {
                    lemma_details_lt_total(da, db);
                }
                return Order::Less;
            },
            Order::Greater => {
                proof {
                    lemma_details_lt_total(da, db);
                }
                return Order::Greater;
            },
            Order::Equal => {},
        }
        assert(da.skip(i as int).drop_first() == da.skip(i + 1));
        assert(db.skip(i as int).drop_first() == db.skip(i + 1));
        assert(da.take(i + 1) == da.take(i as int).push(da[i as int]));
        assert(db.take(i + 1) == db.take(i as int).push(db[i as int]));
        i = i + 1;
    }
    proof {
        lemma_details_lt_total(da, db);
    }
    if i < b.details.len() {
        assert(da.skip(i as int).len() == 0);
        Order::Less
    } else if i < a.details.len() {
        assert(db.skip(i as int).len() == 0);
        Order::Greater
    } else {
        assert(da == da.take(i as int));
        assert(db == db.take(i as int));
        assert(a@ == b@);
        Order::Equal
    }
}

pub open spec fn keys_view(keys: Seq<SortKey>) -> Seq<SortKeyView> {
    keys.map_values(|k: SortKey| k@)
}

/// Position `i` comes before position `j` in a stable order by `keys`: its
/// key is smaller, or the keys are equal and it comes first.
pub open spec fn ranks_before(keys: Seq<SortKeyView>, i: int, j: int) -> bool {
    key_lt(keys[i], keys[j]) || (keys[i] == keys[j] && i < j)
}

/// Adjacent positions of `perm[lo..hi]` are in stable order by `keys`.
pub open spec fn sorted_range(keys: Seq<SortKeyView>, perm: Seq<int>, lo: int, hi: int) -> bool {
    forall|k: int| lo <= k < hi - 1 ==> #[trigger] ranks_before(keys, perm[k], perm[k + 1])
}

/// `perm` lists every position of `keys` once, in stable order by `keys`.
pub open spec fn stable_order(keys: Seq<SortKeyView>, perm: Seq<int>) -> bool {
    &&& perm.len() == keys.len()
    &&& forall|k: int| 0 <= k < perm.len() ==> 0 <= #[trigger] perm[k] < keys.len()
    &&& forall|a: int, b: int| 0 <= a < b < perm.len() ==> #[trigger] perm[a] != #[trigger] perm[b]
    &&& sorted_range(keys, perm, 0, perm.len() as int)
}

/// `out` is `ids` stably sorted by the keys `keys` of its elements.
pub open spec fn sorted_by_keys(keys: Seq<SortKeyView>, ids: Seq<u32>, out: Seq<u32>) -> bool {
    exists|perm: Seq<int>|
        #[trigger] stable_order(keys, perm) && out.len() == ids.len() && forall|k: int|
            0 <= k < out.len() ==> out[k] == ids[perm[k]]
}

proof fn lemma_ranks_before_asymmetric(keys: Seq<SortKeyView>, i: int, j: int)
    ensures
        !(ranks_before(keys, i, j) && ranks_before(keys, j, i)),
{
    lemma_key_lt_total(keys[i], keys[j]);
    lemma_key_lt_total(keys[i], keys[i]);
}

proof fn lemma_ranks_before_transitive(keys: Seq<SortKeyView>, i: int, j: int, k: int)
    requires
        ranks_before(keys, i, j),
        ranks_before(keys, j, k),
    ensures
        ranks_before(keys, i, k),
{
    if key_lt(keys[i], keys[j]) && key_lt(keys[j], keys[k]) {
        lemma_key_lt_transitive(keys[i], keys[j], keys[k]);
    }
}

/// In a stable order every earlier position ranks before every later one.
proof fn lemma_stable_order_all_pairs(keys: Seq<SortKeyView>, perm: Seq<int>, a: int, b: int)
    requires
        stable_order(keys, perm),
        0 <= a < b < perm.len(),
    ensures
        ranks_before(keys, perm[a], perm[b]),
    decreases b - a,
{
    let k = b - 1;
    assert(sorted_range(keys, perm, 0, perm.len() as int));
    assert(ranks_before(keys, perm[k], perm[k + 1]));
    assert(k + 1 == b);
    if a < b - 1 {
        lemma_stable_order_all_pairs(keys, perm, a, b - 1);
        lemma_ranks_before_transitive(keys, perm[a], perm[b - 1], perm[b]);
    }
}

/// A stable order lists every position.
proof fn lemma_stable_order_covers(keys: Seq<SortKeyView>, perm: Seq<int>, x: int)
    requires
        stable_order(keys, perm),
        0 <= x < keys.len(),
    ensures
        perm.contains(x),
{
    broadcast use vstd::seq_lib::group_seq_properties;
    broadcast use vstd::set::group_set_axioms;

    let n = keys.len() as int;
    assert(perm.no_duplicates());
    perm.unique_seq_to_set();
    vstd::set_lib::lemma_int_range(0, n);
    let range = vstd::set_lib::set_int_range(0, n);
    assert(perm.to_set().subset_of(range)) by {
        assert forall|y: int| perm.to_set().contains(y) implies range.contains(y) by {
            assert(perm.contains(y));
            let k = choose|k: int| 0 <= k < perm.len() && perm[k] == y;
            assert(0 <= perm[k] < n);
        }
    }
    vstd::set_lib::lemma_subset_equality(perm.to_set(), range);
    assert(range.contains(x));
    assert(perm.to_set().contains(x));
}

/// Two orders of the same positions in which every earlier position ranks
/// before every later one are the same order.
proof fn lemma_ranked_orders_equal(keys: Seq<SortKeyView>, p: Seq<int>, q: Seq<int>)
    requires
        p.len() == q.len(),
        forall|a: int, b: int| 0 <= a < b < p.len() ==> ranks_before(keys, #[trigger] p[a], #[trigger] p[b]),
        forall|a: int, b: int| 0 <= a < b < q.len() ==> ranks_before(keys, #[trigger] q[a], #[trigger] q[b]),
        forall|a: int, b: int| 0 <= a < b < p.len() ==> #[trigger] p[a] != #[trigger] p[b],
        forall|a: int, b: int| 0 <= a < b < q.len() ==> #[trigger] q[a] != #[trigger] q[b],
        forall|x: int| p.contains(x) <==> q.contains(x),
    ensures
        p == q,
    decreases p.len(),
{
    if p.len() > 0 {
        assert(p.contains(p[0]));
        assert(q.contains(q[0]));
        let a = choose|a: int| 0 <= a < p.len() && p[a] == q[0];
        let b = choose|b: int| 0 <= b < q.len() && q[b] == p[0];
        if a > 0 && b > 0 {
            assert(ranks_before(keys, p[0], p[a]));
            assert(ranks_before(keys, q[0], q[b]));
            lemma_ranks_before_asymmetric(keys, p[0], q[0]);
        }
        assert(p[0] == q[0]);
        let p1 = p.drop_first();
        let q1 = q.drop_first();
        assert forall|x: int| p1.contains(x) <==> q1.contains(x) by {
            if p1.contains(x) {
                let i = choose|i: int| 0 <= i < p1.len() && p1[i] == x;
                assert(p[i + 1] == x);
                assert(x != p[0]);
                assert(p.contains(x));
                assert(q.contains(x));
                let j = choose|j: int| 0 <= j < q.len() && q[j] == x;
                assert(j != 0);
                assert(q1[j - 1] == x);
            }
            if q1.contains(x) {
                let i = choose|i: int| 0 <= i < q1.len() && q1[i] == x;
                assert(q[i + 1] == x);
                assert(x != q[0]);
                assert(q.contains(x));
                assert(p.contains(x));
                let j = choose|j: int| 0 <= j < p.len() && p[j] == x;
                assert(j != 0);
                assert(p1[j - 1] == x);
            }
        }
        assert forall|a: int, b: int| 0 <= a < b < p1.len() implies ranks_before(keys, #[trigger] p1[a], #[trigger] p1[b]) by {
            assert(p1[a] == p[a + 1] && p1[b] == p[b + 1]);
        }
        assert forall|a: int, b: int| 0 <= a < b < q1.len() implies ranks_before(keys, #[trigger] q1[a], #[trigger] q1[b]) by {
            assert(q1[a] == q[a + 1] && q1[b] == q[b + 1]);
        }
        assert forall|a: int, b: int| 0 <= a < b < p1.len() implies #[trigger] p1[a] != #[trigger] p1[b] by {
            assert(p1[a] == p[a + 1] && p1[b] == p[b + 1]);
        }
        assert forall|a: int, b: int| 0 <= a < b < q1.len() implies #[trigger] q1[a] != #[trigger] q1[b] by {
            assert(q1[a] == q[a + 1] && q1[b] == q[b + 1]);
        }
        lemma_ranked_orders_equal(keys, p1, q1);
        assert(p == seq![p[0]] + p1);
        assert(q == seq![q[0]] + q1);
    }
}

/// The stable order of positions by their keys is unique.
pub proof fn law_stable_order_unique(keys: Seq<SortKeyView>, p: Seq<int>, q: Seq<int>)
    requires
        stable_order(keys, p),
        stable_order(keys, q),
    ensures
        p == q,
{
    assert forall|a: int, b: int| 0 <= a < b < p.len() implies ranks_before(keys, #[trigger] p[a], #[trigger] p[b]) by {
        lemma_stable_order_all_pairs(keys, p, a, b);
    }
    assert forall|a: int, b: int| 0 <= a < b < q.len() implies ranks_before(keys, #[trigger] q[a], #[trigger] q[b]) by {
        lemma_stable_order_all_pairs(keys, q, a, b);
    }
    assert forall|x: int| p.contains(x) <==> q.contains(x) by {
        if p.contains(x) {
            let i = choose|i: int| 0 <= i < p.len() && p[i] == x;
            lemma_stable_order_covers(keys, q, x);
        }
        if q.contains(x) {
            let i = choose|i: int| 0 <= i < q.len() && q[i] == x;
            lemma_stable_order_covers(keys, p, x);
        }
    }
    lemma_ranked_orders_equal(keys, p, q);
}

/// Sorting by card type has one outcome: two results that are each a stable
/// sort of the same IDs by the same keys are equal.
pub proof fn law_sort_result_unique(
    keys: Seq<SortKeyView>,
    ids: Seq<u32>,
    out1: Seq<u32>,
    out2: Seq<u32>,
)
    requires
        sorted_by_keys(keys, ids, out1),
        sorted_by_keys(keys, ids, out2),
    ensures
        out1 == out2,
{
    let p = choose|perm: Seq<int>|
        #[trigger] stable_order(keys, perm) && out1.len() == ids.len() && forall|k: int|
            0 <= k < out1.len() ==> out1[k] == ids[perm[k]];
    let q = choose|perm: Seq<int>|
        #[trigger] stable_order(keys, perm) && out2.len() == ids.len() && forall|k: int|
            0 <= k < out2.len() ==> out2[k] == ids[perm[k]];
    law_stable_order_unique(keys, p, q);
    assert(out1 =~= out2);
}

/// Sorting a list that is already in order by its keys leaves it as it is.
pub proof fn law_sorted_list_unchanged(keys: Seq<SortKeyView>, ids: Seq<u32>, out: Seq<u32>)
    requires
        keys.len() == ids.len(),
        stable_order(keys, Seq::new(ids.len(), |i: int| i)),
        sorted_by_keys(keys, ids, out),
    ensures
        out == ids,
{
    let identity = Seq::new(ids.len(), |i: int| i);
    assert(sorted_by_keys(keys, ids, ids)) by {
        assert(forall|k: int| 0 <= k < ids.len() ==> ids[k] == ids[identity[k]]);
    }
    law_sort_result_unique(keys, ids, out, ids);
}

/// Sorting twice gives what sorting once gave: the IDs sorted by card type
/// are already in order by their keys.
pub proof fn law_sorting_twice(cards: Map<u32, CardView>, ids: Seq<u32>, once: Seq<u32>, twice: Seq<u32>)
    requires
        sorted_by_keys(keys_of(cards, ids), ids, once),
        sorted_by_keys(keys_of(cards, once), once, twice),
    ensures
        twice == once,
{
    let keys = keys_of(cards, ids);
    let p = choose|perm: Seq<int>|
        #[trigger] stable_order(keys, perm) && once.len() == ids.len() && forall|k: int|
            0 <= k < once.len() ==> once[k] == ids[perm[k]];
    let keys1 = keys_of(cards, once);
    let identity = Seq::new(once.len(), |i: int| i);
    assert forall|k: int| 0 <= k < identity.len() - 1 implies #[trigger] ranks_before(
        keys1,
        identity[k],
        identity[k + 1],
    ) by {
        assert(sorted_range(keys, p, 0, p.len() as int));
        assert(ranks_before(keys, p[k], p[k + 1]));
        assert(keys1[k] == keys[p[k]]);
        assert(keys1[k + 1] == keys[p[k + 1]]);
    }
    assert(stable_order(keys1, identity));
    law_sorted_list_unchanged(keys1, once, twice);
}

/// Card `id` is a monster of `cards` with type `t`, whose parts are all
/// non-empty and which names a race and at least one category.
pub open spec fn is_monster_with_type(cards: Map<u32, CardView>, id: u32, t: Seq<Seq<char>>) -> bool {
    &&& cards.contains_key(id)
    &&& cards[id].card_type == Some(t)
    &&& t.len() >= 3
    &&& t[0] == "怪兽"@
    &&& forall|i: int| 0 <= i < t.len() ==> #[trigger] t[i].len() > 0
}

/// A monster's sort key is of the first kind, and its details are every
/// part of its type after the race (`t[2..]`), in their order, followed by
/// the race (`t[1]`).
pub proof fn law_monster_key(cards: Map<u32, CardView>, id: u32, t: Seq<Seq<char>>)
    requires
        is_monster_with_type(cards, id, t),
    ensures
        key_spec(cards, id) is Ok,
        key_spec(cards, id)->Ok_0.kind == 0,
        key_spec(cards, id)->Ok_0.details.len() == t.len() - 1,
        forall|i: int|
            0 <= i < t.len() - 2 ==> #[trigger] key_spec(cards, id)->Ok_0.details[i] == t[i + 2],
        key_spec(cards, id)->Ok_0.details[t.len() - 2] == t[1],
{
    assert(!has_empty_part(t));
}

/// The sort key of a card that is not a monster: spells, then traps, then
/// any other kind, each by the rest of its type (`t[1..]`) in its order.
pub proof fn law_other_key(cards: Map<u32, CardView>, id: u32, t: Seq<Seq<char>>)
    requires
        cards.contains_key(id),
        cards[id].card_type == Some(t),
        t.len() >= 1,
        t[0] != "怪兽"@,
        forall|i: int| 0 <= i < t.len() ==> #[trigger] t[i].len() > 0,
    ensures
        key_spec(cards, id) is Ok,
        key_spec(cards, id)->Ok_0.kind == (if t[0] == "魔法"@ {
            1u8
        } else if t[0] == "陷阱"@ {
            2u8
        } else {
            3u8
        }),
        key_spec(cards, id)->Ok_0.details.len() == t.len() - 1,
        forall|i: int|
            0 <= i < t.len() - 1 ==> #[trigger] key_spec(cards, id)->Ok_0.details[i] == t[i + 1],
{
    assert(!has_empty_part(t));
}

/// A shorter-or-equal list of categories that comes first keeps coming first
/// when each list is followed by one more part.
proof fn lemma_details_lt_push(a: Seq<Seq<char>>, b: Seq<Seq<char>>, x: Seq<char>, y: Seq<char>)
    requires
        a.len() == b.len(),
        details_lt(a, b),
    ensures
        details_lt(a.push(x), b.push(y)),
    decreases a.len(),
{
    if a.len() > 0 {
        assert(a.push(x)[0] == a[0] && b.push(y)[0] == b[0]);
        if a[0] == b[0] {
            assert(a.push(x).drop_first() == a.drop_first().push(x));
            assert(b.push(y).drop_first() == b.drop_first().push(y));
            lemma_details_lt_push(a.drop_first(), b.drop_first(), x, y);
        }
    }
}

/// Two lists that differ only in their last part are ordered by that part.
proof fn lemma_details_lt_last(c: Seq<Seq<char>>, x: Seq<char>, y: Seq<char>)
    requires
        seq_lt(x, y),
    ensures
        details_lt(c.push(x), c.push(y)),
    decreases c.len(),
{
    crate::text::lemma_seq_lt_irreflexive(x);
    if c.len() > 0 {
        assert(c.push(x)[0] == c[0] && c.push(y)[0] == c[0]);
        assert(c.push(x).drop_first() == c.drop_first().push(x));
        assert(c.push(y).drop_first() == c.drop_first().push(y));
        lemma_details_lt_last(c.drop_first(), x, y);
    } else {
        assert(c.push(x) == seq![x] && c.push(y) == seq![y]);
        assert(seq![x].drop_first().len() == 0);
    }
}

/// Monsters are ordered by their categories before their race: of two
/// monsters with as many categories, the one whose categories come first
/// comes first, whatever their races; with the same categories, the race
/// decides.
pub proof fn law_monsters_by_categories_then_race(
    cards: Map<u32, CardView>,
    x: u32,
    tx: Seq<Seq<char>>,
    y: u32,
    ty: Seq<Seq<char>>,
)
    requires
        is_monster_with_type(cards, x, tx),
        is_monster_with_type(cards, y, ty),
        tx.len() == ty.len(),
    ensures
        details_lt(tx.skip(2), ty.skip(2)) ==> key_lt(
            key_spec(cards, x)->Ok_0,
            key_spec(cards, y)->Ok_0,
        ),
        tx.skip(2) == ty.skip(2) && seq_lt(tx[1], ty[1]) ==> key_lt(
            key_spec(cards, x)->Ok_0,
            key_spec(cards, y)->Ok_0,
        ),
{
    law_monster_key(cards, x, tx);
    law_monster_key(cards, y, ty);
    let kx = key_spec(cards, x)->Ok_0;
    let ky = key_spec(cards, y)->Ok_0;
    assert(kx.details =~= tx.skip(2).push(tx[1]));
    assert(ky.details =~= ty.skip(2).push(ty[1]));
    if details_lt(tx.skip(2), ty.skip(2)) {
        lemma_details_lt_push(tx.skip(2), ty.skip(2), tx[1], ty[1]);
    }
    if tx.skip(2) == ty.skip(2) && seq_lt(tx[1], ty[1]) {
        lemma_details_lt_last(tx.skip(2), tx[1], ty[1]);
    }
}

/// The first card of `ids` without a usable sort key, by its error.
pub open spec fn first_key_error(cards: Map<u32, CardView>, ids: Seq<u32>) -> Option<CardError>
    decreases ids.len(),
{
    if ids.len() == 0 {
        None
    } else {
        match key_spec(cards, ids[0]) {
            Err(e) => Some(e),
            Ok(_) => first_key_error(cards, ids.drop_first()),
        }
    }
}

/// The sort keys of `ids`, where all of them have one.
pub open spec fn keys_of(cards: Map<u32, CardView>, ids: Seq<u32>) -> Seq<SortKeyView> {
    ids.map_values(|id: u32| key_spec(cards, id)->Ok_0)
}

fn precedes(keys: &Vec<SortKey>, i: usize, j: usize) -> (b: bool)
    requires
        i < keys@.len(),
        j < keys@.len(),
    ensures
        b == ranks_before(keys_view(keys@), i as int, j as int),
{
    match compare_keys(&keys[i], &keys[j]) {
        Order::Less => true,
        Order::Equal => i < j,
        Order::Greater => {
            proof {
                lemma_key_lt_total(keys@[i as int]@, keys@[j as int]@);
            }
            false
        },
    }
}

/// The positions `0..n` in stable order by `keys`.
fn stable_permutation(keys: &Vec<SortKey>) -> (perm: Vec<usize>)
    ensures
        stable_order(keys_view(keys@), perm@.map_values(|p: usize| p as int)),
{
    let ghost kv = keys_view(keys@);
    let n = keys.len();
    let mut perm: Vec<usize> = Vec::new();
    let mut p: usize = 0;
    while p < n
        invariant
            p <= n == keys@.len(),
            perm@.len() == p,
            forall|k: int| 0 <= k < p ==> perm@[k] == k,
        decreases n - p,
    {
        perm.push(p);
        p = p + 1;
    }
    if n == 0 {
        assert(perm@.map_values(|p: usize| p as int) =~= Seq::<int>::empty());
        return perm;
    }
    let mut i: usize = 1;
    while i < n
        invariant
            1 <= i <= n == keys@.len(),
            kv == keys_view(keys@),
            perm@.len() == n,
            forall|k: int| 0 <= k < n ==> #[trigger] perm@[k] < n,
            forall|a: int, b: int| 0 <= a < b < n ==> #[trigger] perm@[a] != #[trigger] perm@[b],
            sorted_range(kv, perm@.map_values(|p: usize| p as int), 0, i as int),
        decreases n - i,
    {
        let mut j = i;
        while j > 0 && precedes(keys, perm[j], perm[j - 1])
            invariant
                0 <= j <= i < n == keys@.len(),
                kv == keys_view(keys@),
                perm@.len() == n,
                forall|k: int| 0 <= k < n ==> #[trigger] perm@[k] < n,
                forall|a: int, b: int| 0 <= a < b < n ==> #[trigger] perm@[a] != #[trigger] perm@[b],
                sorted_range(kv, perm@.map_values(|p: usize| p as int), 0, j as int),
                sorted_range(kv, perm@.map_values(|p: usize| p as int), j as int, i + 1),
                0 < j < i ==> ranks_before(kv, perm@[j - 1] as int, perm@[j + 1] as int),
            decreases j,
        {
            let ghost old_perm = perm@;
            let x = perm[j];
            let y = perm[j - 1];
            perm.set(j, y);
            perm.set(j - 1, x);
            proof {
                let pv = perm@.map_values(|p: usize| p as int);
                let ov = old_perm.map_values(|p: usize| p as int);
                assert forall|a: int, b: int| 0 <= a < b < n implies #[trigger] perm@[a]
                    != #[trigger] perm@[b] by {
                    let a0 = if a == j { j - 1 } else if a == j - 1 { j as int } else { a };
                    let b0 = if b == j { j - 1 } else if b == j - 1 { j as int } else { b };
                    assert(perm@[a] == old_perm[a0]);
                    assert(perm@[b] == old_perm[b0]);
                    if a0 < b0 {
                        assert(old_perm[a0] != old_perm[b0]);
                    } else {
                        assert(old_perm[b0] != old_perm[a0]);
                    }
                }
                assert forall|k: int| 0 <= k < j - 1 - 1 implies #[trigger] ranks_before(
                    kv,
                    pv[k],
                    pv[k + 1],
                ) by {
                    assert(pv[k] == ov[k]);
                    assert(pv[k + 1] == ov[k + 1]);
                    assert(ranks_before(kv, ov[k], ov[k + 1]));
                }
                assert forall|k: int| j - 1 <= k < i + 1 - 1 implies #[trigger] ranks_before(
                    kv,
                    pv[k],
                    pv[k + 1],
                ) by {
                    if k == j - 1 {
                    } else if k == j {
                        assert(pv[k] == ov[k - 1]);
                        assert(pv[k + 1] == ov[k + 1]);
                    } else {
                        assert(pv[k] == ov[k]);
                        assert(pv[k + 1] == ov[k + 1]);
                        assert(ranks_before(kv, ov[k], ov[k + 1]));
                    }
                }
                if 0 < j - 1 {
                    let k = j - 2;
                    assert(sorted_range(kv, ov, 0, j as int));
                    assert(ranks_before(kv, ov[k], ov[k + 1]));
                    assert(pv[j - 2] == ov[j - 2]);
                    assert(pv[j as int] == ov[j - 1]);
                }
            }
            j = j - 1;
        }
        proof {
            let pv = perm@.map_values(|p: usize| p as int);
            if j > 0 {
                assert(perm@[j - 1] != perm@[j as int]);
                lemma_key_lt_total(kv[pv[j - 1]], kv[pv[j as int]]);
                assert(ranks_before(kv, pv[j - 1], pv[j as int]));
            }
            assert forall|k: int| 0 <= k < i + 1 - 1 implies #[trigger] ranks_before(
                kv,
                pv[k],
                pv[k + 1],
            ) by {
                if k < j - 1 {
                } else if k == j - 1 {
                } else {
                }
            }
        }
        i = i + 1;
    }
    perm
}

impl CardDatabase {
    /// Orders `ids` by card type: monsters, then spells, then traps, then the
    /// rest, each by the rest of their type; cards with equal keys keep their
    /// order. Fails, leaving `ids` as they were, at the first ID without a
    /// usable key.
    pub fn sort_ids(&self, ids: &mut Vec<u32>) -> (r: Result<(), CardError>)
        ensures
            match r {
                Ok(()) => first_key_error(self@, old(ids)@) is None && sorted_by_keys(
                    keys_of(self@, old(ids)@),
                    old(ids)@,
                    final(ids)@,
                ),
                Err(e) => first_key_error(self@, old(ids)@) == Some(e) && final(ids)@ == old(
                    ids,
                )@,
            },
    {
        let ghost given = ids@;
        let mut keys: Vec<SortKey> = Vec::new();
        let mut k: usize = 0;
        assert(given.skip(0) == given);
        while k < ids.len()
            invariant
                k <= ids@.len(),
                ids@ == given,
                keys@.len() == k,
                forall|m: int| 0 <= m < k ==> key_spec(self@, given[m]) == Ok::<
                    SortKeyView,
                    CardError,
                >((#[trigger] keys@[m])@),
                first_key_error(self@, given) == first_key_error(
                    self@,
                    given.skip(k as int),
                ),
            decreases ids@.len() - k,
        {
            assert(given.skip(k as int)[0] == given[k as int]);
            assert(given.skip(k as int).drop_first() == given.skip(k + 1));
            match self.sort_key(ids[k]) {
                Ok(key) => {
                    keys.push(key);
                },
                Err(e) => {
                    return Err(e);
                },
            }
            k = k + 1;
        }
        assert(given.skip(k as int).len() == 0);
        let ghost kv = keys_of(self@, given);
        assert(keys_view(keys@) == kv);
        let perm = stable_permutation(&keys);
        let ghost pv = perm@.map_values(|p: usize| p as int);
        let mut out: Vec<u32> = Vec::new();
        let mut m: usize = 0;
        while m < perm.len()
            invariant
                m <= perm@.len() == given.len(),
                ids@ == given,
                pv == perm@.map_values(|p: usize| p as int),
                stable_order(kv, pv),
                out@.len() == m,
                forall|q: int| 0 <= q < m ==> out@[q] == given[pv[q]],
            decreases perm@.len() - m,
        {
            assert(0 <= pv[m as int] < kv.len());
            out.push(ids[perm[m]]);
            m = m + 1;
        }
        *ids = out;
        assert(stable_order(kv, pv));
        Ok(())
    }
}
} // verus!
