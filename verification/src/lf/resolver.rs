//! Resolution of card names to card IDs.
//!
//! A card line with an explicit ID keeps it. Otherwise each of its names is
//! looked up; a card with both names resolves only when both give the same
//! ID. The lookups themselves are made by the caller, once per distinct name
//! (see `query_names`), and handed in as `SearchResults`.

use vstd::hash_map::StringHashMap;
use vstd::prelude::*;

use crate::lf::model::{entries_view, CardEntry, CardEntryView, Region, Restriction};
use crate::text::{
    chars_of, compare_chars, decimal, lemma_seq_lt_irreflexive, lemma_seq_lt_total,
    lemma_seq_lt_transitive, push_decimal, push_str, seq_lt, string_of, strings_view, Order,
};

verus! {

/// A card of the list with its resolved ID.
#[derive(Clone, Copy, Debug, PartialEq, Eq, Structural)]
pub struct ResolvedCard {
    pub region: Region,
    pub restriction: Restriction,
    pub id: u32,
}

/// A card line that could not be resolved, and why.
#[derive(Debug, PartialEq, Eq)]
pub struct ResolveDiagnostic {
    pub line_number: usize,
    pub message: String,
}

pub struct ResolveDiagnosticView {
    pub line_number: nat,
    pub message: Seq<char>,
}

impl View for ResolveDiagnostic {
    type V = ResolveDiagnosticView;

    open spec fn view(&self) -> ResolveDiagnosticView {
        ResolveDiagnosticView { line_number: self.line_number as nat, message: self.message@ }
    }
}

pub open spec fn resolve_diagnostics_view(v: Seq<ResolveDiagnostic>) -> Seq<ResolveDiagnosticView> {
    v.map_values(|d: ResolveDiagnostic| d@)
}

/// The resolved cards and the diagnostics, each in the order of the input.
#[derive(Debug)]
pub struct ResolvedList {
    pub cards: Vec<ResolvedCard>,
    pub diagnostics: Vec<ResolveDiagnostic>,
}

/// What a lookup of one name gave: the first matching card ID, no match, or
/// the failure of the lookup.
pub type Outcome = Result<Option<u32>, String>;

pub type OutcomeView = Result<Option<u32>, Seq<char>>;

pub open spec fn outcome_view(o: Outcome) -> OutcomeView {
    match o {
        Ok(found) => Ok(found),
        Err(e) => Err(e@),
    }
}

/// The outcome of each name that was looked up, by name.
pub struct SearchResults {
    outcomes: StringHashMap<Outcome>,
}

impl View for SearchResults {
    type V = Map<Seq<char>, OutcomeView>;

    closed spec fn view(&self) -> Map<Seq<char>, OutcomeView> {
        self.outcomes@.map_values(|o: Outcome| outcome_view(o))
    }
}

impl SearchResults {
    /// No outcomes yet.
    pub fn new() -> (r: SearchResults)
        ensures
            r@ == Map::<Seq<char>, OutcomeView>::empty(),
    {
        let r = SearchResults { outcomes: StringHashMap::new() };
        assert(r@ =~= Map::<Seq<char>, OutcomeView>::empty());
        r
    }

    /// Records the outcome of looking up `name`.
    pub fn insert(&mut self, name: String, outcome: Outcome)
        ensures
            final(self)@ == old(self)@.insert(name@, outcome_view(outcome)),
    {
        self.outcomes.insert(name, outcome);
        assert(self@ =~= old(self)@.insert(name@, outcome_view(outcome)));
    }

    /// The outcome recorded for `name`.
    pub fn get(&self, name: &String) -> (r: Option<&Outcome>)
        ensures
            match r {
                Some(o) => self@.contains_key(name@) && self@[name@] == outcome_view(*o),
                None => !self@.contains_key(name@),
            },
    {
        self.outcomes.get(name.as_str())
    }
}

// ---------------------------------------------------------------------------
// Which names are looked up
// ---------------------------------------------------------------------------

/// A name that a card line asks to look up: one of its names, if it has no
/// explicit ID.
pub open spec fn asks_for(card: CardEntryView, name: Seq<char>) -> bool {
    &&& card.explicit_id is None
    &&& (card.japanese_name == Some(name) || card.english_name == Some(name))
}

/// `x` is one of the names in `v`.
pub open spec fn has_name(v: Seq<String>, x: Seq<char>) -> bool {
    exists|i: int| 0 <= i < v.len() && #[trigger] v[i]@ == x
}

/// Some card line among the first `k` of `cards` asks to look up `x`.
pub open spec fn asked(cards: Seq<CardEntry>, k: int, x: Seq<char>) -> bool {
    exists|c: int| 0 <= c < k && asks_for(#[trigger] cards[c]@, x)
}

pub open spec fn strictly_increasing(v: Seq<String>) -> bool {
    forall|i: int, j: int| 0 <= i < j < v.len() ==> seq_lt(#[trigger] v[i]@, #[trigger] v[j]@)
}

/// Inserts `name` into the sorted, duplicate-free `names`, unless it is there.
fn insert_sorted(names: &mut Vec<String>, name: &String)
    requires
        strictly_increasing(old(names)@),
    ensures
        strictly_increasing(final(names)@),
        forall|x: Seq<char>|
            #[trigger] has_name(final(names)@, x) <==> (x == name@ || has_name(old(names)@, x)),
{
    let key = chars_of(name.as_str());
    let mut i: usize = 0;
    while i < names.len()
        invariant
            i <= names@.len(),
            names@ == old(names)@,
            key@ == name@,
            strictly_increasing(names@),
            forall|j: int| 0 <= j < i ==> seq_lt(#[trigger] names@[j]@, name@),
        ensures
            i <= names@.len(),
            i < names@.len() ==> seq_lt(name@, names@[i as int]@),
        decreases names@.len() - i,
    {
        let current = chars_of(names[i].as_str());
        match compare_chars(&current, &key) {
            Order::Less => {
                i = i + 1;
            },
            Order::Equal => {
                return;
            },
            Order::Greater => {
                break;
            },
        }
    }
    let ghost before = names@;
    proof {
        assert forall|j: int| i <= j < before.len() implies seq_lt(name@, #[trigger] before[j]@) by {
            if j > i {
                lemma_seq_lt_transitive(name@, before[i as int]@, before[j]@);
            }
        }
    }
    names.insert(i, name.clone());
    proof {
        let after = names@;
        assert(after == before.take(i as int).push(*name) + before.skip(i as int));
        assert forall|a: int, b: int| 0 <= a < b < after.len() implies seq_lt(
            #[trigger] after[a]@,
            #[trigger] after[b]@,
        ) by {
            if b < i {
            } else if a < i && b == i {
            } else if a < i && b > i {
                assert(after[b] == before[b - 1]);
                lemma_seq_lt_transitive(before[a]@, name@, before[b - 1]@);
            } else if a == i {
                assert(after[b] == before[b - 1]);
            } else {
                assert(after[a] == before[a - 1]);
                assert(after[b] == before[b - 1]);
            }
        }
        assert forall|x: Seq<char>| #[trigger] has_name(after, x) <==> (x == name@ || has_name(
            before,
            x,
        )) by {
            if exists|k: int| 0 <= k < after.len() && #[trigger] after[k]@ == x {
                let k = choose|k: int| 0 <= k < after.len() && #[trigger] after[k]@ == x;
                if k < i {
                    assert(before[k]@ == x);
                } else if k > i {
                    assert(before[k - 1]@ == x);
                }
            }
            if exists|k: int| 0 <= k < before.len() && #[trigger] before[k]@ == x {
                let k = choose|k: int| 0 <= k < before.len() && #[trigger] before[k]@ == x;
                if k < i {
                    assert(after[k]@ == x);
                } else {
                    assert(after[k + 1]@ == x);
                }
            }
            if x == name@ {
                assert(after[i as int]@ == x);
            }
        }
    }
}

/// The distinct names to look up for `cards`, in ascending order.
pub fn query_names(cards: &Vec<CardEntry>) -> (names: Vec<String>)
    ensures
        strictly_increasing(names@),
        strings_view(names@).no_duplicates(),
        forall|x: Seq<char>| #[trigger] has_name(names@, x) <==> asked(cards@, cards@.len() as int, x),
{
    let mut names: Vec<String> = Vec::new();
    let mut k: usize = 0;
    while k < cards.len()
        invariant
            k <= cards@.len(),
            strictly_increasing(names@),
            forall|x: Seq<char>| #[trigger] has_name(names@, x) <==> asked(cards@, k as int, x),
        decreases cards@.len() - k,
    {
        let card = &cards[k];
        let ghost before = names@;
        if card.explicit_id.is_none() {
            if let Some(name) = &card.japanese_name {
                insert_sorted(&mut names, name);
            }
            if let Some(name) = &card.english_name {
                insert_sorted(&mut names, name);
            }
        }
        proof {
            assert forall|x: Seq<char>| #[trigger] has_name(names@, x) <==> asked(
                cards@,
                k + 1,
                x,
            ) by {
                if asks_for(cards@[k as int]@, x) {
                    assert(0 <= k < k + 1 && asks_for(cards@[k as int]@, x));
                }
                if exists|c: int| 0 <= c < k + 1 && asks_for(#[trigger] cards@[c]@, x) {
                    let c = choose|c: int| 0 <= c < k + 1 && asks_for(#[trigger] cards@[c]@, x);
                    if c < k {
                        assert(exists|c: int| 0 <= c < k && asks_for(#[trigger] cards@[c]@, x));
                    }
                }
                if exists|c: int| 0 <= c < k && asks_for(#[trigger] cards@[c]@, x) {
                    let c = choose|c: int| 0 <= c < k && asks_for(#[trigger] cards@[c]@, x);
                    assert(0 <= c < k + 1 && asks_for(cards@[c]@, x));
                }
            }
        }
        k = k + 1;
    }
    proof {
        let v = strings_view(names@);
        assert forall|a: int, b: int| 0 <= a < v.len() && 0 <= b < v.len() && a != b implies v[a]
            != v[b] by {
            if a < b {
                assert(seq_lt(names@[a]@, names@[b]@));
            } else {
                assert(seq_lt(names@[b]@, names@[a]@));
            }
            lemma_seq_lt_irreflexive(v[a]);
        }
    }
    names
}

// ---------------------------------------------------------------------------
// Resolution
// ---------------------------------------------------------------------------

/// The card ID that a search answers with: that of its first hit, if any.
pub fn first_id(hits: &Vec<u32>) -> (r: Option<u32>)
    ensures
        r == (if hits@.len() > 0 {
            Some(hits@[0])
        } else {
            None::<u32>
        }),
{
    if hits.len() > 0 {
        Some(hits[0])
    } else {
        None
    }
}

/// The ID that the lookup of one name of a card gave, or the message that the
/// card is skipped with.
pub open spec fn resolved_name_spec(
    language: Seq<char>,
    name: Seq<char>,
    results: Map<Seq<char>, OutcomeView>,
) -> Result<u32, Seq<char>> {
    if !results.contains_key(name) {
        Err("missing query result for "@ + language + " name `"@ + name + "`"@)
    } else {
        match results[name] {
            Ok(Some(id)) => Ok(id),
            Ok(None) => Err("no card found for "@ + language + " name `"@ + name + "`"@),
            Err(error) => Err("failed to query "@ + language + " name `"@ + name + "`: "@ + error),
        }
    }
}

/// The ID of a card line, or the message that it is skipped with.
pub open spec fn resolve_card_spec(card: CardEntryView, results: Map<Seq<char>, OutcomeView>) -> Result<
    u32,
    Seq<char>,
> {
    match card.explicit_id {
        Some(id) => Ok(id),
        None => match (card.japanese_name, card.english_name) {
            (Some(japanese), Some(english)) => match resolved_name_spec(
                "Japanese"@,
                japanese,
                results,
            ) {
                Err(message) => Err(message),
                Ok(japanese_id) => match resolved_name_spec("English"@, english, results) {
                    Err(message) => Err(message),
                    Ok(english_id) => if japanese_id != english_id {
                        Err(
                            "name lookup mismatch: Japanese `"@ + japanese + "` returned "@
                                + decimal(japanese_id as nat) + ", English `"@ + english
                                + "` returned "@ + decimal(english_id as nat),
                        )
                    } else {
                        Ok(japanese_id)
                    },
                },
            },
            (Some(japanese), None) => resolved_name_spec("Japanese"@, japanese, results),
            (None, Some(english)) => resolved_name_spec("English"@, english, results),
            (None, None) => Err("Japanese and English names are both empty"@),
        },
    }
}

/// The resolved cards and the diagnostics of a sequence of card lines.
pub open spec fn resolve_spec(cards: Seq<CardEntryView>, results: Map<Seq<char>, OutcomeView>) -> (
    Seq<ResolvedCard>,
    Seq<ResolveDiagnosticView>,
)
    decreases cards.len(),
{
    if cards.len() == 0 {
        (seq![], seq![])
    } else {
        let card = cards[0];
        let rest = resolve_spec(cards.drop_first(), results);
        match resolve_card_spec(card, results) {
            Ok(id) => (
                seq![ResolvedCard { region: card.region, restriction: card.restriction, id }]
                    + rest.0,
                rest.1,
            ),
            Err(message) => (
                rest.0,
                seq![ResolveDiagnosticView { line_number: card.line_number, message }] + rest.1,
            ),
        }
    }
}

/// Every card line ends up once in the output: as a resolved card or as a
/// diagnostic.
pub proof fn law_every_line_accounted(
    cards: Seq<CardEntryView>,
    results: Map<Seq<char>, OutcomeView>,
)
    ensures
        resolve_spec(cards, results).0.len() + resolve_spec(cards, results).1.len() == cards.len(),
    decreases cards.len(),
{
    if cards.len() > 0 {
        law_every_line_accounted(cards.drop_first(), results);
    }
}

/// A card line with an explicit ID is resolved to it, whatever the lookups
/// gave.
pub proof fn law_explicit_id_wins(card: CardEntryView, results: Map<Seq<char>, OutcomeView>)
    requires
        card.explicit_id is Some,
    ensures
        resolve_card_spec(card, results) == Ok::<u32, Seq<char>>(card.explicit_id->0),
{
}

/// A card line without an explicit ID resolves to `id` only when the lookup
/// of each of its names found that very ID: a name whose lookup found no
/// card, failed, is missing or found another ID skips the card.
pub proof fn law_resolved_only_when_every_name_agrees(
    card: CardEntryView,
    results: Map<Seq<char>, OutcomeView>,
    id: u32,
)
    requires
        card.explicit_id is None,
        resolve_card_spec(card, results) == Ok::<u32, Seq<char>>(id),
    ensures
        card.japanese_name is Some || card.english_name is Some,
        card.japanese_name matches Some(j) ==> results.contains_key(j) && results[j] == Ok::<
            Option<u32>,
            Seq<char>,
        >(Some(id)),
        card.english_name matches Some(e) ==> results.contains_key(e) && results[e] == Ok::<
            Option<u32>,
            Seq<char>,
        >(Some(id)),
{
}

/// Conversely, a card line without an explicit ID whose every name was
/// found as `id` resolves to `id`.
pub proof fn law_agreeing_names_resolve(
    card: CardEntryView,
    results: Map<Seq<char>, OutcomeView>,
    id: u32,
)
    requires
        card.explicit_id is None,
        card.japanese_name is Some || card.english_name is Some,
        card.japanese_name matches Some(j) ==> results.contains_key(j) && results[j] == Ok::<
            Option<u32>,
            Seq<char>,
        >(Some(id)),
        card.english_name matches Some(e) ==> results.contains_key(e) && results[e] == Ok::<
            Option<u32>,
            Seq<char>,
        >(Some(id)),
    ensures
        resolve_card_spec(card, results) == Ok::<u32, Seq<char>>(id),
{
}

/// Resolving two runs of card lines one after the other gives what
/// resolving them together gives.
pub proof fn law_resolve_concat(
    a: Seq<CardEntryView>,
    b: Seq<CardEntryView>,
    results: Map<Seq<char>, OutcomeView>,
)
    ensures
        resolve_spec(a + b, results).0 == resolve_spec(a, results).0 + resolve_spec(b, results).0,
        resolve_spec(a + b, results).1 == resolve_spec(a, results).1 + resolve_spec(b, results).1,
    decreases a.len(),
{
    if a.len() > 0 {
        law_resolve_concat(a.drop_first(), b, results);
        assert((a + b).drop_first() == a.drop_first() + b);
        assert((a + b)[0] == a[0]);
    } else {
        assert(a + b == b);
    }
}

/// A single card line is either resolved, keeping its region and
/// restriction, or reported on its line with the message it is skipped
/// with; with `law_resolve_concat` this fixes the resolution of any list.
pub proof fn law_resolve_one_line(card: CardEntryView, results: Map<Seq<char>, OutcomeView>)
    ensures
        resolve_card_spec(card, results) matches Ok(id) ==> resolve_spec(seq![card], results).0
            == seq![ResolvedCard { region: card.region, restriction: card.restriction, id }]
            && resolve_spec(seq![card], results).1.len() == 0,
        resolve_card_spec(card, results) matches Err(message) ==> resolve_spec(
            seq![card],
            results,
        ).0.len() == 0 && resolve_spec(seq![card], results).1 == seq![
            ResolveDiagnosticView { line_number: card.line_number, message },
        ],
{
    let one = seq![card];
    assert(one[0] == card);
    assert(one.drop_first() =~= Seq::<CardEntryView>::empty());
    let rest = resolve_spec(one.drop_first(), results);
    assert(rest.0 =~= Seq::<ResolvedCard>::empty());
    assert(rest.1 =~= Seq::<ResolveDiagnosticView>::empty());
    match resolve_card_spec(card, results) {
        Ok(id) => {
            let r = ResolvedCard { region: card.region, restriction: card.restriction, id };
            assert(seq![r] + rest.0 =~= seq![r]);
        },
        Err(message) => {
            let d = ResolveDiagnosticView { line_number: card.line_number, message };
            assert(seq![d] + rest.1 =~= seq![d]);
        },
    }
}

/// Every resolved card comes from a card line that resolves to its ID, and
/// keeps that line's region and restriction.
pub proof fn law_resolved_cards_keep_their_section(
    cards: Seq<CardEntryView>,
    results: Map<Seq<char>, OutcomeView>,
)
    ensures
        forall|k: int|
            0 <= k < resolve_spec(cards, results).0.len() ==> exists|j: int|
                0 <= j < cards.len() && #[trigger] cards[j].region == (
                #[trigger] resolve_spec(cards, results).0[k]).region && cards[j].restriction
                    == resolve_spec(cards, results).0[k].restriction && resolve_card_spec(
                    cards[j],
                    results,
                ) == Ok::<u32, Seq<char>>(resolve_spec(cards, results).0[k].id),
    decreases cards.len(),
{
    if cards.len() > 0 {
        let rest = cards.drop_first();
        law_resolved_cards_keep_their_section(rest, results);
        let r = resolve_spec(cards, results).0;
        let rr = resolve_spec(rest, results).0;
        assert forall|k: int| 0 <= k < r.len() implies exists|j: int|
            0 <= j < cards.len() && #[trigger] cards[j].region == (#[trigger] r[k]).region
                && cards[j].restriction == r[k].restriction && resolve_card_spec(cards[j], results)
                == Ok::<u32, Seq<char>>(r[k].id) by {
            match resolve_card_spec(cards[0], results) {
                Ok(id) => {
                    if k == 0 {
                        assert(cards[0].region == r[0].region);
                    } else {
                        assert(r[k] == rr[k - 1]);
                        let j = choose|j: int|
                            0 <= j < rest.len() && #[trigger] rest[j].region == (
                            #[trigger] rr[k - 1]).region && rest[j].restriction
                                == rr[k - 1].restriction && resolve_card_spec(rest[j], results)
                                == Ok::<u32, Seq<char>>(rr[k - 1].id);
                        assert(cards[j + 1] == rest[j]);
                    }
                },
                Err(_) => {
                    assert(r[k] == rr[k]);
                    let j = choose|j: int|
                        0 <= j < rest.len() && #[trigger] rest[j].region == (#[trigger] rr[k]).region
                            && rest[j].restriction == rr[k].restriction && resolve_card_spec(
                            rest[j],
                            results,
                        ) == Ok::<u32, Seq<char>>(rr[k].id);
                    assert(cards[j + 1] == rest[j]);
                },
            }
        }
    }
}

/// The line looks up a name that has no recorded outcome.
pub open spec fn lacks_lookup(card: CardEntryView, results: Map<Seq<char>, OutcomeView>) -> bool {
    &&& card.explicit_id is None
    &&& (card.japanese_name matches Some(j) && !results.contains_key(j))
        || (card.english_name matches Some(e) && !results.contains_key(e))
}

/// Looking up the names that `query_names` gives is enough: when each of
/// them has an outcome, no card line lacks one.
pub proof fn law_queried_names_suffice(cards: Seq<CardEntry>, results: Map<Seq<char>, OutcomeView>)
    requires
        forall|x: Seq<char>| asked(cards, cards.len() as int, x) ==> results.contains_key(x),
    ensures
        forall|k: int| 0 <= k < cards.len() ==> !lacks_lookup(#[trigger] cards[k]@, results),
{
    assert forall|k: int| 0 <= k < cards.len() implies !lacks_lookup(#[trigger] cards[k]@, results) by {
        let c = cards[k]@;
        if c.explicit_id is None {
            if let Some(j) = c.japanese_name {
                assert(asks_for(cards[k]@, j));
                assert(asked(cards, cards.len() as int, j));
            }
            if let Some(e) = c.english_name {
                assert(asks_for(cards[k]@, e));
                assert(asked(cards, cards.len() as int, e));
            }
        }
    }
}

/// Resolves the card lines against the lookups made for their names.
pub fn resolve(cards: &Vec<CardEntry>, results: &SearchResults) -> (resolved: ResolvedList)
    ensures
        resolved.cards@ == resolve_spec(entries_view(cards@), results@).0,
        resolve_diagnostics_view(resolved.diagnostics@) == resolve_spec(
            entries_view(cards@),
            results@,
        ).1,
{
    let ghost all = entries_view(cards@);
    let mut out: Vec<ResolvedCard> = Vec::new();
    let mut diagnostics: Vec<ResolveDiagnostic> = Vec::new();
    let mut k: usize = 0;
    assert(all.skip(0) == all);
    while k < cards.len()
        invariant
            k <= cards@.len(),
            all == entries_view(cards@),
            resolve_spec(all, results@).0 == out@ + resolve_spec(all.skip(k as int), results@).0,
            resolve_spec(all, results@).1 == resolve_diagnostics_view(diagnostics@)
                + resolve_spec(all.skip(k as int), results@).1,
        decreases cards@.len() - k,
    {
        let card = &cards[k];
        assert(all.skip(k as int)[0] == card@);
        assert(all.skip(k as int).drop_first() == all.skip(k + 1));
        let ghost before = resolve_diagnostics_view(diagnostics@);
        match resolve_card(card, results) {
            Ok(id) => {
                out.push(ResolvedCard { region: card.region, restriction: card.restriction, id });
            },
            Err(message) => {
                diagnostics.push(ResolveDiagnostic { line_number: card.line_number, message });
                assert(resolve_diagnostics_view(diagnostics@) == before.push(
                    diagnostics@.last()@,
                ));
            },
        }
        k = k + 1;
    }
    assert(all.skip(k as int).len() == 0);
    ResolvedList { cards: out, diagnostics }
}

/// The ID of one card line, or the message that it is skipped with.
pub fn resolve_card(card: &CardEntry, results: &SearchResults) -> (r: Result<u32, String>)
    ensures
        match r {
            Ok(id) => resolve_card_spec(card@, results@) == Ok::<u32, Seq<char>>(id),
            Err(message) => resolve_card_spec(card@, results@) == Err::<u32, Seq<char>>(message@),
        },
{
    if let Some(id) = card.explicit_id {
        return Ok(id);
    }
    match (&card.japanese_name, &card.english_name) {
        (Some(japanese), Some(english)) => {
            let japanese_id = resolved_name("Japanese", japanese, results)?;
            let english_id = resolved_name("English", english, results)?;
            if japanese_id != english_id {
                let mut message: Vec<char> = Vec::new();
                push_str(&mut message, "name lookup mismatch: Japanese `");
                push_str(&mut message, japanese.as_str());
                push_str(&mut message, "` returned ");
                push_decimal(&mut message, japanese_id as u64);
                push_str(&mut message, ", English `");
                push_str(&mut message, english.as_str());
                push_str(&mut message, "` returned ");
                push_decimal(&mut message, english_id as u64);
                return Err(string_of(&message));
            }
            Ok(japanese_id)
        },
        (Some(japanese), None) => resolved_name("Japanese", japanese, results),
        (None, Some(english)) => resolved_name("English", english, results),
        (None, None) => Err(string_of(&chars_of("Japanese and English names are both empty"))),
    }
}

/// The ID that the lookup of `name` gave, or the message that the card is
/// skipped with.
pub fn resolved_name(language: &str, name: &String, results: &SearchResults) -> (r: Result<
    u32,
    String,
>)
    ensures
        match r {
            Ok(id) => resolved_name_spec(language@, name@, results@) == Ok::<u32, Seq<char>>(id),
            Err(message) => resolved_name_spec(language@, name@, results@) == Err::<u32, Seq<char>>(
                message@,
            ),
        },
{
    match results.get(name) {
        Some(Ok(Some(id))) => Ok(*id),
        Some(Ok(None)) => {
            let mut message: Vec<char> = Vec::new();
            push_str(&mut message, "no card found for ");
            push_str(&mut message, language);
            push_str(&mut message, " name `");
            push_str(&mut message, name.as_str());
            push_str(&mut message, "`");
            Err(string_of(&message))
        },
        Some(Err(error)) => {
            let mut message: Vec<char> = Vec::new();
            push_str(&mut message, "failed to query ");
            push_str(&mut message, language);
            push_str(&mut message, " name `");
            push_str(&mut message, name.as_str());
            push_str(&mut message, "`: ");
            push_str(&mut message, error.as_str());
            Err(string_of(&message))
        },
        None => {
            let mut message: Vec<char> = Vec::new();
            push_str(&mut message, "missing query result for ");
            push_str(&mut message, language);
            push_str(&mut message, " name `");
            push_str(&mut message, name.as_str());
            push_str(&mut message, "`");
            Err(string_of(&message))
        },
    }
}

} // verus!
