//! The persistent cache of card-name lookups: for each name that was looked
//! up, the card ID that was found, or that none was.

use vstd::hash_map::StringHashMap;
use vstd::prelude::*;

use crate::lf::resolver::{outcome_view, OutcomeView, SearchResults};
use crate::text::{chars_of, string_of, strings_view};

verus! {

/// The answers that a cache holds.
pub type Answers = Map<Seq<char>, Option<u32>>;

/// The map that recorded answers stand for: a later record of a name
/// replaces an earlier one, as when a map is read from a file.
pub open spec fn answers_of(e: Seq<(String, Option<u32>)>) -> Answers
    decreases e.len(),
{
    if e.len() == 0 {
        Map::empty()
    } else {
        answers_of(e.drop_last()).insert(e.last().0@, e.last().1)
    }
}

/// The answers after storing `result` for `name`: an answer that is there
/// already is kept.
pub open spec fn stored(m: Answers, name: Seq<char>, result: Option<u32>) -> Answers {
    if m.contains_key(name) {
        m
    } else {
        m.insert(name, result)
    }
}

/// The lookups that were made, and their answers, by name; the names are
/// also listed in the order they were first recorded, so that the cache can
/// be saved.
pub struct NameCache {
    answers: StringHashMap<Option<u32>>,
    names: Vec<String>,
}

impl NameCache {
    /// Each answered name is listed once, and only answered names are listed.
    #[verifier::type_invariant]
    closed spec fn listed(self) -> bool {
        &&& strings_view(self.names@).no_duplicates()
        &&& forall|x: Seq<char>|
            #[trigger] self.answers@.contains_key(x) <==> strings_view(self.names@).contains(x)
    }
}

impl View for NameCache {
    type V = Answers;

    closed spec fn view(&self) -> Answers {
        self.answers@
    }
}

/// Recording each of a list of distinct names with its answer in `m` gives
/// the answers of `m` for exactly those names.
proof fn lemma_records(e: Seq<(String, Option<u32>)>, names: Seq<Seq<char>>, m: Answers)
    requires
        names.no_duplicates(),
        e.len() == names.len(),
        forall|i: int| 0 <= i < e.len() ==> (#[trigger] e[i]).0@ == names[i] && e[i].1 == m[names[i]],
    ensures
        forall|x: Seq<char>| #[trigger] answers_of(e).contains_key(x) <==> names.contains(x),
        forall|x: Seq<char>| names.contains(x) ==> #[trigger] answers_of(e)[x] == m[x],
    decreases e.len(),
{
    if e.len() > 0 {
        let ni = names.drop_last();
        assert(ni.no_duplicates()) by {
            assert forall|a: int, b: int| 0 <= a < ni.len() && 0 <= b < ni.len() && a != b
                implies ni[a] != ni[b] by {
                assert(ni[a] == names[a] && ni[b] == names[b]);
            }
        }
        assert forall|i: int| 0 <= i < e.drop_last().len() implies (#[trigger] e.drop_last()[i]).0@
            == ni[i] && e.drop_last()[i].1 == m[ni[i]] by {
            assert(e.drop_last()[i] == e[i]);
        }
        lemma_records(e.drop_last(), ni, m);
        let last = e[e.len() - 1];
        assert(last.0@ == names.last() && last.1 == m[names.last()]);
        assert(answers_of(e) == answers_of(e.drop_last()).insert(names.last(), last.1));
        assert forall|x: Seq<char>| names.contains(x) && x != names.last() implies ni.contains(x) by {
            let i = choose|i: int| 0 <= i < names.len() && names[i] == x;
            assert(ni[i] == x);
        }
        assert forall|x: Seq<char>| ni.contains(x) implies names.contains(x) by {
            let i = choose|i: int| 0 <= i < ni.len() && ni[i] == x;
            assert(names[i] == x);
        }
        assert(names.contains(names.last())) by {
            assert(names[names.len() - 1] == names.last());
        }
        assert forall|x: Seq<char>| #[trigger] answers_of(e).contains_key(x) <==> names.contains(x) by {
            assert(answers_of(e.drop_last()).contains_key(x) <==> ni.contains(x));
        }
        assert forall|x: Seq<char>| names.contains(x) implies #[trigger] answers_of(e)[x] == m[x] by {
            if x != names.last() {
                assert(ni.contains(x));
                assert(answers_of(e.drop_last())[x] == m[x]);
            }
        }
    }
}

impl NameCache {
    /// A cache that holds no answer.
    pub fn new() -> (c: NameCache)
        ensures
            c@ == Map::<Seq<char>, Option<u32>>::empty(),
    {
        let names: Vec<String> = Vec::new();
        assert(strings_view(names@) =~= Seq::<Seq<char>>::empty());
        NameCache { answers: StringHashMap::new(), names }
    }

    /// A cache holding the recorded answers; a later record of a name
    /// replaces an earlier one.
    pub fn from_entries(entries: Vec<(String, Option<u32>)>) -> (c: NameCache)
        ensures
            c@ == answers_of(entries@),
    {
        let mut cache = NameCache::new();
        let mut k: usize = 0;
        while k < entries.len()
            invariant
                k <= entries@.len(),
                cache@ == answers_of(entries@.take(k as int)),
            decreases entries@.len() - k,
        {
            let name = entries[k].0.clone();
            let answer = entries[k].1;
            proof {
                use_type_invariant(&cache);
                assert(entries@.take(k + 1).drop_last() == entries@.take(k as int));
                assert(entries@.take(k + 1).last() == entries@[k as int]);
            }
            cache.put(name, answer);
            k = k + 1;
        }
        assert(entries@.take(entries@.len() as int) == entries@);
        cache
    }

    /// Records `answer` for `name`, replacing an answer that is there.
    fn put(&mut self, name: String, answer: Option<u32>)
        ensures
            final(self)@ == old(self)@.insert(name@, answer),
    {
        let mut taken = NameCache::new();
        std::mem::swap(self, &mut taken);
        proof {
            use_type_invariant(&taken);
        }
        let NameCache { mut answers, mut names } = taken;
        if !answers.contains_key(name.as_str()) {
            let ghost before = strings_view(names@);
            names.push(name.clone());
            assert(strings_view(names@) == before.push(name@));
            assert(strings_view(names@).no_duplicates()) by {
                assert forall|a: int, b: int|
                    0 <= a < before.len() + 1 && 0 <= b < before.len() + 1 && a != b implies
                    before.push(name@)[a] != before.push(name@)[b] by {
                    if a < before.len() && b < before.len() {
                    } else if a == before.len() {
                        assert(before.contains(before[b]));
                    } else {
                        assert(before.contains(before[a]));
                    }
                }
            }
            assert forall|x: Seq<char>| before.push(name@).contains(x) <==> (before.contains(x)
                || x == name@) by {
                if before.push(name@).contains(x) && x != name@ {
                    let i = choose|i: int| 0 <= i < before.len() + 1 && before.push(name@)[i] == x;
                    assert(before[i] == x);
                }
                if before.contains(x) {
                    let i = choose|i: int| 0 <= i < before.len() && before[i] == x;
                    assert(before.push(name@)[i] == x);
                }
                assert(before.push(name@)[before.len() as int] == name@);
            }
        }
        answers.insert(name, answer);
        *self = NameCache { answers, names };
    }

    /// The answer recorded for `name`, if it was looked up.
    pub fn cached(&self, name: &str) -> (r: Option<Option<u32>>)
        ensures
            r == (if self@.contains_key(name@) {
                Some(self@[name@])
            } else {
                None::<Option<u32>>
            }),
    {
        match self.answers.get(name) {
            Some(answer) => Some(*answer),
            None => None,
        }
    }

    /// Records `result` as the answer for `name` unless an answer is there
    /// already, and gives back the answer that the cache now holds.
    pub fn store(&mut self, name: &str, result: Option<u32>) -> (answer: Option<u32>)
        ensures
            final(self)@ == stored(old(self)@, name@, result),
            final(self)@.contains_key(name@),
            answer == final(self)@[name@],
    {
        match self.cached(name) {
            Some(answer) => answer,
            None => {
                self.put(string_of(&chars_of(name)), result);
                result
            },
        }
    }

    /// The records, to be saved: each answered name once with its answer.
    pub fn entries(&self) -> (e: Vec<(String, Option<u32>)>)
        ensures
            answers_of(e@) == self@,
    {
        proof {
            use_type_invariant(self);
        }
        let ghost names = strings_view(self.names@);
        let mut out: Vec<(String, Option<u32>)> = Vec::new();
        let mut k: usize = 0;
        while k < self.names.len()
            invariant
                k <= self.names@.len(),
                names == strings_view(self.names@),
                forall|x: Seq<char>| #[trigger] self.answers@.contains_key(x) <==> names.contains(x),
                out@.len() == k,
                forall|i: int|
                    0 <= i < k ==> (#[trigger] out@[i]).0@ == names[i] && out@[i].1
                        == self.answers@[names[i]],
            decreases self.names@.len() - k,
        {
            let name = self.names[k].clone();
            proof {
                assert(names.contains(names[k as int]));
            }
            let answer = match self.answers.get(name.as_str()) {
                Some(a) => *a,
                None => None,
            };
            out.push((name, answer));
            k = k + 1;
        }
        proof {
            lemma_records(out@, names, self.answers@);
            assert(answers_of(out@) =~= self.answers@);
        }
        out
    }
}

/// The names of `names` that `m` holds no answer for, in order.
pub open spec fn uncached(names: Seq<Seq<char>>, m: Answers) -> Seq<Seq<char>>
    decreases names.len(),
{
    if names.len() == 0 {
        seq![]
    } else if m.contains_key(names.last()) {
        uncached(names.drop_last(), m)
    } else {
        uncached(names.drop_last(), m).push(names.last())
    }
}

/// The outcomes that the cache gives for `names`: each name it holds an
/// answer for, found with that answer.
pub open spec fn cached_outcomes(names: Seq<Seq<char>>, m: Answers) -> Map<Seq<char>, OutcomeView>
    decreases names.len(),
{
    if names.len() == 0 {
        Map::empty()
    } else if m.contains_key(names.last()) {
        cached_outcomes(names.drop_last(), m).insert(names.last(), Ok(m[names.last()]))
    } else {
        cached_outcomes(names.drop_last(), m)
    }
}

impl NameCache {
    /// Splits the names to look up into the outcomes that the cache gives,
    /// and the names it holds no answer for, which are to be asked for.
    pub fn lookups(&self, names: &Vec<String>) -> (r: (SearchResults, Vec<String>))
        ensures
            r.0@ == cached_outcomes(strings_view(names@), self@),
            strings_view(r.1@) == uncached(strings_view(names@), self@),
    {
        let ghost all = strings_view(names@);
        let mut results = SearchResults::new();
        let mut ask: Vec<String> = Vec::new();
        let mut k: usize = 0;
        while k < names.len()
            invariant
                k <= names@.len(),
                all == strings_view(names@),
                results@ == cached_outcomes(all.take(k as int), self@),
                strings_view(ask@) == uncached(all.take(k as int), self@),
            decreases names@.len() - k,
        {
            let ghost t = all.take(k + 1);
            assert(t.drop_last() == all.take(k as int));
            assert(t.last() == names@[k as int]@);
            match self.cached(names[k].as_str()) {
                Some(answer) => {
                    results.insert(names[k].clone(), Ok(answer));
                },
                None => {
                    let ghost before = ask@;
                    ask.push(names[k].clone());
                    assert(strings_view(ask@) == strings_view(before).push(names@[k as int]@));
                },
            }
            k = k + 1;
        }
        assert(all.take(names@.len() as int) == all);
        (results, ask)
    }

    /// Records what the card API answered for `name`: an answer is stored
    /// (an earlier one is kept) and the answer that the cache then holds is
    /// the outcome; a failed request is the outcome as it is, and is not
    /// stored.
    pub fn record(
        &mut self,
        results: &mut SearchResults,
        name: String,
        answer: Result<Option<u32>, String>,
    )
        ensures
            match answer {
                Ok(found) => final(self)@ == stored(old(self)@, name@, found) && final(results)@
                    == old(results)@.insert(name@, Ok(final(self)@[name@])),
                Err(message) => final(self)@ == old(self)@ && final(results)@
                    == old(results)@.insert(name@, Err(message@)),
            },
    {
        match answer {
            Ok(found) => {
                let kept = self.store(name.as_str(), found);
                results.insert(name, Ok(kept));
            },
            Err(message) => {
                let outcome: Result<Option<u32>, String> = Err(message);
                assert(outcome_view(outcome) == Err::<Option<u32>, Seq<char>>(message@));
                results.insert(name, outcome);
            },
        }
    }
}

/// Exactly the names that the cache holds no answer for are asked for: a
/// name answered from the cache is not looked up again.
pub proof fn law_only_uncached_names_are_asked(names: Seq<Seq<char>>, m: Answers, x: Seq<char>)
    ensures
        uncached(names, m).contains(x) <==> (names.contains(x) && !m.contains_key(x)),
        cached_outcomes(names, m).contains_key(x) <==> (names.contains(x) && m.contains_key(x)),
        cached_outcomes(names, m).contains_key(x) ==> cached_outcomes(names, m)[x] == Ok::<
            Option<u32>,
            Seq<char>,
        >(m[x]),
    decreases names.len(),
{
    if names.len() > 0 {
        let init = names.drop_last();
        law_only_uncached_names_are_asked(init, m, x);
        assert(names == init.push(names.last()));
        if names.contains(x) && x != names.last() {
            let i = choose|i: int| 0 <= i < names.len() && names[i] == x;
            assert(init[i] == x);
        }
        if init.contains(x) {
            let i = choose|i: int| 0 <= i < init.len() && init[i] == x;
            assert(names[i] == x);
        }
        if x == names.last() {
            assert(names[names.len() - 1] == x);
            if !m.contains_key(x) {
                let u = uncached(init, m);
                assert(uncached(names, m) == u.push(x));
                assert(uncached(names, m)[u.len() as int] == x);
            }
        }
        let u = uncached(init, m);
        if uncached(names, m).contains(x) && !u.contains(x) {
            let i = choose|i: int| 0 <= i < uncached(names, m).len() && uncached(names, m)[i] == x;
            assert(i == u.len());
        }
        if u.contains(x) {
            let i = choose|i: int| 0 <= i < u.len() && u[i] == x;
            assert(uncached(names, m)[i] == x);
        }
    }
}

/// Each name is asked for at most once: when the names to look up are
/// distinct (as `query_names` gives them), so are those left to ask for.
pub proof fn law_each_name_asked_once(names: Seq<Seq<char>>, m: Answers)
    requires
        names.no_duplicates(),
    ensures
        uncached(names, m).no_duplicates(),
    decreases names.len(),
{
    if names.len() > 0 {
        let init = names.drop_last();
        let x = names.last();
        assert(init.no_duplicates()) by {
            assert forall|a: int, b: int| 0 <= a < init.len() && 0 <= b < init.len() && a != b
                implies init[a] != init[b] by {
                assert(init[a] == names[a] && init[b] == names[b]);
            }
        }
        law_each_name_asked_once(init, m);
        if !m.contains_key(x) {
            law_only_uncached_names_are_asked(init, m, x);
            if init.contains(x) {
                let k = choose|k: int| 0 <= k < init.len() && init[k] == x;
                assert(names[k] == names[names.len() - 1]);
            }
            let u = uncached(init, m);
            assert(uncached(names, m) == u.push(x));
            assert forall|a: int, b: int|
                0 <= a < u.len() + 1 && 0 <= b < u.len() + 1 && a != b implies u.push(x)[a]
                != u.push(x)[b] by {
                if a < u.len() && b < u.len() {
                } else if a == u.len() {
                    assert(u.contains(u[b]));
                } else {
                    assert(u.contains(u[a]));
                }
            }
        }
    }
}

/// Storing answers a later read: the cache then holds an answer for the
/// name, the earlier one if there was one and otherwise the one stored.
pub proof fn law_read_after_store(m: Answers, name: Seq<char>, result: Option<u32>)
    ensures
        stored(m, name, result).contains_key(name),
        stored(m, name, result)[name] == (if m.contains_key(name) {
            m[name]
        } else {
            result
        }),
{
}

/// A second store of the same name changes nothing, whatever it stores.
pub proof fn law_store_keeps_first(
    m: Answers,
    name: Seq<char>,
    first: Option<u32>,
    second: Option<u32>,
)
    ensures
        stored(stored(m, name, first), name, second) == stored(m, name, first),
{
}

/// Storing one name leaves the answers for every other name as they were.
pub proof fn law_store_touches_one_name(
    m: Answers,
    name: Seq<char>,
    result: Option<u32>,
    other: Seq<char>,
)
    requires
        other != name,
    ensures
        stored(m, name, result).contains_key(other) == m.contains_key(other),
        m.contains_key(other) ==> stored(m, name, result)[other] == m[other],
{
}

} // verus!
