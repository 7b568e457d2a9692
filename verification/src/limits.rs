//! A year's resolved limit list: six groups of card IDs, ordered by card type.

use vstd::prelude::*;

use crate::cards::{first_key_error, keys_of, sorted_by_keys, CardDatabase, CardError, CardView};
use crate::json::{from_json, json_nested, nested_view, pretty_json, to_pretty_json};
use crate::lf::output::EncodeError;
use crate::paths::join_spec;
use crate::text::{decimal, push_decimal, push_str, string_of};
use crate::years::{normalize, normalized};

verus! {

/// The groups of a year: OCG then TCG, each forbidden, limited, semi-limited.
pub struct YearLimits {
    year: u16,
    path: String,
    groups: Vec<Vec<Vec<u32>>>,
}

pub struct YearLimitsView {
    pub year: u16,
    pub path: Seq<char>,
    pub groups: Seq<Seq<Seq<u32>>>,
}

/// Two regions of three restrictions each.
pub open spec fn well_shaped(g: Seq<Seq<Seq<u32>>>) -> bool {
    g.len() == 2 && g[0].len() == 3 && g[1].len() == 3
}

/// Group `s` of the six, counted region by region.
pub open spec fn slot(g: Seq<Seq<Seq<u32>>>, s: int) -> Seq<u32> {
    g[s / 3][s % 3]
}

impl View for YearLimits {
    type V = YearLimitsView;

    closed spec fn view(&self) -> YearLimitsView {
        YearLimitsView { year: self.year, path: self.path@, groups: nested_view(self.groups) }
    }
}

/// The limit list could not be read.
#[derive(Debug, PartialEq, Eq)]
pub enum LimitsError {
    /// The file at this path is not six lists of card IDs.
    InvalidStructure(String),
}

impl LimitsError {
    /// The message that reports the error.
    pub fn message(&self) -> (m: String)
        ensures
            m@ == match self {
                LimitsError::InvalidStructure(p) => "invalid limit list structure in "@ + p@,
            },
    {
        let mut out: Vec<char> = Vec::new();
        match self {
            LimitsError::InvalidStructure(p) => {
                push_str(&mut out, "invalid limit list structure in ");
                push_str(&mut out, p.as_str());
            },
        }
        string_of(&out)
    }
}

/// The contents of a file are six lists of card IDs.
pub open spec fn valid_list(json: Seq<u8>) -> bool {
    json_nested(json) matches Some(g) && well_shaped(g)
}

/// Where the resolved list of a year is stored.
pub open spec fn limits_path_spec(year: u16) -> Seq<char> {
    join_spec(decimal(year as nat), "data/lf.json"@)
}

/// The resolved list file of a year, relative to the project root.
pub fn limits_path(year: u16) -> (p: String)
    ensures
        p@ == limits_path_spec(year),
{
    let mut y: Vec<char> = Vec::new();
    push_decimal(&mut y, year as u64);
    crate::paths::join(string_of(&y).as_str(), "data/lf.json")
}

/// Reads the resolved list of `year` from the contents of its file.
pub fn load_year(year: u16, json: &[u8]) -> (r: Result<YearLimits, LimitsError>)
    ensures
        match r {
            Ok(limits) => limits@.path == limits_path_spec(year) && limits@.year == year
                && json_nested(json@) == Some(limits@.groups) && well_shaped(limits@.groups),
            Err(LimitsError::InvalidStructure(p)) => p@ == limits_path_spec(year) && !valid_list(
                json@,
            ),
        },
{
    load_path(year, limits_path(year), json)
}

/// Reads a resolved list kept at `path` from the contents of that file.
pub fn load_path(year: u16, path: String, json: &[u8]) -> (r: Result<YearLimits, LimitsError>)
    ensures
        match r {
            Ok(limits) => limits@.path == path@ && limits@.year == year && json_nested(json@)
                == Some(limits@.groups) && well_shaped(limits@.groups),
            Err(LimitsError::InvalidStructure(p)) => p@ == path@ && !valid_list(json@),
        },
{
    let groups = match from_json(json) {
        Ok(groups) => groups,
        Err(_) => {
            return Err(LimitsError::InvalidStructure(path));
        },
    };
    if groups.len() != 2 || groups[0].len() != 3 || groups[1].len() != 3 {
        return Err(LimitsError::InvalidStructure(path));
    }
    Ok(YearLimits { year, path, groups })
}

/// A copy of a list of IDs.
fn copy_ids(v: &Vec<u32>) -> (r: Vec<u32>)
    ensures
        r@ == v@,
{
    let mut r: Vec<u32> = Vec::new();
    let mut i: usize = 0;
    while i < v.len()
        invariant
            i <= v@.len(),
            r@ == v@.take(i as int),
        decreases v@.len() - i,
    {
        r.push(v[i]);
        assert(r@ == v@.take(i + 1));
        i = i + 1;
    }
    assert(v@.take(v@.len() as int) == v@);
    r
}

/// The six groups, counted region by region, as nested lists.
fn nest(flat: Vec<Vec<u32>>) -> (g: Vec<Vec<Vec<u32>>>)
    requires
        flat@.len() == 6,
    ensures
        well_shaped(nested_view(g)),
        forall|s: int| 0 <= s < 6 ==> slot(nested_view(g), s) == (#[trigger] flat@[s])@,
{
    let mut flat = flat;
    let ghost f = flat@;
    let tcg = flat.split_off(3);
    assert(flat@ == f.take(3));
    assert(tcg@ == f.skip(3));
    let g = vec![flat, tcg];
    assert forall|s: int| 0 <= s < 6 implies slot(nested_view(g), s) == (#[trigger] f[s])@ by {
        if s < 3 {
            assert(g@[0]@[s] == f[s]);
        } else {
            assert(g@[1]@[s - 3] == f[s]);
        }
    }
    g
}

/// Group `s` was sorted by card type.
pub open spec fn sorted_slot(cards: Map<u32, CardView>, before: Seq<u32>, after: Seq<u32>) -> bool {
    first_key_error(cards, before) is None && sorted_by_keys(keys_of(cards, before), before, after)
}

impl YearLimits {
    /// Every list has two regions of three restrictions each.
    #[verifier::type_invariant]
    spec fn shaped(self) -> bool {
        well_shaped(nested_view(self.groups))
    }

    /// The year of the list.
    pub fn year(&self) -> (y: u16)
        ensures
            y == self@.year,
    {
        self.year
    }

    /// Where the list is stored.
    pub fn path(&self) -> (p: &String)
        ensures
            p@ == self@.path,
    {
        &self.path
    }

    /// Orders each group by card type (see `CardDatabase::sort_ids`). On an
    /// error the groups before the failing one are sorted and the others are
    /// as they were.
    pub fn sort(&mut self, cards: &CardDatabase) -> (r: Result<(), CardError>)
        ensures
            final(self)@.year == old(self)@.year,
            final(self)@.path == old(self)@.path,
            well_shaped(final(self)@.groups),
            match r {
                Ok(()) => forall|s: int|
                    0 <= s < 6 ==> sorted_slot(
                        cards@,
                        #[trigger] slot(old(self)@.groups, s),
                        slot(final(self)@.groups, s),
                    ),
                Err(e) => exists|f: int|
                    0 <= f < 6 && first_key_error(cards@, #[trigger] slot(old(self)@.groups, f))
                        == Some(e) && slot(final(self)@.groups, f) == slot(old(self)@.groups, f)
                        && (forall|s: int|
                        0 <= s < f ==> sorted_slot(
                            cards@,
                            #[trigger] slot(old(self)@.groups, s),
                            slot(final(self)@.groups, s),
                        )) && (forall|s: int|
                        f < s < 6 ==> #[trigger] slot(final(self)@.groups, s) == slot(
                            old(self)@.groups,
                            s,
                        )),
            },
    {
        proof {
            use_type_invariant(&*self);
        }
        let ghost old_groups = nested_view(self.groups);
        assert(old_groups == old(self)@.groups);
        let mut flat: Vec<Vec<u32>> = Vec::new();
        let mut s: usize = 0;
        let mut failure: Option<CardError> = None;
        while s < 6
            invariant
                s <= 6,
                old_groups == nested_view(self.groups),
                well_shaped(old_groups),
                flat@.len() == s,
                failure is None ==> forall|k: int|
                    0 <= k < s ==> sorted_slot(
                        cards@,
                        #[trigger] slot(old_groups, k),
                        flat@[k]@,
                    ),
                failure matches Some(e) ==> exists|f: int|
                    0 <= f < s && first_key_error(cards@, #[trigger] slot(old_groups, f)) == Some(e)
                        && flat@[f]@ == slot(old_groups, f) && (forall|k: int|
                        0 <= k < f ==> sorted_slot(
                            cards@,
                            #[trigger] slot(old_groups, k),
                            flat@[k]@,
                        )) && (forall|k: int| f < k < s ==> #[trigger] flat@[k]@ == slot(old_groups, k)),
            decreases 6 - s,
        {
            let mut ids = copy_ids(&self.groups[s / 3][s % 3]);
            assert(ids@ == slot(old_groups, s as int));
            if failure.is_none() {
                match cards.sort_ids(&mut ids) {
                    Ok(()) => {},
                    Err(e) => {
                        failure = Some(e);
                    },
                }
            }
            flat.push(ids);
            s = s + 1;
        }
        let ghost fv = flat@;
        self.groups = nest(flat);
        assert forall|k: int| 0 <= k < 6 implies slot(nested_view(self.groups), k) == fv[k]@ by {
            assert(slot(nested_view(self.groups), k) == fv[k]@);
        }
        match failure {
            None => {
                assert forall|k: int| 0 <= k < 6 implies sorted_slot(
                    cards@,
                    #[trigger] slot(old_groups, k),
                    slot(nested_view(self.groups), k),
                ) by {
                    assert(slot(nested_view(self.groups), k) == fv[k]@);
                }
                Ok(())
            },
            Some(e) => Err(e),
        }
    }

    /// All IDs of the list: OCG before TCG, each forbidden, limited,
    /// semi-limited, each in list order.
    pub fn ids(&self) -> (ids: Vec<u32>)
        ensures
            ids@ == all_ids(self@.groups),
    {
        proof {
            use_type_invariant(self);
        }
        let mut out: Vec<u32> = Vec::new();
        let mut s: usize = 0;
        while s < 6
            invariant
                s <= 6,
                well_shaped(nested_view(self.groups)),
                out@ == ids_upto(nested_view(self.groups), s as int),
            decreases 6 - s,
        {
            let group = &self.groups[s / 3][s % 3];
            let ghost before = out@;
            let mut i: usize = 0;
            while i < group.len()
                invariant
                    i <= group@.len(),
                    out@ == before + group@.take(i as int),
                decreases group@.len() - i,
            {
                out.push(group[i]);
                assert(group@.take(i + 1) == group@.take(i as int).push(group@[i as int]));
                i = i + 1;
            }
            assert(group@.take(group@.len() as int) == group@);
            assert(group@ == slot(nested_view(self.groups), s as int));
            s = s + 1;
        }
        out
    }

    /// The contents of the list's file: the groups as pretty-printed JSON
    /// and a newline. Read back (`load_path`), they give the same groups.
    pub fn write_contents(&self) -> (r: Result<Vec<u8>, EncodeError>)
        ensures
            r matches Ok(bytes) && bytes@ == pretty_json(self@.groups).push(0x0au8),
            r matches Ok(bytes) && json_nested(bytes@) == Some(self@.groups) && valid_list(
                bytes@,
            ),
    {
        proof {
            use_type_invariant(self);
        }
        let mut json = match to_pretty_json(&self.groups) {
            Ok(bytes) => bytes,
            Err(_) => {
                return Err(EncodeError);
            },
        };
        json.push(0x0a);
        Ok(json)
    }
}

/// Reads the resolved lists of the distinct years of `years`, in increasing
/// order (`years::normalized`), given the contents of each of their files in
/// that order; the first list in that order that is not six lists of IDs is
/// an error, and then no list is returned.
pub fn load_years(years: &Vec<u16>, contents: &Vec<Vec<u8>>) -> (r: Result<
    Vec<YearLimits>,
    LimitsError,
>)
    requires
        contents@.len() == normalized(years@).len(),
    ensures
        match r {
            Ok(lists) => lists@.len() == normalized(years@).len() && forall|i: int|
                0 <= i < lists@.len() ==> {
                    let l = (#[trigger] lists@[i])@;
                    &&& l.year == normalized(years@)[i]
                    &&& l.path == limits_path_spec(normalized(years@)[i])
                    &&& json_nested(contents@[i]@) == Some(l.groups)
                    &&& well_shaped(l.groups)
                },
            Err(LimitsError::InvalidStructure(p)) => exists|i: int|
                0 <= i < contents@.len() && !valid_list(#[trigger] contents@[i]@) && p@
                    == limits_path_spec(normalized(years@)[i]) && forall|j: int|
                    0 <= j < i ==> valid_list(#[trigger] contents@[j]@),
        },
{
    let ordered = normalize(years);
    let mut lists: Vec<YearLimits> = Vec::new();
    let mut k: usize = 0;
    while k < ordered.len()
        invariant
            ordered@ == normalized(years@),
            k <= ordered@.len() == contents@.len(),
            lists@.len() == k,
            forall|i: int|
                0 <= i < k ==> {
                    let l = (#[trigger] lists@[i])@;
                    &&& l.year == ordered@[i]
                    &&& l.path == limits_path_spec(ordered@[i])
                    &&& json_nested(contents@[i]@) == Some(l.groups)
                    &&& well_shaped(l.groups)
                },
        decreases ordered@.len() - k,
    {
        let limits = match load_year(ordered[k], contents[k].as_slice()) {
            Ok(limits) => limits,
            Err(e) => {
                assert forall|j: int| 0 <= j < k implies valid_list(#[trigger] contents@[j]@) by {
                    assert(json_nested(contents@[j]@) == Some(lists@[j]@.groups));
                }
                return Err(e);
            },
        };
        lists.push(limits);
        k = k + 1;
    }
    Ok(lists)
}

/// The IDs of the first `s` groups, in order.
pub open spec fn ids_upto(g: Seq<Seq<Seq<u32>>>, s: int) -> Seq<u32>
    decreases s,
{
    if s <= 0 {
        seq![]
    } else {
        ids_upto(g, s - 1) + slot(g, s - 1)
    }
}

/// The IDs of all six groups, in order.
pub open spec fn all_ids(g: Seq<Seq<Seq<u32>>>) -> Seq<u32> {
    ids_upto(g, 6)
}

} // verus!
