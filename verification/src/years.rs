//! The World Championship years to work on.

use vstd::prelude::*;

use crate::text::{
    chars_of, decimal, law_decimal_parses, parse_number, parse_unsigned, push_decimal, push_str,
    string_of,
};

verus! {

pub open spec fn increasing(v: Seq<u16>) -> bool {
    forall|i: int, j: int| 0 <= i < j < v.len() ==> v[i] < v[j]
}

/// Inserts `year` into the increasing `out`, unless it is there.
fn insert_year(out: &mut Vec<u16>, year: u16)
    requires
        increasing(old(out)@),
    ensures
        increasing(final(out)@),
        forall|y: u16| final(out)@.contains(y) <==> (y == year || old(out)@.contains(y)),
{
    let mut i: usize = 0;
    while i < out.len() && out[i] < year
        invariant
            i <= out@.len(),
            out@ == old(out)@,
            increasing(out@),
            forall|j: int| 0 <= j < i ==> out@[j] < year,
        decreases out@.len() - i,
    {
        i = i + 1;
    }
    if i < out.len() && out[i] == year {
        return;
    }
    let ghost before = out@;
    out.insert(i, year);
    proof {
        let after = out@;
        assert(after == before.take(i as int).push(year) + before.skip(i as int));
        assert forall|y: u16| after.contains(y) <==> (y == year || before.contains(y)) by {
            if after.contains(y) {
                let k = choose|k: int| 0 <= k < after.len() && after[k] == y;
                if k < i {
                    assert(before[k] == y);
                } else if k > i {
                    assert(before[k - 1] == y);
                }
            }
            if before.contains(y) {
                let k = choose|k: int| 0 <= k < before.len() && before[k] == y;
                if k < i {
                    assert(after[k] == y);
                } else {
                    assert(after[k + 1] == y);
                }
            }
            if y == year {
                assert(after[i as int] == y);
            }
        }
    }
}

/// The years of `years` that are at least `lo`, each once, in increasing
/// order.
pub open spec fn ascending_from(years: Seq<u16>, lo: int) -> Seq<u16>
    decreases 0x10000 - lo,
{
    if lo < 0 || lo >= 0x10000 {
        seq![]
    } else if years.contains(lo as u16) {
        seq![lo as u16] + ascending_from(years, lo + 1)
    } else {
        ascending_from(years, lo + 1)
    }
}

/// The distinct years of `years`, in increasing order.
pub open spec fn normalized(years: Seq<u16>) -> Seq<u16> {
    ascending_from(years, 0)
}

proof fn lemma_ascending_from(years: Seq<u16>, lo: int)
    requires
        0 <= lo,
    ensures
        increasing(ascending_from(years, lo)),
        forall|k: int|
            0 <= k < ascending_from(years, lo).len() ==> lo <= #[trigger] ascending_from(
                years,
                lo,
            )[k],
        forall|y: u16| ascending_from(years, lo).contains(y) <==> (years.contains(y) && lo <= y),
    decreases 0x10000 - lo,
{
    if lo < 0x10000 {
        lemma_ascending_from(years, lo + 1);
        let rest = ascending_from(years, lo + 1);
        let r = ascending_from(years, lo);
        if years.contains(lo as u16) {
            assert(r == seq![lo as u16] + rest);
            assert forall|y: u16| r.contains(y) <==> (years.contains(y) && lo <= y) by {
                if r.contains(y) {
                    let k = choose|k: int| 0 <= k < r.len() && r[k] == y;
                    if k > 0 {
                        assert(rest[k - 1] == y);
                        assert(rest.contains(y));
                    }
                }
                if years.contains(y) && lo <= y {
                    if y == lo {
                        assert(r[0] == y);
                    } else {
                        assert(rest.contains(y));
                        let k = choose|k: int| 0 <= k < rest.len() && rest[k] == y;
                        assert(r[k + 1] == y);
                    }
                }
            }
            assert forall|i: int, j: int| 0 <= i < j < r.len() implies r[i] < r[j] by {
                assert(r[j] == rest[j - 1]);
                if i > 0 {
                    assert(r[i] == rest[i - 1]);
                }
            }
            assert forall|k: int| 0 <= k < r.len() implies lo <= #[trigger] r[k] by {
                if k > 0 {
                    assert(r[k] == rest[k - 1]);
                }
            }
        } else {
            assert forall|y: u16| r.contains(y) <==> (years.contains(y) && lo <= y) by {
                if years.contains(y) && lo <= y && y != lo {
                    assert(rest.contains(y));
                }
            }
        }
    } else {
        assert forall|y: u16| !(years.contains(y) && lo <= y) by {}
    }
}

/// The distinct years of `years`, in increasing order.
pub fn normalize(years: &Vec<u16>) -> (out: Vec<u16>)
    ensures
        out@ == normalized(years@),
        increasing(out@),
        forall|y: u16| out@.contains(y) <==> years@.contains(y),
{
    let mut out: Vec<u16> = Vec::new();
    let mut k: usize = 0;
    while k < years.len()
        invariant
            k <= years@.len(),
            increasing(out@),
            forall|y: u16| out@.contains(y) <==> years@.take(k as int).contains(y),
        decreases years@.len() - k,
    {
        insert_year(&mut out, years[k]);
        assert(years@.take(k + 1) == years@.take(k as int).push(years@[k as int]));
        assert forall|y: u16| out@.contains(y) <==> years@.take(k + 1).contains(y) by {
            let t0 = years@.take(k as int);
            let t1 = years@.take(k + 1);
            if t0.contains(y) {
                let j = choose|j: int| 0 <= j < t0.len() && t0[j] == y;
                assert(t1[j] == y);
            }
            if t1.contains(y) {
                let j = choose|j: int| 0 <= j < t1.len() && t1[j] == y;
                if j < k {
                    assert(t0[j] == y);
                }
            }
            if y == years@[k as int] {
                assert(t1[k as int] == y);
            }
        }
        k = k + 1;
    }
    assert(years@.take(years@.len() as int) == years@);
    proof {
        lemma_ascending_from(years@, 0);
        law_increasing_is_determined(out@, normalized(years@));
    }
    out
}

/// No year was given and none was found.
#[derive(Clone, Copy, Debug, PartialEq, Eq, Structural)]
pub enum YearsError {
    NoneFound,
}

impl YearsError {
    /// The message that reports the error for the project at `root`.
    pub fn message(&self, root: &str) -> (m: String)
        ensures
            m@ == "no World Championship years found; expected [year]/data/lf.list under "@
                + root@,
    {
        let mut out: Vec<char> = Vec::new();
        push_str(&mut out, "no World Championship years found; expected [year]/data/lf.list under ");
        push_str(&mut out, root);
        string_of(&out)
    }
}

/// The years to build: the years given, or else those found on disk; each
/// once, in increasing order.
pub fn resolve(years: Vec<u16>, discovered: Vec<u16>) -> (r: Result<Vec<u16>, YearsError>)
    ensures
        years@.len() > 0 ==> (r matches Ok(out) && increasing(out@) && forall|y: u16|
            out@.contains(y) <==> years@.contains(y)),
        years@.len() == 0 && discovered@.len() == 0 ==> r == Err::<Vec<u16>, YearsError>(
            YearsError::NoneFound,
        ),
        years@.len() == 0 && discovered@.len() > 0 ==> (r matches Ok(out) && increasing(out@)
            && forall|y: u16| out@.contains(y) <==> discovered@.contains(y)),
{
    if years.len() > 0 {
        return Ok(normalize(&years));
    }
    if discovered.len() == 0 {
        return Err(YearsError::NoneFound);
    }
    Ok(normalize(&discovered))
}

/// The year that a directory name stands for, if it is one.
pub fn year_from_name(name: &str) -> (r: Option<u16>)
    ensures
        r == (match parse_unsigned(name@, u16::MAX as nat) {
            Some(n) => Some(n as u16),
            None => None,
        }),
{
    let s = chars_of(name);
    assert(s@.subrange(0, s@.len() as int) == s@);
    match parse_number(&s, 0, s.len(), 0xffff) {
        Some(n) => Some(n as u16),
        None => None,
    }
}

/// The years separated by `", "`.
pub open spec fn display_spec(years: Seq<u16>) -> Seq<char>
    decreases years.len(),
{
    if years.len() == 0 {
        seq![]
    } else if years.len() == 1 {
        decimal(years[0] as nat)
    } else {
        display_spec(years.drop_last()) + ", "@ + decimal(years.last() as nat)
    }
}

/// Lists the years for a message.
pub fn display(years: &Vec<u16>) -> (s: String)
    ensures
        s@ == display_spec(years@),
{
    let mut out: Vec<char> = Vec::new();
    let mut k: usize = 0;
    while k < years.len()
        invariant
            k <= years@.len(),
            out@ == display_spec(years@.take(k as int)),
        decreases years@.len() - k,
    {
        assert(years@.take(k + 1).drop_last() == years@.take(k as int));
        if k > 0 {
            push_str(&mut out, ", ");
        }
        push_decimal(&mut out, years[k] as u64);
        k = k + 1;
    }
    assert(years@.take(years@.len() as int) == years@);
    string_of(&out)
}

/// A year's directory, named by the year, is read back as that year.
pub proof fn law_year_name_roundtrip(year: u16)
    ensures
        parse_unsigned(decimal(year as nat), u16::MAX as nat) == Some(year as nat),
{
    law_decimal_parses(year as nat, u16::MAX as nat);
}

/// Normalizing normalized years changes nothing: they are each once and in
/// increasing order already, and an increasing list is fixed by its years.
pub proof fn law_increasing_is_determined(a: Seq<u16>, b: Seq<u16>)
    requires
        increasing(a),
        increasing(b),
        forall|y: u16| a.contains(y) <==> b.contains(y),
    ensures
        a == b,
    decreases a.len() + b.len(),
{
    if a.len() > 0 && b.len() > 0 {
        let x = a.last();
        let y = b.last();
        assert(a.contains(x));
        assert(b.contains(y));
        assert(b.contains(x));
        assert(a.contains(y));
        let i = choose|i: int| 0 <= i < b.len() && b[i] == x;
        let j = choose|j: int| 0 <= j < a.len() && a[j] == y;
        assert(x == y) by {
            if x < y {
                assert(a[j] <= a[a.len() - 1]);
            } else if y < x {
                assert(b[i] <= b[b.len() - 1]);
            }
        }
        assert forall|z: u16| a.drop_last().contains(z) <==> b.drop_last().contains(z) by {
            if a.drop_last().contains(z) {
                let k = choose|k: int| 0 <= k < a.drop_last().len() && a.drop_last()[k] == z;
                assert(a[k] == z);
                assert(b.contains(z));
                let m = choose|m: int| 0 <= m < b.len() && b[m] == z;
                assert(z < x);
                assert(m != b.len() - 1);
                assert(b.drop_last()[m] == z);
            }
            if b.drop_last().contains(z) {
                let k = choose|k: int| 0 <= k < b.drop_last().len() && b.drop_last()[k] == z;
                assert(b[k] == z);
                assert(a.contains(z));
                let m = choose|m: int| 0 <= m < a.len() && a[m] == z;
                assert(z < y);
                assert(m != a.len() - 1);
                assert(a.drop_last()[m] == z);
            }
        }
        law_increasing_is_determined(a.drop_last(), b.drop_last());
        assert(a == a.drop_last().push(x));
        assert(b == b.drop_last().push(y));
    } else if a.len() > 0 {
        assert(a.contains(a[0]));
    } else if b.len() > 0 {
        assert(b.contains(b[0]));
    }
}

} // verus!
