//! Filling the site's HTML templates.
//!
//! A template holds placeholders `{{name}}`. Rendering replaces every
//! occurrence of each given name's placeholder with its value; a name whose
//! placeholder does not occur, or a `{{` left over afterwards, is an error.

use vstd::prelude::*;

use crate::text::{
    chars_of, decimal, digit_char, push_decimal, push_range, push_str, range_eq, string_of,
};

verus! {

/// The first position at or after `i` where `p` occurs in `s`.
pub open spec fn find_from(s: Seq<char>, p: Seq<char>, i: int) -> Option<int>
    decreases s.len() - i,
{
    if i < 0 || i + p.len() > s.len() {
        None
    } else if s.subrange(i, i + p.len()) == p {
        Some(i)
    } else if i >= s.len() {
        None
    } else {
        find_from(s, p, i + 1)
    }
}

pub proof fn lemma_find_from(s: Seq<char>, p: Seq<char>, i: int)
    ensures
        find_from(s, p, i) matches Some(j) ==> i <= j && j + p.len() <= s.len() && s.subrange(
            j,
            j + p.len(),
        ) == p,
    decreases s.len() - i,
{
    if !(i < 0 || i + p.len() > s.len()) && s.subrange(i, i + p.len()) != p && i < s.len() {
        lemma_find_from(s, p, i + 1);
    }
}

proof fn lemma_substitute_err(t: Seq<char>, values: Seq<(Seq<char>, Seq<char>)>, k: int, m: int)
    requires
        0 <= k <= m,
        substitute(t, values, k) is Err,
    ensures
        substitute(t, values, m) == substitute(t, values, k),
    decreases m - k,
{
    if m > k {
        lemma_substitute_err(t, values, k, m - 1);
    }
}

/// The first position where `p` occurs in `s` (`str::find`).
pub open spec fn find(s: Seq<char>, p: Seq<char>) -> Option<int> {
    find_from(s, p, 0)
}

/// `s` with each occurrence of the non-empty `p`, found left to right without
/// overlap, replaced by `v` (`str::replace`).
pub open spec fn replace(s: Seq<char>, p: Seq<char>, v: Seq<char>) -> Seq<char>
    decreases s.len(),
{
    if p.len() == 0 || s.len() < p.len() {
        s
    } else if s.take(p.len() as int) == p {
        v + replace(s.skip(p.len() as int), p, v)
    } else {
        seq![s[0]] + replace(s.drop_first(), p, v)
    }
}

/// The placeholder of a name.
pub open spec fn placeholder(name: Seq<char>) -> Seq<char> {
    "{{"@ + name + "}}"@
}

/// Why a template could not be rendered.
#[derive(Debug, PartialEq, Eq)]
pub enum TemplateError {
    /// The placeholder of a given name does not occur.
    MissingPlaceholder(String),
    /// A placeholder is left after all names were replaced.
    UnresolvedPlaceholder(String),
}

impl TemplateError {
    /// The message that reports the error.
    pub fn message(&self) -> (m: String)
        ensures
            m@ == match self {
                TemplateError::MissingPlaceholder(p) => "site template is missing placeholder "@
                    + p@,
                TemplateError::UnresolvedPlaceholder(p) =>
                    "site template contains unresolved placeholder "@ + p@,
            },
    {
        let mut out: Vec<char> = Vec::new();
        match self {
            TemplateError::MissingPlaceholder(p) => {
                push_str(&mut out, "site template is missing placeholder ");
                push_str(&mut out, p.as_str());
            },
            TemplateError::UnresolvedPlaceholder(p) => {
                push_str(&mut out, "site template contains unresolved placeholder ");
                push_str(&mut out, p.as_str());
            },
        }
        string_of(&out)
    }
}

pub enum TemplateErrorView {
    MissingPlaceholder(Seq<char>),
    UnresolvedPlaceholder(Seq<char>),
}

impl View for TemplateError {
    type V = TemplateErrorView;

    open spec fn view(&self) -> TemplateErrorView {
        match self {
            TemplateError::MissingPlaceholder(p) => TemplateErrorView::MissingPlaceholder(p@),
            TemplateError::UnresolvedPlaceholder(p) => TemplateErrorView::UnresolvedPlaceholder(p@),
        }
    }
}

/// The template with the first `k` values substituted, or the first error.
pub open spec fn substitute(t: Seq<char>, values: Seq<(Seq<char>, Seq<char>)>, k: int) -> Result<
    Seq<char>,
    TemplateErrorView,
>
    decreases k,
{
    if k <= 0 {
        Ok(t)
    } else {
        match substitute(t, values, k - 1) {
            Err(e) => Err(e),
            Ok(out) => {
                let p = placeholder(values[k - 1].0);
                if find(out, p) is None {
                    Err(TemplateErrorView::MissingPlaceholder(p))
                } else {
                    Ok(replace(out, p, values[k - 1].1))
                }
            },
        }
    }
}

/// What is left of a placeholder from its `{{` on: up to and including the
/// next `}}`, or to the end.
pub open spec fn leftover(out: Seq<char>, start: int) -> Seq<char> {
    let rest = out.skip(start);
    match find(rest, "}}"@) {
        Some(end) => rest.take(end + "}}"@.len()),
        None => rest,
    }
}

/// The rendered template, or why it cannot be rendered.
pub open spec fn render_spec(t: Seq<char>, values: Seq<(Seq<char>, Seq<char>)>) -> Result<
    Seq<char>,
    TemplateErrorView,
> {
    match substitute(t, values, values.len() as int) {
        Err(e) => Err(e),
        Ok(out) => match find(out, "{{"@) {
            Some(start) => Err(TemplateErrorView::UnresolvedPlaceholder(leftover(out, start))),
            None => Ok(out),
        },
    }
}

pub open spec fn pairs_view(values: Seq<(String, String)>) -> Seq<(Seq<char>, Seq<char>)> {
    values.map_values(|p: (String, String)| (p.0@, p.1@))
}

pub open spec fn render_result_view(r: Result<String, TemplateError>) -> Result<
    Seq<char>,
    TemplateErrorView,
> {
    match r {
        Ok(s) => Ok(s@),
        Err(e) => Err(e@),
    }
}

/// The first position at or after `from` where `p` occurs in `s`.
fn find_chars(s: &Vec<char>, p: &Vec<char>, from: usize) -> (r: Option<usize>)
    requires
        from <= s@.len(),
    ensures
        match r {
            Some(i) => find_from(s@, p@, from as int) == Some(i as int),
            None => find_from(s@, p@, from as int) is None,
        },
{
    let mut i = from;
    while i <= s.len() && p.len() <= s.len() - i
        invariant
            from <= i <= s@.len() + 1,
            find_from(s@, p@, from as int) == find_from(s@, p@, i as int),
        decreases s@.len() + 1 - i,
    {
        assert(p@.len() == 0 ==> s@.subrange(i as int, i as int) == p@);
        if range_eq(s, i, i + p.len(), p) {
            return Some(i);
        }
        i = i + 1;
    }
    None
}

/// Replaces each occurrence of the non-empty `p` in `s` by `v`.
fn replace_chars(s: &Vec<char>, p: &Vec<char>, v: &Vec<char>) -> (r: Vec<char>)
    requires
        p@.len() > 0,
    ensures
        r@ == replace(s@, p@, v@),
{
    let mut out: Vec<char> = Vec::new();
    let mut i: usize = 0;
    assert(s@.skip(0) == s@);
    while i < s.len()
        invariant
            i <= s@.len(),
            p@.len() > 0,
            replace(s@, p@, v@) == out@ + replace(s@.skip(i as int), p@, v@),
        decreases s@.len() - i,
    {
        let ghost rest = s@.skip(i as int);
        if p.len() <= s.len() - i && range_eq(s, i, i + p.len(), p) {
            assert(rest.take(p@.len() as int) == s@.subrange(i as int, i + p@.len()));
            assert(rest.skip(p@.len() as int) == s@.skip(i + p@.len()));
            push_range(&mut out, v, 0, v.len());
            assert(v@.subrange(0, v@.len() as int) == v@);
            i = i + p.len();
        } else {
            if p.len() <= s.len() - i {
                assert(rest.take(p@.len() as int) == s@.subrange(i as int, i + p@.len()));
            }
            assert(rest.drop_first() == s@.skip(i + 1));
            out.push(s[i]);
            i = i + 1;
        }
    }
    assert(s@.skip(i as int).len() == 0);
    out
}

/// `p` occurs in `s` at position `j`.
pub open spec fn occurs_at(s: Seq<char>, p: Seq<char>, j: int) -> bool {
    0 <= j && j + p.len() <= s.len() && s.subrange(j, j + p.len()) == p
}

proof fn lemma_find_from_none(s: Seq<char>, p: Seq<char>, i: int)
    requires
        0 <= i,
        find_from(s, p, i) is None,
    ensures
        forall|j: int| i <= j ==> !#[trigger] occurs_at(s, p, j),
    decreases s.len() - i,
{
    if i + p.len() <= s.len() && i < s.len() {
        lemma_find_from_none(s, p, i + 1);
    }
}

/// A rendered page holds no placeholder: no `{{` is left anywhere in it.
pub proof fn law_rendered_has_no_placeholder(
    t: Seq<char>,
    values: Seq<(Seq<char>, Seq<char>)>,
    out: Seq<char>,
)
    requires
        render_spec(t, values) == Ok::<Seq<char>, TemplateErrorView>(out),
    ensures
        forall|j: int| !#[trigger] occurs_at(out, "{{"@, j),
{
    reveal_strlit("{{");
    lemma_find_from_none(out, "{{"@, 0);
}

/// Fills the placeholders of `template` with `values`, in order.
pub fn render(template: &str, values: &Vec<(String, String)>) -> (r: Result<String, TemplateError>)
    ensures
        render_result_view(r) == render_spec(template@, pairs_view(values@)),
{
    let ghost vs = pairs_view(values@);
    let mut out = chars_of(template);
    let mut k: usize = 0;
    while k < values.len()
        invariant
            k <= values@.len(),
            vs == pairs_view(values@),
            substitute(template@, vs, k as int) == Ok::<Seq<char>, TemplateErrorView>(out@),
        decreases values@.len() - k,
    {
        let mut p: Vec<char> = Vec::new();
        push_str(&mut p, "{{");
        push_str(&mut p, values[k].0.as_str());
        push_str(&mut p, "}}");
        assert(p@ == placeholder(vs[k as int].0));
        proof {
            reveal_strlit("{{");
        }
        if find_chars(&out, &p, 0).is_none() {
            proof {
                lemma_substitute_err(template@, vs, k + 1, vs.len() as int);
            }
            return Err(TemplateError::MissingPlaceholder(string_of(&p)));
        }
        let value = chars_of(values[k].1.as_str());
        out = replace_chars(&out, &p, &value);
        k = k + 1;
    }
    let open = chars_of("{{");
    match find_chars(&out, &open, 0) {
        Some(start) => {
            proof {
                lemma_find_from(out@, open@, 0);
                reveal_strlit("{{");
                reveal_strlit("}}");
            }
            let ghost rest = out@.skip(start as int);
            let mut tail: Vec<char> = Vec::new();
            push_range(&mut tail, &out, start, out.len());
            assert(tail@ == rest);
            let close = chars_of("}}");
            proof {
                lemma_find_from(tail@, close@, 0);
            }
            let end = match find_chars(&tail, &close, 0) {
                Some(end) => end + close.len(),
                None => tail.len(),
            };
            let mut left: Vec<char> = Vec::new();
            push_range(&mut left, &tail, 0, end);
            assert(left@ == leftover(out@, start as int));
            Err(TemplateError::UnresolvedPlaceholder(string_of(&left)))
        },
        None => Ok(string_of(&out)),
    }
}


// ---------------------------------------------------------------------------
// File sizes
// ---------------------------------------------------------------------------

/// The power of two that a 64-bit float keeps of `n`: 1 below 2^53, and
/// doubled for each bit above.
pub open spec fn rounding_unit(n: nat) -> nat
    decreases n,
{
    if n < 0x20_0000_0000_0000 {
        1
    } else {
        2 * rounding_unit(n / 2)
    }
}

/// `n / d` rounded to the nearest integer, ties to even.
pub open spec fn div_round_even(n: nat, d: nat) -> nat
    recommends
        d > 0,
{
    let q = n / d;
    let r = n % d;
    if 2 * r > d || (2 * r == d && q % 2 == 1) {
        q + 1
    } else {
        q
    }
}

/// The value of `n as f64`: `n` rounded to 53 significant bits, ties to even.
pub open spec fn as_f64(n: nat) -> nat {
    div_round_even(n, rounding_unit(n)) * rounding_unit(n)
}

/// `bytes` in tenths of a mebibyte: the float `bytes as f64 / 1048576.0`,
/// which is exact, rounded to one decimal place, ties to even.
pub open spec fn size_tenths(bytes: u64) -> nat {
    div_round_even(as_f64(bytes as nat) * 10, 0x10_0000)
}

/// A file size in mebibytes with one decimal (`format!("{:.1} MiB", ..)`).
pub open spec fn file_size_spec(bytes: u64) -> Seq<char> {
    let t = size_tenths(bytes);
    decimal(t / 10) + seq!['.', digit_char(t % 10)] + " MiB"@
}

proof fn lemma_unit_positive(n: nat)
    ensures
        rounding_unit(n) >= 1,
    decreases n,
{
    if n >= 0x20_0000_0000_0000 {
        lemma_unit_positive(n / 2);
    }
}

fn round_even(n: u128, d: u128) -> (r: u128)
    requires
        0 < d <= 0x1_0000_0000_0000_0000,
        n <= 0x40_0000_0000_0000_0000,
    ensures
        r == div_round_even(n as nat, d as nat),
        r <= n / d + 1,
{
    let q = n / d;
    let rem = n % d;
    if rem * 2 > d || (rem * 2 == d && q % 2 == 1) {
        q + 1
    } else {
        q
    }
}

/// Formats a file size in mebibytes with one decimal.
pub fn file_size(bytes: u64) -> (s: String)
    ensures
        s@ == file_size_spec(bytes),
{
    let n = bytes as u128;
    let mut k = n;
    let mut unit: u128 = 1;
    while k >= 0x20_0000_0000_0000
        invariant
            n < 0x1_0000_0000_0000_0000,
            1 <= unit <= 0x1000,
            k as nat == (n as nat) / (unit as nat),
            unit * k <= n,
            rounding_unit(n as nat) == unit * rounding_unit(k as nat),
        decreases k,
    {
        proof {
            vstd::arithmetic::div_mod::lemma_div_denominator(n as int, unit as int, 2);
            vstd::arithmetic::div_mod::lemma_fundamental_div_mod(k as int, 2);
            assert(unit * 2 * (k / 2) <= unit * k) by (nonlinear_arith)
                requires
                    2 * (k / 2) <= k,
            ;
            assert(unit * 2 <= 0x1000) by (nonlinear_arith)
                requires
                    unit * k <= n,
                    k >= 0x20_0000_0000_0000,
                    n < 0x1_0000_0000_0000_0000,
            ;
            assert(rounding_unit(k as nat) == 2 * rounding_unit((k / 2) as nat));
            assert(unit * rounding_unit(k as nat) == (unit * 2) * rounding_unit((k / 2) as nat))
                by (nonlinear_arith)
                requires
                    rounding_unit(k as nat) == 2 * rounding_unit((k / 2) as nat),
            ;
        }
        k = k / 2;
        unit = unit * 2;
    }
    assert(rounding_unit(k as nat) == 1);
    assert(rounding_unit(n as nat) == unit) by (nonlinear_arith)
        requires
            rounding_unit(n as nat) == unit * rounding_unit(k as nat),
            rounding_unit(k as nat) == 1,
    ;
    let q = round_even(n, unit);
    proof {
        vstd::arithmetic::div_mod::lemma_fundamental_div_mod(n as int, unit as int);
        assert(q * unit <= 0x2_0000_0000_0000_0000) by (nonlinear_arith)
            requires
                q <= n / unit + 1,
                unit * (n / unit) <= n,
                n < 0x1_0000_0000_0000_0000,
                1 <= unit <= 0x1000,
        ;
    }
    let m = q * unit;
    let t = round_even(m * 10, 0x10_0000);
    assert(t == size_tenths(bytes));
    let mut out: Vec<char> = Vec::new();
    push_decimal(&mut out, (t / 10) as u64);
    out.push('.');
    out.push(crate::text::digit((t % 10) as u64));
    push_str(&mut out, " MiB");
    string_of(&out)
}

// ---------------------------------------------------------------------------
// The site's pages
// ---------------------------------------------------------------------------

/// A year on the site and the size of its PDF.
pub struct SiteYear {
    pub year: u16,
    pub bytes: u64,
}

/// The site's templates: the index, one entry of the index, the viewer.
pub struct Templates {
    pub index: String,
    pub year_card: String,
    pub viewer: String,
}

/// The values of one year's entry of the index.
pub open spec fn year_values(entry: SiteYear) -> Seq<(Seq<char>, Seq<char>)> {
    seq![("year"@, decimal(entry.year as nat)), ("size"@, file_size_spec(entry.bytes))]
}

/// The entries of the first `k` years, each followed by a newline but the
/// last, or the first error.
pub open spec fn year_cards(card: Seq<char>, years: Seq<SiteYear>, k: int) -> Result<
    Seq<char>,
    TemplateErrorView,
>
    decreases k,
{
    if k <= 0 {
        Ok(seq![])
    } else {
        match year_cards(card, years, k - 1) {
            Err(e) => Err(e),
            Ok(before) => match render_spec(card, year_values(years[k - 1])) {
                Err(e) => Err(e),
                Ok(entry) => Ok(
                    if k == 1 {
                        entry
                    } else {
                        before + "\n"@ + entry
                    },
                ),
            },
        }
    }
}

proof fn lemma_year_cards_err(card: Seq<char>, years: Seq<SiteYear>, k: int, m: int)
    requires
        0 <= k <= m,
        year_cards(card, years, k) is Err,
    ensures
        year_cards(card, years, m) == year_cards(card, years, k),
    decreases m - k,
{
    if m > k {
        lemma_year_cards_err(card, years, k, m - 1);
    }
}

/// The index page of the given years.
pub open spec fn index_spec(t: Templates, years: Seq<SiteYear>) -> Result<
    Seq<char>,
    TemplateErrorView,
> {
    match year_cards(t.year_card@, years, years.len() as int) {
        Err(e) => Err(e),
        Ok(cards) => render_spec(t.index@, seq![("cards"@, cards)]),
    }
}

fn pair(name: &str, value: String) -> (p: (String, String))
    ensures
        p.0@ == name@,
        p.1@ == value@,
{
    (string_of(&chars_of(name)), value)
}

fn decimal_string(n: u64) -> (s: String)
    ensures
        s@ == decimal(n as nat),
{
    let mut out: Vec<char> = Vec::new();
    push_decimal(&mut out, n);
    string_of(&out)
}

impl Templates {
    /// The templates, from the contents of their files.
    pub fn load(index: String, year_card: String, viewer: String) -> (t: Templates)
        ensures
            t.index == index,
            t.year_card == year_card,
            t.viewer == viewer,
    {
        Templates { index, year_card, viewer }
    }

    /// The index page: one entry per year, in the order given.
    pub fn index(&self, years: &Vec<SiteYear>) -> (r: Result<String, TemplateError>)
        ensures
            render_result_view(r) == index_spec(*self, years@),
    {
        let mut cards: Vec<char> = Vec::new();
        let mut k: usize = 0;
        while k < years.len()
            invariant
                k <= years@.len(),
                year_cards(self.year_card@, years@, k as int) == Ok::<
                    Seq<char>,
                    TemplateErrorView,
                >(cards@),
            decreases years@.len() - k,
        {
            let entry = &years[k];
            let values = vec![
                pair("year", decimal_string(entry.year as u64)),
                pair("size", file_size(entry.bytes)),
            ];
            assert(pairs_view(values@) == year_values(years@[k as int]));
            match render(self.year_card.as_str(), &values) {
                Err(e) => {
                    proof {
                        lemma_year_cards_err(self.year_card@, years@, k + 1, years@.len() as int);
                    }
                    return Err(e);
                },
                Ok(rendered) => {
                    if k > 0 {
                        push_str(&mut cards, "\n");
                    }
                    push_str(&mut cards, rendered.as_str());
                },
            }
            k = k + 1;
        }
        let values = vec![pair("cards", string_of(&cards))];
        assert(pairs_view(values@) == seq![("cards"@, cards@)]);
        render(self.index.as_str(), &values)
    }

    /// The viewer page of one year.
    pub fn viewer(&self, year: u16) -> (r: Result<String, TemplateError>)
        ensures
            render_result_view(r) == render_spec(
                self.viewer@,
                seq![("year"@, decimal(year as nat))],
            ),
    {
        let values = vec![pair("year", decimal_string(year as u64))];
        assert(pairs_view(values@) == seq![("year"@, decimal(year as nat))]);
        render(self.viewer.as_str(), &values)
    }
}
} // verus!
