//! The limit-list text format.
//!
//! A list is a sequence of lines. Blank lines are ignored. A line that starts
//! with `///` is a section marker: `ocg…` or `tcg…` opens a region, and
//! `forbidden`, `limited` or `semi-limited` opens a restriction within it.
//! Every other line is a card: `Japanese name // English name[ // id]`.
//! A line that cannot be read is skipped with a diagnostic.

use vstd::prelude::*;

use crate::lf::model::{entries_view, CardEntry, CardEntryView, Region, Restriction};
use crate::text::{
    chars_of, debug_quoted, parse_number, parse_unsigned, push_range, push_str, quote_debug,
    range_eq, range_starts_with, starts_with, string_of, string_of_range, trim, trim_range,
};

verus! {

/// A skipped line and why it was skipped.
#[derive(Debug, PartialEq, Eq)]
pub struct Diagnostic {
    pub line_number: usize,
    pub message: String,
}

pub struct DiagnosticView {
    pub line_number: nat,
    pub message: Seq<char>,
}

impl View for Diagnostic {
    type V = DiagnosticView;

    open spec fn view(&self) -> DiagnosticView {
        DiagnosticView { line_number: self.line_number as nat, message: self.message@ }
    }
}

pub open spec fn diagnostics_view(v: Seq<Diagnostic>) -> Seq<DiagnosticView> {
    v.map_values(|d: Diagnostic| d@)
}

/// The cards and the diagnostics of a list, each in line order.
#[derive(Debug)]
pub struct ParsedList {
    pub cards: Vec<CardEntry>,
    pub diagnostics: Vec<Diagnostic>,
}

/// The region and restriction opened by the markers read so far.
#[derive(Clone, Copy)]
pub struct Section {
    pub region: Option<Region>,
    pub restriction: Option<Restriction>,
}

pub open spec fn no_section() -> Section {
    Section { region: None, restriction: None }
}

// ---------------------------------------------------------------------------
// The format, stated over character sequences
// ---------------------------------------------------------------------------

/// The end of the line that starts at `i`: the next `\n`, or the end of `s`.
pub open spec fn line_end(s: Seq<char>, i: int) -> int
    decreases s.len() - i,
{
    if i < 0 || i >= s.len() || s[i] == '\n' {
        i
    } else {
        line_end(s, i + 1)
    }
}

pub proof fn lemma_line_end(s: Seq<char>, i: int)
    requires
        0 <= i <= s.len(),
    ensures
        i <= line_end(s, i) <= s.len(),
        line_end(s, i) < s.len() ==> s[line_end(s, i)] == '\n',
        forall|k: int| i <= k < line_end(s, i) ==> s[k] != '\n',
    decreases s.len() - i,
{
    if i < s.len() && s[i] != '\n' {
        lemma_line_end(s, i + 1);
    }
}

/// The region opened by a marker, if any.
pub open spec fn marker_region(m: Seq<char>) -> Option<Region> {
    if starts_with(m, "ocg"@) {
        Some(Region::Ocg)
    } else if starts_with(m, "tcg"@) {
        Some(Region::Tcg)
    } else {
        None
    }
}

/// The restriction named by a marker, if any.
pub open spec fn marker_restriction(m: Seq<char>) -> Option<Restriction> {
    if m == "forbidden"@ {
        Some(Restriction::Forbidden)
    } else if m == "limited"@ {
        Some(Restriction::Limited)
    } else if m == "semi-limited"@ {
        Some(Restriction::SemiLimited)
    } else {
        None
    }
}

/// A marker `m` (the trimmed text after `///`) read in section `sec`: the new
/// section, and the diagnostic if the marker is skipped.
pub open spec fn marker_step(m: Seq<char>, n: nat, sec: Section) -> (Section, Option<DiagnosticView>) {
    match marker_region(m) {
        Some(region) => (Section { region: Some(region), restriction: None }, None),
        None => match marker_restriction(m) {
            None => (
                sec,
                Some(
                    DiagnosticView {
                        line_number: n,
                        message: "unknown section marker `"@ + m + "`"@,
                    },
                ),
            ),
            Some(restriction) => if sec.region is None {
                (
                    sec,
                    Some(
                        DiagnosticView {
                            line_number: n,
                            message: "restriction marker `"@ + m + "` appears before a region"@,
                        },
                    ),
                )
            } else {
                (Section { region: sec.region, restriction: Some(restriction) }, None)
            },
        },
    }
}

/// The pieces of `s[start..]` between occurrences of `//`, found left to
/// right; `i` is where the search for the next `//` resumes.
pub open spec fn split_from(s: Seq<char>, start: int, i: int) -> Seq<Seq<char>>
    decreases s.len() - i,
{
    if i + 2 > s.len() {
        seq![s.subrange(start, s.len() as int)]
    } else if s[i] == '/' && s[i + 1] == '/' {
        seq![s.subrange(start, i)] + split_from(s, i + 2, i + 2)
    } else {
        split_from(s, start, i + 1)
    }
}

/// The trimmed fields of a card line (`split("//")`, each trimmed).
pub open spec fn fields(line: Seq<char>) -> Seq<Seq<char>> {
    split_from(line, 0, 0).map_values(|f: Seq<char>| trim(f))
}

pub open spec fn non_empty_spec(s: Seq<char>) -> Option<Seq<char>> {
    if s.len() == 0 {
        None
    } else {
        Some(s)
    }
}

/// A card line (trimmed, not a marker) read in section `sec`: the entry, or
/// the message that the line is skipped with.
pub open spec fn card_step(line: Seq<char>, n: nat, sec: Section) -> Result<CardEntryView, Seq<char>> {
    let f = fields(line);
    if sec.region is None {
        Err("card appears before an ocg or tcg marker"@)
    } else if sec.restriction is None {
        Err("card appears before a restriction marker"@)
    } else if f.len() < 2 || f.len() > 3 {
        Err("expected `Japanese name // English name[ // id]`, got "@ + debug_quoted(line))
    } else if non_empty_spec(f[0]) is None && non_empty_spec(f[1]) is None {
        Err("Japanese and English names are both empty"@)
    } else if f.len() == 3 && f[2].len() == 0 {
        Err("explicit ID is empty"@)
    } else if f.len() == 3 && parse_unsigned(f[2], u32::MAX as nat) is None {
        Err("invalid explicit ID `"@ + f[2] + "`"@)
    } else {
        Ok(
            CardEntryView {
                region: sec.region->0,
                restriction: sec.restriction->0,
                japanese_name: non_empty_spec(f[0]),
                english_name: non_empty_spec(f[1]),
                explicit_id: if f.len() == 3 {
                    Some(parse_unsigned(f[2], u32::MAX as nat)->0 as u32)
                } else {
                    None
                },
                line_number: n,
            },
        )
    }
}

/// Every `u32` written in decimal is read as the explicit ID: a card line
/// whose fields are two names (not both empty) and the decimal digits of
/// `id`, read in a section with a region and a restriction, is a card of
/// that section with those names and explicit ID `id`.
pub proof fn law_explicit_id_read(
    line: Seq<char>,
    n: nat,
    sec: Section,
    japanese: Seq<char>,
    english: Seq<char>,
    id: u32,
)
    requires
        sec.region is Some,
        sec.restriction is Some,
        fields(line) == seq![japanese, english, crate::text::decimal(id as nat)],
        japanese.len() > 0 || english.len() > 0,
    ensures
        card_step(line, n, sec) matches Ok(card) && card.explicit_id == Some(id)
            && card.region == sec.region->0 && card.restriction == sec.restriction->0
            && card.japanese_name == non_empty_spec(japanese) && card.english_name
            == non_empty_spec(english),
{
    crate::text::law_decimal_parses(id as nat, u32::MAX as nat);
    crate::text::lemma_decimal_digits(id as nat);
    assert(fields(line)[2] == crate::text::decimal(id as nat));
}

/// One raw line read in section `sec`: the next section, and the card or the
/// diagnostic it yields.
pub open spec fn line_step(raw: Seq<char>, n: nat, sec: Section) -> (
    Section,
    Option<CardEntryView>,
    Option<DiagnosticView>,
) {
    let line = trim(raw);
    if line.len() == 0 {
        (sec, None, None)
    } else if starts_with(line, "///"@) {
        let (next, d) = marker_step(trim(line.skip("///"@.len() as int)), n, sec);
        (next, None, d)
    } else {
        match card_step(line, n, sec) {
            Ok(card) => (sec, Some(card), None),
            Err(message) => (sec, None, Some(DiagnosticView { line_number: n, message })),
        }
    }
}

pub open spec fn opt_seq<A>(o: Option<A>) -> Seq<A> {
    match o {
        Some(a) => seq![a],
        None => seq![],
    }
}

/// The cards and diagnostics of the lines of `s` from index `start` on, the
/// first of them numbered `n`, read in section `sec`.
pub open spec fn parse_from(s: Seq<char>, start: int, n: nat, sec: Section) -> (
    Seq<CardEntryView>,
    Seq<DiagnosticView>,
)
    decreases s.len() - start via parse_from_decreases
{
    if start < 0 || start >= s.len() {
        (seq![], seq![])
    } else {
        let e = line_end(s, start);
        let (next, card, diagnostic) = line_step(s.subrange(start, e), n, sec);
        let rest = if e < s.len() {
            parse_from(s, e + 1, n + 1, next)
        } else {
            (seq![], seq![])
        };
        (opt_seq(card) + rest.0, opt_seq(diagnostic) + rest.1)
    }
}

#[via_fn]
proof fn parse_from_decreases(s: Seq<char>, start: int, n: nat, sec: Section) {
    if 0 <= start < s.len() {
        lemma_line_end(s, start);
    }
}

/// Cards and diagnostics come in line order: the lines read from index
/// `start` on, numbered from `n`, yield strictly increasing line numbers, each
/// at least `n`.
pub proof fn law_parse_in_line_order(s: Seq<char>, start: int, n: nat, sec: Section)
    ensures
        ({
            let (cards, diagnostics) = parse_from(s, start, n, sec);
            &&& forall|i: int| 0 <= i < cards.len() ==> #[trigger] cards[i].line_number >= n
            &&& forall|i: int, j: int|
                0 <= i < j < cards.len() ==> #[trigger] cards[i].line_number
                    < #[trigger] cards[j].line_number
            &&& forall|i: int|
                0 <= i < diagnostics.len() ==> #[trigger] diagnostics[i].line_number >= n
            &&& forall|i: int, j: int|
                0 <= i < j < diagnostics.len() ==> #[trigger] diagnostics[i].line_number
                    < #[trigger] diagnostics[j].line_number
        }),
    decreases s.len() - start,
{
    if 0 <= start < s.len() {
        lemma_line_end(s, start);
        let e = line_end(s, start);
        let (next, card, diagnostic) = line_step(s.subrange(start, e), n, sec);
        if e < s.len() {
            law_parse_in_line_order(s, e + 1, n + 1, next);
        }
        let rest = if e < s.len() {
            parse_from(s, e + 1, n + 1, next)
        } else {
            (seq![], seq![])
        };
        let (cards, diagnostics) = parse_from(s, start, n, sec);
        assert(cards == opt_seq(card) + rest.0);
        assert(diagnostics == opt_seq(diagnostic) + rest.1);
        if let Some(c) = card {
            assert(c.line_number == n) by {
                let line = trim(s.subrange(start, e));
                if !(line.len() == 0) && !starts_with(line, "///"@) {
                    if let Ok(cc) = card_step(line, n, sec) {
                        assert(cc.line_number == n);
                    }
                }
            }
            assert forall|i: int| 0 <= i < cards.len() implies #[trigger] cards[i].line_number
                >= n by {
                if i > 0 {
                    assert(cards[i] == rest.0[i - 1]);
                }
            }
            assert forall|i: int, j: int| 0 <= i < j < cards.len() implies #[trigger] cards[i].line_number
                < #[trigger] cards[j].line_number by {
                assert(cards[j] == rest.0[j - 1]);
                if i > 0 {
                    assert(cards[i] == rest.0[i - 1]);
                }
            }
        } else {
            assert(cards == rest.0);
        }
        if let Some(d) = diagnostic {
            assert(d.line_number == n) by {
                let line = trim(s.subrange(start, e));
                if !(line.len() == 0) && starts_with(line, "///"@) {
                    let m = trim(line.skip("///"@.len() as int));
                    assert(marker_step(m, n, sec).1 matches Some(dd) ==> dd.line_number == n);
                }
            }
            assert forall|i: int| 0 <= i < diagnostics.len() implies #[trigger] diagnostics[i].line_number
                >= n by {
                if i > 0 {
                    assert(diagnostics[i] == rest.1[i - 1]);
                }
            }
            assert forall|i: int, j: int| 0 <= i < j < diagnostics.len() implies #[trigger] diagnostics[i].line_number
                < #[trigger] diagnostics[j].line_number by {
                assert(diagnostics[j] == rest.1[j - 1]);
                if i > 0 {
                    assert(diagnostics[i] == rest.1[i - 1]);
                }
            }
        } else {
            assert(diagnostics == rest.1);
        }
    }
}

/// The cards and diagnostics of a whole list.
pub open spec fn parse_spec(source: Seq<char>) -> (Seq<CardEntryView>, Seq<DiagnosticView>) {
    parse_from(source, 0, 1, no_section())
}

// ---------------------------------------------------------------------------
// The lines of a list, and the laws stated over them
// ---------------------------------------------------------------------------

/// Where line `i` (counted from 1) of `s` starts; at or past the end of `s`
/// when `s` has no line `i`.
pub open spec fn line_start(s: Seq<char>, i: int) -> int
    decreases i,
{
    if i <= 1 {
        0
    } else {
        let p = line_start(s, i - 1);
        if p < s.len() {
            line_end(s, p) + 1
        } else {
            p
        }
    }
}

/// `s` has a line `i`.
pub open spec fn has_line(s: Seq<char>, i: int) -> bool {
    i >= 1 && line_start(s, i) < s.len()
}

/// Line `i` of `s`, without its line break, trimmed.
pub open spec fn trimmed_line(s: Seq<char>, i: int) -> Seq<char> {
    trim(s.subrange(line_start(s, i), line_end(s, line_start(s, i))))
}

/// Line `i` is a section marker: it starts with `///`.
pub open spec fn is_marker_line(s: Seq<char>, i: int) -> bool {
    starts_with(trimmed_line(s, i), "///"@)
}

/// The text of a marker line after `///`, trimmed.
pub open spec fn marker_text(s: Seq<char>, i: int) -> Seq<char> {
    trim(trimmed_line(s, i).skip("///"@.len() as int))
}

/// The region that line `i` opens, if it is a region line.
pub open spec fn region_line(s: Seq<char>, i: int) -> Option<Region> {
    if has_line(s, i) && is_marker_line(s, i) {
        marker_region(marker_text(s, i))
    } else {
        None
    }
}

/// The restriction that line `i` names, if it is a restriction line.
pub open spec fn restriction_line(s: Seq<char>, i: int) -> Option<Restriction> {
    if has_line(s, i) && is_marker_line(s, i) && marker_region(marker_text(s, i)) is None {
        marker_restriction(marker_text(s, i))
    } else {
        None
    }
}

/// The last region line before line `i`, and its region.
pub open spec fn last_region(s: Seq<char>, i: int) -> Option<(int, Region)>
    decreases i,
{
    if i <= 1 {
        None
    } else {
        match region_line(s, i - 1) {
            Some(r) => Some((i - 1, r)),
            None => last_region(s, i - 1),
        }
    }
}

/// The restriction of the last restriction line before line `i` and after
/// line `g`.
pub open spec fn last_restriction_after(s: Seq<char>, i: int, g: int) -> Option<Restriction>
    decreases i,
{
    if i <= 1 || i - 1 <= g {
        None
    } else {
        match restriction_line(s, i - 1) {
            Some(t) => Some(t),
            None => last_restriction_after(s, i - 1, g),
        }
    }
}

/// The section that line `i` is in: the region of the last region line
/// before it, and the restriction of the last restriction line between
/// that region line and it.
pub open spec fn section_at(s: Seq<char>, i: int) -> Section {
    match last_region(s, i) {
        None => no_section(),
        Some((g, r)) => Section { region: Some(r), restriction: last_restriction_after(s, i, g) },
    }
}

/// Some card comes from line `j`.
pub open spec fn card_at(cards: Seq<CardEntryView>, j: int) -> bool {
    exists|c: int| 0 <= c < cards.len() && cards[c].line_number == j
}

/// Some diagnostic is about line `j`.
pub open spec fn diagnostic_at(diagnostics: Seq<DiagnosticView>, j: int) -> bool {
    exists|d: int| 0 <= d < diagnostics.len() && diagnostics[d].line_number == j
}

proof fn lemma_line_start(s: Seq<char>, i: int, j: int)
    requires
        1 <= i <= j,
    ensures
        0 <= line_start(s, i) <= line_start(s, j),
    decreases j,
{
    if j > i {
        lemma_line_start(s, i, j - 1);
        let p = line_start(s, j - 1);
        if p < s.len() {
            lemma_line_end(s, p);
        }
    } else if i > 1 {
        lemma_line_start(s, 1, i - 1);
        let p = line_start(s, i - 1);
        if p < s.len() {
            lemma_line_end(s, p);
        }
    }
}

proof fn lemma_last_region_before(s: Seq<char>, i: int)
    ensures
        last_region(s, i) matches Some((g, r)) ==> 1 <= g < i,
    decreases i,
{
    if i > 1 {
        lemma_last_region_before(s, i - 1);
    }
}

/// Reading line `i` in the section it is in leaves the section of line
/// `i + 1`.
proof fn lemma_section_step(s: Seq<char>, i: int)
    requires
        has_line(s, i),
    ensures
        line_step(
            s.subrange(line_start(s, i), line_end(s, line_start(s, i))),
            i as nat,
            section_at(s, i),
        ).0 == section_at(s, i + 1),
{
    reveal_strlit("///");
    lemma_last_region_before(s, i);
    let raw = s.subrange(line_start(s, i), line_end(s, line_start(s, i)));
    let line = trim(raw);
    assert(line == trimmed_line(s, i));
    let sec = section_at(s, i);
    if line.len() > 0 && starts_with(line, "///"@) {
        let m = trim(line.skip("///"@.len() as int));
        assert(m == marker_text(s, i));
    }
}

proof fn lemma_parse_lines(s: Seq<char>, i: int)
    requires
        i >= 1,
    ensures
        ({
            let r = parse_from(s, line_start(s, i), i as nat, section_at(s, i));
            &&& forall|c: int|
                0 <= c < r.0.len() ==> {
                    let n = (#[trigger] r.0[c]).line_number as int;
                    &&& i <= n
                    &&& has_line(s, n)
                    &&& trimmed_line(s, n).len() > 0
                    &&& !is_marker_line(s, n)
                    &&& section_at(s, n).region == Some(r.0[c].region)
                    &&& section_at(s, n).restriction == Some(r.0[c].restriction)
                }
            &&& forall|d: int|
                0 <= d < r.1.len() ==> {
                    let n = (#[trigger] r.1[d]).line_number as int;
                    &&& i <= n
                    &&& has_line(s, n)
                    &&& trimmed_line(s, n).len() > 0
                }
            &&& forall|j: int|
                i <= j && has_line(s, j) && trimmed_line(s, j).len() > 0 && !is_marker_line(s, j)
                    ==> (#[trigger] card_at(r.0, j) != diagnostic_at(r.1, j)) && ((section_at(
                    s,
                    j,
                ).region is None || section_at(s, j).restriction is None) ==> diagnostic_at(
                    r.1,
                    j,
                ))
        }),
    decreases s.len() - line_start(s, i),
{
    lemma_line_start(s, i, i);
    let start = line_start(s, i);
    let sec = section_at(s, i);
    let r = parse_from(s, start, i as nat, sec);
    if start >= s.len() {
        assert forall|j: int| i <= j && has_line(s, j) implies false by {
            lemma_line_start(s, i, j);
        }
    } else {
        lemma_line_end(s, start);
        let e = line_end(s, start);
        let raw = s.subrange(start, e);
        let step = line_step(raw, i as nat, sec);
        let card = step.1;
        let diagnostic = step.2;
        lemma_section_step(s, i);
        assert(line_start(s, i + 1) == e + 1);
        let rest = if e < s.len() {
            parse_from(s, e + 1, (i + 1) as nat, step.0)
        } else {
            (seq![], seq![])
        };
        assert(r.0 == opt_seq(card) + rest.0);
        assert(r.1 == opt_seq(diagnostic) + rest.1);
        if e < s.len() {
            lemma_parse_lines(s, i + 1);
        } else {
            assert forall|j: int| i < j && has_line(s, j) implies false by {
                lemma_line_start(s, i + 1, j);
            }
        }
        let line = trim(raw);
        assert(line == trimmed_line(s, i));
        // What line `i` itself yields.
        assert(card matches Some(c) ==> c.line_number == i && line.len() > 0 && !starts_with(
            line,
            "///"@,
        ) && sec.region == Some(c.region) && sec.restriction == Some(c.restriction));
        assert(diagnostic matches Some(d) ==> d.line_number == i && line.len() > 0) by {
            reveal_strlit("///");
        }
        assert(line.len() > 0 && !starts_with(line, "///"@) ==> (card is Some != diagnostic is Some));
        assert(line.len() > 0 && !starts_with(line, "///"@) && (sec.region is None
            || sec.restriction is None) ==> diagnostic is Some);
        // The results of the later lines are about later lines.
        assert forall|c: int| 0 <= c < r.0.len() implies {
            let n = (#[trigger] r.0[c]).line_number as int;
            &&& i <= n
            &&& has_line(s, n)
            &&& trimmed_line(s, n).len() > 0
            &&& !is_marker_line(s, n)
            &&& section_at(s, n).region == Some(r.0[c].region)
            &&& section_at(s, n).restriction == Some(r.0[c].restriction)
        } by {
            if card is Some && c == 0 {
            } else {
                let k = if card is Some { c - 1 } else { c };
                assert(r.0[c] == rest.0[k]);
            }
        }
        assert forall|d: int| 0 <= d < r.1.len() implies {
            let n = (#[trigger] r.1[d]).line_number as int;
            &&& i <= n
            &&& has_line(s, n)
            &&& trimmed_line(s, n).len() > 0
        } by {
            if diagnostic is Some && d == 0 {
            } else {
                let k = if diagnostic is Some { d - 1 } else { d };
                assert(r.1[d] == rest.1[k]);
            }
        }
        assert forall|j: int|
            i <= j && has_line(s, j) && trimmed_line(s, j).len() > 0 && !is_marker_line(
                s,
                j,
            ) implies (#[trigger] card_at(r.0, j) != diagnostic_at(r.1, j)) && ((section_at(
            s,
            j,
        ).region is None || section_at(s, j).restriction is None) ==> diagnostic_at(r.1, j)) by {
            if j == i {
                if let Some(c) = card {
                    assert(r.0[0] == c);
                }
                if let Some(d) = diagnostic {
                    assert(r.1[0] == d);
                }
                if card_at(r.0, j) {
                    let c = choose|c: int| 0 <= c < r.0.len() && r.0[c].line_number == j;
                    if !(card is Some && c == 0) {
                        let k = if card is Some { c - 1 } else { c };
                        assert(r.0[c] == rest.0[k]);
                    }
                }
                if diagnostic_at(r.1, j) {
                    let d = choose|d: int| 0 <= d < r.1.len() && r.1[d].line_number == j;
                    if !(diagnostic is Some && d == 0) {
                        let k = if diagnostic is Some { d - 1 } else { d };
                        assert(r.1[d] == rest.1[k]);
                    }
                }
            } else {
                assert(card_at(r.0, j) == card_at(rest.0, j)) by {
                    if card_at(r.0, j) {
                        let c = choose|c: int| 0 <= c < r.0.len() && r.0[c].line_number == j;
                        if !(card is Some && c == 0) {
                            let k = if card is Some { c - 1 } else { c };
                            assert(r.0[c] == rest.0[k]);
                        }
                    }
                    if card_at(rest.0, j) {
                        let c = choose|c: int| 0 <= c < rest.0.len() && rest.0[c].line_number == j;
                        let k = if card is Some { c + 1 } else { c };
                        assert(r.0[k] == rest.0[c]);
                    }
                }
                assert(diagnostic_at(r.1, j) == diagnostic_at(rest.1, j)) by {
                    if diagnostic_at(r.1, j) {
                        let d = choose|d: int| 0 <= d < r.1.len() && r.1[d].line_number == j;
                        if !(diagnostic is Some && d == 0) {
                            let k = if diagnostic is Some { d - 1 } else { d };
                            assert(r.1[d] == rest.1[k]);
                        }
                    }
                    if diagnostic_at(rest.1, j) {
                        let d = choose|d: int| 0 <= d < rest.1.len() && rest.1[d].line_number == j;
                        let k = if diagnostic is Some { d + 1 } else { d };
                        assert(r.1[k] == rest.1[d]);
                    }
                }
            }
        }
    }
}

/// One result per line: a blank line yields nothing; a marker line yields
/// no card, and at most one diagnostic; every other line yields exactly one
/// card or exactly one diagnostic, never both. Every card and diagnostic is
/// about a line of the list.
pub proof fn law_one_result_per_line(source: Seq<char>, i: int)
    requires
        has_line(source, i),
    ensures
        ({
            let (cards, diagnostics) = parse_spec(source);
            &&& trimmed_line(source, i).len() == 0 ==> !card_at(cards, i) && !diagnostic_at(
                diagnostics,
                i,
            )
            &&& is_marker_line(source, i) ==> !card_at(cards, i)
            &&& trimmed_line(source, i).len() > 0 && !is_marker_line(source, i) ==> card_at(
                cards,
                i,
            ) != diagnostic_at(diagnostics, i)
            &&& forall|a: int, b: int|
                0 <= a < cards.len() && 0 <= b < cards.len() && cards[a].line_number == i
                    && cards[b].line_number == i ==> a == b
            &&& forall|a: int, b: int|
                0 <= a < diagnostics.len() && 0 <= b < diagnostics.len()
                    && diagnostics[a].line_number == i && diagnostics[b].line_number == i ==> a == b
            &&& forall|c: int| 0 <= c < cards.len() ==> has_line(source, #[trigger] cards[c].line_number as int)
            &&& forall|d: int|
                0 <= d < diagnostics.len() ==> has_line(source, #[trigger] diagnostics[d].line_number as int)
        }),
{
    assert(section_at(source, 1) == no_section());
    assert(line_start(source, 1) == 0);
    lemma_parse_lines(source, 1);
    law_parse_in_line_order(source, 0, 1, no_section());
    let (cards, diagnostics) = parse_spec(source);
    if card_at(cards, i) {
        let c = choose|c: int| 0 <= c < cards.len() && cards[c].line_number == i;
        assert(cards[c].line_number == i);
    }
    if diagnostic_at(diagnostics, i) {
        let d = choose|d: int| 0 <= d < diagnostics.len() && diagnostics[d].line_number == i;
        assert(diagnostics[d].line_number == i);
    }
    assert forall|a: int, b: int|
        0 <= a < cards.len() && 0 <= b < cards.len() && cards[a].line_number == i
            && cards[b].line_number == i implies a == b by {
        if a < b {
            assert(cards[a].line_number < cards[b].line_number);
        } else if b < a {
            assert(cards[b].line_number < cards[a].line_number);
        }
    }
    assert forall|a: int, b: int|
        0 <= a < diagnostics.len() && 0 <= b < diagnostics.len() && diagnostics[a].line_number == i
            && diagnostics[b].line_number == i implies a == b by {
        if a < b {
            assert(diagnostics[a].line_number < diagnostics[b].line_number);
        } else if b < a {
            assert(diagnostics[b].line_number < diagnostics[a].line_number);
        }
    }
}

/// Every card is in the section of the markers before it: its region is
/// that of the last region line before it, and its restriction that of the
/// last restriction line between that region line and it. A card line with
/// no such region line, or no such restriction line, yields a diagnostic
/// and no card.
pub proof fn law_cards_follow_their_markers(source: Seq<char>)
    ensures
        ({
            let (cards, diagnostics) = parse_spec(source);
            &&& forall|c: int|
                0 <= c < cards.len() ==> {
                    let n = (#[trigger] cards[c]).line_number as int;
                    &&& last_region(source, n) matches Some((g, r)) && r == cards[c].region
                        && last_restriction_after(source, n, g) == Some(cards[c].restriction)
                }
            &&& forall|j: int|
                has_line(source, j) && trimmed_line(source, j).len() > 0 && !is_marker_line(
                    source,
                    j,
                ) && (last_region(source, j) is None || (last_region(source, j) matches Some((g, r))
                    && last_restriction_after(source, j, g) is None)) ==> #[trigger] diagnostic_at(
                    diagnostics,
                    j,
                ) && !card_at(cards, j)
        }),
{
    assert(section_at(source, 1) == no_section());
    assert(line_start(source, 1) == 0);
    lemma_parse_lines(source, 1);
    let (cards, diagnostics) = parse_spec(source);
    assert forall|c: int| 0 <= c < cards.len() implies {
        let n = (#[trigger] cards[c]).line_number as int;
        &&& last_region(source, n) matches Some((g, r)) && r == cards[c].region
            && last_restriction_after(source, n, g) == Some(cards[c].restriction)
    } by {
        let n = cards[c].line_number as int;
        assert(section_at(source, n).region == Some(cards[c].region));
        assert(section_at(source, n).restriction == Some(cards[c].restriction));
    }
    assert forall|j: int|
        has_line(source, j) && trimmed_line(source, j).len() > 0 && !is_marker_line(source, j) && (
        last_region(source, j) is None || (last_region(source, j) matches Some((g, r))
            && last_restriction_after(source, j, g) is None)) implies #[trigger] diagnostic_at(
        diagnostics,
        j,
    ) && !card_at(cards, j) by {
        assert(section_at(source, j).region is None || section_at(source, j).restriction is None);
        assert(card_at(cards, j) != diagnostic_at(diagnostics, j));
    }
}

// ---------------------------------------------------------------------------
// The parser
// ---------------------------------------------------------------------------

/// Reads a limit list: its cards, and a diagnostic for each line it skips.
pub fn parse(source: &str) -> (parsed: ParsedList)
    ensures
        entries_view(parsed.cards@) == parse_spec(source@).0,
        diagnostics_view(parsed.diagnostics@) == parse_spec(source@).1,
{
    let s = chars_of(source);
    let mut section = Section { region: None, restriction: None };
    let mut cards: Vec<CardEntry> = Vec::new();
    let mut diagnostics: Vec<Diagnostic> = Vec::new();
    let mut start: usize = 0;
    let mut n: usize = 1;
    let triple = chars_of("///");
    while start < s.len()
        invariant
            s@ == source@,
            triple@ == "///"@,
            start <= s@.len(),
            1 <= n <= start + 1,
            parse_spec(s@).0 == entries_view(cards@) + parse_from(
                s@,
                start as int,
                n as nat,
                section,
            ).0,
            parse_spec(s@).1 == diagnostics_view(diagnostics@) + parse_from(
                s@,
                start as int,
                n as nat,
                section,
            ).1,
        decreases s@.len() - start,
    {
        let e = find_line_end(&s, start);
        proof {
            lemma_line_end(s@, start as int);
        }
        let ghost raw = s@.subrange(start as int, e as int);
        let ghost step = line_step(raw, n as nat, section);
        let ghost rest = if e < s@.len() {
            parse_from(s@, e + 1, (n + 1) as nat, step.0)
        } else {
            (Seq::<CardEntryView>::empty(), Seq::<DiagnosticView>::empty())
        };
        assert(parse_from(s@, start as int, n as nat, section) == (
            opt_seq(step.1) + rest.0,
            opt_seq(step.2) + rest.1,
        ));
        let ghost cards_before = entries_view(cards@);
        let ghost diagnostics_before = diagnostics_view(diagnostics@);
        let (a, b) = trim_range(&s, start, e);
        assert(s@.subrange(a as int, b as int) == trim(raw));
        if a == b {
        } else if range_starts_with(&s, a, b, &triple) {
            let ghost line = s@.subrange(a as int, b as int);
            let (ma, mb) = trim_range(&s, a + triple.len(), b);
            assert(s@.subrange(a + triple@.len(), b as int) == line.skip(triple@.len() as int));
            parse_marker(&s, ma, mb, n, &mut section, &mut diagnostics);
        } else {
            match parse_card(&s, a, b, n, &section) {
                Ok(card) => {
                    cards.push(card);
                },
                Err(message) => {
                    diagnostics.push(Diagnostic { line_number: n, message });
                },
            }
        }
        assert(entries_view(cards@) == cards_before + opt_seq(step.1));
        assert(diagnostics_view(diagnostics@) == diagnostics_before + opt_seq(step.2));
        if s.len() - e <= 1 {
            assert(rest == (Seq::<CardEntryView>::empty(), Seq::<DiagnosticView>::empty()));
            assert(parse_spec(s@).0 == entries_view(cards@));
            assert(parse_spec(s@).1 == diagnostics_view(diagnostics@));
            return ParsedList { cards, diagnostics };
        }
        start = e + 1;
        n = n + 1;
    }
    ParsedList { cards, diagnostics }
}

/// The end of the line that starts at `start`.
fn find_line_end(s: &Vec<char>, start: usize) -> (e: usize)
    requires
        start <= s@.len(),
    ensures
        e == line_end(s@, start as int),
{
    let mut i = start;
    while i < s.len() && s[i] != '\n'
        invariant
            start <= i <= s@.len(),
            line_end(s@, start as int) == line_end(s@, i as int),
        decreases s@.len() - i,
    {
        i = i + 1;
    }
    i
}

/// Reads the marker `s[a..b]` on line `n`.
pub fn parse_marker(
    s: &Vec<char>,
    a: usize,
    b: usize,
    n: usize,
    section: &mut Section,
    diagnostics: &mut Vec<Diagnostic>,
)
    requires
        a <= b <= s@.len(),
    ensures
        ({
            let step = marker_step(s@.subrange(a as int, b as int), n as nat, *old(section));
            &&& *final(section) == step.0
            &&& diagnostics_view(final(diagnostics)@) == diagnostics_view(old(diagnostics)@)
                + opt_seq(step.1)
        }),
{
    let ghost m = s@.subrange(a as int, b as int);
    let ghost before = diagnostics_view(diagnostics@);
    if range_starts_with(s, a, b, &chars_of("ocg")) {
        *section = Section { region: Some(Region::Ocg), restriction: None };
        assert(diagnostics_view(diagnostics@) == before + opt_seq::<DiagnosticView>(None));
        return;
    }
    if range_starts_with(s, a, b, &chars_of("tcg")) {
        *section = Section { region: Some(Region::Tcg), restriction: None };
        assert(diagnostics_view(diagnostics@) == before + opt_seq::<DiagnosticView>(None));
        return;
    }
    let restriction = if range_eq(s, a, b, &chars_of("forbidden")) {
        Restriction::Forbidden
    } else if range_eq(s, a, b, &chars_of("limited")) {
        Restriction::Limited
    } else if range_eq(s, a, b, &chars_of("semi-limited")) {
        Restriction::SemiLimited
    } else {
        let mut message: Vec<char> = Vec::new();
        push_str(&mut message, "unknown section marker `");
        push_range(&mut message, s, a, b);
        push_str(&mut message, "`");
        diagnostics.push(Diagnostic { line_number: n, message: string_of(&message) });
        assert(diagnostics_view(diagnostics@) == before + seq![
            DiagnosticView { line_number: n as nat, message: "unknown section marker `"@ + m + "`"@ },
        ]);
        return;
    };
    if section.region.is_none() {
        let mut message: Vec<char> = Vec::new();
        push_str(&mut message, "restriction marker `");
        push_range(&mut message, s, a, b);
        push_str(&mut message, "` appears before a region");
        diagnostics.push(Diagnostic { line_number: n, message: string_of(&message) });
        assert(diagnostics_view(diagnostics@) == before + seq![
            DiagnosticView {
                line_number: n as nat,
                message: "restriction marker `"@ + m + "` appears before a region"@,
            },
        ]);
        return;
    }
    section.restriction = Some(restriction);
    assert(diagnostics_view(diagnostics@) == before + opt_seq::<DiagnosticView>(None));
}

/// The view of a parsed card line.
pub open spec fn card_result_view(r: Result<CardEntry, String>) -> Result<CardEntryView, Seq<char>> {
    match r {
        Ok(card) => Ok(card@),
        Err(message) => Err(message@),
    }
}

/// Splits `s[a..b]` at each `//`, left to right.
fn split_fields(s: &Vec<char>, a: usize, b: usize) -> (r: Vec<(usize, usize)>)
    requires
        a <= b <= s@.len(),
    ensures
        r@.len() == split_from(s@.subrange(a as int, b as int), 0, 0).len(),
        forall|k: int|
            0 <= k < r@.len() ==> a <= (#[trigger] r@[k]).0 <= r@[k].1 <= b && s@.subrange(
                r@[k].0 as int,
                r@[k].1 as int,
            ) == split_from(s@.subrange(a as int, b as int), 0, 0)[k],
{
    let ghost line = s@.subrange(a as int, b as int);
    let mut r: Vec<(usize, usize)> = Vec::new();
    let mut start = a;
    let mut i = a;
    while b - i >= 2
        invariant
            a <= start <= i <= b <= s@.len(),
            line == s@.subrange(a as int, b as int),
            ({
                let rest = split_from(line, start - a, i - a);
                &&& split_from(line, 0, 0).len() == r@.len() + rest.len()
                &&& forall|k: int|
                    0 <= k < r@.len() ==> a <= (#[trigger] r@[k]).0 <= r@[k].1 <= b
                        && s@.subrange(r@[k].0 as int, r@[k].1 as int) == split_from(
                        line,
                        0,
                        0,
                    )[k]
                &&& forall|k: int|
                    0 <= k < rest.len() ==> split_from(line, 0, 0)[r@.len() + k] == #[trigger] rest[k]
            }),
        decreases b - i,
    {
        let ghost rest = split_from(line, start - a, i - a);
        if s[i] == '/' && s[i + 1] == '/' {
            assert(line.subrange(start - a, i - a) == s@.subrange(start as int, i as int));
            let ghost next = split_from(line, i + 2 - a, i + 2 - a);
            assert(rest == seq![line.subrange(start - a, i - a)] + next);
            assert(rest[0] == s@.subrange(start as int, i as int));
            r.push((start, i));
            assert forall|k: int| 0 <= k < next.len() implies split_from(line, 0, 0)[r@.len() + k]
                == #[trigger] next[k] by {
                assert(rest[k + 1] == next[k]);
            }
            start = i + 2;
            i = i + 2;
        } else {
            i = i + 1;
        }
    }
    let ghost rest = split_from(line, start - a, i - a);
    assert(rest == seq![line.subrange(start - a, line.len() as int)]);
    assert(line.subrange(start - a, line.len() as int) == s@.subrange(start as int, b as int));
    r.push((start, b));
    assert forall|k: int| 0 <= k < r@.len() implies a <= (#[trigger] r@[k]).0 <= r@[k].1 <= b
        && s@.subrange(r@[k].0 as int, r@[k].1 as int) == split_from(line, 0, 0)[k] by {
        if k == r@.len() - 1 {
            assert(split_from(line, 0, 0)[k] == rest[0]);
        }
    }
    r
}

/// Reads the card line `s[a..b]` (trimmed, not empty, not a marker) on line
/// `n` in `section`.
pub fn parse_card(s: &Vec<char>, a: usize, b: usize, n: usize, section: &Section) -> (r: Result<
    CardEntry,
    String,
>)
    requires
        a <= b <= s@.len(),
    ensures
        card_result_view(r) == card_step(s@.subrange(a as int, b as int), n as nat, *section),
{
    let ghost line = s@.subrange(a as int, b as int);
    let ghost f = fields(line);
    let region = match section.region {
        Some(region) => region,
        None => {
            return Err(string_of(&chars_of("card appears before an ocg or tcg marker")));
        },
    };
    let restriction = match section.restriction {
        Some(restriction) => restriction,
        None => {
            return Err(string_of(&chars_of("card appears before a restriction marker")));
        },
    };
    let raw = split_fields(s, a, b);
    if raw.len() < 2 || raw.len() > 3 {
        let mut message: Vec<char> = Vec::new();
        push_str(&mut message, "expected `Japanese name // English name[ // id]`, got ");
        let quoted = quote_debug(string_of_range(s, a, b).as_str());
        push_str(&mut message, quoted.as_str());
        return Err(string_of(&message));
    }
    let (j0, j1) = trim_range(s, raw[0].0, raw[0].1);
    let (e0, e1) = trim_range(s, raw[1].0, raw[1].1);
    assert(s@.subrange(j0 as int, j1 as int) == f[0]);
    assert(s@.subrange(e0 as int, e1 as int) == f[1]);
    let japanese_name = non_empty(s, j0, j1);
    let english_name = non_empty(s, e0, e1);
    if japanese_name.is_none() && english_name.is_none() {
        return Err(string_of(&chars_of("Japanese and English names are both empty")));
    }
    let mut explicit_id: Option<u32> = None;
    if raw.len() == 3 {
        let (i0, i1) = trim_range(s, raw[2].0, raw[2].1);
        assert(s@.subrange(i0 as int, i1 as int) == f[2]);
        if i0 == i1 {
            return Err(string_of(&chars_of("explicit ID is empty")));
        }
        match parse_number(s, i0, i1, 0xffff_ffff) {
            Some(id) => {
                explicit_id = Some(id as u32);
            },
            None => {
                let mut message: Vec<char> = Vec::new();
                push_str(&mut message, "invalid explicit ID `");
                push_range(&mut message, s, i0, i1);
                push_str(&mut message, "`");
                return Err(string_of(&message));
            },
        }
    }
    Ok(CardEntry { region, restriction, japanese_name, english_name, explicit_id, line_number: n })
}

/// `s[a..b]` as a string, or `None` when it is empty.
pub fn non_empty(s: &Vec<char>, a: usize, b: usize) -> (r: Option<String>)
    requires
        a <= b <= s@.len(),
    ensures
        crate::lf::model::opt_view(r) == non_empty_spec(s@.subrange(a as int, b as int)),
{
    if a == b {
        None
    } else {
        Some(string_of_range(s, a, b))
    }
}

} // verus!
