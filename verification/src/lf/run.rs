//! The run over one year's list, as a sequence of decisions: read the list,
//! ask for the names of its cards, write the resolved IDs, report. The
//! caller performs each action (reading, the lookups, writing, printing)
//! and hands back what came of it.

use vstd::prelude::*;

use crate::json::pretty_json;
use crate::lf::model::{entries_view, CardEntryView};
use crate::lf::output::grouped;
use crate::lf::parser::{diagnostics_view, parse, parse_spec, DiagnosticView, ParsedList};
use crate::lf::report::{input_path, names_to_query, output_path, skipped_line, year_output, RunError};
use crate::lf::resolver::{
    asks_for, has_name, resolve, resolve_spec, strictly_increasing,
    ResolveDiagnosticView, SearchResults,
};
use crate::text::{decimal, strings_view};

verus! {

/// How far a year's run has got.
#[derive(Clone, Copy, Debug, PartialEq, Eq, Structural)]
pub enum YearPhase {
    /// The list is being read.
    Reading,
    /// The names of its cards are being looked up.
    Asking,
    /// The resolved IDs are being written.
    Writing,
    /// The run is over.
    Finished,
}

/// Why a year's run failed.
#[derive(Debug, PartialEq, Eq)]
pub enum YearFailure {
    /// The list at this path could not be read.
    Unreadable(String),
    /// The list has no valid card, or no card could be resolved.
    Run(RunError),
    /// More lines were skipped than can be counted.
    TooManySkipped,
    /// The output at this path could not be written.
    WriteFailed(String),
}

/// What the caller is to do next.
#[derive(Debug, PartialEq, Eq)]
pub enum YearAction {
    /// Report a skipped line.
    Skipped(String),
    /// Look up these names.
    AskNames(Vec<String>),
    /// Write these bytes to the file at this path.
    WriteOutput(String, Vec<u8>),
    /// The run succeeded; report this line.
    Succeed(String),
    /// The run failed.
    Fail(YearFailure),
}

/// What came of the last action.
pub enum YearEvent {
    /// The text of the list, or `None` if it could not be read.
    ListRead(Option<String>),
    /// The outcome of each name that was asked for.
    NamesAnswered(SearchResults),
    /// Whether the output was written.
    OutputWritten(bool),
}

pub enum YearFailureView {
    Unreadable(Seq<char>),
    NoValidCards(Seq<char>),
    NothingResolved(Seq<char>),
    TooManySkipped,
    WriteFailed(Seq<char>),
}

pub enum YearActionView {
    Skipped(Seq<char>),
    AskNames(Seq<Seq<char>>),
    WriteOutput(Seq<char>, Seq<u8>),
    Succeed(Seq<char>),
    Fail(YearFailureView),
}

impl View for YearAction {
    type V = YearActionView;

    open spec fn view(&self) -> YearActionView {
        match self {
            YearAction::Skipped(s) => YearActionView::Skipped(s@),
            YearAction::AskNames(names) => YearActionView::AskNames(strings_view(names@)),
            YearAction::WriteOutput(p, bytes) => YearActionView::WriteOutput(p@, bytes@),
            YearAction::Succeed(s) => YearActionView::Succeed(s@),
            YearAction::Fail(f) => YearActionView::Fail(
                match f {
                    YearFailure::Unreadable(p) => YearFailureView::Unreadable(p@),
                    YearFailure::Run(RunError::NoValidCards(p)) => YearFailureView::NoValidCards(p@),
                    YearFailure::Run(RunError::NothingResolved(p)) => YearFailureView::NothingResolved(
                        p@,
                    ),
                    YearFailure::TooManySkipped => YearFailureView::TooManySkipped,
                    YearFailure::WriteFailed(p) => YearFailureView::WriteFailed(p@),
                },
            ),
        }
    }
}

pub open spec fn actions_view(v: Seq<YearAction>) -> Seq<YearActionView> {
    v.map_values(|a: YearAction| a@)
}

/// A year's run: its year, how far it has got, the list once read, and the
/// report of a run whose output is being written.
pub struct YearRun {
    year: u16,
    phase: YearPhase,
    parsed: ParsedList,
    report: String,
}

pub struct YearRunView {
    pub year: u16,
    pub phase: YearPhase,
    pub cards: Seq<CardEntryView>,
    pub diagnostics: Seq<DiagnosticView>,
    pub report: Seq<char>,
}

impl View for YearRun {
    type V = YearRunView;

    closed spec fn view(&self) -> YearRunView {
        YearRunView {
            year: self.year,
            phase: self.phase,
            cards: entries_view(self.parsed.cards@),
            diagnostics: diagnostics_view(self.parsed.diagnostics@),
            report: self.report@,
        }
    }
}

pub open spec fn input_spec(year: u16) -> Seq<char> {
    decimal(year as nat) + "/data/lf.list"@
}

pub open spec fn output_spec(year: u16) -> Seq<char> {
    decimal(year as nat) + "/data/lf.json"@
}

/// The report of a skipped line.
pub open spec fn skipped_spec(path: Seq<char>, line_number: nat, message: Seq<char>) -> Seq<char> {
    path + ":"@ + decimal(line_number) + ": skipped: "@ + message
}

/// The reports of the lines that parsing skipped.
pub open spec fn parse_skips(path: Seq<char>, ds: Seq<DiagnosticView>) -> Seq<YearActionView> {
    ds.map_values(
        |d: DiagnosticView| YearActionView::Skipped(skipped_spec(path, d.line_number, d.message)),
    )
}

/// The reports of the cards that resolution skipped.
pub open spec fn resolve_skips(path: Seq<char>, ds: Seq<ResolveDiagnosticView>) -> Seq<
    YearActionView,
> {
    ds.map_values(
        |d: ResolveDiagnosticView|
            YearActionView::Skipped(skipped_spec(path, d.line_number, d.message)),
    )
}

/// Some card of `cards` asks to look up `x`.
pub open spec fn asked_by(cards: Seq<CardEntryView>, x: Seq<char>) -> bool {
    exists|c: int| 0 <= c < cards.len() && asks_for(#[trigger] cards[c], x)
}

/// The line that reports a written year.
pub open spec fn report_spec(year: u16, written: nat, skipped: nat) -> Seq<char> {
    "wrote "@ + decimal(written) + " card IDs to "@ + output_spec(year) + " ("@ + decimal(skipped)
        + " skipped)"@
}

/// The order of the phases.
pub open spec fn rank(p: YearPhase) -> int {
    match p {
        YearPhase::Reading => 0,
        YearPhase::Asking => 1,
        YearPhase::Writing => 2,
        YearPhase::Finished => 3,
    }
}

/// The actions ask for names.
pub open spec fn asks(actions: Seq<YearActionView>) -> bool {
    exists|i: int| 0 <= i < actions.len() && #[trigger] actions[i] is AskNames
}

/// The actions write the output.
pub open spec fn writes(actions: Seq<YearActionView>) -> bool {
    exists|i: int| 0 <= i < actions.len() && #[trigger] actions[i] is WriteOutput
}

/// How one step may move a run: never back; names are asked exactly when
/// reading gives way to asking, and the output is written exactly when
/// asking gives way to writing.
pub open spec fn year_moves(before: YearPhase, after: YearPhase, actions: Seq<YearActionView>) -> bool {
    &&& rank(before) <= rank(after)
    &&& asks(actions) <==> (before == YearPhase::Reading && after == YearPhase::Asking)
    &&& writes(actions) <==> (before == YearPhase::Asking && after == YearPhase::Writing)
    &&& after == YearPhase::Asking ==> before == YearPhase::Reading || before == YearPhase::Asking
    &&& after == YearPhase::Writing ==> before == YearPhase::Asking || before == YearPhase::Writing
}

fn skip_actions_parsed(path: &String, parsed: &ParsedList, actions: &mut Vec<YearAction>)
    ensures
        actions_view(final(actions)@) == actions_view(old(actions)@) + parse_skips(
            path@,
            diagnostics_view(parsed.diagnostics@),
        ),
{
    let ghost start = actions_view(actions@);
    let ghost ds = diagnostics_view(parsed.diagnostics@);
    let mut k: usize = 0;
    while k < parsed.diagnostics.len()
        invariant
            k <= parsed.diagnostics@.len(),
            ds == diagnostics_view(parsed.diagnostics@),
            actions_view(actions@) == start + parse_skips(path@, ds.take(k as int)),
        decreases parsed.diagnostics@.len() - k,
    {
        let d = &parsed.diagnostics[k];
        let line = skipped_line(path.as_str(), d.line_number, d.message.as_str());
        let ghost before = actions_view(actions@);
        actions.push(YearAction::Skipped(line));
        assert(actions_view(actions@) == before.push(actions@.last()@));
        assert(ds.take(k + 1) == ds.take(k as int).push(ds[k as int]));
        assert(parse_skips(path@, ds.take(k + 1)) == parse_skips(path@, ds.take(k as int)).push(
            YearActionView::Skipped(skipped_spec(path@, ds[k as int].line_number, ds[k as int].message)),
        ));
        k = k + 1;
    }
    assert(ds.take(ds.len() as int) == ds);
}

fn skip_actions_resolved(
    path: &String,
    ds_exec: &Vec<crate::lf::resolver::ResolveDiagnostic>,
    actions: &mut Vec<YearAction>,
)
    ensures
        actions_view(final(actions)@) == actions_view(old(actions)@) + resolve_skips(
            path@,
            crate::lf::resolver::resolve_diagnostics_view(ds_exec@),
        ),
{
    let ghost start = actions_view(actions@);
    let ghost ds = crate::lf::resolver::resolve_diagnostics_view(ds_exec@);
    let mut k: usize = 0;
    while k < ds_exec.len()
        invariant
            k <= ds_exec@.len(),
            ds == crate::lf::resolver::resolve_diagnostics_view(ds_exec@),
            actions_view(actions@) == start + resolve_skips(path@, ds.take(k as int)),
        decreases ds_exec@.len() - k,
    {
        let d = &ds_exec[k];
        let line = skipped_line(path.as_str(), d.line_number, d.message.as_str());
        let ghost before = actions_view(actions@);
        actions.push(YearAction::Skipped(line));
        assert(actions_view(actions@) == before.push(actions@.last()@));
        assert(ds.take(k + 1) == ds.take(k as int).push(ds[k as int]));
        assert(resolve_skips(path@, ds.take(k + 1)) == resolve_skips(path@, ds.take(k as int)).push(
            YearActionView::Skipped(skipped_spec(path@, ds[k as int].line_number, ds[k as int].message)),
        ));
        k = k + 1;
    }
    assert(ds.take(ds.len() as int) == ds);
}

impl YearRun {
    /// A run over the list of `year`, which starts by reading it.
    pub fn start(year: u16) -> (r: (YearRun, String))
        ensures
            r.0@.year == year,
            r.0@.phase == YearPhase::Reading,
            r.1@ == input_spec(year),
    {
        let run = YearRun {
            year,
            phase: YearPhase::Reading,
            parsed: ParsedList { cards: Vec::new(), diagnostics: Vec::new() },
            report: String::new(),
        };
        (run, input_path(year))
    }

    /// The phase the run is in.
    pub fn phase(&self) -> (p: YearPhase)
        ensures
            p == self@.phase,
    {
        self.phase
    }

    /// Takes in what came of the last action and gives the next actions.
    ///
    /// Reading: the list is parsed and each skipped line reported; without
    /// a valid card the run fails, else the names of the cards without an
    /// explicit ID are asked for, sorted and each once. Asking: the cards are
    /// resolved with the answers and each skipped card reported; with no
    /// card resolved the run fails and nothing is written, else the grouped
    /// IDs and a newline are written. Writing: the run succeeds with its
    /// report, or fails if the write failed. An event that the phase does
    /// not wait for changes nothing.
    pub fn step(&mut self, event: YearEvent) -> (actions: Vec<YearAction>)
        ensures
            final(self)@.year == old(self)@.year,
            year_moves(old(self)@.phase, final(self)@.phase, actions_view(actions@)),
            ({
                let year = old(self)@.year;
                let input = input_spec(year);
                let output = output_spec(year);
                let a = actions_view(actions@);
                match (old(self)@.phase, event) {
                    (YearPhase::Reading, YearEvent::ListRead(None)) => {
                        &&& final(self)@.phase == YearPhase::Finished
                        &&& a == seq![YearActionView::Fail(YearFailureView::Unreadable(input))]
                    },
                    (YearPhase::Reading, YearEvent::ListRead(Some(text))) => {
                        let p = parse_spec(text@);
                        let skips = parse_skips(input, p.1);
                        if p.0.len() == 0 {
                            &&& final(self)@.phase == YearPhase::Finished
                            &&& a == skips.push(
                                YearActionView::Fail(YearFailureView::NoValidCards(input)),
                            )
                        } else {
                            &&& final(self)@.phase == YearPhase::Asking
                            &&& final(self)@.cards == p.0
                            &&& final(self)@.diagnostics == p.1
                            &&& a.len() == skips.len() + 1
                            &&& a.take(skips.len() as int) == skips
                            &&& a.last() matches YearActionView::AskNames(names) && (forall|
                                i: int,
                                j: int,
                            |
                                0 <= i < j < names.len() ==> crate::text::seq_lt(
                                    #[trigger] names[i],
                                    #[trigger] names[j],
                                )) && (forall|x: Seq<char>| #[trigger]
                                names.contains(x) <==> asked_by(p.0, x))
                        }
                    },
                    (YearPhase::Asking, YearEvent::NamesAnswered(results)) => {
                        let r = resolve_spec(old(self)@.cards, results@);
                        let skips = resolve_skips(input, r.1);
                        let skipped = old(self)@.diagnostics.len() + r.1.len();
                        if skipped > usize::MAX {
                            &&& final(self)@.phase == YearPhase::Finished
                            &&& a == skips.push(YearActionView::Fail(YearFailureView::TooManySkipped))
                        } else if r.0.len() == 0 {
                            &&& final(self)@.phase == YearPhase::Finished
                            &&& a == skips.push(
                                YearActionView::Fail(YearFailureView::NothingResolved(output)),
                            )
                        } else {
                            &&& final(self)@.phase == YearPhase::Writing
                            &&& final(self)@.report == report_spec(year, r.0.len(), skipped as nat)
                            &&& a == skips.push(
                                YearActionView::WriteOutput(
                                    output,
                                    pretty_json(grouped(r.0)).push(0x0au8),
                                ),
                            )
                        }
                    },
                    (YearPhase::Writing, YearEvent::OutputWritten(true)) => {
                        &&& final(self)@.phase == YearPhase::Finished
                        &&& a == seq![YearActionView::Succeed(old(self)@.report)]
                    },
                    (YearPhase::Writing, YearEvent::OutputWritten(false)) => {
                        &&& final(self)@.phase == YearPhase::Finished
                        &&& a == seq![YearActionView::Fail(YearFailureView::WriteFailed(output))]
                    },
                    _ => final(self)@ == old(self)@ && a.len() == 0,
                }
            }),
    {
        let input = input_path(self.year);
        let output = output_path(self.year);
        let mut actions: Vec<YearAction> = Vec::new();
        match (self.phase, event) {
            (YearPhase::Reading, YearEvent::ListRead(None)) => {
                self.phase = YearPhase::Finished;
                actions.push(YearAction::Fail(YearFailure::Unreadable(input)));
                proof {
                    assert(actions_view(actions@) =~= seq![actions@[0]@]);
                }
            },
            (YearPhase::Reading, YearEvent::ListRead(Some(text))) => {
                let parsed = parse(text.as_str());
                skip_actions_parsed(&input, &parsed, &mut actions);
                let ghost skips = actions_view(actions@);
                let ghost p = parse_spec(text@);
                match names_to_query(input.as_str(), &parsed) {
                    Err(e) => {
                        self.phase = YearPhase::Finished;
                        actions.push(YearAction::Fail(YearFailure::Run(e)));
                        assert(actions_view(actions@) == skips.push(actions@.last()@));
                    },
                    Ok(names) => {
                        proof {
                            let nv = strings_view(names@);
                            assert forall|x: Seq<char>| #[trigger] nv.contains(x) <==> asked_by(p.0, x) by {
                                if nv.contains(x) {
                                    let i = choose|i: int| 0 <= i < nv.len() && nv[i] == x;
                                    assert(has_name(names@, x));
                                }
                                if has_name(names@, x) {
                                    let i = choose|i: int| 0 <= i < names@.len() && #[trigger] names@[i]@
                                        == x;
                                    assert(nv[i] == x);
                                }
                                if asked_by(p.0, x) {
                                    let c = choose|c: int| 0 <= c < p.0.len() && asks_for(
                                        #[trigger] p.0[c],
                                        x,
                                    );
                                    assert(p.0[c] == parsed.cards@[c]@);
                                }
                                if crate::lf::resolver::asked(
                                    parsed.cards@,
                                    parsed.cards@.len() as int,
                                    x,
                                ) {
                                    let c = choose|c: int|
                                        0 <= c < parsed.cards@.len() && asks_for(
                                            #[trigger] parsed.cards@[c]@,
                                            x,
                                        );
                                    assert(p.0[c] == parsed.cards@[c]@);
                                }
                            }
                            assert forall|i: int, j: int| 0 <= i < j < nv.len() implies crate::text::seq_lt(
                                #[trigger] nv[i],
                                #[trigger] nv[j],
                            ) by {
                                assert(crate::text::seq_lt(names@[i]@, names@[j]@));
                            }
                        }
                        actions.push(YearAction::AskNames(names));
                        assert(actions_view(actions@) == skips.push(actions@.last()@));
                        assert(actions_view(actions@).take(skips.len() as int) == skips);
                        self.parsed = parsed;
                        self.phase = YearPhase::Asking;
                    },
                }
                proof {
                    let a = actions_view(actions@);
                    assert(a.last() == a[a.len() - 1]);
                    assert forall|i: int| 0 <= i < skips.len() implies !(#[trigger] a[i] is AskNames)
                        && !(a[i] is WriteOutput) by {
                        assert(a[i] == skips[i]);
                    }
                    if p.0.len() > 0 {
                        assert(a[a.len() - 1] is AskNames);
                    }
                }
            },
            (YearPhase::Asking, YearEvent::NamesAnswered(results)) => {
                let resolved = resolve(&self.parsed.cards, &results);
                skip_actions_resolved(&input, &resolved.diagnostics, &mut actions);
                let ghost skips = actions_view(actions@);
                if self.parsed.diagnostics.len() > usize::MAX - resolved.diagnostics.len() {
                    self.phase = YearPhase::Finished;
                    actions.push(YearAction::Fail(YearFailure::TooManySkipped));
                    assert(actions_view(actions@) == skips.push(actions@.last()@));
                } else {
                    match year_output(output.as_str(), &self.parsed, &resolved) {
                        Ok((bytes, report)) => {
                            actions.push(YearAction::WriteOutput(output, bytes));
                            assert(actions_view(actions@) == skips.push(actions@.last()@));
                            self.report = report;
                            self.phase = YearPhase::Writing;
                        },
                        Err(e) => {
                            actions.push(YearAction::Fail(YearFailure::Run(e)));
                            assert(actions_view(actions@) == skips.push(actions@.last()@));
                            self.phase = YearPhase::Finished;
                        },
                    }
                }
                proof {
                    let a = actions_view(actions@);
                    assert forall|i: int| 0 <= i < skips.len() implies !(#[trigger] a[i] is AskNames)
                        && !(a[i] is WriteOutput) by {
                        assert(a[i] == skips[i]);
                    }
                    assert(a[a.len() - 1] == actions@.last()@);
                }
            },
            (YearPhase::Writing, YearEvent::OutputWritten(written)) => {
                self.phase = YearPhase::Finished;
                if written {
                    actions.push(YearAction::Succeed(self.report.clone()));
                } else {
                    actions.push(YearAction::Fail(YearFailure::WriteFailed(output)));
                }
                proof {
                    assert(actions_view(actions@) =~= seq![actions@[0]@]);
                }
            },
            _ => {
                assert(actions_view(actions@) =~= Seq::<YearActionView>::empty());
            },
        }
        actions
    }
}

/// Over any run of a year that starts by reading its list, the names are
/// asked for at most once, and the output is written at most once and only
/// after the names were asked for.
pub proof fn law_ask_once_write_once_after(phases: Seq<YearPhase>, steps: Seq<Seq<YearActionView>>)
    requires
        phases.len() == steps.len() + 1,
        phases[0] == YearPhase::Reading,
        forall|i: int| 0 <= i < steps.len() ==> year_moves(phases[i], phases[i + 1], #[trigger] steps[i]),
    ensures
        forall|i: int, j: int| 0 <= i < j < steps.len() ==> !(asks(#[trigger] steps[i]) && asks(#[trigger] steps[j])),
        forall|i: int, j: int| 0 <= i < j < steps.len() ==> !(writes(#[trigger] steps[i]) && writes(#[trigger] steps[j])),
        forall|j: int| 0 <= j < steps.len() && #[trigger] writes(steps[j]) ==> exists|i: int| 0 <= i < j && #[trigger] asks(steps[i]),
{
    lemma_ranks_rise(phases, steps);
    assert forall|i: int, j: int| 0 <= i < j < steps.len() implies !(asks(#[trigger] steps[i]) && asks(#[trigger] steps[j])) by {
        if asks(steps[i]) && asks(steps[j]) {
            assert(rank(phases[i + 1]) <= rank(phases[j]));
        }
    }
    assert forall|i: int, j: int| 0 <= i < j < steps.len() implies !(writes(#[trigger] steps[i]) && writes(#[trigger] steps[j])) by {
        if writes(steps[i]) && writes(steps[j]) {
            assert(rank(phases[i + 1]) <= rank(phases[j]));
        }
    }
    assert forall|j: int| 0 <= j < steps.len() && #[trigger] writes(steps[j]) implies exists|i: int| 0 <= i < j && #[trigger] asks(steps[i]) by {
        lemma_asking_was_entered(phases, steps, j);
    }
}

/// Phases never go back along a run.
proof fn lemma_ranks_rise(phases: Seq<YearPhase>, steps: Seq<Seq<YearActionView>>)
    requires
        phases.len() == steps.len() + 1,
        forall|i: int| 0 <= i < steps.len() ==> year_moves(phases[i], phases[i + 1], #[trigger] steps[i]),
    ensures
        forall|i: int, j: int| 0 <= i <= j < phases.len() ==> rank(#[trigger] phases[i]) <= rank(#[trigger] phases[j]),
{
    assert forall|i: int, j: int| 0 <= i <= j < phases.len() implies rank(#[trigger] phases[i]) <= rank(#[trigger] phases[j]) by {
        lemma_rank_between(phases, steps, i, j);
    }
}

proof fn lemma_rank_between(phases: Seq<YearPhase>, steps: Seq<Seq<YearActionView>>, i: int, j: int)
    requires
        phases.len() == steps.len() + 1,
        forall|k: int| 0 <= k < steps.len() ==> year_moves(phases[k], phases[k + 1], #[trigger] steps[k]),
        0 <= i <= j < phases.len(),
    ensures
        rank(phases[i]) <= rank(phases[j]),
    decreases j - i,
{
    if i < j {
        lemma_rank_between(phases, steps, i, j - 1);
        assert(year_moves(phases[j - 1], phases[j], steps[j - 1]));
    }
}

/// A run in the asking phase at step `j` (or writing) got there by asking
/// at an earlier step.
proof fn lemma_asking_was_entered(phases: Seq<YearPhase>, steps: Seq<Seq<YearActionView>>, j: int)
    requires
        phases.len() == steps.len() + 1,
        phases[0] == YearPhase::Reading,
        forall|k: int| 0 <= k < steps.len() ==> year_moves(phases[k], phases[k + 1], #[trigger] steps[k]),
        0 <= j < steps.len(),
        phases[j] == YearPhase::Asking || phases[j] == YearPhase::Writing || writes(steps[j]),
    ensures
        exists|i: int| 0 <= i < j && #[trigger] asks(steps[i]),
    decreases j,
{
    assert(year_moves(phases[j], phases[j + 1], steps[j]));
    if j == 0 {
        assert(phases[0] == YearPhase::Reading);
    } else {
        let k = j - 1;
        assert(year_moves(phases[k], phases[k + 1], steps[k]));
        if asks(steps[k]) {
        } else {
            lemma_asking_was_entered(phases, steps, k);
            let i = choose|i: int| 0 <= i < k && #[trigger] asks(steps[i]);
            assert(0 <= i < j);
        }
    }
}

} // verus!
