//! Rendering the card previews, as a sequence of decisions: check the
//! request and the template workspace, write the Typst source, check the
//! fonts, run Typst, name each rendered page after its card, and only then
//! replace the previous previews (see `staging`). The caller performs each
//! action and hands back what came of it.

use vstd::prelude::*;

use crate::paths::first_missing;
use crate::render::previews::{
    by_page, check_request, font_candidates, font_paths, font_paths_spec, page_renames,
    render_arguments, typst_source, typst_source_spec, validate_workspace, workspace_files,
    workspace_files_spec, PreviewError,
};
use crate::render::typst::compile_arguments_spec;
use crate::staging::{stage_step, StageAction, StageEvent, Staging};
use crate::text::{chars_of, decimal, push_decimal, push_str, string_of, strings_view};

verus! {

/// How far a rendering has got.
#[derive(Clone, Copy, Debug, PartialEq, Eq, Structural)]
pub enum PreviewPhase {
    CheckingFiles,
    Preparing,
    CheckingFonts,
    Rendering,
    Listing,
    Renaming,
    Installing,
    Finished,
}

/// Why the previews were not rendered.
#[derive(Debug, PartialEq, Eq)]
pub enum PreviewFailure {
    /// The request, the workspace, its fonts or the rendered pages are not
    /// as they must be.
    Invalid(PreviewError),
    /// The Typst source or the staging directory could not be written.
    NotPrepared,
    /// Typst failed.
    RenderFailed,
    /// A page could not be renamed.
    NotRenamed,
    /// The previous previews could not be moved aside; they are untouched.
    MoveAsideFailed,
    /// The new previews could not be moved in; the previous ones were put
    /// back as far as that was possible.
    PlaceFailed,
}

/// What the caller is to do next.
#[derive(Debug, PartialEq, Eq)]
pub enum PreviewAction {
    /// Report, for each of these paths, whether it is a file.
    CheckFiles(Vec<String>),
    /// Write this Typst source into a staging directory, and report where
    /// it is and where the pages are to go.
    Prepare(String),
    /// Report, for each of these paths, whether it is a directory.
    CheckFonts(Vec<String>),
    /// Run Typst with these arguments.
    Render(Vec<String>),
    /// Report the rendered pages, with their page numbers.
    ListPages,
    /// Rename each page (first) to its card's preview name (second).
    Rename(Vec<(String, String)>),
    /// Report whether the previews' destination exists.
    ProbeDestination,
    /// Perform this move of the replacement.
    Stage(StageAction),
    /// The previews are in place; report this line.
    Succeed(String),
    /// The rendering failed.
    Fail(PreviewFailure),
}

/// What came of the last action.
pub enum PreviewEvent {
    FilesPresent(Vec<bool>),
    /// The paths of the written source and of the pages' pattern, or `None`
    /// if they could not be written.
    Prepared(Option<(String, String)>),
    FontsPresent(Vec<bool>),
    Rendered(bool),
    Pages(Vec<(u32, String)>),
    Renamed(bool),
    Staged(StageEvent),
}

/// A rendering of the previews of `identifiers` at `ppi`, from the project
/// at `root` with the template workspace at `workspace`.
pub struct PreviewRun {
    phase: PreviewPhase,
    identifiers: Vec<u32>,
    ppi: u16,
    root: String,
    workspace: String,
    source: String,
    pattern: String,
    staging: Staging,
}

pub struct PreviewRunView {
    pub phase: PreviewPhase,
    pub identifiers: Seq<u32>,
    pub ppi: u16,
    pub root: Seq<char>,
    pub workspace: Seq<char>,
    pub source: Seq<char>,
    pub pattern: Seq<char>,
    pub staging: Staging,
}

impl View for PreviewRun {
    type V = PreviewRunView;

    closed spec fn view(&self) -> PreviewRunView {
        PreviewRunView {
            phase: self.phase,
            identifiers: self.identifiers@,
            ppi: self.ppi,
            root: self.root@,
            workspace: self.workspace@,
            source: self.source@,
            pattern: self.pattern@,
            staging: self.staging,
        }
    }
}

pub open spec fn rank(p: PreviewPhase) -> int {
    match p {
        PreviewPhase::CheckingFiles => 0,
        PreviewPhase::Preparing => 1,
        PreviewPhase::CheckingFonts => 2,
        PreviewPhase::Rendering => 3,
        PreviewPhase::Listing => 4,
        PreviewPhase::Renaming => 5,
        PreviewPhase::Installing => 6,
        PreviewPhase::Finished => 7,
    }
}

/// The action moves or probes the previews' destination.
pub open spec fn touches(a: Option<PreviewAction>) -> bool {
    a matches Some(PreviewAction::Stage(_)) || a matches Some(PreviewAction::ProbeDestination)
}

/// The event says that Typst succeeded.
pub open spec fn rendered(e: PreviewEvent) -> bool {
    e matches PreviewEvent::Rendered(true)
}

/// The event lists one page for each of `cards` cards.
pub open spec fn one_page_per_card(e: PreviewEvent, cards: nat) -> bool {
    e matches PreviewEvent::Pages(pages) && pages@.len() == cards
}

/// The event says that every page was renamed.
pub open spec fn renamed(e: PreviewEvent) -> bool {
    e matches PreviewEvent::Renamed(true)
}

/// How one step may move a rendering: never back; it lists the pages only
/// once Typst succeeded; it renames them only once there is one page per
/// card; it replaces the previews only once every page was renamed; and it
/// touches the destination only while replacing.
pub open spec fn preview_moves(
    cards: nat,
    before: PreviewPhase,
    after: PreviewPhase,
    event: PreviewEvent,
    action: Option<PreviewAction>,
) -> bool {
    &&& rank(before) <= rank(after)
    &&& after == PreviewPhase::Listing && before != PreviewPhase::Listing ==> before
        == PreviewPhase::Rendering && rendered(event)
    &&& after == PreviewPhase::Renaming && before != PreviewPhase::Renaming ==> before
        == PreviewPhase::Listing && one_page_per_card(event, cards)
    &&& after == PreviewPhase::Installing && before != PreviewPhase::Installing ==> before
        == PreviewPhase::Renaming && renamed(event)
    &&& touches(action) ==> after == PreviewPhase::Installing || before == PreviewPhase::Installing
}

/// The line that reports rendered previews.
pub open spec fn preview_report_spec(count: nat, ppi: u16) -> Seq<char> {
    "rendered "@ + decimal(count) + " card previews at "@ + decimal(ppi as nat)
        + " PPI to build/previews/ot"@
}

/// The line that reports `count` previews rendered at `ppi`.
pub fn preview_report(count: usize, ppi: u16) -> (s: String)
    ensures
        s@ == preview_report_spec(count as nat, ppi),
{
    let mut out: Vec<char> = Vec::new();
    push_str(&mut out, "rendered ");
    push_decimal(&mut out, count as u64);
    push_str(&mut out, " card previews at ");
    push_decimal(&mut out, ppi as u64);
    push_str(&mut out, " PPI to build/previews/ot");
    string_of(&out)
}

impl PreviewRun {
    /// A rendering of `identifiers` at `ppi`: it fails at once if the
    /// resolution is outside 36..=144 or there is no card, and otherwise
    /// starts by checking the workspace's files.
    pub fn start(identifiers: Vec<u32>, ppi: u16, root: String, workspace: String) -> (r: (
        PreviewRun,
        PreviewAction,
    ))
        ensures
            r.0@.identifiers == identifiers@,
            r.0@.ppi == ppi,
            r.0@.root == root@,
            r.0@.workspace == workspace@,
            !(36 <= ppi <= 144) ==> r.0@.phase == PreviewPhase::Finished && r.1 == PreviewAction::Fail(
                PreviewFailure::Invalid(PreviewError::ResolutionOutOfRange),
            ),
            36 <= ppi <= 144 && identifiers@.len() == 0 ==> r.0@.phase == PreviewPhase::Finished
                && r.1 == PreviewAction::Fail(PreviewFailure::Invalid(PreviewError::NoCards)),
            36 <= ppi <= 144 && identifiers@.len() > 0 ==> r.0@.phase == PreviewPhase::CheckingFiles
                && (r.1 matches PreviewAction::CheckFiles(ps) && strings_view(ps@)
                == workspace_files_spec(workspace@)),
    {
        let checked = check_request(ppi, &identifiers);
        let files = workspace_files(workspace.as_str());
        let mut run = PreviewRun {
            phase: PreviewPhase::CheckingFiles,
            identifiers,
            ppi,
            root,
            workspace,
            source: String::new(),
            pattern: String::new(),
            staging: Staging::start(),
        };
        match checked {
            Ok(()) => (run, PreviewAction::CheckFiles(files)),
            Err(e) => {
                run.phase = PreviewPhase::Finished;
                (run, PreviewAction::Fail(PreviewFailure::Invalid(e)))
            },
        }
    }

    /// The phase the rendering is in.
    pub fn phase(&self) -> (p: PreviewPhase)
        ensures
            p == self@.phase,
    {
        self.phase
    }

    /// Takes in what came of the last action and gives the next one; an
    /// event that the phase does not wait for (or a check of another number
    /// of paths) changes nothing.
    pub fn step(&mut self, event: PreviewEvent) -> (action: Option<PreviewAction>)
        ensures
            final(self)@.identifiers == old(self)@.identifiers,
            final(self)@.ppi == old(self)@.ppi,
            final(self)@.root == old(self)@.root,
            final(self)@.workspace == old(self)@.workspace,
            preview_moves(
                old(self)@.identifiers.len(),
                old(self)@.phase,
                final(self)@.phase,
                event,
                action,
            ),
            ({
                let s = old(self)@;
                let f = final(self)@;
                match (s.phase, event) {
                    (PreviewPhase::CheckingFiles, PreviewEvent::FilesPresent(v)) => if v@.len() != 2 {
                        f == s && action is None
                    } else {
                        match first_missing(workspace_files_spec(s.workspace), v@) {
                            Some(p) => {
                                &&& f.phase == PreviewPhase::Finished
                                &&& action matches Some(
                                    PreviewAction::Fail(
                                        PreviewFailure::Invalid(
                                            PreviewError::WorkspaceFileMissing(q),
                                        ),
                                    ),
                                ) && q@ == p
                            },
                            None => {
                                &&& f.phase == PreviewPhase::Preparing
                                &&& action matches Some(PreviewAction::Prepare(text)) && text@
                                    == typst_source_spec(s.identifiers)
                            },
                        }
                    },
                    (PreviewPhase::Preparing, PreviewEvent::Prepared(None)) => f.phase
                        == PreviewPhase::Finished && action == Some(
                        PreviewAction::Fail(PreviewFailure::NotPrepared),
                    ),
                    (PreviewPhase::Preparing, PreviewEvent::Prepared(Some((source, pattern)))) => {
                        &&& f.phase == PreviewPhase::CheckingFonts
                        &&& f.source == source@
                        &&& f.pattern == pattern@
                        &&& action matches Some(PreviewAction::CheckFonts(ps)) && strings_view(ps@)
                            == font_paths_spec(s.workspace)
                    },
                    (PreviewPhase::CheckingFonts, PreviewEvent::FontsPresent(v)) => if v@.len() != 2 {
                        f == s && action is None
                    } else {
                        match first_missing(font_paths_spec(s.workspace), v@) {
                            Some(p) => {
                                &&& f.phase == PreviewPhase::Finished
                                &&& action matches Some(
                                    PreviewAction::Fail(
                                        PreviewFailure::Invalid(
                                            PreviewError::FontDirectoryMissing(q),
                                        ),
                                    ),
                                ) && q@ == p
                            },
                            None => {
                                &&& f.phase == PreviewPhase::Rendering
                                &&& action matches Some(PreviewAction::Render(args)) && strings_view(
                                    args@,
                                ) == compile_arguments_spec(s.root, font_paths_spec(s.workspace))
                                    + seq!["--ppi"@, decimal(s.ppi as nat), s.source, s.pattern]
                            },
                        }
                    },
                    (PreviewPhase::Rendering, PreviewEvent::Rendered(false)) => f.phase
                        == PreviewPhase::Finished && action == Some(
                        PreviewAction::Fail(PreviewFailure::RenderFailed),
                    ),
                    (PreviewPhase::Rendering, PreviewEvent::Rendered(true)) => f.phase
                        == PreviewPhase::Listing && action == Some(PreviewAction::ListPages),
                    (PreviewPhase::Listing, PreviewEvent::Pages(pages)) => if pages@.len()
                        != s.identifiers.len() {
                        f.phase == PreviewPhase::Finished && action == Some(
                            PreviewAction::Fail(
                                PreviewFailure::Invalid(
                                    PreviewError::PageCountMismatch(
                                        pages@.len() as usize,
                                        s.identifiers.len() as usize,
                                    ),
                                ),
                            ),
                        )
                    } else {
                        &&& f.phase == PreviewPhase::Renaming
                        &&& action matches Some(PreviewAction::Rename(renames)) && renames@.len()
                            == s.identifiers.len() && exists|sorted: Seq<(u32, String)>|
                            #![trigger by_page(sorted)]
                            by_page(sorted) && sorted.to_multiset() == pages@.to_multiset()
                                && sorted.len() == renames@.len() && forall|k: int|
                                0 <= k < renames@.len() ==> (#[trigger] renames@[k]).0
                                    == sorted[k].1 && renames@[k].1@ == decimal(
                                    s.identifiers[k] as nat,
                                ) + ".png"@
                    },
                    (PreviewPhase::Renaming, PreviewEvent::Renamed(false)) => f.phase
                        == PreviewPhase::Finished && action == Some(
                        PreviewAction::Fail(PreviewFailure::NotRenamed),
                    ),
                    (PreviewPhase::Renaming, PreviewEvent::Renamed(true)) => {
                        &&& f.phase == PreviewPhase::Installing
                        &&& f.staging == Staging::start_spec()
                        &&& action == Some(PreviewAction::ProbeDestination)
                    },
                    (PreviewPhase::Installing, PreviewEvent::Staged(e)) => {
                        let (next, a) = stage_step(s.staging, e);
                        &&& f.staging == next
                        &&& match a {
                            None => f.phase == s.phase && action is None,
                            Some(StageAction::Succeed) => {
                                &&& f.phase == PreviewPhase::Finished
                                &&& action matches Some(PreviewAction::Succeed(line)) && line@
                                    == preview_report_spec(s.identifiers.len(), s.ppi)
                            },
                            Some(StageAction::MoveAsideFailed) => f.phase
                                == PreviewPhase::Finished && action == Some(
                                PreviewAction::Fail(PreviewFailure::MoveAsideFailed),
                            ),
                            Some(StageAction::PlaceFailed) => f.phase == PreviewPhase::Finished
                                && action == Some(PreviewAction::Fail(PreviewFailure::PlaceFailed)),
                            Some(move_) => f.phase == s.phase && action == Some(
                                PreviewAction::Stage(move_),
                            ),
                        }
                    },
                    _ => f == s && action is None,
                }
            }),
    {
        match (self.phase, event) {
            (PreviewPhase::CheckingFiles, PreviewEvent::FilesPresent(v)) => {
                if v.len() != 2 {
                    return None;
                }
                match validate_workspace(self.workspace.as_str(), &v) {
                    Ok(()) => {
                        self.phase = PreviewPhase::Preparing;
                        Some(PreviewAction::Prepare(typst_source(&self.identifiers)))
                    },
                    Err(e) => {
                        self.phase = PreviewPhase::Finished;
                        Some(PreviewAction::Fail(PreviewFailure::Invalid(e)))
                    },
                }
            },
            (PreviewPhase::Preparing, PreviewEvent::Prepared(None)) => {
                self.phase = PreviewPhase::Finished;
                Some(PreviewAction::Fail(PreviewFailure::NotPrepared))
            },
            (PreviewPhase::Preparing, PreviewEvent::Prepared(Some((source, pattern)))) => {
                self.source = source;
                self.pattern = pattern;
                self.phase = PreviewPhase::CheckingFonts;
                Some(PreviewAction::CheckFonts(font_candidates(self.workspace.as_str())))
            },
            (PreviewPhase::CheckingFonts, PreviewEvent::FontsPresent(v)) => {
                if v.len() != 2 {
                    return None;
                }
                match font_paths(self.workspace.as_str(), &v) {
                    Ok(fonts) => {
                        self.phase = PreviewPhase::Rendering;
                        Some(
                            PreviewAction::Render(
                                render_arguments(
                                    self.root.as_str(),
                                    &fonts,
                                    self.ppi,
                                    self.source.as_str(),
                                    self.pattern.as_str(),
                                ),
                            ),
                        )
                    },
                    Err(e) => {
                        self.phase = PreviewPhase::Finished;
                        Some(PreviewAction::Fail(PreviewFailure::Invalid(e)))
                    },
                }
            },
            (PreviewPhase::Rendering, PreviewEvent::Rendered(rendered)) => {
                if rendered {
                    self.phase = PreviewPhase::Listing;
                    Some(PreviewAction::ListPages)
                } else {
                    self.phase = PreviewPhase::Finished;
                    Some(PreviewAction::Fail(PreviewFailure::RenderFailed))
                }
            },
            (PreviewPhase::Listing, PreviewEvent::Pages(pages)) => {
                let ghost count = pages@.len();
                match page_renames(pages, &self.identifiers) {
                    Ok(renames) => {
                        self.phase = PreviewPhase::Renaming;
                        Some(PreviewAction::Rename(renames))
                    },
                    Err(e) => {
                        self.phase = PreviewPhase::Finished;
                        Some(PreviewAction::Fail(PreviewFailure::Invalid(e)))
                    },
                }
            },
            (PreviewPhase::Renaming, PreviewEvent::Renamed(renamed)) => {
                if renamed {
                    self.phase = PreviewPhase::Installing;
                    self.staging = Staging::start();
                    Some(PreviewAction::ProbeDestination)
                } else {
                    self.phase = PreviewPhase::Finished;
                    Some(PreviewAction::Fail(PreviewFailure::NotRenamed))
                }
            },
            (PreviewPhase::Installing, PreviewEvent::Staged(e)) => {
                match self.staging.step(e) {
                    None => None,
                    Some(StageAction::Succeed) => {
                        self.phase = PreviewPhase::Finished;
                        Some(PreviewAction::Succeed(preview_report(self.identifiers.len(), self.ppi)))
                    },
                    Some(StageAction::MoveAsideFailed) => {
                        self.phase = PreviewPhase::Finished;
                        Some(PreviewAction::Fail(PreviewFailure::MoveAsideFailed))
                    },
                    Some(StageAction::PlaceFailed) => {
                        self.phase = PreviewPhase::Finished;
                        Some(PreviewAction::Fail(PreviewFailure::PlaceFailed))
                    },
                    Some(move_) => Some(PreviewAction::Stage(move_)),
                }
            },
            _ => None,
        }
    }
}

/// Over any rendering of `cards` previews that starts by checking the
/// workspace, every action that touches the previews' destination comes
/// after Typst succeeded, then one page was listed for each card, then every
/// page was renamed after its card: the previous previews are never touched
/// for a rendering that did not produce them all.
pub proof fn law_replace_only_complete_previews(
    cards: nat,
    phases: Seq<PreviewPhase>,
    events: Seq<PreviewEvent>,
    actions: Seq<Option<PreviewAction>>,
)
    requires
        phases.len() == events.len() + 1,
        actions.len() == events.len(),
        phases[0] == PreviewPhase::CheckingFiles,
        forall|i: int|
            0 <= i < events.len() ==> preview_moves(
                cards,
                phases[i],
                phases[i + 1],
                #[trigger] events[i],
                actions[i],
            ),
    ensures
        forall|j: int|
            0 <= j < actions.len() && touches(#[trigger] actions[j]) ==> exists|r: int|
                0 <= r <= j && #[trigger] renamed(events[r]) && exists|l: int|
                    0 <= l < r && #[trigger] one_page_per_card(events[l], cards) && exists|t: int|
                        0 <= t < l && #[trigger] rendered(events[t]),
{
    assert forall|j: int| 0 <= j < actions.len() && touches(#[trigger] actions[j]) implies exists|r: int|
        0 <= r <= j && #[trigger] renamed(events[r]) && exists|l: int|
            0 <= l < r && #[trigger] one_page_per_card(events[l], cards) && exists|t: int|
                0 <= t < l && #[trigger] rendered(events[t]) by {
        assert(preview_moves(cards, phases[j], phases[j + 1], events[j], actions[j]));
        if phases[j] == PreviewPhase::Installing {
            lemma_installing_entered(cards, phases, events, actions, j);
        } else {
            lemma_installing_entered(cards, phases, events, actions, j + 1);
        }
    }
}

proof fn lemma_listing_entered(
    cards: nat,
    phases: Seq<PreviewPhase>,
    events: Seq<PreviewEvent>,
    actions: Seq<Option<PreviewAction>>,
    j: int,
)
    requires
        phases.len() == events.len() + 1,
        actions.len() == events.len(),
        phases[0] == PreviewPhase::CheckingFiles,
        forall|i: int|
            0 <= i < events.len() ==> preview_moves(
                cards,
                phases[i],
                phases[i + 1],
                #[trigger] events[i],
                actions[i],
            ),
        0 <= j < phases.len(),
        phases[j] == PreviewPhase::Listing,
    ensures
        exists|t: int| 0 <= t < j && #[trigger] rendered(events[t]),
    decreases j,
{
    if j > 0 {
        let k = j - 1;
        assert(preview_moves(cards, phases[k], phases[k + 1], events[k], actions[k]));
        if phases[k] == PreviewPhase::Listing {
            lemma_listing_entered(cards, phases, events, actions, k);
        } else {
            assert(rendered(events[k]));
        }
    }
}

proof fn lemma_renaming_entered(
    cards: nat,
    phases: Seq<PreviewPhase>,
    events: Seq<PreviewEvent>,
    actions: Seq<Option<PreviewAction>>,
    j: int,
)
    requires
        phases.len() == events.len() + 1,
        actions.len() == events.len(),
        phases[0] == PreviewPhase::CheckingFiles,
        forall|i: int|
            0 <= i < events.len() ==> preview_moves(
                cards,
                phases[i],
                phases[i + 1],
                #[trigger] events[i],
                actions[i],
            ),
        0 <= j < phases.len(),
        phases[j] == PreviewPhase::Renaming,
    ensures
        exists|l: int|
            0 <= l < j && #[trigger] one_page_per_card(events[l], cards) && exists|t: int|
                0 <= t < l && #[trigger] rendered(events[t]),
    decreases j,
{
    if j > 0 {
        let k = j - 1;
        assert(preview_moves(cards, phases[k], phases[k + 1], events[k], actions[k]));
        if phases[k] == PreviewPhase::Renaming {
            lemma_renaming_entered(cards, phases, events, actions, k);
        } else {
            lemma_listing_entered(cards, phases, events, actions, k);
            assert(one_page_per_card(events[k], cards));
        }
    }
}

proof fn lemma_installing_entered(
    cards: nat,
    phases: Seq<PreviewPhase>,
    events: Seq<PreviewEvent>,
    actions: Seq<Option<PreviewAction>>,
    j: int,
)
    requires
        phases.len() == events.len() + 1,
        actions.len() == events.len(),
        phases[0] == PreviewPhase::CheckingFiles,
        forall|i: int|
            0 <= i < events.len() ==> preview_moves(
                cards,
                phases[i],
                phases[i + 1],
                #[trigger] events[i],
                actions[i],
            ),
        0 <= j < phases.len(),
        phases[j] == PreviewPhase::Installing,
    ensures
        exists|r: int|
            0 <= r < j && #[trigger] renamed(events[r]) && exists|l: int|
                0 <= l < r && #[trigger] one_page_per_card(events[l], cards) && exists|t: int|
                    0 <= t < l && #[trigger] rendered(events[t]),
    decreases j,
{
    if j > 0 {
        let k = j - 1;
        assert(preview_moves(cards, phases[k], phases[k + 1], events[k], actions[k]));
        if phases[k] == PreviewPhase::Installing {
            lemma_installing_entered(cards, phases, events, actions, k);
        } else {
            lemma_renaming_entered(cards, phases, events, actions, k);
            assert(renamed(events[k]));
        }
    }
}

} // verus!
