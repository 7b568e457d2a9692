//! The last part of assembling a template workspace, once the staged one
//! has been built: the center images of the previous workspace are copied
//! into it, it is checked, and only then does it replace the previous one
//! (see `staging`). The caller performs each action and hands back what
//! came of it.

use vstd::prelude::*;

use crate::paths::join_spec;
use crate::staging::{stage_step, StageAction, StageEvent, Staging};
use crate::text::strings_view;
use crate::workspace::{
    preserve_center_images, requirement_paths, validate_workspace, workspace_requirements,
    WorkspaceError,
};

verus! {

/// How far the assembly has got.
#[derive(Clone, Copy, Debug, PartialEq, Eq, Structural)]
pub enum AssemblyPhase {
    /// Waiting to learn whether the previous workspace has center images.
    ProbingImages,
    /// They are being copied into the staged workspace.
    CopyingImages,
    /// The staged workspace is being checked.
    Checking,
    /// The staged workspace is replacing the previous one.
    Installing,
    /// The assembly is over.
    Finished,
}

/// Why the assembly failed.
#[derive(Debug, PartialEq, Eq)]
pub enum AssemblyFailure {
    /// The previous center images could not be copied.
    ImagesNotCopied,
    /// The staged workspace lacks required files.
    Invalid(WorkspaceError),
    /// The previous workspace could not be moved aside; it is untouched.
    MoveAsideFailed,
    /// The staged workspace could not be moved in; the previous one was put
    /// back as far as that was possible.
    PlaceFailed,
}

/// What the caller is to do next.
#[derive(Debug, PartialEq, Eq)]
pub enum AssemblyAction {
    /// Copy the center images from the first directory into the second.
    CopyImages(String, String),
    /// Report which of these paths exist.
    Check(Vec<String>),
    /// Report whether the workspace's destination exists.
    ProbeDestination,
    /// Perform this move of the replacement.
    Stage(StageAction),
    /// The workspace is in place.
    Done,
    /// The assembly failed.
    Fail(AssemblyFailure),
}

/// What came of the last action.
pub enum AssemblyEvent {
    /// Whether the previous workspace has a directory of center images.
    PreviousImages(bool),
    /// Whether they were copied.
    ImagesCopied(bool),
    /// For each path to check, whether it exists.
    Present(Vec<bool>),
    /// What came of a move of the replacement.
    Staged(StageEvent),
}

/// The assembly of the workspace at `destination` from the one staged at
/// `staged`.
pub struct Assembly {
    phase: AssemblyPhase,
    destination: String,
    staged: String,
    staging: Staging,
}

pub struct AssemblyView {
    pub phase: AssemblyPhase,
    pub destination: Seq<char>,
    pub staged: Seq<char>,
    pub staging: Staging,
}

impl View for Assembly {
    type V = AssemblyView;

    closed spec fn view(&self) -> AssemblyView {
        AssemblyView {
            phase: self.phase,
            destination: self.destination@,
            staged: self.staged@,
            staging: self.staging,
        }
    }
}

/// Every required file of the staged workspace exists.
pub open spec fn all_present(v: Seq<bool>) -> bool {
    v.len() == 3 && forall|i: int| 0 <= i < 3 ==> #[trigger] v[i]
}

/// The paths checked in the staged workspace `staged`.
pub open spec fn check_paths(staged: Seq<char>, ps: Seq<Seq<char>>) -> bool {
    &&& ps.len() == 3
    &&& forall|i: int| 0 <= i < 3 ==> #[trigger] ps[i] == join_spec(staged, workspace_requirements()[i])
}

/// The action moves or probes the workspace's destination.
pub open spec fn touches(a: Option<AssemblyAction>) -> bool {
    a matches Some(AssemblyAction::Stage(_)) || a matches Some(AssemblyAction::ProbeDestination)
}

/// The event says that the previous images were kept: there were none, or
/// they were copied.
pub open spec fn kept(e: AssemblyEvent) -> bool {
    e matches AssemblyEvent::PreviousImages(false) || e matches AssemblyEvent::ImagesCopied(true)
}

/// The event says that every required file of the staged workspace exists.
pub open spec fn checked(e: AssemblyEvent) -> bool {
    e matches AssemblyEvent::Present(v) && all_present(v@)
}

pub open spec fn rank(p: AssemblyPhase) -> int {
    match p {
        AssemblyPhase::ProbingImages => 0,
        AssemblyPhase::CopyingImages => 1,
        AssemblyPhase::Checking => 2,
        AssemblyPhase::Installing => 3,
        AssemblyPhase::Finished => 4,
    }
}

/// How one step may move an assembly: never back; it is checked only once
/// the previous images were kept; it installs only once the check found
/// every required file; and it touches the destination only while
/// installing.
pub open spec fn assembly_moves(
    before: AssemblyPhase,
    after: AssemblyPhase,
    event: AssemblyEvent,
    action: Option<AssemblyAction>,
) -> bool {
    &&& rank(before) <= rank(after)
    &&& after == AssemblyPhase::Checking && before != AssemblyPhase::Checking ==> kept(event)
    &&& after == AssemblyPhase::Installing && before != AssemblyPhase::Installing ==> before
        == AssemblyPhase::Checking && checked(event)
    &&& touches(action) ==> after == AssemblyPhase::Installing || before == AssemblyPhase::Installing
}

impl Assembly {
    /// An assembly that replaces `destination` by `staged`; it starts by
    /// asking whether the previous workspace has center images, in the
    /// directory it gives.
    pub fn start(destination: String, staged: String) -> (r: (Assembly, String))
        ensures
            r.0@.phase == AssemblyPhase::ProbingImages,
            r.0@.destination == destination@,
            r.0@.staged == staged@,
            r.1@ == join_spec(destination@, "assets/ot/images"@),
    {
        let (previous_images, _) = preserve_center_images(destination.as_str(), staged.as_str());
        (
            Assembly {
                phase: AssemblyPhase::ProbingImages,
                destination,
                staged,
                staging: Staging::start(),
            },
            previous_images,
        )
    }

    /// The phase the assembly is in.
    pub fn phase(&self) -> (p: AssemblyPhase)
        ensures
            p == self@.phase,
    {
        self.phase
    }

    /// Takes in what came of the last action and gives the next one; an
    /// event that the phase does not wait for (or a check of another number
    /// of paths) changes nothing.
    pub fn step(&mut self, event: AssemblyEvent) -> (action: Option<AssemblyAction>)
        ensures
            final(self)@.destination == old(self)@.destination,
            final(self)@.staged == old(self)@.staged,
            assembly_moves(old(self)@.phase, final(self)@.phase, event, action),
            ({
                let s = old(self)@;
                let f = final(self)@;
                match (s.phase, event) {
                    (AssemblyPhase::ProbingImages, AssemblyEvent::PreviousImages(true)) => {
                        &&& f.phase == AssemblyPhase::CopyingImages
                        &&& action matches Some(AssemblyAction::CopyImages(from, to)) && from@
                            == join_spec(s.destination, "assets/ot/images"@) && to@ == join_spec(
                            s.staged,
                            "assets/ot/images"@,
                        )
                    },
                    (AssemblyPhase::ProbingImages, AssemblyEvent::PreviousImages(false))
                    | (AssemblyPhase::CopyingImages, AssemblyEvent::ImagesCopied(true)) => {
                        &&& f.phase == AssemblyPhase::Checking
                        &&& action matches Some(AssemblyAction::Check(ps)) && check_paths(
                            s.staged,
                            strings_view(ps@),
                        )
                    },
                    (AssemblyPhase::CopyingImages, AssemblyEvent::ImagesCopied(false)) => {
                        &&& f.phase == AssemblyPhase::Finished
                        &&& action == Some(AssemblyAction::Fail(AssemblyFailure::ImagesNotCopied))
                    },
                    (AssemblyPhase::Checking, AssemblyEvent::Present(v)) => if v@.len() != 3 {
                        f == s && action is None
                    } else if all_present(v@) {
                        &&& f.phase == AssemblyPhase::Installing
                        &&& f.staging == Staging::start_spec()
                        &&& action == Some(AssemblyAction::ProbeDestination)
                    } else {
                        &&& f.phase == AssemblyPhase::Finished
                        &&& action matches Some(
                            AssemblyAction::Fail(AssemblyFailure::Invalid(WorkspaceError::Incomplete(m))),
                        ) && strings_view(m@) == crate::paths::missing_spec(
                            workspace_requirements(),
                            v@,
                        )
                    },
                    (AssemblyPhase::Installing, AssemblyEvent::Staged(e)) => {
                        let (next, a) = stage_step(s.staging, e);
                        &&& f.staging == next
                        &&& match a {
                            None => f.phase == s.phase && action is None,
                            Some(StageAction::Succeed) => f.phase == AssemblyPhase::Finished
                                && action == Some(AssemblyAction::Done),
                            Some(StageAction::MoveAsideFailed) => f.phase
                                == AssemblyPhase::Finished && action == Some(
                                AssemblyAction::Fail(AssemblyFailure::MoveAsideFailed),
                            ),
                            Some(StageAction::PlaceFailed) => f.phase == AssemblyPhase::Finished
                                && action == Some(
                                AssemblyAction::Fail(AssemblyFailure::PlaceFailed),
                            ),
                            Some(move_) => f.phase == s.phase && action == Some(
                                AssemblyAction::Stage(move_),
                            ),
                        }
                    },
                    _ => f == s && action is None,
                }
            }),
    {
        match (self.phase, event) {
            (AssemblyPhase::ProbingImages, AssemblyEvent::PreviousImages(true)) => {
                self.phase = AssemblyPhase::CopyingImages;
                let (from, to) = preserve_center_images(
                    self.destination.as_str(),
                    self.staged.as_str(),
                );
                Some(AssemblyAction::CopyImages(from, to))
            },
            (AssemblyPhase::ProbingImages, AssemblyEvent::PreviousImages(false))
            | (AssemblyPhase::CopyingImages, AssemblyEvent::ImagesCopied(true)) => {
                self.phase = AssemblyPhase::Checking;
                let ps = requirement_paths(self.staged.as_str());
                assert(check_paths(self.staged@, strings_view(ps@))) by {
                    assert forall|i: int| 0 <= i < 3 implies #[trigger] strings_view(ps@)[i]
                        == join_spec(self.staged@, workspace_requirements()[i]) by {
                        assert(strings_view(ps@)[i] == ps@[i]@);
                    }
                }
                Some(AssemblyAction::Check(ps))
            },
            (AssemblyPhase::CopyingImages, AssemblyEvent::ImagesCopied(false)) => {
                self.phase = AssemblyPhase::Finished;
                Some(AssemblyAction::Fail(AssemblyFailure::ImagesNotCopied))
            },
            (AssemblyPhase::Checking, AssemblyEvent::Present(v)) => {
                if v.len() != 3 {
                    return None;
                }
                match validate_workspace(&v) {
                    Ok(()) => {
                        proof {
                            lemma_all_present(v@);
                        }
                        self.phase = AssemblyPhase::Installing;
                        self.staging = Staging::start();
                        Some(AssemblyAction::ProbeDestination)
                    },
                    Err(e) => {
                        proof {
                            lemma_all_present(v@);
                        }
                        self.phase = AssemblyPhase::Finished;
                        Some(AssemblyAction::Fail(AssemblyFailure::Invalid(e)))
                    },
                }
            },
            (AssemblyPhase::Installing, AssemblyEvent::Staged(e)) => {
                match self.staging.step(e) {
                    None => None,
                    Some(StageAction::Succeed) => {
                        self.phase = AssemblyPhase::Finished;
                        Some(AssemblyAction::Done)
                    },
                    Some(StageAction::MoveAsideFailed) => {
                        self.phase = AssemblyPhase::Finished;
                        Some(AssemblyAction::Fail(AssemblyFailure::MoveAsideFailed))
                    },
                    Some(StageAction::PlaceFailed) => {
                        self.phase = AssemblyPhase::Finished;
                        Some(AssemblyAction::Fail(AssemblyFailure::PlaceFailed))
                    },
                    Some(move_) => Some(AssemblyAction::Stage(move_)),
                }
            },
            _ => None,
        }
    }
}

/// Over any assembly that starts by probing the previous images, every
/// action that touches the workspace's destination comes at or after an
/// event that found every required file of the staged workspace, and that
/// check came after the previous center images were kept (there were none,
/// or they were copied in).
pub proof fn law_replace_only_after_check(
    phases: Seq<AssemblyPhase>,
    events: Seq<AssemblyEvent>,
    actions: Seq<Option<AssemblyAction>>,
)
    requires
        phases.len() == events.len() + 1,
        actions.len() == events.len(),
        phases[0] == AssemblyPhase::ProbingImages,
        forall|i: int|
            0 <= i < events.len() ==> assembly_moves(
                phases[i],
                phases[i + 1],
                #[trigger] events[i],
                actions[i],
            ),
    ensures
        forall|j: int|
            0 <= j < actions.len() && touches(#[trigger] actions[j]) ==> exists|i: int|
                0 <= i <= j && #[trigger] checked(events[i]) && exists|h: int|
                    0 <= h < i && #[trigger] kept(events[h]),
{
    assert forall|j: int| 0 <= j < actions.len() && touches(#[trigger] actions[j]) implies exists|i: int|
        0 <= i <= j && #[trigger] checked(events[i]) && exists|h: int|
            0 <= h < i && #[trigger] kept(events[h]) by {
        assert(assembly_moves(phases[j], phases[j + 1], events[j], actions[j]));
        if phases[j] == AssemblyPhase::Installing {
            lemma_installing_was_entered(phases, events, actions, j);
        } else {
            lemma_installing_was_entered(phases, events, actions, j + 1);
        }
    }
}

proof fn lemma_installing_was_entered(
    phases: Seq<AssemblyPhase>,
    events: Seq<AssemblyEvent>,
    actions: Seq<Option<AssemblyAction>>,
    j: int,
)
    requires
        phases.len() == events.len() + 1,
        actions.len() == events.len(),
        phases[0] == AssemblyPhase::ProbingImages,
        forall|i: int|
            0 <= i < events.len() ==> assembly_moves(
                phases[i],
                phases[i + 1],
                #[trigger] events[i],
                actions[i],
            ),
        0 <= j < phases.len(),
        phases[j] == AssemblyPhase::Installing,
    ensures
        exists|i: int|
            0 <= i < j && #[trigger] checked(events[i]) && exists|h: int|
                0 <= h < i && #[trigger] kept(events[h]),
    decreases j,
{
    if j > 0 {
        let k = j - 1;
        assert(assembly_moves(phases[k], phases[k + 1], events[k], actions[k]));
        if phases[k] == AssemblyPhase::Installing {
            lemma_installing_was_entered(phases, events, actions, k);
        } else {
            lemma_checking_was_entered(phases, events, actions, k);
            assert(checked(events[k]));
        }
    }
}

proof fn lemma_checking_was_entered(
    phases: Seq<AssemblyPhase>,
    events: Seq<AssemblyEvent>,
    actions: Seq<Option<AssemblyAction>>,
    j: int,
)
    requires
        phases.len() == events.len() + 1,
        actions.len() == events.len(),
        phases[0] == AssemblyPhase::ProbingImages,
        forall|i: int|
            0 <= i < events.len() ==> assembly_moves(
                phases[i],
                phases[i + 1],
                #[trigger] events[i],
                actions[i],
            ),
        0 <= j < phases.len(),
        phases[j] == AssemblyPhase::Checking,
    ensures
        exists|h: int| 0 <= h < j && #[trigger] kept(events[h]),
    decreases j,
{
    if j > 0 {
        let k = j - 1;
        assert(assembly_moves(phases[k], phases[k + 1], events[k], actions[k]));
        if phases[k] == AssemblyPhase::Checking {
            lemma_checking_was_entered(phases, events, actions, k);
        } else {
            assert(kept(events[k]));
        }
    }
}

/// With three answers, none is missing exactly when all are present.
proof fn lemma_all_present(v: Seq<bool>)
    requires
        v.len() == 3,
    ensures
        all_present(v) <==> crate::paths::missing_spec(workspace_requirements(), v).len() == 0,
{
    lemma_none_missing(workspace_requirements(), v);
}

/// Nothing is missing exactly when every path exists.
proof fn lemma_none_missing(paths: Seq<Seq<char>>, v: Seq<bool>)
    requires
        paths.len() <= v.len(),
    ensures
        crate::paths::missing_spec(paths, v).len() == 0 <==> forall|i: int|
            0 <= i < paths.len() ==> #[trigger] v[i],
    decreases paths.len(),
{
    if paths.len() > 0 {
        lemma_none_missing(paths.drop_last(), v);
    }
}

} // verus!
