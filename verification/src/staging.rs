//! Replacing a directory by a staged one: what was there is moved aside
//! first, the staged directory is moved in, and if that fails what was
//! there is put back. The caller performs each move and reports whether
//! it succeeded.

use vstd::prelude::*;

verus! {

/// How far a replacement has got.
#[derive(Clone, Copy, Debug, PartialEq, Eq, Structural)]
pub enum StagePhase {
    /// Waiting to learn whether the destination exists.
    Probing,
    /// The existing destination is being moved aside.
    MovingAside,
    /// The staged directory is being moved to the destination.
    Placing,
    /// The previous destination is being put back.
    Restoring,
    /// The replacement is over.
    Finished,
}

/// What the caller is to do next.
#[derive(Clone, Copy, Debug, PartialEq, Eq, Structural)]
pub enum StageAction {
    /// Move the existing destination to the backup place.
    MoveAside,
    /// Move the staged directory to the destination.
    Place,
    /// Move the backup back to the destination.
    Restore,
    /// The destination now holds the staged directory.
    Succeed,
    /// The existing destination could not be moved aside; it is untouched.
    MoveAsideFailed,
    /// The staged directory could not be moved in; what was there before,
    /// if anything, has been put back as far as that was possible.
    PlaceFailed,
}

/// What came of the last action.
#[derive(Clone, Copy, Debug, PartialEq, Eq, Structural)]
pub enum StageEvent {
    /// Whether the destination exists.
    Exists(bool),
    /// Whether the destination was moved aside.
    MovedAside(bool),
    /// Whether the staged directory was moved in.
    Placed(bool),
    /// Whether the backup was put back; the replacement fails either way.
    Restored(bool),
}

/// A replacement of a directory, and whether there was one to move aside.
#[derive(Clone, Copy, Debug, PartialEq, Eq, Structural)]
pub struct Staging {
    pub phase: StagePhase,
    pub had_previous: bool,
}

/// The next state and action of a replacement on an event; an event that
/// the phase does not wait for changes nothing.
pub open spec fn stage_step(s: Staging, e: StageEvent) -> (Staging, Option<StageAction>) {
    match (s.phase, e) {
        (StagePhase::Probing, StageEvent::Exists(true)) => (
            Staging { phase: StagePhase::MovingAside, had_previous: true },
            Some(StageAction::MoveAside),
        ),
        (StagePhase::Probing, StageEvent::Exists(false)) => (
            Staging { phase: StagePhase::Placing, had_previous: false },
            Some(StageAction::Place),
        ),
        (StagePhase::MovingAside, StageEvent::MovedAside(true)) => (
            Staging { phase: StagePhase::Placing, had_previous: s.had_previous },
            Some(StageAction::Place),
        ),
        (StagePhase::MovingAside, StageEvent::MovedAside(false)) => (
            Staging { phase: StagePhase::Finished, had_previous: s.had_previous },
            Some(StageAction::MoveAsideFailed),
        ),
        (StagePhase::Placing, StageEvent::Placed(true)) => (
            Staging { phase: StagePhase::Finished, had_previous: s.had_previous },
            Some(StageAction::Succeed),
        ),
        (StagePhase::Placing, StageEvent::Placed(false)) => if s.had_previous {
            (
                Staging { phase: StagePhase::Restoring, had_previous: s.had_previous },
                Some(StageAction::Restore),
            )
        } else {
            (
                Staging { phase: StagePhase::Finished, had_previous: s.had_previous },
                Some(StageAction::PlaceFailed),
            )
        },
        (StagePhase::Restoring, StageEvent::Restored(_)) => (
            Staging { phase: StagePhase::Finished, had_previous: s.had_previous },
            Some(StageAction::PlaceFailed),
        ),
        _ => (s, None),
    }
}

impl Staging {
    /// A replacement that has not yet learnt whether the destination exists.
    pub open spec fn start_spec() -> Staging {
        Staging { phase: StagePhase::Probing, had_previous: false }
    }

    /// A replacement that starts by asking whether the destination exists.
    pub fn start() -> (s: Staging)
        ensures
            s == Staging::start_spec(),
    {
        Staging { phase: StagePhase::Probing, had_previous: false }
    }

    /// Takes in what came of the last action and gives the next one.
    pub fn step(&mut self, event: StageEvent) -> (action: Option<StageAction>)
        ensures
            (*final(self), action) == stage_step(*old(self), event),
    {
        match (self.phase, event) {
            (StagePhase::Probing, StageEvent::Exists(exists)) => {
                self.had_previous = exists;
                if exists {
                    self.phase = StagePhase::MovingAside;
                    Some(StageAction::MoveAside)
                } else {
                    self.phase = StagePhase::Placing;
                    Some(StageAction::Place)
                }
            },
            (StagePhase::MovingAside, StageEvent::MovedAside(moved)) => {
                if moved {
                    self.phase = StagePhase::Placing;
                    Some(StageAction::Place)
                } else {
                    self.phase = StagePhase::Finished;
                    Some(StageAction::MoveAsideFailed)
                }
            },
            (StagePhase::Placing, StageEvent::Placed(placed)) => {
                if placed {
                    self.phase = StagePhase::Finished;
                    Some(StageAction::Succeed)
                } else if self.had_previous {
                    self.phase = StagePhase::Restoring;
                    Some(StageAction::Restore)
                } else {
                    self.phase = StagePhase::Finished;
                    Some(StageAction::PlaceFailed)
                }
            },
            (StagePhase::Restoring, StageEvent::Restored(_)) => {
                self.phase = StagePhase::Finished;
                Some(StageAction::PlaceFailed)
            },
            _ => None,
        }
    }
}

/// The states and actions of a replacement from `s` on the events `es`.
pub open spec fn stage_run(s: Staging, es: Seq<StageEvent>) -> Seq<(Staging, Option<StageAction>)>
    decreases es.len(),
{
    if es.len() == 0 {
        seq![]
    } else {
        let first = stage_step(s, es[0]);
        seq![first] + stage_run(first.0, es.drop_first())
    }
}

/// One step of a replacement: the staged directory is moved in only once
/// the destination is clear (it did not exist, or it was moved aside);
/// success comes only from moving the staged directory in; a failure comes
/// only from a failed move; and a finished replacement does nothing more.
pub proof fn law_stage_step(s: Staging, e: StageEvent)
    ensures
        stage_step(s, e).1 == Some(StageAction::Place) ==> (s.phase == StagePhase::Probing && e
            == StageEvent::Exists(false)) || (s.phase == StagePhase::MovingAside && e
            == StageEvent::MovedAside(true)),
        stage_step(s, e).1 == Some(StageAction::Succeed) ==> s.phase == StagePhase::Placing && e
            == StageEvent::Placed(true),
        stage_step(s, e).1 == Some(StageAction::MoveAsideFailed) ==> e == StageEvent::MovedAside(
            false,
        ),
        stage_step(s, e).1 == Some(StageAction::PlaceFailed) ==> e == StageEvent::Placed(false)
            || s.phase == StagePhase::Restoring,
        s.phase == StagePhase::Finished ==> stage_step(s, e) == (s, None::<StageAction>),
{
}

/// Over any replacement, a failure to move the staged directory in after
/// the destination was moved aside comes only after the destination was
/// asked to be put back.
pub proof fn law_restore_before_failing(es: Seq<StageEvent>)
    ensures
        ({
            let run = stage_run(Staging::start_spec(), es);
            forall|k: int|
                0 <= k < run.len() && #[trigger] run[k].1 == Some(StageAction::PlaceFailed)
                    && run[k].0.had_previous ==> exists|j: int|
                    0 <= j < k && #[trigger] run[j].1 == Some(StageAction::Restore)
        }),
{
    lemma_restore_before_failing(Staging::start_spec(), es);
}

proof fn lemma_restore_before_failing(s: Staging, es: Seq<StageEvent>)
    ensures
        stage_run(s, es).len() == es.len(),
        forall|k: int|
            0 <= k < stage_run(s, es).len() && #[trigger] stage_run(s, es)[k].1 == Some(
                StageAction::PlaceFailed,
            ) && stage_run(s, es)[k].0.had_previous ==> s.phase == StagePhase::Restoring
                || exists|j: int| 0 <= j < k && #[trigger] stage_run(s, es)[j].1 == Some(StageAction::Restore),
    decreases es.len(),
{
    if es.len() > 0 {
        let first = stage_step(s, es[0]);
        let rest = stage_run(first.0, es.drop_first());
        lemma_restore_before_failing(first.0, es.drop_first());
        let run = stage_run(s, es);
        assert(run == seq![first] + rest);
        assert forall|k: int|
            0 <= k < run.len() && #[trigger] run[k].1 == Some(StageAction::PlaceFailed)
                && run[k].0.had_previous implies s.phase == StagePhase::Restoring || exists|j: int|
                0 <= j < k && #[trigger] run[j].1 == Some(StageAction::Restore) by {
            if k > 0 {
                assert(run[k] == rest[k - 1]);
                if first.0.phase == StagePhase::Restoring {
                    if s.phase != StagePhase::Restoring {
                        assert(run[0].1 == Some(StageAction::Restore));
                    }
                } else {
                    let j = choose|j: int| 0 <= j < k - 1 && #[trigger] rest[j].1 == Some(
                        StageAction::Restore,
                    );
                    assert(run[j + 1] == rest[j]);
                }
            }
        }
    }
}

} // verus!
