use ygo_wcs_lf::staging::{StageAction, StageEvent, StagePhase, Staging};

fn run(events: &[StageEvent]) -> Vec<Option<StageAction>> {
    let mut staging = Staging::start();
    events.iter().map(|event| staging.step(*event)).collect()
}

#[test]
fn replaces_an_existing_destination() {
    assert_eq!(
        run(&[StageEvent::Exists(true), StageEvent::MovedAside(true), StageEvent::Placed(true)]),
        vec![Some(StageAction::MoveAside), Some(StageAction::Place), Some(StageAction::Succeed)]
    );
}

#[test]
fn places_directly_when_nothing_is_there() {
    assert_eq!(
        run(&[StageEvent::Exists(false), StageEvent::Placed(true)]),
        vec![Some(StageAction::Place), Some(StageAction::Succeed)]
    );
    assert_eq!(
        run(&[StageEvent::Exists(false), StageEvent::Placed(false)]),
        vec![Some(StageAction::Place), Some(StageAction::PlaceFailed)]
    );
}

#[test]
fn puts_the_previous_destination_back_when_placing_fails() {
    assert_eq!(
        run(&[
            StageEvent::Exists(true),
            StageEvent::MovedAside(true),
            StageEvent::Placed(false),
            StageEvent::Restored(false),
        ]),
        vec![
            Some(StageAction::MoveAside),
            Some(StageAction::Place),
            Some(StageAction::Restore),
            Some(StageAction::PlaceFailed),
        ]
    );
}

#[test]
fn a_failed_move_aside_leaves_the_destination_alone() {
    let mut staging = Staging::start();
    assert_eq!(staging.step(StageEvent::Exists(true)), Some(StageAction::MoveAside));
    assert_eq!(staging.step(StageEvent::MovedAside(false)), Some(StageAction::MoveAsideFailed));
    assert_eq!(staging.phase, StagePhase::Finished);
    assert_eq!(staging.step(StageEvent::Placed(true)), None);
}

#[test]
fn ignores_events_it_does_not_wait_for() {
    assert_eq!(
        run(&[StageEvent::Placed(true), StageEvent::Exists(false), StageEvent::Restored(true)]),
        vec![None, Some(StageAction::Place), None]
    );
}
