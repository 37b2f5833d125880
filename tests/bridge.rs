use shm_bridge::bridge::{Action, Bridge, Event, Phase};
use shm_bridge::segments::{file_size, split_size};

fn run_cycle(segments: usize) -> (Bridge, Vec<Action>) {
    let (mut b, first) = Bridge::new(segments);
    let mut actions = vec![first];
    for _ in 0..segments {
        actions.push(b.step(Event::MappingCreated));
    }
    actions.push(b.step(Event::Interrupted));
    for _ in 0..segments {
        actions.push(b.step(Event::Unlinked(true)));
    }
    actions.push(b.step(Event::Released));
    (b, actions)
}

#[test]
fn two_segments_end_to_end() {
    let (b, actions) = run_cycle(2);
    assert_eq!(
        actions,
        vec![
            Action::Create(0),
            Action::Create(1),
            Action::Wait,
            Action::Unlink(0),
            Action::Unlink(1),
            Action::ReleaseAll,
            Action::Exit,
        ]
    );
    assert_eq!(b.phase, Phase::Finished);
    assert_eq!(b.unlinked, 2);
    assert_eq!(b.unlink_failures, 0);
}

#[test]
fn two_cycles_both_finish() {
    for _ in 0..2 {
        let (b, actions) = run_cycle(1);
        assert_eq!(b.phase, Phase::Finished);
        assert_eq!(actions.iter().filter(|a| **a == Action::ReleaseAll).count(), 1);
        assert_eq!(actions.iter().filter(|a| **a == Action::Unlink(0)).count(), 1);
    }
}

#[test]
fn failed_startup_aborts_naming_segment() {
    let (mut b, first) = Bridge::new(3);
    assert_eq!(first, Action::Create(0));
    assert_eq!(b.step(Event::MappingCreated), Action::Create(1));
    assert_eq!(b.step(Event::MappingFailed), Action::Abort(1));
    assert_eq!(b.phase, Phase::Failed);
    assert_eq!(b.step(Event::Interrupted), Action::Ignore);
}

#[test]
fn unlink_failure_does_not_stop_teardown() {
    let (mut b, _) = Bridge::new(2);
    b.step(Event::MappingCreated);
    assert_eq!(b.step(Event::MappingCreated), Action::Wait);
    assert_eq!(b.step(Event::Interrupted), Action::Unlink(0));
    assert_eq!(b.step(Event::Unlinked(false)), Action::Unlink(1));
    assert_eq!(b.step(Event::Unlinked(true)), Action::ReleaseAll);
    assert_eq!(b.unlink_failures, 1);
    assert_eq!(b.step(Event::Released), Action::Exit);
}

#[test]
fn no_segments_goes_straight_to_wait() {
    let (mut b, first) = Bridge::new(0);
    assert_eq!(first, Action::Wait);
    assert_eq!(b.step(Event::Interrupted), Action::ReleaseAll);
    assert_eq!(b.step(Event::Released), Action::Exit);
}

#[test]
fn segment_sizes() {
    assert_eq!(file_size("acpmf_crewchief"), 15660);
    assert_eq!(file_size("acpmf_physics"), 2048);
    assert_eq!(file_size(""), 2048);
}

#[test]
fn size_halves() {
    assert_eq!(split_size(2048), (0, 2048));
    assert_eq!(split_size(0x1_0000_0005), (1, 5));
    assert_eq!(split_size(u64::MAX), (u32::MAX, u32::MAX));
    assert_eq!(split_size(0), (0, 0));
}
