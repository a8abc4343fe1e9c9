use memvec::remap::{
    stage_at, Action, Direction, Event, Outcome, Request, Resize, Stage, STAGES,
};

fn request(direction: Direction, target: usize, release: bool, header: bool) -> Request {
    Request {
        direction,
        target,
        capacity: 16,
        elem_size: 41,
        release_before_trim: release,
        has_header: header,
    }
}

/// Reports the events in order and collects the actions handed out, the
/// last of which ends the resize.
fn run(request: Request, events: &[Event]) -> Vec<Action> {
    let (mut resize, mut action) = Resize::begin(request);
    let mut actions = vec![action];
    for event in events {
        assert!(!resize.is_finished());
        action = resize.step(*event);
        actions.push(action);
    }
    assert!(resize.is_finished());
    assert!(matches!(action, Action::Finish(_)));
    actions
}

#[test]
fn stages_come_in_one_order() {
    assert_eq!(STAGES, 7);
    assert_eq!(stage_at(0), Stage::ReleaseHeader);
    assert_eq!(stage_at(1), Stage::QueryLen);
    assert_eq!(stage_at(2), Stage::ReleaseData);
    assert_eq!(stage_at(3), Stage::SetLen);
    assert_eq!(stage_at(4), Stage::VerifyLen);
    assert_eq!(stage_at(5), Stage::MapData);
    assert_eq!(stage_at(6), Stage::MapHeader);
}

#[test]
fn a_request_already_answered_does_nothing() {
    for release in [false, true] {
        for header in [false, true] {
            assert_eq!(
                run(request(Direction::Grow, 16, release, header), &[]),
                vec![Action::Finish(Outcome::Unchanged)]
            );
            assert_eq!(
                run(request(Direction::Grow, 3, release, header), &[]),
                vec![Action::Finish(Outcome::Unchanged)]
            );
            assert_eq!(
                run(request(Direction::Shrink, 16, release, header), &[]),
                vec![Action::Finish(Outcome::Unchanged)]
            );
            assert_eq!(
                run(request(Direction::Shrink, 20, release, header), &[]),
                vec![Action::Finish(Outcome::Unchanged)]
            );
        }
    }
}

#[test]
fn growing_extends_the_file_and_maps_it_afresh() {
    for release in [false, true] {
        for header in [false, true] {
            assert_eq!(
                run(
                    request(Direction::Grow, 32, release, header),
                    &[Event::Len(664), Event::Done, Event::Len(1320), Event::Done]
                ),
                vec![
                    Action::QueryLen,
                    Action::SetLen(1320),
                    Action::VerifyLen,
                    Action::MapData,
                    Action::Finish(Outcome::Resized)
                ]
            );
        }
    }
}

#[test]
fn growing_reports_the_first_failure() {
    let grow = request(Direction::Grow, 32, false, true);
    assert_eq!(
        run(grow, &[Event::Failed]),
        vec![Action::QueryLen, Action::Finish(Outcome::Failed(Stage::QueryLen))]
    );
    assert_eq!(
        run(grow, &[Event::Done]),
        vec![Action::QueryLen, Action::Finish(Outcome::Failed(Stage::QueryLen))]
    );
    assert_eq!(
        run(grow, &[Event::Len(664), Event::Failed]),
        vec![
            Action::QueryLen,
            Action::SetLen(1320),
            Action::Finish(Outcome::Failed(Stage::SetLen))
        ]
    );
    assert_eq!(
        run(grow, &[Event::Len(664), Event::Done, Event::Failed]),
        vec![
            Action::QueryLen,
            Action::SetLen(1320),
            Action::VerifyLen,
            Action::Finish(Outcome::Failed(Stage::VerifyLen))
        ]
    );
    assert_eq!(
        run(grow, &[Event::Len(664), Event::Done, Event::Len(1319)]),
        vec![
            Action::QueryLen,
            Action::SetLen(1320),
            Action::VerifyLen,
            Action::Finish(Outcome::LengthMismatch)
        ]
    );
    assert_eq!(
        run(
            grow,
            &[Event::Len(664), Event::Done, Event::Len(1320), Event::Failed]
        ),
        vec![
            Action::QueryLen,
            Action::SetLen(1320),
            Action::VerifyLen,
            Action::MapData,
            Action::Finish(Outcome::Failed(Stage::MapData))
        ]
    );
}

#[test]
fn a_length_out_of_range_is_an_overflow() {
    assert_eq!(
        run(
            request(Direction::Grow, 32, false, false),
            &[Event::Len(u64::MAX - 655)]
        ),
        vec![Action::QueryLen, Action::Finish(Outcome::Overflow)]
    );
    assert_eq!(
        run(
            request(Direction::Grow, 32, false, false),
            &[Event::Len(u64::MAX - 656), Event::Failed]
        ),
        vec![
            Action::QueryLen,
            Action::SetLen(u64::MAX),
            Action::Finish(Outcome::Failed(Stage::SetLen))
        ]
    );
    assert_eq!(
        run(
            request(Direction::Shrink, 10, false, false),
            &[Event::Len(245)]
        ),
        vec![Action::QueryLen, Action::Finish(Outcome::Overflow)]
    );
    let huge = Request {
        direction: Direction::Grow,
        target: usize::MAX,
        capacity: 0,
        elem_size: usize::MAX,
        release_before_trim: false,
        has_header: false,
    };
    assert_eq!(
        run(huge, &[Event::Len(8)]),
        vec![Action::QueryLen, Action::Finish(Outcome::Overflow)]
    );
}

#[test]
fn shrinking_cuts_the_file_and_maps_it_afresh() {
    for header in [false, true] {
        assert_eq!(
            run(
                request(Direction::Shrink, 10, false, header),
                &[Event::Len(664), Event::Done, Event::Done]
            ),
            vec![
                Action::QueryLen,
                Action::SetLen(418),
                Action::MapData,
                Action::Finish(Outcome::Resized)
            ]
        );
        assert_eq!(
            run(
                request(Direction::Shrink, 10, false, header),
                &[Event::Len(664), Event::Failed]
            ),
            vec![
                Action::QueryLen,
                Action::SetLen(418),
                Action::Finish(Outcome::Failed(Stage::SetLen))
            ]
        );
        assert_eq!(
            run(
                request(Direction::Shrink, 10, false, header),
                &[Event::Len(664), Event::Done, Event::Failed]
            ),
            vec![
                Action::QueryLen,
                Action::SetLen(418),
                Action::MapData,
                Action::Finish(Outcome::Failed(Stage::MapData))
            ]
        );
    }
}

#[test]
fn shrinking_gives_the_mappings_up_where_the_platform_asks_for_it() {
    assert_eq!(
        run(
            request(Direction::Shrink, 10, true, false),
            &[Event::Len(664), Event::Done, Event::Done, Event::Done]
        ),
        vec![
            Action::QueryLen,
            Action::ReleaseData,
            Action::SetLen(418),
            Action::MapData,
            Action::Finish(Outcome::Resized)
        ]
    );
    assert_eq!(
        run(
            request(Direction::Shrink, 10, true, true),
            &[
                Event::Done,
                Event::Len(664),
                Event::Done,
                Event::Done,
                Event::Done,
                Event::Done
            ]
        ),
        vec![
            Action::ReleaseHeader,
            Action::QueryLen,
            Action::ReleaseData,
            Action::SetLen(418),
            Action::MapData,
            Action::MapHeader,
            Action::Finish(Outcome::Resized)
        ]
    );
}

#[test]
fn a_failed_truncation_is_reported_after_the_mappings_are_back() {
    let shrink = request(Direction::Shrink, 10, true, true);
    assert_eq!(
        run(
            shrink,
            &[
                Event::Done,
                Event::Len(664),
                Event::Done,
                Event::Failed,
                Event::Done,
                Event::Done
            ]
        ),
        vec![
            Action::ReleaseHeader,
            Action::QueryLen,
            Action::ReleaseData,
            Action::SetLen(418),
            Action::MapData,
            Action::MapHeader,
            Action::Finish(Outcome::Failed(Stage::SetLen))
        ]
    );
    assert_eq!(
        run(
            shrink,
            &[
                Event::Done,
                Event::Len(664),
                Event::Done,
                Event::Failed,
                Event::Failed,
                Event::Failed
            ]
        ),
        vec![
            Action::ReleaseHeader,
            Action::QueryLen,
            Action::ReleaseData,
            Action::SetLen(418),
            Action::MapData,
            Action::MapHeader,
            Action::Finish(Outcome::Failed(Stage::SetLen))
        ]
    );
}

#[test]
fn a_failure_skips_to_the_mappings_that_were_given_up() {
    let shrink = request(Direction::Shrink, 10, true, true);
    assert_eq!(
        run(shrink, &[Event::Failed]),
        vec![
            Action::ReleaseHeader,
            Action::Finish(Outcome::Failed(Stage::ReleaseHeader))
        ]
    );
    assert_eq!(
        run(shrink, &[Event::Done, Event::Failed, Event::Done]),
        vec![
            Action::ReleaseHeader,
            Action::QueryLen,
            Action::MapHeader,
            Action::Finish(Outcome::Failed(Stage::QueryLen))
        ]
    );
    assert_eq!(
        run(
            shrink,
            &[Event::Done, Event::Len(664), Event::Failed, Event::Done]
        ),
        vec![
            Action::ReleaseHeader,
            Action::QueryLen,
            Action::ReleaseData,
            Action::MapHeader,
            Action::Finish(Outcome::Failed(Stage::ReleaseData))
        ]
    );
    assert_eq!(
        run(
            shrink,
            &[
                Event::Done,
                Event::Len(664),
                Event::Done,
                Event::Done,
                Event::Failed,
                Event::Done
            ]
        ),
        vec![
            Action::ReleaseHeader,
            Action::QueryLen,
            Action::ReleaseData,
            Action::SetLen(418),
            Action::MapData,
            Action::MapHeader,
            Action::Finish(Outcome::Failed(Stage::MapData))
        ]
    );
    assert_eq!(
        run(
            shrink,
            &[
                Event::Done,
                Event::Len(664),
                Event::Done,
                Event::Done,
                Event::Done,
                Event::Failed
            ]
        ),
        vec![
            Action::ReleaseHeader,
            Action::QueryLen,
            Action::ReleaseData,
            Action::SetLen(418),
            Action::MapData,
            Action::MapHeader,
            Action::Finish(Outcome::Failed(Stage::MapHeader))
        ]
    );
    assert_eq!(
        run(shrink, &[Event::Done, Event::Len(245), Event::Done]),
        vec![
            Action::ReleaseHeader,
            Action::QueryLen,
            Action::MapHeader,
            Action::Finish(Outcome::Overflow)
        ]
    );
}

#[test]
fn new_length_is_the_old_one_moved_by_the_elements() {
    assert_eq!(request(Direction::Grow, 32, false, false).compute_new_len(664), Some(1320));
    assert_eq!(request(Direction::Grow, 17, false, false).compute_new_len(0), Some(41));
    assert_eq!(request(Direction::Shrink, 10, false, false).compute_new_len(664), Some(418));
    assert_eq!(request(Direction::Shrink, 0, false, false).compute_new_len(664), Some(8));
    assert_eq!(request(Direction::Shrink, 0, false, false).compute_new_len(655), None);
    assert_eq!(request(Direction::Grow, 10, false, false).compute_new_len(664), Some(418));
    assert_eq!(request(Direction::Shrink, 32, false, false).compute_new_len(664), Some(1320));
    assert!(request(Direction::Grow, 10, false, false).is_satisfied());
    assert!(!request(Direction::Grow, 17, false, false).is_satisfied());
    assert!(request(Direction::Shrink, 16, false, false).is_satisfied());
    assert!(!request(Direction::Shrink, 15, false, false).is_satisfied());
    assert!(request(Direction::Grow, 17, false, false).takes(Stage::VerifyLen));
    assert!(!request(Direction::Shrink, 15, false, false).takes(Stage::VerifyLen));
    assert!(!request(Direction::Shrink, 15, true, false).takes(Stage::ReleaseHeader));
    assert!(request(Direction::Shrink, 15, true, true).takes(Stage::ReleaseHeader));
    assert!(request(Direction::Shrink, 15, true, false).takes(Stage::ReleaseData));
    assert!(!request(Direction::Grow, 17, true, true).takes(Stage::ReleaseData));
    assert!(!request(Direction::Shrink, 16, true, true).takes(Stage::SetLen));
}
