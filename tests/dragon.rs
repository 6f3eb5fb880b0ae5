use maq_web::curve::{dragon_points, next_iteration, reversed_body_of, Point};
use maq_web::driver::{DragonState, Frame, Phase, TickEvent, PROGRESS_FULL, PROGRESS_STEP};

fn pt(x: i64, y: i64) -> Point {
    Point::new(x, y)
}

#[test]
fn quarter_turn_about_a_center() {
    assert_eq!(pt(3, 5).rotate_quarter_around(pt(1, 2)), pt(-2, 4));
    assert_eq!(pt(0, 0).rotate_quarter_around(pt(1, 0)), pt(1, -1));
    assert_eq!(pt(4, 4).rotate_quarter_around(pt(4, 4)), pt(4, 4));
}

#[test]
fn seed_merges_to_one_minus_one() {
    // x' = cx - (py - cy), y' = cy + (px - cx) takes (0, 0) about (1, 0) to (1, -1).
    let seed = vec![pt(0, 0), pt(1, 0)];
    assert_eq!(next_iteration(&seed), vec![pt(0, 0), pt(1, 0), pt(1, -1)]);
}

#[test]
fn merge_doubles_less_one() {
    let p = vec![pt(0, 0), pt(1, 0), pt(1, -1)];
    let q = next_iteration(&p);
    assert_eq!(q.len(), 2 * p.len() - 1);
    assert_eq!(q, vec![pt(0, 0), pt(1, 0), pt(1, -1), pt(0, -1), pt(0, -2)]);
    let r = next_iteration(&q);
    assert_eq!(r.len(), 9);
}

#[test]
fn merge_keeps_input_as_prefix() {
    let p = dragon_points(4);
    let q = next_iteration(&p);
    assert_eq!(&q[..p.len()], &p[..]);
}

#[test]
fn short_inputs_stay_unchanged() {
    let empty: Vec<Point> = Vec::new();
    assert_eq!(next_iteration(&empty), empty);
    let one = vec![pt(7, -3)];
    assert_eq!(next_iteration(&one), one);
    assert!(reversed_body_of(&empty).is_empty());
    assert!(reversed_body_of(&one).is_empty());
}

#[test]
fn reversed_body_skips_last_point() {
    let p = vec![pt(0, 0), pt(1, 0), pt(1, 1), pt(0, 1)];
    assert_eq!(reversed_body_of(&p), vec![pt(1, 1), pt(1, 0), pt(0, 0)]);
}

#[test]
fn dragon_points_lengths() {
    assert_eq!(dragon_points(0), vec![pt(0, 0), pt(1, 0)]);
    assert_eq!(dragon_points(1).len(), 3);
    assert_eq!(dragon_points(2).len(), 5);
    assert_eq!(dragon_points(11).len(), 2049);
}

#[test]
fn idle_driver_does_not_move() {
    let mut d = DragonState::new(3);
    assert_eq!(d.phase(), Phase::Idle);
    assert_eq!(d.tick(), TickEvent::Waiting);
    assert_eq!(d.progress(), 0);
    assert!(!d.is_animating());
    d.start();
    assert!(d.is_animating());
    assert_eq!(d.max_iterations(), 3);
}

#[test]
fn progress_reaches_full_turn_in_twenty_five_ticks() {
    let mut d = DragonState::new(10);
    d.start();
    for k in 1..=25u32 {
        assert_eq!(d.tick(), TickEvent::Turned);
        assert_eq!(d.progress(), k * PROGRESS_STEP);
        assert!(d.progress() <= PROGRESS_FULL);
    }
    assert_eq!(d.progress(), PROGRESS_FULL);
    assert_eq!(d.iteration(), 0);
    assert_eq!(d.tick(), TickEvent::Merged);
    assert_eq!(d.progress(), 0);
    assert_eq!(d.iteration(), 1);
}

#[test]
fn completion_is_reported_exactly_once() {
    let mut d = DragonState::new(10);
    d.start();
    let mut completed_at: Vec<usize> = Vec::new();
    for t in 1..=(26 * 11 + 100) {
        if d.tick() == TickEvent::Completed {
            completed_at.push(t);
        }
    }
    assert_eq!(completed_at, vec![26 * 11]);
    assert_eq!(d.phase(), Phase::Finished);
    assert_eq!(d.iteration(), 10);
    assert_eq!(d.progress(), PROGRESS_FULL);
    assert_eq!(d.points().len(), 2049);
    d.start();
    assert_eq!(d.phase(), Phase::Finished);
    assert_eq!(d.tick(), TickEvent::Waiting);
}

#[test]
fn two_iteration_run_end_to_end() {
    let mut d = DragonState::new(2);
    d.start();
    let mut flag = false;
    let mut lengths: Vec<usize> = vec![d.points().len()];
    let mut ticks = 0;
    while d.is_animating() {
        assert!(!flag);
        let event = d.tick();
        ticks += 1;
        if event == TickEvent::Merged || event == TickEvent::Completed {
            lengths.push(d.points().len());
        }
        if event == TickEvent::Completed {
            flag = true;
        }
    }
    assert_eq!(lengths, vec![2, 3, 5, 9]);
    assert!(flag);
    assert_eq!(ticks, 78);
    assert_eq!(d.points(), &dragon_points(3));
}

#[test]
fn frame_shows_copy_in_flight() {
    let mut d = DragonState::new(1);
    match d.frame() {
        Frame::Still { points } => assert_eq!(points, vec![pt(0, 0), pt(1, 0)]),
        Frame::Turning { .. } => panic!("an idle driver draws the curve alone"),
    }
    d.start();
    d.tick();
    match d.frame() {
        Frame::Turning { points, copy, pivot, progress } => {
            assert_eq!(points, vec![pt(0, 0), pt(1, 0)]);
            assert_eq!(copy, vec![pt(0, 0)]);
            assert_eq!(pivot, pt(1, 0));
            assert_eq!(progress, 40);
        }
        Frame::Still { .. } => panic!("an animating driver draws the copy"),
    }
}
