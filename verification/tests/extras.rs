use std::time::Duration;

use makcu::batch::ExtrasStep;
use makcu::extras::{extras_actions, smooth_steps, TimedAction};
use makcu::Button;

fn total(d: &[(i32, i32)]) -> (i64, i64) {
    d.iter().fold((0, 0), |(a, b), &(x, y)| (a + x as i64, b + y as i64))
}

#[test]
fn smooth_steps_split_evenly() {
    assert_eq!(smooth_steps(200, 0, 4), vec![(50, 0), (50, 0), (50, 0), (50, 0)]);
    assert_eq!(smooth_steps(10, -10, 3), vec![(3, -3), (3, -3), (4, -4)]);
}

#[test]
fn smooth_steps_zero_steps_is_one_move() {
    assert_eq!(smooth_steps(7, -9, 0), vec![(7, -9)]);
}

#[test]
fn smooth_steps_reach_target() {
    for &(x, y, n) in &[(1, 1, 5), (-32767, 32767, 7), (i32::MIN, i32::MAX, 3), (0, 0, 2)] {
        let d = smooth_steps(x, y, n);
        assert_eq!(d.len(), n as usize);
        assert_eq!(total(&d), (x as i64, y as i64));
    }
}

fn ms(n: u64) -> Duration {
    Duration::from_millis(n)
}

#[test]
fn click_is_press_hold_release() {
    let a = extras_actions(ExtrasStep::Click { button: Button::Left, hold: ms(50) });
    assert_eq!(
        a,
        vec![
            TimedAction::Press(Button::Left),
            TimedAction::Sleep(ms(50)),
            TimedAction::Release(Button::Left),
        ]
    );
}

#[test]
fn click_sequence_waits_between_clicks_only() {
    let step = |count| ExtrasStep::ClickSequence {
        button: Button::Right,
        hold: ms(10),
        count,
        interval: ms(30),
    };
    assert_eq!(extras_actions(step(0)), Vec::new());
    assert_eq!(
        extras_actions(step(1)),
        vec![
            TimedAction::Press(Button::Right),
            TimedAction::Sleep(ms(10)),
            TimedAction::Release(Button::Right),
        ]
    );
    let three = extras_actions(step(3));
    assert_eq!(three.len(), 11);
    assert_eq!(three[3], TimedAction::Sleep(ms(30)));
    assert_eq!(three[7], TimedAction::Sleep(ms(30)));
    assert_eq!(three[10], TimedAction::Release(Button::Right));
}

#[test]
fn move_smooth_moves_then_waits_each_step() {
    let a = extras_actions(ExtrasStep::MoveSmooth { x: 10, y: -10, steps: 3, interval: ms(5) });
    assert_eq!(
        a,
        vec![
            TimedAction::Move(3, -3),
            TimedAction::Sleep(ms(5)),
            TimedAction::Move(3, -3),
            TimedAction::Sleep(ms(5)),
            TimedAction::Move(4, -4),
            TimedAction::Sleep(ms(5)),
        ]
    );
}

#[test]
fn move_pattern_visits_each_waypoint() {
    let a = extras_actions(ExtrasStep::MovePattern {
        waypoints: vec![(4, 0), (0, -2)],
        steps: 2,
        interval: ms(1),
    });
    assert_eq!(
        a,
        vec![
            TimedAction::Move(2, 0),
            TimedAction::Sleep(ms(1)),
            TimedAction::Move(2, 0),
            TimedAction::Sleep(ms(1)),
            TimedAction::Move(0, -1),
            TimedAction::Sleep(ms(1)),
            TimedAction::Move(0, -1),
            TimedAction::Sleep(ms(1)),
        ]
    );
    let none = extras_actions(ExtrasStep::MovePattern { waypoints: Vec::new(), steps: 5, interval: ms(1) });
    assert!(none.is_empty());
}

#[test]
fn drag_presses_moves_and_releases() {
    let a = extras_actions(ExtrasStep::Drag { button: Button::Middle, x: 7, y: 9, steps: 0, interval: ms(2) });
    assert_eq!(
        a,
        vec![
            TimedAction::Press(Button::Middle),
            TimedAction::Move(7, 9),
            TimedAction::Sleep(ms(2)),
            TimedAction::Release(Button::Middle),
        ]
    );
}
