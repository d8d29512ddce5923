use std::time::Duration;

use makcu::batch::{AsyncBatchBuilder, BatchAction, BatchBuilder, ExtrasStep};
use makcu::device::Lock;
use makcu::error::MakcuError;
use makcu::Button;

fn writes(plan: &[BatchAction]) -> Vec<Vec<u8>> {
    plan.iter()
        .map(|a| match a {
            BatchAction::Write(b) => b.clone(),
            BatchAction::Extras(_) => b"<extras>".to_vec(),
        })
        .collect()
}

#[test]
fn native_commands_coalesce_into_one_write() {
    let plan = BatchBuilder::new()
        .move_xy(10, 0)
        .move_xy(0, 10)
        .button_down(Button::Left)
        .button_up(Button::Left)
        .wheel(1)
        .execution_plan();
    assert_eq!(
        writes(&plan),
        vec![b"km.move(10,0)\r\nkm.move(0,10)\r\nkm.left(1)\r\nkm.left(0)\r\nkm.wheel(1)\r\n".to_vec()]
    );
}

#[test]
fn extras_split_the_writes() {
    let plan = BatchBuilder::new()
        .silent_move(1, 2)
        .click(Button::Right, Duration::from_millis(50))
        .set_lock(Lock::X, true)
        .button_up_force(Button::Side1)
        .drag(Button::Left, 100, 0, 10, Duration::from_millis(15))
        .execution_plan();
    assert_eq!(
        writes(&plan),
        vec![
            b"km.silent(1,2)\r\n".to_vec(),
            b"<extras>".to_vec(),
            b"km.lock_mx(1)\r\nkm.ms1(2)\r\n".to_vec(),
            b"<extras>".to_vec(),
        ]
    );
    match &plan[1] {
        BatchAction::Extras(ExtrasStep::Click { button, hold }) => {
            assert_eq!(*button, Button::Right);
            assert_eq!(*hold, Duration::from_millis(50));
        }
        _ => panic!("expected click"),
    }
}

#[test]
fn empty_batch_does_nothing() {
    assert!(BatchBuilder::new().execution_plan().is_empty());
    assert!(AsyncBatchBuilder::new().execution_plan().is_empty());
}

#[test]
fn consecutive_extras_have_no_write_between() {
    let plan = AsyncBatchBuilder::new()
        .move_smooth(200, 0, 20, Duration::from_millis(10))
        .move_pattern(vec![(100, 0), (0, 100)], 10, Duration::from_millis(10))
        .click_sequence(Button::Left, Duration::from_millis(50), 3, Duration::from_millis(100))
        .wheel(-1)
        .execution_plan();
    assert_eq!(plan.len(), 4);
    match &plan[1] {
        BatchAction::Extras(ExtrasStep::MovePattern { waypoints, steps, .. }) => {
            assert_eq!(waypoints, &vec![(100, 0), (0, 100)]);
            assert_eq!(*steps, 10);
        }
        _ => panic!("expected pattern"),
    }
    assert_eq!(writes(&plan)[3], b"km.wheel(-1)\r\n".to_vec());
}

#[test]
fn async_builder_matches_sync_builder() {
    let a = AsyncBatchBuilder::new()
        .move_xy(-5, 5)
        .silent_move(3, 3)
        .button_down(Button::Middle)
        .button_up(Button::Middle)
        .button_up_force(Button::Right)
        .set_lock(Lock::Side2, false)
        .wheel(2)
        .execution_plan();
    let s = BatchBuilder::new()
        .move_xy(-5, 5)
        .silent_move(3, 3)
        .button_down(Button::Middle)
        .button_up(Button::Middle)
        .button_up_force(Button::Right)
        .set_lock(Lock::Side2, false)
        .wheel(2)
        .execution_plan();
    assert_eq!(writes(&a), writes(&s));
    assert_eq!(writes(&a).len(), 1);
}

#[test]
fn checked_builders_refuse_out_of_range() {
    match BatchBuilder::new().checked_move_xy(40000, 0) {
        Err(MakcuError::OutOfRange { value, min, max }) => {
            assert_eq!((value, min, max), (40000, -32767, 32767))
        }
        _ => panic!("expected range error"),
    }
    match BatchBuilder::new().checked_silent_move(0, -32768) {
        Err(MakcuError::OutOfRange { value, .. }) => assert_eq!(value, -32768),
        _ => panic!("expected range error"),
    }
    match BatchBuilder::new().checked_wheel(128) {
        Err(MakcuError::OutOfRange { value, min, max }) => {
            assert_eq!((value, min, max), (128, -127, 127))
        }
        _ => panic!("expected range error"),
    }
    match AsyncBatchBuilder::new().checked_wheel(-200) {
        Err(MakcuError::OutOfRange { value, .. }) => assert_eq!(value, -200),
        _ => panic!("expected range error"),
    }
}

#[test]
fn checked_builders_accept_in_range() {
    let b = match BatchBuilder::new().checked_move_xy(-32767, 32767) {
        Ok(b) => b,
        Err(e) => panic!("unexpected {:?}", e),
    };
    let b = match b.checked_wheel(-127) {
        Ok(b) => b,
        Err(e) => panic!("unexpected {:?}", e),
    };
    assert_eq!(
        writes(&b.execution_plan()),
        vec![b"km.move(-32767,32767)\r\nkm.wheel(-127)\r\n".to_vec()]
    );
}
