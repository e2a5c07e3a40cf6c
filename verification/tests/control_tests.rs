use stickwire::control::ControlLoop;
use stickwire::frame::AxisReading;

/// Drive one cycle of the loop the way the process around it does: plan,
/// "write" with the given simulated transport outcome, record. Returns the
/// number of frames whose write was attempted (0 or 1).
fn drive_cycle(ctl: &mut ControlLoop, reading: Option<AxisReading>, transport_ok: bool) -> usize {
    match ctl.plan(&reading) {
        Some(frame) => {
            assert_eq!(frame.as_bytes().len(), 11);
            ctl.record_write(transport_ok);
            1
        }
        None => 0,
    }
}

#[test]
fn write_failure_terminates_after_that_iteration() {
    let mut ctl = ControlLoop::new();
    let reading = || Some(AxisReading { x: 100, y: -100 });
    let mut attempts = 0usize;
    attempts += drive_cycle(&mut ctl, reading(), true);
    attempts += drive_cycle(&mut ctl, reading(), true);
    assert!(ctl.is_running());
    attempts += drive_cycle(&mut ctl, reading(), false);
    assert!(!ctl.is_running());
    assert!(ctl.failed());
    assert_eq!(attempts, 3);
    // Once terminated, no further write is ever attempted.
    for _ in 0..5 {
        attempts += drive_cycle(&mut ctl, reading(), true);
    }
    assert_eq!(attempts, 3);
}

#[test]
fn device_absence_writes_nothing_and_keeps_running() {
    let mut ctl = ControlLoop::new();
    let mut attempts = 0usize;
    attempts += drive_cycle(&mut ctl, Some(AxisReading { x: 0, y: 0 }), true);
    // The device disappears mid-run: no frames, no crash, still running.
    for _ in 0..4 {
        attempts += drive_cycle(&mut ctl, None, true);
    }
    assert_eq!(attempts, 1);
    assert!(ctl.is_running());
    assert!(!ctl.failed());
    // It comes back: writes resume.
    attempts += drive_cycle(&mut ctl, Some(AxisReading { x: 1, y: 2 }), true);
    assert_eq!(attempts, 2);
    assert!(ctl.is_running());
}

#[test]
fn plan_produces_exactly_one_frame_per_present_cycle() {
    let ctl = ControlLoop::new();
    assert!(ctl.plan(&Some(AxisReading { x: 5, y: 6 })).is_some());
    assert!(ctl.plan(&None).is_none());
}

#[test]
fn terminated_loop_plans_nothing() {
    let mut ctl = ControlLoop::new();
    drive_cycle(&mut ctl, Some(AxisReading { x: 5, y: 6 }), false);
    assert!(ctl.plan(&Some(AxisReading { x: 5, y: 6 })).is_none());
    assert!(ctl.plan(&None).is_none());
}
