use macbookfan::control::{ControlState, AC_ADJUSTMENT};
use macbookfan::fan::{dispatch_all, output_bounds, Fan};
use pid_control::{Controller, PIDController};

fn degrees(millidegrees: i64) -> f64 {
    millidegrees as f64 / 1000.0
}

#[test]
fn hot_on_battery_then_ac_lowers_speed() {
    let mut fans = vec![Fan::new("fan1".to_string(), 2000, 5700)];
    let (lo, hi) = output_bounds(&fans);
    let mut pid = PIDController::new(-60.0, -60.0, -60.0);
    pid.set_limits(lo as f64, hi as f64);
    let mut state = ControlState::new(41000, AC_ADJUSTMENT);
    pid.set_target(degrees(state.target));

    let mut speeds = Vec::new();
    for _ in 0..4 {
        if let Some(t) = state.observe_power(false) {
            pid.set_target(degrees(t));
        }
        let raw = pid.update(45.0, 5.0).round() as i32;
        dispatch_all(&mut fans, raw);
        speeds.push(fans[0].cur_speed.unwrap());
        state.advance();
    }
    assert_eq!(speeds, vec![2240, 3440, 4640, 5700]);

    let t = state.observe_power(true);
    assert_eq!(t, Some(47000));
    pid.set_target(degrees(t.unwrap()));
    let raw = pid.update(45.0, 5.0).round() as i32;
    let writes = dispatch_all(&mut fans, raw);
    assert_eq!(writes, vec![Some(4880)]);
    assert!(fans[0].cur_speed.unwrap() < 5700);
}
