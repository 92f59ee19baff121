use macbookfan::fan::{clamp, dispatch_all, output_bounds, Fan};

#[test]
fn clamp_values() {
    assert_eq!(clamp(7000, 2000, 5700), 5700);
    assert_eq!(clamp(-500, 2000, 5700), 2000);
    assert_eq!(clamp(3000, 2000, 5700), 3000);
    assert_eq!(clamp(2000, 2000, 5700), 2000);
}

#[test]
fn dispatch_clamps_to_fan_bounds() {
    let mut fan = Fan::new("fan1".to_string(), 2000, 5700);
    assert_eq!(fan.dispatch(7000), Some(5700));
    assert_eq!(fan.cur_speed, Some(5700));
    assert_eq!(fan.dispatch(-500), Some(2000));
    assert_eq!(fan.cur_speed, Some(2000));
}

#[test]
fn dispatch_suppresses_repeated_speed() {
    let mut fan = Fan::new("fan1".to_string(), 2000, 5700);
    assert_eq!(fan.dispatch(3000), Some(3000));
    assert_eq!(fan.dispatch(3000), None);
    assert_eq!(fan.dispatch(6000), Some(5700));
    assert_eq!(fan.dispatch(9000), None);
    assert_eq!(fan.dispatch(i32::MAX), None);
    assert_eq!(fan.cur_speed, Some(5700));
}

#[test]
fn first_dispatch_always_writes() {
    let mut fan = Fan::new("fan2".to_string(), 0, 100);
    assert_eq!(fan.cur_speed, None);
    assert_eq!(fan.dispatch(0), Some(0));
    assert_eq!(fan.dispatch(-20), None);
}

#[test]
fn dispatch_all_clamps_each_fan() {
    let mut fans = vec![
        Fan::new("fan1".to_string(), 2000, 5700),
        Fan::new("fan2".to_string(), 1200, 6200),
    ];
    assert_eq!(dispatch_all(&mut fans, 6000), vec![Some(5700), Some(6000)]);
    assert_eq!(dispatch_all(&mut fans, 5800), vec![None, Some(5800)]);
    assert_eq!(dispatch_all(&mut fans, 1000), vec![Some(2000), Some(1200)]);
    assert_eq!(fans[0].identifier, "fan1");
    assert_eq!(fans[1].cur_speed, Some(1200));
}

#[test]
fn output_bounds_span_all_fans() {
    let fans = vec![
        Fan::new("fan1".to_string(), 2000, 5700),
        Fan::new("fan2".to_string(), 1200, 5000),
        Fan::new("fan3".to_string(), 1500, 6200),
    ];
    assert_eq!(output_bounds(&fans), (1200, 6200));
    let single = vec![Fan::new("fan1".to_string(), 2000, 5700)];
    assert_eq!(output_bounds(&single), (2000, 5700));
}
