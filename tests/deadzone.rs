use roomcore::deadzone::{axis_deadzone, Vec2, UNIT};

#[test]
fn axis_midrange_rescales() {
    // 0.5 with thresholds 0.2 and 0.9, in millionths: 0.3 / 0.7 = 0.428571...
    assert_eq!(axis_deadzone(5000, 2000, 9000), 428571);
    assert_eq!(axis_deadzone(-5000, 2000, 9000), -428571);
}

#[test]
fn axis_inside_deadzone_is_zero() {
    assert_eq!(axis_deadzone(0, 2000, 9000), 0);
    assert_eq!(axis_deadzone(1500, 2000, 9000), 0);
    assert_eq!(axis_deadzone(-2000, 2000, 9000), 0);
}

#[test]
fn axis_beyond_max_is_full_scale() {
    assert_eq!(axis_deadzone(9000, 2000, 9000), UNIT);
    assert_eq!(axis_deadzone(32767, 2000, 9000), UNIT);
    assert_eq!(axis_deadzone(-32768, 2000, 9000), -UNIT);
    assert_eq!(axis_deadzone(i32::MIN, 0, 1), -UNIT);
}

#[test]
fn axis_is_monotone_and_keeps_sign() {
    let mut prev = 0;
    let mut v = 0;
    while v <= 10000 {
        let r = axis_deadzone(v, 2000, 9000);
        assert!(r >= prev);
        assert_eq!(axis_deadzone(-v, 2000, 9000), -r);
        prev = r;
        v += 250;
    }
}

#[test]
fn axis_zero_min() {
    assert_eq!(axis_deadzone(1, 0, 10), 100000);
    assert_eq!(axis_deadzone(-3, 0, 10), -300000);
}

#[test]
fn cardinal_applies_each_axis() {
    let r = Vec2::new(5000, -1000).cardinal_deadzone(2000, 9000);
    assert_eq!(r, Vec2::new(428571, 0));
    let r = Vec2::new(-9500, 9500).cardinal_deadzone(2000, 9000);
    assert_eq!(r, Vec2::new(-UNIT, UNIT));
}

#[test]
fn radial_below_min_is_zero() {
    // length 0.05 with thresholds 0.1 and 1.0
    let r = Vec2::new(300, 400).radial_deadzone(1000, 10000);
    assert_eq!(r, Vec2::new(0, 0));
    assert_eq!(Vec2::new(0, 0).radial_deadzone(0, 10), Vec2::new(0, 0));
}

#[test]
fn radial_midrange_keeps_direction() {
    // length 0.5: scale (0.5 - 0.1) / 0.9 = 0.4444
    let r = Vec2::new(3000, 4000).radial_deadzone(1000, 10000);
    assert_eq!(r, Vec2::new(266666, 355555));
    let r = Vec2::new(-3000, -4000).radial_deadzone(1000, 10000);
    assert_eq!(r, Vec2::new(-266666, -355555));
}

#[test]
fn radial_beyond_max_is_unit() {
    let r = Vec2::new(30000, -40000).radial_deadzone(1000, 10000);
    assert_eq!(r, Vec2::new(600000, -800000));
    let r = Vec2::new(0, 32767).radial_deadzone(1000, 10000);
    assert_eq!(r, Vec2::new(0, UNIT));
}

#[test]
fn radial_extreme_components() {
    let r = Vec2::new(i32::MIN, i32::MIN).radial_deadzone(0, 1);
    assert_eq!(r, Vec2::new(-707106, -707106));
}

#[test]
fn radial_stays_in_unit_disc() {
    let near = Vec2::new(1, 1).radial_deadzone(0, 1);
    let far = Vec2::new(3, 3).radial_deadzone(0, 1);
    assert_eq!(near, Vec2::new(707106, 707106));
    assert_eq!(far, near);
    let full = Vec2::new(10000, 10000).radial_deadzone(1000, 10000);
    let len_sq = (full.x as i64) * (full.x as i64) + (full.y as i64) * (full.y as i64);
    assert!(len_sq <= (UNIT as i64) * (UNIT as i64));
    assert!(len_sq >= (UNIT as i64 - 2) * (UNIT as i64 - 2));
}
