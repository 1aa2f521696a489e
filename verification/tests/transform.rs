//! The per-axis transform pipeline on concrete samples.

use vmouse::UNIT;
use vmouse::config::AxisConfig;
use vmouse::output::OutputMap;

fn cfg(curve: i64, scale: i64, deadzone: i64) -> AxisConfig {
    AxisConfig { map: OutputMap::Off, curve, scale, deadzone }
}

#[test]
fn identity_passes_samples_through() {
    let c = cfg(0, UNIT, 0);
    for raw in [-1000i64, -999, -500, -7, 0, 1, 350, 500, 999, 1000] {
        assert_eq!(c.transform(raw), raw);
    }
}

#[test]
fn deadzone_zeroes_small_samples() {
    let c = cfg(0, UNIT, 200);
    assert_eq!(c.transform(0), 0);
    assert_eq!(c.transform(150), 0);
    assert_eq!(c.transform(-199), 0);
    assert_eq!(c.transform(199), 0);
}

#[test]
fn deadzone_rescales_the_rest_linearly() {
    let c = cfg(0, UNIT, 200);
    assert_eq!(c.transform(200), 0);
    assert_eq!(c.transform(600), 500);
    assert_eq!(c.transform(1000), 1000);
    assert_eq!(c.transform(-600), -500);
    assert_eq!(c.transform(-1000), -1000);
}

#[test]
fn full_deadzone_collapses_everything() {
    let c = cfg(0, UNIT, UNIT);
    assert_eq!(c.transform(1000), 0);
    assert_eq!(c.transform(-1000), 0);
    assert_eq!(c.transform(1), 0);
}

#[test]
fn pure_cubic_curve() {
    let c = cfg(UNIT, UNIT, 0);
    // 0.5 cubed is 0.125.
    assert_eq!(c.transform(500), 125);
    assert_eq!(c.transform(-500), -125);
    // The endpoints stay put.
    assert_eq!(c.transform(1000), 1000);
    assert_eq!(c.transform(-1000), -1000);
}

#[test]
fn half_curve_blends_linear_and_cubic() {
    let c = cfg(500, UNIT, 0);
    // (0.5 * 0.125 + 0.5 * 0.5) = 0.3125, truncated to 0.312.
    assert_eq!(c.transform(500), 312);
    assert_eq!(c.transform(1000), 1000);
}

#[test]
fn scale_multiplies_the_output() {
    let c = cfg(0, 5, 0);
    assert_eq!(c.transform(1000), 5);
    assert_eq!(c.transform(-1000), -5);
    let c2 = cfg(0, 200, 0);
    assert_eq!(c2.transform(500), 100);
}

#[test]
fn negative_scale_inverts_the_axis() {
    let c = cfg(0, -UNIT, 0);
    assert_eq!(c.transform(500), -500);
    assert_eq!(c.transform(-500), 500);
    assert_eq!(c.transform(0), 0);
}

#[test]
fn odd_symmetry_on_concrete_samples() {
    let configs = [
        cfg(0, UNIT, 0),
        cfg(700, -300, 100),
        cfg(1000, 5, 250),
        cfg(500, -1000, 999),
    ];
    for c in configs {
        for raw in [0i64, 1, 137, 350, 500, 999, 1000] {
            assert_eq!(c.transform(-raw), -c.transform(raw));
        }
    }
}
