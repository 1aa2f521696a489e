//! Output-event translation and input-event normalization on concrete
//! values.

use vmouse::axis::{Axis, AxisCollection, AxisValue, EV_REL, REL_X, REL_Y};
use vmouse::output::{
    capability_codes, capability_types, OutEvent, OutputMap, EV_KEY, EV_SYN, REL_HWHEEL,
    REL_HWHEEL_HI_RES, REL_WHEEL, REL_WHEEL_HI_RES, SYN_REPORT,
};

fn ev(etype: u16, code: u16, value: i64) -> OutEvent {
    OutEvent { etype, code, value }
}

#[test]
fn unmapped_channel_emits_nothing() {
    assert_eq!(OutputMap::Off.events(500), vec![]);
    assert_eq!(OutputMap::Off.events(0), vec![]);
}

#[test]
fn motion_channels_emit_one_event_and_a_sync() {
    // 0.5 normalized turns back into 175 device counts.
    assert_eq!(
        OutputMap::X.events(500),
        vec![ev(EV_REL, REL_X, 175), ev(EV_SYN, SYN_REPORT, 0)]
    );
    assert_eq!(
        OutputMap::Y.events(-1000),
        vec![ev(EV_REL, REL_Y, -350), ev(EV_SYN, SYN_REPORT, 0)]
    );
}

#[test]
fn horizontal_scroll_emits_legacy_and_high_resolution() {
    assert_eq!(
        OutputMap::H.events(500),
        vec![
            ev(EV_REL, REL_HWHEEL, 175),
            ev(EV_REL, REL_HWHEEL_HI_RES, 21000),
            ev(EV_SYN, SYN_REPORT, 0),
        ]
    );
}

#[test]
fn vertical_scroll_is_sign_inverted() {
    assert_eq!(
        OutputMap::V.events(500),
        vec![
            ev(EV_REL, REL_WHEEL, -175),
            ev(EV_REL, REL_WHEEL_HI_RES, -21000),
            ev(EV_SYN, SYN_REPORT, 0),
        ]
    );
    assert_eq!(
        OutputMap::V.events(-500),
        vec![
            ev(EV_REL, REL_WHEEL, 175),
            ev(EV_REL, REL_WHEEL_HI_RES, 21000),
            ev(EV_SYN, SYN_REPORT, 0),
        ]
    );
}

#[test]
fn extreme_gain_stays_within_device_range() {
    let events = OutputMap::H.events(1_000_000);
    assert_eq!(events[0].value, 350_000);
    assert_eq!(events[1].value, 42_000_000);
    for e in events {
        assert!(e.value >= -0x8000_0000 && e.value < 0x8000_0000);
    }
}

#[test]
fn normalization_of_raw_samples() {
    // Half of the device range is half of the fixed-point range.
    assert_eq!(
        AxisValue::from_event(EV_REL, REL_X, 175),
        Some(AxisValue { a: Axis::X, v: 500 })
    );
    assert_eq!(
        AxisValue::from_event(EV_REL, 5, -350),
        Some(AxisValue { a: Axis::RZ, v: -1000 })
    );
    assert_eq!(
        AxisValue::from_event(EV_REL, 2, 1),
        Some(AxisValue { a: Axis::Z, v: 2 })
    );
    // Key events and unknown codes drive no axis.
    assert_eq!(AxisValue::from_event(EV_KEY, 0, 10), None);
    assert_eq!(AxisValue::from_event(EV_REL, 7, 10), None);
}

#[test]
fn declared_capabilities_cover_all_outputs() {
    assert_eq!(capability_types(), vec![EV_KEY, EV_REL]);
    let codes = capability_codes();
    assert_eq!(codes.len(), 9);
    assert!(codes.contains(&(EV_REL, REL_HWHEEL_HI_RES)));
    assert!(codes.contains(&(EV_SYN, SYN_REPORT)));
}

#[test]
fn axis_iteration_order_is_fixed() {
    let all = Axis::all();
    assert_eq!(
        all,
        vec![Axis::X, Axis::Y, Axis::Z, Axis::RX, Axis::RY, Axis::RZ]
    );
    assert_eq!(Axis::linear(), vec![Axis::X, Axis::Y, Axis::Z]);
    assert_eq!(Axis::rotational(), vec![Axis::RX, Axis::RY, Axis::RZ]);
    for (i, a) in all.iter().enumerate() {
        assert_eq!(a.number() as usize, i);
    }
    // Building a collection per axis and reading it back by index agree.
    let c = AxisCollection::with_axis(|a: Axis| a.number());
    for a in all {
        assert_eq!(*c.get(a), a.number());
    }
}

#[test]
fn collection_indexed_writes_hit_one_slot() {
    let mut c: AxisCollection<i64> = Default::default();
    c.set(Axis::RY, 42);
    assert_eq!(*c.get(Axis::RY), 42);
    assert_eq!(*c.get(Axis::X), 0);
    assert_eq!(*c.get(Axis::RZ), 0);
}
