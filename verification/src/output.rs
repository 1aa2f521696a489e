//! Virtual-output translation: which physical output events one
//! `(output channel, transformed value)` pair turns into.

use vstd::prelude::*;

use crate::{AXIS_MAX, SCALE_LIMIT, UNIT};
use crate::axis::{EV_REL, REL_X, REL_Y};

verus! {

/// Kernel event type number for synchronization events.
pub const EV_SYN: u16 = 0;

/// Kernel event type number for key and button events.
pub const EV_KEY: u16 = 1;

/// Kernel synchronization code that commits a batch of events.
pub const SYN_REPORT: u16 = 0;

/// Kernel relative code for legacy horizontal scroll.
pub const REL_HWHEEL: u16 = 6;

/// Kernel relative code for legacy vertical scroll.
pub const REL_WHEEL: u16 = 8;

/// Kernel relative code for high-resolution vertical scroll.
pub const REL_WHEEL_HI_RES: u16 = 11;

/// Kernel relative code for high-resolution horizontal scroll.
pub const REL_HWHEEL_HI_RES: u16 = 12;

/// Kernel key code for the left mouse button.
pub const BTN_LEFT: u16 = 272;

/// Kernel key code for the right mouse button.
pub const BTN_RIGHT: u16 = 273;

/// High-resolution scroll events carry this many counts per legacy notch.
pub const HI_RES_FACTOR: i64 = 120;

/// The output channel a logical axis drives.
#[derive(Copy, Clone, Debug, PartialEq, Eq, Structural)]
pub enum OutputMap {
    /// Unmapped: the axis drives no output.
    Off,
    /// Relative pointer motion along X.
    X,
    /// Relative pointer motion along Y.
    Y,
    /// Horizontal scroll.
    H,
    /// Vertical scroll.
    V,
}

/// One event to write to the virtual output device, in plain kernel terms:
/// event type, event code, and value.
#[derive(Copy, Clone, Debug, PartialEq, Eq, Structural)]
pub struct OutEvent {
    /// Kernel event type number.
    pub etype: u16,
    /// Kernel event code within the type.
    pub code: u16,
    /// Signed event value.
    pub value: i64,
}

/// A normalized value scaled back to device-native counts:
/// `v * AXIS_MAX / UNIT`, truncated toward zero.
pub open spec fn spec_denormalize(v: int) -> int {
    if v >= 0 {
        (v * AXIS_MAX) / (UNIT as int)
    } else {
        -(((-v) * AXIS_MAX) / (UNIT as int))
    }
}

/// A normalized value scaled to high-resolution scroll counts:
/// `v * AXIS_MAX * HI_RES_FACTOR / UNIT`, truncated toward zero.
pub open spec fn spec_denormalize_hi_res(v: int) -> int {
    if v >= 0 {
        (v * AXIS_MAX * HI_RES_FACTOR) / (UNIT as int)
    } else {
        -(((-v) * AXIS_MAX * HI_RES_FACTOR) / (UNIT as int))
    }
}

/// The exact event batch one `(channel, value)` pair produces: nothing for
/// an unmapped channel; one motion or one-or-two scroll events followed by
/// one synchronization event otherwise.  Vertical scroll is sign-inverted
/// (natural-scrolling convention).
pub open spec fn spec_output_events(m: OutputMap, v: int) -> Seq<OutEvent> {
    let d = spec_denormalize(v);
    let dh = spec_denormalize_hi_res(v);
    let syn = OutEvent { etype: EV_SYN, code: SYN_REPORT, value: 0 };
    match m {
        OutputMap::Off => Seq::empty(),
        OutputMap::X => seq![
            OutEvent { etype: EV_REL, code: REL_X, value: d as i64 },
            syn,
        ],
        OutputMap::Y => seq![
            OutEvent { etype: EV_REL, code: REL_Y, value: d as i64 },
            syn,
        ],
        OutputMap::H => seq![
            OutEvent { etype: EV_REL, code: REL_HWHEEL, value: d as i64 },
            OutEvent { etype: EV_REL, code: REL_HWHEEL_HI_RES, value: dh as i64 },
            syn,
        ],
        OutputMap::V => seq![
            OutEvent { etype: EV_REL, code: REL_WHEEL, value: (-d) as i64 },
            OutEvent { etype: EV_REL, code: REL_WHEEL_HI_RES, value: (-dh) as i64 },
            syn,
        ],
    }
}

impl OutputMap {
    /// Translates one transformed axis value into the batch of output
    /// events to write, per [`spec_output_events`].
    pub fn events(&self, v: i64) -> (r: Vec<OutEvent>)
        requires
            -SCALE_LIMIT <= v <= SCALE_LIMIT,
        ensures
            r@ == spec_output_events(*self, v as int),
            forall|i: int| 0 <= i < r@.len() ==> -0x8000_0000 <= (#[trigger] r@[i]).value
                < 0x8000_0000,
    {
        let d = denormalize(v);
        let syn = OutEvent { etype: EV_SYN, code: SYN_REPORT, value: 0 };
        let mut out: Vec<OutEvent> = Vec::new();
        match self {
            OutputMap::Off => {},
            OutputMap::X => {
                out.push(OutEvent { etype: EV_REL, code: REL_X, value: d });
                out.push(syn);
            },
            OutputMap::Y => {
                out.push(OutEvent { etype: EV_REL, code: REL_Y, value: d });
                out.push(syn);
            },
            OutputMap::H => {
                let dh = denormalize_hi_res(v);
                out.push(OutEvent { etype: EV_REL, code: REL_HWHEEL, value: d });
                out.push(OutEvent { etype: EV_REL, code: REL_HWHEEL_HI_RES, value: dh });
                out.push(syn);
            },
            OutputMap::V => {
                let dh = denormalize_hi_res(v);
                out.push(OutEvent { etype: EV_REL, code: REL_WHEEL, value: -d });
                out.push(OutEvent { etype: EV_REL, code: REL_WHEEL_HI_RES, value: -dh });
                out.push(syn);
            },
        }
        proof {
            assert(out@ =~= spec_output_events(*self, v as int));
        }
        out
    }
}

/// Scales a normalized value back to device-native counts.
fn denormalize(v: i64) -> (r: i64)
    requires
        -SCALE_LIMIT <= v <= SCALE_LIMIT,
    ensures
        r == spec_denormalize(v as int),
        -350_000 <= r <= 350_000,
{
    proof {
        if v >= 0 {
            vstd::arithmetic::div_mod::lemma_div_is_ordered(
                v * AXIS_MAX,
                SCALE_LIMIT * AXIS_MAX,
                UNIT as int,
            );
        } else {
            vstd::arithmetic::div_mod::lemma_div_is_ordered(
                (-v) * AXIS_MAX,
                SCALE_LIMIT * AXIS_MAX,
                UNIT as int,
            );
        }
        assert(SCALE_LIMIT * AXIS_MAX / (UNIT as int) == 350_000);
    }
    if v >= 0 {
        (v * AXIS_MAX) / UNIT
    } else {
        -(((-v) * AXIS_MAX) / UNIT)
    }
}

/// Scales a normalized value to high-resolution scroll counts.
fn denormalize_hi_res(v: i64) -> (r: i64)
    requires
        -SCALE_LIMIT <= v <= SCALE_LIMIT,
    ensures
        r == spec_denormalize_hi_res(v as int),
        -42_000_000 <= r <= 42_000_000,
{
    proof {
        if v >= 0 {
            vstd::arithmetic::div_mod::lemma_div_is_ordered(
                v * AXIS_MAX * HI_RES_FACTOR,
                SCALE_LIMIT * AXIS_MAX * HI_RES_FACTOR,
                UNIT as int,
            );
        } else {
            vstd::arithmetic::div_mod::lemma_div_is_ordered(
                (-v) * AXIS_MAX * HI_RES_FACTOR,
                SCALE_LIMIT * AXIS_MAX * HI_RES_FACTOR,
                UNIT as int,
            );
        }
        assert(SCALE_LIMIT * AXIS_MAX * HI_RES_FACTOR / (UNIT as int) == 42_000_000);
    }
    if v >= 0 {
        (v * AXIS_MAX * HI_RES_FACTOR) / UNIT
    } else {
        -(((-v) * AXIS_MAX * HI_RES_FACTOR) / UNIT)
    }
}

/// Event types the virtual output device declares at creation.
pub fn capability_types() -> (r: Vec<u16>)
    ensures
        r@ == seq![EV_KEY, EV_REL],
{
    let mut v: Vec<u16> = Vec::new();
    v.push(EV_KEY);
    v.push(EV_REL);
    proof {
        assert(v@ =~= seq![EV_KEY, EV_REL]);
    }
    v
}

/// Event `(type, code)` pairs the virtual output device declares at
/// creation: both buttons, both motion axes, both scroll wheels at legacy
/// and high resolution, and the synchronization report.
pub fn capability_codes() -> (r: Vec<(u16, u16)>)
    ensures
        r@ == seq![
            (EV_KEY, BTN_LEFT),
            (EV_KEY, BTN_RIGHT),
            (EV_REL, REL_X),
            (EV_REL, REL_Y),
            (EV_REL, REL_WHEEL),
            (EV_REL, REL_HWHEEL),
            (EV_REL, REL_WHEEL_HI_RES),
            (EV_REL, REL_HWHEEL_HI_RES),
            (EV_SYN, SYN_REPORT),
        ],
{
    let mut v: Vec<(u16, u16)> = Vec::new();
    v.push((EV_KEY, BTN_LEFT));
    v.push((EV_KEY, BTN_RIGHT));
    v.push((EV_REL, REL_X));
    v.push((EV_REL, REL_Y));
    v.push((EV_REL, REL_WHEEL));
    v.push((EV_REL, REL_HWHEEL));
    v.push((EV_REL, REL_WHEEL_HI_RES));
    v.push((EV_REL, REL_HWHEEL_HI_RES));
    v.push((EV_SYN, SYN_REPORT));
    proof {
        assert(v@ =~= seq![
            (EV_KEY, BTN_LEFT),
            (EV_KEY, BTN_RIGHT),
            (EV_REL, REL_X),
            (EV_REL, REL_Y),
            (EV_REL, REL_WHEEL),
            (EV_REL, REL_HWHEEL),
            (EV_REL, REL_WHEEL_HI_RES),
            (EV_REL, REL_HWHEEL_HI_RES),
            (EV_SYN, SYN_REPORT),
        ]);
    }
    v
}

} // verus!
