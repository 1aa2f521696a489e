//! The six-axis model: axis enumeration, normalized samples, and the
//! fixed-size per-axis container.

use vstd::prelude::*;

use crate::{AXIS_MAX, AXIS_MIN, UNIT};

verus! {

/// One of the six degrees of freedom the device reports: three
/// translational axes and three rotational axes.
#[derive(Copy, Clone, Debug, PartialEq, Eq, Hash, Structural)]
pub enum Axis {
    X,
    Y,
    Z,
    RX,
    RY,
    RZ,
}

/// Kernel event type number for relative-motion events.
pub const EV_REL: u16 = 2;

/// Kernel relative-motion code for the X axis.
pub const REL_X: u16 = 0;
/// Kernel relative-motion code for the Y axis.
pub const REL_Y: u16 = 1;
/// Kernel relative-motion code for the Z axis.
pub const REL_Z: u16 = 2;
/// Kernel relative-motion code for the RX axis.
pub const REL_RX: u16 = 3;
/// Kernel relative-motion code for the RY axis.
pub const REL_RY: u16 = 4;
/// Kernel relative-motion code for the RZ axis.
pub const REL_RZ: u16 = 5;

/// Position of an axis in the fixed iteration order `X, Y, Z, RX, RY, RZ`.
pub open spec fn axis_index(a: Axis) -> int {
    match a {
        Axis::X => 0,
        Axis::Y => 1,
        Axis::Z => 2,
        Axis::RX => 3,
        Axis::RY => 4,
        Axis::RZ => 5,
    }
}

/// The fixed iteration order over all six axes.
pub open spec fn axis_order() -> Seq<Axis> {
    seq![Axis::X, Axis::Y, Axis::Z, Axis::RX, Axis::RY, Axis::RZ]
}

impl Axis {
    /// All six axes, in the fixed iteration order.
    pub fn all() -> (r: Vec<Axis>)
        ensures
            r@ == axis_order(),
    {
        let mut v: Vec<Axis> = Vec::new();
        v.push(Axis::X);
        v.push(Axis::Y);
        v.push(Axis::Z);
        v.push(Axis::RX);
        v.push(Axis::RY);
        v.push(Axis::RZ);
        proof {
            assert(v@ =~= axis_order());
        }
        v
    }

    /// The three translational axes, in iteration order.
    pub fn linear() -> (r: Vec<Axis>)
        ensures
            r@ == seq![Axis::X, Axis::Y, Axis::Z],
    {
        let mut v: Vec<Axis> = Vec::new();
        v.push(Axis::X);
        v.push(Axis::Y);
        v.push(Axis::Z);
        proof {
            assert(v@ =~= seq![Axis::X, Axis::Y, Axis::Z]);
        }
        v
    }

    /// The three rotational axes, in iteration order.
    pub fn rotational() -> (r: Vec<Axis>)
        ensures
            r@ == seq![Axis::RX, Axis::RY, Axis::RZ],
    {
        let mut v: Vec<Axis> = Vec::new();
        v.push(Axis::RX);
        v.push(Axis::RY);
        v.push(Axis::RZ);
        proof {
            assert(v@ =~= seq![Axis::RX, Axis::RY, Axis::RZ]);
        }
        v
    }

    /// Position of this axis in the fixed iteration order.
    pub fn number(&self) -> (r: u8)
        ensures
            r as int == axis_index(*self),
    {
        match self {
            Axis::X => 0,
            Axis::Y => 1,
            Axis::Z => 2,
            Axis::RX => 3,
            Axis::RY => 4,
            Axis::RZ => 5,
        }
    }

    /// The axis a kernel input event drives: relative-motion events with
    /// codes `REL_X` through `REL_RZ`; every other event drives none.
    pub fn from_event_code(etype: u16, code: u16) -> (r: Option<Axis>)
        ensures
            r == spec_axis_of_code(etype, code),
    {
        if etype != EV_REL {
            return None;
        }
        match code {
            REL_X => Some(Axis::X),
            REL_Y => Some(Axis::Y),
            REL_Z => Some(Axis::Z),
            REL_RX => Some(Axis::RX),
            REL_RY => Some(Axis::RY),
            REL_RZ => Some(Axis::RZ),
            _ => None,
        }
    }
}

/// Which axis a kernel `(type, code)` pair drives, if any.
pub open spec fn spec_axis_of_code(etype: u16, code: u16) -> Option<Axis> {
    if etype != EV_REL {
        None
    } else if code == REL_X {
        Some(Axis::X)
    } else if code == REL_Y {
        Some(Axis::Y)
    } else if code == REL_Z {
        Some(Axis::Z)
    } else if code == REL_RX {
        Some(Axis::RX)
    } else if code == REL_RY {
        Some(Axis::RY)
    } else if code == REL_RZ {
        Some(Axis::RZ)
    } else {
        None
    }
}

/// A raw device sample scaled to the fixed-point range: the result of
/// `raw * UNIT / AXIS_MAX` with truncation toward zero.
pub open spec fn spec_normalize(raw: int) -> int {
    if raw >= 0 {
        (raw * UNIT) / (AXIS_MAX as int)
    } else {
        -(((-raw) * UNIT) / (AXIS_MAX as int))
    }
}

/// One normalized motion sample: an axis and a fixed-point value in
/// `[-UNIT, UNIT]`.
#[derive(Copy, Clone, Debug, PartialEq, Eq, Structural)]
pub struct AxisValue {
    /// Axis the sample belongs to.
    pub a: Axis,
    /// Normalized fixed-point value, `UNIT` counts per 1.0.
    pub v: i64,
}

impl AxisValue {
    /// A sample is well formed when its value lies in the normalized range.
    pub open spec fn wf(self) -> bool {
        -UNIT <= self.v <= UNIT
    }

    /// Builds a normalized sample from a kernel input event, or `None` when
    /// the event drives no axis.
    pub fn from_event(etype: u16, code: u16, value: i64) -> (r: Option<AxisValue>)
        requires
            AXIS_MIN <= value <= AXIS_MAX,
        ensures
            r is Some <==> spec_axis_of_code(etype, code) is Some,
            r matches Some(av) ==> {
                &&& Some(av.a) == spec_axis_of_code(etype, code)
                &&& av.v == spec_normalize(value as int)
                &&& av.wf()
            },
    {
        let a = match Axis::from_event_code(etype, code) {
            Some(a) => a,
            None => {
                return None;
            },
        };
        let v: i64 = if value >= 0 {
            (value * UNIT) / AXIS_MAX
        } else {
            -(((-value) * UNIT) / AXIS_MAX)
        };
        proof {
            if value >= 0 {
                vstd::arithmetic::div_mod::lemma_div_is_ordered(
                    value * UNIT,
                    AXIS_MAX * UNIT,
                    AXIS_MAX as int,
                );
            } else {
                vstd::arithmetic::div_mod::lemma_div_is_ordered(
                    (-value) * UNIT,
                    AXIS_MAX * UNIT,
                    AXIS_MAX as int,
                );
            }
            vstd::arithmetic::div_mod::lemma_div_by_multiple(UNIT as int, AXIS_MAX as int);
            assert(AXIS_MAX * UNIT == UNIT * AXIS_MAX) by (nonlinear_arith);
        }
        Some(AxisValue { a, v })
    }
}

/// A fixed-size mapping from each axis to a value of type `T`: six named
/// slots, one per axis; the axis set is closed.
#[derive(Copy, Clone, Debug, PartialEq, Eq, Structural)]
pub struct AxisCollection<T> {
    /// Slot for the X axis.
    pub x: T,
    /// Slot for the Y axis.
    pub y: T,
    /// Slot for the Z axis.
    pub z: T,
    /// Slot for the RX axis.
    pub rx: T,
    /// Slot for the RY axis.
    pub ry: T,
    /// Slot for the RZ axis.
    pub rz: T,
}

impl<T> AxisCollection<T> {
    /// The value stored in the slot of an axis.
    pub open spec fn spec_get(self, a: Axis) -> T {
        match a {
            Axis::X => self.x,
            Axis::Y => self.y,
            Axis::Z => self.z,
            Axis::RX => self.rx,
            Axis::RY => self.ry,
            Axis::RZ => self.rz,
        }
    }

    /// The collection with the slot of one axis replaced.
    pub open spec fn spec_set(self, a: Axis, v: T) -> AxisCollection<T> {
        match a {
            Axis::X => AxisCollection { x: v, ..self },
            Axis::Y => AxisCollection { y: v, ..self },
            Axis::Z => AxisCollection { z: v, ..self },
            Axis::RX => AxisCollection { rx: v, ..self },
            Axis::RY => AxisCollection { ry: v, ..self },
            Axis::RZ => AxisCollection { rz: v, ..self },
        }
    }

    /// Builds the collection by computing `f(axis)` for every axis.
    pub fn with_axis<F: Fn(Axis) -> T>(f: F) -> (r: AxisCollection<T>)
        requires
            forall|a: Axis| #[trigger] f.requires((a,)),
        ensures
            f.ensures((Axis::X,), r.x),
            f.ensures((Axis::Y,), r.y),
            f.ensures((Axis::Z,), r.z),
            f.ensures((Axis::RX,), r.rx),
            f.ensures((Axis::RY,), r.ry),
            f.ensures((Axis::RZ,), r.rz),
    {
        AxisCollection {
            x: f(Axis::X),
            y: f(Axis::Y),
            z: f(Axis::Z),
            rx: f(Axis::RX),
            ry: f(Axis::RY),
            rz: f(Axis::RZ),
        }
    }

    /// Indexed read of one slot.
    pub fn get(&self, a: Axis) -> (r: &T)
        ensures
            *r == self.spec_get(a),
    {
        match a {
            Axis::X => &self.x,
            Axis::Y => &self.y,
            Axis::Z => &self.z,
            Axis::RX => &self.rx,
            Axis::RY => &self.ry,
            Axis::RZ => &self.rz,
        }
    }

    /// Indexed write of one slot.
    pub fn set(&mut self, a: Axis, v: T)
        ensures
            *final(self) == old(self).spec_set(a, v),
    {
        match a {
            Axis::X => self.x = v,
            Axis::Y => self.y = v,
            Axis::Z => self.z = v,
            Axis::RX => self.rx = v,
            Axis::RY => self.ry = v,
            Axis::RZ => self.rz = v,
        }
    }
}

impl Default for AxisCollection<i64> {
    /// The pointwise default: every axis at rest.
    fn default() -> (r: Self)
        ensures
            forall|a: Axis| #[trigger] r.spec_get(a) == 0i64,
    {
        AxisCollection { x: 0, y: 0, z: 0, rx: 0, ry: 0, rz: 0 }
    }
}

} // verus!
