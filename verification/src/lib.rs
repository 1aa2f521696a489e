//! Core library for a virtual-mouse daemon: it remaps a six-axis input
//! device onto emulated pointer motion and scroll output.
//!
//! Axis values are fixed-point integers: `UNIT` counts stand for 1.0, so a
//! normalized sample lies in `[-UNIT, UNIT]`.  All signal processing, the
//! wire codec of the control protocol, and the daemon's decision logic live
//! here; sockets, device handles and task scheduling live with the caller.

use vstd::prelude::*;

pub mod axis;
pub mod chars;
pub mod codec;
pub mod command;
pub mod config;
pub mod daemon;
pub mod ident;
pub mod output;

verus! {

/// Fixed-point scale: this many counts stand for a value of 1.0.
pub const UNIT: i64 = 1000;

/// Largest raw magnitude a physical device reports on one axis.
pub const AXIS_MAX: i64 = 350;

/// Smallest raw value a physical device reports on one axis.
pub const AXIS_MIN: i64 = -350;

/// Largest scale magnitude a configuration may hold, in fixed-point counts:
/// a gain of 1000.0.  Keeps every transform result within machine range.
pub const SCALE_LIMIT: i64 = 1_000_000;

} // verus!
