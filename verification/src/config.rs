//! Per-axis output policy and the configuration store: a default axis
//! block plus per-device overrides keyed by device identity.

use vstd::prelude::*;

use crate::{SCALE_LIMIT, UNIT};
use crate::axis::AxisCollection;
use crate::chars::push_char;
use crate::ident::{spec_ident_string, UsbDevice};
use crate::output::OutputMap;

verus! {

/// Output policy of one logical axis: which channel it drives and how its
/// normalized value is shaped on the way there.  All numeric fields are
/// fixed-point with `UNIT` counts per 1.0.
#[derive(Copy, Clone, Debug, PartialEq, Eq, Structural)]
pub struct AxisConfig {
    /// Output channel the axis drives.
    pub map: OutputMap,
    /// Blend between linear and cubic response, in `[0, UNIT]`:
    /// 0 is linear, `UNIT` is pure cubic.
    pub curve: i64,
    /// Output gain; negative values invert the axis direction.
    pub scale: i64,
    /// Input magnitude below which the output is forced to zero,
    /// in `[0, UNIT]`.
    pub deadzone: i64,
}

impl AxisConfig {
    /// A policy is well formed when deadzone and curve are fractions and
    /// the gain magnitude stays within machine range.
    pub open spec fn wf(self) -> bool {
        &&& 0 <= self.deadzone <= UNIT
        &&& 0 <= self.curve <= UNIT
        &&& -SCALE_LIMIT <= self.scale <= SCALE_LIMIT
    }
}

/// Deadzone stage on a magnitude: zero below the threshold, else the
/// remaining range rescaled linearly onto the full range.  A threshold of
/// the whole range collapses every input to zero without dividing by zero.
pub open spec fn spec_deadzone_stage(m: int, dz: int) -> int {
    if m < dz {
        0
    } else if dz >= UNIT {
        0
    } else {
        ((m - dz) * UNIT) / (UNIT - dz)
    }
}

/// Curve stage on a magnitude: the blend
/// `curve * m^3 + (1 - curve) * m` in fixed point.
pub open spec fn spec_curve_stage(m: int, cv: int) -> int {
    ((cv * m * m * m) / ((UNIT * UNIT) as int) + (UNIT - cv) * m) / (UNIT as int)
}

/// Scale stage on a magnitude: multiplication by a nonnegative gain.
pub open spec fn spec_scale_stage(m: int, sc: int) -> int {
    (m * sc) / (UNIT as int)
}

/// The transform pipeline on the magnitude of a sample: deadzone, then
/// curve, then the gain magnitude.
pub open spec fn spec_transform_mag(c: AxisConfig, m: int) -> int {
    spec_scale_stage(
        spec_curve_stage(spec_deadzone_stage(m, c.deadzone as int), c.curve as int),
        vstd::math::abs(c.scale as int) as int,
    )
}

/// The full transform of a normalized sample: the pipeline applied to its
/// magnitude, negated when exactly one of the sample and the gain is
/// negative.  Every stage is odd in the sample, so this equals running the
/// signed pipeline directly.
pub open spec fn spec_transform(c: AxisConfig, raw: int) -> int {
    if (raw >= 0) == (c.scale >= 0) {
        spec_transform_mag(c, vstd::math::abs(raw) as int)
    } else {
        -spec_transform_mag(c, vstd::math::abs(raw) as int)
    }
}

/// The deadzone stage maps the normalized range into itself.
proof fn lemma_deadzone_bound(m: int, dz: int)
    requires
        0 <= m <= UNIT,
        0 <= dz <= UNIT,
    ensures
        0 <= spec_deadzone_stage(m, dz) <= UNIT,
{
    if m >= dz && dz < UNIT {
        vstd::arithmetic::mul::lemma_mul_nonnegative(m - dz, UNIT as int);
        vstd::arithmetic::div_mod::lemma_div_pos_is_pos((m - dz) * UNIT, UNIT - dz);
        vstd::arithmetic::mul::lemma_mul_inequality(m - dz, UNIT - dz, UNIT as int);
        vstd::arithmetic::div_mod::lemma_div_is_ordered(
            (m - dz) * UNIT,
            (UNIT - dz) * UNIT,
            UNIT - dz,
        );
        vstd::arithmetic::div_mod::lemma_div_by_multiple(UNIT as int, UNIT - dz);
        vstd::arithmetic::mul::lemma_mul_is_commutative(UNIT as int, UNIT - dz);
    }
}

/// The curve stage maps the normalized range into itself.
proof fn lemma_curve_bound(m: int, cv: int)
    requires
        0 <= m <= UNIT,
        0 <= cv <= UNIT,
    ensures
        0 <= spec_curve_stage(m, cv) <= UNIT,
{
    let u = UNIT as int;
    let cube = cv * m * m * m;
    assert(0 <= cv * m * m * m && cv * m * m * m <= cv * m * u * u) by (nonlinear_arith)
        requires
            0 <= m <= u,
            0 <= cv,
    ;
    vstd::arithmetic::div_mod::lemma_div_pos_is_pos(cube, u * u);
    assert((cv * m) * (u * u) == cv * m * u * u) by (nonlinear_arith);
    vstd::arithmetic::div_mod::lemma_div_is_ordered(cube, (cv * m) * (u * u), u * u);
    vstd::arithmetic::div_mod::lemma_div_by_multiple(cv * m, u * u);
    let t1 = cube / (u * u);
    assert(t1 <= cv * m);
    vstd::arithmetic::mul::lemma_mul_nonnegative(u - cv, m);
    assert(cv * m + (u - cv) * m == u * m) by (nonlinear_arith);
    assert(u * m <= u * u) by (nonlinear_arith)
        requires
            0 <= m <= u,
    ;
    vstd::arithmetic::div_mod::lemma_div_pos_is_pos(t1 + (u - cv) * m, u);
    vstd::arithmetic::div_mod::lemma_div_is_ordered(t1 + (u - cv) * m, u * u, u);
    vstd::arithmetic::div_mod::lemma_div_by_multiple(u, u);
    vstd::arithmetic::mul::lemma_mul_is_commutative(u, u);
}

/// The scale stage is bounded by the gain.
proof fn lemma_scale_bound(m: int, sc: int)
    requires
        0 <= m <= UNIT,
        0 <= sc,
    ensures
        0 <= spec_scale_stage(m, sc) <= sc,
{
    let u = UNIT as int;
    vstd::arithmetic::mul::lemma_mul_nonnegative(m, sc);
    vstd::arithmetic::div_mod::lemma_div_pos_is_pos(m * sc, u);
    vstd::arithmetic::mul::lemma_mul_inequality(m, u, sc);
    vstd::arithmetic::div_mod::lemma_div_is_ordered(m * sc, u * sc, u);
    vstd::arithmetic::div_mod::lemma_div_by_multiple(sc, u);
    vstd::arithmetic::mul::lemma_mul_is_commutative(u, sc);
}

impl AxisConfig {
    /// Applies the deadzone, curve and scale pipeline to one normalized
    /// sample, per [`spec_transform`].
    pub fn transform(&self, raw: i64) -> (r: i64)
        requires
            self.wf(),
            -UNIT <= raw <= UNIT,
        ensures
            r == spec_transform(*self, raw as int),
            -SCALE_LIMIT <= r <= SCALE_LIMIT,
    {
        let m: i64 = if raw >= 0 {
            raw
        } else {
            -raw
        };
        proof {
            lemma_deadzone_bound(m as int, self.deadzone as int);
        }
        let md: i64 = if m < self.deadzone {
            0
        } else if self.deadzone >= UNIT {
            0
        } else {
            ((m - self.deadzone) * UNIT) / (UNIT - self.deadzone)
        };
        proof {
            assert(md as int == spec_deadzone_stage(m as int, self.deadzone as int));
            lemma_curve_bound(md as int, self.curve as int);
            assert(0 <= self.curve * md <= 1_000_000) by (nonlinear_arith)
                requires
                    0 <= self.curve <= 1000,
                    0 <= md <= 1000,
            ;
            assert(0 <= self.curve * md * md <= 1_000_000_000) by (nonlinear_arith)
                requires
                    0 <= self.curve * md <= 1_000_000,
                    0 <= md <= 1000,
            ;
            assert(0 <= self.curve * md * md * md <= 1_000_000_000_000) by (nonlinear_arith)
                requires
                    0 <= self.curve * md * md <= 1_000_000_000,
                    0 <= md <= 1000,
            ;
            vstd::arithmetic::div_mod::lemma_div_pos_is_pos(
                (self.curve * md * md * md) as int,
                (UNIT * UNIT) as int,
            );
        }
        let t1: i64 = (self.curve * md * md * md) / (UNIT * UNIT);
        proof {
            vstd::arithmetic::mul::lemma_mul_nonnegative((UNIT - self.curve) as int, md as int);
            vstd::arithmetic::mul::lemma_mul_upper_bound(
                (UNIT - self.curve) as int,
                UNIT as int,
                md as int,
                UNIT as int,
            );
        }
        let mc: i64 = (t1 + (UNIT - self.curve) * md) / UNIT;
        proof {
            assert(mc as int == spec_curve_stage(md as int, self.curve as int));
        }
        let s_mag: i64 = if self.scale >= 0 {
            self.scale
        } else {
            -self.scale
        };
        proof {
            lemma_scale_bound(mc as int, s_mag as int);
            vstd::arithmetic::mul::lemma_mul_nonnegative(mc as int, s_mag as int);
            vstd::arithmetic::mul::lemma_mul_upper_bound(
                mc as int,
                UNIT as int,
                s_mag as int,
                SCALE_LIMIT as int,
            );
        }
        let ms: i64 = (mc * s_mag) / UNIT;
        proof {
            assert(ms as int == spec_scale_stage(mc as int, s_mag as int));
            assert(ms as int == spec_transform_mag(*self, m as int));
        }
        if (raw >= 0) == (self.scale >= 0) {
            ms
        } else {
            -ms
        }
    }
}

/// With no deadzone, a linear curve and unit gain, the transform returns
/// every normalized sample unchanged.
pub proof fn lemma_transform_identity(c: AxisConfig, raw: int)
    requires
        c.deadzone == 0,
        c.curve == 0,
        c.scale == UNIT,
        -UNIT <= raw <= UNIT,
    ensures
        spec_transform(c, raw) == raw,
{
    let u = UNIT as int;
    let m = vstd::math::abs(raw) as int;
    vstd::arithmetic::div_mod::lemma_div_by_multiple(m, u);
    assert(spec_deadzone_stage(m, 0) == m);
    vstd::arithmetic::div_mod::lemma_div_of0((u * u) as int);
    vstd::arithmetic::mul::lemma_mul_is_commutative(u, m);
    assert(spec_curve_stage(m, 0) == m);
    assert(spec_scale_stage(m, u) == m);
}

/// The curve and scale stages fix a zero magnitude.
proof fn lemma_stages_at_zero(cv: int, sc: int)
    ensures
        spec_curve_stage(0, cv) == 0,
        spec_scale_stage(0, sc) == 0,
{
    let u = UNIT as int;
    vstd::arithmetic::div_mod::lemma_div_of0((UNIT * UNIT) as int);
    vstd::arithmetic::div_mod::lemma_div_of0(UNIT as int);
    assert(cv * 0 * 0 * 0 == 0) by (nonlinear_arith);
    assert((u - cv) * 0 == 0) by (nonlinear_arith);
    assert(0 * sc == 0) by (nonlinear_arith);
}

/// A sample whose magnitude lies inside the deadzone transforms to zero.
pub proof fn lemma_transform_deadzone(c: AxisConfig, raw: int)
    requires
        c.wf(),
        vstd::math::abs(raw) < c.deadzone,
    ensures
        spec_transform(c, raw) == 0,
{
    let m = vstd::math::abs(raw) as int;
    assert(spec_deadzone_stage(m, c.deadzone as int) == 0);
    lemma_stages_at_zero(c.curve as int, vstd::math::abs(c.scale as int) as int);
}

/// The transform is odd-symmetric in the sample while the configuration is
/// fixed.
pub proof fn lemma_transform_odd(c: AxisConfig, raw: int)
    requires
        c.wf(),
    ensures
        spec_transform(c, -raw) == -spec_transform(c, raw),
{
    let u = UNIT as int;
    if raw == 0 {
        if c.deadzone < UNIT {
            assert((0 - 0) * UNIT == 0) by (nonlinear_arith);
            vstd::arithmetic::div_mod::lemma_div_of0(u - c.deadzone);
        }
        assert(spec_deadzone_stage(0, c.deadzone as int) == 0);
        lemma_stages_at_zero(c.curve as int, vstd::math::abs(c.scale as int) as int);
    }
}

impl Default for AxisConfig {
    /// An unmapped axis at half gain with a linear curve and no deadzone.
    fn default() -> (r: Self)
        ensures
            r == (AxisConfig { map: OutputMap::Off, curve: 0, scale: 500, deadzone: 0 }),
            r.wf(),
    {
        AxisConfig { map: OutputMap::Off, curve: 0, scale: 500, deadzone: 0 }
    }
}

/// Every per-axis policy of a collection is well formed.
pub open spec fn collection_wf(c: AxisCollection<AxisConfig>) -> bool {
    &&& c.x.wf()
    &&& c.y.wf()
    &&& c.z.wf()
    &&& c.rx.wf()
    &&& c.ry.wf()
    &&& c.rz.wf()
}

impl Default for AxisCollection<AxisConfig> {
    /// The standard wiring: X and Y drive the scroll wheels at low gain,
    /// RX and RY drive pointer motion with a cubic curve (RY inverted),
    /// Z and RZ stay unmapped.
    fn default() -> (r: Self)
        ensures
            r.x == (AxisConfig { map: OutputMap::H, curve: 500, scale: 5, deadzone: 0 }),
            r.y == (AxisConfig { map: OutputMap::V, curve: 500, scale: 5, deadzone: 0 }),
            r.z == (AxisConfig { map: OutputMap::Off, curve: 0, scale: 500, deadzone: 0 }),
            r.rx == (AxisConfig { map: OutputMap::Y, curve: 1000, scale: 200, deadzone: 0 }),
            r.ry == (AxisConfig { map: OutputMap::X, curve: 1000, scale: -200i64, deadzone: 0 }),
            r.rz == (AxisConfig { map: OutputMap::Off, curve: 0, scale: 500, deadzone: 0 }),
            collection_wf(r),
    {
        AxisCollection {
            x: AxisConfig { map: OutputMap::H, curve: 500, scale: 5, deadzone: 0 },
            y: AxisConfig { map: OutputMap::V, curve: 500, scale: 5, deadzone: 0 },
            z: AxisConfig { map: OutputMap::Off, curve: 0, scale: 500, deadzone: 0 },
            rx: AxisConfig { map: OutputMap::Y, curve: 1000, scale: 200, deadzone: 0 },
            ry: AxisConfig { map: OutputMap::X, curve: 1000, scale: -200i64, deadzone: 0 },
            rz: AxisConfig { map: OutputMap::Off, curve: 0, scale: 500, deadzone: 0 },
        }
    }
}

/// The whole remapping configuration: a default axis block and per-device
/// overrides.  Lookup falls back to the default block; the override list
/// is searched front to back.
#[derive(Debug, PartialEq)]
pub struct Config {
    /// Overrides, keyed by device identity.
    pub devices: Vec<(UsbDevice, AxisCollection<AxisConfig>)>,
    /// The block applying to every device without an override.
    pub default: AxisCollection<AxisConfig>,
}

/// The override stored for an identity: the value of its first entry.
pub open spec fn spec_lookup(
    devs: Seq<(UsbDevice, AxisCollection<AxisConfig>)>,
    d: UsbDevice,
) -> Option<AxisCollection<AxisConfig>>
    decreases devs.len(),
{
    if devs.len() == 0 {
        None
    } else if devs[0].0 == d {
        Some(devs[0].1)
    } else {
        spec_lookup(devs.skip(1), d)
    }
}

/// The override whose identity has the given text form, if any.
pub open spec fn spec_lookup_name(
    devs: Seq<(UsbDevice, AxisCollection<AxisConfig>)>,
    name: Seq<char>,
) -> Option<AxisCollection<AxisConfig>>
    decreases devs.len(),
{
    if devs.len() == 0 {
        None
    } else if spec_ident_string(devs[0].0.vid, devs[0].0.pid) == name {
        Some(devs[0].1)
    } else {
        spec_lookup_name(devs.skip(1), name)
    }
}

impl Config {
    /// A configuration is well formed when every axis policy in it is.
    pub open spec fn wf(self) -> bool {
        &&& collection_wf(self.default)
        &&& forall|i: int|
            0 <= i < self.devices@.len() ==> collection_wf((#[trigger] self.devices@[i]).1)
    }

    /// The axis block applying to a device: its override, else the default.
    pub open spec fn spec_resolve(self, d: UsbDevice) -> AxisCollection<AxisConfig> {
        match spec_lookup(self.devices@, d) {
            Some(c) => c,
            None => self.default,
        }
    }

    /// The block a name denotes: `"default"`, or the text form of a
    /// registered identity.
    pub open spec fn spec_get(self, name: Seq<char>) -> Option<AxisCollection<AxisConfig>> {
        if name == "default"@ {
            Some(self.default)
        } else {
            spec_lookup_name(self.devices@, name)
        }
    }

    /// Resolves the axis block applying to a device, falling back to the
    /// default block for an unregistered identity.
    pub fn resolve(&self, d: &UsbDevice) -> (r: &AxisCollection<AxisConfig>)
        ensures
            *r == self.spec_resolve(*d),
    {
        let n = self.devices.len();
        let mut i: usize = 0;
        proof {
            assert(self.devices@.skip(0) =~= self.devices@);
        }
        while i < n
            invariant
                i <= n,
                n == self.devices@.len(),
                spec_lookup(self.devices@, *d) == spec_lookup(self.devices@.skip(i as int), *d),
            decreases n - i,
        {
            let (key, _) = self.devices[i];
            if key.vid == d.vid && key.pid == d.pid {
                proof {
                    assert(self.devices@.skip(i as int)[0] == self.devices@[i as int]);
                }
                return &self.devices[i].1;
            }
            proof {
                assert(self.devices@.skip(i as int)[0] == self.devices@[i as int]);
                assert(self.devices@.skip(i as int).skip(1) =~= self.devices@.skip(i + 1));
            }
            i += 1;
        }
        proof {
            assert(self.devices@.skip(n as int) =~= Seq::<
                (UsbDevice, AxisCollection<AxisConfig>),
            >::empty());
        }
        &self.default
    }

    /// Fetches a block by name: `"default"`, or a device's `"vid:pid"`
    /// text form; `None` for any other name.
    pub fn get(&self, name: &str) -> (r: Option<&AxisCollection<AxisConfig>>)
        ensures
            r matches Some(c) ==> self.spec_get(name@) == Some(*c),
            r is None <==> self.spec_get(name@) is None,
    {
        proof {
            reveal_strlit("default");
        }
        if str_eq(name, "default") {
            return Some(&self.default);
        }
        let n = self.devices.len();
        let mut i: usize = 0;
        proof {
            assert(self.devices@.skip(0) =~= self.devices@);
        }
        while i < n
            invariant
                i <= n,
                n == self.devices@.len(),
                name@ != "default"@,
                spec_lookup_name(self.devices@, name@) == spec_lookup_name(
                    self.devices@.skip(i as int),
                    name@,
                ),
            decreases n - i,
        {
            let key = self.devices[i].0.to_string();
            proof {
                assert(self.devices@.skip(i as int)[0] == self.devices@[i as int]);
                assert(self.devices@.skip(i as int).skip(1) =~= self.devices@.skip(i + 1));
            }
            if str_eq(name, key.as_str()) {
                proof {
                    assert(name@ != "default"@);
                    assert(spec_lookup_name(self.devices@.skip(i as int), name@) == Some(
                        self.devices@[i as int].1,
                    ));
                    assert(self.spec_get(name@) == Some(self.devices@[i as int].1));
                }
                return Some(&self.devices[i].1);
            }
            i += 1;
        }
        proof {
            assert(self.devices@.skip(n as int) =~= Seq::<
                (UsbDevice, AxisCollection<AxisConfig>),
            >::empty());
        }
        None
    }

    /// Replaces the block a name denotes, in place of fetching it mutably;
    /// returns whether the name denoted one.
    pub fn set(&mut self, name: &str, axes: AxisCollection<AxisConfig>) -> (r: bool)
        ensures
            r <==> old(self).spec_get(name@) is Some,
            name@ == "default"@ ==> *final(self) == (Config {
                default: axes,
                ..*old(self)
            }),
            name@ != "default"@ && r ==> {
                &&& final(self).default == old(self).default
                &&& final(self).devices@.len() == old(self).devices@.len()
                &&& exists|i: int|
                    {
                        &&& 0 <= i < old(self).devices@.len()
                        &&& spec_ident_string(
                            (#[trigger] old(self).devices@[i]).0.vid,
                            old(self).devices@[i].0.pid,
                        ) == name@
                        &&& final(self).devices@ == old(self).devices@.update(
                            i,
                            (old(self).devices@[i].0, axes),
                        )
                    }
            },
            !r ==> *final(self) == *old(self),
    {
        proof {
            reveal_strlit("default");
        }
        if str_eq(name, "default") {
            self.default = axes;
            return true;
        }
        let n = self.devices.len();
        let mut i: usize = 0;
        proof {
            assert(self.devices@.skip(0) =~= self.devices@);
        }
        while i < n
            invariant
                i <= n,
                n == self.devices@.len(),
                *self == *old(self),
                name@ != "default"@,
                spec_lookup_name(self.devices@, name@) == spec_lookup_name(
                    self.devices@.skip(i as int),
                    name@,
                ),
                forall|k: int|
                    0 <= k < i ==> spec_ident_string(
                        (#[trigger] self.devices@[k]).0.vid,
                        self.devices@[k].0.pid,
                    ) != name@,
            decreases n - i,
        {
            let key = self.devices[i].0.to_string();
            proof {
                assert(self.devices@.skip(i as int)[0] == self.devices@[i as int]);
                assert(self.devices@.skip(i as int).skip(1) =~= self.devices@.skip(i + 1));
            }
            if str_eq(name, key.as_str()) {
                let d = self.devices[i].0;
                self.devices.set(i, (d, axes));
                return true;
            }
            i += 1;
        }
        proof {
            assert(self.devices@.skip(n as int) =~= Seq::<
                (UsbDevice, AxisCollection<AxisConfig>),
            >::empty());
        }
        false
    }

    /// Lists every block: the default first under the name `"default"`,
    /// then each override under its identity's text form, in store order.
    pub fn iter(&self) -> (r: Vec<(String, AxisCollection<AxisConfig>)>)
        ensures
            r@.len() == 1 + self.devices@.len(),
            r@[0].0@ == "default"@,
            r@[0].1 == self.default,
            forall|i: int|
                1 <= i < r@.len() ==> {
                    &&& (#[trigger] r@[i]).0@ == spec_ident_string(
                        self.devices@[i - 1].0.vid,
                        self.devices@[i - 1].0.pid,
                    )
                    &&& r@[i].1 == self.devices@[i - 1].1
                },
    {
        let mut r: Vec<(String, AxisCollection<AxisConfig>)> = Vec::new();
        let mut name = String::new();
        push_char(&mut name, 'd');
        push_char(&mut name, 'e');
        push_char(&mut name, 'f');
        push_char(&mut name, 'a');
        push_char(&mut name, 'u');
        push_char(&mut name, 'l');
        push_char(&mut name, 't');
        proof {
            reveal_strlit("default");
            assert(name@ =~= "default"@);
        }
        r.push((name, self.default));
        let n = self.devices.len();
        let mut i: usize = 0;
        while i < n
            invariant
                i <= n,
                n == self.devices@.len(),
                r@.len() == 1 + i,
                r@[0].0@ == "default"@,
                r@[0].1 == self.default,
                forall|k: int|
                    1 <= k < r@.len() ==> {
                        &&& (#[trigger] r@[k]).0@ == spec_ident_string(
                            self.devices@[k - 1].0.vid,
                            self.devices@[k - 1].0.pid,
                        )
                        &&& r@[k].1 == self.devices@[k - 1].1
                    },
            decreases n - i,
        {
            let entry_name = self.devices[i].0.to_string();
            r.push((entry_name, self.devices[i].1));
            i += 1;
        }
        r
    }
}

impl Clone for Config {
    /// A copy holding the same overrides and the same default block.
    fn clone(&self) -> (r: Self)
        ensures
            r.devices@ == self.devices@,
            r.default == self.default,
    {
        let mut devices: Vec<(UsbDevice, AxisCollection<AxisConfig>)> = Vec::new();
        let n = self.devices.len();
        let mut i: usize = 0;
        while i < n
            invariant
                i <= n,
                n == self.devices@.len(),
                devices@ =~= self.devices@.take(i as int),
            decreases n - i,
        {
            devices.push(self.devices[i]);
            i += 1;
            proof {
                assert(devices@ =~= self.devices@.take(i as int));
            }
        }
        proof {
            assert(devices@ =~= self.devices@);
        }
        Config { devices, default: self.default }
    }
}

impl Default for Config {
    /// No overrides over the standard wiring.
    fn default() -> (r: Self)
        ensures
            r.devices@.len() == 0,
            r.default == AxisCollection::<AxisConfig>::default_wiring(),
            r.wf(),
    {
        Config { devices: Vec::new(), default: Default::default() }
    }
}

impl AxisCollection<AxisConfig> {
    /// The value [`Default::default`] returns for an axis-config
    /// collection, usable in contracts.
    pub open spec fn default_wiring() -> AxisCollection<AxisConfig> {
        AxisCollection {
            x: AxisConfig { map: OutputMap::H, curve: 500, scale: 5, deadzone: 0 },
            y: AxisConfig { map: OutputMap::V, curve: 500, scale: 5, deadzone: 0 },
            z: AxisConfig { map: OutputMap::Off, curve: 0, scale: 500, deadzone: 0 },
            rx: AxisConfig { map: OutputMap::Y, curve: 1000, scale: 200, deadzone: 0 },
            ry: AxisConfig { map: OutputMap::X, curve: 1000, scale: -200i64, deadzone: 0 },
            rz: AxisConfig { map: OutputMap::Off, curve: 0, scale: 500, deadzone: 0 },
        }
    }
}

/// Character-for-character string equality.
fn str_eq(a: &str, b: &str) -> (r: bool)
    ensures
        r == (a@ == b@),
{
    let na = a.unicode_len();
    let nb = b.unicode_len();
    if na != nb {
        return false;
    }
    let mut i: usize = 0;
    while i < na
        invariant
            i <= na,
            na == a@.len(),
            na == b@.len(),
            forall|k: int| 0 <= k < i ==> a@[k] == b@[k],
        decreases na - i,
    {
        if a.get_char(i) != b.get_char(i) {
            return false;
        }
        i += 1;
    }
    proof {
        assert(a@ =~= b@);
    }
    true
}

/// An identity with no override resolves to the default block.
pub proof fn lemma_resolve_unregistered(c: Config, d: UsbDevice)
    requires
        forall|i: int| 0 <= i < c.devices@.len() ==> (#[trigger] c.devices@[i]).0 != d,
    ensures
        c.spec_resolve(d) == c.default,
{
    lemma_lookup_absent(c.devices@, d);
}

/// A registered identity resolves to its own override, never to a mix.
pub proof fn lemma_resolve_registered(c: Config, d: UsbDevice, i: int)
    requires
        0 <= i < c.devices@.len(),
        c.devices@[i].0 == d,
        forall|k: int| 0 <= k < i ==> (#[trigger] c.devices@[k]).0 != d,
    ensures
        c.spec_resolve(d) == c.devices@[i].1,
{
    lemma_lookup_at(c.devices@, d, i);
}

/// Whatever block an identity resolves to in a well-formed configuration
/// is itself well formed.
pub proof fn lemma_resolve_wf(c: Config, d: UsbDevice)
    requires
        c.wf(),
    ensures
        collection_wf(c.spec_resolve(d)),
{
    lemma_lookup_wf(c.devices@, d);
}

proof fn lemma_lookup_wf(devs: Seq<(UsbDevice, AxisCollection<AxisConfig>)>, d: UsbDevice)
    requires
        forall|i: int| 0 <= i < devs.len() ==> collection_wf((#[trigger] devs[i]).1),
    ensures
        spec_lookup(devs, d) matches Some(c) ==> collection_wf(c),
    decreases devs.len(),
{
    if devs.len() > 0 && devs[0].0 != d {
        assert(forall|i: int|
            0 <= i < devs.skip(1).len() ==> collection_wf((#[trigger] devs.skip(1)[i]).1)) by {
            assert(forall|i: int| 0 <= i < devs.skip(1).len() ==> devs.skip(1)[i] == devs[i + 1]);
        }
        lemma_lookup_wf(devs.skip(1), d);
    }
}

proof fn lemma_lookup_absent(devs: Seq<(UsbDevice, AxisCollection<AxisConfig>)>, d: UsbDevice)
    requires
        forall|i: int| 0 <= i < devs.len() ==> (#[trigger] devs[i]).0 != d,
    ensures
        spec_lookup(devs, d) is None,
    decreases devs.len(),
{
    if devs.len() > 0 {
        assert forall|i: int| 0 <= i < devs.skip(1).len() implies (#[trigger] devs.skip(1)[i]).0
            != d by {
            assert(devs.skip(1)[i] == devs[i + 1]);
        }
        lemma_lookup_absent(devs.skip(1), d);
    }
}

proof fn lemma_lookup_at(
    devs: Seq<(UsbDevice, AxisCollection<AxisConfig>)>,
    d: UsbDevice,
    i: int,
)
    requires
        0 <= i < devs.len(),
        devs[i].0 == d,
        forall|k: int| 0 <= k < i ==> (#[trigger] devs[k]).0 != d,
    ensures
        spec_lookup(devs, d) == Some(devs[i].1),
    decreases i,
{
    if i > 0 {
        assert forall|k: int| 0 <= k < i - 1 implies (#[trigger] devs.skip(1)[k]).0 != d by {
            assert(devs.skip(1)[k] == devs[k + 1]);
        }
        assert(devs.skip(1)[i - 1] == devs[i]);
        lemma_lookup_at(devs.skip(1), d, i - 1);
    }
}

} // verus!
