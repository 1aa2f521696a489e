//! Wire codec of the control protocol: a fixed binary serialization of the
//! tagged message variant, symmetric for requests and replies.
//!
//! Layout: one tag byte per variant, then its payload.  Unsigned fields are
//! little-endian; signed fields are one sign byte plus a little-endian
//! magnitude; characters travel as their code points; strings and override
//! lists carry a 32-bit count first.  Decoding rejects out-of-range values,
//! so every decoded message is well formed.

use vstd::prelude::*;

use crate::{SCALE_LIMIT, UNIT};
use crate::axis::{axis_index, Axis, AxisCollection, AxisValue};
use crate::command::{state_wf, Command, CommandV, ConfigV};
use crate::config::{collection_wf, AxisConfig, Config};
use crate::ident::UsbDevice;
use crate::output::OutputMap;

verus! {

/// The number of values a little-endian field of `k` bytes can carry.
pub open spec fn pow256(k: int) -> int
    decreases k,
{
    if k <= 0 {
        1
    } else {
        256 * pow256(k - 1)
    }
}

/// A nonnegative value as `k` little-endian bytes.
pub open spec fn enc_uint(m: int, k: int) -> Seq<u8>
    decreases k,
{
    if k <= 0 {
        Seq::empty()
    } else {
        seq![(m % 256) as u8] + enc_uint(m / 256, k - 1)
    }
}

/// A signed value as a sign byte and the magnitude.
pub open spec fn enc_i64(v: int) -> Seq<u8> {
    if v >= 0 {
        seq![0u8] + enc_uint(v, 8)
    } else {
        seq![1u8] + enc_uint(-v, 8)
    }
}

/// A boolean as one byte.
pub open spec fn enc_bool(b: bool) -> Seq<u8> {
    if b {
        seq![1u8]
    } else {
        seq![0u8]
    }
}

/// Characters as four-byte code points, in order.
pub open spec fn enc_chars(s: Seq<char>) -> Seq<u8>
    decreases s.len(),
{
    if s.len() == 0 {
        Seq::empty()
    } else {
        enc_uint(s[0] as u32 as int, 4) + enc_chars(s.skip(1))
    }
}

/// A string as its character count and its characters.
pub open spec fn enc_string(s: Seq<char>) -> Seq<u8> {
    enc_uint(s.len() as int, 4) + enc_chars(s)
}

/// The tag byte of an output channel.
pub open spec fn map_tag(m: OutputMap) -> int {
    match m {
        OutputMap::Off => 0,
        OutputMap::X => 1,
        OutputMap::Y => 2,
        OutputMap::H => 3,
        OutputMap::V => 4,
    }
}

/// The output channel a tag byte stands for.
pub open spec fn map_of_tag(n: int) -> Option<OutputMap> {
    if n == 0 {
        Some(OutputMap::Off)
    } else if n == 1 {
        Some(OutputMap::X)
    } else if n == 2 {
        Some(OutputMap::Y)
    } else if n == 3 {
        Some(OutputMap::H)
    } else if n == 4 {
        Some(OutputMap::V)
    } else {
        None
    }
}

/// The axis a tag byte stands for, in the fixed iteration order.
pub open spec fn axis_of_tag(n: int) -> Option<Axis> {
    if n == 0 {
        Some(Axis::X)
    } else if n == 1 {
        Some(Axis::Y)
    } else if n == 2 {
        Some(Axis::Z)
    } else if n == 3 {
        Some(Axis::RX)
    } else if n == 4 {
        Some(Axis::RY)
    } else if n == 5 {
        Some(Axis::RZ)
    } else {
        None
    }
}

/// An axis as its tag byte.
pub open spec fn enc_axis(a: Axis) -> Seq<u8> {
    seq![axis_index(a) as u8]
}

/// An output channel as its tag byte.
pub open spec fn enc_map(m: OutputMap) -> Seq<u8> {
    seq![map_tag(m) as u8]
}

/// A normalized sample: its axis and its value.
pub open spec fn enc_axis_value(av: AxisValue) -> Seq<u8> {
    enc_axis(av.a) + enc_i64(av.v as int)
}

/// One axis policy: channel, curve, scale, deadzone.
pub open spec fn enc_axis_config(c: AxisConfig) -> Seq<u8> {
    enc_map(c.map) + enc_i64(c.curve as int) + enc_i64(c.scale as int) + enc_i64(
        c.deadzone as int,
    )
}

/// A per-axis policy collection, in the fixed axis order.
pub open spec fn enc_col_cfg(c: AxisCollection<AxisConfig>) -> Seq<u8> {
    enc_axis_config(c.x) + enc_axis_config(c.y) + enc_axis_config(c.z) + enc_axis_config(c.rx)
        + enc_axis_config(c.ry) + enc_axis_config(c.rz)
}

/// An axis snapshot, in the fixed axis order.
pub open spec fn enc_col_i64(c: AxisCollection<i64>) -> Seq<u8> {
    enc_i64(c.x as int) + enc_i64(c.y as int) + enc_i64(c.z as int) + enc_i64(c.rx as int)
        + enc_i64(c.ry as int) + enc_i64(c.rz as int)
}

/// A device identity: vendor id, product id.
pub open spec fn enc_device(d: UsbDevice) -> Seq<u8> {
    enc_uint(d.vid as int, 2) + enc_uint(d.pid as int, 2)
}

/// Override entries, in order: identity then its policy collection.
pub open spec fn enc_entries(devs: Seq<(UsbDevice, AxisCollection<AxisConfig>)>) -> Seq<u8>
    decreases devs.len(),
{
    if devs.len() == 0 {
        Seq::empty()
    } else {
        enc_device(devs[0].0) + enc_col_cfg(devs[0].1) + enc_entries(devs.skip(1))
    }
}

/// A configuration: the default block, then the override count and the
/// overrides.
pub open spec fn enc_config(c: ConfigV) -> Seq<u8> {
    enc_col_cfg(c.default) + enc_uint(c.devices.len() as int, 4) + enc_entries(c.devices)
}

/// The encoding of one message: its tag byte and its payload.
pub open spec fn spec_encode(c: CommandV) -> Seq<u8> {
    match c {
        CommandV::Ping => seq![0u8],
        CommandV::Bind { event } => seq![1u8] + enc_string(event),
        CommandV::Listen => seq![2u8],
        CommandV::GetState => seq![3u8],
        CommandV::GetConfig => seq![4u8],
        CommandV::Enable { enabled } => seq![5u8] + enc_bool(enabled),
        CommandV::Okay => seq![6u8],
        CommandV::Failed => seq![7u8],
        CommandV::RawValue(av) => seq![8u8] + enc_axis_value(av),
        CommandV::State(c) => seq![9u8] + enc_col_i64(c),
        CommandV::SetConfig(cfg) => seq![10u8] + enc_config(cfg),
        CommandV::WriteConfig => seq![11u8],
        CommandV::Disconnect => seq![12u8],
    }
}

/// Reads `k` little-endian bytes; returns the value and the remainder.
pub open spec fn dec_uint(b: Seq<u8>, k: int) -> Option<(int, Seq<u8>)>
    decreases k,
{
    if k <= 0 {
        Some((0int, b))
    } else if b.len() == 0 {
        None
    } else {
        match dec_uint(b.skip(1), k - 1) {
            Some((m, r)) => Some((b[0] as int + 256 * m, r)),
            None => None,
        }
    }
}

/// Reads one boolean byte; any byte beyond one is rejected.
pub open spec fn dec_bool(b: Seq<u8>) -> Option<(bool, Seq<u8>)> {
    if b.len() == 0 {
        None
    } else if b[0] == 0 {
        Some((false, b.skip(1)))
    } else if b[0] == 1 {
        Some((true, b.skip(1)))
    } else {
        None
    }
}

/// Reads a sign byte and a magnitude; magnitudes outside the signed range
/// are rejected.
pub open spec fn dec_i64(b: Seq<u8>) -> Option<(i64, Seq<u8>)> {
    if b.len() == 0 {
        None
    } else {
        let sign = b[0];
        match dec_uint(b.skip(1), 8) {
            Some((m, r)) => if sign == 0 && m <= 0x7fff_ffff_ffff_ffff {
                Some((m as i64, r))
            } else if sign == 1 && m <= 0x8000_0000_0000_0000 {
                Some(((-m) as i64, r))
            } else {
                None
            },
            None => None,
        }
    }
}

/// Reads one code point; values that are no Unicode scalar are rejected.
pub open spec fn dec_char(b: Seq<u8>) -> Option<(char, Seq<u8>)> {
    match dec_uint(b, 4) {
        Some((u, r)) => if 0 <= u < 0x1_0000_0000 && vstd::utf8::is_scalar(u as u32) {
            Some(((u as u32) as char, r))
        } else {
            None
        },
        None => None,
    }
}

/// Reads `n` characters.
pub open spec fn dec_chars(b: Seq<u8>, n: int) -> Option<(Seq<char>, Seq<u8>)>
    decreases n,
{
    if n <= 0 {
        Some((Seq::empty(), b))
    } else {
        match dec_char(b) {
            Some((c, r)) => match dec_chars(r, n - 1) {
                Some((s, r2)) => Some((seq![c] + s, r2)),
                None => None,
            },
            None => None,
        }
    }
}

/// Reads a character count and that many characters.
pub open spec fn dec_string(b: Seq<u8>) -> Option<(Seq<char>, Seq<u8>)> {
    match dec_uint(b, 4) {
        Some((n, r)) => dec_chars(r, n),
        None => None,
    }
}

/// Reads an axis tag byte.
pub open spec fn dec_axis(b: Seq<u8>) -> Option<(Axis, Seq<u8>)> {
    if b.len() == 0 {
        None
    } else {
        match axis_of_tag(b[0] as int) {
            Some(a) => Some((a, b.skip(1))),
            None => None,
        }
    }
}

/// Reads an output-channel tag byte.
pub open spec fn dec_map(b: Seq<u8>) -> Option<(OutputMap, Seq<u8>)> {
    if b.len() == 0 {
        None
    } else {
        match map_of_tag(b[0] as int) {
            Some(m) => Some((m, b.skip(1))),
            None => None,
        }
    }
}

/// Reads a normalized sample; values outside the normalized range are
/// rejected.
pub open spec fn dec_axis_value(b: Seq<u8>) -> Option<(AxisValue, Seq<u8>)> {
    match dec_axis(b) {
        Some((a, r)) => match dec_i64(r) {
            Some((v, r2)) => if -UNIT <= v <= UNIT {
                Some((AxisValue { a, v }, r2))
            } else {
                None
            },
            None => None,
        },
        None => None,
    }
}

/// Reads one axis policy; out-of-range curve, scale or deadzone values are
/// rejected, so the result is well formed.
pub open spec fn dec_axis_config(b: Seq<u8>) -> Option<(AxisConfig, Seq<u8>)> {
    match dec_map(b) {
        Some((m, r)) => match dec_i64(r) {
            Some((curve, r2)) => match dec_i64(r2) {
                Some((scale, r3)) => match dec_i64(r3) {
                    Some((deadzone, r4)) => {
                        let c = AxisConfig { map: m, curve, scale, deadzone };
                        if c.wf() {
                            Some((c, r4))
                        } else {
                            None
                        }
                    },
                    None => None,
                },
                None => None,
            },
            None => None,
        },
        None => None,
    }
}

/// Reads a per-axis policy collection in the fixed axis order.
pub open spec fn dec_col_cfg(b: Seq<u8>) -> Option<(AxisCollection<AxisConfig>, Seq<u8>)> {
    match dec_axis_config(b) {
        Some((x, r1)) => match dec_axis_config(r1) {
            Some((y, r2)) => match dec_axis_config(r2) {
                Some((z, r3)) => match dec_axis_config(r3) {
                    Some((rx, r4)) => match dec_axis_config(r4) {
                        Some((ry, r5)) => match dec_axis_config(r5) {
                            Some((rz, r6)) => Some(
                                (AxisCollection { x, y, z, rx, ry, rz }, r6),
                            ),
                            None => None,
                        },
                        None => None,
                    },
                    None => None,
                },
                None => None,
            },
            None => None,
        },
        None => None,
    }
}

/// Reads one normalized slot of a snapshot.
pub open spec fn dec_state_slot(b: Seq<u8>) -> Option<(i64, Seq<u8>)> {
    match dec_i64(b) {
        Some((v, r)) => if -UNIT <= v <= UNIT {
            Some((v, r))
        } else {
            None
        },
        None => None,
    }
}

/// Reads an axis snapshot in the fixed axis order; out-of-range slots are
/// rejected.
pub open spec fn dec_col_i64(b: Seq<u8>) -> Option<(AxisCollection<i64>, Seq<u8>)> {
    match dec_state_slot(b) {
        Some((x, r1)) => match dec_state_slot(r1) {
            Some((y, r2)) => match dec_state_slot(r2) {
                Some((z, r3)) => match dec_state_slot(r3) {
                    Some((rx, r4)) => match dec_state_slot(r4) {
                        Some((ry, r5)) => match dec_state_slot(r5) {
                            Some((rz, r6)) => Some(
                                (AxisCollection { x, y, z, rx, ry, rz }, r6),
                            ),
                            None => None,
                        },
                        None => None,
                    },
                    None => None,
                },
                None => None,
            },
            None => None,
        },
        None => None,
    }
}

/// Reads a device identity.
pub open spec fn dec_device(b: Seq<u8>) -> Option<(UsbDevice, Seq<u8>)> {
    match dec_uint(b, 2) {
        Some((vid, r)) => match dec_uint(r, 2) {
            Some((pid, r2)) => if 0 <= vid < 0x10000 && 0 <= pid < 0x10000 {
                Some((UsbDevice { vid: vid as u16, pid: pid as u16 }, r2))
            } else {
                None
            },
            None => None,
        },
        None => None,
    }
}

/// Reads `n` override entries.
pub open spec fn dec_entries(b: Seq<u8>, n: int) -> Option<
    (Seq<(UsbDevice, AxisCollection<AxisConfig>)>, Seq<u8>),
>
    decreases n,
{
    if n <= 0 {
        Some((Seq::empty(), b))
    } else {
        match dec_device(b) {
            Some((d, r)) => match dec_col_cfg(r) {
                Some((c, r2)) => match dec_entries(r2, n - 1) {
                    Some((s, r3)) => Some((seq![(d, c)] + s, r3)),
                    None => None,
                },
                None => None,
            },
            None => None,
        }
    }
}

/// Reads a configuration: default block, override count, overrides.
pub open spec fn dec_config(b: Seq<u8>) -> Option<(ConfigV, Seq<u8>)> {
    match dec_col_cfg(b) {
        Some((default, r)) => match dec_uint(r, 4) {
            Some((n, r2)) => match dec_entries(r2, n) {
                Some((devices, r3)) => Some((ConfigV { devices, default }, r3)),
                None => None,
            },
            None => None,
        },
        None => None,
    }
}

/// Reads one message: a tag byte and its payload.
pub open spec fn dec_command(b: Seq<u8>) -> Option<(CommandV, Seq<u8>)> {
    if b.len() == 0 {
        None
    } else {
        let tag = b[0];
        let r = b.skip(1);
        if tag == 0 {
            Some((CommandV::Ping, r))
        } else if tag == 1 {
            match dec_string(r) {
                Some((event, r2)) => Some((CommandV::Bind { event }, r2)),
                None => None,
            }
        } else if tag == 2 {
            Some((CommandV::Listen, r))
        } else if tag == 3 {
            Some((CommandV::GetState, r))
        } else if tag == 4 {
            Some((CommandV::GetConfig, r))
        } else if tag == 5 {
            match dec_bool(r) {
                Some((enabled, r2)) => Some((CommandV::Enable { enabled }, r2)),
                None => None,
            }
        } else if tag == 6 {
            Some((CommandV::Okay, r))
        } else if tag == 7 {
            Some((CommandV::Failed, r))
        } else if tag == 8 {
            match dec_axis_value(r) {
                Some((av, r2)) => Some((CommandV::RawValue(av), r2)),
                None => None,
            }
        } else if tag == 9 {
            match dec_col_i64(r) {
                Some((c, r2)) => Some((CommandV::State(c), r2)),
                None => None,
            }
        } else if tag == 10 {
            match dec_config(r) {
                Some((cfg, r2)) => Some((CommandV::SetConfig(cfg), r2)),
                None => None,
            }
        } else if tag == 11 {
            Some((CommandV::WriteConfig, r))
        } else if tag == 12 {
            Some((CommandV::Disconnect, r))
        } else {
            None
        }
    }
}

/// What a whole buffer decodes to: one message filling it exactly.
pub open spec fn spec_decode(b: Seq<u8>) -> Option<CommandV> {
    match dec_command(b) {
        Some((c, r)) => if r.len() == 0 {
            Some(c)
        } else {
            None
        },
        None => None,
    }
}

/// The values of the byte-count powers the wire format uses.
proof fn lemma_pow256_values()
    ensures
        pow256(2) == 0x10000,
        pow256(4) == 0x1_0000_0000,
        pow256(8) == 0x1_0000_0000_0000_0000,
{
    assert(pow256(0) == 1);
    assert(pow256(1) == 256);
    assert(pow256(2) == 0x10000);
    assert(pow256(3) == 0x100_0000);
    assert(pow256(4) == 0x1_0000_0000);
    assert(pow256(5) == 0x100_0000_0000);
    assert(pow256(6) == 0x1_0000_0000_0000);
    assert(pow256(7) == 0x100_0000_0000_0000);
    assert(pow256(8) == 0x1_0000_0000_0000_0000);
}

/// A buffer shorter than the field has no unsigned-field parse.
proof fn lemma_dec_uint_short(b: Seq<u8>, k: int)
    requires
        b.len() < k,
    ensures
        dec_uint(b, k) is None,
    decreases k,
{
    if b.len() > 0 {
        lemma_dec_uint_short(b.skip(1), k - 1);
    }
}

/// An unsigned field reads back to the value it was made from, leaving the
/// rest untouched.
proof fn lemma_uint_round_trip(m: int, k: int, rest: Seq<u8>)
    requires
        0 <= m < pow256(k),
        0 <= k,
    ensures
        enc_uint(m, k).len() == k,
        dec_uint(enc_uint(m, k) + rest, k) == Some((m, rest)),
    decreases k,
{
    if k == 0 {
        assert(enc_uint(m, 0) + rest =~= rest);
    } else {
        let q = m / 256;
        let s = enc_uint(m, k) + rest;
        assert(s[0] == (m % 256) as u8);
        assert(s.skip(1) =~= enc_uint(q, k - 1) + rest);
        vstd::arithmetic::div_mod::lemma_fundamental_div_mod(m, 256);
        vstd::arithmetic::div_mod::lemma_mod_bound(m, 256);
        vstd::arithmetic::div_mod::lemma_div_pos_is_pos(m, 256);
        assert(q < pow256(k - 1)) by (nonlinear_arith)
            requires
                256 * q <= m,
                m < 256 * pow256(k - 1),
        ;
        lemma_uint_round_trip(q, k - 1, rest);
        assert(dec_uint(s, k) == Some((s[0] as int + 256 * q, rest)));
        assert(s[0] as int == m % 256);
    }
}

/// A signed field reads back to the value it was made from.
proof fn lemma_i64_round_trip(v: i64, rest: Seq<u8>)
    ensures
        dec_i64(enc_i64(v as int) + rest) == Some((v, rest)),
{
    lemma_pow256_values();
    if v >= 0 {
        let s = enc_i64(v as int) + rest;
        assert(s[0] == 0u8);
        assert(s.skip(1) =~= enc_uint(v as int, 8) + rest);
        lemma_uint_round_trip(v as int, 8, rest);
    } else {
        let s = enc_i64(v as int) + rest;
        assert(s[0] == 1u8);
        assert(s.skip(1) =~= enc_uint(-(v as int), 8) + rest);
        lemma_uint_round_trip(-(v as int), 8, rest);
        assert((-(-(v as int))) as i64 == v);
    }
}

/// A boolean byte reads back.
proof fn lemma_bool_round_trip(v: bool, rest: Seq<u8>)
    ensures
        dec_bool(enc_bool(v) + rest) == Some((v, rest)),
{
    assert((enc_bool(v) + rest).skip(1) =~= rest);
}

/// A code point reads back to its character.
proof fn lemma_char_round_trip(c: char, rest: Seq<u8>)
    ensures
        dec_char(enc_uint(c as u32 as int, 4) + rest) == Some((c, rest)),
{
    lemma_pow256_values();
    vstd::utf8::char_is_scalar(c);
    lemma_uint_round_trip(c as u32 as int, 4, rest);
    vstd::utf8::char_u32_cast(c, c as u32);
}

/// A character sequence reads back, one code point at a time.
proof fn lemma_chars_round_trip(s: Seq<char>, rest: Seq<u8>)
    ensures
        dec_chars(enc_chars(s) + rest, s.len() as int) == Some((s, rest)),
    decreases s.len(),
{
    if s.len() == 0 {
        assert(enc_chars(s) + rest =~= rest);
        assert(dec_chars(rest, 0) == Some((Seq::<char>::empty(), rest)));
        assert(s =~= Seq::<char>::empty());
    } else {
        let c = s[0];
        let tail = s.skip(1);
        assert(enc_chars(s) + rest =~= enc_uint(c as u32 as int, 4) + (enc_chars(tail) + rest));
        lemma_char_round_trip(c, enc_chars(tail) + rest);
        lemma_chars_round_trip(tail, rest);
        assert(seq![c] + tail =~= s);
    }
}

/// A string field reads back.
proof fn lemma_string_round_trip(s: Seq<char>, rest: Seq<u8>)
    requires
        s.len() < 0x1_0000_0000,
    ensures
        dec_string(enc_string(s) + rest) == Some((s, rest)),
{
    lemma_pow256_values();
    assert(enc_string(s) + rest =~= enc_uint(s.len() as int, 4) + (enc_chars(s) + rest));
    lemma_uint_round_trip(s.len() as int, 4, enc_chars(s) + rest);
    lemma_chars_round_trip(s, rest);
}

/// An axis tag reads back.
proof fn lemma_axis_round_trip(a: Axis, rest: Seq<u8>)
    ensures
        dec_axis(enc_axis(a) + rest) == Some((a, rest)),
{
    assert((enc_axis(a) + rest).skip(1) =~= rest);
}

/// An output-channel tag reads back.
proof fn lemma_map_round_trip(m: OutputMap, rest: Seq<u8>)
    ensures
        dec_map(enc_map(m) + rest) == Some((m, rest)),
{
    assert((enc_map(m) + rest).skip(1) =~= rest);
}

/// A well-formed sample reads back.
proof fn lemma_axis_value_round_trip(av: AxisValue, rest: Seq<u8>)
    requires
        av.wf(),
    ensures
        dec_axis_value(enc_axis_value(av) + rest) == Some((av, rest)),
{
    assert(enc_axis_value(av) + rest =~= enc_axis(av.a) + (enc_i64(av.v as int) + rest));
    lemma_axis_round_trip(av.a, enc_i64(av.v as int) + rest);
    lemma_i64_round_trip(av.v, rest);
}

/// A well-formed axis policy reads back.
proof fn lemma_axis_config_round_trip(c: AxisConfig, rest: Seq<u8>)
    requires
        c.wf(),
    ensures
        dec_axis_config(enc_axis_config(c) + rest) == Some((c, rest)),
{
    let r3 = enc_i64(c.deadzone as int) + rest;
    let r2 = enc_i64(c.scale as int) + r3;
    let r1 = enc_i64(c.curve as int) + r2;
    assert(enc_axis_config(c) + rest =~= enc_map(c.map) + r1);
    lemma_map_round_trip(c.map, r1);
    lemma_i64_round_trip(c.curve, r2);
    lemma_i64_round_trip(c.scale, r3);
    lemma_i64_round_trip(c.deadzone, rest);
}

/// A well-formed policy collection reads back.
#[verifier::rlimit(90)]
#[verifier::spinoff_prover]
proof fn lemma_col_cfg_round_trip(c: AxisCollection<AxisConfig>, rest: Seq<u8>)
    requires
        collection_wf(c),
    ensures
        dec_col_cfg(enc_col_cfg(c) + rest) == Some((c, rest)),
{
    let r5 = enc_axis_config(c.rz) + rest;
    let r4 = enc_axis_config(c.ry) + r5;
    let r3 = enc_axis_config(c.rx) + r4;
    let r2 = enc_axis_config(c.z) + r3;
    let r1 = enc_axis_config(c.y) + r2;
    assert(enc_col_cfg(c) + rest =~= enc_axis_config(c.x) + r1);
    lemma_axis_config_round_trip(c.x, r1);
    lemma_axis_config_round_trip(c.y, r2);
    lemma_axis_config_round_trip(c.z, r3);
    lemma_axis_config_round_trip(c.rx, r4);
    lemma_axis_config_round_trip(c.ry, r5);
    lemma_axis_config_round_trip(c.rz, rest);
}

/// A normalized snapshot slot reads back.
proof fn lemma_state_slot_round_trip(v: i64, rest: Seq<u8>)
    requires
        -UNIT <= v <= UNIT,
    ensures
        dec_state_slot(enc_i64(v as int) + rest) == Some((v, rest)),
{
    lemma_i64_round_trip(v, rest);
}

/// A well-formed snapshot reads back.
#[verifier::rlimit(90)]
#[verifier::spinoff_prover]
proof fn lemma_col_i64_round_trip(c: AxisCollection<i64>, rest: Seq<u8>)
    requires
        state_wf(c),
    ensures
        dec_col_i64(enc_col_i64(c) + rest) == Some((c, rest)),
{
    let r5 = enc_i64(c.rz as int) + rest;
    let r4 = enc_i64(c.ry as int) + r5;
    let r3 = enc_i64(c.rx as int) + r4;
    let r2 = enc_i64(c.z as int) + r3;
    let r1 = enc_i64(c.y as int) + r2;
    assert(enc_col_i64(c) + rest =~= enc_i64(c.x as int) + r1);
    lemma_state_slot_round_trip(c.x, r1);
    lemma_state_slot_round_trip(c.y, r2);
    lemma_state_slot_round_trip(c.z, r3);
    lemma_state_slot_round_trip(c.rx, r4);
    lemma_state_slot_round_trip(c.ry, r5);
    lemma_state_slot_round_trip(c.rz, rest);
}

/// A device identity reads back.
proof fn lemma_device_round_trip(d: UsbDevice, rest: Seq<u8>)
    ensures
        dec_device(enc_device(d) + rest) == Some((d, rest)),
{
    lemma_pow256_values();
    assert(enc_device(d) + rest =~= enc_uint(d.vid as int, 2) + (enc_uint(d.pid as int, 2)
        + rest));
    lemma_uint_round_trip(d.vid as int, 2, enc_uint(d.pid as int, 2) + rest);
    lemma_uint_round_trip(d.pid as int, 2, rest);
}

/// A well-formed override list reads back, entry by entry.
#[verifier::rlimit(90)]
#[verifier::spinoff_prover]
proof fn lemma_entries_round_trip(
    devs: Seq<(UsbDevice, AxisCollection<AxisConfig>)>,
    rest: Seq<u8>,
)
    requires
        forall|i: int| 0 <= i < devs.len() ==> collection_wf((#[trigger] devs[i]).1),
    ensures
        dec_entries(enc_entries(devs) + rest, devs.len() as int) == Some((devs, rest)),
    decreases devs.len(),
{
    if devs.len() == 0 {
        assert(enc_entries(devs) + rest =~= rest);
        assert(devs =~= Seq::<(UsbDevice, AxisCollection<AxisConfig>)>::empty());
    } else {
        let (d, c) = devs[0];
        let tail = devs.skip(1);
        let after_dev = enc_col_cfg(c) + (enc_entries(tail) + rest);
        assert(enc_entries(devs) + rest =~= enc_device(d) + after_dev);
        lemma_device_round_trip(d, after_dev);
        lemma_col_cfg_round_trip(c, enc_entries(tail) + rest);
        assert(forall|i: int|
            0 <= i < tail.len() ==> collection_wf((#[trigger] tail[i]).1)) by {
            assert(forall|i: int| 0 <= i < tail.len() ==> tail[i] == devs[i + 1]);
        }
        lemma_entries_round_trip(tail, rest);
        assert(seq![(d, c)] + tail =~= devs);
    }
}

/// A well-formed configuration reads back.
proof fn lemma_config_round_trip(c: ConfigV, rest: Seq<u8>)
    requires
        c.wf(),
    ensures
        dec_config(enc_config(c) + rest) == Some((c, rest)),
{
    lemma_pow256_values();
    let after_count = enc_entries(c.devices) + rest;
    assert(enc_config(c) + rest =~= enc_col_cfg(c.default) + (enc_uint(
        c.devices.len() as int,
        4,
    ) + after_count));
    lemma_col_cfg_round_trip(c.default, enc_uint(c.devices.len() as int, 4) + after_count);
    lemma_uint_round_trip(c.devices.len() as int, 4, after_count);
    lemma_entries_round_trip(c.devices, rest);
}

/// Round trip of the wire codec: encoding any well-formed message and
/// decoding the bytes yields the message back.
#[verifier::rlimit(60)]
pub proof fn lemma_codec_round_trip(c: CommandV)
    requires
        c.wf(),
    ensures
        spec_decode(spec_encode(c)) == Some(c),
{
    let b = spec_encode(c);
    let empty = Seq::<u8>::empty();
    match c {
        CommandV::Ping => {
            assert(b.skip(1) =~= empty);
        },
        CommandV::Bind { event } => {
            assert(b.skip(1) =~= enc_string(event) + empty);
            lemma_string_round_trip(event, empty);
        },
        CommandV::Listen => {
            assert(b.skip(1) =~= empty);
        },
        CommandV::GetState => {
            assert(b.skip(1) =~= empty);
        },
        CommandV::GetConfig => {
            assert(b.skip(1) =~= empty);
        },
        CommandV::Enable { enabled } => {
            assert(b.skip(1) =~= enc_bool(enabled) + empty);
            lemma_bool_round_trip(enabled, empty);
        },
        CommandV::Okay => {
            assert(b.skip(1) =~= empty);
        },
        CommandV::Failed => {
            assert(b.skip(1) =~= empty);
        },
        CommandV::RawValue(av) => {
            assert(b.skip(1) =~= enc_axis_value(av) + empty);
            lemma_axis_value_round_trip(av, empty);
        },
        CommandV::State(st) => {
            assert(b.skip(1) =~= enc_col_i64(st) + empty);
            lemma_col_i64_round_trip(st, empty);
        },
        CommandV::SetConfig(cfg) => {
            assert(b.skip(1) =~= enc_config(cfg) + empty);
            lemma_config_round_trip(cfg, empty);
        },
        CommandV::WriteConfig => {
            assert(b.skip(1) =~= empty);
        },
        CommandV::Disconnect => {
            assert(b.skip(1) =~= empty);
        },
    }
}


/// Two-byte little-endian layout, unfolded.
proof fn lemma_enc_uint2(m: int)
    ensures
        enc_uint(m, 2) =~= seq![(m % 256) as u8, ((m / 256) % 256) as u8],
{
    assert(enc_uint(m / 256 / 256, 0) =~= Seq::<u8>::empty());
    assert(enc_uint(m / 256, 1) =~= seq![((m / 256) % 256) as u8]);
}

/// Four-byte little-endian layout, unfolded.
proof fn lemma_enc_uint4(m: int)
    ensures
        enc_uint(m, 4) =~= seq![
            (m % 256) as u8,
            ((m / 256) % 256) as u8,
            ((m / 256 / 256) % 256) as u8,
            ((m / 256 / 256 / 256) % 256) as u8,
        ],
{
    assert(enc_uint(m / 256 / 256 / 256 / 256, 0) =~= Seq::<u8>::empty());
    assert(enc_uint(m / 256 / 256 / 256, 1) =~= seq![((m / 256 / 256 / 256) % 256) as u8]);
    assert(enc_uint(m / 256 / 256, 2) =~= seq![
        ((m / 256 / 256) % 256) as u8,
        ((m / 256 / 256 / 256) % 256) as u8,
    ]);
    assert(enc_uint(m / 256, 3) =~= seq![
        ((m / 256) % 256) as u8,
        ((m / 256 / 256) % 256) as u8,
        ((m / 256 / 256 / 256) % 256) as u8,
    ]);
}

/// Appends a sixteen-bit field.
fn write_u16(out: &mut Vec<u8>, v: u16)
    ensures
        final(out)@ == old(out)@ + enc_uint(v as int, 2),
{
    let x1 = v / 256;
    out.push((v % 256) as u8);
    out.push((x1 % 256) as u8);
    proof {
        lemma_enc_uint2(v as int);
        assert(out@ =~= old(out)@ + enc_uint(v as int, 2));
    }
}

/// Appends a 32-bit field.
fn write_u32(out: &mut Vec<u8>, v: u32)
    ensures
        final(out)@ == old(out)@ + enc_uint(v as int, 4),
{
    let x1 = v / 256;
    let x2 = x1 / 256;
    let x3 = x2 / 256;
    out.push((v % 256) as u8);
    out.push((x1 % 256) as u8);
    out.push((x2 % 256) as u8);
    out.push((x3 % 256) as u8);
    proof {
        lemma_enc_uint4(v as int);
        assert(out@ =~= old(out)@ + enc_uint(v as int, 4));
    }
}

/// Appends a 64-bit magnitude.
fn write_u64(out: &mut Vec<u8>, v: u64)
    ensures
        final(out)@ == old(out)@ + enc_uint(v as int, 8),
{
    let x1 = v / 256;
    let x2 = x1 / 256;
    let x3 = x2 / 256;
    let x4 = x3 / 256;
    let x5 = x4 / 256;
    let x6 = x5 / 256;
    let x7 = x6 / 256;
    out.push((v % 256) as u8);
    out.push((x1 % 256) as u8);
    out.push((x2 % 256) as u8);
    out.push((x3 % 256) as u8);
    out.push((x4 % 256) as u8);
    out.push((x5 % 256) as u8);
    out.push((x6 % 256) as u8);
    out.push((x7 % 256) as u8);
    proof {
        let m = v as int;
        let m1 = m / 256;
        let m2 = m1 / 256;
        let m3 = m2 / 256;
        let m4 = m3 / 256;
        let m5 = m4 / 256;
        let m6 = m5 / 256;
        let m7 = m6 / 256;
        assert(enc_uint(m7 / 256, 0) =~= Seq::<u8>::empty());
        assert(enc_uint(m7, 1) =~= seq![(m7 % 256) as u8]);
        assert(enc_uint(m6, 2) =~= seq![(m6 % 256) as u8, (m7 % 256) as u8]);
        assert(enc_uint(m5, 3) =~= seq![(m5 % 256) as u8, (m6 % 256) as u8, (m7 % 256) as u8]);
        assert(enc_uint(m4, 4) =~= seq![
            (m4 % 256) as u8,
            (m5 % 256) as u8,
            (m6 % 256) as u8,
            (m7 % 256) as u8,
        ]);
        assert(enc_uint(m3, 5) =~= seq![
            (m3 % 256) as u8,
            (m4 % 256) as u8,
            (m5 % 256) as u8,
            (m6 % 256) as u8,
            (m7 % 256) as u8,
        ]);
        assert(enc_uint(m2, 6) =~= seq![
            (m2 % 256) as u8,
            (m3 % 256) as u8,
            (m4 % 256) as u8,
            (m5 % 256) as u8,
            (m6 % 256) as u8,
            (m7 % 256) as u8,
        ]);
        assert(enc_uint(m1, 7) =~= seq![
            (m1 % 256) as u8,
            (m2 % 256) as u8,
            (m3 % 256) as u8,
            (m4 % 256) as u8,
            (m5 % 256) as u8,
            (m6 % 256) as u8,
            (m7 % 256) as u8,
        ]);
        assert(enc_uint(m, 8) =~= seq![
            (m % 256) as u8,
            (m1 % 256) as u8,
            (m2 % 256) as u8,
            (m3 % 256) as u8,
            (m4 % 256) as u8,
            (m5 % 256) as u8,
            (m6 % 256) as u8,
            (m7 % 256) as u8,
        ]);
        assert(out@ =~= old(out)@ + enc_uint(v as int, 8));
    }
}

/// Appends a signed field: sign byte, then the magnitude.
fn write_i64(out: &mut Vec<u8>, v: i64)
    ensures
        final(out)@ == old(out)@ + enc_i64(v as int),
{
    if v >= 0 {
        out.push(0u8);
        write_u64(out, v as u64);
        proof {
            assert(out@ =~= old(out)@ + enc_i64(v as int));
        }
    } else {
        let mag: u64 = ((-(v + 1)) as u64) + 1;
        proof {
            assert(mag as int == -(v as int));
        }
        out.push(1u8);
        write_u64(out, mag);
        proof {
            assert(out@ =~= old(out)@ + enc_i64(v as int));
        }
    }
}

/// Concatenating character sequences concatenates their encodings.
proof fn lemma_enc_chars_concat(a: Seq<char>, b: Seq<char>)
    ensures
        enc_chars(a + b) == enc_chars(a) + enc_chars(b),
    decreases a.len(),
{
    if a.len() == 0 {
        assert(a + b =~= b);
        assert(enc_chars(a) + enc_chars(b) =~= enc_chars(b));
    } else {
        assert((a + b).skip(1) =~= a.skip(1) + b);
        lemma_enc_chars_concat(a.skip(1), b);
        assert(enc_chars(a + b) =~= enc_chars(a) + enc_chars(b));
    }
}

/// Appends a string field: character count, then the code points.
fn write_string(out: &mut Vec<u8>, s: &str)
    requires
        s@.len() < 0x1_0000_0000,
    ensures
        final(out)@ == old(out)@ + enc_string(s@),
{
    let n = s.unicode_len();
    write_u32(out, n as u32);
    let mut i: usize = 0;
    proof {
        assert(s@.take(0) =~= Seq::<char>::empty());
        assert(enc_chars(s@.take(0)) =~= Seq::<u8>::empty());
        assert(out@ =~= old(out)@ + enc_uint(n as int, 4) + enc_chars(s@.take(0)));
    }
    while i < n
        invariant
            i <= n,
            n == s@.len(),
            s@.len() < 0x1_0000_0000,
            out@ == old(out)@ + enc_uint(n as int, 4) + enc_chars(s@.take(i as int)),
        decreases n - i,
    {
        let c = s.get_char(i);
        write_u32(out, c as u32);
        i += 1;
        proof {
            let prev = s@.take(i - 1);
            assert(s@.take(i as int) =~= prev + seq![s@[i - 1]]);
            lemma_enc_chars_concat(prev, seq![s@[i - 1]]);
            assert(seq![s@[i - 1]].skip(1) =~= Seq::<char>::empty());
            assert(enc_chars(Seq::<char>::empty()) =~= Seq::<u8>::empty());
            assert(enc_chars(seq![s@[i - 1]]) =~= enc_uint(s@[i - 1] as u32 as int, 4)
                + enc_chars(seq![s@[i - 1]].skip(1)));
            assert(enc_chars(seq![s@[i - 1]]) =~= enc_uint(c as u32 as int, 4));
            assert(out@ =~= old(out)@ + enc_uint(n as int, 4) + enc_chars(s@.take(i as int)));
        }
    }
    proof {
        assert(s@.take(n as int) =~= s@);
        assert(out@ =~= old(out)@ + enc_string(s@));
    }
}

/// Appends an axis tag.
fn write_axis(out: &mut Vec<u8>, a: Axis)
    ensures
        final(out)@ == old(out)@ + enc_axis(a),
{
    out.push(a.number());
    proof {
        assert(out@ =~= old(out)@ + enc_axis(a));
    }
}

/// Appends an output-channel tag.
fn write_map(out: &mut Vec<u8>, m: OutputMap)
    ensures
        final(out)@ == old(out)@ + enc_map(m),
{
    let tag: u8 = match m {
        OutputMap::Off => 0,
        OutputMap::X => 1,
        OutputMap::Y => 2,
        OutputMap::H => 3,
        OutputMap::V => 4,
    };
    out.push(tag);
    proof {
        assert(out@ =~= old(out)@ + enc_map(m));
    }
}

/// Appends a normalized sample.
fn write_axis_value(out: &mut Vec<u8>, av: AxisValue)
    ensures
        final(out)@ == old(out)@ + enc_axis_value(av),
{
    write_axis(out, av.a);
    write_i64(out, av.v);
    proof {
        assert(out@ =~= old(out)@ + enc_axis_value(av));
    }
}

/// Appends one axis policy.
fn write_axis_config(out: &mut Vec<u8>, c: AxisConfig)
    ensures
        final(out)@ == old(out)@ + enc_axis_config(c),
{
    write_map(out, c.map);
    write_i64(out, c.curve);
    write_i64(out, c.scale);
    write_i64(out, c.deadzone);
    proof {
        assert(out@ =~= old(out)@ + enc_axis_config(c));
    }
}

/// Appends a policy collection in the fixed axis order.
fn write_col_cfg(out: &mut Vec<u8>, c: &AxisCollection<AxisConfig>)
    ensures
        final(out)@ == old(out)@ + enc_col_cfg(*c),
{
    write_axis_config(out, c.x);
    write_axis_config(out, c.y);
    write_axis_config(out, c.z);
    write_axis_config(out, c.rx);
    write_axis_config(out, c.ry);
    write_axis_config(out, c.rz);
    proof {
        assert(out@ =~= old(out)@ + enc_col_cfg(*c));
    }
}

/// Appends an axis snapshot in the fixed axis order.
fn write_col_i64(out: &mut Vec<u8>, c: &AxisCollection<i64>)
    ensures
        final(out)@ == old(out)@ + enc_col_i64(*c),
{
    write_i64(out, c.x);
    write_i64(out, c.y);
    write_i64(out, c.z);
    write_i64(out, c.rx);
    write_i64(out, c.ry);
    write_i64(out, c.rz);
    proof {
        assert(out@ =~= old(out)@ + enc_col_i64(*c));
    }
}

/// Appends a device identity.
fn write_device(out: &mut Vec<u8>, d: UsbDevice)
    ensures
        final(out)@ == old(out)@ + enc_device(d),
{
    write_u16(out, d.vid);
    write_u16(out, d.pid);
    proof {
        assert(out@ =~= old(out)@ + enc_device(d));
    }
}

/// Concatenating override lists concatenates their encodings.
proof fn lemma_enc_entries_concat(
    a: Seq<(UsbDevice, AxisCollection<AxisConfig>)>,
    b: Seq<(UsbDevice, AxisCollection<AxisConfig>)>,
)
    ensures
        enc_entries(a + b) == enc_entries(a) + enc_entries(b),
    decreases a.len(),
{
    if a.len() == 0 {
        assert(a + b =~= b);
        assert(enc_entries(a) + enc_entries(b) =~= enc_entries(b));
    } else {
        assert((a + b).skip(1) =~= a.skip(1) + b);
        lemma_enc_entries_concat(a.skip(1), b);
        assert(enc_entries(a + b) =~= enc_entries(a) + enc_entries(b));
    }
}

/// Appends a whole configuration.
#[verifier::rlimit(90)]
fn write_config(out: &mut Vec<u8>, c: &Config)
    requires
        c@.wf(),
    ensures
        final(out)@ == old(out)@ + enc_config(c@),
{
    write_col_cfg(out, &c.default);
    let n = c.devices.len();
    write_u32(out, n as u32);
    let mut i: usize = 0;
    proof {
        assert(c.devices@.take(0) =~= Seq::<(UsbDevice, AxisCollection<AxisConfig>)>::empty());
        assert(enc_entries(c.devices@.take(0)) =~= Seq::<u8>::empty());
        assert(out@ =~= old(out)@ + enc_col_cfg(c.default) + enc_uint(n as int, 4) + enc_entries(
            c.devices@.take(0),
        ));
    }
    while i < n
        invariant
            i <= n,
            n == c.devices@.len(),
            out@ == old(out)@ + enc_col_cfg(c.default) + enc_uint(n as int, 4) + enc_entries(
                c.devices@.take(i as int),
            ),
        decreases n - i,
    {
        let entry = c.devices[i];
        write_device(out, entry.0);
        write_col_cfg(out, &entry.1);
        i += 1;
        proof {
            let prev = c.devices@.take(i - 1);
            let e = c.devices@[i - 1];
            assert(c.devices@.take(i as int) =~= prev + seq![e]);
            lemma_enc_entries_concat(prev, seq![e]);
            assert(seq![e].skip(1) =~= Seq::<(UsbDevice, AxisCollection<AxisConfig>)>::empty());
            assert(enc_entries(Seq::<(UsbDevice, AxisCollection<AxisConfig>)>::empty()) =~= Seq::<
                u8,
            >::empty());
            assert(enc_entries(seq![e]) =~= enc_device(e.0) + enc_col_cfg(e.1) + enc_entries(
                seq![e].skip(1),
            ));
            assert(enc_entries(seq![e]) =~= enc_device(e.0) + enc_col_cfg(e.1));
            assert(out@ =~= old(out)@ + enc_col_cfg(c.default) + enc_uint(n as int, 4)
                + enc_entries(c.devices@.take(i as int)));
        }
    }
    proof {
        assert(c.devices@.take(n as int) =~= c.devices@);
        assert(out@ =~= old(out)@ + enc_config(c@));
    }
}

impl Command {
    /// Encodes this message for the wire, per [`spec_encode`].
    pub fn encode(&self) -> (r: Vec<u8>)
        requires
            self@.wf(),
        ensures
            r@ == spec_encode(self@),
    {
        let mut out: Vec<u8> = Vec::new();
        match self {
            Command::Ping => {
                out.push(0u8);
            },
            Command::Bind { event } => {
                out.push(1u8);
                write_string(&mut out, event.as_str());
            },
            Command::Listen => {
                out.push(2u8);
            },
            Command::GetState => {
                out.push(3u8);
            },
            Command::GetConfig => {
                out.push(4u8);
            },
            Command::Enable { enabled } => {
                out.push(5u8);
                out.push(if *enabled { 1u8 } else { 0u8 });
            },
            Command::Okay => {
                out.push(6u8);
            },
            Command::Failed => {
                out.push(7u8);
            },
            Command::RawValue(av) => {
                out.push(8u8);
                write_axis_value(&mut out, *av);
            },
            Command::State(c) => {
                out.push(9u8);
                write_col_i64(&mut out, c);
            },
            Command::SetConfig(c) => {
                out.push(10u8);
                write_config(&mut out, c);
            },
            Command::WriteConfig => {
                out.push(11u8);
            },
            Command::Disconnect => {
                out.push(12u8);
            },
        }
        proof {
            assert(out@ =~= spec_encode(self@));
        }
        out
    }
}


/// Continuing a character parse after a prefix already read.
spec fn chars_cont(acc: Seq<char>, b: Seq<u8>, k: int) -> Option<(Seq<char>, Seq<u8>)> {
    match dec_chars(b, k) {
        Some((s2, r)) => Some((acc + s2, r)),
        None => None,
    }
}

/// Continuing an override-list parse after a prefix already read.
spec fn entries_cont(
    acc: Seq<(UsbDevice, AxisCollection<AxisConfig>)>,
    b: Seq<u8>,
    k: int,
) -> Option<(Seq<(UsbDevice, AxisCollection<AxisConfig>)>, Seq<u8>)> {
    match dec_entries(b, k) {
        Some((s2, r)) => Some((acc + s2, r)),
        None => None,
    }
}

/// Reads one byte.
fn read_u8(b: &[u8], pos: &mut usize) -> (r: Option<u8>)
    requires
        *old(pos) <= b@.len(),
    ensures
        r matches Some(v) ==> {
            &&& *final(pos) == *old(pos) + 1
            &&& *final(pos) <= b@.len()
            &&& v == b@[*old(pos) as int]
        },
        r is None ==> *old(pos) == b@.len() && *final(pos) == *old(pos),
{
    if b.len() - *pos < 1 {
        return None;
    }
    let v = b[*pos];
    *pos += 1;
    Some(v)
}

/// Reads a sixteen-bit field.
fn read_u16(b: &[u8], pos: &mut usize) -> (r: Option<u16>)
    requires
        *old(pos) <= b@.len(),
    ensures
        r matches Some(v) ==> {
            &&& *old(pos) <= *final(pos) <= b@.len()
            &&& dec_uint(b@.skip(*old(pos) as int), 2) == Some(
                (v as int, b@.skip(*final(pos) as int)),
            )
        },
        r is None ==> dec_uint(b@.skip(*old(pos) as int), 2) is None && *final(pos) == *old(
            pos,
        ),
{
    let p = *pos;
    if b.len() - p < 2 {
        proof {
            lemma_dec_uint_short(b@.skip(p as int), 2);
        }
        return None;
    }
    let v = b[p] as u16 + 256 * (b[p + 1] as u16);
    *pos = p + 2;
    proof {
        let p = p as int;
        assert(b@.skip(p).skip(1) =~= b@.skip(p + 1));
        assert(b@.skip(p + 1).skip(1) =~= b@.skip(p + 2));
        assert(dec_uint(b@.skip(p + 2), 0) == Some((0int, b@.skip(p + 2))));
        assert(b@.skip(p + 1)[0] == b@[p + 1]);
        assert(dec_uint(b@.skip(p + 1), 1) == Some((b@[p + 1] as int, b@.skip(p + 2))));
        assert(b@.skip(p)[0] == b@[p]);
    }
    Some(v)
}

/// Reads a 32-bit field.
fn read_u32(b: &[u8], pos: &mut usize) -> (r: Option<u32>)
    requires
        *old(pos) <= b@.len(),
    ensures
        r matches Some(v) ==> {
            &&& *old(pos) <= *final(pos) <= b@.len()
            &&& dec_uint(b@.skip(*old(pos) as int), 4) == Some(
                (v as int, b@.skip(*final(pos) as int)),
            )
        },
        r is None ==> dec_uint(b@.skip(*old(pos) as int), 4) is None && *final(pos) == *old(
            pos,
        ),
{
    let p = *pos;
    if b.len() - p < 4 {
        proof {
            lemma_dec_uint_short(b@.skip(p as int), 4);
        }
        return None;
    }
    let v3 = b[p + 3] as u32;
    let v2 = b[p + 2] as u32 + 256 * v3;
    let v1 = b[p + 1] as u32 + 256 * v2;
    let v = b[p] as u32 + 256 * v1;
    *pos = p + 4;
    proof {
        let p = p as int;
        assert(b@.skip(p).skip(1) =~= b@.skip(p + 1));
        assert(b@.skip(p + 1).skip(1) =~= b@.skip(p + 2));
        assert(b@.skip(p + 2).skip(1) =~= b@.skip(p + 3));
        assert(b@.skip(p + 3).skip(1) =~= b@.skip(p + 4));
        assert(dec_uint(b@.skip(p + 4), 0) == Some((0int, b@.skip(p + 4))));
        assert(b@.skip(p + 3)[0] == b@[p + 3]);
        assert(dec_uint(b@.skip(p + 3), 1) == Some((b@[p + 3] as int, b@.skip(p + 4))));
        assert(b@.skip(p + 2)[0] == b@[p + 2]);
        assert(dec_uint(b@.skip(p + 2), 2) == Some(
            (b@[p + 2] as int + 256 * (b@[p + 3] as int), b@.skip(p + 4)),
        ));
        assert(b@.skip(p + 1)[0] == b@[p + 1]);
        assert(dec_uint(b@.skip(p + 1), 3) is Some);
        assert(b@.skip(p)[0] == b@[p]);
    }
    Some(v)
}

/// Reads a 64-bit magnitude.
fn read_u64(b: &[u8], pos: &mut usize) -> (r: Option<u64>)
    requires
        *old(pos) <= b@.len(),
    ensures
        r matches Some(v) ==> {
            &&& *old(pos) <= *final(pos) <= b@.len()
            &&& dec_uint(b@.skip(*old(pos) as int), 8) == Some(
                (v as int, b@.skip(*final(pos) as int)),
            )
        },
        r is None ==> dec_uint(b@.skip(*old(pos) as int), 8) is None && *final(pos) == *old(
            pos,
        ),
{
    let p = *pos;
    if b.len() - p < 8 {
        proof {
            lemma_dec_uint_short(b@.skip(p as int), 8);
        }
        return None;
    }
    let v7 = b[p + 7] as u64;
    let v6 = b[p + 6] as u64 + 256 * v7;
    let v5 = b[p + 5] as u64 + 256 * v6;
    let v4 = b[p + 4] as u64 + 256 * v5;
    let v3 = b[p + 3] as u64 + 256 * v4;
    let v2 = b[p + 2] as u64 + 256 * v3;
    let v1 = b[p + 1] as u64 + 256 * v2;
    let v = b[p] as u64 + 256 * v1;
    *pos = p + 8;
    proof {
        let p = p as int;
        assert(b@.skip(p).skip(1) =~= b@.skip(p + 1));
        assert(b@.skip(p + 1).skip(1) =~= b@.skip(p + 2));
        assert(b@.skip(p + 2).skip(1) =~= b@.skip(p + 3));
        assert(b@.skip(p + 3).skip(1) =~= b@.skip(p + 4));
        assert(b@.skip(p + 4).skip(1) =~= b@.skip(p + 5));
        assert(b@.skip(p + 5).skip(1) =~= b@.skip(p + 6));
        assert(b@.skip(p + 6).skip(1) =~= b@.skip(p + 7));
        assert(b@.skip(p + 7).skip(1) =~= b@.skip(p + 8));
        assert(dec_uint(b@.skip(p + 8), 0) == Some((0int, b@.skip(p + 8))));
        assert(b@.skip(p + 7)[0] == b@[p + 7]);
        assert(dec_uint(b@.skip(p + 7), 1) == Some((b@[p + 7] as int, b@.skip(p + 8))));
        assert(b@.skip(p + 6)[0] == b@[p + 6]);
        assert(dec_uint(b@.skip(p + 6), 2) is Some);
        assert(b@.skip(p + 5)[0] == b@[p + 5]);
        assert(dec_uint(b@.skip(p + 5), 3) is Some);
        assert(b@.skip(p + 4)[0] == b@[p + 4]);
        assert(dec_uint(b@.skip(p + 4), 4) is Some);
        assert(b@.skip(p + 3)[0] == b@[p + 3]);
        assert(dec_uint(b@.skip(p + 3), 5) is Some);
        assert(b@.skip(p + 2)[0] == b@[p + 2]);
        assert(dec_uint(b@.skip(p + 2), 6) is Some);
        assert(b@.skip(p + 1)[0] == b@[p + 1]);
        assert(dec_uint(b@.skip(p + 1), 7) is Some);
        assert(b@.skip(p)[0] == b@[p]);
    }
    Some(v)
}

/// Reads a signed field.
fn read_i64(b: &[u8], pos: &mut usize) -> (r: Option<i64>)
    requires
        *old(pos) <= b@.len(),
    ensures
        r matches Some(v) ==> {
            &&& *old(pos) <= *final(pos) <= b@.len()
            &&& dec_i64(b@.skip(*old(pos) as int)) == Some((v, b@.skip(*final(pos) as int)))
        },
        r is None ==> dec_i64(b@.skip(*old(pos) as int)) is None,
{
    let ghost p0 = *pos as int;
    let sign = match read_u8(b, pos) {
        Some(v) => v,
        None => {
            return None;
        },
    };
    proof {
        assert(b@.skip(p0).skip(1) =~= b@.skip(p0 + 1));
    }
    let m = match read_u64(b, pos) {
        Some(v) => v,
        None => {
            return None;
        },
    };
    if sign == 0 {
        if m <= 0x7fff_ffff_ffff_ffff {
            Some(m as i64)
        } else {
            None
        }
    } else if sign == 1 {
        if m <= 0x8000_0000_0000_0000 {
            let v: i64 = if m == 0 {
                0
            } else {
                -((m - 1) as i64) - 1
            };
            proof {
                assert(v as int == -(m as int));
            }
            Some(v)
        } else {
            None
        }
    } else {
        None
    }
}

/// Reads one boolean byte.
fn read_bool(b: &[u8], pos: &mut usize) -> (r: Option<bool>)
    requires
        *old(pos) <= b@.len(),
    ensures
        r matches Some(v) ==> {
            &&& *old(pos) <= *final(pos) <= b@.len()
            &&& dec_bool(b@.skip(*old(pos) as int)) == Some((v, b@.skip(*final(pos) as int)))
        },
        r is None ==> dec_bool(b@.skip(*old(pos) as int)) is None,
{
    let ghost p0 = *pos as int;
    let t = match read_u8(b, pos) {
        Some(v) => v,
        None => {
            return None;
        },
    };
    proof {
        assert(b@.skip(p0).skip(1) =~= b@.skip(p0 + 1));
    }
    if t == 0 {
        Some(false)
    } else if t == 1 {
        Some(true)
    } else {
        None
    }
}

/// Reads one code point.
fn read_char(b: &[u8], pos: &mut usize) -> (r: Option<char>)
    requires
        *old(pos) <= b@.len(),
    ensures
        r matches Some(c) ==> {
            &&& *old(pos) <= *final(pos) <= b@.len()
            &&& dec_char(b@.skip(*old(pos) as int)) == Some((c, b@.skip(*final(pos) as int)))
        },
        r is None ==> dec_char(b@.skip(*old(pos) as int)) is None,
{
    let u = match read_u32(b, pos) {
        Some(v) => v,
        None => {
            return None;
        },
    };
    match crate::chars::char_from_u32(u) {
        Some(c) => {
            proof {
                vstd::utf8::char_u32_cast(c, u);
            }
            Some(c)
        },
        None => None,
    }
}

/// Reads a string field.
fn read_string(b: &[u8], pos: &mut usize) -> (r: Option<String>)
    requires
        *old(pos) <= b@.len(),
    ensures
        r matches Some(s) ==> {
            &&& *old(pos) <= *final(pos) <= b@.len()
            &&& dec_string(b@.skip(*old(pos) as int)) == Some((s@, b@.skip(*final(pos) as int)))
            &&& s@.len() < 0x1_0000_0000
        },
        r is None ==> dec_string(b@.skip(*old(pos) as int)) is None,
{
    let ghost p0 = *pos as int;
    let n = match read_u32(b, pos) {
        Some(v) => v,
        None => {
            return None;
        },
    };
    let ghost p1 = *pos as int;
    let mut acc = String::new();
    let mut i: u32 = 0;
    proof {
        assert(chars_cont(acc@, b@.skip(p1), n as int) == dec_chars(b@.skip(p1), n as int));
    }
    while i < n
        invariant
            i <= n,
            p0 == *old(pos) as int,
            0 <= p0 <= p1 <= *pos,
            *pos <= b@.len(),
            acc@.len() == i,
            dec_chars(b@.skip(p1), n as int) == chars_cont(
                acc@,
                b@.skip(*pos as int),
                n as int - i as int,
            ),
            dec_uint(b@.skip(p0), 4) == Some((n as int, b@.skip(p1))),
        decreases n - i,
    {
        let ghost pc = *pos as int;
        let ghost acc0 = acc@;
        let c = match read_char(b, pos) {
            Some(c) => c,
            None => {
                proof {
                    assert(dec_chars(b@.skip(pc), n as int - i as int) is None);
                    assert(dec_string(b@.skip(p0)) is None);
                }
                return None;
            },
        };
        crate::chars::push_char(&mut acc, c);
        i += 1;
        proof {
            let k = n as int - i as int + 1;
            match dec_chars(b@.skip(*pos as int), k - 1) {
                Some((s2, r2)) => {
                    assert(acc0 + (seq![c] + s2) =~= acc0.push(c) + s2);
                },
                None => {},
            }
            assert(chars_cont(acc0, b@.skip(pc), k) == chars_cont(
                acc@,
                b@.skip(*pos as int),
                k - 1,
            ));
        }
    }
    proof {
        assert(dec_chars(b@.skip(*pos as int), 0) == Some(
            (Seq::<char>::empty(), b@.skip(*pos as int)),
        ));
        assert(acc@ + Seq::<char>::empty() =~= acc@);
        assert(dec_chars(b@.skip(p1), n as int) == Some((acc@, b@.skip(*pos as int))));
        assert(dec_string(b@.skip(p0)) == Some((acc@, b@.skip(*pos as int))));
    }
    Some(acc)
}

/// Reads an axis tag.
fn read_axis(b: &[u8], pos: &mut usize) -> (r: Option<Axis>)
    requires
        *old(pos) <= b@.len(),
    ensures
        r matches Some(a) ==> {
            &&& *old(pos) <= *final(pos) <= b@.len()
            &&& dec_axis(b@.skip(*old(pos) as int)) == Some((a, b@.skip(*final(pos) as int)))
        },
        r is None ==> dec_axis(b@.skip(*old(pos) as int)) is None,
{
    let ghost p0 = *pos as int;
    let t = match read_u8(b, pos) {
        Some(v) => v,
        None => {
            return None;
        },
    };
    proof {
        assert(b@.skip(p0).skip(1) =~= b@.skip(p0 + 1));
    }
    match t {
        0 => Some(Axis::X),
        1 => Some(Axis::Y),
        2 => Some(Axis::Z),
        3 => Some(Axis::RX),
        4 => Some(Axis::RY),
        5 => Some(Axis::RZ),
        _ => None,
    }
}

/// Reads an output-channel tag.
fn read_map(b: &[u8], pos: &mut usize) -> (r: Option<OutputMap>)
    requires
        *old(pos) <= b@.len(),
    ensures
        r matches Some(m) ==> {
            &&& *old(pos) <= *final(pos) <= b@.len()
            &&& dec_map(b@.skip(*old(pos) as int)) == Some((m, b@.skip(*final(pos) as int)))
        },
        r is None ==> dec_map(b@.skip(*old(pos) as int)) is None,
{
    let ghost p0 = *pos as int;
    let t = match read_u8(b, pos) {
        Some(v) => v,
        None => {
            return None;
        },
    };
    proof {
        assert(b@.skip(p0).skip(1) =~= b@.skip(p0 + 1));
    }
    match t {
        0 => Some(OutputMap::Off),
        1 => Some(OutputMap::X),
        2 => Some(OutputMap::Y),
        3 => Some(OutputMap::H),
        4 => Some(OutputMap::V),
        _ => None,
    }
}

/// Reads a normalized sample; the result is well formed.
fn read_axis_value(b: &[u8], pos: &mut usize) -> (r: Option<AxisValue>)
    requires
        *old(pos) <= b@.len(),
    ensures
        r matches Some(av) ==> {
            &&& *old(pos) <= *final(pos) <= b@.len()
            &&& dec_axis_value(b@.skip(*old(pos) as int)) == Some(
                (av, b@.skip(*final(pos) as int)),
            )
            &&& av.wf()
        },
        r is None ==> dec_axis_value(b@.skip(*old(pos) as int)) is None,
{
    let a = match read_axis(b, pos) {
        Some(a) => a,
        None => {
            return None;
        },
    };
    let v = match read_i64(b, pos) {
        Some(v) => v,
        None => {
            return None;
        },
    };
    if -UNIT <= v && v <= UNIT {
        Some(AxisValue { a, v })
    } else {
        None
    }
}

/// Reads one axis policy; the result is well formed.
fn read_axis_config(b: &[u8], pos: &mut usize) -> (r: Option<AxisConfig>)
    requires
        *old(pos) <= b@.len(),
    ensures
        r matches Some(c) ==> {
            &&& *old(pos) <= *final(pos) <= b@.len()
            &&& dec_axis_config(b@.skip(*old(pos) as int)) == Some(
                (c, b@.skip(*final(pos) as int)),
            )
            &&& c.wf()
        },
        r is None ==> dec_axis_config(b@.skip(*old(pos) as int)) is None,
{
    let m = match read_map(b, pos) {
        Some(m) => m,
        None => {
            return None;
        },
    };
    let curve = match read_i64(b, pos) {
        Some(v) => v,
        None => {
            return None;
        },
    };
    let scale = match read_i64(b, pos) {
        Some(v) => v,
        None => {
            return None;
        },
    };
    let deadzone = match read_i64(b, pos) {
        Some(v) => v,
        None => {
            return None;
        },
    };
    let c = AxisConfig { map: m, curve, scale, deadzone };
    if 0 <= deadzone && deadzone <= UNIT && 0 <= curve && curve <= UNIT && -SCALE_LIMIT <= scale
        && scale <= SCALE_LIMIT {
        Some(c)
    } else {
        None
    }
}

/// Reads a policy collection; the result is well formed.
fn read_col_cfg(b: &[u8], pos: &mut usize) -> (r: Option<AxisCollection<AxisConfig>>)
    requires
        *old(pos) <= b@.len(),
    ensures
        r matches Some(c) ==> {
            &&& *old(pos) <= *final(pos) <= b@.len()
            &&& dec_col_cfg(b@.skip(*old(pos) as int)) == Some((c, b@.skip(*final(pos) as int)))
            &&& collection_wf(c)
        },
        r is None ==> dec_col_cfg(b@.skip(*old(pos) as int)) is None,
{
    let x = match read_axis_config(b, pos) {
        Some(v) => v,
        None => {
            return None;
        },
    };
    let y = match read_axis_config(b, pos) {
        Some(v) => v,
        None => {
            return None;
        },
    };
    let z = match read_axis_config(b, pos) {
        Some(v) => v,
        None => {
            return None;
        },
    };
    let rx = match read_axis_config(b, pos) {
        Some(v) => v,
        None => {
            return None;
        },
    };
    let ry = match read_axis_config(b, pos) {
        Some(v) => v,
        None => {
            return None;
        },
    };
    let rz = match read_axis_config(b, pos) {
        Some(v) => v,
        None => {
            return None;
        },
    };
    Some(AxisCollection { x, y, z, rx, ry, rz })
}

/// Reads an axis snapshot; the result is well formed.
fn read_col_i64(b: &[u8], pos: &mut usize) -> (r: Option<AxisCollection<i64>>)
    requires
        *old(pos) <= b@.len(),
    ensures
        r matches Some(c) ==> {
            &&& *old(pos) <= *final(pos) <= b@.len()
            &&& dec_col_i64(b@.skip(*old(pos) as int)) == Some((c, b@.skip(*final(pos) as int)))
            &&& state_wf(c)
        },
        r is None ==> dec_col_i64(b@.skip(*old(pos) as int)) is None,
{
    let x = match read_state_slot(b, pos) {
        Some(v) => v,
        None => {
            return None;
        },
    };
    let y = match read_state_slot(b, pos) {
        Some(v) => v,
        None => {
            return None;
        },
    };
    let z = match read_state_slot(b, pos) {
        Some(v) => v,
        None => {
            return None;
        },
    };
    let rx = match read_state_slot(b, pos) {
        Some(v) => v,
        None => {
            return None;
        },
    };
    let ry = match read_state_slot(b, pos) {
        Some(v) => v,
        None => {
            return None;
        },
    };
    let rz = match read_state_slot(b, pos) {
        Some(v) => v,
        None => {
            return None;
        },
    };
    Some(AxisCollection { x, y, z, rx, ry, rz })
}

/// Reads one normalized snapshot slot.
fn read_state_slot(b: &[u8], pos: &mut usize) -> (r: Option<i64>)
    requires
        *old(pos) <= b@.len(),
    ensures
        r matches Some(v) ==> {
            &&& *old(pos) <= *final(pos) <= b@.len()
            &&& dec_state_slot(b@.skip(*old(pos) as int)) == Some(
                (v, b@.skip(*final(pos) as int)),
            )
            &&& -UNIT <= v <= UNIT
        },
        r is None ==> dec_state_slot(b@.skip(*old(pos) as int)) is None,
{
    let v = match read_i64(b, pos) {
        Some(v) => v,
        None => {
            return None;
        },
    };
    if -UNIT <= v && v <= UNIT {
        Some(v)
    } else {
        None
    }
}

/// Reads a device identity.
fn read_device(b: &[u8], pos: &mut usize) -> (r: Option<UsbDevice>)
    requires
        *old(pos) <= b@.len(),
    ensures
        r matches Some(d) ==> {
            &&& *old(pos) <= *final(pos) <= b@.len()
            &&& dec_device(b@.skip(*old(pos) as int)) == Some((d, b@.skip(*final(pos) as int)))
        },
        r is None ==> dec_device(b@.skip(*old(pos) as int)) is None,
{
    let vid = match read_u16(b, pos) {
        Some(v) => v,
        None => {
            return None;
        },
    };
    let pid = match read_u16(b, pos) {
        Some(v) => v,
        None => {
            return None;
        },
    };
    Some(UsbDevice { vid, pid })
}

/// Reads a whole configuration; the result is well formed.
#[verifier::rlimit(100)]
fn read_config(b: &[u8], pos: &mut usize) -> (r: Option<Config>)
    requires
        *old(pos) <= b@.len(),
    ensures
        r matches Some(c) ==> {
            &&& *old(pos) <= *final(pos) <= b@.len()
            &&& dec_config(b@.skip(*old(pos) as int)) == Some((c@, b@.skip(*final(pos) as int)))
            &&& c@.wf()
        },
        r is None ==> dec_config(b@.skip(*old(pos) as int)) is None,
{
    let ghost p0 = *pos as int;
    let default = match read_col_cfg(b, pos) {
        Some(v) => v,
        None => {
            return None;
        },
    };
    let ghost pn = *pos as int;
    let n = match read_u32(b, pos) {
        Some(v) => v,
        None => {
            return None;
        },
    };
    let ghost p1 = *pos as int;
    let mut devices: Vec<(UsbDevice, AxisCollection<AxisConfig>)> = Vec::new();
    let mut i: u32 = 0;
    proof {
        assert(entries_cont(devices@, b@.skip(p1), n as int) == dec_entries(
            b@.skip(p1),
            n as int,
        ));
    }
    while i < n
        invariant
            i <= n,
            p0 == *old(pos) as int,
            0 <= p0 <= pn <= p1 <= *pos,
            *pos <= b@.len(),
            devices@.len() == i,
            forall|j: int| 0 <= j < devices@.len() ==> collection_wf(
                (#[trigger] devices@[j]).1,
            ),
            collection_wf(default),
            dec_col_cfg(b@.skip(p0)) == Some((default, b@.skip(pn))),
            dec_uint(b@.skip(pn), 4) == Some((n as int, b@.skip(p1))),
            dec_entries(b@.skip(p1), n as int) == entries_cont(
                devices@,
                b@.skip(*pos as int),
                n as int - i as int,
            ),
        decreases n - i,
    {
        let ghost pc = *pos as int;
        let ghost acc0 = devices@;
        let d = match read_device(b, pos) {
            Some(v) => v,
            None => {
                proof {
                    assert(dec_entries(b@.skip(pc), n as int - i as int) is None);
                    assert(dec_config(b@.skip(p0)) is None);
                }
                return None;
            },
        };
        let c = match read_col_cfg(b, pos) {
            Some(v) => v,
            None => {
                proof {
                    assert(dec_entries(b@.skip(pc), n as int - i as int) is None);
                    assert(dec_config(b@.skip(p0)) is None);
                }
                return None;
            },
        };
        devices.push((d, c));
        i += 1;
        proof {
            let k = n as int - i as int + 1;
            match dec_entries(b@.skip(*pos as int), k - 1) {
                Some((s2, r2)) => {
                    assert(acc0 + (seq![(d, c)] + s2) =~= acc0.push((d, c)) + s2);
                },
                None => {},
            }
            assert(entries_cont(acc0, b@.skip(pc), k) == entries_cont(
                devices@,
                b@.skip(*pos as int),
                k - 1,
            ));
        }
    }
    proof {
        assert(dec_entries(b@.skip(*pos as int), 0) == Some(
            (Seq::<(UsbDevice, AxisCollection<AxisConfig>)>::empty(), b@.skip(*pos as int)),
        ));
        assert(devices@ + Seq::<(UsbDevice, AxisCollection<AxisConfig>)>::empty() =~= devices@);
        assert(dec_entries(b@.skip(p1), n as int) == Some((devices@, b@.skip(*pos as int))));
        assert(dec_config(b@.skip(p0)) == Some(
            (ConfigV { devices: devices@, default }, b@.skip(*pos as int)),
        ));
    }
    Some(Config { devices, default })
}

impl Command {
    /// Decodes one message from a whole buffer, per [`spec_decode`]: the
    /// buffer must hold exactly one valid encoding, and the decoded message
    /// is always well formed.
    pub fn decode(b: &[u8]) -> (r: Option<Command>)
        ensures
            r matches Some(c) ==> spec_decode(b@) == Some(c@) && c@.wf(),
            r is None <==> spec_decode(b@) is None,
    {
        let mut pos: usize = 0;
        proof {
            assert(b@.skip(0) =~= b@);
        }
        let tag = match read_u8(b, &mut pos) {
            Some(t) => t,
            None => {
                return None;
            },
        };
        proof {
            assert(b@.skip(0).skip(1) =~= b@.skip(1));
        }
        let cmd: Command = match tag {
            0 => Command::Ping,
            1 => {
                match read_string(b, &mut pos) {
                    Some(event) => Command::Bind { event },
                    None => {
                        return None;
                    },
                }
            },
            2 => Command::Listen,
            3 => Command::GetState,
            4 => Command::GetConfig,
            5 => {
                match read_bool(b, &mut pos) {
                    Some(enabled) => Command::Enable { enabled },
                    None => {
                        return None;
                    },
                }
            },
            6 => Command::Okay,
            7 => Command::Failed,
            8 => {
                match read_axis_value(b, &mut pos) {
                    Some(av) => Command::RawValue(av),
                    None => {
                        return None;
                    },
                }
            },
            9 => {
                match read_col_i64(b, &mut pos) {
                    Some(c) => Command::State(c),
                    None => {
                        return None;
                    },
                }
            },
            10 => {
                match read_config(b, &mut pos) {
                    Some(c) => Command::SetConfig(c),
                    None => {
                        return None;
                    },
                }
            },
            11 => Command::WriteConfig,
            12 => Command::Disconnect,
            _ => {
                return None;
            },
        };
        if pos != b.len() {
            return None;
        }
        proof {
            assert(b@.skip(pos as int).len() == 0);
        }
        Some(cmd)
    }
}

} // verus!
