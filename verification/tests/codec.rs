//! Wire codec: round trips for every message variant, and rejection of
//! malformed buffers.

use vmouse::axis::{Axis, AxisCollection, AxisValue};
use vmouse::command::Command;
use vmouse::config::{AxisConfig, Config};
use vmouse::ident::UsbDevice;
use vmouse::output::OutputMap;

fn round_trip(c: Command) {
    let bytes = c.encode();
    assert_eq!(Command::decode(&bytes), Some(c));
}

fn sample_config() -> Config {
    let mut devices = Vec::new();
    devices.push((
        UsbDevice { vid: 0x046d, pid: 0xc626 },
        AxisCollection {
            x: AxisConfig { map: OutputMap::X, curve: 0, scale: 1000, deadzone: 50 },
            y: AxisConfig { map: OutputMap::Y, curve: 250, scale: -1000, deadzone: 0 },
            z: AxisConfig { map: OutputMap::Off, curve: 0, scale: 500, deadzone: 0 },
            rx: AxisConfig { map: OutputMap::H, curve: 1000, scale: 5, deadzone: 999 },
            ry: AxisConfig { map: OutputMap::V, curve: 500, scale: 5, deadzone: 1000 },
            rz: AxisConfig { map: OutputMap::Off, curve: 0, scale: 500, deadzone: 0 },
        },
    ));
    Config { devices, default: Default::default() }
}

#[test]
fn round_trip_plain_variants() {
    round_trip(Command::Ping);
    round_trip(Command::Listen);
    round_trip(Command::GetState);
    round_trip(Command::GetConfig);
    round_trip(Command::Okay);
    round_trip(Command::Failed);
    round_trip(Command::WriteConfig);
    round_trip(Command::Disconnect);
}

#[test]
fn round_trip_enable() {
    round_trip(Command::Enable { enabled: true });
    round_trip(Command::Enable { enabled: false });
}

#[test]
fn round_trip_bind() {
    round_trip(Command::Bind { event: String::from("/dev/input/event5") });
    round_trip(Command::Bind { event: String::new() });
    round_trip(Command::Bind { event: String::from("päth/с/🖱") });
}

#[test]
fn round_trip_raw_value() {
    round_trip(Command::RawValue(AxisValue { a: Axis::RX, v: -1000 }));
    round_trip(Command::RawValue(AxisValue { a: Axis::X, v: 0 }));
    round_trip(Command::RawValue(AxisValue { a: Axis::RZ, v: 1000 }));
}

#[test]
fn round_trip_state() {
    round_trip(Command::State(AxisCollection {
        x: 500,
        y: -500,
        z: 0,
        rx: 1000,
        ry: -1000,
        rz: 7,
    }));
}

#[test]
fn round_trip_set_config() {
    round_trip(Command::SetConfig(Config::default()));
    round_trip(Command::SetConfig(sample_config()));
}

#[test]
fn ping_is_one_tag_byte() {
    assert_eq!(Command::Ping.encode(), vec![0u8]);
}

#[test]
fn decode_rejects_empty_and_unknown_tags() {
    assert_eq!(Command::decode(&[]), None);
    assert_eq!(Command::decode(&[13]), None);
    assert_eq!(Command::decode(&[255]), None);
}

#[test]
fn decode_rejects_trailing_bytes() {
    assert_eq!(Command::decode(&[0, 0]), None);
    let mut bytes = Command::Enable { enabled: true }.encode();
    bytes.push(9);
    assert_eq!(Command::decode(&bytes), None);
}

#[test]
fn decode_rejects_truncated_payloads() {
    // An enable request without its flag byte.
    assert_eq!(Command::decode(&[5]), None);
    // A bind request whose length field promises more than is there.
    assert_eq!(Command::decode(&[1, 4, 0, 0, 0]), None);
    // A state snapshot cut off mid-field.
    let bytes = Command::State(AxisCollection { x: 1, y: 2, z: 3, rx: 4, ry: 5, rz: 6 })
        .encode();
    assert_eq!(Command::decode(&bytes[..bytes.len() - 1]), None);
}

#[test]
fn decode_rejects_out_of_range_values() {
    // A boolean byte beyond one.
    assert_eq!(Command::decode(&[5, 2]), None);
    // A raw value of 2000 thousandths: outside the normalized range.
    let mut bytes = vec![8u8, 0u8, 0u8];
    bytes.extend_from_slice(&[0xd0, 0x07, 0, 0, 0, 0, 0, 0]);
    assert_eq!(Command::decode(&bytes), None);
    // A bind path carrying a surrogate code point.
    let mut bytes = vec![1u8, 1, 0, 0, 0];
    bytes.extend_from_slice(&[0x00, 0xd8, 0, 0]);
    assert_eq!(Command::decode(&bytes), None);
}

#[test]
fn decode_accepts_either_zero_sign() {
    // A signed field of zero with the negative sign byte still reads as
    // zero; only the canonical form is ever produced by the encoder.
    let mut bytes = vec![8u8, 0u8, 1u8];
    bytes.extend_from_slice(&[0, 0, 0, 0, 0, 0, 0, 0]);
    assert_eq!(
        Command::decode(&bytes),
        Some(Command::RawValue(AxisValue { a: Axis::X, v: 0 }))
    );
}
