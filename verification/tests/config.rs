//! The configuration store: resolution, lookup by name, live editing and
//! iteration.

use vmouse::axis::AxisCollection;
use vmouse::config::{AxisConfig, Config};
use vmouse::ident::UsbDevice;
use vmouse::output::OutputMap;

fn flat(scale: i64) -> AxisCollection<AxisConfig> {
    let c = AxisConfig { map: OutputMap::X, curve: 0, scale, deadzone: 0 };
    AxisCollection { x: c, y: c, z: c, rx: c, ry: c, rz: c }
}

fn with_override() -> (Config, UsbDevice) {
    let dev = UsbDevice { vid: 0x046d, pid: 0xc626 };
    let mut devices = Vec::new();
    devices.push((dev, flat(7)));
    (Config { devices, default: flat(1000) }, dev)
}

#[test]
fn resolve_unregistered_returns_the_default_block() {
    let (cfg, _) = with_override();
    let other = UsbDevice { vid: 1, pid: 2 };
    assert_eq!(*cfg.resolve(&other), flat(1000));
    let empty = Config { devices: Vec::new(), default: flat(42) };
    assert_eq!(*empty.resolve(&other), flat(42));
}

#[test]
fn resolve_registered_returns_its_override_whole() {
    let (cfg, dev) = with_override();
    assert_eq!(*cfg.resolve(&dev), flat(7));
}

#[test]
fn get_by_name_finds_default_and_devices() {
    let (cfg, _) = with_override();
    assert_eq!(cfg.get("default"), Some(&flat(1000)));
    assert_eq!(cfg.get("046d:c626"), Some(&flat(7)));
    assert_eq!(cfg.get("1234:5678"), None);
    assert_eq!(cfg.get(""), None);
}

#[test]
fn set_replaces_the_named_block() {
    let (mut cfg, dev) = with_override();
    assert!(cfg.set("default", flat(3)));
    assert_eq!(*cfg.resolve(&UsbDevice { vid: 9, pid: 9 }), flat(3));
    assert!(cfg.set("046d:c626", flat(11)));
    assert_eq!(*cfg.resolve(&dev), flat(11));
    assert!(!cfg.set("dead:beef", flat(1)));
    assert_eq!(*cfg.resolve(&dev), flat(11));
}

#[test]
fn iter_yields_default_first_then_each_override() {
    let (cfg, _) = with_override();
    let entries = cfg.iter();
    assert_eq!(entries.len(), 2);
    assert_eq!(entries[0].0, "default");
    assert_eq!(entries[0].1, flat(1000));
    assert_eq!(entries[1].0, "046d:c626");
    assert_eq!(entries[1].1, flat(7));
}

#[test]
fn standard_wiring_drives_scroll_and_motion() {
    let cfg = Config::default();
    assert_eq!(cfg.devices.len(), 0);
    assert_eq!(cfg.default.x.map, OutputMap::H);
    assert_eq!(cfg.default.y.map, OutputMap::V);
    assert_eq!(cfg.default.rx.map, OutputMap::Y);
    assert_eq!(cfg.default.ry.map, OutputMap::X);
    assert_eq!(cfg.default.ry.scale, -200);
    assert_eq!(cfg.default.z.map, OutputMap::Off);
    assert_eq!(cfg.default.rz.map, OutputMap::Off);
}
