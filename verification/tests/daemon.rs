//! End-to-end daemon scenarios: the decision functions driven the way the
//! event loop drives them.

use vmouse::axis::{Axis, AxisCollection, AxisValue, EV_REL, REL_X};
use vmouse::command::Command;
use vmouse::config::{AxisConfig, Config};
use vmouse::daemon::{Daemon, Effect};
use vmouse::ident::UsbDevice;
use vmouse::output::OutputMap;

/// A configuration whose default block routes X straight through:
/// deadzone 0, curve 0, scale 1.
fn passthrough_config() -> Config {
    let x = AxisConfig { map: OutputMap::X, curve: 0, scale: 1000, deadzone: 0 };
    let off = AxisConfig { map: OutputMap::Off, curve: 0, scale: 1000, deadzone: 0 };
    Config {
        devices: Vec::new(),
        default: AxisCollection { x, y: off, z: off, rx: off, ry: off, rz: off },
    }
}

fn dev() -> UsbDevice {
    UsbDevice { vid: 0x256f, pid: 0xc635 }
}

#[test]
fn ping_earns_okay() {
    let mut d = Daemon::new(Config::default());
    let id = d.attach_client();
    let (reply, effect) = d.handle_command(id, Command::Ping);
    assert_eq!(reply, Some(Command::Okay));
    assert_eq!(effect, Effect::Nothing);
}

#[test]
fn bind_of_a_bad_device_earns_failed_and_changes_nothing() {
    let mut d = Daemon::new(Config::default());
    let id = d.attach_client();
    let before = d.clients.clone();
    let (reply, effect) = d.handle_command(
        id,
        Command::Bind { event: String::from("/dev/input/nonexistent") },
    );
    // The reply waits for the open attempt; the caller performs it.
    assert_eq!(reply, None);
    assert_eq!(
        effect,
        Effect::OpenDevice { path: String::from("/dev/input/nonexistent") }
    );
    // The open fails, so the session is told so; the registry is unchanged.
    assert_eq!(Daemon::bind_reply(false), Command::Failed);
    assert_eq!(d.clients, before);
}

#[test]
fn bind_of_a_good_device_earns_okay() {
    assert_eq!(Daemon::bind_reply(true), Command::Okay);
}

#[test]
fn listen_then_event_then_tick_broadcasts_the_state() {
    let mut d = Daemon::new(passthrough_config());
    let id = d.attach_client();
    let (reply, effect) = d.handle_command(id, Command::Listen);
    assert_eq!(reply, Some(Command::Okay));
    assert_eq!(effect, Effect::StartTimer);
    // A raw X sample of 175, half of the device range of 350.
    let av = AxisValue::from_event(EV_REL, REL_X, 175).unwrap();
    assert_eq!(av.v, 500);
    let out = d.handle_axis_event(&dev(), av);
    assert_eq!(out, Some((OutputMap::X, 500)));
    // On the next tick the listening session gets one State snapshot with
    // x at 0.5 and every other axis at its last known value.
    let ids = d.handle_tick();
    assert_eq!(ids, vec![id]);
    assert_eq!(
        d.state_message(),
        Command::State(AxisCollection { x: 500, y: 0, z: 0, rx: 0, ry: 0, rz: 0 })
    );
}

#[test]
fn disable_gates_output_but_not_state_tracking() {
    let mut d = Daemon::new(passthrough_config());
    let id = d.attach_client();
    d.handle_command(id, Command::Listen);
    let (reply, _) = d.handle_command(id, Command::Enable { enabled: false });
    assert_eq!(reply, Some(Command::Okay));
    // A device event arrives: no output-device write may happen...
    let av = AxisValue::from_event(EV_REL, REL_X, 175).unwrap();
    let out = d.handle_axis_event(&dev(), av);
    assert_eq!(out, None);
    // ...but the state still reflects the new value.
    let (state_reply, _) = d.handle_command(id, Command::GetState);
    assert_eq!(
        state_reply,
        Some(Command::State(AxisCollection { x: 500, y: 0, z: 0, rx: 0, ry: 0, rz: 0 }))
    );
    // And the change is still broadcast.
    assert_eq!(d.handle_tick(), vec![id]);
}

#[test]
fn broadcasts_are_throttled_to_one_per_tick() {
    let mut d = Daemon::new(passthrough_config());
    let id1 = d.attach_client();
    let id2 = d.attach_client();
    let id3 = d.attach_client();
    d.handle_command(id1, Command::Listen);
    d.handle_command(id3, Command::Listen);
    // Many raw events arrive between two ticks.
    for raw in [10i64, 20, 30, 40, 350] {
        let av = AxisValue::from_event(EV_REL, REL_X, raw).unwrap();
        d.handle_axis_event(&dev(), av);
    }
    // Exactly one message per listening session, none for the other.
    let ids = d.handle_tick();
    assert_eq!(ids, vec![id1, id3]);
    assert!(!ids.contains(&id2));
    // A tick with no new events since the last one sends nothing.
    assert_eq!(d.handle_tick(), Vec::<u32>::new());
}

#[test]
fn disconnect_of_the_last_listener_stops_the_timer() {
    let mut d = Daemon::new(Config::default());
    let id1 = d.attach_client();
    let id2 = d.attach_client();
    let (_, e1) = d.handle_command(id1, Command::Listen);
    assert_eq!(e1, Effect::StartTimer);
    let (_, e2) = d.handle_command(id2, Command::Listen);
    assert_eq!(e2, Effect::Nothing);
    let (r1, e3) = d.handle_command(id1, Command::Disconnect);
    assert_eq!(r1, None);
    assert_eq!(e3, Effect::Nothing);
    let (_, e4) = d.handle_command(id2, Command::Disconnect);
    assert_eq!(e4, Effect::StopTimer);
    assert_eq!(d.clients.len(), 0);
}

#[test]
fn get_and_set_config_round_the_registry() {
    let mut d = Daemon::new(Config::default());
    let id = d.attach_client();
    let replacement = passthrough_config();
    let (reply, effect) = d.handle_command(id, Command::SetConfig(replacement.clone()));
    assert_eq!(reply, Some(Command::Okay));
    assert_eq!(effect, Effect::Nothing);
    let (reply, _) = d.handle_command(id, Command::GetConfig);
    assert_eq!(reply, Some(Command::SetConfig(replacement)));
}

#[test]
fn write_config_is_handed_to_the_caller() {
    let mut d = Daemon::new(Config::default());
    let id = d.attach_client();
    let (reply, effect) = d.handle_command(id, Command::WriteConfig);
    assert_eq!(reply, None);
    assert_eq!(effect, Effect::PersistConfig);
}

#[test]
fn reports_get_no_reply() {
    let mut d = Daemon::new(Config::default());
    let id = d.attach_client();
    for cmd in [
        Command::Okay,
        Command::Failed,
        Command::RawValue(AxisValue { a: Axis::X, v: 1 }),
        Command::State(AxisCollection { x: 0, y: 0, z: 0, rx: 0, ry: 0, rz: 0 }),
    ] {
        let (reply, effect) = d.handle_command(id, cmd);
        assert_eq!(reply, None);
        assert_eq!(effect, Effect::Nothing);
    }
}

#[test]
fn session_ids_are_assigned_monotonically() {
    let mut d = Daemon::new(Config::default());
    assert_eq!(d.attach_client(), 0);
    assert_eq!(d.attach_client(), 1);
    assert_eq!(d.attach_client(), 2);
    assert_eq!(d.clients.len(), 3);
}
