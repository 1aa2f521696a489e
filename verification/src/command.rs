//! The control-protocol message set: requests a client can send and the
//! replies and unsolicited reports the daemon sends back, with their
//! mathematical views.

use vstd::prelude::*;

use crate::UNIT;
use crate::axis::{AxisCollection, AxisValue};
use crate::config::{collection_wf, Config};
use crate::ident::UsbDevice;

verus! {

/// One protocol message, symmetric for requests and replies.
#[derive(Clone, Debug, PartialEq)]
pub enum Command {
    /// Liveness probe; answered with `Okay`.
    Ping,
    /// Ask the daemon to open the named input device and ingest it.
    Bind {
        /// Filesystem path of the device event node.
        event: String,
    },
    /// Subscribe this session to periodic state broadcasts.
    Listen,
    /// Ask for the current axis snapshot; answered with `State`.
    GetState,
    /// Ask for the current configuration; answered with `SetConfig`.
    GetConfig,
    /// Open or close the output emission gate.
    Enable {
        /// Whether output emission is on.
        enabled: bool,
    },
    /// Positive acknowledgement.
    Okay,
    /// Negative acknowledgement.
    Failed,
    /// Unsolicited report of one raw axis sample.
    RawValue(AxisValue),
    /// Axis snapshot: the last known normalized value of every axis.
    State(AxisCollection<i64>),
    /// Carries a whole configuration, as a request (replace) or a reply.
    SetConfig(Config),
    /// Ask the daemon to persist its configuration.
    WriteConfig,
    /// Internal: a session closed and its registry entry must go.
    Disconnect,
}

/// Mathematical view of a configuration: the override entries in store
/// order and the default block.
pub struct ConfigV {
    /// Override entries, in store order.
    pub devices: Seq<(UsbDevice, AxisCollection<crate::config::AxisConfig>)>,
    /// The default block.
    pub default: AxisCollection<crate::config::AxisConfig>,
}

impl View for Config {
    type V = ConfigV;

    open spec fn view(&self) -> ConfigV {
        ConfigV { devices: self.devices@, default: self.default }
    }
}

impl ConfigV {
    /// Every axis policy is well formed and the override count fits the
    /// wire's length field.
    pub open spec fn wf(self) -> bool {
        &&& collection_wf(self.default)
        &&& forall|i: int| 0 <= i < self.devices.len() ==> collection_wf(
            (#[trigger] self.devices[i]).1,
        )
        &&& self.devices.len() < 0x1_0000_0000
    }
}

/// Mathematical view of a message: strings and configurations replaced by
/// their views.
pub enum CommandV {
    /// View of `Ping`.
    Ping,
    /// View of `Bind`.
    Bind {
        /// The device path as a character sequence.
        event: Seq<char>,
    },
    /// View of `Listen`.
    Listen,
    /// View of `GetState`.
    GetState,
    /// View of `GetConfig`.
    GetConfig,
    /// View of `Enable`.
    Enable {
        /// Whether output emission is on.
        enabled: bool,
    },
    /// View of `Okay`.
    Okay,
    /// View of `Failed`.
    Failed,
    /// View of `RawValue`.
    RawValue(AxisValue),
    /// View of `State`.
    State(AxisCollection<i64>),
    /// View of `SetConfig`.
    SetConfig(ConfigV),
    /// View of `WriteConfig`.
    WriteConfig,
    /// View of `Disconnect`.
    Disconnect,
}

impl View for Command {
    type V = CommandV;

    open spec fn view(&self) -> CommandV {
        match self {
            Command::Ping => CommandV::Ping,
            Command::Bind { event } => CommandV::Bind { event: event@ },
            Command::Listen => CommandV::Listen,
            Command::GetState => CommandV::GetState,
            Command::GetConfig => CommandV::GetConfig,
            Command::Enable { enabled } => CommandV::Enable { enabled: *enabled },
            Command::Okay => CommandV::Okay,
            Command::Failed => CommandV::Failed,
            Command::RawValue(av) => CommandV::RawValue(*av),
            Command::State(c) => CommandV::State(*c),
            Command::SetConfig(c) => CommandV::SetConfig(c@),
            Command::WriteConfig => CommandV::WriteConfig,
            Command::Disconnect => CommandV::Disconnect,
        }
    }
}

/// Every slot of a snapshot lies in the normalized range.
pub open spec fn state_wf(c: AxisCollection<i64>) -> bool {
    &&& -UNIT <= c.x <= UNIT
    &&& -UNIT <= c.y <= UNIT
    &&& -UNIT <= c.z <= UNIT
    &&& -UNIT <= c.rx <= UNIT
    &&& -UNIT <= c.ry <= UNIT
    &&& -UNIT <= c.rz <= UNIT
}

impl CommandV {
    /// What the wire format can carry: normalized samples in range, well
    /// formed configurations, and lengths that fit their length fields.
    pub open spec fn wf(self) -> bool {
        match self {
            CommandV::Bind { event } => event.len() < 0x1_0000_0000,
            CommandV::RawValue(av) => av.wf(),
            CommandV::State(c) => state_wf(c),
            CommandV::SetConfig(c) => c.wf(),
            _ => true,
        }
    }
}

} // verus!
