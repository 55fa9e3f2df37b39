//! The element-update record, its command variants, and the error type
//! shared by the codec and the transports.

use vstd::prelude::*;

verus! {

/// One element-update record: at `time` (microseconds on the shared
/// logical clock), the element `element` shows palette color `color`
/// with effect `cmd`.
#[derive(Debug, Clone, Copy, PartialEq, Eq, Structural)]
pub struct LedMsg {
    /// Logical time of the update, in microseconds.
    pub time: u64,
    /// Which of the 256 addressable elements is updated.
    pub element: u8,
    /// Palette index of the color to show.
    pub color: u8,
    /// What the element does.
    pub cmd: Command,
}

/// The effect an element performs. Only `FlatStack` is implemented by
/// the compositor; the other variants are reserved and round-trip
/// through the codec unchanged.
#[derive(Debug, Clone, Copy, PartialEq, Eq, Structural)]
pub enum Command {
    Null,
    Flat(u8),
    PulseLinear(u8),
    PulseQuadratic(u8),
    FlatStack(u8),
}

impl Command {
    /// The wire tag of this variant.
    pub open spec fn tag(self) -> u8 {
        match self {
            Command::Null => 0,
            Command::Flat(_) => 1,
            Command::PulseLinear(_) => 2,
            Command::PulseQuadratic(_) => 3,
            Command::FlatStack(_) => 4,
        }
    }

    /// The payload byte this variant carries on the wire, if any.
    pub open spec fn payload(self) -> Option<u8> {
        match self {
            Command::Null => None,
            Command::Flat(v) => Some(v),
            Command::PulseLinear(v) => Some(v),
            Command::PulseQuadratic(v) => Some(v),
            Command::FlatStack(v) => Some(v),
        }
    }
}

impl Default for LedMsg {
    fn default() -> (m: LedMsg)
        ensures
            m == (LedMsg { time: 0, element: 0, color: 0, cmd: Command::Null }),
    {
        LedMsg { time: 0, element: 0, color: 0, cmd: Command::Null }
    }
}

/// Errors surfaced by the codec, the transports and the render loop.
#[derive(Debug)]
pub enum Error {
    /// Malformed wire data; local to one decode call, never fatal.
    BadInput(String),
    /// A peer has permanently disconnected; fatal for the owning loop.
    Unrecoverable(String),
    /// No data arrived within the requested window; expected, not fatal.
    Timeout(String),
    /// Anything else, including protocol-level faults.
    Misc(String),
    /// The remote device is not connected.
    NotConnected,
}

} // verus!
