use crate::DeviceData;
use crate::PinDirection;
use vstd::prelude::*;

verus! {

/// An event that a device sends to the circuit.
#[derive(Clone, Copy, Debug)]
pub enum DeviceToCircuitMessage {
    /// The device's next scheduled wake-up (`u64::MAX` when it has none).
    NextTick { tick: u64 },
    /// The device drives (`Output`) or announces (`Input`) a value on a pin.
    SetPin { pin: usize, value: u32, direction: PinDirection },
    /// An out-of-band response.
    Data { data: DeviceData },
}

/// A command that the circuit sends to a device.
#[derive(Clone, Copy, Debug)]
pub enum CircuitToDeviceMessage {
    /// An out-of-band request.
    Data { data: DeviceData },
    /// Advance to `tick` and report the next scheduled wake-up.
    NextTick { tick: u64 },
    /// An input changed at `tick`; `last` marks the end of a batch.
    SetPin { tick: u64, pin: usize, value: u32, last: bool },
    /// Shut down.
    Terminate,
}

/// The tick right after `t`, saturating at `u64::MAX`.
pub open spec fn following_tick(t: u64) -> u64 {
    if t == u64::MAX {
        u64::MAX
    } else {
        (t + 1) as u64
    }
}

pub fn next_tick_after(t: u64) -> (r: u64)
    ensures
        r == following_tick(t),
{
    if t == u64::MAX {
        u64::MAX
    } else {
        t + 1
    }
}

} // verus!
