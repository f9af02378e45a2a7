//! The device contract and the devices of this library.
use crate::CircuitToDeviceMessage;
use crate::DeviceToCircuitMessage;
use crate::message::following_tick;
use vstd::prelude::*;

pub mod and_gate;
pub use and_gate::AndGate;

pub mod test_probe;
pub use test_probe::TestProbe;
pub use test_probe::TestProbeGetDataRequest;
pub use test_probe::TestProbeGetDataResponse;
pub use test_probe::TestProbeSetData;

pub use crate::PinDirection;

verus! {

/// The events that answer a `NextTick` command: any number of `SetPin`
/// events, each on one of the device's `pins` pins, then exactly one
/// `NextTick` reply.
pub open spec fn answers_tick(out: Seq<DeviceToCircuitMessage>, pins: nat) -> bool {
    &&& out.len() >= 1
    &&& out.last() is NextTick
    &&& forall|i: int| 0 <= i < out.len() - 1 ==> #[trigger] out[i] is SetPin
    &&& forall|i: int| 0 <= i < out.len() ==> #[trigger] on_own_pin(out[i], pins)
}

/// A `SetPin` event names one of the device's `pins` pins.
pub open spec fn on_own_pin(ev: DeviceToCircuitMessage, pins: nat) -> bool {
    ev is SetPin ==> 1 <= ev->SetPin_pin <= pins
}

/// The events that answer a `SetPin` command: one `NextTick` for the
/// following tick when it closes a batch, nothing otherwise.
pub open spec fn answers_set_pin(tick: u64, last: bool) -> Seq<DeviceToCircuitMessage> {
    if last {
        seq![DeviceToCircuitMessage::NextTick { tick: following_tick(tick) }]
    } else {
        seq![]
    }
}

/// `out` is what the per-tick protocol allows in answer to `msg`.
pub open spec fn honors_protocol(
    msg: CircuitToDeviceMessage,
    out: Seq<DeviceToCircuitMessage>,
    pins: nat,
) -> bool {
    match msg {
        CircuitToDeviceMessage::NextTick { .. } => answers_tick(out, pins),
        CircuitToDeviceMessage::SetPin { tick, last, .. } => out == answers_set_pin(tick, last),
        _ => true,
    }
}

/// A device that, on every tick, keeps its state, emits no `SetPin` and
/// reports no scheduled wake-up.
pub open spec fn quiet<D: Device>(device: D) -> bool {
    forall|t: u64|
        #![trigger device.after(CircuitToDeviceMessage::NextTick { tick: t })]
        device.after(CircuitToDeviceMessage::NextTick { tick: t }) == device && device.emits(
            CircuitToDeviceMessage::NextTick { tick: t },
        ) == seq![DeviceToCircuitMessage::NextTick { tick: u64::MAX }]
}

/// A device: an actor that consumes one command at a time, updating its own
/// state and emitting events.
pub trait Device: Sized {
    /// The device's name, for diagnostics.
    spec fn name(&self) -> Seq<char>;

    /// The number of pins; they are numbered from one, so that a table
    /// indexed by pin has `pin_count() + 1` slots.
    spec fn pin_count(&self) -> nat;

    /// The state after handling `msg`.
    spec fn after(&self, msg: CircuitToDeviceMessage) -> Self;

    /// The events emitted while handling `msg`, in order.
    spec fn emits(&self, msg: CircuitToDeviceMessage) -> Seq<DeviceToCircuitMessage>;

    /// Whether the device keeps running after `msg`.
    spec fn continues(&self, msg: CircuitToDeviceMessage) -> bool;

    fn get_name(&self) -> (r: &str)
        ensures
            r@ == self.name(),
    ;

    fn get_pin_count(&self) -> (r: usize)
        ensures
            r == self.pin_count(),
            r < usize::MAX,
    ;

    /// Handles one command, appending what it emits to `events`.
    fn handle(&mut self, msg: CircuitToDeviceMessage, events: &mut Vec<DeviceToCircuitMessage>) -> (running: bool)
        ensures
            *final(self) == old(self).after(msg),
            final(events)@ == old(events)@ + old(self).emits(msg),
            running == old(self).continues(msg),
            final(self).pin_count() == old(self).pin_count(),
            honors_protocol(msg, old(self).emits(msg), old(self).pin_count()),
            msg is NextTick || msg is SetPin ==> running,
            msg is Terminate ==> !running,
    ;
}

/// Any device of this library.
#[derive(Debug)]
pub enum DeviceKind {
    AndGate(AndGate),
    TestProbe(TestProbe),
}

impl Device for DeviceKind {
    open spec fn name(&self) -> Seq<char> {
        match self {
            DeviceKind::AndGate(g) => g.name(),
            DeviceKind::TestProbe(p) => p.name(),
        }
    }

    open spec fn pin_count(&self) -> nat {
        match self {
            DeviceKind::AndGate(g) => g.pin_count(),
            DeviceKind::TestProbe(p) => p.pin_count(),
        }
    }

    open spec fn after(&self, msg: CircuitToDeviceMessage) -> DeviceKind {
        match self {
            DeviceKind::AndGate(g) => DeviceKind::AndGate(g.after(msg)),
            DeviceKind::TestProbe(p) => DeviceKind::TestProbe(p.after(msg)),
        }
    }

    open spec fn emits(&self, msg: CircuitToDeviceMessage) -> Seq<DeviceToCircuitMessage> {
        match self {
            DeviceKind::AndGate(g) => g.emits(msg),
            DeviceKind::TestProbe(p) => p.emits(msg),
        }
    }

    open spec fn continues(&self, msg: CircuitToDeviceMessage) -> bool {
        match self {
            DeviceKind::AndGate(g) => g.continues(msg),
            DeviceKind::TestProbe(p) => p.continues(msg),
        }
    }

    fn get_name(&self) -> (r: &str) {
        match self {
            DeviceKind::AndGate(g) => g.get_name(),
            DeviceKind::TestProbe(p) => p.get_name(),
        }
    }

    fn get_pin_count(&self) -> (r: usize) {
        match self {
            DeviceKind::AndGate(g) => g.get_pin_count(),
            DeviceKind::TestProbe(p) => p.get_pin_count(),
        }
    }

    fn handle(&mut self, msg: CircuitToDeviceMessage, events: &mut Vec<DeviceToCircuitMessage>) -> (running: bool) {
        match self {
            DeviceKind::AndGate(g) => g.handle(msg, events),
            DeviceKind::TestProbe(p) => p.handle(msg, events),
        }
    }
}

} // verus!
