use crate::device::answers_set_pin;
use crate::device::Device;
use crate::message::next_tick_after;
use crate::pin::LogicPin;
use crate::CircuitToDeviceMessage;
use crate::DeviceToCircuitMessage;
use crate::PinDirection;
use vstd::prelude::*;

verus! {

/// A two-input AND gate. Inputs are pins one and two, the output pin three.
/// On each tick it recomputes its output and drives it when it changed.
/// A value delivered to its output pin is ignored; like any `SetPin`, it is
/// still answered, so that every batch gets its one reply.
#[derive(Debug)]
pub struct AndGate {
    name: String,
    input1: bool,
    input2: bool,
    last: bool,
}

impl AndGate {
    pub const PIN_INPUT1: usize = 1;

    pub const PIN_INPUT2: usize = 2;

    pub const PIN_OUTPUT: usize = 3;

    /// The logical values of the two inputs.
    pub closed spec fn inputs(&self) -> (bool, bool) {
        (self.input1, self.input2)
    }

    /// The logical level currently on the output pin.
    pub closed spec fn driven(&self) -> bool {
        self.last
    }

    pub fn new(name: &str) -> (r: AndGate)
        ensures
            r.name() == name@,
            r.pin_count() == 3,
            r.inputs() == (false, false),
            !r.driven(),
    {
        AndGate { name: name.to_owned(), input1: false, input2: false, last: false }
    }
}

/// The pin value that stands for a logical value.
pub open spec fn level(b: bool) -> u32 {
    if b {
        LogicPin::TRUE
    } else {
        LogicPin::FALSE
    }
}

/// What a gate does with each command: on `NextTick` it drives
/// `in1 && in2`, emitting it on the output pin only when it changed, then
/// reports no wake-up; a `SetPin` on an input updates that input, one on
/// another pin changes nothing, and either is answered by `answers_set_pin`;
/// data and `Terminate` stop it.
pub proof fn lemma_and_gate_handles(g: AndGate, msg: CircuitToDeviceMessage)
    ensures
        g.pin_count() == 3,
        g.after(msg).name() == g.name(),
        match msg {
            CircuitToDeviceMessage::NextTick { .. } => {
                let out = g.inputs().0 && g.inputs().1;
                &&& g.after(msg).inputs() == g.inputs()
                &&& g.after(msg).driven() == out
                &&& out == g.driven() ==> g.after(msg) == g
                &&& g.emits(msg) == if out != g.driven() {
                    seq![
                        DeviceToCircuitMessage::SetPin {
                            pin: AndGate::PIN_OUTPUT,
                            value: level(out),
                            direction: PinDirection::Output,
                        },
                        DeviceToCircuitMessage::NextTick { tick: u64::MAX },
                    ]
                } else {
                    seq![DeviceToCircuitMessage::NextTick { tick: u64::MAX }]
                }
                &&& g.continues(msg)
            },
            CircuitToDeviceMessage::SetPin { tick, pin, value, last } => {
                &&& g.after(msg).driven() == g.driven()
                &&& g.after(msg).inputs() == if pin == AndGate::PIN_INPUT1 {
                    (value != 0, g.inputs().1)
                } else if pin == AndGate::PIN_INPUT2 {
                    (g.inputs().0, value != 0)
                } else {
                    g.inputs()
                }
                &&& pin != AndGate::PIN_INPUT1 && pin != AndGate::PIN_INPUT2 ==> g.after(msg) == g
                &&& g.emits(msg) == answers_set_pin(tick, last)
                &&& g.continues(msg)
            },
            _ => {
                &&& g.after(msg) == g
                &&& g.emits(msg) == Seq::<DeviceToCircuitMessage>::empty()
                &&& !g.continues(msg)
            },
        },
{
}

impl Device for AndGate {
    closed spec fn name(&self) -> Seq<char> {
        self.name@
    }

    closed spec fn pin_count(&self) -> nat {
        3
    }

    closed spec fn after(&self, msg: CircuitToDeviceMessage) -> AndGate {
        match msg {
            CircuitToDeviceMessage::NextTick { .. } => AndGate {
                last: self.input1 && self.input2,
                ..*self
            },
            CircuitToDeviceMessage::SetPin { pin, value, .. } => {
                if pin == AndGate::PIN_INPUT1 {
                    AndGate { input1: value != 0, ..*self }
                } else if pin == AndGate::PIN_INPUT2 {
                    AndGate { input2: value != 0, ..*self }
                } else {
                    *self
                }
            },
            _ => *self,
        }
    }

    closed spec fn emits(&self, msg: CircuitToDeviceMessage) -> Seq<DeviceToCircuitMessage> {
        match msg {
            CircuitToDeviceMessage::NextTick { .. } => {
                let out = self.input1 && self.input2;
                if out != self.last {
                    seq![
                        DeviceToCircuitMessage::SetPin {
                            pin: AndGate::PIN_OUTPUT,
                            value: level(out),
                            direction: PinDirection::Output,
                        },
                        DeviceToCircuitMessage::NextTick { tick: u64::MAX },
                    ]
                } else {
                    seq![DeviceToCircuitMessage::NextTick { tick: u64::MAX }]
                }
            },
            CircuitToDeviceMessage::SetPin { tick, last, .. } => answers_set_pin(tick, last),
            _ => seq![],
        }
    }

    /// A gate takes no data: a data request, like `Terminate`, stops it.
    closed spec fn continues(&self, msg: CircuitToDeviceMessage) -> bool {
        msg is NextTick || msg is SetPin
    }

    fn get_name(&self) -> (r: &str) {
        self.name.as_str()
    }

    fn get_pin_count(&self) -> (r: usize) {
        3
    }

    fn handle(&mut self, msg: CircuitToDeviceMessage, events: &mut Vec<DeviceToCircuitMessage>) -> (running: bool) {
        match msg {
            CircuitToDeviceMessage::NextTick { tick: _ } => {
                let out = self.input1 && self.input2;
                if out != self.last {
                    let value = if out {
                        LogicPin::TRUE
                    } else {
                        LogicPin::FALSE
                    };
                    events.push(
                        DeviceToCircuitMessage::SetPin {
                            pin: AndGate::PIN_OUTPUT,
                            value,
                            direction: PinDirection::Output,
                        },
                    );
                    self.last = out;
                }
                events.push(DeviceToCircuitMessage::NextTick { tick: u64::MAX });
                proof {
                    assert(events@ =~= old(events)@ + old(self).emits(msg));
                }
                true
            },
            CircuitToDeviceMessage::SetPin { tick, pin, value, last } => {
                if pin == AndGate::PIN_INPUT1 {
                    self.input1 = value != 0;
                } else if pin == AndGate::PIN_INPUT2 {
                    self.input2 = value != 0;
                }
                if last {
                    events.push(DeviceToCircuitMessage::NextTick { tick: next_tick_after(tick) });
                }
                proof {
                    assert(events@ =~= old(events)@ + old(self).emits(msg));
                }
                true
            },
            CircuitToDeviceMessage::Data { data: _ } => {
                proof {
                    assert(events@ =~= old(events)@ + old(self).emits(msg));
                }
                false
            },
            CircuitToDeviceMessage::Terminate => {
                proof {
                    assert(events@ =~= old(events)@ + old(self).emits(msg));
                }
                false
            },
        }
    }
}

} // verus!
