use crate::device::answers_set_pin;
use crate::device::Device;
use crate::device::DeviceKind;
use crate::device::and_gate::lemma_and_gate_handles;
use crate::Circuit;
use crate::CircuitError;
use crate::message::next_tick_after;
use crate::CircuitToDeviceMessage;
use crate::DeviceData;
use crate::DeviceToCircuitMessage;
use crate::PinDirection;
use vstd::prelude::*;

verus! {

/// A one-pin device driven and sampled from the host through the data
/// channel. As an output it drives its value on its pin; as an input it
/// records the value that its net delivers. A value delivered while it
/// drives is ignored; like any `SetPin`, it is still answered, so that every
/// batch gets its one reply.
#[derive(Debug)]
pub struct TestProbe {
    name: String,
    value: u32,
    direction: PinDirection,
    dirty: bool,
}

impl TestProbe {
    pub const PIN: usize = 1;

    /// The value the probe holds.
    pub closed spec fn value(&self) -> u32 {
        self.value
    }

    /// The direction of the probe's pin.
    pub closed spec fn direction(&self) -> PinDirection {
        self.direction
    }

    /// Whether the probe announces its value on the next tick.
    pub closed spec fn dirty(&self) -> bool {
        self.dirty
    }

    pub fn new(name: &str, value: u32, direction: PinDirection) -> (r: TestProbe)
        ensures
            r.name() == name@,
            r.pin_count() == 1,
            r.value() == value,
            r.direction() == direction,
            r.dirty(),
    {
        TestProbe { name: name.to_owned(), value, direction, dirty: true }
    }
}

impl TestProbe {
    /// Makes device `device` of `circuit`, a probe, drive `u32::MAX`.
    pub fn set_output_high(circuit: &mut Circuit<DeviceKind>, device: usize) -> (r: Result<(), CircuitError>)
        requires
            old(circuit).wf(),
            (device as int) < old(circuit).len(),
        ensures
            final(circuit).wf(),
            Circuit::<DeviceKind>::data_sent(
                old(circuit),
                final(circuit),
                device as int,
                DeviceData::ProbeSet(TestProbeSetData::of(u32::MAX, PinDirection::Output)),
                r,
            ),
    {
        circuit.send_device_data(device, DeviceData::ProbeSet(TestProbeSetData::output_high()))
    }

    /// Makes device `device` of `circuit`, a probe, drive `0`.
    pub fn set_output_low(circuit: &mut Circuit<DeviceKind>, device: usize) -> (r: Result<(), CircuitError>)
        requires
            old(circuit).wf(),
            (device as int) < old(circuit).len(),
        ensures
            final(circuit).wf(),
            Circuit::<DeviceKind>::data_sent(
                old(circuit),
                final(circuit),
                device as int,
                DeviceData::ProbeSet(TestProbeSetData::of(0, PinDirection::Output)),
                r,
            ),
    {
        circuit.send_device_data(device, DeviceData::ProbeSet(TestProbeSetData::output_low()))
    }

    /// Makes device `device` of `circuit`, a probe, sample its pin.
    pub fn set_input(circuit: &mut Circuit<DeviceKind>, device: usize) -> (r: Result<(), CircuitError>)
        requires
            old(circuit).wf(),
            (device as int) < old(circuit).len(),
        ensures
            final(circuit).wf(),
            Circuit::<DeviceKind>::data_sent(
                old(circuit),
                final(circuit),
                device as int,
                DeviceData::ProbeSet(TestProbeSetData::of(0, PinDirection::Input)),
                r,
            ),
    {
        circuit.send_device_data(device, DeviceData::ProbeSet(TestProbeSetData::input()))
    }

    /// Reads the value that device `device` of `circuit`, a probe, holds.
    /// A running probe with nothing in flight answers with its value and
    /// keeps its state.
    pub fn get_value(circuit: &mut Circuit<DeviceKind>, device: usize) -> (r: Result<u32, CircuitError>)
        requires
            old(circuit).wf(),
            (device as int) < old(circuit).len(),
        ensures
            final(circuit).wf(),
            final(circuit).same_but(old(circuit), device as int),
            !old(circuit).running(device as int) ==> r == Err::<u32, CircuitError>(
                CircuitError::WorkerLost { device },
            ),
            old(circuit).running(device as int) && old(circuit).in_flight(device as int).len() > 0
                ==> {
                let first = old(circuit).in_flight(device as int)[0];
                &&& first is Data && first->Data_data is ProbeGetResponse ==> r == Ok::<
                    u32,
                    CircuitError,
                >(first->Data_data->ProbeGetResponse_0.value())
                &&& !(first is Data && first->Data_data is ProbeGetResponse) ==> r == Err::<
                    u32,
                    CircuitError,
                >(CircuitError::UnexpectedMessage { device })
            },
            old(circuit).running(device as int) && old(circuit).in_flight(device as int).len() == 0
                && old(circuit).device(device as int) is AndGate ==> {
                &&& r == Err::<u32, CircuitError>(CircuitError::NoResponse { device })
                &&& !final(circuit).running(device as int)
            },
            old(circuit).running(device as int) && old(circuit).in_flight(device as int).len() == 0
                && old(circuit).device(device as int) is TestProbe ==> {
                &&& r == Ok::<u32, CircuitError>(
                    old(circuit).device(device as int)->TestProbe_0.value(),
                )
                &&& final(circuit).device(device as int) == old(circuit).device(device as int)
                &&& final(circuit).running(device as int)
                &&& final(circuit).in_flight(device as int).len() == 0
            },
    {
        let request = DeviceData::ProbeGetRequest(TestProbeGetDataRequest::new());
        let reply = circuit.recv_device_data(device, request);
        proof {
            let msg = CircuitToDeviceMessage::Data { data: request };
            if old(circuit).device(device as int) is TestProbe {
                let p = old(circuit).device(device as int)->TestProbe_0;
                assert(p.after(msg) == p);
                assert(old(circuit).device(device as int).after(msg) == old(circuit).device(device as int));
                assert(old(circuit).in_flight(device as int).len() == 0 ==> (old(circuit).in_flight(device as int)
                    + old(circuit).device(device as int).emits(msg)) =~= p.emits(msg));
            }
        }
        proof {
            let msg = CircuitToDeviceMessage::Data { data: request };
            if old(circuit).device(device as int) is AndGate {
                lemma_and_gate_handles(old(circuit).device(device as int)->AndGate_0, msg);
                assert(old(circuit).in_flight(device as int).len() == 0 ==> (old(circuit).in_flight(device as int)
                    + old(circuit).device(device as int).emits(msg)).len() == 0);
            }
        }
        match reply {
            Ok(DeviceData::ProbeGetResponse(response)) => Ok(response.get_value()),
            Ok(_) => Err(CircuitError::UnexpectedMessage { device }),
            Err(e) => Err(e),
        }
    }
}

/// What a probe does with each command: on `NextTick` it announces its
/// value on its pin when dirty, then reports no wake-up; a `SetPin` on its
/// pin is recorded when it samples (`Input`) and is answered by
/// `answers_set_pin`; a set request takes the value and direction and marks
/// it dirty; a get request is answered with one response carrying its
/// value; both keep it running. A response payload, which it cannot decode,
/// and `Terminate` stop it.
pub proof fn lemma_probe_handles(p: TestProbe, msg: CircuitToDeviceMessage)
    ensures
        p.pin_count() == 1,
        p.after(msg).name() == p.name(),
        match msg {
            CircuitToDeviceMessage::NextTick { .. } => {
                &&& p.after(msg).value() == p.value()
                &&& p.after(msg).direction() == p.direction()
                &&& !p.after(msg).dirty()
                &&& !p.dirty() ==> p.after(msg) == p
                &&& p.emits(msg) == if p.dirty() {
                    seq![
                        DeviceToCircuitMessage::SetPin {
                            pin: TestProbe::PIN,
                            value: p.value(),
                            direction: p.direction(),
                        },
                        DeviceToCircuitMessage::NextTick { tick: u64::MAX },
                    ]
                } else {
                    seq![DeviceToCircuitMessage::NextTick { tick: u64::MAX }]
                }
                &&& p.continues(msg)
            },
            CircuitToDeviceMessage::SetPin { tick, pin, value, last } => {
                &&& p.after(msg).direction() == p.direction()
                &&& p.after(msg).dirty() == p.dirty()
                &&& p.after(msg).value() == if p.direction() == PinDirection::Input && pin
                    == TestProbe::PIN {
                    value
                } else {
                    p.value()
                }
                &&& !(p.direction() == PinDirection::Input && pin == TestProbe::PIN) ==> p.after(msg) == p
                &&& p.emits(msg) == answers_set_pin(tick, last)
                &&& p.continues(msg)
            },
            CircuitToDeviceMessage::Data { data: DeviceData::ProbeSet(set) } => {
                &&& p.after(msg).value() == set.value()
                &&& p.after(msg).direction() == set.direction()
                &&& p.after(msg).dirty()
                &&& p.emits(msg) == Seq::<DeviceToCircuitMessage>::empty()
                &&& p.continues(msg)
            },
            CircuitToDeviceMessage::Data { data: DeviceData::ProbeGetRequest(_) } => {
                &&& p.after(msg) == p
                &&& p.emits(msg).len() == 1
                &&& p.emits(msg)[0] is Data
                &&& p.emits(msg)[0]->Data_data is ProbeGetResponse
                &&& p.emits(msg)[0]->Data_data->ProbeGetResponse_0.value() == p.value()
                &&& p.continues(msg)
            },
            _ => {
                &&& p.after(msg) == p
                &&& p.emits(msg) == Seq::<DeviceToCircuitMessage>::empty()
                &&& !p.continues(msg)
            },
        },
{
}

impl Device for TestProbe {
    closed spec fn name(&self) -> Seq<char> {
        self.name@
    }

    closed spec fn pin_count(&self) -> nat {
        1
    }

    closed spec fn after(&self, msg: CircuitToDeviceMessage) -> TestProbe {
        match msg {
            CircuitToDeviceMessage::NextTick { .. } => TestProbe { dirty: false, ..*self },
            CircuitToDeviceMessage::SetPin { pin, value, .. } => {
                if self.direction == PinDirection::Input && pin == TestProbe::PIN {
                    TestProbe { value, ..*self }
                } else {
                    *self
                }
            },
            CircuitToDeviceMessage::Data { data: DeviceData::ProbeSet(set) } => TestProbe {
                value: set.value,
                direction: set.direction,
                dirty: true,
                ..*self
            },
            _ => *self,
        }
    }

    closed spec fn emits(&self, msg: CircuitToDeviceMessage) -> Seq<DeviceToCircuitMessage> {
        match msg {
            CircuitToDeviceMessage::NextTick { .. } => {
                if self.dirty {
                    seq![
                        DeviceToCircuitMessage::SetPin {
                            pin: TestProbe::PIN,
                            value: self.value,
                            direction: self.direction,
                        },
                        DeviceToCircuitMessage::NextTick { tick: u64::MAX },
                    ]
                } else {
                    seq![DeviceToCircuitMessage::NextTick { tick: u64::MAX }]
                }
            },
            CircuitToDeviceMessage::SetPin { tick, last, .. } => answers_set_pin(tick, last),
            CircuitToDeviceMessage::Data { data: DeviceData::ProbeGetRequest(_) } => seq![
                DeviceToCircuitMessage::Data {
                    data: DeviceData::ProbeGetResponse(TestProbeGetDataResponse { value: self.value }),
                },
            ],
            _ => seq![],
        }
    }

    /// A payload the probe cannot decode, like `Terminate`, stops it.
    closed spec fn continues(&self, msg: CircuitToDeviceMessage) -> bool {
        match msg {
            CircuitToDeviceMessage::Terminate => false,
            CircuitToDeviceMessage::Data { data: DeviceData::ProbeGetResponse(_) } => false,
            _ => true,
        }
    }

    fn get_name(&self) -> (r: &str) {
        self.name.as_str()
    }

    fn get_pin_count(&self) -> (r: usize) {
        1
    }

    fn handle(&mut self, msg: CircuitToDeviceMessage, events: &mut Vec<DeviceToCircuitMessage>) -> (running: bool) {
        match msg {
            CircuitToDeviceMessage::NextTick { tick: _ } => {
                if self.dirty {
                    events.push(
                        DeviceToCircuitMessage::SetPin {
                            pin: TestProbe::PIN,
                            value: self.value,
                            direction: self.direction,
                        },
                    );
                    self.dirty = false;
                }
                events.push(DeviceToCircuitMessage::NextTick { tick: u64::MAX });
                proof {
                    assert(events@ =~= old(events)@ + old(self).emits(msg));
                }
                true
            },
            CircuitToDeviceMessage::SetPin { tick, pin, value, last } => {
                match self.direction {
                    PinDirection::Input => {
                        if pin == TestProbe::PIN {
                            self.value = value;
                        }
                    },
                    PinDirection::Output => {},
                }
                if last {
                    events.push(DeviceToCircuitMessage::NextTick { tick: next_tick_after(tick) });
                }
                proof {
                    assert(events@ =~= old(events)@ + old(self).emits(msg));
                }
                true
            },
            CircuitToDeviceMessage::Data { data } => {
                match data {
                    DeviceData::ProbeSet(set) => {
                        self.value = set.get_value();
                        self.direction = set.get_direction();
                        self.dirty = true;
                        proof {
                            assert(events@ =~= old(events)@ + old(self).emits(msg));
                        }
                        true
                    },
                    DeviceData::ProbeGetRequest(_) => {
                        events.push(
                            DeviceToCircuitMessage::Data {
                                data: DeviceData::ProbeGetResponse(
                                    TestProbeGetDataResponse::new(self.value),
                                ),
                            },
                        );
                        proof {
                            assert(events@ =~= old(events)@ + old(self).emits(msg));
                        }
                        true
                    },
                    DeviceData::ProbeGetResponse(_) => {
                        proof {
                            assert(events@ =~= old(events)@ + old(self).emits(msg));
                        }
                        false
                    },
                }
            },
            CircuitToDeviceMessage::Terminate => {
                proof {
                    assert(events@ =~= old(events)@ + old(self).emits(msg));
                }
                false
            },
        }
    }
}

/// A request that sets a probe's value and direction.
#[derive(Clone, Copy, Debug)]
pub struct TestProbeSetData {
    value: u32,
    direction: PinDirection,
}

impl TestProbeSetData {
    pub closed spec fn value(&self) -> u32 {
        self.value
    }

    pub closed spec fn direction(&self) -> PinDirection {
        self.direction
    }

    /// The request that sets `value` and `direction`.
    pub closed spec fn of(value: u32, direction: PinDirection) -> TestProbeSetData {
        TestProbeSetData { value, direction }
    }

    pub fn new(value: u32, direction: PinDirection) -> (r: TestProbeSetData)
        ensures
            r == TestProbeSetData::of(value, direction),
            r.value() == value,
            r.direction() == direction,
    {
        TestProbeSetData { value, direction }
    }

    pub fn output_high() -> (r: TestProbeSetData)
        ensures
            r == TestProbeSetData::of(u32::MAX, PinDirection::Output),
            r.value() == u32::MAX,
            r.direction() == PinDirection::Output,
    {
        TestProbeSetData::new(u32::MAX, PinDirection::Output)
    }

    pub fn output_low() -> (r: TestProbeSetData)
        ensures
            r == TestProbeSetData::of(0, PinDirection::Output),
            r.value() == 0,
            r.direction() == PinDirection::Output,
    {
        TestProbeSetData::new(0, PinDirection::Output)
    }

    pub fn input() -> (r: TestProbeSetData)
        ensures
            r == TestProbeSetData::of(0, PinDirection::Input),
            r.value() == 0,
            r.direction() == PinDirection::Input,
    {
        TestProbeSetData::new(0, PinDirection::Input)
    }

    pub fn get_value(&self) -> (r: u32)
        ensures
            r == self.value(),
    {
        self.value
    }

    pub fn get_direction(&self) -> (r: PinDirection)
        ensures
            r == self.direction(),
    {
        self.direction
    }
}

/// A request for a probe's value.
#[derive(Clone, Copy, Debug)]
pub struct TestProbeGetDataRequest {}

impl TestProbeGetDataRequest {
    pub fn new() -> (r: TestProbeGetDataRequest) {
        TestProbeGetDataRequest {  }
    }
}

/// A probe's answer to a `TestProbeGetDataRequest`.
#[derive(Clone, Copy, Debug)]
pub struct TestProbeGetDataResponse {
    value: u32,
}

impl TestProbeGetDataResponse {
    pub closed spec fn value(&self) -> u32 {
        self.value
    }

    pub fn new(value: u32) -> (r: TestProbeGetDataResponse)
        ensures
            r.value() == value,
    {
        TestProbeGetDataResponse { value }
    }

    pub fn get_value(&self) -> (r: u32)
        ensures
            r == self.value(),
    {
        self.value
    }
}

/// Setting a probe and then asking for its value answers with exactly one
/// response, which carries the value that was set.
pub proof fn lemma_probe_set_then_get(
    probe: TestProbe,
    set: TestProbeSetData,
    get: TestProbeGetDataRequest,
)
    ensures
        ({
            let out = probe.after(CircuitToDeviceMessage::Data { data: DeviceData::ProbeSet(set) }).emits(
                CircuitToDeviceMessage::Data { data: DeviceData::ProbeGetRequest(get) },
            );
            &&& probe.continues(
                CircuitToDeviceMessage::Data { data: DeviceData::ProbeSet(set) },
            )
            &&& out.len() == 1
            &&& match out[0] {
                DeviceToCircuitMessage::Data { data: DeviceData::ProbeGetResponse(r) } => r.value()
                    == set.value(),
                _ => false,
            }
        }),
{
}


/// Through a circuit: once a set request reached a running probe with
/// nothing in flight, the probe still runs, and a get request sent next
/// finds exactly one message on its channel, a response carrying the value
/// that was set.
pub proof fn lemma_circuit_set_then_get(
    before: Circuit<DeviceKind>,
    after: Circuit<DeviceKind>,
    d: int,
    set: TestProbeSetData,
    get: TestProbeGetDataRequest,
)
    requires
        0 <= d < before.len(),
        before.device(d) is TestProbe,
        before.running(d),
        before.in_flight(d).len() == 0,
        Circuit::<DeviceKind>::data_sent(&before, &after, d, DeviceData::ProbeSet(set), Ok(())),
    ensures
        ({
            let msg = CircuitToDeviceMessage::Data { data: DeviceData::ProbeGetRequest(get) };
            let queue = after.in_flight(d) + after.device(d).emits(msg);
            &&& after.running(d)
            &&& after.device(d) is TestProbe
            &&& queue.len() == 1
            &&& queue[0] is Data
            &&& queue[0]->Data_data is ProbeGetResponse
            &&& queue[0]->Data_data->ProbeGetResponse_0.value() == set.value()
        }),
{
    let p = before.device(d)->TestProbe_0;
    lemma_probe_set_then_get(p, set, get);
    let msg = CircuitToDeviceMessage::Data { data: DeviceData::ProbeGetRequest(get) };
    assert(after.in_flight(d) =~= Seq::<DeviceToCircuitMessage>::empty());
    assert(after.in_flight(d) + after.device(d).emits(msg) =~= after.device(d).emits(msg));
}

} // verus!
