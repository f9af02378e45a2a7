use circuit_sim::device::AndGate;
use circuit_sim::device::Device;
use circuit_sim::device::TestProbe;
use circuit_sim::device::TestProbeGetDataResponse;
use circuit_sim::device::TestProbeSetData;
use circuit_sim::pin::LogicPin;
use circuit_sim::pin::Pin;
use circuit_sim::CircuitToDeviceMessage;
use circuit_sim::DeviceData;
use circuit_sim::DeviceToCircuitMessage;
use circuit_sim::Net;
use circuit_sim::NetConnection;
use circuit_sim::PinDirection;

#[test]
fn logic_levels() {
    assert!(LogicPin::is_false(0));
    assert!(!LogicPin::is_false(1));
    assert!(LogicPin::is_true(1));
    assert!(LogicPin::is_true(u32::MAX));
    assert!(!LogicPin::is_true(0));
    assert_eq!(u32::MAX, LogicPin::TRUE);
    assert_eq!(0, LogicPin::FALSE);
    assert_eq!(PinDirection::Output, LogicPin::new(PinDirection::Output).get_pin_direction());
    assert_eq!(PinDirection::Input, LogicPin::new(PinDirection::Input).get_pin_direction());
}

#[test]
fn net_connection_values() {
    let c = NetConnection::new(3, 2);
    assert_eq!(3, c.get_device());
    assert_eq!(2, c.get_pin());
    let net = Net::new(vec![NetConnection::new(0, 1), c]);
    let points: Vec<(usize, usize)> = net
        .connections_iter()
        .iter()
        .map(|c| (c.get_device(), c.get_pin()))
        .collect();
    assert_eq!(vec![(0, 1), (3, 2)], points);
}

#[test]
fn probe_set_data_values() {
    let high = TestProbeSetData::output_high();
    assert_eq!(u32::MAX, high.get_value());
    assert_eq!(PinDirection::Output, high.get_direction());
    let low = TestProbeSetData::output_low();
    assert_eq!(0, low.get_value());
    assert_eq!(PinDirection::Output, low.get_direction());
    let input = TestProbeSetData::input();
    assert_eq!(0, input.get_value());
    assert_eq!(PinDirection::Input, input.get_direction());
    assert_eq!(42, TestProbeGetDataResponse::new(42).get_value());
}

#[test]
fn and_gate_drives_only_changes() {
    let mut gate = AndGate::new("g");
    let mut out = Vec::new();
    assert!(gate.handle(CircuitToDeviceMessage::NextTick { tick: 1 }, &mut out));
    assert_eq!(1, out.len());
    assert!(matches!(out[0], DeviceToCircuitMessage::NextTick { tick: u64::MAX }));
    out.clear();
    let set1 = CircuitToDeviceMessage::SetPin { tick: 1, pin: 1, value: 1, last: false };
    assert!(gate.handle(set1, &mut out));
    assert!(out.is_empty());
    let set2 = CircuitToDeviceMessage::SetPin { tick: 1, pin: 2, value: 5, last: true };
    assert!(gate.handle(set2, &mut out));
    assert_eq!(1, out.len());
    assert!(matches!(out[0], DeviceToCircuitMessage::NextTick { tick: 2 }));
    out.clear();
    assert!(gate.handle(CircuitToDeviceMessage::NextTick { tick: 2 }, &mut out));
    assert_eq!(2, out.len());
    assert!(matches!(
        out[0],
        DeviceToCircuitMessage::SetPin { pin: 3, value: u32::MAX, direction: PinDirection::Output }
    ));
    out.clear();
    assert!(gate.handle(CircuitToDeviceMessage::NextTick { tick: 3 }, &mut out));
    assert_eq!(1, out.len());
    assert!(!gate.handle(CircuitToDeviceMessage::Terminate, &mut out));
}

#[test]
fn set_pin_reply_saturates_at_max() {
    let mut p = TestProbe::new("p", 0, PinDirection::Input);
    let mut out = Vec::new();
    let set = CircuitToDeviceMessage::SetPin { tick: u64::MAX, pin: 1, value: 3, last: true };
    assert!(p.handle(set, &mut out));
    assert!(matches!(out[0], DeviceToCircuitMessage::NextTick { tick: u64::MAX }));
    out.clear();
    let get = CircuitToDeviceMessage::Data {
        data: DeviceData::ProbeGetRequest(circuit_sim::device::TestProbeGetDataRequest::new()),
    };
    assert!(p.handle(get, &mut out));
    match out[0] {
        DeviceToCircuitMessage::Data { data: DeviceData::ProbeGetResponse(r) } => assert_eq!(3, r.get_value()),
        _ => panic!("expected a data response"),
    }
}

#[test]
fn output_probe_ignores_driven_value() {
    let mut p = TestProbe::new("p", 4, PinDirection::Output);
    let mut out = Vec::new();
    let set = CircuitToDeviceMessage::SetPin { tick: 7, pin: 1, value: 9, last: true };
    assert!(p.handle(set, &mut out));
    assert!(matches!(out[0], DeviceToCircuitMessage::NextTick { tick: 8 }));
    out.clear();
    assert!(p.handle(CircuitToDeviceMessage::NextTick { tick: 8 }, &mut out));
    assert!(matches!(
        out[0],
        DeviceToCircuitMessage::SetPin { pin: 1, value: 4, direction: PinDirection::Output }
    ));
}
