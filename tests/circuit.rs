use circuit_sim::device::Device;
use circuit_sim::device::DeviceKind;
use circuit_sim::device::TestProbe;
use circuit_sim::device::TestProbeGetDataRequest;
use circuit_sim::device::TestProbeSetData;
use circuit_sim::Circuit;
use circuit_sim::CircuitError;
use circuit_sim::DeviceData;
use circuit_sim::Net;
use circuit_sim::NetConnection;
use circuit_sim::PinDirection;

fn probe(name: &str, value: u32, direction: PinDirection) -> DeviceKind {
    DeviceKind::TestProbe(TestProbe::new(name, value, direction))
}

#[test]
fn last_tick_follows_each_tick() {
    let mut circuit = Circuit::new(vec![probe("p", 5, PinDirection::Output)], vec![]);
    assert_eq!(0, circuit.get_last_tick());
    for t in [1u64, 2, 7, 100, u64::MAX] {
        assert!(circuit.tick(t).is_ok());
        assert_eq!(t, circuit.get_last_tick());
    }
}

#[test]
fn quiet_devices_report_no_wake_up() {
    let mut circuit = Circuit::new(
        vec![probe("a", 0, PinDirection::Input), probe("b", 0, PinDirection::Input)],
        vec![],
    );
    assert_eq!(Ok(u64::MAX), circuit.tick(1));
    assert_eq!(Ok(u64::MAX), circuit.tick(2));
    assert_eq!(Ok(u64::MAX), circuit.tick(3));
}

#[test]
fn output_reaches_every_peer_of_its_net() {
    let devices = vec![
        probe("drive", 7, PinDirection::Output),
        probe("sink1", 0, PinDirection::Input),
        probe("sink2", 0, PinDirection::Input),
        probe("other", 0, PinDirection::Input),
    ];
    let nets = vec![Net::new(vec![
        NetConnection::new(0, TestProbe::PIN),
        NetConnection::new(1, TestProbe::PIN),
        NetConnection::new(2, TestProbe::PIN),
    ])];
    let mut circuit = Circuit::new(devices, nets);
    assert_eq!(Ok(u64::MAX), circuit.tick(1));
    assert_eq!(Ok(7), TestProbe::get_value(&mut circuit, 0));
    assert_eq!(Ok(7), TestProbe::get_value(&mut circuit, 1));
    assert_eq!(Ok(7), TestProbe::get_value(&mut circuit, 2));
    assert_eq!(Ok(0), TestProbe::get_value(&mut circuit, 3));
}

#[test]
fn nothing_in_flight_after_tick() {
    let devices = vec![probe("drive", 9, PinDirection::Output), probe("sink", 0, PinDirection::Input)];
    let nets = vec![Net::new(vec![NetConnection::new(0, 1), NetConnection::new(1, 1)])];
    let mut circuit = Circuit::new(devices, nets);
    assert_eq!(Ok(u64::MAX), circuit.tick(1));
    // the next tick finds no stale reply on any channel
    assert_eq!(Ok(u64::MAX), circuit.tick(2));
    assert_eq!(Ok(9), TestProbe::get_value(&mut circuit, 1));
}

#[test]
fn unread_data_response_blocks_tick() {
    let mut circuit = Circuit::new(vec![probe("p", 1, PinDirection::Input)], vec![]);
    let request = DeviceData::ProbeGetRequest(TestProbeGetDataRequest::new());
    assert_eq!(Ok(()), circuit.send_device_data(0, request));
    assert_eq!(Err(CircuitError::UnexpectedData { device: 0 }), circuit.tick(1));
    assert_eq!(0, circuit.get_last_tick());
    // reading a response takes the one left in flight
    match circuit.recv_device_data(0, DeviceData::ProbeSet(TestProbeSetData::input())) {
        Ok(DeviceData::ProbeGetResponse(r)) => assert_eq!(1, r.get_value()),
        other => panic!("unexpected {:?}", other),
    }
    assert_eq!(Ok(u64::MAX), circuit.tick(1));
}

#[test]
fn one_response_per_request() {
    let mut circuit = Circuit::new(vec![probe("p", 3, PinDirection::Input)], vec![]);
    for _ in 0..3 {
        assert_eq!(Ok(3), TestProbe::get_value(&mut circuit, 0));
    }
    let set = DeviceData::ProbeSet(TestProbeSetData::new(4, PinDirection::Input));
    assert!(matches!(
        circuit.recv_device_data(0, set),
        Err(CircuitError::NoResponse { device: 0 })
    ));
    assert_eq!(Ok(4), TestProbe::get_value(&mut circuit, 0));
}

#[test]
fn set_then_get_round_trip() {
    let mut circuit = Circuit::new(vec![probe("p", 0, PinDirection::Output)], vec![]);
    let set = TestProbeSetData::new(0x1234, PinDirection::Input);
    assert_eq!(Ok(()), circuit.send_device_data(0, DeviceData::ProbeSet(set)));
    match circuit.recv_device_data(0, DeviceData::ProbeGetRequest(TestProbeGetDataRequest::new())) {
        Ok(DeviceData::ProbeGetResponse(r)) => assert_eq!(0x1234, r.get_value()),
        other => panic!("unexpected {:?}", other),
    }
    assert_eq!(Ok(()), TestProbe::set_input(&mut circuit, 0));
    assert_eq!(Ok(0), TestProbe::get_value(&mut circuit, 0));
}

#[test]
fn unchanged_circuit_repeats_its_answer() {
    let devices = vec![probe("drive", 1, PinDirection::Output), probe("sink", 0, PinDirection::Input)];
    let nets = vec![Net::new(vec![NetConnection::new(0, 1), NetConnection::new(1, 1)])];
    let mut circuit = Circuit::new(devices, nets);
    let first = circuit.tick(10).unwrap();
    assert_eq!(first, circuit.tick(11).unwrap());
    assert_eq!(first, circuit.tick(12).unwrap());
}

#[test]
fn tick_not_after_last_fails() {
    let mut circuit = Circuit::<DeviceKind>::new(vec![], vec![]);
    assert_eq!(
        Err(CircuitError::TickNotIncreasing { tick: 0, last_tick: 0 }),
        circuit.tick(0)
    );
    assert_eq!(Ok(u64::MAX), circuit.tick(5));
    assert_eq!(
        Err(CircuitError::TickNotIncreasing { tick: 5, last_tick: 5 }),
        circuit.tick(5)
    );
    assert_eq!(
        Err(CircuitError::TickNotIncreasing { tick: 3, last_tick: 5 }),
        circuit.tick(3)
    );
    assert_eq!(5, circuit.get_last_tick());
}

#[test]
fn empty_circuit_reports_max() {
    let mut circuit = Circuit::<DeviceKind>::new(vec![], vec![]);
    assert_eq!(0, circuit.device_count());
    assert_eq!(Ok(u64::MAX), circuit.tick(1));
    assert_eq!(Ok(u64::MAX), circuit.tick(2));
}

#[test]
fn single_connection_net_propagates_nothing() {
    let devices = vec![probe("drive", 6, PinDirection::Output), probe("sink", 0, PinDirection::Input)];
    let nets = vec![Net::new(vec![NetConnection::new(0, 1)]), Net::new(vec![NetConnection::new(1, 1)])];
    let mut circuit = Circuit::new(devices, nets);
    assert_eq!(Ok(u64::MAX), circuit.tick(1));
    assert_eq!(Ok(0), TestProbe::get_value(&mut circuit, 1));
}

#[test]
fn self_connection_is_not_notified() {
    // the driving probe is listed twice; only the sink sees the value
    let devices = vec![probe("drive", 6, PinDirection::Output), probe("sink", 0, PinDirection::Input)];
    let nets = vec![Net::new(vec![
        NetConnection::new(0, 1),
        NetConnection::new(0, 1),
        NetConnection::new(1, 1),
    ])];
    let mut circuit = Circuit::new(devices, nets);
    assert_eq!(Ok(u64::MAX), circuit.tick(1));
    assert_eq!(Ok(6), TestProbe::get_value(&mut circuit, 1));
    assert_eq!(Ok(6), TestProbe::get_value(&mut circuit, 0));
}

#[test]
fn input_announcements_are_not_propagated() {
    let devices = vec![probe("a", 8, PinDirection::Input), probe("b", 0, PinDirection::Input)];
    let nets = vec![Net::new(vec![NetConnection::new(0, 1), NetConnection::new(1, 1)])];
    let mut circuit = Circuit::new(devices, nets);
    assert_eq!(Ok(u64::MAX), circuit.tick(1));
    assert_eq!(Ok(0), TestProbe::get_value(&mut circuit, 1));
}

#[test]
fn data_to_stopped_worker_is_refused() {
    let mut circuit = Circuit::new(vec![probe("p", 0, PinDirection::Input)], vec![]);
    let unknown = DeviceData::ProbeGetResponse(circuit_sim::device::TestProbeGetDataResponse::new(1));
    assert_eq!(Ok(()), circuit.send_device_data(0, unknown));
    assert_eq!(
        Err(CircuitError::WorkerLost { device: 0 }),
        circuit.send_device_data(0, DeviceData::ProbeSet(TestProbeSetData::output_high()))
    );
    assert_eq!(Err(CircuitError::WorkerLost { device: 0 }), circuit.tick(1));
}

#[test]
fn device_names_and_pin_counts() {
    let gate = DeviceKind::AndGate(circuit_sim::device::AndGate::new("g"));
    let p = probe("probe", 0, PinDirection::Input);
    assert_eq!("g", gate.get_name());
    assert_eq!(3, gate.get_pin_count());
    assert_eq!("probe", p.get_name());
    assert_eq!(1, p.get_pin_count());
}

#[test]
fn repeated_net_delivers_twice_harmlessly() {
    let devices = vec![probe("drive", 2, PinDirection::Output), probe("sink", 0, PinDirection::Input)];
    let net = || Net::new(vec![NetConnection::new(0, 1), NetConnection::new(1, 1)]);
    let mut circuit = Circuit::new(devices, vec![net(), net()]);
    assert_eq!(Ok(u64::MAX), circuit.tick(1));
    assert_eq!(Ok(2), TestProbe::get_value(&mut circuit, 1));
    TestProbe::set_output_low(&mut circuit, 0).unwrap();
    assert_eq!(Ok(u64::MAX), circuit.tick(2));
    assert_eq!(Ok(0), TestProbe::get_value(&mut circuit, 1));
}

#[test]
fn change_settles_through_a_chain_in_one_tick() {
    // two gates in series, both listed before the probes that feed them
    let devices = vec![
        DeviceKind::AndGate(circuit_sim::device::AndGate::new("second")),
        DeviceKind::AndGate(circuit_sim::device::AndGate::new("first")),
        probe("a", u32::MAX, PinDirection::Output),
        probe("b", u32::MAX, PinDirection::Output),
        probe("c", u32::MAX, PinDirection::Output),
        probe("out", 0, PinDirection::Input),
    ];
    let nets = vec![
        Net::new(vec![NetConnection::new(1, 1), NetConnection::new(2, 1)]),
        Net::new(vec![NetConnection::new(1, 2), NetConnection::new(3, 1)]),
        Net::new(vec![NetConnection::new(1, 3), NetConnection::new(0, 1)]),
        Net::new(vec![NetConnection::new(0, 2), NetConnection::new(4, 1)]),
        Net::new(vec![NetConnection::new(0, 3), NetConnection::new(5, 1)]),
    ];
    let mut circuit = Circuit::new(devices, nets);
    assert_eq!(Ok(u64::MAX), circuit.tick(1));
    assert_eq!(Ok(u32::MAX), TestProbe::get_value(&mut circuit, 5));
    TestProbe::set_output_low(&mut circuit, 3).unwrap();
    assert_eq!(Ok(u64::MAX), circuit.tick(2));
    assert_eq!(Ok(0), TestProbe::get_value(&mut circuit, 5));
}
