use circuit_sim::device::AndGate;
use circuit_sim::device::DeviceKind;
use circuit_sim::device::TestProbe;
use circuit_sim::Circuit;
use circuit_sim::CircuitError;
use circuit_sim::Net;
use circuit_sim::NetConnection;
use circuit_sim::PinDirection;

const DEVICE_AND_GATE: usize = 0;
const DEVICE_INPUT1: usize = 1;
const DEVICE_INPUT2: usize = 2;
const DEVICE_OUTPUT: usize = 3;

fn and_circuit() -> Circuit<DeviceKind> {
    let and_gate = AndGate::new("and");
    let input1_tp = TestProbe::new("input1_tp", 0, PinDirection::Output);
    let input2_tp = TestProbe::new("input2_tp", 0, PinDirection::Output);
    let output_tp = TestProbe::new("output_tp", 0, PinDirection::Input);
    let devices: Vec<DeviceKind> = vec![
        DeviceKind::AndGate(and_gate),
        DeviceKind::TestProbe(input1_tp),
        DeviceKind::TestProbe(input2_tp),
        DeviceKind::TestProbe(output_tp),
    ];
    let net0 = Net::new(vec![
        NetConnection::new(DEVICE_AND_GATE, AndGate::PIN_INPUT1),
        NetConnection::new(DEVICE_INPUT1, TestProbe::PIN),
    ]);
    let net1 = Net::new(vec![
        NetConnection::new(DEVICE_AND_GATE, AndGate::PIN_INPUT2),
        NetConnection::new(DEVICE_INPUT2, TestProbe::PIN),
    ]);
    let net2 = Net::new(vec![
        NetConnection::new(DEVICE_AND_GATE, AndGate::PIN_OUTPUT),
        NetConnection::new(DEVICE_OUTPUT, TestProbe::PIN),
    ]);
    Circuit::new(devices, vec![net0, net1, net2])
}

#[test]
fn it_works() {
    let mut circuit = and_circuit();
    let mut next_tick = circuit.tick(1).unwrap();
    assert_eq!(u64::MAX, next_tick);

    TestProbe::set_output_high(&mut circuit, DEVICE_INPUT1).unwrap();
    next_tick = circuit.tick(2).unwrap();
    assert_eq!(u64::MAX, next_tick);
    assert_eq!(0, TestProbe::get_value(&mut circuit, DEVICE_OUTPUT).unwrap());

    TestProbe::set_output_high(&mut circuit, DEVICE_INPUT2).unwrap();
    next_tick = circuit.tick(3).unwrap();
    assert_eq!(u64::MAX, next_tick);
    assert_eq!(u32::MAX, TestProbe::get_value(&mut circuit, DEVICE_OUTPUT).unwrap());
}

#[test]
fn scenario_initial_tick_reads_false() {
    let mut circuit = and_circuit();
    assert_eq!(Ok(u64::MAX), circuit.tick(1));
    assert_eq!(Ok(0), TestProbe::get_value(&mut circuit, DEVICE_OUTPUT));
}

#[test]
fn scenario_one_input_high_keeps_output_low() {
    let mut circuit = and_circuit();
    assert_eq!(Ok(u64::MAX), circuit.tick(1));
    assert_eq!(Ok(()), TestProbe::set_output_high(&mut circuit, DEVICE_INPUT1));
    assert_eq!(Ok(u64::MAX), circuit.tick(2));
    assert_eq!(Ok(0), TestProbe::get_value(&mut circuit, DEVICE_OUTPUT));
}

#[test]
fn scenario_full_sequence() {
    let mut circuit = and_circuit();
    assert_eq!(Ok(u64::MAX), circuit.tick(1));
    assert_eq!(Ok(0), TestProbe::get_value(&mut circuit, DEVICE_OUTPUT));

    TestProbe::set_output_high(&mut circuit, DEVICE_INPUT1).unwrap();
    assert_eq!(Ok(u64::MAX), circuit.tick(2));
    assert_eq!(Ok(0), TestProbe::get_value(&mut circuit, DEVICE_OUTPUT));

    TestProbe::set_output_high(&mut circuit, DEVICE_INPUT2).unwrap();
    assert_eq!(Ok(u64::MAX), circuit.tick(3));
    assert_eq!(Ok(0xFFFF_FFFF), TestProbe::get_value(&mut circuit, DEVICE_OUTPUT));

    TestProbe::set_output_low(&mut circuit, DEVICE_INPUT1).unwrap();
    assert_eq!(Ok(u64::MAX), circuit.tick(4));
    assert_eq!(Ok(0), TestProbe::get_value(&mut circuit, DEVICE_OUTPUT));

    assert_eq!(
        Err(CircuitError::TickNotIncreasing { tick: 4, last_tick: 4 }),
        circuit.tick(4)
    );
    assert_eq!(4, circuit.get_last_tick());

    circuit.shutdown();
    assert_eq!(
        Err(CircuitError::WorkerLost { device: 0 }),
        circuit.tick(5)
    );
}

#[test]
fn scenario_shutdown_after_sequence() {
    let mut circuit = and_circuit();
    for t in 1..5u64 {
        if t == 2 {
            TestProbe::set_output_high(&mut circuit, DEVICE_INPUT1).unwrap();
        }
        if t == 3 {
            TestProbe::set_output_high(&mut circuit, DEVICE_INPUT2).unwrap();
        }
        if t == 4 {
            TestProbe::set_output_low(&mut circuit, DEVICE_INPUT1).unwrap();
        }
        assert_eq!(Ok(u64::MAX), circuit.tick(t));
    }
    circuit.shutdown();
    for d in 0..4usize {
        assert_eq!(
            Err(CircuitError::WorkerLost { device: d }),
            TestProbe::get_value(&mut circuit, d)
        );
    }
    // a second shutdown finds every worker already stopped
    circuit.shutdown();
    assert_eq!(4, circuit.device_count());
}

#[test]
fn and_gate_feeding_its_own_input_settles() {
    // the output drives input one; input two comes from a probe
    let devices = vec![
        DeviceKind::AndGate(AndGate::new("latch")),
        DeviceKind::TestProbe(TestProbe::new("in", 0, PinDirection::Output)),
        DeviceKind::TestProbe(TestProbe::new("out", 0, PinDirection::Input)),
    ];
    let nets = vec![
        Net::new(vec![
            NetConnection::new(0, AndGate::PIN_OUTPUT),
            NetConnection::new(0, AndGate::PIN_INPUT1),
            NetConnection::new(2, TestProbe::PIN),
        ]),
        Net::new(vec![
            NetConnection::new(0, AndGate::PIN_INPUT2),
            NetConnection::new(1, TestProbe::PIN),
        ]),
    ];
    let mut circuit = Circuit::new(devices, nets);
    assert_eq!(Ok(u64::MAX), circuit.tick(1));
    TestProbe::set_output_high(&mut circuit, 1).unwrap();
    assert_eq!(Ok(u64::MAX), circuit.tick(2));
    assert_eq!(Ok(0), TestProbe::get_value(&mut circuit, 2));
    assert_eq!(Ok(u64::MAX), circuit.tick(3));
    assert_eq!(Ok(0), TestProbe::get_value(&mut circuit, 2));
}

#[test]
fn and_gate_stops_on_data() {
    let mut circuit = and_circuit();
    assert_eq!(Err(CircuitError::NoResponse { device: 0 }), TestProbe::get_value(&mut circuit, 0));
    assert_eq!(Err(CircuitError::WorkerLost { device: 0 }), circuit.tick(1));
    assert_eq!(0, circuit.get_last_tick());
}
