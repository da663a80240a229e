use modsim::behavior::DeviceBehavior;
use modsim::encoding::{DataType, Encoding, Value};
use modsim::engine::{ModbusRequest, ModbusResponse};
use modsim::model::{DeviceType, DeviceTypeId, RegisterId, RegisterKind, RegisterPoint};
use modsim::semantics::{
    affected_registers, decode_read, decode_write_request, hex_of, request_range,
    summarize_request, summarize_response,
};

fn point(kind: RegisterKind, address: u16, data_type: DataType, name: &str) -> RegisterPoint {
    RegisterPoint {
        id: RegisterId::new(),
        kind,
        address,
        name: name.to_string(),
        description: String::new(),
        data_type,
        encoding: Encoding::BigEndian,
        byte_length: None,
        default_value: Value::U16(0),
    }
}

fn device_type() -> DeviceType {
    DeviceType {
        id: DeviceTypeId::new(),
        name: "t".into(),
        description: String::new(),
        registers: vec![
            point(RegisterKind::Holding, 0, DataType::U16, "a"),
            point(RegisterKind::Holding, 1, DataType::I32, "b"),
            point(RegisterKind::Holding, 3, DataType::U16, "c"),
            point(RegisterKind::Coil, 0, DataType::U16, "k0"),
            point(RegisterKind::Coil, 1, DataType::U16, "k1"),
        ],
        behavior: DeviceBehavior::default(),
    }
}

#[test]
fn request_ranges() {
    assert_eq!(
        request_range(&ModbusRequest::ReadInputRegisters { address: 7, quantity: 3 }),
        (RegisterKind::Input, 7, 3)
    );
    assert_eq!(
        request_range(&ModbusRequest::WriteSingleCoil { address: 2, value: true }),
        (RegisterKind::Coil, 2, 1)
    );
    assert_eq!(
        request_range(&ModbusRequest::WriteMultipleRegisters { address: 9, values: vec![1, 2, 3] }),
        (RegisterKind::Holding, 9, 3)
    );
}

#[test]
fn affected_registers_only_count_fully_covered_points() {
    let dt = device_type();
    // [0, 2) covers `a` fully, `b` (words 1..3) only partly
    let ids = affected_registers(&ModbusRequest::ReadHoldingRegisters { address: 0, quantity: 2 }, &dt);
    assert_eq!(ids, vec![dt.registers[0].id]);
    let ids = affected_registers(&ModbusRequest::ReadHoldingRegisters { address: 0, quantity: 4 }, &dt);
    assert_eq!(ids, vec![dt.registers[0].id, dt.registers[1].id, dt.registers[2].id]);
    let ids = affected_registers(&ModbusRequest::WriteSingleCoil { address: 1, value: true }, &dt);
    assert_eq!(ids, vec![dt.registers[4].id]);
}

#[test]
fn decode_read_reports_points_inside_the_range() {
    let dt = device_type();
    let req = ModbusRequest::ReadHoldingRegisters { address: 0, quantity: 3 };
    let resp = ModbusResponse::ReadHoldingRegisters(vec![5, 0xFFFF, 0xFFFE]);
    let d = decode_read(&req, &resp, &dt);
    assert_eq!(d.len(), 2);
    assert_eq!((d[0].register_name.as_str(), d[0].address, d[0].data_type.as_str()), ("a", 0, "U16"));
    assert_eq!(d[0].value, Some(Value::U16(5)));
    assert_eq!((d[1].register_name.as_str(), d[1].data_type.as_str()), ("b", "I32"));
    assert_eq!(d[1].value, Some(Value::I32(-2)));
}

#[test]
fn decode_read_of_coils_and_mismatched_pairs() {
    let dt = device_type();
    let req = ModbusRequest::ReadCoils { address: 0, quantity: 2 };
    let d = decode_read(&req, &ModbusResponse::ReadCoils(vec![true, false]), &dt);
    assert_eq!(d.len(), 2);
    assert_eq!(d[0].data_type, "COIL");
    assert_eq!(d[0].value, Some(Value::Bool(true)));
    assert_eq!(d[1].value, Some(Value::Bool(false)));
    let ack = ModbusResponse::WriteSingleCoil { address: 0, value: true };
    assert!(decode_read(&req, &ack, &dt).is_empty());
    let write = ModbusRequest::WriteSingleRegister { address: 0, value: 1 };
    assert!(decode_read(&write, &ModbusResponse::ReadCoils(vec![true]), &dt).is_empty());
}

#[test]
fn decode_write_request_values() {
    let dt = device_type();
    let d = decode_write_request(&ModbusRequest::WriteSingleRegister { address: 3, value: 42 }, &dt);
    assert_eq!(d.len(), 1);
    assert_eq!(d[0].register_name, "c");
    assert_eq!(d[0].value, Some(Value::U16(42)));
    let d = decode_write_request(
        &ModbusRequest::WriteMultipleCoils { address: 0, values: vec![false, true] },
        &dt,
    );
    assert_eq!(d.len(), 2);
    assert_eq!(d[1].register_name, "k1");
    assert_eq!(d[1].value, Some(Value::Bool(true)));
    assert!(decode_write_request(&ModbusRequest::ReadCoils { address: 0, quantity: 1 }, &dt).is_empty());
}

#[test]
fn request_summaries() {
    assert_eq!(
        summarize_request(&ModbusRequest::ReadHoldingRegisters { address: 0, quantity: 2 }),
        "Read Holding Registers start=0 len=2"
    );
    assert_eq!(
        summarize_request(&ModbusRequest::WriteSingleRegister { address: 12, value: 4660 }),
        "Write Single Register addr=12 value=4660 (0x1234)"
    );
    assert_eq!(
        summarize_request(&ModbusRequest::WriteSingleCoil { address: 1, value: false }),
        "Write Single Coil addr=1 value=false"
    );
    assert_eq!(
        summarize_request(&ModbusRequest::WriteMultipleCoils { address: 65535, values: vec![true; 10] }),
        "Write Multiple Coils start=65535 len=10"
    );
    assert_eq!(
        summarize_request(&ModbusRequest::ReadDiscreteInputs { address: 100, quantity: 8 }),
        "Read Discrete Inputs start=100 len=8"
    );
}

#[test]
fn response_summaries() {
    let read = ModbusRequest::ReadInputRegisters { address: 0, quantity: 2 };
    assert_eq!(
        summarize_response(&read, &ModbusResponse::ReadInputRegisters(vec![1, 2])),
        "2 words returned"
    );
    let coils = ModbusRequest::ReadCoils { address: 0, quantity: 3 };
    assert_eq!(
        summarize_response(&coils, &ModbusResponse::ReadCoils(vec![true, true, false])),
        "3 bits returned"
    );
    assert_eq!(summarize_response(&coils, &ModbusResponse::ReadHoldingRegisters(vec![1])), "");
    assert_eq!(
        summarize_response(&read, &ModbusResponse::WriteSingleCoil { address: 4, value: true }),
        "Ack Write Coil addr=4 value=true"
    );
    assert_eq!(
        summarize_response(&read, &ModbusResponse::WriteMultipleRegisters { address: 7, quantity: 2 }),
        "Ack Write Registers start=7 len=2"
    );
}

#[test]
fn hex_dump_of_frames() {
    assert_eq!(hex_of(&[0x01, 0x03, 0x00, 0x0A, 0xFF]), "01 03 00 0A FF");
    assert_eq!(hex_of(&[0xAB]), "AB");
    assert_eq!(hex_of(&[]), "");
}
