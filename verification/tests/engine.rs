use std::collections::BTreeMap;

use modsim::behavior::{DeviceBehavior, MissingBlockBehavior};
use modsim::encoding::{DataType, Encoding, Value};
use modsim::engine::{
    apply_state_update, process_request, ModbusException, ModbusRequest, ModbusResponse, Outcome,
};
use modsim::model::{
    Device, DeviceId, DeviceType, DeviceTypeId, RegisterId, RegisterKind, RegisterPoint,
};

fn make(behavior: DeviceBehavior) -> (Device, DeviceType) {
    let r_id = RegisterId::new();
    let dt = DeviceType {
        id: DeviceTypeId::new(),
        name: "t".into(),
        description: String::new(),
        registers: vec![RegisterPoint {
            id: r_id,
            kind: RegisterKind::Holding,
            address: 100,
            name: "r1".into(),
            description: String::new(),
            data_type: DataType::U16,
            encoding: Encoding::BigEndian,
            byte_length: None,
            default_value: Value::U16(0xAAAA),
        }],
        behavior,
    };
    let dev = Device {
        id: DeviceId::new(),
        name: "d1".into(),
        slave_id: 1,
        device_type_id: dt.id,
        behavior_overrides: None,
        register_values: BTreeMap::new(),
    };
    (dev, dt)
}

fn point(kind: RegisterKind, address: u16, data_type: DataType, default_value: Value) -> RegisterPoint {
    RegisterPoint {
        id: RegisterId::new(),
        kind,
        address,
        name: format!("p{address}"),
        description: String::new(),
        data_type,
        encoding: Encoding::BigEndian,
        byte_length: None,
        default_value,
    }
}

fn make_with(registers: Vec<RegisterPoint>, behavior: DeviceBehavior) -> (Device, DeviceType) {
    let dt = DeviceType {
        id: DeviceTypeId::new(),
        name: "t".into(),
        description: String::new(),
        registers,
        behavior,
    };
    let dev = Device {
        id: DeviceId::new(),
        name: "d".into(),
        slave_id: 1,
        device_type_id: dt.id,
        behavior_overrides: None,
        register_values: BTreeMap::new(),
    };
    (dev, dt)
}

#[test]
fn read_existing_register_returns_default() {
    let (dev, dt) = make(DeviceBehavior::default());
    let req = ModbusRequest::ReadHoldingRegisters {
        address: 100,
        quantity: 1,
    };
    let out = process_request(&req, &dev, &dt, &dt.behavior);
    assert_eq!(
        out.outcome,
        Outcome::Response(ModbusResponse::ReadHoldingRegisters(vec![0xAAAA]))
    );
}

#[test]
fn missing_full_block_returns_exception() {
    let (dev, dt) = make(DeviceBehavior::default());
    let req = ModbusRequest::ReadHoldingRegisters {
        address: 0,
        quantity: 5,
    };
    let out = process_request(&req, &dev, &dt, &dt.behavior);
    assert_eq!(
        out.outcome,
        Outcome::Exception(ModbusException::IllegalDataAddress)
    );
}

#[test]
fn missing_partial_block_returns_exception() {
    let (dev, dt) = make(DeviceBehavior::default());
    let req = ModbusRequest::ReadHoldingRegisters {
        address: 100,
        quantity: 5,
    };
    let out = process_request(&req, &dev, &dt, &dt.behavior);
    assert_eq!(
        out.outcome,
        Outcome::Exception(ModbusException::IllegalDataAddress)
    );
}

#[test]
fn zero_fill_on_partial_block() {
    let b = DeviceBehavior {
        missing_partial_block: MissingBlockBehavior::ZeroFill,
        ..Default::default()
    };
    let (dev, dt) = make(b.clone());
    let req = ModbusRequest::ReadHoldingRegisters {
        address: 100,
        quantity: 3,
    };
    let out = process_request(&req, &dev, &dt, &b);
    assert_eq!(
        out.outcome,
        Outcome::Response(ModbusResponse::ReadHoldingRegisters(vec![0xAAAA, 0, 0]))
    );
}

#[test]
fn disabled_function_returns_illegal_function() {
    let b = DeviceBehavior {
        disabled_function_codes: vec![3],
        ..Default::default()
    };
    let (dev, dt) = make(b.clone());
    let req = ModbusRequest::ReadHoldingRegisters {
        address: 100,
        quantity: 1,
    };
    let out = process_request(&req, &dev, &dt, &b);
    assert_eq!(
        out.outcome,
        Outcome::Exception(ModbusException::IllegalFunction)
    );
}

#[test]
fn max_registers_enforced() {
    let b = DeviceBehavior {
        max_registers_per_request: Some(1),
        missing_full_block: MissingBlockBehavior::ZeroFill,
        ..Default::default()
    };
    let (dev, dt) = make(b.clone());
    let req = ModbusRequest::ReadHoldingRegisters {
        address: 0,
        quantity: 2,
    };
    let out = process_request(&req, &dev, &dt, &b);
    assert_eq!(
        out.outcome,
        Outcome::Exception(ModbusException::IllegalDataValue)
    );
}

#[test]
fn timeout_behavior_returns_silence() {
    let b = DeviceBehavior {
        missing_full_block: MissingBlockBehavior::Timeout,
        ..Default::default()
    };
    let (dev, dt) = make(b.clone());
    let req = ModbusRequest::ReadHoldingRegisters {
        address: 0,
        quantity: 1,
    };
    let out = process_request(&req, &dev, &dt, &b);
    assert_eq!(out.outcome, Outcome::Silence);
}

#[test]
fn write_single_register_updates_state() {
    let (mut dev, dt) = make(DeviceBehavior::default());
    let req = ModbusRequest::WriteSingleRegister {
        address: 100,
        value: 0x1234,
    };
    let out = process_request(&req, &dev, &dt, &dt.behavior);
    apply_state_update(&mut dev, &dt, &out.state_update);
    let (_, r_id) = (dt.registers[0].address, dt.registers[0].id);
    assert_eq!(dev.register_values.get(&r_id.0), Some(&Value::U16(0x1234)));
}

#[test]
fn full_block_zero_fill_answers_zeros() {
    let b = DeviceBehavior {
        missing_full_block: MissingBlockBehavior::ZeroFill,
        ..Default::default()
    };
    let (dev, dt) = make(b.clone());
    let req = ModbusRequest::ReadHoldingRegisters { address: 0, quantity: 2 };
    let out = process_request(&req, &dev, &dt, &b);
    assert_eq!(out.outcome, Outcome::Response(ModbusResponse::ReadHoldingRegisters(vec![0, 0])));
}

#[test]
fn slave_failure_behavior_on_missing_block() {
    let b = DeviceBehavior {
        missing_full_block: MissingBlockBehavior::SlaveDeviceFailure,
        missing_partial_block: MissingBlockBehavior::IllegalFunction,
        ..Default::default()
    };
    let (dev, dt) = make(b.clone());
    let full = ModbusRequest::ReadHoldingRegisters { address: 0, quantity: 2 };
    assert_eq!(
        process_request(&full, &dev, &dt, &b).outcome,
        Outcome::Exception(ModbusException::SlaveDeviceFailure)
    );
    let partial = ModbusRequest::ReadHoldingRegisters { address: 99, quantity: 2 };
    assert_eq!(
        process_request(&partial, &dev, &dt, &b).outcome,
        Outcome::Exception(ModbusException::IllegalFunction)
    );
}

#[test]
fn u32_point_reads_as_two_words_and_writes_back() {
    let regs = vec![point(RegisterKind::Holding, 10, DataType::U32, Value::U32(0x0001_0002))];
    let (mut dev, dt) = make_with(regs, DeviceBehavior::default());
    let read = ModbusRequest::ReadHoldingRegisters { address: 10, quantity: 2 };
    assert_eq!(
        process_request(&read, &dev, &dt, &dt.behavior).outcome,
        Outcome::Response(ModbusResponse::ReadHoldingRegisters(vec![1, 2]))
    );
    let write = ModbusRequest::WriteMultipleRegisters { address: 10, values: vec![0xAAAA, 0xBBBB] };
    let out = process_request(&write, &dev, &dt, &dt.behavior);
    assert_eq!(
        out.outcome,
        Outcome::Response(ModbusResponse::WriteMultipleRegisters { address: 10, quantity: 2 })
    );
    apply_state_update(&mut dev, &dt, &out.state_update);
    assert_eq!(dev.register_values.get(&dt.registers[0].id.0), Some(&Value::U32(0xAAAA_BBBB)));
    assert_eq!(
        process_request(&read, &dev, &dt, &dt.behavior).outcome,
        Outcome::Response(ModbusResponse::ReadHoldingRegisters(vec![0xAAAA, 0xBBBB]))
    );
}

#[test]
fn coil_write_then_read_back() {
    let regs = vec![
        point(RegisterKind::Coil, 0, DataType::U16, Value::Bool(false)),
        point(RegisterKind::Coil, 1, DataType::U16, Value::Bool(true)),
    ];
    let (mut dev, dt) = make_with(regs, DeviceBehavior::default());
    let read = ModbusRequest::ReadCoils { address: 0, quantity: 2 };
    assert_eq!(
        process_request(&read, &dev, &dt, &dt.behavior).outcome,
        Outcome::Response(ModbusResponse::ReadCoils(vec![false, true]))
    );
    let write = ModbusRequest::WriteSingleCoil { address: 0, value: true };
    let out = process_request(&write, &dev, &dt, &dt.behavior);
    assert_eq!(out.outcome, Outcome::Response(ModbusResponse::WriteSingleCoil { address: 0, value: true }));
    apply_state_update(&mut dev, &dt, &out.state_update);
    assert_eq!(dev.register_values.get(&dt.registers[0].id.0), Some(&Value::Bool(true)));
    assert_eq!(
        process_request(&read, &dev, &dt, &dt.behavior).outcome,
        Outcome::Response(ModbusResponse::ReadCoils(vec![true, true]))
    );
}

#[test]
fn input_table_is_separate_from_holding() {
    let regs = vec![point(RegisterKind::Input, 0, DataType::U16, Value::U16(5))];
    let (dev, dt) = make_with(regs, DeviceBehavior::default());
    let read = ModbusRequest::ReadInputRegisters { address: 0, quantity: 1 };
    assert_eq!(
        process_request(&read, &dev, &dt, &dt.behavior).outcome,
        Outcome::Response(ModbusResponse::ReadInputRegisters(vec![5]))
    );
    let read_holding = ModbusRequest::ReadHoldingRegisters { address: 0, quantity: 1 };
    assert_eq!(
        process_request(&read_holding, &dev, &dt, &dt.behavior).outcome,
        Outcome::Exception(ModbusException::IllegalDataAddress)
    );
}

#[test]
fn function_code_and_write_flags() {
    assert_eq!(ModbusRequest::ReadCoils { address: 0, quantity: 1 }.function_code(), 1);
    assert_eq!(ModbusRequest::ReadDiscreteInputs { address: 0, quantity: 1 }.function_code(), 2);
    assert_eq!(ModbusRequest::ReadHoldingRegisters { address: 0, quantity: 1 }.function_code(), 3);
    assert_eq!(ModbusRequest::ReadInputRegisters { address: 0, quantity: 1 }.function_code(), 4);
    assert_eq!(ModbusRequest::WriteSingleCoil { address: 0, value: true }.function_code(), 5);
    assert_eq!(ModbusRequest::WriteSingleRegister { address: 0, value: 1 }.function_code(), 6);
    assert_eq!(ModbusRequest::WriteMultipleCoils { address: 0, values: vec![true] }.function_code(), 15);
    assert_eq!(ModbusRequest::WriteMultipleRegisters { address: 0, values: vec![1] }.function_code(), 16);
    assert!(ModbusRequest::WriteSingleCoil { address: 0, value: true }.is_write());
    assert!(!ModbusRequest::ReadCoils { address: 0, quantity: 1 }.is_write());
    assert_eq!(ModbusRequest::WriteMultipleCoils { address: 0, values: vec![true; 3] }.quantity(), 3);
    assert_eq!(ModbusException::SlaveDeviceFailure.code(), 4);
}

#[test]
fn zero_fill_single_writes_to_missing_addresses_succeed_without_effect() {
    let b = DeviceBehavior {
        missing_full_block: MissingBlockBehavior::ZeroFill,
        ..Default::default()
    };
    let (dev, dt) = make(b.clone());
    let reg = ModbusRequest::WriteSingleRegister { address: 7, value: 0xBEEF };
    let out = process_request(&reg, &dev, &dt, &b);
    assert_eq!(
        out.outcome,
        Outcome::Response(ModbusResponse::WriteSingleRegister { address: 7, value: 0xBEEF })
    );
    assert!(out.state_update.writes.is_empty());
    let coil = ModbusRequest::WriteSingleCoil { address: 7, value: true };
    let out = process_request(&coil, &dev, &dt, &b);
    assert_eq!(
        out.outcome,
        Outcome::Response(ModbusResponse::WriteSingleCoil { address: 7, value: true })
    );
    assert!(out.state_update.writes.is_empty());
}

#[test]
fn byte_length_is_ignored_by_numeric_points() {
    let mut p = point(RegisterKind::Holding, 10, DataType::U32, Value::U32(0x0001_0002));
    p.byte_length = Some(usize::MAX);
    let (mut dev, dt) = make_with(vec![p], DeviceBehavior::default());
    let req = ModbusRequest::ReadHoldingRegisters { address: 10, quantity: 2 };
    let out = process_request(&req, &dev, &dt, &dt.behavior);
    assert_eq!(out.outcome, Outcome::Response(ModbusResponse::ReadHoldingRegisters(vec![1, 2])));
    let w = ModbusRequest::WriteMultipleRegisters { address: 10, values: vec![0xAB, 0xCD] };
    let out = process_request(&w, &dev, &dt, &dt.behavior);
    apply_state_update(&mut dev, &dt, &out.state_update);
    assert_eq!(
        dev.register_values.get(&dt.registers[0].id.0),
        Some(&Value::U32(0x00AB_00CD))
    );
}
