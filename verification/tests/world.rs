use std::collections::BTreeMap;

use modsim::behavior::DeviceBehavior;
use modsim::dispatch::{dispatch_pdu, DispatchOut};
use modsim::encoding::{DataType, Encoding, Value};
use modsim::model::{Context, ContextId, DeviceId, DeviceTypeId, RegisterId, RegisterKind, RegisterPoint, World};
use modsim::pdu::build_exception;
use modsim::engine::ModbusException;
use modsim::world::WorldError;

fn holding(address: u16, default: u16) -> RegisterPoint {
    RegisterPoint {
        id: RegisterId::new(),
        kind: RegisterKind::Holding,
        address,
        name: format!("h{address}"),
        description: String::new(),
        data_type: DataType::U16,
        encoding: Encoding::BigEndian,
        byte_length: None,
        default_value: Value::U16(default),
    }
}

/// A world with one context, one type with a holding register at 10, and
/// one device of that type at slave 1.
fn small_world() -> (World, DeviceTypeId, RegisterId) {
    let mut w = World::default();
    let ctx = w.create_context("lab".to_string());
    w.switch_context(ctx).unwrap();
    let t = w.create_device_type("meter".to_string(), None);
    let p = holding(10, 0x0102);
    let rid = p.id;
    w.upsert_register(t, p).unwrap();
    w.create_device("m1".to_string(), 1, t).unwrap();
    (w, t, rid)
}

#[test]
fn dispatch_reads_the_type_default() {
    let (w, _, _) = small_world();
    assert!(w.slave_layout_ok(1));
    let d = dispatch_pdu(&w, 1, &[0x03, 0x00, 0x0A, 0x00, 0x01]);
    assert_eq!(d.out, DispatchOut::Reply(vec![0x03, 0x02, 0x01, 0x02]));
    assert!(d.device_id.is_some());
    assert!(d.new_values.is_none());
}

#[test]
fn dispatch_unknown_slave_is_silent() {
    let (w, _, _) = small_world();
    let d = dispatch_pdu(&w, 9, &[0x03, 0x00, 0x0A, 0x00, 0x01]);
    assert_eq!(d.out, DispatchOut::Silence);
    assert!(d.device_id.is_none());
}

#[test]
fn dispatch_unparseable_pdu_is_illegal_function() {
    let (w, _, _) = small_world();
    let d = dispatch_pdu(&w, 1, &[0x2B, 0x0E]);
    assert_eq!(d.out, DispatchOut::Reply(build_exception(0x2B, ModbusException::IllegalFunction)));
    assert_eq!(d.out, DispatchOut::Reply(vec![0xAB, 0x01]));
}

#[test]
fn dispatch_write_then_store_then_read() {
    let (mut w, _, rid) = small_world();
    let d = dispatch_pdu(&w, 1, &[0x06, 0x00, 0x0A, 0xBE, 0xEF]);
    assert_eq!(d.out, DispatchOut::Reply(vec![0x06, 0x00, 0x0A, 0xBE, 0xEF]));
    let values = d.new_values.expect("a write yields new values");
    assert_eq!(values.get(&rid.0), Some(&Value::U16(0xBEEF)));
    let dev = d.device_id.unwrap();
    assert!(w.set_device_register_values(dev, values));
    let d = dispatch_pdu(&w, 1, &[0x03, 0x00, 0x0A, 0x00, 0x01]);
    assert_eq!(d.out, DispatchOut::Reply(vec![0x03, 0x02, 0xBE, 0xEF]));
}

#[test]
fn set_register_value_is_per_instance() {
    let (mut w, t, rid) = small_world();
    let second = w.create_device("m2".to_string(), 2, t).unwrap();
    w.set_register_value(second, rid, Value::U16(7)).unwrap();
    let a = dispatch_pdu(&w, 1, &[0x03, 0x00, 0x0A, 0x00, 0x01]);
    let b = dispatch_pdu(&w, 2, &[0x03, 0x00, 0x0A, 0x00, 0x01]);
    assert_eq!(a.out, DispatchOut::Reply(vec![0x03, 0x02, 0x01, 0x02]));
    assert_eq!(b.out, DispatchOut::Reply(vec![0x03, 0x02, 0x00, 0x07]));
}

#[test]
fn type_changes_reach_every_instance() {
    let (mut w, t, _) = small_world();
    w.create_device("m2".to_string(), 2, t).unwrap();
    w.upsert_register(t, holding(11, 5)).unwrap();
    for slave in [1u8, 2] {
        let d = dispatch_pdu(&w, slave, &[0x03, 0x00, 0x0B, 0x00, 0x01]);
        assert_eq!(d.out, DispatchOut::Reply(vec![0x03, 0x02, 0x00, 0x05]));
    }
    let behavior = DeviceBehavior { disabled_function_codes: vec![3], ..Default::default() };
    w.update_behavior(t, behavior).unwrap();
    let d = dispatch_pdu(&w, 2, &[0x03, 0x00, 0x0B, 0x00, 0x01]);
    assert_eq!(d.out, DispatchOut::Reply(vec![0x83, 0x01]));
}

#[test]
fn deleting_a_type_in_use_fails() {
    let (mut w, t, _) = small_world();
    assert_eq!(w.delete_device_type(t), Err(WorldError::DeviceTypeInUse));
    assert_eq!(w.device_types.len(), 1);
    let dev = w.resolve_slave(1).unwrap().0.id;
    assert!(w.delete_device(dev));
    assert_eq!(w.delete_device_type(t), Ok(true));
    assert!(w.device_types.is_empty());
    assert_eq!(w.delete_device_type(t), Ok(false));
}

#[test]
fn world_error_paths() {
    let mut w = World::default();
    assert_eq!(
        w.create_device("x".to_string(), 1, DeviceTypeId(42)),
        Err(WorldError::UnknownDeviceType)
    );
    let t = w.create_device_type("t".to_string(), Some("d".to_string()));
    assert_eq!(w.create_device("x".to_string(), 1, t), Err(WorldError::NoActiveContext));
    assert_eq!(w.switch_context(ContextId(7)), Err(WorldError::ContextNotFound));
    assert_eq!(w.rename_device_type(DeviceTypeId(1), "n".to_string(), None), Err(WorldError::NotFound));
    assert_eq!(w.configure_tcp(true, String::new(), 502), Err(WorldError::NoActiveContext));
    assert_eq!(WorldError::DeviceTypeInUse.message(), "device type in use by device instances");
}

#[test]
fn contexts_switch_and_delete() {
    let mut w = World::default();
    let a = w.create_context("a".to_string());
    // the first context becomes the active one
    assert_eq!(w.active_context_id, Some(a));
    let b = w.create_context("b".to_string());
    assert_eq!(w.active_context().unwrap().name, "a");
    w.switch_context(b).unwrap();
    assert_eq!(w.active_context().unwrap().name, "b");
    assert!(w.delete_context(b));
    assert_eq!(w.active_context_id, Some(a));
    assert!(!w.delete_context(b));
    assert!(w.delete_context(a));
    assert_eq!(w.active_context_id, None);
}

#[test]
fn transport_configuration_and_wanted_listeners() {
    let (mut w, _, _) = small_world();
    w.configure_tcp(true, "127.0.0.1".to_string(), 1502).unwrap();
    w.configure_rtu(true, "/dev/ttyS0".to_string(), 19200, "E".to_string(), 7, 2, None).unwrap();
    let (tcp, rtu) = w.wanted_transports();
    let tcp = tcp.unwrap();
    assert_eq!((tcp.bind.as_str(), tcp.port), ("127.0.0.1", 1502));
    let rtu = rtu.unwrap();
    assert_eq!((rtu.device.as_str(), rtu.baud_rate, rtu.data_bits, rtu.stop_bits), ("/dev/ttyS0", 19200, 7, 2));
    w.configure_tcp(false, String::new(), 0).unwrap();
    assert!(w.wanted_transports().0.is_none());
}

#[test]
fn export_and_import_context() {
    let (mut w, t, _) = small_world();
    let ctx = w.active_context_id.unwrap();
    let (c, types) = w.export_context(ctx).unwrap();
    assert_eq!(c, 0);
    assert_eq!(types, vec![0]);
    assert_eq!(w.export_context(ContextId(3)), Err(WorldError::NotFound));
    let copy: Context = Context {
        id: ContextId(5),
        name: "copy".to_string(),
        devices: w.contexts[0].devices.clone(),
        transport: w.contexts[0].transport.clone(),
    };
    let dt = w.device_types[0].clone();
    let new_id = w.import_context(vec![dt], copy);
    assert_eq!(w.contexts.len(), 2);
    assert_ne!(new_id, ctx);
    // the type was already there, so it is not duplicated
    assert_eq!(w.device_types.len(), 1);
    assert_eq!(w.device_types[0].id, t);
}

#[test]
fn register_values_map_is_keyed_by_register_id() {
    let (mut w, _, rid) = small_world();
    let dev = w.resolve_slave(1).unwrap().0.id;
    let mut values = BTreeMap::new();
    values.insert(rid.0, Value::U16(9));
    assert!(w.set_device_register_values(dev, values));
    assert_eq!(w.resolve_slave(1).unwrap().0.register_values.get(&rid.0), Some(&Value::U16(9)));
}

#[test]
fn unknown_device_is_reported() {
    let (mut w, _, rid) = small_world();
    assert_eq!(
        w.set_register_value(DeviceId(99), rid, Value::U16(1)),
        Err(WorldError::DeviceNotFound)
    );
    assert_eq!(w.set_behavior_overrides(DeviceId(99), None), Err(WorldError::DeviceNotFound));
    assert!(!w.delete_device(DeviceId(99)));
}

#[test]
fn fresh_ids_are_version_4_uuids() {
    let a = DeviceId::new();
    let b = RegisterId::new();
    assert_eq!(uuid::Uuid::from_u128(a.0).get_version_num(), 4);
    assert_eq!(uuid::Uuid::from_u128(b.0).get_version_num(), 4);
    assert_ne!(a.0, b.0);
}

fn rtu_exchange(w: &World, frame: &[u8]) -> Option<Vec<u8>> {
    let (slave, pdu) = modsim::rtu::check_frame(frame)?;
    let d = dispatch_pdu(w, slave, &pdu);
    let reply = match d.out {
        DispatchOut::Silence => None,
        DispatchOut::Reply(bytes) => Some(bytes),
    };
    modsim::rtu::reply_frame(slave, reply)
}

#[test]
fn rtu_frames_end_to_end() {
    let (mut w, t, _) = small_world();
    let read = [0x03, 0x00, 0x0A, 0x00, 0x01];
    let reply = rtu_exchange(&w, &modsim::rtu::build_frame(1, &read)).unwrap();
    assert_eq!(reply, modsim::rtu::build_frame(1, &[0x03, 0x02, 0x01, 0x02]));
    // unknown slave: silence
    assert_eq!(rtu_exchange(&w, &modsim::rtu::build_frame(5, &read)), None);
    // corrupted CRC: silence
    let mut bad = modsim::rtu::build_frame(1, &read);
    bad[2] ^= 0x40;
    assert_eq!(rtu_exchange(&w, &bad), None);
    // broadcast: handled, never answered
    w.create_device("bcast".to_string(), 0, t).unwrap();
    assert_eq!(rtu_exchange(&w, &modsim::rtu::build_frame(0, &read)), None);
}

#[test]
fn only_the_addressed_type_needs_a_bufferable_string_length() {
    let (mut w, _, _) = small_world();
    let t2 = w.create_device_type("text".to_string(), None);
    let mut p = holding(20, 0);
    p.data_type = DataType::String;
    p.byte_length = Some(usize::MAX);
    p.default_value = Value::String(String::new());
    w.upsert_register(t2, p).unwrap();
    w.create_device("t1".to_string(), 2, t2).unwrap();
    assert!(w.slave_layout_ok(1));
    assert!(!w.slave_layout_ok(2));
    assert!(w.slave_layout_ok(9));
    let d = dispatch_pdu(&w, 1, &[0x03, 0x00, 0x0A, 0x00, 0x01]);
    assert_eq!(d.out, DispatchOut::Reply(vec![0x03, 0x02, 0x01, 0x02]));
}
