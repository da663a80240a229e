use modsim::model::{RtuTransport, TcpTransport};
use modsim::supervisor::{
    missing_virtual_serial, plan_rtu, plan_tcp, serial_line, started_state, state_to_view,
    SerialConfig, SerialDataBits, SerialParity, SerialStopBits, StateKind, TransportPlan,
    TransportState, TransportStatus,
};

fn tcp(bind: &str, port: u16) -> TcpTransport {
    TcpTransport { enabled: true, bind: bind.to_string(), port }
}

fn rtu(device: &str) -> RtuTransport {
    RtuTransport {
        enabled: true,
        device: device.to_string(),
        baud_rate: 0,
        parity: String::new(),
        data_bits: 0,
        stop_bits: 0,
        virtual_serial_id: None,
    }
}

#[test]
fn tcp_plan_fills_in_defaults() {
    match plan_tcp(&None, &Some(tcp("", 0))) {
        TransportPlan::Listen { bind, port, description } => {
            assert_eq!(bind, "0.0.0.0");
            assert_eq!(port, 502);
            assert_eq!(description, "0.0.0.0:502");
        }
        other => panic!("unexpected plan {other:?}"),
    }
    match plan_tcp(&Some(tcp("", 0)), &Some(tcp("127.0.0.1", 1502))) {
        TransportPlan::Listen { description, .. } => assert_eq!(description, "127.0.0.1:1502"),
        other => panic!("unexpected plan {other:?}"),
    }
}

#[test]
fn same_settings_keep_running_and_none_disables() {
    assert!(matches!(plan_tcp(&Some(tcp("h", 1)), &Some(tcp("h", 1))), TransportPlan::Unchanged));
    assert!(matches!(plan_tcp(&None, &None), TransportPlan::Disable));
    assert!(matches!(plan_rtu(&None, &None), TransportPlan::Disable));
    assert!(matches!(plan_tcp(&Some(tcp("h", 1)), &None), TransportPlan::Disable));
    assert!(matches!(plan_rtu(&Some(rtu("/dev/x")), &Some(rtu("/dev/x"))), TransportPlan::Unchanged));
    assert!(matches!(plan_rtu(&Some(rtu("/dev/x")), &None), TransportPlan::Disable));
}

#[test]
fn rtu_plans() {
    match plan_rtu(&None, &Some(rtu(""))) {
        TransportPlan::Fail { description, message } => {
            assert_eq!(description, "(no device)");
            assert!(message.starts_with("Device path is empty"));
        }
        other => panic!("unexpected plan {other:?}"),
    }
    match plan_rtu(&None, &Some(rtu("/dev/ttyUSB0"))) {
        TransportPlan::Serial { config, description } => {
            assert_eq!(description, "/dev/ttyUSB0");
            assert_eq!(config.baud_rate, 9600);
            assert_eq!(config.data_bits, 8);
            assert_eq!(config.stop_bits, 1);
            assert_eq!(config.parity, "N");
        }
        other => panic!("unexpected plan {other:?}"),
    }
    let mut v = rtu("");
    v.virtual_serial_id = Some("abc".to_string());
    match plan_rtu(&None, &Some(v)) {
        TransportPlan::VirtualSerial { id, description } => {
            assert_eq!(id, "abc");
            assert_eq!(description, "virtual serial abc");
        }
        other => panic!("unexpected plan {other:?}"),
    }
}

#[test]
fn serial_line_settings() {
    let cfg = |data_bits: u8, stop_bits: u8, parity: &str| SerialConfig {
        device: "/dev/x".into(),
        baud_rate: 9600,
        data_bits,
        stop_bits,
        parity: parity.into(),
    };
    let l = serial_line(&cfg(7, 2, "even"));
    assert_eq!((l.data_bits, l.stop_bits, l.parity), (SerialDataBits::Seven, SerialStopBits::Two, SerialParity::Even));
    let l = serial_line(&cfg(9, 3, "o"));
    assert_eq!((l.data_bits, l.stop_bits, l.parity), (SerialDataBits::Eight, SerialStopBits::One, SerialParity::Odd));
    let l = serial_line(&cfg(5, 1, "N"));
    assert_eq!((l.data_bits, l.parity), (SerialDataBits::Five, SerialParity::Off));
    assert_eq!(serial_line(&cfg(6, 1, "")).parity, SerialParity::Off);
}

#[test]
fn status_after_start_attempts() {
    assert!(started_state("a:1".into(), Ok(())).is_running());
    match started_state("a:1".into(), Err("in use".into())) {
        TransportState::Error { description, message } => {
            assert_eq!(description, "a:1");
            assert_eq!(message, "in use");
        }
        other => panic!("unexpected state {other:?}"),
    }
    match missing_virtual_serial(&"vs1".to_string(), "virtual serial vs1".into()) {
        TransportState::Error { message, .. } => assert_eq!(message, "virtual serial 'vs1' not found"),
        other => panic!("unexpected state {other:?}"),
    }
    let s = TransportStatus::default();
    assert!(!s.tcp.is_running() && !s.rtu.is_running());
}

#[test]
fn api_view_of_states() {
    let v = state_to_view(&TransportState::Disabled);
    assert_eq!((v.state, v.description.as_str(), v.error.clone()), (StateKind::Disabled, "", None));
    let v = state_to_view(&TransportState::Running { description: "d".into() });
    assert_eq!((v.state, v.description.as_str()), (StateKind::Running, "d"));
    let v = state_to_view(&TransportState::Error { description: "d".into(), message: "m".into() });
    assert_eq!((v.state, v.error), (StateKind::Error, Some("m".to_string())));
}
