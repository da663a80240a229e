use modsim::engine::{ModbusException, ModbusRequest, ModbusResponse};
use modsim::pdu::{build_exception, build_response, parse_request, PduError};

#[test]
fn parse_read_holding() {
    let pdu = [0x03, 0x00, 0x10, 0x00, 0x02];
    let req = parse_request(&pdu).unwrap();
    assert_eq!(
        req,
        ModbusRequest::ReadHoldingRegisters {
            address: 0x10,
            quantity: 2
        }
    );
}

#[test]
fn build_read_holding_response() {
    let bytes = build_response(&ModbusResponse::ReadHoldingRegisters(vec![0x1234, 0x5678]));
    assert_eq!(bytes, vec![0x03, 0x04, 0x12, 0x34, 0x56, 0x78]);
}

#[test]
fn exception_pdu() {
    let bytes = build_exception(3, ModbusException::IllegalDataAddress);
    assert_eq!(bytes, vec![0x83, 0x02]);
}

#[test]
fn parse_write_single_coil() {
    let pdu = [0x05, 0x00, 0x01, 0xFF, 0x00];
    assert_eq!(
        parse_request(&pdu).unwrap(),
        ModbusRequest::WriteSingleCoil {
            address: 1,
            value: true
        }
    );
}

#[test]
fn parse_write_multiple_registers() {
    let pdu = [0x10, 0x00, 0x05, 0x00, 0x02, 0x04, 0x00, 0x0A, 0x00, 0x0B];
    assert_eq!(
        parse_request(&pdu).unwrap(),
        ModbusRequest::WriteMultipleRegisters {
            address: 5,
            values: vec![10, 11]
        }
    );
}

#[test]
fn parse_errors() {
    assert_eq!(parse_request(&[]), Err(PduError::Short));
    assert_eq!(parse_request(&[0x03, 0x00]), Err(PduError::Short));
    assert_eq!(parse_request(&[0x2B, 0x0E, 0x01]), Err(PduError::UnsupportedFunction(0x2B)));
    assert_eq!(parse_request(&[0x05, 0x00, 0x01, 0x12, 0x34]), Err(PduError::InvalidQuantity));
    assert_eq!(
        parse_request(&[0x10, 0x00, 0x00, 0x00, 0x02, 0x03, 0, 1, 0]),
        Err(PduError::InvalidByteCount)
    );
    assert_eq!(
        parse_request(&[0x10, 0x00, 0x00, 0x00, 0x02, 0x04, 0, 1]),
        Err(PduError::InvalidByteCount)
    );
    assert_eq!(parse_request(&[0x0F, 0x00, 0x00, 0x00, 0x09, 0x02, 0xFF]), Err(PduError::Short));
}

#[test]
fn parse_write_multiple_coils_unpacks_bits() {
    let pdu = [0x0F, 0x00, 0x13, 0x00, 0x0A, 0x02, 0xCD, 0x01];
    assert_eq!(
        parse_request(&pdu).unwrap(),
        ModbusRequest::WriteMultipleCoils {
            address: 0x13,
            values: vec![true, false, true, true, false, false, true, true, true, false],
        }
    );
}

#[test]
fn build_bit_and_ack_responses() {
    let bytes = build_response(&ModbusResponse::ReadCoils(vec![
        true, false, true, true, false, false, true, true, true, false,
    ]));
    assert_eq!(bytes, vec![0x01, 0x02, 0xCD, 0x01]);
    assert_eq!(
        build_response(&ModbusResponse::ReadDiscreteInputs(vec![false, true])),
        vec![0x02, 0x01, 0x02]
    );
    assert_eq!(
        build_response(&ModbusResponse::WriteSingleCoil { address: 0xAC, value: true }),
        vec![0x05, 0x00, 0xAC, 0xFF, 0x00]
    );
    assert_eq!(
        build_response(&ModbusResponse::WriteSingleRegister { address: 1, value: 3 }),
        vec![0x06, 0x00, 0x01, 0x00, 0x03]
    );
    assert_eq!(
        build_response(&ModbusResponse::WriteMultipleCoils { address: 0x13, quantity: 10 }),
        vec![0x0F, 0x00, 0x13, 0x00, 0x0A]
    );
    assert_eq!(
        build_response(&ModbusResponse::WriteMultipleRegisters { address: 1, quantity: 2 }),
        vec![0x10, 0x00, 0x01, 0x00, 0x02]
    );
    assert_eq!(
        build_response(&ModbusResponse::ReadInputRegisters(vec![0x000A])),
        vec![0x04, 0x02, 0x00, 0x0A]
    );
}
