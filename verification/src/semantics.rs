//! What a request or a response means in terms of a device type's
//! registers: the range it touches, the registers fully inside it, the
//! values it carries, and one-line summaries for the traffic view.

use vstd::prelude::*;
use vstd::slice::slice_subrange;
use crate::encoding::{DataType, Value, ValueModel, decode_value, needed_bytes, spec_decode_value};
use crate::engine::{ModbusRequest, ModbusResponse, RequestModel, ResponseModel, spec_quantity, spec_target_kind};
use crate::model::{DeviceType, RegisterId, RegisterKind, RegisterPoint};
use crate::text::{bool_text, decimal, hex_digits, push_bool, push_decimal, push_hex, push_char};

verus! {

/// One register's value as carried by a request or a response.
#[derive(Debug, Clone)]
pub struct DecodedValue {
    pub register_name: String,
    pub address: u16,
    /// Upper-case name of the data type, or `COIL` / `DISCRETE` for bits.
    pub data_type: String,
    /// The decoded value; `None` when the words do not decode.
    pub value: Option<Value>,
}

/// The mathematical content of a [`DecodedValue`].
pub struct DecodedModel {
    pub register_name: Seq<char>,
    pub address: u16,
    pub data_type: Seq<char>,
    pub value: Option<ValueModel>,
}

/// The start address of a request.
pub open spec fn request_address(r: RequestModel) -> u16 {
    match r {
        RequestModel::ReadCoils { address, .. } => address,
        RequestModel::ReadDiscreteInputs { address, .. } => address,
        RequestModel::ReadHoldingRegisters { address, .. } => address,
        RequestModel::ReadInputRegisters { address, .. } => address,
        RequestModel::WriteSingleCoil { address, .. } => address,
        RequestModel::WriteSingleRegister { address, .. } => address,
        RequestModel::WriteMultipleCoils { address, .. } => address,
        RequestModel::WriteMultipleRegisters { address, .. } => address,
    }
}

/// The register kind and the `[start, start + quantity)` range a request
/// operates on.
pub fn request_range(req: &ModbusRequest) -> (r: (RegisterKind, u16, u16))
    ensures
        r == (spec_target_kind(req@), request_address(req@), spec_quantity(req@)),
{
    let address = match req {
        ModbusRequest::ReadCoils { address, .. } => *address,
        ModbusRequest::ReadDiscreteInputs { address, .. } => *address,
        ModbusRequest::ReadHoldingRegisters { address, .. } => *address,
        ModbusRequest::ReadInputRegisters { address, .. } => *address,
        ModbusRequest::WriteSingleCoil { address, .. } => *address,
        ModbusRequest::WriteSingleRegister { address, .. } => *address,
        ModbusRequest::WriteMultipleCoils { address, .. } => *address,
        ModbusRequest::WriteMultipleRegisters { address, .. } => *address,
    };
    let kind = match req.target_kind() {
        Some(k) => k,
        None => RegisterKind::Holding,
    };
    (kind, address, req.quantity())
}

/// The whole word range of `p` lies in `[start, start + quantity)`.
pub open spec fn fits_range(p: RegisterPoint, start: u16, quantity: u16) -> bool {
    p.address >= start && p.address + p.spec_word_count() <= start + quantity
}

/// The ids of the registers of `kind` that lie fully in the range, in
/// layout order.
pub open spec fn affected_ids(regs: Seq<RegisterPoint>, kind: RegisterKind, start: u16, quantity: u16) -> Seq<
    RegisterId,
>
    decreases regs.len(),
{
    if regs.len() == 0 {
        Seq::empty()
    } else {
        let prev = affected_ids(regs.drop_last(), kind, start, quantity);
        let p = regs.last();
        if p.kind == kind && fits_range(p, start, quantity) {
            prev.push(p.id)
        } else {
            prev
        }
    }
}

/// The ids of device-type registers whose full word range falls inside the
/// range a request operates on.
pub fn affected_registers(req: &ModbusRequest, device_type: &DeviceType) -> (r: Vec<RegisterId>)
    ensures
        r@ == affected_ids(
            device_type.registers@,
            spec_target_kind(req@),
            request_address(req@),
            spec_quantity(req@),
        ),
{
    let (kind, start, quantity) = request_range(req);
    let regs = &device_type.registers;
    let mut out: Vec<RegisterId> = Vec::new();
    let mut i: usize = 0;
    while i < regs.len()
        invariant
            i <= regs@.len(),
            out@ == affected_ids(regs@.take(i as int), kind, start, quantity),
        decreases regs@.len() - i,
    {
        assert(regs@.take(i + 1).drop_last() =~= regs@.take(i as int));
        let p = &regs[i];
        let span = p.word_count();
        if p.kind == kind && p.address >= start && (p.address as u32) + (span as u32) <= (start as u32)
            + (quantity as u32) {
            out.push(p.id);
        }
        i = i + 1;
    }
    assert(regs@.take(regs@.len() as int) =~= regs@);
    out
}

/// The upper-case name of a data type.
pub open spec fn type_name_text(dt: DataType) -> Seq<char> {
    match dt {
        DataType::U16 => "U16"@,
        DataType::I16 => "I16"@,
        DataType::U32 => "U32"@,
        DataType::I32 => "I32"@,
        DataType::U64 => "U64"@,
        DataType::I64 => "I64"@,
        DataType::F16 => "F16"@,
        DataType::F32 => "F32"@,
        DataType::F64 => "F64"@,
        DataType::String => "STRING"@,
    }
}

fn data_type_name(dt: DataType) -> (r: String)
    ensures
        r@ == type_name_text(dt),
{
    match dt {
        DataType::U16 => String::from_str("U16"),
        DataType::I16 => String::from_str("I16"),
        DataType::U32 => String::from_str("U32"),
        DataType::I32 => String::from_str("I32"),
        DataType::U64 => String::from_str("U64"),
        DataType::I64 => String::from_str("I64"),
        DataType::F16 => String::from_str("F16"),
        DataType::F32 => String::from_str("F32"),
        DataType::F64 => String::from_str("F64"),
        DataType::String => String::from_str("STRING"),
    }
}

/// The entry for one register: `None` when it is of another kind, does not
/// lie fully in the range, or (for words) the words do not cover it.
pub open spec fn entry_of(
    p: RegisterPoint,
    kind: RegisterKind,
    start: u16,
    quantity: u16,
    is_bit: bool,
    bits: Option<Seq<bool>>,
    words: Option<Seq<u16>>,
) -> Option<DecodedModel> {
    if p.kind != kind || !fits_range(p, start, quantity) {
        None
    } else {
        let offset = p.address - start;
        if is_bit {
            let b = match bits {
                Some(bs) => if offset < bs.len() {
                    bs[offset]
                } else {
                    false
                },
                None => false,
            };
            Some(
                DecodedModel {
                    register_name: p.name@,
                    address: p.address,
                    data_type: if kind == RegisterKind::Coil {
                        "COIL"@
                    } else {
                        "DISCRETE"@
                    },
                    value: Some(ValueModel::Bool(b)),
                },
            )
        } else {
            let span = p.spec_word_count() as int;
            match words {
                None => None,
                Some(ws) => if offset + span > ws.len() {
                    None
                } else {
                    Some(
                        DecodedModel {
                            register_name: p.name@,
                            address: p.address,
                            data_type: type_name_text(p.data_type),
                            value: spec_decode_value(
                                ws.subrange(offset, offset + span),
                                p.data_type,
                                p.encoding,
                                p.byte_length,
                            ),
                        },
                    )
                },
            }
        }
    }
}

/// The entries of the registers in layout order.
pub open spec fn decoded_entries(
    regs: Seq<RegisterPoint>,
    kind: RegisterKind,
    start: u16,
    quantity: u16,
    is_bit: bool,
    bits: Option<Seq<bool>>,
    words: Option<Seq<u16>>,
) -> Seq<DecodedModel>
    decreases regs.len(),
{
    if regs.len() == 0 {
        Seq::empty()
    } else {
        let prev = decoded_entries(regs.drop_last(), kind, start, quantity, is_bit, bits, words);
        match entry_of(regs.last(), kind, start, quantity, is_bit, bits, words) {
            Some(e) => prev.push(e),
            None => prev,
        }
    }
}

/// `d` carries what `m` describes.
pub open spec fn decoded_is(d: DecodedValue, m: DecodedModel) -> bool {
    &&& d.register_name@ == m.register_name
    &&& d.address == m.address
    &&& d.data_type@ == m.data_type
    &&& match d.value {
        Some(v) => m.value == Some(v@),
        None => m.value is None,
    }
}

/// Every element of `ds` carries the corresponding model.
pub open spec fn all_decoded(ds: Seq<DecodedValue>, ms: Seq<DecodedModel>) -> bool {
    ds.len() == ms.len() && forall|i: int| 0 <= i < ds.len() ==> decoded_is(#[trigger] ds[i], ms[i])
}

fn decode_registers_in_range(
    device_type: &DeviceType,
    kind: RegisterKind,
    start: u16,
    quantity: u16,
    is_bit: bool,
    bits: Option<&[bool]>,
    words: Option<&[u16]>,
) -> (r: Vec<DecodedValue>)
    requires
        is_bit == kind.spec_is_bit(),
    ensures
        all_decoded(
            r@,
            decoded_entries(
                device_type.registers@,
                kind,
                start,
                quantity,
                is_bit,
                match bits {
                    Some(b) => Some(b@),
                    None => None,
                },
                match words {
                    Some(w) => Some(w@),
                    None => None,
                },
            ),
        ),
{
    let ghost bs = match bits {
        Some(b) => Some(b@),
        None => None::<Seq<bool>>,
    };
    let ghost wsv = match words {
        Some(w) => Some(w@),
        None => None::<Seq<u16>>,
    };
    let regs = &device_type.registers;
    let mut out: Vec<DecodedValue> = Vec::new();
    let mut i: usize = 0;
    while i < regs.len()
        invariant
            i <= regs@.len(),
            regs == &device_type.registers,
            bs == (match bits {
                Some(b) => Some(b@),
                None => None::<Seq<bool>>,
            }),
            wsv == (match words {
                Some(w) => Some(w@),
                None => None::<Seq<u16>>,
            }),
            all_decoded(out@, decoded_entries(regs@.take(i as int), kind, start, quantity, is_bit, bs, wsv)),
            is_bit == kind.spec_is_bit(),
        decreases regs@.len() - i,
    {
        assert(regs@.take(i + 1).drop_last() =~= regs@.take(i as int));
        let ghost before = out@;
        let ghost e = entry_of(regs@[i as int], kind, start, quantity, is_bit, bs, wsv);
        let rp = &regs[i];
        let span = rp.word_count();
        if rp.kind == kind && rp.address >= start && (rp.address as u32) + (span as u32) <= (start as u32)
            + (quantity as u32) {
            let offset = (rp.address - start) as usize;
            if is_bit {
                let b = match bits {
                    Some(slice) => if offset < slice.len() {
                        slice[offset]
                    } else {
                        false
                    },
                    None => false,
                };
                let data_type = if kind == RegisterKind::Coil {
                    String::from_str("COIL")
                } else {
                    String::from_str("DISCRETE")
                };
                out.push(
                    DecodedValue {
                        register_name: rp.name.clone(),
                        address: rp.address,
                        data_type,
                        value: Some(Value::Bool(b)),
                    },
                );
            } else {
                match words {
                    Some(ws) => {
                        let slice_len = span as usize;
                        if offset + slice_len <= ws.len() {
                            let slice = slice_subrange(ws, offset, offset + slice_len);
                            proof {
                                assert(slice@.len() == rp.spec_word_count());
                                assert(!rp.kind.spec_is_bit());
                                assert(2 * slice@.len() >= needed_bytes(rp.data_type));
                            }
                            let v = match decode_value(slice, rp.data_type, rp.encoding, rp.byte_length) {
                                Ok(v) => Some(v),
                                Err(_) => None,
                            };
                            out.push(
                                DecodedValue {
                                    register_name: rp.name.clone(),
                                    address: rp.address,
                                    data_type: data_type_name(rp.data_type),
                                    value: v,
                                },
                            );
                        }
                    },
                    None => {},
                }
            }
        }
        proof {
            assert forall|j: int| 0 <= j < before.len() implies decoded_is(#[trigger] out@[j], decoded_entries(regs@.take(i as int), kind, start, quantity, is_bit, bs, wsv)[j]) by {
                assert(out@[j] == before[j]);
            }
        }
        i = i + 1;
    }
    assert(regs@.take(regs@.len() as int) =~= regs@);
    out
}

/// The registers a read answer carries: the request gives the table and
/// the range, the response the bits or words; any other pair carries none.
pub open spec fn read_entries(req: RequestModel, resp: ResponseModel, regs: Seq<RegisterPoint>) -> Seq<
    DecodedModel,
> {
    let target = match req {
        RequestModel::ReadCoils { address, quantity } => Some(
            (address, quantity, true, RegisterKind::Coil),
        ),
        RequestModel::ReadDiscreteInputs { address, quantity } => Some(
            (address, quantity, true, RegisterKind::Discrete),
        ),
        RequestModel::ReadHoldingRegisters { address, quantity } => Some(
            (address, quantity, false, RegisterKind::Holding),
        ),
        RequestModel::ReadInputRegisters { address, quantity } => Some(
            (address, quantity, false, RegisterKind::Input),
        ),
        _ => None,
    };
    let data = match resp {
        ResponseModel::ReadCoils(b) => Some((Some(b), None::<Seq<u16>>)),
        ResponseModel::ReadDiscreteInputs(b) => Some((Some(b), None::<Seq<u16>>)),
        ResponseModel::ReadHoldingRegisters(w) => Some((None::<Seq<bool>>, Some(w))),
        ResponseModel::ReadInputRegisters(w) => Some((None::<Seq<bool>>, Some(w))),
        _ => None,
    };
    match (target, data) {
        (Some((start, quantity, is_bit, kind)), Some((bits, words))) => decoded_entries(
            regs,
            kind,
            start,
            quantity,
            is_bit,
            bits,
            words,
        ),
        _ => Seq::empty(),
    }
}

/// Decodes a read response against the device type's register
/// definitions; only registers that lie fully within the requested range
/// are reported.
pub fn decode_read(req: &ModbusRequest, resp: &ModbusResponse, device_type: &DeviceType) -> (r: Vec<
    DecodedValue,
>)
    ensures
        all_decoded(r@, read_entries(req@, resp@, device_type.registers@)),
{
    let (start, quantity, is_bit, kind) = match req {
        ModbusRequest::ReadCoils { address, quantity } => (*address, *quantity, true, RegisterKind::Coil),
        ModbusRequest::ReadDiscreteInputs { address, quantity } => (
            *address,
            *quantity,
            true,
            RegisterKind::Discrete,
        ),
        ModbusRequest::ReadHoldingRegisters { address, quantity } => (
            *address,
            *quantity,
            false,
            RegisterKind::Holding,
        ),
        ModbusRequest::ReadInputRegisters { address, quantity } => (
            *address,
            *quantity,
            false,
            RegisterKind::Input,
        ),
        _ => return Vec::new(),
    };
    match resp {
        ModbusResponse::ReadCoils(b) | ModbusResponse::ReadDiscreteInputs(b) => decode_registers_in_range(
            device_type,
            kind,
            start,
            quantity,
            is_bit,
            Some(b.as_slice()),
            None,
        ),
        ModbusResponse::ReadHoldingRegisters(w) | ModbusResponse::ReadInputRegisters(w) =>
            decode_registers_in_range(
            device_type,
            kind,
            start,
            quantity,
            is_bit,
            None,
            Some(w.as_slice()),
        ),
        _ => Vec::new(),
    }
}

/// The registers a write request carries values for.
pub open spec fn write_entries(req: RequestModel, regs: Seq<RegisterPoint>) -> Seq<DecodedModel> {
    match req {
        RequestModel::WriteSingleRegister { address, value } => decoded_entries(
            regs,
            RegisterKind::Holding,
            address,
            1,
            false,
            None,
            Some(seq![value]),
        ),
        RequestModel::WriteMultipleRegisters { address, values } => decoded_entries(
            regs,
            RegisterKind::Holding,
            address,
            (values.len() % 0x1_0000) as u16,
            false,
            None,
            Some(values),
        ),
        RequestModel::WriteSingleCoil { address, value } => decoded_entries(
            regs,
            RegisterKind::Coil,
            address,
            1,
            true,
            Some(seq![value]),
            None,
        ),
        RequestModel::WriteMultipleCoils { address, values } => decoded_entries(
            regs,
            RegisterKind::Coil,
            address,
            (values.len() % 0x1_0000) as u16,
            true,
            Some(values),
            None,
        ),
        _ => Seq::empty(),
    }
}

/// Decodes the values carried in a write request: what the master pushed
/// into the simulator.
pub fn decode_write_request(req: &ModbusRequest, device_type: &DeviceType) -> (r: Vec<DecodedValue>)
    ensures
        all_decoded(r@, write_entries(req@, device_type.registers@)),
{
    match req {
        ModbusRequest::WriteSingleRegister { address, value } => {
            let one = vec![*value];
            assert(one@ =~= seq![*value]);
            decode_registers_in_range(
                device_type,
                RegisterKind::Holding,
                *address,
                1,
                false,
                None,
                Some(one.as_slice()),
            )
        },
        ModbusRequest::WriteMultipleRegisters { address, values } => decode_registers_in_range(
            device_type,
            RegisterKind::Holding,
            *address,
            (values.len() % 0x1_0000) as u16,
            false,
            None,
            Some(values.as_slice()),
        ),
        ModbusRequest::WriteSingleCoil { address, value } => {
            let one = vec![*value];
            assert(one@ =~= seq![*value]);
            decode_registers_in_range(
                device_type,
                RegisterKind::Coil,
                *address,
                1,
                true,
                Some(one.as_slice()),
                None,
            )
        },
        ModbusRequest::WriteMultipleCoils { address, values } => decode_registers_in_range(
            device_type,
            RegisterKind::Coil,
            *address,
            (values.len() % 0x1_0000) as u16,
            true,
            Some(values.as_slice()),
            None,
        ),
        _ => Vec::new(),
    }
}

// ---------------------------------------------------------------------------
// Summaries

/// A compact one-line description of a request.
pub open spec fn request_summary(r: RequestModel) -> Seq<char> {
    match r {
        RequestModel::ReadCoils { address, quantity } => "Read Coils start="@ + decimal(address as nat)
            + " len="@ + decimal(quantity as nat),
        RequestModel::ReadDiscreteInputs { address, quantity } => "Read Discrete Inputs start="@
            + decimal(address as nat) + " len="@ + decimal(quantity as nat),
        RequestModel::ReadHoldingRegisters { address, quantity } => "Read Holding Registers start="@
            + decimal(address as nat) + " len="@ + decimal(quantity as nat),
        RequestModel::ReadInputRegisters { address, quantity } => "Read Input Registers start="@
            + decimal(address as nat) + " len="@ + decimal(quantity as nat),
        RequestModel::WriteSingleCoil { address, value } => "Write Single Coil addr="@ + decimal(
            address as nat,
        ) + " value="@ + bool_text(value),
        RequestModel::WriteSingleRegister { address, value } => "Write Single Register addr="@
            + decimal(address as nat) + " value="@ + decimal(value as nat) + " (0x"@ + hex_digits(
            value as nat,
            4,
        ) + ")"@,
        RequestModel::WriteMultipleCoils { address, values } => "Write Multiple Coils start="@
            + decimal(address as nat) + " len="@ + decimal(values.len()),
        RequestModel::WriteMultipleRegisters { address, values } => "Write Multiple Registers start="@
            + decimal(address as nat) + " len="@ + decimal(values.len()),
    }
}

/// A compact one-liner like `Read Holding Registers start=0 len=2`.
pub fn summarize_request(req: &ModbusRequest) -> (r: String)
    ensures
        r@ == request_summary(req@),
{
    match req {
        ModbusRequest::ReadCoils { address, quantity } => {
            let mut s = String::from_str("Read Coils start=");
            push_decimal(&mut s, *address as u64);
            s.append(" len=");
            push_decimal(&mut s, *quantity as u64);
            s
        },
        ModbusRequest::ReadDiscreteInputs { address, quantity } => {
            let mut s = String::from_str("Read Discrete Inputs start=");
            push_decimal(&mut s, *address as u64);
            s.append(" len=");
            push_decimal(&mut s, *quantity as u64);
            s
        },
        ModbusRequest::ReadHoldingRegisters { address, quantity } => {
            let mut s = String::from_str("Read Holding Registers start=");
            push_decimal(&mut s, *address as u64);
            s.append(" len=");
            push_decimal(&mut s, *quantity as u64);
            s
        },
        ModbusRequest::ReadInputRegisters { address, quantity } => {
            let mut s = String::from_str("Read Input Registers start=");
            push_decimal(&mut s, *address as u64);
            s.append(" len=");
            push_decimal(&mut s, *quantity as u64);
            s
        },
        ModbusRequest::WriteSingleCoil { address, value } => {
            let mut s = String::from_str("Write Single Coil addr=");
            push_decimal(&mut s, *address as u64);
            s.append(" value=");
            push_bool(&mut s, *value);
            s
        },
        ModbusRequest::WriteSingleRegister { address, value } => {
            let mut s = String::from_str("Write Single Register addr=");
            push_decimal(&mut s, *address as u64);
            s.append(" value=");
            push_decimal(&mut s, *value as u64);
            s.append(" (0x");
            push_hex(&mut s, *value as u64, 4);
            s.append(")");
            s
        },
        ModbusRequest::WriteMultipleCoils { address, values } => {
            let mut s = String::from_str("Write Multiple Coils start=");
            push_decimal(&mut s, *address as u64);
            s.append(" len=");
            push_decimal(&mut s, values.len() as u64);
            s
        },
        ModbusRequest::WriteMultipleRegisters { address, values } => {
            let mut s = String::from_str("Write Multiple Registers start=");
            push_decimal(&mut s, *address as u64);
            s.append(" len=");
            push_decimal(&mut s, values.len() as u64);
            s
        },
    }
}

/// Whether a request reads bit tables, reads word tables, or neither.
pub open spec fn reads_bits(r: RequestModel) -> bool {
    r is ReadCoils || r is ReadDiscreteInputs
}

pub open spec fn reads_words(r: RequestModel) -> bool {
    r is ReadHoldingRegisters || r is ReadInputRegisters
}

/// The summary of a response, paired with its request so it knows what the
/// reply is for; empty for a pair that does not belong together.
pub open spec fn response_summary(req: RequestModel, resp: ResponseModel) -> Seq<char> {
    match resp {
        ResponseModel::ReadCoils(bits) => if reads_bits(req) {
            decimal(bits.len()) + " bits returned"@
        } else {
            Seq::empty()
        },
        ResponseModel::ReadDiscreteInputs(bits) => if reads_bits(req) {
            decimal(bits.len()) + " bits returned"@
        } else {
            Seq::empty()
        },
        ResponseModel::ReadHoldingRegisters(words) => if reads_words(req) {
            decimal(words.len()) + " words returned"@
        } else {
            Seq::empty()
        },
        ResponseModel::ReadInputRegisters(words) => if reads_words(req) {
            decimal(words.len()) + " words returned"@
        } else {
            Seq::empty()
        },
        ResponseModel::WriteSingleCoil { address, value } => "Ack Write Coil addr="@ + decimal(
            address as nat,
        ) + " value="@ + bool_text(value),
        ResponseModel::WriteSingleRegister { address, value } => "Ack Write Register addr="@
            + decimal(address as nat) + " value="@ + decimal(value as nat),
        ResponseModel::WriteMultipleCoils { address, quantity } => "Ack Write Coils start="@ + decimal(
            address as nat,
        ) + " len="@ + decimal(quantity as nat),
        ResponseModel::WriteMultipleRegisters { address, quantity } => "Ack Write Registers start="@
            + decimal(address as nat) + " len="@ + decimal(quantity as nat),
    }
}

/// Summary for the response side of an exchange.
pub fn summarize_response(req: &ModbusRequest, resp: &ModbusResponse) -> (r: String)
    ensures
        r@ == response_summary(req@, resp@),
{
    let bit_read = matches!(req, ModbusRequest::ReadCoils { .. } | ModbusRequest::ReadDiscreteInputs { .. });
    let word_read = matches!(
        req,
        ModbusRequest::ReadHoldingRegisters { .. } | ModbusRequest::ReadInputRegisters { .. }
    );
    match resp {
        ModbusResponse::ReadCoils(bits) | ModbusResponse::ReadDiscreteInputs(bits) => {
            if bit_read {
                let mut s = String::new();
                push_decimal(&mut s, bits.len() as u64);
                s.append(" bits returned");
                assert(s@ =~= decimal(bits@.len()) + " bits returned"@);
                s
            } else {
                String::new()
            }
        },
        ModbusResponse::ReadHoldingRegisters(words) | ModbusResponse::ReadInputRegisters(words) => {
            if word_read {
                let mut s = String::new();
                push_decimal(&mut s, words.len() as u64);
                s.append(" words returned");
                assert(s@ =~= decimal(words@.len()) + " words returned"@);
                s
            } else {
                String::new()
            }
        },
        ModbusResponse::WriteSingleCoil { address, value } => {
            let mut s = String::from_str("Ack Write Coil addr=");
            push_decimal(&mut s, *address as u64);
            s.append(" value=");
            push_bool(&mut s, *value);
            s
        },
        ModbusResponse::WriteSingleRegister { address, value } => {
            let mut s = String::from_str("Ack Write Register addr=");
            push_decimal(&mut s, *address as u64);
            s.append(" value=");
            push_decimal(&mut s, *value as u64);
            s
        },
        ModbusResponse::WriteMultipleCoils { address, quantity } => {
            let mut s = String::from_str("Ack Write Coils start=");
            push_decimal(&mut s, *address as u64);
            s.append(" len=");
            push_decimal(&mut s, *quantity as u64);
            s
        },
        ModbusResponse::WriteMultipleRegisters { address, quantity } => {
            let mut s = String::from_str("Ack Write Registers start=");
            push_decimal(&mut s, *address as u64);
            s.append(" len=");
            push_decimal(&mut s, *quantity as u64);
            s
        },
    }
}

/// The bytes as two-digit upper-case hex numbers separated by spaces.
pub open spec fn hex_text(bytes: Seq<u8>) -> Seq<char>
    decreases bytes.len(),
{
    if bytes.len() == 0 {
        Seq::empty()
    } else if bytes.len() == 1 {
        hex_digits(bytes[0] as nat, 2)
    } else {
        hex_text(bytes.drop_last()) + seq![' '] + hex_digits(bytes.last() as nat, 2)
    }
}

/// `01 03 00 0A`: a frame as the traffic view shows it.
pub fn hex_of(bytes: &[u8]) -> (r: String)
    ensures
        r@ == hex_text(bytes@),
{
    let mut s = String::new();
    let mut i: usize = 0;
    while i < bytes.len()
        invariant
            i <= bytes@.len(),
            s@ == hex_text(bytes@.take(i as int)),
        decreases bytes@.len() - i,
    {
        assert(bytes@.take(i + 1).drop_last() =~= bytes@.take(i as int));
        if i > 0 {
            push_char(&mut s, ' ');
        }
        push_hex(&mut s, bytes[i] as u64, 2);
        proof {
            if i == 0 {
                assert(s@ =~= hex_digits(bytes@[0] as nat, 2));
            } else {
                assert(s@ =~= hex_text(bytes@.take(i as int)) + seq![' '] + hex_digits(
                    bytes@[i as int] as nat,
                    2,
                ));
            }
        }
        i = i + 1;
    }
    assert(bytes@.take(bytes@.len() as int) =~= bytes@);
    s
}

/// Every register reported as touched is of the request's table and lies
/// fully inside the range the request operates on.
pub proof fn law_affected_within_range(
    regs: Seq<RegisterPoint>,
    kind: RegisterKind,
    start: u16,
    quantity: u16,
    id: RegisterId,
)
    requires
        affected_ids(regs, kind, start, quantity).contains(id),
    ensures
        exists|i: int|
            0 <= i < regs.len() && (#[trigger] regs[i]).id == id && regs[i].kind == kind && fits_range(
                regs[i],
                start,
                quantity,
            ),
    decreases regs.len(),
{
    let prev = affected_ids(regs.drop_last(), kind, start, quantity);
    let p = regs.last();
    if prev.contains(id) {
        law_affected_within_range(regs.drop_last(), kind, start, quantity, id);
        let i = choose|i: int|
            0 <= i < regs.drop_last().len() && (#[trigger] regs.drop_last()[i]).id == id
                && regs.drop_last()[i].kind == kind && fits_range(regs.drop_last()[i], start, quantity);
        assert(regs[i] == regs.drop_last()[i]);
    } else {
        assert(p.kind == kind && fits_range(p, start, quantity) && p.id == id);
        assert(regs[regs.len() - 1] == p);
    }
}

/// Every value a read answer is decoded into belongs to a register of the
/// read table that lies fully inside the requested range.
pub proof fn law_decoded_within_range(
    regs: Seq<RegisterPoint>,
    kind: RegisterKind,
    start: u16,
    quantity: u16,
    is_bit: bool,
    bits: Option<Seq<bool>>,
    words: Option<Seq<u16>>,
    k: int,
)
    requires
        0 <= k < decoded_entries(regs, kind, start, quantity, is_bit, bits, words).len(),
    ensures
        exists|i: int|
            0 <= i < regs.len() && (#[trigger] regs[i]).kind == kind && fits_range(regs[i], start, quantity)
                && regs[i].address == decoded_entries(regs, kind, start, quantity, is_bit, bits, words)[k].address
                && regs[i].name@ == decoded_entries(regs, kind, start, quantity, is_bit, bits, words)[k].register_name,
    decreases regs.len(),
{
    let prev = decoded_entries(regs.drop_last(), kind, start, quantity, is_bit, bits, words);
    let e = decoded_entries(regs, kind, start, quantity, is_bit, bits, words);
    if k < prev.len() {
        law_decoded_within_range(regs.drop_last(), kind, start, quantity, is_bit, bits, words, k);
        assert(e[k] == prev[k]);
        let i = choose|i: int|
            0 <= i < regs.drop_last().len() && (#[trigger] regs.drop_last()[i]).kind == kind && fits_range(
                regs.drop_last()[i],
                start,
                quantity,
            ) && regs.drop_last()[i].address == prev[k].address && regs.drop_last()[i].name@
                == prev[k].register_name;
        assert(regs[i] == regs.drop_last()[i]);
    } else {
        assert(regs[regs.len() - 1] == regs.last());
    }
}

/// Every value a read answer is decoded into belongs to a register of the
/// table the request reads (coils, discrete inputs, holding or input
/// registers, as its function code says) that lies fully inside the range
/// the request names.
pub proof fn law_read_entries_of_request_table(
    req: RequestModel,
    resp: ResponseModel,
    regs: Seq<RegisterPoint>,
    k: int,
)
    requires
        0 <= k < read_entries(req, resp, regs).len(),
    ensures
        exists|i: int|
            0 <= i < regs.len() && (#[trigger] regs[i]).kind == spec_target_kind(req) && fits_range(
                regs[i],
                request_address(req),
                spec_quantity(req),
            ) && regs[i].address == read_entries(req, resp, regs)[k].address && regs[i].name@
                == read_entries(req, resp, regs)[k].register_name,
{
    let (bits, words) = match resp {
        ResponseModel::ReadCoils(b) => (Some(b), None::<Seq<u16>>),
        ResponseModel::ReadDiscreteInputs(b) => (Some(b), None::<Seq<u16>>),
        ResponseModel::ReadHoldingRegisters(w) => (None::<Seq<bool>>, Some(w)),
        ResponseModel::ReadInputRegisters(w) => (None::<Seq<bool>>, Some(w)),
        _ => (None::<Seq<bool>>, None::<Seq<u16>>),
    };
    match req {
        RequestModel::ReadCoils { address, quantity } => law_decoded_within_range(
            regs,
            RegisterKind::Coil,
            address,
            quantity,
            true,
            bits,
            words,
            k,
        ),
        RequestModel::ReadDiscreteInputs { address, quantity } => law_decoded_within_range(
            regs,
            RegisterKind::Discrete,
            address,
            quantity,
            true,
            bits,
            words,
            k,
        ),
        RequestModel::ReadHoldingRegisters { address, quantity } => law_decoded_within_range(
            regs,
            RegisterKind::Holding,
            address,
            quantity,
            false,
            bits,
            words,
            k,
        ),
        RequestModel::ReadInputRegisters { address, quantity } => law_decoded_within_range(
            regs,
            RegisterKind::Input,
            address,
            quantity,
            false,
            bits,
            words,
            k,
        ),
        _ => {},
    }
}

/// Every value a write request is decoded into belongs to a register of the
/// table the request writes (coils or holding registers) that lies fully
/// inside the range the request covers.
pub proof fn law_write_entries_of_request_table(req: RequestModel, regs: Seq<RegisterPoint>, k: int)
    requires
        0 <= k < write_entries(req, regs).len(),
    ensures
        exists|i: int|
            0 <= i < regs.len() && (#[trigger] regs[i]).kind == spec_target_kind(req) && fits_range(
                regs[i],
                request_address(req),
                spec_quantity(req),
            ) && regs[i].address == write_entries(req, regs)[k].address && regs[i].name@
                == write_entries(req, regs)[k].register_name,
{
    match req {
        RequestModel::WriteSingleRegister { address, value } => law_decoded_within_range(
            regs,
            RegisterKind::Holding,
            address,
            1,
            false,
            None,
            Some(seq![value]),
            k,
        ),
        RequestModel::WriteMultipleRegisters { address, values } => law_decoded_within_range(
            regs,
            RegisterKind::Holding,
            address,
            (values.len() % 0x1_0000) as u16,
            false,
            None,
            Some(values),
            k,
        ),
        RequestModel::WriteSingleCoil { address, value } => law_decoded_within_range(
            regs,
            RegisterKind::Coil,
            address,
            1,
            true,
            Some(seq![value]),
            None,
            k,
        ),
        RequestModel::WriteMultipleCoils { address, values } => law_decoded_within_range(
            regs,
            RegisterKind::Coil,
            address,
            (values.len() % 0x1_0000) as u16,
            true,
            Some(values),
            None,
            k,
        ),
        _ => {},
    }
}

/// Every decoded entry is the entry of one register of the layout.
proof fn lemma_entry_source(
    regs: Seq<RegisterPoint>,
    kind: RegisterKind,
    start: u16,
    quantity: u16,
    is_bit: bool,
    bits: Option<Seq<bool>>,
    words: Option<Seq<u16>>,
    k: int,
)
    requires
        0 <= k < decoded_entries(regs, kind, start, quantity, is_bit, bits, words).len(),
    ensures
        exists|i: int|
            0 <= i < regs.len() && #[trigger] entry_of(regs[i], kind, start, quantity, is_bit, bits, words)
                == Some(decoded_entries(regs, kind, start, quantity, is_bit, bits, words)[k]),
    decreases regs.len(),
{
    let prev = decoded_entries(regs.drop_last(), kind, start, quantity, is_bit, bits, words);
    let e = decoded_entries(regs, kind, start, quantity, is_bit, bits, words);
    if k < prev.len() {
        lemma_entry_source(regs.drop_last(), kind, start, quantity, is_bit, bits, words, k);
        assert(e[k] == prev[k]);
        let i = choose|i: int|
            0 <= i < regs.drop_last().len() && #[trigger] entry_of(
                regs.drop_last()[i],
                kind,
                start,
                quantity,
                is_bit,
                bits,
                words,
            ) == Some(prev[k]);
        assert(regs[i] == regs.drop_last()[i]);
    } else {
        assert(regs[regs.len() - 1] == regs.last());
    }
}

/// The bits a bit-read answer carries, if it is one.
pub open spec fn answer_bits(resp: ResponseModel) -> Option<Seq<bool>> {
    match resp {
        ResponseModel::ReadCoils(b) => Some(b),
        ResponseModel::ReadDiscreteInputs(b) => Some(b),
        _ => None,
    }
}

/// In a coil or discrete-input read, each register reported carries, as a
/// boolean, the bit of the answer at its offset from the requested start.
pub proof fn law_bit_read_values(req: RequestModel, resp: ResponseModel, regs: Seq<RegisterPoint>, k: int)
    requires
        req is ReadCoils || req is ReadDiscreteInputs,
        answer_bits(resp) matches Some(bs) && bs.len() >= spec_quantity(req),
        0 <= k < read_entries(req, resp, regs).len(),
    ensures
        ({
            let e = read_entries(req, resp, regs)[k];
            let off = e.address - request_address(req);
            &&& 0 <= off < spec_quantity(req)
            &&& e.value == Some(ValueModel::Bool(answer_bits(resp)->0[off]))
        }),
{
    let bs = answer_bits(resp)->0;
    let (kind, address, quantity) = match req {
        RequestModel::ReadCoils { address, quantity } => (RegisterKind::Coil, address, quantity),
        RequestModel::ReadDiscreteInputs { address, quantity } => (RegisterKind::Discrete, address, quantity),
        _ => (RegisterKind::Coil, 0u16, 0u16),
    };
    assert(read_entries(req, resp, regs) == decoded_entries(
        regs,
        kind,
        address,
        quantity,
        true,
        Some(bs),
        None,
    ));
    lemma_entry_source(regs, kind, address, quantity, true, Some(bs), None, k);
    let i = choose|i: int|
        0 <= i < regs.len() && #[trigger] entry_of(regs[i], kind, address, quantity, true, Some(bs), None)
            == Some(read_entries(req, resp, regs)[k]);
    assert(fits_range(regs[i], address, quantity));
    assert(regs[i].spec_word_count() >= 1) by {
        if !regs[i].kind.spec_is_bit() {
            assert(regs[i].kind == kind);
        }
    }
}

} // verus!
