//! Request -> response engine.
//!
//! Given a Modbus request, the device instance state and the effective
//! behavior, produce one of: a response, an exception, or silence (timeout),
//! together with the register writes the request asks for.

use std::collections::BTreeMap;
use vstd::prelude::*;
use crate::behavior::{BehaviorModel, DeviceBehavior, MissingBlockBehavior};
use crate::encoding::{
    Value, ValueModel, decode_value, encode_value, spec_decode_value, spec_encode_value,
    spec_word_count, string_fits, string_len_ok,
};
use crate::model::{Device, DeviceType, RegisterKind, RegisterPoint};

verus! {

/// Decoded Modbus request (transport-agnostic).
#[derive(Debug, Clone, PartialEq)]
#[allow(inconsistent_fields)]
pub enum ModbusRequest {
    ReadCoils { address: u16, quantity: u16 },
    ReadDiscreteInputs { address: u16, quantity: u16 },
    ReadHoldingRegisters { address: u16, quantity: u16 },
    ReadInputRegisters { address: u16, quantity: u16 },
    WriteSingleCoil { address: u16, value: bool },
    WriteSingleRegister { address: u16, value: u16 },
    WriteMultipleCoils { address: u16, values: Vec<bool> },
    WriteMultipleRegisters { address: u16, values: Vec<u16> },
}

/// The mathematical content of a [`ModbusRequest`].
#[allow(inconsistent_fields)]
pub enum RequestModel {
    ReadCoils { address: u16, quantity: u16 },
    ReadDiscreteInputs { address: u16, quantity: u16 },
    ReadHoldingRegisters { address: u16, quantity: u16 },
    ReadInputRegisters { address: u16, quantity: u16 },
    WriteSingleCoil { address: u16, value: bool },
    WriteSingleRegister { address: u16, value: u16 },
    WriteMultipleCoils { address: u16, values: Seq<bool> },
    WriteMultipleRegisters { address: u16, values: Seq<u16> },
}

impl View for ModbusRequest {
    type V = RequestModel;

    open spec fn view(&self) -> RequestModel {
        match self {
            ModbusRequest::ReadCoils { address, quantity } => RequestModel::ReadCoils {
                address: *address,
                quantity: *quantity,
            },
            ModbusRequest::ReadDiscreteInputs { address, quantity } =>
                RequestModel::ReadDiscreteInputs { address: *address, quantity: *quantity },
            ModbusRequest::ReadHoldingRegisters { address, quantity } =>
                RequestModel::ReadHoldingRegisters { address: *address, quantity: *quantity },
            ModbusRequest::ReadInputRegisters { address, quantity } =>
                RequestModel::ReadInputRegisters { address: *address, quantity: *quantity },
            ModbusRequest::WriteSingleCoil { address, value } => RequestModel::WriteSingleCoil {
                address: *address,
                value: *value,
            },
            ModbusRequest::WriteSingleRegister { address, value } =>
                RequestModel::WriteSingleRegister { address: *address, value: *value },
            ModbusRequest::WriteMultipleCoils { address, values } =>
                RequestModel::WriteMultipleCoils { address: *address, values: values@ },
            ModbusRequest::WriteMultipleRegisters { address, values } =>
                RequestModel::WriteMultipleRegisters { address: *address, values: values@ },
        }
    }
}

/// Modbus exception codes.
#[derive(Debug, Clone, Copy, PartialEq, Eq, Structural)]
pub enum ModbusException {
    IllegalFunction,
    IllegalDataAddress,
    IllegalDataValue,
    SlaveDeviceFailure,
}

impl ModbusException {
    pub open spec fn spec_code(self) -> u8 {
        match self {
            ModbusException::IllegalFunction => 0x01,
            ModbusException::IllegalDataAddress => 0x02,
            ModbusException::IllegalDataValue => 0x03,
            ModbusException::SlaveDeviceFailure => 0x04,
        }
    }

    /// The exception code sent on the wire.
    pub fn code(self) -> (r: u8)
        ensures
            r == self.spec_code(),
    {
        match self {
            ModbusException::IllegalFunction => 0x01,
            ModbusException::IllegalDataAddress => 0x02,
            ModbusException::IllegalDataValue => 0x03,
            ModbusException::SlaveDeviceFailure => 0x04,
        }
    }
}

/// A successful answer to a request.
#[derive(Debug, Clone, PartialEq)]
#[allow(inconsistent_fields)]
pub enum ModbusResponse {
    ReadCoils(Vec<bool>),
    ReadDiscreteInputs(Vec<bool>),
    ReadHoldingRegisters(Vec<u16>),
    ReadInputRegisters(Vec<u16>),
    WriteSingleCoil { address: u16, value: bool },
    WriteSingleRegister { address: u16, value: u16 },
    WriteMultipleCoils { address: u16, quantity: u16 },
    WriteMultipleRegisters { address: u16, quantity: u16 },
}

/// The mathematical content of a [`ModbusResponse`].
#[allow(inconsistent_fields)]
pub enum ResponseModel {
    ReadCoils(Seq<bool>),
    ReadDiscreteInputs(Seq<bool>),
    ReadHoldingRegisters(Seq<u16>),
    ReadInputRegisters(Seq<u16>),
    WriteSingleCoil { address: u16, value: bool },
    WriteSingleRegister { address: u16, value: u16 },
    WriteMultipleCoils { address: u16, quantity: u16 },
    WriteMultipleRegisters { address: u16, quantity: u16 },
}

impl View for ModbusResponse {
    type V = ResponseModel;

    open spec fn view(&self) -> ResponseModel {
        match self {
            ModbusResponse::ReadCoils(b) => ResponseModel::ReadCoils(b@),
            ModbusResponse::ReadDiscreteInputs(b) => ResponseModel::ReadDiscreteInputs(b@),
            ModbusResponse::ReadHoldingRegisters(w) => ResponseModel::ReadHoldingRegisters(w@),
            ModbusResponse::ReadInputRegisters(w) => ResponseModel::ReadInputRegisters(w@),
            ModbusResponse::WriteSingleCoil { address, value } => ResponseModel::WriteSingleCoil {
                address: *address,
                value: *value,
            },
            ModbusResponse::WriteSingleRegister { address, value } =>
                ResponseModel::WriteSingleRegister { address: *address, value: *value },
            ModbusResponse::WriteMultipleCoils { address, quantity } =>
                ResponseModel::WriteMultipleCoils { address: *address, quantity: *quantity },
            ModbusResponse::WriteMultipleRegisters { address, quantity } =>
                ResponseModel::WriteMultipleRegisters { address: *address, quantity: *quantity },
        }
    }
}

/// Output of [`process_request`]: a response, an exception, or silence.
#[derive(Debug, Clone, PartialEq)]
pub enum Outcome {
    Response(ModbusResponse),
    Exception(ModbusException),
    Silence,
}

/// The mathematical content of an [`Outcome`].
pub enum OutcomeModel {
    Response(ResponseModel),
    Exception(ModbusException),
    Silence,
}

impl View for Outcome {
    type V = OutcomeModel;

    open spec fn view(&self) -> OutcomeModel {
        match self {
            Outcome::Response(r) => OutcomeModel::Response(r@),
            Outcome::Exception(e) => OutcomeModel::Exception(*e),
            Outcome::Silence => OutcomeModel::Silence,
        }
    }
}

/// One register word the engine wants written back into device state.
#[derive(Debug, Clone, Copy, PartialEq, Eq, Structural)]
pub struct WordWrite {
    pub kind: RegisterKind,
    pub address: u16,
    pub word: u16,
}

/// Mutations the engine wants applied to device state. The caller writes
/// them back, which keeps the engine itself pure.
#[derive(Debug, Clone, PartialEq)]
pub struct StateUpdate {
    pub writes: Vec<WordWrite>,
}

impl Default for StateUpdate {
    fn default() -> (r: Self)
        ensures
            r.writes@ == Seq::<WordWrite>::empty(),
    {
        StateUpdate { writes: Vec::new() }
    }
}

/// What [`process_request`] returns.
#[derive(Debug, Clone, PartialEq)]
pub struct EngineOutput {
    pub outcome: Outcome,
    pub state_update: StateUpdate,
}

/// How much of a requested block exists.
#[derive(Debug, Clone, Copy, PartialEq, Eq, Structural)]
pub enum Coverage {
    Full,
    Absent,
    Partial,
}

// ---------------------------------------------------------------------------
// Specification
// ---------------------------------------------------------------------------

pub open spec fn spec_function_code(r: RequestModel) -> u8 {
    match r {
        RequestModel::ReadCoils { .. } => 1,
        RequestModel::ReadDiscreteInputs { .. } => 2,
        RequestModel::ReadHoldingRegisters { .. } => 3,
        RequestModel::ReadInputRegisters { .. } => 4,
        RequestModel::WriteSingleCoil { .. } => 5,
        RequestModel::WriteSingleRegister { .. } => 6,
        RequestModel::WriteMultipleCoils { .. } => 15,
        RequestModel::WriteMultipleRegisters { .. } => 16,
    }
}

/// The number of registers a request touches; a list longer than `u16::MAX`
/// counts modulo 2^16, as a `u16` conversion of its length does.
pub open spec fn spec_quantity(r: RequestModel) -> u16 {
    match r {
        RequestModel::ReadCoils { quantity, .. } => quantity,
        RequestModel::ReadDiscreteInputs { quantity, .. } => quantity,
        RequestModel::ReadHoldingRegisters { quantity, .. } => quantity,
        RequestModel::ReadInputRegisters { quantity, .. } => quantity,
        RequestModel::WriteSingleCoil { .. } => 1,
        RequestModel::WriteSingleRegister { .. } => 1,
        RequestModel::WriteMultipleCoils { values, .. } => (values.len() % 0x1_0000) as u16,
        RequestModel::WriteMultipleRegisters { values, .. } => (values.len() % 0x1_0000) as u16,
    }
}

/// The register table a request operates on.
pub open spec fn spec_target_kind(r: RequestModel) -> RegisterKind {
    match r {
        RequestModel::ReadCoils { .. } => RegisterKind::Coil,
        RequestModel::WriteSingleCoil { .. } => RegisterKind::Coil,
        RequestModel::WriteMultipleCoils { .. } => RegisterKind::Coil,
        RequestModel::ReadDiscreteInputs { .. } => RegisterKind::Discrete,
        RequestModel::ReadHoldingRegisters { .. } => RegisterKind::Holding,
        RequestModel::WriteSingleRegister { .. } => RegisterKind::Holding,
        RequestModel::WriteMultipleRegisters { .. } => RegisterKind::Holding,
        RequestModel::ReadInputRegisters { .. } => RegisterKind::Input,
    }
}

/// Whether the request writes registers.
pub open spec fn spec_is_write(r: RequestModel) -> bool {
    match r {
        RequestModel::WriteSingleCoil { .. } => true,
        RequestModel::WriteSingleRegister { .. } => true,
        RequestModel::WriteMultipleCoils { .. } => true,
        RequestModel::WriteMultipleRegisters { .. } => true,
        _ => false,
    }
}

/// The bit a value stands for in a coil or discrete input.
pub open spec fn bit_of(v: ValueModel) -> bool {
    match v {
        ValueModel::Bool(b) => b,
        ValueModel::U16(n) => n != 0,
        _ => false,
    }
}

pub open spec fn bit_word(b: bool) -> u16 {
    if b {
        1
    } else {
        0
    }
}

/// The words a register point shows for a value: one 0/1 slot for bit
/// kinds; otherwise the encoded value, or zeros when it cannot be encoded.
pub open spec fn spec_point_words(rp: RegisterPoint, v: ValueModel) -> Seq<u16> {
    if rp.kind.spec_is_bit() {
        seq![bit_word(bit_of(v))]
    } else {
        match spec_encode_value(v, rp.data_type, rp.encoding, rp.byte_length) {
            Some(w) => w,
            None => Seq::new(spec_word_count(rp.data_type, rp.byte_length), |i: int| 0u16),
        }
    }
}

/// The mathematical content of a device's runtime values.
pub open spec fn value_models(m: Map<u128, Value>) -> Map<u128, ValueModel> {
    m.map_values(|v: Value| v@)
}

/// The current value of a point: the device's runtime value, or the default.
pub open spec fn point_value(rp: RegisterPoint, values: Map<u128, ValueModel>) -> ValueModel {
    if values.contains_key(rp.id.0) {
        values[rp.id.0]
    } else {
        rp.default_value@
    }
}

/// Address of the `i`-th word of a point at `base`: `base + i` (with `i`
/// taken modulo 2^16), saturating at `u16::MAX`.
pub open spec fn word_address(base: u16, i: int) -> u16 {
    let a = base + i % 0x1_0000;
    if a > 0xFFFF {
        0xFFFF
    } else {
        a as u16
    }
}

/// `m` with the words laid down from `base` on, later words winning.
pub open spec fn place_words(m: Map<u16, u16>, base: u16, words: Seq<u16>) -> Map<u16, u16>
    decreases words.len(),
{
    if words.len() == 0 {
        m
    } else {
        place_words(m, base, words.drop_last()).insert(
            word_address(base, words.len() - 1),
            words.last(),
        )
    }
}

/// The address -> word map of one register table: the points of that kind in
/// layout order, each laid over the ones before it.
pub open spec fn word_map(regs: Seq<RegisterPoint>, values: Map<u128, ValueModel>, kind: RegisterKind) -> Map<
    u16,
    u16,
>
    decreases regs.len(),
{
    if regs.len() == 0 {
        Map::empty()
    } else {
        let prev = word_map(regs.drop_last(), values, kind);
        let rp = regs.last();
        if rp.kind == kind {
            place_words(prev, rp.address, spec_point_words(rp, point_value(rp, values)))
        } else {
            prev
        }
    }
}

/// Whether the (unwrapped) address `a` exists in the map.
pub open spec fn covered(m: Map<u16, u16>, a: int) -> bool {
    a <= 0xFFFF && m.contains_key(a as u16)
}

/// How much of the block `[address, address + quantity)` exists.
pub open spec fn spec_coverage(m: Map<u16, u16>, address: u16, quantity: u16) -> Coverage {
    if forall|a: int| address <= a < address + quantity ==> !covered(m, a) {
        Coverage::Absent
    } else if forall|a: int| address <= a < address + quantity ==> covered(m, a) {
        Coverage::Full
    } else {
        Coverage::Partial
    }
}

/// The answer to a block that is (partly) missing, for every behavior but
/// ZeroFill, which its callers handle themselves by succeeding.
pub open spec fn spec_missing_outcome(b: MissingBlockBehavior) -> OutcomeModel {
    match b {
        MissingBlockBehavior::IllegalDataAddress => OutcomeModel::Exception(
            ModbusException::IllegalDataAddress,
        ),
        MissingBlockBehavior::IllegalFunction => OutcomeModel::Exception(
            ModbusException::IllegalFunction,
        ),
        MissingBlockBehavior::SlaveDeviceFailure => OutcomeModel::Exception(
            ModbusException::SlaveDeviceFailure,
        ),
        MissingBlockBehavior::Timeout => OutcomeModel::Silence,
        MissingBlockBehavior::ZeroFill => OutcomeModel::Exception(
            ModbusException::SlaveDeviceFailure,
        ),
    }
}

/// The answer a block request gets because of missing registers, if any:
/// none when the block exists fully, or when the configured behavior for its
/// coverage is zero-fill.
pub open spec fn spec_missing(m: Map<u16, u16>, address: u16, quantity: u16, b: BehaviorModel) -> Option<
    OutcomeModel,
> {
    match spec_coverage(m, address, quantity) {
        Coverage::Full => None,
        Coverage::Absent => if b.missing_full_block == MissingBlockBehavior::ZeroFill {
            None
        } else {
            Some(spec_missing_outcome(b.missing_full_block))
        },
        Coverage::Partial => if b.missing_partial_block == MissingBlockBehavior::ZeroFill {
            None
        } else {
            Some(spec_missing_outcome(b.missing_partial_block))
        },
    }
}

/// The word at `a`, zero when absent.
pub open spec fn read_word(m: Map<u16, u16>, a: u16) -> u16 {
    if m.contains_key(a) {
        m[a]
    } else {
        0
    }
}

/// `address + i` wrapping at 2^16.
pub open spec fn wrap_address(address: u16, i: int) -> u16 {
    ((address + i) % 0x1_0000) as u16
}

pub open spec fn spec_read_words(m: Map<u16, u16>, address: u16, quantity: u16) -> Seq<u16> {
    Seq::new(quantity as nat, |i: int| read_word(m, wrap_address(address, i)))
}

pub open spec fn spec_read_bits(m: Map<u16, u16>, address: u16, quantity: u16) -> Seq<bool> {
    Seq::new(quantity as nat, |i: int| read_word(m, wrap_address(address, i)) != 0)
}

/// The writes of a multiple-write request: one per value whose address
/// exists, in request order.
pub open spec fn spec_multi_writes(
    m: Map<u16, u16>,
    kind: RegisterKind,
    address: u16,
    words: Seq<u16>,
) -> Seq<WordWrite>
    decreases words.len(),
{
    if words.len() == 0 {
        Seq::empty()
    } else {
        let prev = spec_multi_writes(m, kind, address, words.drop_last());
        let a = wrap_address(address, words.len() - 1);
        if m.contains_key(a) {
            prev.push(WordWrite { kind, address: a, word: words.last() })
        } else {
            prev
        }
    }
}

pub open spec fn bit_words(values: Seq<bool>) -> Seq<u16> {
    Seq::new(values.len(), |i: int| bit_word(values[i]))
}

/// The outcome and the writes of a request against a register table.
pub open spec fn spec_dispatch(r: RequestModel, m: Map<u16, u16>, b: BehaviorModel) -> (
    OutcomeModel,
    Seq<WordWrite>,
) {
    match r {
        RequestModel::ReadCoils { address, quantity } => match spec_missing(m, address, quantity, b) {
            Some(o) => (o, Seq::empty()),
            None => (
                OutcomeModel::Response(ResponseModel::ReadCoils(spec_read_bits(m, address, quantity))),
                Seq::empty(),
            ),
        },
        RequestModel::ReadDiscreteInputs { address, quantity } => match spec_missing(
            m,
            address,
            quantity,
            b,
        ) {
            Some(o) => (o, Seq::empty()),
            None => (
                OutcomeModel::Response(
                    ResponseModel::ReadDiscreteInputs(spec_read_bits(m, address, quantity)),
                ),
                Seq::empty(),
            ),
        },
        RequestModel::ReadHoldingRegisters { address, quantity } => match spec_missing(
            m,
            address,
            quantity,
            b,
        ) {
            Some(o) => (o, Seq::empty()),
            None => (
                OutcomeModel::Response(
                    ResponseModel::ReadHoldingRegisters(spec_read_words(m, address, quantity)),
                ),
                Seq::empty(),
            ),
        },
        RequestModel::ReadInputRegisters { address, quantity } => match spec_missing(
            m,
            address,
            quantity,
            b,
        ) {
            Some(o) => (o, Seq::empty()),
            None => (
                OutcomeModel::Response(
                    ResponseModel::ReadInputRegisters(spec_read_words(m, address, quantity)),
                ),
                Seq::empty(),
            ),
        },
        RequestModel::WriteSingleCoil { address, value } => if m.contains_key(address) {
            (
                OutcomeModel::Response(ResponseModel::WriteSingleCoil { address, value }),
                seq![WordWrite { kind: RegisterKind::Coil, address, word: bit_word(value) }],
            )
        } else if b.missing_full_block == MissingBlockBehavior::ZeroFill {
            (OutcomeModel::Response(ResponseModel::WriteSingleCoil { address, value }), Seq::empty())
        } else {
            (spec_missing_outcome(b.missing_full_block), Seq::empty())
        },
        RequestModel::WriteSingleRegister { address, value } => if m.contains_key(address) {
            (
                OutcomeModel::Response(ResponseModel::WriteSingleRegister { address, value }),
                seq![WordWrite { kind: RegisterKind::Holding, address, word: value }],
            )
        } else if b.missing_full_block == MissingBlockBehavior::ZeroFill {
            (
                OutcomeModel::Response(ResponseModel::WriteSingleRegister { address, value }),
                Seq::empty(),
            )
        } else {
            (spec_missing_outcome(b.missing_full_block), Seq::empty())
        },
        RequestModel::WriteMultipleCoils { address, values } => {
            let quantity = (values.len() % 0x1_0000) as u16;
            match spec_missing(m, address, quantity, b) {
                Some(o) => (o, Seq::empty()),
                None => (
                    OutcomeModel::Response(ResponseModel::WriteMultipleCoils { address, quantity }),
                    spec_multi_writes(m, RegisterKind::Coil, address, bit_words(values)),
                ),
            }
        },
        RequestModel::WriteMultipleRegisters { address, values } => {
            let quantity = (values.len() % 0x1_0000) as u16;
            match spec_missing(m, address, quantity, b) {
                Some(o) => (o, Seq::empty()),
                None => (
                    OutcomeModel::Response(
                        ResponseModel::WriteMultipleRegisters { address, quantity },
                    ),
                    spec_multi_writes(m, RegisterKind::Holding, address, values),
                ),
            }
        },
    }
}

/// The engine: a disabled function code is an illegal function; a request
/// over the register limit is an illegal data value; otherwise the request is
/// answered from the word map of its register table.
pub open spec fn spec_process(
    r: RequestModel,
    regs: Seq<RegisterPoint>,
    values: Map<u128, ValueModel>,
    b: BehaviorModel,
) -> (OutcomeModel, Seq<WordWrite>) {
    if b.disabled_function_codes.contains(spec_function_code(r)) {
        (OutcomeModel::Exception(ModbusException::IllegalFunction), Seq::empty())
    } else if b.max_registers_per_request is Some && spec_quantity(r)
        > b.max_registers_per_request->0 {
        (OutcomeModel::Exception(ModbusException::IllegalDataValue), Seq::empty())
    } else {
        spec_dispatch(r, word_map(regs, values, spec_target_kind(r)), b)
    }
}

/// `m` with the writes of one kind applied in order (later writes win).
pub open spec fn overlay(m: Map<u16, u16>, writes: Seq<WordWrite>, kind: RegisterKind) -> Map<
    u16,
    u16,
>
    decreases writes.len(),
{
    if writes.len() == 0 {
        m
    } else {
        let prev = overlay(m, writes.drop_last(), kind);
        let w = writes.last();
        if w.kind == kind {
            prev.insert(w.address, w.word)
        } else {
            prev
        }
    }
}

/// The value a point reads back from a word map: a bool from its slot for
/// bit kinds, otherwise its words decoded (`None` when they do not decode).
pub open spec fn decoded_point(rp: RegisterPoint, m: Map<u16, u16>) -> Option<ValueModel> {
    if rp.kind.spec_is_bit() {
        Some(ValueModel::Bool(read_word(m, rp.address) != 0))
    } else {
        spec_decode_value(
            Seq::new(rp.spec_word_count() as nat, |i: int| read_word(m, wrap_address(rp.address, i))),
            rp.data_type,
            rp.encoding,
            rp.byte_length,
        )
    }
}

/// Each point of the kind, in layout order, takes the value it reads back
/// from `m`; points whose words do not decode keep their value.
pub open spec fn refresh_points(
    regs: Seq<RegisterPoint>,
    kind: RegisterKind,
    m: Map<u16, u16>,
    values: Map<u128, ValueModel>,
) -> Map<u128, ValueModel>
    decreases regs.len(),
{
    if regs.len() == 0 {
        values
    } else {
        let prev = refresh_points(regs.drop_last(), kind, m, values);
        let rp = regs.last();
        if rp.kind == kind {
            match decoded_point(rp, m) {
                Some(v) => prev.insert(rp.id.0, v),
                None => prev,
            }
        } else {
            prev
        }
    }
}

/// One register table brought up to date: its word map, with the writes of
/// that kind laid over it, decoded back into point values.
pub open spec fn refresh_kind(
    regs: Seq<RegisterPoint>,
    values: Map<u128, ValueModel>,
    writes: Seq<WordWrite>,
    kind: RegisterKind,
) -> Map<u128, ValueModel> {
    refresh_points(regs, kind, overlay(word_map(regs, values, kind), writes, kind), values)
}

pub open spec fn has_kind(writes: Seq<WordWrite>, kind: RegisterKind) -> bool {
    exists|i: int| 0 <= i < writes.len() && writes[i].kind == kind
}

pub open spec fn refresh_if_written(
    regs: Seq<RegisterPoint>,
    values: Map<u128, ValueModel>,
    writes: Seq<WordWrite>,
    kind: RegisterKind,
) -> Map<u128, ValueModel> {
    if has_kind(writes, kind) {
        refresh_kind(regs, values, writes, kind)
    } else {
        values
    }
}

/// The device values after a state update: every register table that the
/// writes touch is refreshed, in the order holding, input, coil, discrete.
pub open spec fn spec_apply(
    regs: Seq<RegisterPoint>,
    values: Map<u128, ValueModel>,
    writes: Seq<WordWrite>,
) -> Map<u128, ValueModel> {
    let v1 = refresh_if_written(regs, values, writes, RegisterKind::Holding);
    let v2 = refresh_if_written(regs, v1, writes, RegisterKind::Input);
    let v3 = refresh_if_written(regs, v2, writes, RegisterKind::Coil);
    refresh_if_written(regs, v3, writes, RegisterKind::Discrete)
}

/// Every string point's byte length leaves room for its padded buffer.
pub open spec fn registers_ok(regs: Seq<RegisterPoint>) -> bool {
    forall|i: int|
        0 <= i < regs.len() ==> string_fits(#[trigger] regs[i].data_type, regs[i].byte_length)
}

// ---------------------------------------------------------------------------
// Executable code
// ---------------------------------------------------------------------------

impl ModbusRequest {
    /// The request's Modbus function code.
    pub fn function_code(&self) -> (r: u8)
        ensures
            r == spec_function_code(self@),
    {
        match self {
            ModbusRequest::ReadCoils { .. } => 1,
            ModbusRequest::ReadDiscreteInputs { .. } => 2,
            ModbusRequest::ReadHoldingRegisters { .. } => 3,
            ModbusRequest::ReadInputRegisters { .. } => 4,
            ModbusRequest::WriteSingleCoil { .. } => 5,
            ModbusRequest::WriteSingleRegister { .. } => 6,
            ModbusRequest::WriteMultipleCoils { .. } => 15,
            ModbusRequest::WriteMultipleRegisters { .. } => 16,
        }
    }

    pub fn quantity(&self) -> (r: u16)
        ensures
            r == spec_quantity(self@),
    {
        match self {
            ModbusRequest::ReadCoils { quantity, .. } => *quantity,
            ModbusRequest::ReadDiscreteInputs { quantity, .. } => *quantity,
            ModbusRequest::ReadHoldingRegisters { quantity, .. } => *quantity,
            ModbusRequest::ReadInputRegisters { quantity, .. } => *quantity,
            ModbusRequest::WriteSingleCoil { .. } => 1,
            ModbusRequest::WriteSingleRegister { .. } => 1,
            ModbusRequest::WriteMultipleCoils { values, .. } => (values.len() % 0x1_0000) as u16,
            ModbusRequest::WriteMultipleRegisters { values, .. } => (values.len() % 0x1_0000) as u16,
        }
    }

    pub fn target_kind(&self) -> (r: Option<RegisterKind>)
        ensures
            r == Some(spec_target_kind(self@)),
    {
        match self {
            ModbusRequest::ReadCoils { .. } => Some(RegisterKind::Coil),
            ModbusRequest::WriteSingleCoil { .. } => Some(RegisterKind::Coil),
            ModbusRequest::WriteMultipleCoils { .. } => Some(RegisterKind::Coil),
            ModbusRequest::ReadDiscreteInputs { .. } => Some(RegisterKind::Discrete),
            ModbusRequest::ReadHoldingRegisters { .. } => Some(RegisterKind::Holding),
            ModbusRequest::WriteSingleRegister { .. } => Some(RegisterKind::Holding),
            ModbusRequest::WriteMultipleRegisters { .. } => Some(RegisterKind::Holding),
            ModbusRequest::ReadInputRegisters { .. } => Some(RegisterKind::Input),
        }
    }

    /// Whether the request writes registers.
    pub fn is_write(&self) -> (r: bool)
        ensures
            r == spec_is_write(self@),
    {
        matches!(
            self,
            ModbusRequest::WriteSingleCoil { .. } | ModbusRequest::WriteSingleRegister { .. }
                | ModbusRequest::WriteMultipleCoils { .. }
                | ModbusRequest::WriteMultipleRegisters { .. }
        )
    }
}

fn exception_output(e: ModbusException) -> (r: EngineOutput)
    ensures
        r.outcome@ == OutcomeModel::Exception(e),
        r.state_update.writes@ == Seq::<WordWrite>::empty(),
{
    EngineOutput { outcome: Outcome::Exception(e), state_update: StateUpdate::default() }
}

fn contains_code(codes: &Vec<u8>, fc: u8) -> (r: bool)
    ensures
        r == codes@.contains(fc),
{
    let mut i: usize = 0;
    while i < codes.len()
        invariant
            i <= codes@.len(),
            forall|j: int| 0 <= j < i ==> codes@[j] != fc,
        decreases codes@.len() - i,
    {
        if codes[i] == fc {
            return true;
        }
        i = i + 1;
    }
    false
}

/// Process a single Modbus request.
pub fn process_request(
    request: &ModbusRequest,
    device: &Device,
    device_type: &DeviceType,
    effective: &DeviceBehavior,
) -> (r: EngineOutput)
    requires
        registers_ok(device_type.registers@),
    ensures
        (r.outcome@, r.state_update.writes@) == spec_process(
            request@,
            device_type.registers@,
            value_models(device.register_values@),
            effective.model(),
        ),
{
    let fc = request.function_code();
    if contains_code(&effective.disabled_function_codes, fc) {
        return exception_output(ModbusException::IllegalFunction);
    }
    if let Some(max) = effective.max_registers_per_request {
        if request.quantity() > max {
            return exception_output(ModbusException::IllegalDataValue);
        }
    }
    let kind = match request.target_kind() {
        Some(k) => k,
        None => {
            return exception_output(ModbusException::IllegalFunction);
        },
    };
    let map = materialize_words(device, device_type, kind);
    match request {
        ModbusRequest::ReadCoils { address, quantity } => read_bits(
            &map,
            *address,
            *quantity,
            effective,
            true,
        ),
        ModbusRequest::ReadDiscreteInputs { address, quantity } => read_bits(
            &map,
            *address,
            *quantity,
            effective,
            false,
        ),
        ModbusRequest::ReadHoldingRegisters { address, quantity } => read_words(
            &map,
            *address,
            *quantity,
            effective,
            true,
        ),
        ModbusRequest::ReadInputRegisters { address, quantity } => read_words(
            &map,
            *address,
            *quantity,
            effective,
            false,
        ),
        ModbusRequest::WriteSingleCoil { address, value } => write_single_bit(
            &map,
            *address,
            *value,
            effective,
        ),
        ModbusRequest::WriteSingleRegister { address, value } => write_single_word(
            &map,
            *address,
            *value,
            effective,
        ),
        ModbusRequest::WriteMultipleCoils { address, values } => write_multiple_bits(
            &map,
            *address,
            values,
            effective,
        ),
        ModbusRequest::WriteMultipleRegisters { address, values } => write_multiple_words(
            &map,
            *address,
            values,
            effective,
        ),
    }
}

/// The words one register point shows for its current value.
fn encode_point(rp: &RegisterPoint, value: &Value) -> (r: Vec<u16>)
    requires
        string_fits(rp.data_type, rp.byte_length),
    ensures
        r@ == spec_point_words(*rp, value@),
{
    if rp.kind.is_bit() {
        let b = match value {
            Value::Bool(v) => *v,
            Value::U16(n) => *n != 0,
            _ => false,
        };
        let w: u16 = if b {
            1
        } else {
            0
        };
        let r = vec![w];
        assert(r@ =~= seq![bit_word(bit_of(value@))]);
        return r;
    }
    match encode_value(value, rp.data_type, rp.encoding, rp.byte_length) {
        Ok(w) => w,
        Err(_) => {
            let n = rp.data_type.word_count(rp.byte_length);
            let r = vec![0u16; n];
            assert(r@ =~= Seq::new(spec_word_count(rp.data_type, rp.byte_length), |i: int| 0u16));
            r
        },
    }
}

/// For a register kind, the address -> word map of the device's current
/// values. For coils and discrete inputs a word holds 0 or 1.
fn materialize_words(device: &Device, device_type: &DeviceType, kind: RegisterKind) -> (r: BTreeMap<
    u16,
    u16,
>)
    requires
        registers_ok(device_type.registers@),
    ensures
        r@ == word_map(device_type.registers@, value_models(device.register_values@), kind),
{
    word_map_of(&device.register_values, &device_type.registers, kind)
}

fn word_map_of(values: &BTreeMap<u128, Value>, regs: &Vec<RegisterPoint>, kind: RegisterKind) -> (r:
    BTreeMap<u16, u16>)
    requires
        registers_ok(regs@),
    ensures
        r@ == word_map(regs@, value_models(values@), kind),
{
    let mut out: BTreeMap<u16, u16> = BTreeMap::new();
    let mut i: usize = 0;
    while i < regs.len()
        invariant
            i <= regs@.len(),
            registers_ok(regs@),
            out@ == word_map(regs@.take(i as int), value_models(values@), kind),
        decreases regs@.len() - i,
    {
        let rp = &regs[i];
        proof {
            assert(regs@.take(i as int + 1).drop_last() =~= regs@.take(i as int));
            assert(string_fits(regs@[i as int].data_type, regs@[i as int].byte_length));
        }
        if rp.kind == kind {
            let value: &Value = match values.get(&rp.id.0) {
                Some(v) => v,
                None => &rp.default_value,
            };
            let words = encode_point(rp, value);
            let ghost start = out@;
            let mut j: usize = 0;
            while j < words.len()
                invariant
                    j <= words@.len(),
                    out@ == place_words(start, rp.address, words@.take(j as int)),
                decreases words@.len() - j,
            {
                proof {
                    assert(words@.take(j as int + 1).drop_last() =~= words@.take(j as int));
                }
                let off = (j % 0x1_0000) as u16;
                let a = rp.address.saturating_add(off);
                assert(a == word_address(rp.address, j as int));
                out.insert(a, words[j]);
                j = j + 1;
            }
            assert(words@.take(words@.len() as int) =~= words@);
        }
        i = i + 1;
    }
    assert(regs@.take(regs@.len() as int) =~= regs@);
    out
}

fn coverage(map: &BTreeMap<u16, u16>, address: u16, quantity: u16) -> (r: Coverage)
    ensures
        r == spec_coverage(map@, address, quantity),
{
    let start: u32 = address as u32;
    let end: u32 = start + quantity as u32;
    let mut none_hit = true;
    let mut all_hit = true;
    let mut a: u32 = start;
    while a < end
        invariant
            start <= a <= end,
            start == address,
            end == address + quantity,
            none_hit == forall|x: int| start <= x < a ==> !covered(map@, x),
            all_hit == forall|x: int| start <= x < a ==> covered(map@, x),
        decreases end - a,
    {
        let hit = a <= 0xFFFF && map.contains_key(&(a as u16));
        assert(hit == covered(map@, a as int));
        none_hit = none_hit && !hit;
        all_hit = all_hit && hit;
        a = a + 1;
    }
    if none_hit {
        Coverage::Absent
    } else if all_hit {
        Coverage::Full
    } else {
        Coverage::Partial
    }
}

/// The answer to a missing block; callers handle ZeroFill before asking.
fn missing_outcome(behavior: MissingBlockBehavior) -> (r: Outcome)
    ensures
        r@ == spec_missing_outcome(behavior),
{
    match behavior {
        MissingBlockBehavior::IllegalDataAddress => Outcome::Exception(
            ModbusException::IllegalDataAddress,
        ),
        MissingBlockBehavior::IllegalFunction => Outcome::Exception(
            ModbusException::IllegalFunction,
        ),
        MissingBlockBehavior::SlaveDeviceFailure => Outcome::Exception(
            ModbusException::SlaveDeviceFailure,
        ),
        MissingBlockBehavior::Timeout => Outcome::Silence,
        MissingBlockBehavior::ZeroFill => Outcome::Exception(ModbusException::SlaveDeviceFailure),
    }
}

fn handle_missing(
    map: &BTreeMap<u16, u16>,
    address: u16,
    quantity: u16,
    effective: &DeviceBehavior,
) -> (r: Option<Outcome>)
    ensures
        match r {
            Some(o) => spec_missing(map@, address, quantity, effective.model()) == Some(o@),
            None => spec_missing(map@, address, quantity, effective.model()) is None,
        },
{
    match coverage(map, address, quantity) {
        Coverage::Full => None,
        Coverage::Absent => {
            if effective.missing_full_block == MissingBlockBehavior::ZeroFill {
                None
            } else {
                Some(missing_outcome(effective.missing_full_block))
            }
        },
        Coverage::Partial => {
            if effective.missing_partial_block == MissingBlockBehavior::ZeroFill {
                None
            } else {
                Some(missing_outcome(effective.missing_partial_block))
            }
        },
    }
}

fn lookup(map: &BTreeMap<u16, u16>, a: u16) -> (r: u16)
    ensures
        r == read_word(map@, a),
{
    match map.get(&a) {
        Some(w) => *w,
        None => 0,
    }
}

fn read_words(
    map: &BTreeMap<u16, u16>,
    address: u16,
    quantity: u16,
    effective: &DeviceBehavior,
    is_holding: bool,
) -> (r: EngineOutput)
    ensures
        (r.outcome@, r.state_update.writes@) == match spec_missing(
            map@,
            address,
            quantity,
            effective.model(),
        ) {
            Some(o) => (o, Seq::<WordWrite>::empty()),
            None => (
                OutcomeModel::Response(
                    if is_holding {
                        ResponseModel::ReadHoldingRegisters(spec_read_words(map@, address, quantity))
                    } else {
                        ResponseModel::ReadInputRegisters(spec_read_words(map@, address, quantity))
                    },
                ),
                Seq::<WordWrite>::empty(),
            ),
        },
{
    if let Some(o) = handle_missing(map, address, quantity, effective) {
        return EngineOutput { outcome: o, state_update: StateUpdate::default() };
    }
    let mut out: Vec<u16> = Vec::new();
    let mut i: u16 = 0;
    while i < quantity
        invariant
            i <= quantity,
            out@.len() == i,
            forall|k: int| 0 <= k < i ==> out@[k] == read_word(map@, wrap_address(address, k)),
        decreases quantity - i,
    {
        let a = ((address as u32 + i as u32) % 0x1_0000) as u16;
        out.push(lookup(map, a));
        i = i + 1;
    }
    assert(out@ =~= spec_read_words(map@, address, quantity));
    let response = if is_holding {
        ModbusResponse::ReadHoldingRegisters(out)
    } else {
        ModbusResponse::ReadInputRegisters(out)
    };
    EngineOutput { outcome: Outcome::Response(response), state_update: StateUpdate::default() }
}

fn read_bits(
    map: &BTreeMap<u16, u16>,
    address: u16,
    quantity: u16,
    effective: &DeviceBehavior,
    is_coil: bool,
) -> (r: EngineOutput)
    ensures
        (r.outcome@, r.state_update.writes@) == match spec_missing(
            map@,
            address,
            quantity,
            effective.model(),
        ) {
            Some(o) => (o, Seq::<WordWrite>::empty()),
            None => (
                OutcomeModel::Response(
                    if is_coil {
                        ResponseModel::ReadCoils(spec_read_bits(map@, address, quantity))
                    } else {
                        ResponseModel::ReadDiscreteInputs(spec_read_bits(map@, address, quantity))
                    },
                ),
                Seq::<WordWrite>::empty(),
            ),
        },
{
    if let Some(o) = handle_missing(map, address, quantity, effective) {
        return EngineOutput { outcome: o, state_update: StateUpdate::default() };
    }
    let mut out: Vec<bool> = Vec::new();
    let mut i: u16 = 0;
    while i < quantity
        invariant
            i <= quantity,
            out@.len() == i,
            forall|k: int|
                0 <= k < i ==> out@[k] == (read_word(map@, wrap_address(address, k)) != 0),
        decreases quantity - i,
    {
        let a = ((address as u32 + i as u32) % 0x1_0000) as u16;
        out.push(lookup(map, a) != 0);
        i = i + 1;
    }
    assert(out@ =~= spec_read_bits(map@, address, quantity));
    let response = if is_coil {
        ModbusResponse::ReadCoils(out)
    } else {
        ModbusResponse::ReadDiscreteInputs(out)
    };
    EngineOutput { outcome: Outcome::Response(response), state_update: StateUpdate::default() }
}

fn write_single_word(
    map: &BTreeMap<u16, u16>,
    address: u16,
    value: u16,
    effective: &DeviceBehavior,
) -> (r: EngineOutput)
    ensures
        (r.outcome@, r.state_update.writes@) == spec_dispatch(
            RequestModel::WriteSingleRegister { address, value },
            map@,
            effective.model(),
        ),
{
    if !map.contains_key(&address) {
        // A block that no point covers succeeds without effect under ZeroFill.
        let outcome = if effective.missing_full_block == MissingBlockBehavior::ZeroFill {
            Outcome::Response(ModbusResponse::WriteSingleRegister { address, value })
        } else {
            missing_outcome(effective.missing_full_block)
        };
        return EngineOutput { outcome, state_update: StateUpdate::default() };
    }
    let writes = vec![WordWrite { kind: RegisterKind::Holding, address, word: value }];
    assert(writes@ =~= seq![WordWrite { kind: RegisterKind::Holding, address, word: value }]);
    EngineOutput {
        outcome: Outcome::Response(ModbusResponse::WriteSingleRegister { address, value }),
        state_update: StateUpdate { writes },
    }
}

fn write_single_bit(
    map: &BTreeMap<u16, u16>,
    address: u16,
    value: bool,
    effective: &DeviceBehavior,
) -> (r: EngineOutput)
    ensures
        (r.outcome@, r.state_update.writes@) == spec_dispatch(
            RequestModel::WriteSingleCoil { address, value },
            map@,
            effective.model(),
        ),
{
    if !map.contains_key(&address) {
        // A block that no point covers succeeds without effect under ZeroFill.
        let outcome = if effective.missing_full_block == MissingBlockBehavior::ZeroFill {
            Outcome::Response(ModbusResponse::WriteSingleCoil { address, value })
        } else {
            missing_outcome(effective.missing_full_block)
        };
        return EngineOutput { outcome, state_update: StateUpdate::default() };
    }
    let word: u16 = if value {
        1
    } else {
        0
    };
    let writes = vec![WordWrite { kind: RegisterKind::Coil, address, word }];
    assert(writes@ =~= seq![WordWrite { kind: RegisterKind::Coil, address, word: bit_word(value) }]);
    EngineOutput {
        outcome: Outcome::Response(ModbusResponse::WriteSingleCoil { address, value }),
        state_update: StateUpdate { writes },
    }
}

fn collect_writes(map: &BTreeMap<u16, u16>, kind: RegisterKind, address: u16, words: &Vec<u16>) -> (r:
    Vec<WordWrite>)
    ensures
        r@ == spec_multi_writes(map@, kind, address, words@),
{
    let mut out: Vec<WordWrite> = Vec::new();
    let mut i: usize = 0;
    while i < words.len()
        invariant
            i <= words@.len(),
            out@ == spec_multi_writes(map@, kind, address, words@.take(i as int)),
        decreases words@.len() - i,
    {
        proof {
            assert(words@.take(i as int + 1).drop_last() =~= words@.take(i as int));
        }
        let a = ((address as usize + i % 0x1_0000) % 0x1_0000) as u16;
        assert(a == wrap_address(address, i as int));
        if map.contains_key(&a) {
            out.push(WordWrite { kind, address: a, word: words[i] });
        }
        i = i + 1;
    }
    assert(words@.take(words@.len() as int) =~= words@);
    out
}

fn write_multiple_words(
    map: &BTreeMap<u16, u16>,
    address: u16,
    values: &Vec<u16>,
    effective: &DeviceBehavior,
) -> (r: EngineOutput)
    ensures
        (r.outcome@, r.state_update.writes@) == spec_dispatch(
            RequestModel::WriteMultipleRegisters { address, values: values@ },
            map@,
            effective.model(),
        ),
{
    let quantity = (values.len() % 0x1_0000) as u16;
    if let Some(o) = handle_missing(map, address, quantity, effective) {
        return EngineOutput { outcome: o, state_update: StateUpdate::default() };
    }
    let writes = collect_writes(map, RegisterKind::Holding, address, values);
    EngineOutput {
        outcome: Outcome::Response(ModbusResponse::WriteMultipleRegisters { address, quantity }),
        state_update: StateUpdate { writes },
    }
}

fn write_multiple_bits(
    map: &BTreeMap<u16, u16>,
    address: u16,
    values: &Vec<bool>,
    effective: &DeviceBehavior,
) -> (r: EngineOutput)
    ensures
        (r.outcome@, r.state_update.writes@) == spec_dispatch(
            RequestModel::WriteMultipleCoils { address, values: values@ },
            map@,
            effective.model(),
        ),
{
    let quantity = (values.len() % 0x1_0000) as u16;
    if let Some(o) = handle_missing(map, address, quantity, effective) {
        return EngineOutput { outcome: o, state_update: StateUpdate::default() };
    }
    let mut words: Vec<u16> = Vec::new();
    let mut i: usize = 0;
    while i < values.len()
        invariant
            i <= values@.len(),
            words@.len() == i,
            forall|k: int| 0 <= k < i ==> words@[k] == bit_word(values@[k]),
        decreases values@.len() - i,
    {
        words.push(if values[i] { 1u16 } else { 0u16 });
        i = i + 1;
    }
    assert(words@ =~= bit_words(values@));
    let writes = collect_writes(map, RegisterKind::Coil, address, &words);
    EngineOutput {
        outcome: Outcome::Response(ModbusResponse::WriteMultipleCoils { address, quantity }),
        state_update: StateUpdate { writes },
    }
}

fn has_kind_exec(writes: &Vec<WordWrite>, kind: RegisterKind) -> (r: bool)
    ensures
        r == has_kind(writes@, kind),
{
    let mut i: usize = 0;
    while i < writes.len()
        invariant
            i <= writes@.len(),
            forall|j: int| 0 <= j < i ==> writes@[j].kind != kind,
        decreases writes@.len() - i,
    {
        if writes[i].kind == kind {
            return true;
        }
        i = i + 1;
    }
    false
}

fn refresh(values: &mut BTreeMap<u128, Value>, regs: &Vec<RegisterPoint>, writes: &Vec<WordWrite>, kind: RegisterKind)
    requires
        registers_ok(regs@),
    ensures
        value_models(final(values)@) == refresh_kind(
            regs@,
            value_models(old(values)@),
            writes@,
            kind,
        ),
{
    let ghost values0 = value_models(values@);
    let mut map = word_map_of(values, regs, kind);
    let ghost base = map@;
    let mut k: usize = 0;
    while k < writes.len()
        invariant
            k <= writes@.len(),
            map@ == overlay(base, writes@.take(k as int), kind),
        decreases writes@.len() - k,
    {
        proof {
            assert(writes@.take(k as int + 1).drop_last() =~= writes@.take(k as int));
        }
        let w = writes[k];
        if w.kind == kind {
            map.insert(w.address, w.word);
        }
        k = k + 1;
    }
    assert(writes@.take(writes@.len() as int) =~= writes@);
    let ghost m = map@;
    let mut i: usize = 0;
    while i < regs.len()
        invariant
            i <= regs@.len(),
            m == map@,
            value_models(values@) == refresh_points(
                regs@.take(i as int),
                kind,
                m,
                values0,
            ),
        decreases regs@.len() - i,
    {
        proof {
            assert(regs@.take(i as int + 1).drop_last() =~= regs@.take(i as int));
        }
        let rp = &regs[i];
        if rp.kind == kind {
            let span = rp.word_count();
            let mut words: Vec<u16> = Vec::new();
            let mut j: u16 = 0;
            while j < span
                invariant
                    j <= span,
                    words@.len() == j,
                    forall|t: int|
                        0 <= t < j ==> words@[t] == read_word(map@, wrap_address(rp.address, t)),
                decreases span - j,
            {
                let a = ((rp.address as u32 + j as u32) % 0x1_0000) as u16;
                words.push(lookup(&map, a));
                j = j + 1;
            }
            assert(words@ =~= Seq::new(
                rp.spec_word_count() as nat,
                |t: int| read_word(m, wrap_address(rp.address, t)),
            ));
            let ghost before = values@;
            if rp.kind.is_bit() {
                let first = if words.len() > 0 {
                    words[0]
                } else {
                    0
                };
                assert(first == read_word(m, rp.address));
                values.insert(rp.id.0, Value::Bool(first != 0));
                proof {
                    assert(value_models(values@) =~= value_models(before).insert(
                        rp.id.0,
                        ValueModel::Bool(first != 0),
                    ));
                }
            } else {
                proof {
                    assert(spec_word_count(rp.data_type, rp.byte_length) < 0x1_0000 || rp.data_type
                        == crate::encoding::DataType::String);
                }
                match decode_value(words.as_slice(), rp.data_type, rp.encoding, rp.byte_length) {
                    Ok(v) => {
                        let ghost vm = v@;
                        values.insert(rp.id.0, v);
                        proof {
                            assert(value_models(values@) =~= value_models(
                                before,
                            ).insert(rp.id.0, vm));
                        }
                    },
                    Err(_) => {},
                }
            }
        }
        i = i + 1;
    }
    assert(regs@.take(regs@.len() as int) =~= regs@);
}

/// Apply a [`StateUpdate`] to the device's per-register values: every
/// register table that the writes touch is rebuilt from the current values,
/// overlaid with the writes and decoded back into the points' values.
pub fn apply_state_update(device: &mut Device, device_type: &DeviceType, update: &StateUpdate)
    requires
        registers_ok(device_type.registers@),
    ensures
        value_models(final(device).register_values@) == if update.writes@.len() == 0 {
            value_models(old(device).register_values@)
        } else {
            spec_apply(
                device_type.registers@,
                value_models(old(device).register_values@),
                update.writes@,
            )
        },
        final(device).id == old(device).id,
        final(device).name == old(device).name,
        final(device).slave_id == old(device).slave_id,
        final(device).device_type_id == old(device).device_type_id,
        final(device).behavior_overrides == old(device).behavior_overrides,
{
    apply_writes(&mut device.register_values, &device_type.registers, &update.writes);
}

/// The runtime values after the writes: unchanged without writes, otherwise
/// every register table they touch is refreshed.
pub fn apply_writes(values: &mut BTreeMap<u128, Value>, regs: &Vec<RegisterPoint>, writes: &Vec<WordWrite>)
    requires
        registers_ok(regs@),
    ensures
        value_models(final(values)@) == if writes@.len() == 0 {
            value_models(old(values)@)
        } else {
            spec_apply(regs@, value_models(old(values)@), writes@)
        },
{
    if writes.len() == 0 {
        return;
    }
    if has_kind_exec(writes, RegisterKind::Holding) {
        refresh(values, regs, writes, RegisterKind::Holding);
    }
    if has_kind_exec(writes, RegisterKind::Input) {
        refresh(values, regs, writes, RegisterKind::Input);
    }
    if has_kind_exec(writes, RegisterKind::Coil) {
        refresh(values, regs, writes, RegisterKind::Coil);
    }
    if has_kind_exec(writes, RegisterKind::Discrete) {
        refresh(values, regs, writes, RegisterKind::Discrete);
    }
}

/// Whether every string point's byte length leaves room for its padded
/// buffer (the condition the engine needs of a layout).
pub fn layout_ok(regs: &Vec<RegisterPoint>) -> (r: bool)
    ensures
        r == registers_ok(regs@),
{
    let mut i: usize = 0;
    while i < regs.len()
        invariant
            i <= regs@.len(),
            forall|j: int|
                0 <= j < i ==> string_fits(#[trigger] regs@[j].data_type, regs@[j].byte_length),
        decreases regs@.len() - i,
    {
        if regs[i].data_type == crate::encoding::DataType::String {
            match regs[i].byte_length {
                Some(b) => {
                    if b == usize::MAX {
                        return false;
                    }
                },
                None => {},
            }
        }
        i = i + 1;
    }
    true
}

} // verus!
