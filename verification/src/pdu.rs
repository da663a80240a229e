//! Modbus PDU parsing and serialization. Transport-agnostic.

use vstd::prelude::*;
use crate::engine::{
    ModbusException, ModbusRequest, ModbusResponse, RequestModel, ResponseModel, spec_function_code,
};

verus! {

/// Why a request PDU was refused.
#[derive(Debug, Clone, Copy, PartialEq, Eq, Structural)]
pub enum PduError {
    /// The PDU ends before its fields do.
    Short,
    /// The function code is not one the simulator implements.
    UnsupportedFunction(u8),
    /// A single-coil write whose value is neither 0x0000 nor 0xFF00.
    InvalidQuantity,
    /// A multiple write whose byte count does not match its quantity.
    InvalidByteCount,
}

/// The big-endian 16-bit number in two bytes.
pub open spec fn be16(hi: u8, lo: u8) -> u16 {
    (hi as nat * 256 + lo as nat) as u16
}

/// Bit `k` (0 = least significant) of a byte.
pub open spec fn byte_bit(b: u8, k: int) -> bool {
    (b >> (k as u8)) & 1u8 != 0
}

/// The coil values of a multiple-coil write: bit `i % 8` of byte `i / 8`.
pub open spec fn unpack_bits(bytes: Seq<u8>, quantity: nat) -> Seq<bool> {
    Seq::new(quantity, |i: int| byte_bit(bytes[i / 8], i % 8))
}

/// The register values of a multiple-register write: big-endian pairs.
pub open spec fn unpack_words(bytes: Seq<u8>) -> Seq<u16> {
    Seq::new(bytes.len() / 2, |i: int| be16(bytes[2 * i], bytes[2 * i + 1]))
}

/// What a request PDU (function code first) parses to.
pub open spec fn spec_parse_request(p: Seq<u8>) -> Result<RequestModel, PduError> {
    if p.len() == 0 {
        Err(PduError::Short)
    } else {
        let fc = p[0];
        let d = p.drop_first();
        if 1 <= fc <= 4 {
            if d.len() < 4 {
                Err(PduError::Short)
            } else {
                let address = be16(d[0], d[1]);
                let quantity = be16(d[2], d[3]);
                Ok(
                    if fc == 1 {
                        RequestModel::ReadCoils { address, quantity }
                    } else if fc == 2 {
                        RequestModel::ReadDiscreteInputs { address, quantity }
                    } else if fc == 3 {
                        RequestModel::ReadHoldingRegisters { address, quantity }
                    } else {
                        RequestModel::ReadInputRegisters { address, quantity }
                    },
                )
            }
        } else if fc == 5 {
            if d.len() < 4 {
                Err(PduError::Short)
            } else {
                let val = be16(d[2], d[3]);
                if val == 0 {
                    Ok(RequestModel::WriteSingleCoil { address: be16(d[0], d[1]), value: false })
                } else if val == 0xFF00 {
                    Ok(RequestModel::WriteSingleCoil { address: be16(d[0], d[1]), value: true })
                } else {
                    Err(PduError::InvalidQuantity)
                }
            }
        } else if fc == 6 {
            if d.len() < 4 {
                Err(PduError::Short)
            } else {
                Ok(
                    RequestModel::WriteSingleRegister {
                        address: be16(d[0], d[1]),
                        value: be16(d[2], d[3]),
                    },
                )
            }
        } else if fc == 15 {
            if d.len() < 5 {
                Err(PduError::Short)
            } else {
                let quantity = be16(d[2], d[3]) as nat;
                let byte_count = d[4] as nat;
                if d.len() < 5 + byte_count {
                    Err(PduError::Short)
                } else if byte_count != quantity / 8 + (if quantity % 8 == 0 { 0nat } else { 1 }) {
                    Err(PduError::InvalidByteCount)
                } else {
                    Ok(
                        RequestModel::WriteMultipleCoils {
                            address: be16(d[0], d[1]),
                            values: unpack_bits(d.subrange(5, 5 + byte_count as int), quantity),
                        },
                    )
                }
            }
        } else if fc == 16 {
            if d.len() < 5 {
                Err(PduError::Short)
            } else {
                let quantity = be16(d[2], d[3]) as nat;
                let byte_count = d[4] as nat;
                if byte_count != quantity * 2 || d.len() < 5 + byte_count {
                    Err(PduError::InvalidByteCount)
                } else {
                    Ok(
                        RequestModel::WriteMultipleRegisters {
                            address: be16(d[0], d[1]),
                            values: unpack_words(d.subrange(5, 5 + byte_count as int)),
                        },
                    )
                }
            }
        } else {
            Err(PduError::UnsupportedFunction(fc))
        }
    }
}

/// The two big-endian bytes of a word.
pub open spec fn be_pair(w: u16) -> Seq<u8> {
    seq![(w / 256) as u8, (w % 256) as u8]
}

/// Byte `j` of the packed bit field: bit `k` is `bits[8 * j + k]`.
pub open spec fn pack_byte(bits: Seq<bool>, j: int) -> u8 {
    pack_bits_from(bits, j, 8)
}

/// The low `k` bits of byte `j` of the packed bit field, as a number.
pub open spec fn pack_bits_from(bits: Seq<bool>, j: int, k: nat) -> u8
    decreases k,
{
    if k == 0 {
        0
    } else {
        let i = 8 * j + (k - 1);
        let b: nat = if 0 <= i < bits.len() && bits[i] {
            1
        } else {
            0
        };
        (pack_bits_from(bits, j, (k - 1) as nat) as nat + b * pow2((k - 1) as nat)) as u8
    }
}

pub open spec fn pow2(k: nat) -> nat
    decreases k,
{
    if k == 0 {
        1
    } else {
        2 * pow2((k - 1) as nat)
    }
}

pub open spec fn div_ceil8(n: nat) -> nat {
    n / 8 + if n % 8 == 0 {
        0nat
    } else {
        1
    }
}

/// A bit-read response: function code, byte count, the packed bits.
pub open spec fn spec_bits_pdu(fc: u8, bits: Seq<bool>) -> Seq<u8> {
    let n = div_ceil8(bits.len());
    seq![fc, (n % 256) as u8] + Seq::new(n, |j: int| pack_byte(bits, j))
}

/// A register-read response: function code, byte count, the words.
pub open spec fn spec_words_pdu(fc: u8, words: Seq<u16>) -> Seq<u8> {
    seq![fc, ((2 * words.len()) % 256) as u8] + Seq::new(
        2 * words.len(),
        |j: int|
            if j % 2 == 0 {
                (words[j / 2] / 256) as u8
            } else {
                (words[j / 2] % 256) as u8
            },
    )
}

/// The response PDU of an engine response.
pub open spec fn spec_build_response(r: ResponseModel) -> Seq<u8> {
    match r {
        ResponseModel::ReadCoils(bits) => spec_bits_pdu(1, bits),
        ResponseModel::ReadDiscreteInputs(bits) => spec_bits_pdu(2, bits),
        ResponseModel::ReadHoldingRegisters(words) => spec_words_pdu(3, words),
        ResponseModel::ReadInputRegisters(words) => spec_words_pdu(4, words),
        ResponseModel::WriteSingleCoil { address, value } => seq![5u8] + be_pair(address) + be_pair(
            if value {
                0xFF00u16
            } else {
                0u16
            },
        ),
        ResponseModel::WriteSingleRegister { address, value } => seq![6u8] + be_pair(address)
            + be_pair(value),
        ResponseModel::WriteMultipleCoils { address, quantity } => seq![15u8] + be_pair(address)
            + be_pair(quantity),
        ResponseModel::WriteMultipleRegisters { address, quantity } => seq![16u8] + be_pair(
            address,
        ) + be_pair(quantity),
    }
}

fn be16_of(hi: u8, lo: u8) -> (r: u16)
    ensures
        r == be16(hi, lo),
{
    (hi as u16) * 256 + (lo as u16)
}

fn push_be(out: &mut Vec<u8>, w: u16)
    ensures
        final(out)@ == old(out)@ + be_pair(w),
{
    out.push((w / 256) as u8);
    out.push((w % 256) as u8);
    assert(final(out)@ =~= old(out)@ + be_pair(w));
}

/// Parse a request PDU (starting with the function code byte).
pub fn parse_request(pdu: &[u8]) -> (r: Result<ModbusRequest, PduError>)
    ensures
        match r {
            Ok(req) => spec_parse_request(pdu@) == Ok::<RequestModel, PduError>(req@),
            Err(e) => spec_parse_request(pdu@) == Err::<RequestModel, PduError>(e),
        },
{
    if pdu.len() == 0 {
        return Err(PduError::Short);
    }
    let fc = pdu[0];
    let n = pdu.len() - 1;
    let ghost d = pdu@.drop_first();
    assert(forall|i: int| 0 <= i < n ==> d[i] == pdu@[i + 1]);
    if 1 <= fc && fc <= 4 {
        if n < 4 {
            return Err(PduError::Short);
        }
        let address = be16_of(pdu[1], pdu[2]);
        let quantity = be16_of(pdu[3], pdu[4]);
        return Ok(
            if fc == 1 {
                ModbusRequest::ReadCoils { address, quantity }
            } else if fc == 2 {
                ModbusRequest::ReadDiscreteInputs { address, quantity }
            } else if fc == 3 {
                ModbusRequest::ReadHoldingRegisters { address, quantity }
            } else {
                ModbusRequest::ReadInputRegisters { address, quantity }
            },
        );
    }
    if fc == 5 {
        if n < 4 {
            return Err(PduError::Short);
        }
        let address = be16_of(pdu[1], pdu[2]);
        let val = be16_of(pdu[3], pdu[4]);
        let value = if val == 0 {
            false
        } else if val == 0xFF00 {
            true
        } else {
            return Err(PduError::InvalidQuantity);
        };
        return Ok(ModbusRequest::WriteSingleCoil { address, value });
    }
    if fc == 6 {
        if n < 4 {
            return Err(PduError::Short);
        }
        let address = be16_of(pdu[1], pdu[2]);
        let value = be16_of(pdu[3], pdu[4]);
        return Ok(ModbusRequest::WriteSingleRegister { address, value });
    }
    if fc == 15 {
        if n < 5 {
            return Err(PduError::Short);
        }
        let address = be16_of(pdu[1], pdu[2]);
        let quantity = be16_of(pdu[3], pdu[4]) as usize;
        let byte_count = pdu[5] as usize;
        if n < 5 + byte_count {
            return Err(PduError::Short);
        }
        if byte_count != quantity / 8 + (if quantity % 8 == 0 { 0 } else { 1 }) {
            return Err(PduError::InvalidByteCount);
        }
        let ghost bits = d.subrange(5, 5 + byte_count as int);
        let mut values: Vec<bool> = Vec::new();
        let mut i: usize = 0;
        while i < quantity
            invariant
                i <= quantity,
                quantity <= 0xFFFF,
                byte_count == quantity / 8 + (if quantity % 8 == 0 { 0usize } else { 1 }),
                5 + byte_count <= n,
                n == pdu@.len() - 1,
                d == pdu@.drop_first(),
                bits == d.subrange(5, 5 + byte_count as int),
                values@.len() == i,
                forall|k: int| 0 <= k < i ==> values@[k] == byte_bit(bits[k / 8], k % 8),
            decreases quantity - i,
        {
            let b = pdu[6 + i / 8];
            assert(b == bits[i as int / 8]);
            let sh = (i % 8) as u8;
            values.push(((b >> sh) & 1) != 0);
            i = i + 1;
        }
        assert(values@ =~= unpack_bits(bits, quantity as nat));
        return Ok(ModbusRequest::WriteMultipleCoils { address, values });
    }
    if fc == 16 {
        if n < 5 {
            return Err(PduError::Short);
        }
        let address = be16_of(pdu[1], pdu[2]);
        let quantity = be16_of(pdu[3], pdu[4]) as usize;
        let byte_count = pdu[5] as usize;
        if byte_count != quantity * 2 || n < 5 + byte_count {
            return Err(PduError::InvalidByteCount);
        }
        let ghost bytes = d.subrange(5, 5 + byte_count as int);
        let mut regs: Vec<u16> = Vec::new();
        let mut i: usize = 0;
        while i < quantity
            invariant
                i <= quantity,
                quantity <= 0xFFFF,
                byte_count == quantity * 2,
                5 + byte_count <= n,
                n == pdu@.len() - 1,
                d == pdu@.drop_first(),
                bytes == d.subrange(5, 5 + byte_count as int),
                regs@.len() == i,
                forall|k: int| 0 <= k < i ==> regs@[k] == be16(bytes[2 * k], bytes[2 * k + 1]),
            decreases quantity - i,
        {
            regs.push(be16_of(pdu[6 + 2 * i], pdu[7 + 2 * i]));
            i = i + 1;
        }
        assert(regs@ =~= unpack_words(bytes));
        return Ok(ModbusRequest::WriteMultipleRegisters { address, values: regs });
    }
    Err(PduError::UnsupportedFunction(fc))
}

/// Build a response PDU from an engine response. The function code is
/// derived from the response variant.
pub fn build_response(resp: &ModbusResponse) -> (r: Vec<u8>)
    ensures
        r@ == spec_build_response(resp@),
{
    match resp {
        ModbusResponse::ReadCoils(bits) => build_bits(1, bits),
        ModbusResponse::ReadDiscreteInputs(bits) => build_bits(2, bits),
        ModbusResponse::ReadHoldingRegisters(words) => build_words(3, words),
        ModbusResponse::ReadInputRegisters(words) => build_words(4, words),
        ModbusResponse::WriteSingleCoil { address, value } => {
            let v: u16 = if *value {
                0xFF00
            } else {
                0x0000
            };
            let mut out = vec![5u8];
            push_be(&mut out, *address);
            push_be(&mut out, v);
            out
        },
        ModbusResponse::WriteSingleRegister { address, value } => {
            let mut out = vec![6u8];
            push_be(&mut out, *address);
            push_be(&mut out, *value);
            out
        },
        ModbusResponse::WriteMultipleCoils { address, quantity } => {
            let mut out = vec![15u8];
            push_be(&mut out, *address);
            push_be(&mut out, *quantity);
            out
        },
        ModbusResponse::WriteMultipleRegisters { address, quantity } => {
            let mut out = vec![16u8];
            push_be(&mut out, *address);
            push_be(&mut out, *quantity);
            out
        },
    }
}

proof fn lemma_pack_bound(bits: Seq<bool>, j: int, k: nat)
    requires
        k <= 8,
    ensures
        (pack_bits_from(bits, j, k) as nat) < pow2(k),
        k < 8 ==> pack_bits_from(bits, j, k) as nat + (if 0 <= 8 * j + k < bits.len() && bits[8
            * j + k] { 1nat } else { 0nat }) * pow2(k) < 256,
    decreases k,
{
    reveal_with_fuel(pow2, 9);
    if k > 0 {
        lemma_pack_bound(bits, j, (k - 1) as nat);
    }
}

fn build_bits(fc: u8, bits: &Vec<bool>) -> (r: Vec<u8>)
    ensures
        r@ == spec_bits_pdu(fc, bits@),
{
    let len = bits.len();
    let byte_count = len / 8 + (if len % 8 == 0 { 0 } else { 1 });
    let mut out = vec![fc, (byte_count % 256) as u8];
    let mut j: usize = 0;
    while j < byte_count
        invariant
            j <= byte_count,
            len == bits@.len(),
            byte_count == div_ceil8(len as nat),
            out@.len() == 2 + j,
            out@[0] == fc,
            out@[1] == (byte_count % 256) as u8,
            forall|t: int| 2 <= t < 2 + j ==> #[trigger] out@[t] == pack_byte(bits@, t - 2),
        decreases byte_count - j,
    {
        let mut acc: u8 = 0;
        let mut k: usize = 0;
        let mut p: u8 = 1;
        while k < 8
            invariant
                k <= 8,
                j < byte_count,
                byte_count == div_ceil8(len as nat),
                len == bits@.len(),
                k < 8 ==> p as nat == pow2(k as nat),
                acc == pack_bits_from(bits@, j as int, k as nat),
            decreases 8 - k,
        {
            proof {
                lemma_pack_bound(bits@, j as int, k as nat);
                reveal_with_fuel(pow2, 9);
            }
            let i = 8 * j + k;
            if i < len && bits[i] {
                acc = acc + p;
            }
            if k < 7 {
                p = p * 2;
            }
            k = k + 1;
        }
        out.push(acc);
        j = j + 1;
    }
    assert(out@ =~= spec_bits_pdu(fc, bits@));
    out
}

fn build_words(fc: u8, words: &Vec<u16>) -> (r: Vec<u8>)
    ensures
        r@ == spec_words_pdu(fc, words@),
{
    let count_byte = ((words.len() % 128) * 2) as u8;
    let mut out = vec![fc, count_byte];
    let mut i: usize = 0;
    while i < words.len()
        invariant
            i <= words@.len(),
            count_byte == ((2 * words@.len()) % 256) as u8,
            out@.len() == 2 + 2 * i,
            out@[0] == fc,
            out@[1] == count_byte,
            forall|j: int|
                2 <= j < 2 + 2 * i ==> #[trigger] out@[j] == if (j - 2) % 2 == 0 {
                    (words@[(j - 2) / 2] / 256) as u8
                } else {
                    (words@[(j - 2) / 2] % 256) as u8
                },
        decreases words@.len() - i,
    {
        let w = words[i];
        out.push((w / 256) as u8);
        out.push((w % 256) as u8);
        i = i + 1;
    }
    assert(out@ =~= spec_words_pdu(fc, words@));
    out
}

/// An exception PDU: the function code with the high bit set, then the
/// exception code.
pub fn build_exception(function_code: u8, ex: ModbusException) -> (r: Vec<u8>)
    ensures
        r@ == seq![function_code | 0x80u8, ex.spec_code()],
{
    let r = vec![function_code | 0x80, ex.code()];
    assert(r@ =~= seq![function_code | 0x80u8, ex.spec_code()]);
    r
}

/// The big-endian number in bytes `i` and `i + 1` of a PDU.
pub open spec fn pdu_word(p: Seq<u8>, i: int) -> int {
    p[i] as int * 256 + p[i + 1] as int
}

/// A request parses as the function its first byte names, at the address in
/// bytes 1-2. A read asks for the quantity in bytes 3-4, a single register
/// write carries the value in bytes 3-4, a single coil write turns the coil
/// on exactly when bytes 3-4 are `FF 00` (and off when they are `00 00`),
/// and a multiple write carries as many values as bytes 3-4 say.
pub proof fn law_parse_follows_header(p: Seq<u8>, r: RequestModel)
    requires
        spec_parse_request(p) == Ok::<RequestModel, PduError>(r),
    ensures
        p.len() >= 5,
        spec_function_code(r) == p[0],
        r matches RequestModel::ReadCoils { address, quantity } ==> address == pdu_word(p, 1)
            && quantity == pdu_word(p, 3),
        r matches RequestModel::ReadDiscreteInputs { address, quantity } ==> address == pdu_word(p, 1)
            && quantity == pdu_word(p, 3),
        r matches RequestModel::ReadHoldingRegisters { address, quantity } ==> address == pdu_word(
            p,
            1,
        ) && quantity == pdu_word(p, 3),
        r matches RequestModel::ReadInputRegisters { address, quantity } ==> address == pdu_word(p, 1)
            && quantity == pdu_word(p, 3),
        r matches RequestModel::WriteSingleCoil { address, value } ==> address == pdu_word(p, 1) && (
        value ==> p[3] == 0xFF && p[4] == 0) && (!value ==> p[3] == 0 && p[4] == 0),
        r matches RequestModel::WriteSingleRegister { address, value } ==> address == pdu_word(p, 1)
            && value == pdu_word(p, 3),
        r matches RequestModel::WriteMultipleCoils { address, values } ==> address == pdu_word(p, 1)
            && values.len() == pdu_word(p, 3),
        r matches RequestModel::WriteMultipleRegisters { address, values } ==> address == pdu_word(
            p,
            1,
        ) && values.len() == pdu_word(p, 3),
{
}

/// The answer to a single write echoes the request: function code, the
/// address big-endian, then the coil as `FF 00` (on) or `00 00` (off), or
/// the register value big-endian; read as a request, it is that write.
pub proof fn law_single_write_echo(address: u16, value: u16, on: bool)
    ensures
        spec_build_response(ResponseModel::WriteSingleCoil { address, value: on }) == seq![
            5u8,
            (address / 256) as u8,
            (address % 256) as u8,
            if on {
                0xFFu8
            } else {
                0u8
            },
            0u8,
        ],
        spec_parse_request(spec_build_response(ResponseModel::WriteSingleCoil { address, value: on }))
            == Ok::<RequestModel, PduError>(RequestModel::WriteSingleCoil { address, value: on }),
        spec_build_response(ResponseModel::WriteSingleRegister { address, value }) == seq![
            6u8,
            (address / 256) as u8,
            (address % 256) as u8,
            (value / 256) as u8,
            (value % 256) as u8,
        ],
        spec_parse_request(spec_build_response(ResponseModel::WriteSingleRegister { address, value }))
            == Ok::<RequestModel, PduError>(RequestModel::WriteSingleRegister { address, value }),
{
    let c = spec_build_response(ResponseModel::WriteSingleCoil { address, value: on });
    assert(c =~= seq![
        5u8,
        (address / 256) as u8,
        (address % 256) as u8,
        if on {
            0xFFu8
        } else {
            0u8
        },
        0u8,
    ]);
    assert(be16((address / 256) as u8, (address % 256) as u8) == address);
    assert(c.drop_first()[0] == (address / 256) as u8);
    assert(c.drop_first()[1] == (address % 256) as u8);
    assert(c.drop_first()[2] == c[3]);
    assert(c.drop_first()[3] == c[4]);
    let w = spec_build_response(ResponseModel::WriteSingleRegister { address, value });
    assert(w =~= seq![
        6u8,
        (address / 256) as u8,
        (address % 256) as u8,
        (value / 256) as u8,
        (value % 256) as u8,
    ]);
    assert(be16((value / 256) as u8, (value % 256) as u8) == value);
    assert(w.drop_first()[0] == (address / 256) as u8);
    assert(w.drop_first()[1] == (address % 256) as u8);
    assert(w.drop_first()[2] == (value / 256) as u8);
    assert(w.drop_first()[3] == (value % 256) as u8);
}

/// The answer to a multiple write echoes its function code, the address and
/// the quantity, each big-endian.
pub proof fn law_multi_write_echo(address: u16, quantity: u16)
    ensures
        spec_build_response(ResponseModel::WriteMultipleCoils { address, quantity }) == seq![
            15u8,
            (address / 256) as u8,
            (address % 256) as u8,
            (quantity / 256) as u8,
            (quantity % 256) as u8,
        ],
        spec_build_response(ResponseModel::WriteMultipleRegisters { address, quantity }) == seq![
            16u8,
            (address / 256) as u8,
            (address % 256) as u8,
            (quantity / 256) as u8,
            (quantity % 256) as u8,
        ],
{
    assert(spec_build_response(ResponseModel::WriteMultipleCoils { address, quantity }) =~= seq![
        15u8,
        (address / 256) as u8,
        (address % 256) as u8,
        (quantity / 256) as u8,
        (quantity % 256) as u8,
    ]);
    assert(spec_build_response(ResponseModel::WriteMultipleRegisters { address, quantity }) =~= seq![
        16u8,
        (address / 256) as u8,
        (address % 256) as u8,
        (quantity / 256) as u8,
        (quantity % 256) as u8,
    ]);
}

/// The answer to a register read is its function code (3 for holding, 4
/// for input registers), the byte count, then each word big-endian in
/// order.
pub proof fn law_register_read_answer(words: Seq<u16>, holding: bool)
    requires
        words.len() <= 127,
    ensures
        ({
            let r = spec_build_response(
                if holding {
                    ResponseModel::ReadHoldingRegisters(words)
                } else {
                    ResponseModel::ReadInputRegisters(words)
                },
            );
            &&& r.len() == 2 + 2 * words.len()
            &&& r[0] == (if holding {
                3u8
            } else {
                4u8
            })
            &&& r[1] == 2 * words.len()
            &&& forall|i: int| 0 <= i < words.len() ==> pdu_word(r, 2 + 2 * i) == #[trigger] words[i]
        }),
{
    let r = spec_build_response(
        if holding {
            ResponseModel::ReadHoldingRegisters(words)
        } else {
            ResponseModel::ReadInputRegisters(words)
        },
    );
    assert forall|i: int| 0 <= i < words.len() implies pdu_word(r, 2 + 2 * i) == #[trigger] words[i] by {
        assert((2 * i) / 2 == i);
        assert((2 * i + 1) / 2 == i);
        assert((2 * i) % 2 == 0);
        assert((2 * i + 1) % 2 == 1);
        assert(r[2 + 2 * i] == (words[i] / 256) as u8);
        assert(r[3 + 2 * i] == (words[i] % 256) as u8);
    }
}

/// The values of a multiple write follow the byte count (byte 5): register
/// `i` is the big-endian word at bytes `6 + 2i`, coil `i` is bit `i % 8`
/// (least significant first) of byte `6 + i / 8`.
pub proof fn law_parse_multi_write_values(p: Seq<u8>, r: RequestModel)
    requires
        spec_parse_request(p) == Ok::<RequestModel, PduError>(r),
    ensures
        r matches RequestModel::WriteMultipleRegisters { values, .. } ==> forall|i: int|
            0 <= i < values.len() ==> #[trigger] values[i] == pdu_word(p, 6 + 2 * i),
        r matches RequestModel::WriteMultipleCoils { values, .. } ==> forall|i: int|
            0 <= i < values.len() ==> #[trigger] values[i] == (((p[6 + i / 8] >> ((i % 8) as u8))
                & 1u8) == 1u8),
{
    if r is WriteMultipleRegisters {
        let d = p.drop_first();
        let byte_count = d[4] as nat;
        let bytes = d.subrange(5, 5 + byte_count as int);
        let values = r->WriteMultipleRegisters_values;
        assert forall|i: int| 0 <= i < values.len() implies #[trigger] values[i] == pdu_word(
            p,
            6 + 2 * i,
        ) by {
            assert(values[i] == be16(bytes[2 * i], bytes[2 * i + 1]));
            assert(bytes[2 * i] == p[6 + 2 * i]);
            assert(bytes[2 * i + 1] == p[7 + 2 * i]);
        }
    }
    if r is WriteMultipleCoils {
        let d = p.drop_first();
        let byte_count = d[4] as nat;
        let bytes = d.subrange(5, 5 + byte_count as int);
        let values = r->WriteMultipleCoils_values;
        assert forall|i: int| 0 <= i < values.len() implies #[trigger] values[i] == (((p[6 + i / 8]
            >> ((i % 8) as u8)) & 1u8) == 1u8) by {
            assert(bytes[i / 8] == p[6 + i / 8]);
            let b = p[6 + i / 8];
            let k = (i % 8) as u8;
            assert(((b >> k) & 1u8 != 0) == (((b >> k) & 1u8) == 1u8)) by (bit_vector);
        }
    }
}

proof fn lemma_pow2_shl(s: nat)
    requires
        s < 8,
    ensures
        pow2(s) == (1u8 << (s as u8)) as nat,
{
    reveal_with_fuel(pow2, 9);
    if s == 0 {
        assert(1u8 << 0u8 == 1u8) by (bit_vector);
    } else if s == 1 {
        assert(1u8 << 1u8 == 2u8) by (bit_vector);
    } else if s == 2 {
        assert(1u8 << 2u8 == 4u8) by (bit_vector);
    } else if s == 3 {
        assert(1u8 << 3u8 == 8u8) by (bit_vector);
    } else if s == 4 {
        assert(1u8 << 4u8 == 16u8) by (bit_vector);
    } else if s == 5 {
        assert(1u8 << 5u8 == 32u8) by (bit_vector);
    } else if s == 6 {
        assert(1u8 << 6u8 == 64u8) by (bit_vector);
    } else {
        assert(1u8 << 7u8 == 128u8) by (bit_vector);
    }
}

/// Adding bit `s` to a number below `2^s` keeps the lower bits.
proof fn lemma_add_top_bit(x: u8, s: u8, t: u8)
    requires
        s < 8,
        t < s,
        x < (1u8 << s),
    ensures
        (((x + (1u8 << s)) as u8 >> t) & 1u8) == ((x >> t) & 1u8),
{
    assert((((x + (1u8 << s)) as u8 >> t) & 1u8) == ((x >> t) & 1u8)) by (bit_vector)
        requires
            s < 8,
            t < s,
            x < (1u8 << s),
    ;
}

/// Adding bit `s` to a number below `2^s` sets bit `s`; not adding it
/// leaves bit `s` clear.
proof fn lemma_top_bit(x: u8, s: u8)
    requires
        s < 8,
        x < (1u8 << s),
    ensures
        (((x + (1u8 << s)) as u8 >> s) & 1u8) == 1u8,
        ((x >> s) & 1u8) == 0u8,
{
    assert((((x + (1u8 << s)) as u8 >> s) & 1u8) == 1u8 && ((x >> s) & 1u8) == 0u8) by (bit_vector)
        requires
            s < 8,
            x < (1u8 << s),
    ;
}

/// Bit `t` of a packed byte is the bit at position `8 * j + t` (clear past
/// the end).
proof fn lemma_pack_bits(bits: Seq<bool>, j: int, k: nat, t: nat)
    requires
        k <= 8,
        t < k,
    ensures
        (((pack_bits_from(bits, j, k) >> (t as u8)) & 1u8) == 1u8) == (0 <= 8 * j + t < bits.len()
            && bits[8 * j + t]),
    decreases k,
{
    let k1 = (k - 1) as nat;
    let x = pack_bits_from(bits, j, k1);
    lemma_pack_bound(bits, j, k1);
    lemma_pow2_shl(k1);
    let s = k1 as u8;
    let i = 8 * j + k1;
    let b = 0 <= i < bits.len() && bits[i];
    if b {
        assert(pack_bits_from(bits, j, k) == (x + (1u8 << s)) as u8);
    } else {
        assert(pack_bits_from(bits, j, k) == x);
    }
    if t < k1 {
        lemma_pack_bits(bits, j, k1, t);
        if b {
            lemma_add_top_bit(x, s, t as u8);
        }
    } else {
        lemma_top_bit(x, s);
    }
}

/// The answer to a bit read is its function code (1 for coils, 2 for
/// discrete inputs), the byte count, then the bits packed eight to a byte,
/// least significant first: bit `i` is bit `i % 8` of byte `2 + i / 8`.
pub proof fn law_bit_read_answer(bits: Seq<bool>, coils: bool)
    requires
        bits.len() <= 2040,
    ensures
        ({
            let r = spec_build_response(
                if coils {
                    ResponseModel::ReadCoils(bits)
                } else {
                    ResponseModel::ReadDiscreteInputs(bits)
                },
            );
            &&& r.len() == 2 + (bits.len() + 7) / 8
            &&& r[0] == (if coils {
                1u8
            } else {
                2u8
            })
            &&& r[1] == (bits.len() + 7) / 8
            &&& forall|i: int|
                0 <= i < bits.len() ==> #[trigger] bits[i] == (((r[2 + i / 8] >> ((i % 8) as u8))
                    & 1u8) == 1u8)
        }),
{
    let r = spec_build_response(
        if coils {
            ResponseModel::ReadCoils(bits)
        } else {
            ResponseModel::ReadDiscreteInputs(bits)
        },
    );
    assert(div_ceil8(bits.len()) == (bits.len() + 7) / 8);
    assert forall|i: int| 0 <= i < bits.len() implies #[trigger] bits[i] == (((r[2 + i / 8] >> ((i
        % 8) as u8)) & 1u8) == 1u8) by {
        let j = i / 8;
        let t = (i % 8) as nat;
        assert(r[2 + j] == pack_byte(bits, j));
        lemma_pack_bits(bits, j, 8, t);
        assert(8 * j + t == i);
    }
}

} // verus!
