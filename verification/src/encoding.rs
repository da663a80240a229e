//! Register value <-> 16-bit word encoding.
//!
//! Floating-point values are carried as their IEEE-754 bit patterns
//! (`F16` as the half-precision bits, `F32`/`F64` as `to_bits()`), so that
//! every conversion here is integer arithmetic.

use vstd::prelude::*;
use vstd::utf8::*;
use crate::text::string_from_utf8;

verus! {

/// Logical data type of a register point. Determines the number of 16-bit
/// words the point occupies.
#[derive(Debug, Clone, Copy, PartialEq, Eq, Structural, Hash)]
pub enum DataType {
    U16,
    I16,
    U32,
    I32,
    U64,
    I64,
    F16,
    F32,
    F64,
    /// String with a fixed byte length. Word count = ceil(byte_len / 2).
    String,
}

/// Byte/word ordering for multi-register values.
#[derive(Debug, Clone, Copy, PartialEq, Eq, Structural, Hash)]
pub enum Encoding {
    /// Big-endian bytes, big-endian words.
    BigEndian,
    /// Little-endian bytes, little-endian words.
    LittleEndian,
    /// Big-endian bytes, word-swapped (common "mid-little").
    BigEndianWordSwap,
    /// Little-endian bytes, word-swapped.
    LittleEndianWordSwap,
}

/// Runtime value of a register point. `F16`, `F32` and `F64` hold the bit
/// patterns of the floating-point numbers.
#[derive(Debug, Clone, PartialEq)]
pub enum Value {
    U16(u16),
    I16(i16),
    U32(u32),
    I32(i32),
    U64(u64),
    I64(i64),
    F16(u16),
    F32(u32),
    F64(u64),
    String(String),
    Bool(bool),
}

/// The mathematical content of a [`Value`]: strings as character sequences.
pub enum ValueModel {
    U16(u16),
    I16(i16),
    U32(u32),
    I32(i32),
    U64(u64),
    I64(i64),
    F16(u16),
    F32(u32),
    F64(u64),
    String(Seq<char>),
    Bool(bool),
}

impl View for Value {
    type V = ValueModel;

    open spec fn view(&self) -> ValueModel {
        match self {
            Value::U16(n) => ValueModel::U16(*n),
            Value::I16(n) => ValueModel::I16(*n),
            Value::U32(n) => ValueModel::U32(*n),
            Value::I32(n) => ValueModel::I32(*n),
            Value::U64(n) => ValueModel::U64(*n),
            Value::I64(n) => ValueModel::I64(*n),
            Value::F16(n) => ValueModel::F16(*n),
            Value::F32(n) => ValueModel::F32(*n),
            Value::F64(n) => ValueModel::F64(*n),
            Value::String(s) => ValueModel::String(s@),
            Value::Bool(b) => ValueModel::Bool(*b),
        }
    }
}

/// Why a value could not be encoded or decoded.
#[derive(Debug, Clone, PartialEq, Eq)]
pub enum EncodingError {
    /// The value's variant does not match the register's data type.
    TypeMismatch { value: &'static str, data_type: DataType },
    /// The string's UTF-8 encoding is longer than the fixed byte length.
    StringTooLong { actual: usize, max: usize },
    /// The bytes of a string register are not valid UTF-8.
    InvalidUtf8,
}

// ---------------------------------------------------------------------------
// Mathematical definitions
// ---------------------------------------------------------------------------

pub open spec fn pow256(k: nat) -> nat
    decreases k,
{
    if k == 0 {
        1
    } else {
        256 * pow256((k - 1) as nat)
    }
}

/// The `k` low-order bytes of `n`, most significant first.
pub open spec fn be_bytes(n: nat, k: nat) -> Seq<u8>
    decreases k,
{
    if k == 0 {
        Seq::empty()
    } else {
        be_bytes(n / 256, (k - 1) as nat).push((n % 256) as u8)
    }
}

/// The number whose big-endian bytes are `b`.
pub open spec fn be_value(b: Seq<u8>) -> nat
    decreases b.len(),
{
    if b.len() == 0 {
        0
    } else {
        be_value(b.drop_last()) * 256 + b.last() as nat
    }
}

/// The word formed by a high byte and a low byte.
pub open spec fn word_of(hi: u8, lo: u8) -> u16 {
    (hi as nat * 256 + lo as nat) as u16
}

pub open spec fn high_byte(w: u16) -> u8 {
    (w / 256) as u8
}

pub open spec fn low_byte(w: u16) -> u8 {
    (w % 256) as u8
}

pub open spec fn reversed<A>(s: Seq<A>) -> Seq<A> {
    Seq::new(s.len(), |i: int| s[s.len() - 1 - i])
}

pub open spec fn swaps_words(e: Encoding) -> bool {
    e == Encoding::BigEndianWordSwap || e == Encoding::LittleEndianWordSwap
}

pub open spec fn swaps_bytes(e: Encoding) -> bool {
    e == Encoding::LittleEndian || e == Encoding::LittleEndianWordSwap
}

/// Canonical big-endian bytes, taken in pairs, turned into words with the
/// byte and word order of `e`. A trailing odd byte is dropped.
pub open spec fn spec_bytes_to_words(bytes: Seq<u8>, e: Encoding) -> Seq<u16> {
    let pairs = Seq::new(
        bytes.len() / 2,
        |i: int|
            if swaps_bytes(e) {
                word_of(bytes[2 * i + 1], bytes[2 * i])
            } else {
                word_of(bytes[2 * i], bytes[2 * i + 1])
            },
    );
    if swaps_words(e) {
        reversed(pairs)
    } else {
        pairs
    }
}

/// Words in the byte and word order of `e`, turned back into canonical
/// big-endian bytes.
pub open spec fn spec_words_to_bytes(words: Seq<u16>, e: Encoding) -> Seq<u8> {
    let ordered = if swaps_words(e) {
        reversed(words)
    } else {
        words
    };
    Seq::new(
        2 * ordered.len(),
        |j: int|
            {
                let w = ordered[j / 2];
                if (j % 2 == 0) != swaps_bytes(e) {
                    high_byte(w)
                } else {
                    low_byte(w)
                }
            },
    )
}

pub open spec fn spec_word_count(dt: DataType, byte_len: Option<usize>) -> nat {
    match dt {
        DataType::U16 | DataType::I16 | DataType::F16 => 1,
        DataType::U32 | DataType::I32 | DataType::F32 => 2,
        DataType::U64 | DataType::I64 | DataType::F64 => 4,
        DataType::String => {
            let b = match byte_len {
                Some(b) => b as nat,
                None => 0,
            };
            b / 2 + b % 2
        },
    }
}

/// Length of a string register's buffer: the byte length rounded up to even.
pub open spec fn padded_len(max: nat) -> nat {
    max + max % 2
}

/// The canonical big-endian bytes of a value of the given type, or `None`
/// when the value does not have that type or a string does not fit.
pub open spec fn spec_value_bytes(v: ValueModel, dt: DataType, byte_len: Option<usize>) -> Option<
    Seq<u8>,
> {
    match v {
        ValueModel::U16(n) => if dt == DataType::U16 { Some(be_bytes(n as nat, 2)) } else { None },
        ValueModel::I16(n) => if dt == DataType::I16 {
            Some(be_bytes((n as u16) as nat, 2))
        } else {
            None
        },
        ValueModel::U32(n) => if dt == DataType::U32 { Some(be_bytes(n as nat, 4)) } else { None },
        ValueModel::I32(n) => if dt == DataType::I32 {
            Some(be_bytes((n as u32) as nat, 4))
        } else {
            None
        },
        ValueModel::U64(n) => if dt == DataType::U64 { Some(be_bytes(n as nat, 8)) } else { None },
        ValueModel::I64(n) => if dt == DataType::I64 {
            Some(be_bytes((n as u64) as nat, 8))
        } else {
            None
        },
        ValueModel::F16(n) => if dt == DataType::F16 { Some(be_bytes(n as nat, 2)) } else { None },
        ValueModel::F32(n) => if dt == DataType::F32 { Some(be_bytes(n as nat, 4)) } else { None },
        ValueModel::F64(n) => if dt == DataType::F64 { Some(be_bytes(n as nat, 8)) } else { None },
        ValueModel::String(s) => if dt == DataType::String {
            let max = match byte_len {
                Some(b) => b as nat,
                None => 0,
            };
            let b = encode_utf8(s);
            if b.len() > max {
                None
            } else {
                Some(b + Seq::new((padded_len(max) - b.len()) as nat, |i: int| 0u8))
            }
        } else {
            None
        },
        ValueModel::Bool(_) => None,
    }
}

/// Whether the value's variant is the one of the data type.
pub open spec fn value_matches(v: ValueModel, dt: DataType) -> bool {
    match v {
        ValueModel::U16(_) => dt == DataType::U16,
        ValueModel::I16(_) => dt == DataType::I16,
        ValueModel::U32(_) => dt == DataType::U32,
        ValueModel::I32(_) => dt == DataType::I32,
        ValueModel::U64(_) => dt == DataType::U64,
        ValueModel::I64(_) => dt == DataType::I64,
        ValueModel::F16(_) => dt == DataType::F16,
        ValueModel::F32(_) => dt == DataType::F32,
        ValueModel::F64(_) => dt == DataType::F64,
        ValueModel::String(_) => dt == DataType::String,
        ValueModel::Bool(_) => false,
    }
}

pub open spec fn spec_variant_name(v: ValueModel) -> Seq<char> {
    match v {
        ValueModel::U16(_) => "U16"@,
        ValueModel::I16(_) => "I16"@,
        ValueModel::U32(_) => "U32"@,
        ValueModel::I32(_) => "I32"@,
        ValueModel::U64(_) => "U64"@,
        ValueModel::I64(_) => "I64"@,
        ValueModel::F16(_) => "F16"@,
        ValueModel::F32(_) => "F32"@,
        ValueModel::F64(_) => "F64"@,
        ValueModel::String(_) => "String"@,
        ValueModel::Bool(_) => "Bool"@,
    }
}

/// The words a value encodes to, when it can be encoded.
pub open spec fn spec_encode_value(
    v: ValueModel,
    dt: DataType,
    e: Encoding,
    byte_len: Option<usize>,
) -> Option<Seq<u16>> {
    match spec_value_bytes(v, dt, byte_len) {
        Some(b) => Some(spec_bytes_to_words(b, e)),
        None => None,
    }
}

/// What `encode_value` answers: the words, or the error that names why not.
pub open spec fn encode_result_ok(
    r: Result<Vec<u16>, EncodingError>,
    v: ValueModel,
    dt: DataType,
    e: Encoding,
    byte_len: Option<usize>,
) -> bool {
    match r {
        Ok(w) => spec_encode_value(v, dt, e, byte_len) == Some(w@),
        Err(err) => spec_encode_value(v, dt, e, byte_len) is None && match err {
            EncodingError::TypeMismatch { value, data_type } => {
                &&& !value_matches(v, dt)
                &&& value@ == spec_variant_name(v)
                &&& data_type == dt
            },
            EncodingError::StringTooLong { actual, max } => {
                &&& v is String
                &&& dt == DataType::String
                &&& actual == encode_utf8(v->String_0).len()
                &&& max == match byte_len {
                    Some(b) => b,
                    None => 0,
                }
                &&& actual > max
            },
            EncodingError::InvalidUtf8 => false,
        },
    }
}

/// A string register's byte length whose padded buffer size fits in `usize`.
pub open spec fn string_len_ok(byte_len: Option<usize>) -> bool {
    match byte_len {
        Some(b) => b < usize::MAX,
        None => true,
    }
}

/// The byte length matters only to strings: for them its padded buffer
/// size must fit in `usize`; every other data type ignores it.
pub open spec fn string_fits(data_type: DataType, byte_len: Option<usize>) -> bool {
    data_type == DataType::String ==> string_len_ok(byte_len)
}

/// Number of canonical bytes the decoder reads for a data type.
pub open spec fn needed_bytes(dt: DataType) -> nat {
    match dt {
        DataType::U16 | DataType::I16 | DataType::F16 => 2,
        DataType::U32 | DataType::I32 | DataType::F32 => 4,
        DataType::U64 | DataType::I64 | DataType::F64 => 8,
        DataType::String => 0,
    }
}

/// Index of the first zero byte, or the length when there is none.
pub open spec fn first_zero(s: Seq<u8>) -> nat
    decreases s.len(),
{
    if s.len() == 0 {
        0
    } else if s[0] == 0 {
        0
    } else {
        1 + first_zero(s.drop_first())
    }
}

/// The bytes of a string register that hold its text: at most `byte_len`
/// bytes (all when unset), cut at the first zero byte.
pub open spec fn string_bytes(bytes: Seq<u8>, byte_len: Option<usize>) -> Seq<u8> {
    let max = match byte_len {
        Some(b) => b as int,
        None => bytes.len() as int,
    };
    let slice = bytes.take(if max < bytes.len() { max } else { bytes.len() as int });
    slice.take(first_zero(slice) as int)
}

/// The value that canonical big-endian bytes decode to (for strings, when
/// the text bytes are valid UTF-8).
pub open spec fn spec_bytes_value(bytes: Seq<u8>, dt: DataType, byte_len: Option<usize>) -> Option<
    ValueModel,
> {
    match dt {
        DataType::U16 => Some(ValueModel::U16(be_value(bytes.take(2)) as u16)),
        DataType::I16 => Some(ValueModel::I16((be_value(bytes.take(2)) as u16) as i16)),
        DataType::U32 => Some(ValueModel::U32(be_value(bytes.take(4)) as u32)),
        DataType::I32 => Some(ValueModel::I32((be_value(bytes.take(4)) as u32) as i32)),
        DataType::U64 => Some(ValueModel::U64(be_value(bytes.take(8)) as u64)),
        DataType::I64 => Some(ValueModel::I64((be_value(bytes.take(8)) as u64) as i64)),
        DataType::F16 => Some(ValueModel::F16(be_value(bytes.take(2)) as u16)),
        DataType::F32 => Some(ValueModel::F32(be_value(bytes.take(4)) as u32)),
        DataType::F64 => Some(ValueModel::F64(be_value(bytes.take(8)) as u64)),
        DataType::String => {
            let t = string_bytes(bytes, byte_len);
            if valid_utf8(t) {
                Some(ValueModel::String(decode_utf8(t)))
            } else {
                None
            }
        },
    }
}

/// The value that words decode to.
pub open spec fn spec_decode_value(
    words: Seq<u16>,
    dt: DataType,
    e: Encoding,
    byte_len: Option<usize>,
) -> Option<ValueModel> {
    spec_bytes_value(spec_words_to_bytes(words, e), dt, byte_len)
}

// ---------------------------------------------------------------------------
// Lemmas
// ---------------------------------------------------------------------------

pub proof fn lemma_be_bytes_len(n: nat, k: nat)
    ensures
        be_bytes(n, k).len() == k,
    decreases k,
{
    if k > 0 {
        lemma_be_bytes_len(n / 256, (k - 1) as nat);
    }
}

pub proof fn lemma_be_value_bound(b: Seq<u8>)
    ensures
        be_value(b) < pow256(b.len()),
    decreases b.len(),
{
    if b.len() > 0 {
        lemma_be_value_bound(b.drop_last());
    }
}

pub proof fn lemma_be_roundtrip(n: nat, k: nat)
    requires
        n < pow256(k),
    ensures
        be_value(be_bytes(n, k)) == n,
    decreases k,
{
    if k > 0 {
        assert(n / 256 < pow256((k - 1) as nat));
        lemma_be_roundtrip(n / 256, (k - 1) as nat);
        let b = be_bytes(n, k);
        assert(b.drop_last() =~= be_bytes(n / 256, (k - 1) as nat));
    }
}

pub proof fn lemma_pow256_facts()
    ensures
        pow256(2) == 0x1_0000,
        pow256(4) == 0x1_0000_0000,
        pow256(8) == 0x1_0000_0000_0000_0000,
{
    reveal_with_fuel(pow256, 9);
}

pub proof fn lemma_first_zero(s: Seq<u8>)
    ensures
        first_zero(s) <= s.len(),
        first_zero(s) < s.len() ==> s[first_zero(s) as int] == 0,
        forall|k: int| 0 <= k < first_zero(s) ==> s[k] != 0,
    decreases s.len(),
{
    if s.len() > 0 && s[0] != 0 {
        lemma_first_zero(s.drop_first());
        assert forall|k: int| 0 <= k < first_zero(s) implies s[k] != 0 by {
            if k > 0 {
                assert(s[k] == s.drop_first()[k - 1]);
            }
        }
    }
}

// ---------------------------------------------------------------------------
// Laws
// ---------------------------------------------------------------------------

proof fn lemma_word_bytes(h: u8, l: u8)
    ensures
        high_byte(word_of(h, l)) == h,
        low_byte(word_of(h, l)) == l,
{
}

proof fn lemma_bytes_of_word(w: u16)
    ensures
        word_of(high_byte(w), low_byte(w)) == w,
{
}

/// Canonical bytes of even length, turned into words and back, are the same
/// bytes, for every byte and word order.
pub proof fn lemma_bytes_words_roundtrip(b: Seq<u8>, e: Encoding)
    requires
        b.len() % 2 == 0,
    ensures
        spec_words_to_bytes(spec_bytes_to_words(b, e), e) == b,
{
    let w = spec_bytes_to_words(b, e);
    let r = spec_words_to_bytes(w, e);
    assert forall|j: int| 0 <= j < b.len() implies r[j] == b[j] by {
        let i = j / 2;
        lemma_word_bytes(b[2 * i], b[2 * i + 1]);
        lemma_word_bytes(b[2 * i + 1], b[2 * i]);
    }
    assert(r =~= b);
}

/// Words turned into canonical bytes and back are the same words, for every
/// byte and word order.
pub proof fn lemma_words_bytes_roundtrip(w: Seq<u16>, e: Encoding)
    ensures
        spec_bytes_to_words(spec_words_to_bytes(w, e), e) == w,
{
    let b = spec_words_to_bytes(w, e);
    let r = spec_bytes_to_words(b, e);
    assert forall|i: int| 0 <= i < w.len() implies r[i] == w[i] by {
        let k = if swaps_words(e) { w.len() - 1 - i } else { i };
        lemma_bytes_of_word(w[k]);
        assert(b[2 * i] == b[2 * i]);
        assert((2 * i) / 2 == i);
        assert((2 * i + 1) / 2 == i);
    }
    assert(r =~= w);
}

/// The number of words a successful encoding produces is the data type's
/// word count.
pub proof fn lemma_encoded_len(v: ValueModel, dt: DataType, e: Encoding, byte_len: Option<usize>)
    requires
        spec_encode_value(v, dt, e, byte_len) is Some,
    ensures
        spec_encode_value(v, dt, e, byte_len)->0.len() == spec_word_count(dt, byte_len),
{
    lemma_be_bytes_len(0, 0);
    match v {
        ValueModel::U16(n) => lemma_be_bytes_len(n as nat, 2),
        ValueModel::I16(n) => lemma_be_bytes_len((n as u16) as nat, 2),
        ValueModel::U32(n) => lemma_be_bytes_len(n as nat, 4),
        ValueModel::I32(n) => lemma_be_bytes_len((n as u32) as nat, 4),
        ValueModel::U64(n) => lemma_be_bytes_len(n as nat, 8),
        ValueModel::I64(n) => lemma_be_bytes_len((n as u64) as nat, 8),
        ValueModel::F16(n) => lemma_be_bytes_len(n as nat, 2),
        ValueModel::F32(n) => lemma_be_bytes_len(n as nat, 4),
        ValueModel::F64(n) => lemma_be_bytes_len(n as nat, 8),
        _ => {},
    }
}

proof fn lemma_scalar_bytes_nonzero(c: u32)
    requires
        is_scalar(c),
        c != 0,
    ensures
        forall|k: int| 0 <= k < encode_scalar(c).len() ==> encode_scalar(c)[k] != 0,
{
    if has_width_1_encoding(c) {
        assert(leading_byte_width_1(c) != 0) by (bit_vector)
            requires
                c != 0,
                c <= 0x7F,
        ;
    } else {
        assert(leading_byte_width_2(c) != 0) by (bit_vector);
        assert(leading_byte_width_3(c) != 0) by (bit_vector);
        assert(leading_byte_width_4(c) != 0) by (bit_vector);
        assert(last_continuation_byte(c) != 0) by (bit_vector);
        assert(second_last_continuation_byte(c) != 0) by (bit_vector);
        assert(third_last_continuation_byte(c) != 0) by (bit_vector);
    }
}

/// The UTF-8 encoding of a text without NUL characters has no zero byte.
proof fn lemma_utf8_nonzero(s: Seq<char>)
    requires
        !s.contains('\0'),
    ensures
        forall|k: int| 0 <= k < encode_utf8(s).len() ==> encode_utf8(s)[k] != 0,
    decreases s.len(),
{
    if s.len() > 0 {
        char_is_scalar(s[0]);
        char_u32_cast(s[0], s[0] as u32);
        assert(s[0] != '\0');
        assert((0u32 as char) == '\0');
        assert((s[0] as u32) != 0);
        lemma_scalar_bytes_nonzero(s[0] as u32);
        assert(!s.drop_first().contains('\0')) by {
            if s.drop_first().contains('\0') {
                let k = choose|k: int| 0 <= k < s.drop_first().len() && s.drop_first()[k] == '\0';
                assert(s[k + 1] == '\0');
            }
        }
        lemma_utf8_nonzero(s.drop_first());
        let a = encode_scalar(s[0] as u32);
        let rest = encode_utf8(s.drop_first());
        assert(encode_utf8(s) == a + rest);
        assert forall|k: int| 0 <= k < encode_utf8(s).len() implies encode_utf8(s)[k] != 0 by {
            if k < a.len() {
                assert(encode_utf8(s)[k] == a[k]);
            } else {
                assert(encode_utf8(s)[k] == rest[k - a.len()]);
            }
        }
    }
}

proof fn lemma_first_zero_of(s: Seq<u8>, n: nat)
    requires
        n <= s.len(),
        forall|k: int| 0 <= k < n ==> s[k] != 0,
        n < s.len() ==> s[n as int] == 0,
    ensures
        first_zero(s) == n,
{
    lemma_first_zero(s);
    let fz = first_zero(s) as int;
    if fz < n {
        assert(s[fz] != 0);
    }
}

proof fn lemma_int_casts(a: i16, b: i32, c: i64)
    ensures
        ((a as u16) as i16) == a,
        ((b as u32) as i32) == b,
        ((c as u64) as i64) == c,
{
    assert(((a as u16) as i16) == a) by (bit_vector);
    assert(((b as u32) as i32) == b) by (bit_vector);
    assert(((c as u64) as i64) == c) by (bit_vector);
}

proof fn lemma_numeric_roundtrip(n: nat, k: nat)
    requires
        k == 2 || k == 4 || k == 8,
        n < pow256(k),
    ensures
        be_bytes(n, k).len() == k,
        be_value(be_bytes(n, k).take(k as int)) == n,
{
    lemma_be_bytes_len(n, k);
    lemma_be_roundtrip(n, k);
    assert(be_bytes(n, k).take(k as int) =~= be_bytes(n, k));
}

/// Decoding the words that a value encodes to gives the value back, for every
/// data type, byte and word order. For strings this needs that the text holds
/// no NUL character, since the decoder stops at the first zero byte.
pub proof fn law_decode_inverts_encode(
    v: ValueModel,
    dt: DataType,
    e: Encoding,
    byte_len: Option<usize>,
)
    requires
        spec_encode_value(v, dt, e, byte_len) is Some,
        v is String ==> !v->String_0.contains('\0'),
    ensures
        spec_decode_value(spec_encode_value(v, dt, e, byte_len)->0, dt, e, byte_len) == Some(v),
{
    let bytes = spec_value_bytes(v, dt, byte_len)->0;
    lemma_pow256_facts();
    lemma_int_casts(0, 0, 0);
    match v {
        ValueModel::U16(n) => lemma_numeric_roundtrip(n as nat, 2),
        ValueModel::I16(n) => {
            lemma_numeric_roundtrip((n as u16) as nat, 2);
            lemma_int_casts(n, 0, 0);
        },
        ValueModel::U32(n) => lemma_numeric_roundtrip(n as nat, 4),
        ValueModel::I32(n) => {
            lemma_numeric_roundtrip((n as u32) as nat, 4);
            lemma_int_casts(0, n, 0);
        },
        ValueModel::U64(n) => lemma_numeric_roundtrip(n as nat, 8),
        ValueModel::I64(n) => {
            lemma_numeric_roundtrip((n as u64) as nat, 8);
            lemma_int_casts(0, 0, n);
        },
        ValueModel::F16(n) => lemma_numeric_roundtrip(n as nat, 2),
        ValueModel::F32(n) => lemma_numeric_roundtrip(n as nat, 4),
        ValueModel::F64(n) => lemma_numeric_roundtrip(n as nat, 8),
        ValueModel::String(s) => {
            let max: nat = match byte_len {
                Some(b) => b as nat,
                None => 0,
            };
            let u = encode_utf8(s);
            lemma_utf8_nonzero(s);
            let slice = bytes.take(max as int);
            assert(bytes.len() == padded_len(max));
            if let Some(b) = byte_len {
                assert(slice == bytes.take(if b < bytes.len() { b as int } else { bytes.len() as int }));
            }
            lemma_first_zero_of(slice, u.len());
            assert(slice.take(u.len() as int) =~= u);
            assert(string_bytes(bytes, byte_len) == u);
            broadcast use encode_utf8_valid_utf8, encode_utf8_decode_utf8;
        },
        ValueModel::Bool(_) => {},
    }
    lemma_bytes_words_roundtrip(bytes, e);
}

// ---------------------------------------------------------------------------
// Executable code
// ---------------------------------------------------------------------------

impl DataType {
    /// Number of 16-bit words occupied. For `String`, `byte_len` gives the
    /// byte length (none counts as zero).
    pub fn word_count(self, byte_len: Option<usize>) -> (r: usize)
        ensures
            r == spec_word_count(self, byte_len),
    {
        match self {
            DataType::U16 | DataType::I16 | DataType::F16 => 1,
            DataType::U32 | DataType::I32 | DataType::F32 => 2,
            DataType::U64 | DataType::I64 | DataType::F64 => 4,
            DataType::String => {
                let b = match byte_len {
                    Some(b) => b,
                    None => 0,
                };
                b / 2 + b % 2
            },
        }
    }
}

impl Value {
    /// The name of the value's variant.
    pub fn variant_name(&self) -> (r: &'static str)
        ensures
            r@ == spec_variant_name(self@),
    {
        match self {
            Value::U16(_) => "U16",
            Value::I16(_) => "I16",
            Value::U32(_) => "U32",
            Value::I32(_) => "I32",
            Value::U64(_) => "U64",
            Value::I64(_) => "I64",
            Value::F16(_) => "F16",
            Value::F32(_) => "F32",
            Value::F64(_) => "F64",
            Value::String(_) => "String",
            Value::Bool(_) => "Bool",
        }
    }
}

fn be_bytes_of(n: u64, k: usize) -> (r: Vec<u8>)
    ensures
        r@ == be_bytes(n as nat, k as nat),
    decreases k,
{
    if k == 0 {
        Vec::new()
    } else {
        let mut v = be_bytes_of(n / 256, k - 1);
        v.push((n % 256) as u8);
        v
    }
}

fn be_value_of(bytes: &[u8], k: usize) -> (r: u64)
    requires
        k <= 8,
        k <= bytes@.len(),
    ensures
        r == be_value(bytes@.take(k as int)),
{
    let mut acc: u64 = 0;
    let mut i: usize = 0;
    while i < k
        invariant
            i <= k <= 8,
            k <= bytes@.len(),
            acc == be_value(bytes@.take(i as int)),
        decreases k - i,
    {
        proof {
            lemma_be_value_bound(bytes@.take(i as int));
            lemma_pow_le(i as nat, 7);
            assert(bytes@.take(i as int + 1).drop_last() =~= bytes@.take(i as int));
        }
        acc = acc * 256 + bytes[i] as u64;
        i = i + 1;
    }
    acc
}

proof fn lemma_pow_le(i: nat, j: nat)
    requires
        i <= j,
    ensures
        pow256(i) <= pow256(j),
        j <= 7 ==> pow256(j) <= 0x100_0000_0000_0000,
    decreases j,
{
    reveal_with_fuel(pow256, 8);
    if i < j {
        lemma_pow_le(i, (j - 1) as nat);
    }
}

fn value_to_bytes(value: &Value, data_type: DataType, byte_len: Option<usize>) -> (r: Result<
    Vec<u8>,
    EncodingError,
>)
    requires
        string_fits(data_type, byte_len),
    ensures
        match r {
            Ok(b) => spec_value_bytes(value@, data_type, byte_len) == Some(b@),
            Err(err) => spec_value_bytes(value@, data_type, byte_len) is None && match err {
                EncodingError::TypeMismatch { value: name, data_type: d } => {
                    &&& !value_matches(value@, data_type)
                    &&& name@ == spec_variant_name(value@)
                    &&& d == data_type
                },
                EncodingError::StringTooLong { actual, max } => {
                    &&& value@ is String
                    &&& data_type == DataType::String
                    &&& actual == encode_utf8(value@->String_0).len()
                    &&& max == match byte_len {
                        Some(b) => b,
                        None => 0,
                    }
                    &&& actual > max
                },
                EncodingError::InvalidUtf8 => false,
            },
        },
{
    let mismatch = EncodingError::TypeMismatch { value: value.variant_name(), data_type };
    match value {
        Value::U16(v) => if data_type == DataType::U16 {
            Ok(be_bytes_of(*v as u64, 2))
        } else {
            Err(mismatch)
        },
        Value::I16(v) => if data_type == DataType::I16 {
            Ok(be_bytes_of((*v as u16) as u64, 2))
        } else {
            Err(mismatch)
        },
        Value::U32(v) => if data_type == DataType::U32 {
            Ok(be_bytes_of(*v as u64, 4))
        } else {
            Err(mismatch)
        },
        Value::I32(v) => if data_type == DataType::I32 {
            Ok(be_bytes_of((*v as u32) as u64, 4))
        } else {
            Err(mismatch)
        },
        Value::U64(v) => if data_type == DataType::U64 {
            Ok(be_bytes_of(*v, 8))
        } else {
            Err(mismatch)
        },
        Value::I64(v) => if data_type == DataType::I64 {
            Ok(be_bytes_of(*v as u64, 8))
        } else {
            Err(mismatch)
        },
        Value::F16(v) => if data_type == DataType::F16 {
            Ok(be_bytes_of(*v as u64, 2))
        } else {
            Err(mismatch)
        },
        Value::F32(v) => if data_type == DataType::F32 {
            Ok(be_bytes_of(*v as u64, 4))
        } else {
            Err(mismatch)
        },
        Value::F64(v) => if data_type == DataType::F64 {
            Ok(be_bytes_of(*v, 8))
        } else {
            Err(mismatch)
        },
        Value::String(s) => if data_type == DataType::String {
            let max = match byte_len {
                Some(b) => b,
                None => 0,
            };
            let bytes = s.as_str().as_bytes();
            if bytes.len() > max {
                return Err(EncodingError::StringTooLong { actual: bytes.len(), max });
            }
            let total = max + max % 2;
            let mut out: Vec<u8> = Vec::new();
            let mut i: usize = 0;
            while i < total
                invariant
                    i <= total,
                    total == padded_len(max as nat),
                    bytes@.len() <= max,
                    out@.len() == i,
                    forall|k: int|
                        0 <= k < i ==> out@[k] == if k < bytes@.len() {
                            bytes@[k]
                        } else {
                            0u8
                        },
                decreases total - i,
            {
                if i < bytes.len() {
                    out.push(bytes[i]);
                } else {
                    out.push(0u8);
                }
                i = i + 1;
            }
            proof {
                let b = encode_utf8(s@);
                assert(out@ =~= b + Seq::new((padded_len(max as nat) - b.len()) as nat, |i: int| 0u8));
            }
            Ok(out)
        } else {
            Err(mismatch)
        },
        Value::Bool(_) => Err(mismatch),
    }
}

fn reverse_words(v: Vec<u16>) -> (r: Vec<u16>)
    ensures
        r@ == reversed(v@),
{
    let mut out: Vec<u16> = Vec::new();
    let mut i: usize = v.len();
    while i > 0
        invariant
            i <= v@.len(),
            out@.len() == v@.len() - i,
            forall|k: int| 0 <= k < out@.len() ==> out@[k] == v@[v@.len() - 1 - k],
        decreases i,
    {
        i = i - 1;
        out.push(v[i]);
    }
    assert(out@ =~= reversed(v@));
    out
}

fn bytes_to_words(bytes: &[u8], encoding: Encoding) -> (r: Vec<u16>)
    ensures
        r@ == spec_bytes_to_words(bytes@, encoding),
{
    let swap_bytes = encoding == Encoding::LittleEndian || encoding
        == Encoding::LittleEndianWordSwap;
    let len = bytes.len();
    let n = len / 2;
    let mut pairs: Vec<u16> = Vec::new();
    let mut i: usize = 0;
    while i < n
        invariant
            i <= n,
            n == bytes@.len() / 2,
            len == bytes@.len(),
            swap_bytes == swaps_bytes(encoding),
            pairs@.len() == i,
            forall|k: int|
                0 <= k < i ==> pairs@[k] == if swap_bytes {
                    word_of(bytes@[2 * k + 1], bytes@[2 * k])
                } else {
                    word_of(bytes@[2 * k], bytes@[2 * k + 1])
                },
        decreases n - i,
    {
        assert(2 * i + 1 < bytes@.len());
        let h = bytes[2 * i];
        let l = bytes[2 * i + 1];
        let w: u16 = if swap_bytes {
            (l as u16) * 256 + (h as u16)
        } else {
            (h as u16) * 256 + (l as u16)
        };
        pairs.push(w);
        i = i + 1;
    }
    let ghost p = pairs@;
    assert(p =~= Seq::new(
        bytes@.len() / 2,
        |i: int|
            if swaps_bytes(encoding) {
                word_of(bytes@[2 * i + 1], bytes@[2 * i])
            } else {
                word_of(bytes@[2 * i], bytes@[2 * i + 1])
            },
    ));
    if encoding == Encoding::BigEndianWordSwap || encoding == Encoding::LittleEndianWordSwap {
        reverse_words(pairs)
    } else {
        pairs
    }
}

fn words_to_bytes(words: &[u16], encoding: Encoding) -> (r: Vec<u8>)
    ensures
        r@ == spec_words_to_bytes(words@, encoding),
{
    let swap_words = encoding == Encoding::BigEndianWordSwap || encoding
        == Encoding::LittleEndianWordSwap;
    let swap_bytes = encoding == Encoding::LittleEndian || encoding
        == Encoding::LittleEndianWordSwap;
    let ghost ordered = if swap_words {
        reversed(words@)
    } else {
        words@
    };
    let n = words.len();
    let mut out: Vec<u8> = Vec::new();
    let mut i: usize = 0;
    while i < n
        invariant
            i <= n,
            n == words@.len(),
            ordered.len() == n,
            swap_bytes == swaps_bytes(encoding),
            ordered == if swaps_words(encoding) {
                reversed(words@)
            } else {
                words@
            },
            swap_words == swaps_words(encoding),
            out@.len() == 2 * i,
            forall|j: int|
                0 <= j < 2 * i ==> out@[j] == {
                    let w = ordered[j / 2];
                    if (j % 2 == 0) != swaps_bytes(encoding) {
                        high_byte(w)
                    } else {
                        low_byte(w)
                    }
                },
        decreases n - i,
    {
        let w = if swap_words {
            words[n - 1 - i]
        } else {
            words[i]
        };
        assert(w == ordered[i as int]);
        let hi = (w / 256) as u8;
        let lo = (w % 256) as u8;
        if swap_bytes {
            out.push(lo);
            out.push(hi);
        } else {
            out.push(hi);
            out.push(lo);
        }
        i = i + 1;
    }
    assert(out@ =~= spec_words_to_bytes(words@, encoding));
    out
}

fn bytes_to_value(bytes: &[u8], data_type: DataType, byte_len: Option<usize>) -> (r: Result<
    Value,
    EncodingError,
>)
    requires
        bytes@.len() >= needed_bytes(data_type),
    ensures
        match r {
            Ok(v) => spec_bytes_value(bytes@, data_type, byte_len) == Some(v@),
            Err(e) => spec_bytes_value(bytes@, data_type, byte_len) is None && e
                == EncodingError::InvalidUtf8,
        },
{
    proof {
        lemma_pow256_facts();
        lemma_be_value_bound(bytes@.take(2));
        if bytes@.len() >= 4 {
            lemma_be_value_bound(bytes@.take(4));
        }
        if bytes@.len() >= 8 {
            lemma_be_value_bound(bytes@.take(8));
        }
    }
    match data_type {
        DataType::U16 => Ok(Value::U16(be_value_of(bytes, 2) as u16)),
        DataType::I16 => Ok(Value::I16((be_value_of(bytes, 2) as u16) as i16)),
        DataType::U32 => Ok(Value::U32(be_value_of(bytes, 4) as u32)),
        DataType::I32 => Ok(Value::I32((be_value_of(bytes, 4) as u32) as i32)),
        DataType::U64 => Ok(Value::U64(be_value_of(bytes, 8))),
        DataType::I64 => Ok(Value::I64(be_value_of(bytes, 8) as i64)),
        DataType::F16 => Ok(Value::F16(be_value_of(bytes, 2) as u16)),
        DataType::F32 => Ok(Value::F32(be_value_of(bytes, 4) as u32)),
        DataType::F64 => Ok(Value::F64(be_value_of(bytes, 8))),
        DataType::String => {
            let max = match byte_len {
                Some(b) => b,
                None => bytes.len(),
            };
            let limit = if max < bytes.len() {
                max
            } else {
                bytes.len()
            };
            let ghost slice = bytes@.take(limit as int);
            let mut end: usize = 0;
            while end < limit && bytes[end] != 0
                invariant
                    end <= limit <= bytes@.len(),
                    slice == bytes@.take(limit as int),
                    forall|k: int| 0 <= k < end ==> bytes@[k] != 0,
                decreases limit - end,
            {
                end = end + 1;
            }
            proof {
                lemma_first_zero(slice);
                let fz = first_zero(slice) as int;
                if fz < end {
                    assert(slice[fz] == bytes@[fz]);
                }
                if fz > end {
                    assert(slice[end as int] == bytes@[end as int]);
                }
            }
            assert(end == first_zero(slice));
            let mut text: Vec<u8> = Vec::new();
            let mut i: usize = 0;
            while i < end
                invariant
                    i <= end <= bytes@.len(),
                    text@ == bytes@.take(i as int),
                decreases end - i,
            {
                text.push(bytes[i]);
                i = i + 1;
                assert(text@ =~= bytes@.take(i as int));
            }
            assert(text@ =~= string_bytes(bytes@, byte_len));
            match string_from_utf8(text.as_slice()) {
                Some(s) => Ok(Value::String(s)),
                None => Err(EncodingError::InvalidUtf8),
            }
        },
    }
}

/// Encode a [`Value`] into a sequence of 16-bit registers.
pub fn encode_value(
    value: &Value,
    data_type: DataType,
    encoding: Encoding,
    byte_len: Option<usize>,
) -> (r: Result<Vec<u16>, EncodingError>)
    requires
        string_fits(data_type, byte_len),
    ensures
        encode_result_ok(r, value@, data_type, encoding, byte_len),
{
    let bytes = value_to_bytes(value, data_type, byte_len)?;
    Ok(bytes_to_words(bytes.as_slice(), encoding))
}

/// Decode a sequence of 16-bit registers into a [`Value`].
pub fn decode_value(
    words: &[u16],
    data_type: DataType,
    encoding: Encoding,
    byte_len: Option<usize>,
) -> (r: Result<Value, EncodingError>)
    requires
        2 * words@.len() >= needed_bytes(data_type),
    ensures
        match r {
            Ok(v) => spec_decode_value(words@, data_type, encoding, byte_len) == Some(v@),
            Err(e) => spec_decode_value(words@, data_type, encoding, byte_len) is None && e
                == EncodingError::InvalidUtf8,
        },
{
    let bytes = words_to_bytes(words, encoding);
    bytes_to_value(bytes.as_slice(), data_type, byte_len)
}

} // verus!
