//! Laws of the engine that span requests: what a read gives back of a write.

use vstd::prelude::*;
use crate::behavior::BehaviorModel;
use crate::encoding::{
    DataType, Encoding, ValueModel, be_bytes, be_value, lemma_be_value_bound, lemma_encoded_len,
    lemma_pow256_facts, lemma_words_bytes_roundtrip, pow256, spec_decode_value,
    spec_encode_value, spec_word_count, spec_words_to_bytes,
};
use crate::engine::{
    OutcomeModel, RequestModel, ResponseModel, WordWrite, bit_word, decoded_point, has_kind,
    overlay, place_words, point_value, read_word, refresh_points, spec_apply, spec_multi_writes,
    spec_point_words, spec_process, word_address, word_map, wrap_address,
};
use crate::model::{RegisterKind, RegisterPoint};

verus! {

/// Number of slots a point occupies in its table: one for bit kinds,
/// otherwise its data type's word count.
pub open spec fn placed_len(q: RegisterPoint) -> nat {
    if q.kind.spec_is_bit() {
        1
    } else {
        spec_word_count(q.data_type, q.byte_length)
    }
}

/// Whether the point occupies the address.
pub open spec fn covers(q: RegisterPoint, a: u16) -> bool {
    q.address <= a < q.address + placed_len(q)
}

/// Whether the point ends within the 16-bit address space.
pub open spec fn fits(q: RegisterPoint) -> bool {
    q.address + placed_len(q) <= 0x1_0000
}

/// The layout conditions under which a register of a table reads back what
/// was written to it: every point of the table fits the address space, the
/// point `p` covers the address and no other point of the table does, and no
/// other point of the table shares `p`'s id.
pub open spec fn sole_point(regs: Seq<RegisterPoint>, kind: RegisterKind, p: int, a: u16) -> bool {
    &&& 0 <= p < regs.len()
    &&& regs[p].kind == kind
    &&& covers(regs[p], a)
    &&& forall|q: int| 0 <= q < regs.len() && #[trigger] regs[q].kind == kind ==> fits(regs[q])
    &&& forall|q: int|
        0 <= q < regs.len() && q != p && #[trigger] regs[q].kind == kind ==> !covers(regs[q], a)
            && regs[q].id != regs[p].id
}

proof fn lemma_place_words(m: Map<u16, u16>, base: u16, ws: Seq<u16>, x: u16)
    requires
        base + ws.len() <= 0x1_0000,
    ensures
        base <= x < base + ws.len() ==> place_words(m, base, ws).contains_key(x) && place_words(
            m,
            base,
            ws,
        )[x] == ws[x - base],
        !(base <= x < base + ws.len()) ==> place_words(m, base, ws).contains_key(x)
            == m.contains_key(x) && (m.contains_key(x) ==> place_words(m, base, ws)[x] == m[x]),
    decreases ws.len(),
{
    if ws.len() > 0 {
        lemma_place_words(m, base, ws.drop_last(), x);
        assert(word_address(base, ws.len() - 1) == base + ws.len() - 1);
    }
}

proof fn lemma_point_words_len(q: RegisterPoint, v: ValueModel)
    ensures
        spec_point_words(q, v).len() == placed_len(q),
{
    if !q.kind.spec_is_bit() {
        if spec_encode_value(v, q.data_type, q.encoding, q.byte_length) is Some {
            lemma_encoded_len(v, q.data_type, q.encoding, q.byte_length);
        }
    }
}

proof fn lemma_word_map_at(
    regs: Seq<RegisterPoint>,
    vals: Map<u128, ValueModel>,
    kind: RegisterKind,
    p: int,
    a: u16,
)
    requires
        sole_point(regs, kind, p, a),
    ensures
        word_map(regs, vals, kind).contains_key(a),
        word_map(regs, vals, kind)[a] == spec_point_words(regs[p], point_value(regs[p], vals))[a
            - regs[p].address],
    decreases regs.len(),
{
    let last = regs.len() - 1;
    let q = regs[last];
    lemma_point_words_len(q, point_value(q, vals));
    assert(fits(q) || q.kind != kind);
    if p == last {
        lemma_place_words(
            word_map(regs.drop_last(), vals, kind),
            q.address,
            spec_point_words(q, point_value(q, vals)),
            a,
        );
    } else {
        let rest = regs.drop_last();
        assert forall|k: int| 0 <= k < rest.len() && #[trigger] rest[k].kind == kind implies fits(
            rest[k],
        ) by {
            assert(rest[k] == regs[k]);
        }
        assert forall|k: int|
            0 <= k < rest.len() && k != p && #[trigger] rest[k].kind == kind implies !covers(
                rest[k],
                a,
            ) && rest[k].id != rest[p].id by {
            assert(rest[k] == regs[k]);
        }
        lemma_word_map_at(rest, vals, kind, p, a);
        if q.kind == kind {
            lemma_place_words(
                word_map(rest, vals, kind),
                q.address,
                spec_point_words(q, point_value(q, vals)),
                a,
            );
        }
    }
}

proof fn lemma_refresh_at(
    regs: Seq<RegisterPoint>,
    kind: RegisterKind,
    m: Map<u16, u16>,
    vals: Map<u128, ValueModel>,
    p: int,
)
    requires
        0 <= p < regs.len(),
        regs[p].kind == kind,
        decoded_point(regs[p], m) is Some,
        forall|q: int|
            0 <= q < regs.len() && q != p && #[trigger] regs[q].kind == kind ==> regs[q].id
                != regs[p].id,
    ensures
        refresh_points(regs, kind, m, vals).contains_key(regs[p].id.0),
        refresh_points(regs, kind, m, vals)[regs[p].id.0] == decoded_point(regs[p], m)->0,
    decreases regs.len(),
{
    let last = regs.len() - 1;
    if p < last {
        let rest = regs.drop_last();
        assert forall|q: int|
            0 <= q < rest.len() && q != p && #[trigger] rest[q].kind == kind implies rest[q].id
            != rest[p].id by {
            assert(rest[q] == regs[q]);
        }
        lemma_refresh_at(rest, kind, m, vals, p);
        if regs[last].kind == kind {
            assert(regs[last].id != regs[p].id);
            assert(regs[last].id.0 != regs[p].id.0);
        }
    }
}

proof fn lemma_be_bytes_of_value(b: Seq<u8>)
    ensures
        be_bytes(be_value(b), b.len()) == b,
    decreases b.len(),
{
    if b.len() > 0 {
        lemma_be_bytes_of_value(b.drop_last());
        let n = be_value(b);
        assert(n / 256 == be_value(b.drop_last()));
        assert(n % 256 == b.last());
        assert(be_bytes(n, b.len()) =~= b);
    }
}

proof fn lemma_cast_roundtrips(x: u16, y: u32, z: u64)
    ensures
        (((x as i16) as u16) as nat) == x as nat,
        (((y as i32) as u32) as nat) == y as nat,
        (((z as i64) as u64) as nat) == z as nat,
{
    assert(((x as i16) as u16) == x) by (bit_vector);
    assert(((y as i32) as u32) == y) by (bit_vector);
    assert(((z as i64) as u64) == z) by (bit_vector);
}

/// Words of a numeric type decode to a value that encodes back to the same
/// words, for every byte and word order.
pub proof fn law_encode_inverts_decode(ws: Seq<u16>, dt: DataType, e: Encoding, byte_len: Option<usize>)
    requires
        dt != DataType::String,
        ws.len() == spec_word_count(dt, byte_len),
    ensures
        spec_decode_value(ws, dt, e, byte_len) is Some,
        spec_encode_value(spec_decode_value(ws, dt, e, byte_len)->0, dt, e, byte_len) == Some(ws),
{
    let bytes = spec_words_to_bytes(ws, e);
    let k = bytes.len();
    assert(bytes.take(k as int) =~= bytes);
    lemma_be_bytes_of_value(bytes);
    lemma_be_value_bound(bytes);
    lemma_pow256_facts();
    let x = be_value(bytes);
    lemma_cast_roundtrips(x as u16, x as u32, x as u64);
    lemma_words_bytes_roundtrip(ws, e);
    assert(pow256(k) == pow256(2 * ws.len()));
}

/// A bit value is written as 0/1 and reads back unchanged.
proof fn lemma_bit_roundtrip(v: bool)
    ensures
        (bit_word(v) != 0) == v,
{
}

/// What a read gives back of a write, for holding registers: when a holding
/// point of a numeric type is the only point of its table at an address, its
/// table fits the address space, no other holding point shares its id, and
/// the behavior neither disables function codes 3 and 6 nor caps requests
/// below one register, then writing a word there succeeds, and reading the
/// address after the write is applied gives that word back.
pub proof fn law_holding_read_after_write(
    regs: Seq<RegisterPoint>,
    values: Map<u128, ValueModel>,
    b: BehaviorModel,
    p: int,
    a: u16,
    w: u16,
)
    requires
        sole_point(regs, RegisterKind::Holding, p, a),
        regs[p].data_type != DataType::String,
        !b.disabled_function_codes.contains(6),
        !b.disabled_function_codes.contains(3),
        b.max_registers_per_request is None || b.max_registers_per_request->0 >= 1,
    ensures
        ({
            let (o, writes) = spec_process(
                RequestModel::WriteSingleRegister { address: a, value: w },
                regs,
                values,
                b,
            );
            let after = spec_apply(regs, values, writes);
            &&& o == OutcomeModel::Response(ResponseModel::WriteSingleRegister { address: a, value: w })
            &&& spec_process(
                RequestModel::ReadHoldingRegisters { address: a, quantity: 1 },
                regs,
                after,
                b,
            ).0 == OutcomeModel::Response(ResponseModel::ReadHoldingRegisters(seq![w]))
        }),
{
    lemma_read_after_write(regs, values, b, p, a, w, RegisterKind::Holding);
}

/// What a read gives back of a write, for coils: when a coil is the only
/// point of the coil table at an address, the table fits the address space,
/// no other coil shares its id, and the behavior neither disables function
/// codes 1 and 5 nor caps requests below one register, then writing a value
/// there succeeds, and reading the address after the write is applied gives
/// that value back.
pub proof fn law_coil_read_after_write(
    regs: Seq<RegisterPoint>,
    values: Map<u128, ValueModel>,
    b: BehaviorModel,
    p: int,
    a: u16,
    v: bool,
)
    requires
        sole_point(regs, RegisterKind::Coil, p, a),
        !b.disabled_function_codes.contains(5),
        !b.disabled_function_codes.contains(1),
        b.max_registers_per_request is None || b.max_registers_per_request->0 >= 1,
    ensures
        ({
            let (o, writes) = spec_process(
                RequestModel::WriteSingleCoil { address: a, value: v },
                regs,
                values,
                b,
            );
            let after = spec_apply(regs, values, writes);
            &&& o == OutcomeModel::Response(ResponseModel::WriteSingleCoil { address: a, value: v })
            &&& spec_process(RequestModel::ReadCoils { address: a, quantity: 1 }, regs, after, b).0
                == OutcomeModel::Response(ResponseModel::ReadCoils(seq![v]))
        }),
{
    lemma_read_after_write(regs, values, b, p, a, bit_word(v), RegisterKind::Coil);
    lemma_bit_roundtrip(v);
    let (o, writes) = spec_process(
        RequestModel::WriteSingleCoil { address: a, value: v },
        regs,
        values,
        b,
    );
    let after = spec_apply(regs, values, writes);
    let m1 = word_map(regs, after, RegisterKind::Coil);
    assert(crate::engine::spec_read_bits(m1, a, 1) =~= seq![v]);
}

proof fn lemma_read_after_write(
    regs: Seq<RegisterPoint>,
    values: Map<u128, ValueModel>,
    b: BehaviorModel,
    p: int,
    a: u16,
    w: u16,
    kind: RegisterKind,
)
    requires
        kind == RegisterKind::Holding || kind == RegisterKind::Coil,
        sole_point(regs, kind, p, a),
        kind == RegisterKind::Holding ==> regs[p].data_type != DataType::String,
        kind == RegisterKind::Holding ==> !b.disabled_function_codes.contains(6)
            && !b.disabled_function_codes.contains(3),
        kind == RegisterKind::Coil ==> !b.disabled_function_codes.contains(5)
            && !b.disabled_function_codes.contains(1) && (w == 0 || w == 1),
        b.max_registers_per_request is None || b.max_registers_per_request->0 >= 1,
    ensures
        ({
            let write = if kind == RegisterKind::Holding {
                RequestModel::WriteSingleRegister { address: a, value: w }
            } else {
                RequestModel::WriteSingleCoil { address: a, value: w != 0 }
            };
            let (o, writes) = spec_process(write, regs, values, b);
            let after = spec_apply(regs, values, writes);
            &&& writes == seq![WordWrite { kind, address: a, word: w }]
            &&& word_map(regs, after, kind).contains_key(a)
            &&& word_map(regs, after, kind)[a] == w
            &&& kind == RegisterKind::Holding ==> o == OutcomeModel::Response(
                ResponseModel::WriteSingleRegister { address: a, value: w },
            )
            &&& kind == RegisterKind::Coil ==> o == OutcomeModel::Response(
                ResponseModel::WriteSingleCoil { address: a, value: w != 0 },
            )
            &&& kind == RegisterKind::Holding ==> spec_process(
                RequestModel::ReadHoldingRegisters { address: a, quantity: 1 },
                regs,
                after,
                b,
            ).0 == OutcomeModel::Response(ResponseModel::ReadHoldingRegisters(seq![w]))
            &&& kind == RegisterKind::Coil ==> spec_process(
                RequestModel::ReadCoils { address: a, quantity: 1 },
                regs,
                after,
                b,
            ).0 == OutcomeModel::Response(ResponseModel::ReadCoils(seq![w != 0]))
        }),
{
    let rp = regs[p];
    let write = if kind == RegisterKind::Holding {
        RequestModel::WriteSingleRegister { address: a, value: w }
    } else {
        RequestModel::WriteSingleCoil { address: a, value: w != 0 }
    };
    let m = word_map(regs, values, kind);
    lemma_word_map_at(regs, values, kind, p, a);
    assert(m.contains_key(a));
    if kind == RegisterKind::Coil {
        assert(bit_word(w != 0) == w);
    }
    let (o, writes) = spec_process(write, regs, values, b);
    assert(writes == seq![WordWrite { kind, address: a, word: w }]);
    let m2 = overlay(m, writes, kind);
    assert(writes.drop_last() =~= Seq::<WordWrite>::empty());
    assert(overlay(m, writes.drop_last(), kind) == m);
    assert(writes.last() == WordWrite { kind, address: a, word: w });
    assert(m2 == m.insert(a, w));
    // the value the point reads back from the written table
    let ws = Seq::new(rp.spec_word_count() as nat, |i: int| read_word(m2, wrap_address(rp.address, i)));
    assert(placed_len(rp) < 0x1_0000);
    assert(rp.spec_word_count() as nat == placed_len(rp));
    if kind == RegisterKind::Holding {
        law_encode_inverts_decode(ws, rp.data_type, rp.encoding, rp.byte_length);
    }
    assert(decoded_point(rp, m2) is Some);
    let v1 = refresh_points(regs, kind, m2, values);
    assert forall|q: int|
        0 <= q < regs.len() && q != p && #[trigger] regs[q].kind == kind implies regs[q].id
        != regs[p].id by {
    }
    lemma_refresh_at(regs, kind, m2, values, p);
    let after = spec_apply(regs, values, writes);
    assert(has_kind(writes, kind));
    assert(!has_kind(writes, RegisterKind::Input));
    assert(!has_kind(writes, RegisterKind::Discrete));
    if kind == RegisterKind::Holding {
        assert(!has_kind(writes, RegisterKind::Coil));
    } else {
        assert(!has_kind(writes, RegisterKind::Holding));
    }
    assert(after == v1);
    // the point's words in the refreshed table are the written table's words
    let dv = decoded_point(rp, m2)->0;
    assert(point_value(rp, v1) == dv);
    assert(spec_point_words(rp, dv) == ws) by {
        if kind == RegisterKind::Coil {
            assert(spec_point_words(rp, dv) =~= ws);
        }
    }
    lemma_word_map_at(regs, v1, kind, p, a);
    let i = a - rp.address;
    assert(wrap_address(rp.address, i) == a);
    assert(word_map(regs, v1, kind)[a] == w);
    let m1 = word_map(regs, v1, kind);
    assert(crate::engine::covered(m1, a as int));
    assert(crate::engine::spec_coverage(m1, a, 1) == crate::engine::Coverage::Full);
    assert(wrap_address(a, 0) == a);
    assert(crate::engine::spec_read_words(m1, a, 1) =~= seq![w]);
    assert(crate::engine::spec_read_bits(m1, a, 1) =~= seq![w != 0]);
}

/// The layout conditions for a whole point: every point of the table fits
/// the address space, no other point of the table covers any address of
/// point `p`, and none shares its id.
pub open spec fn sole_range(regs: Seq<RegisterPoint>, kind: RegisterKind, p: int) -> bool {
    &&& 0 <= p < regs.len()
    &&& regs[p].kind == kind
    &&& forall|q: int| 0 <= q < regs.len() && #[trigger] regs[q].kind == kind ==> fits(regs[q])
    &&& forall|q: int, a: u16|
        0 <= q < regs.len() && q != p && #[trigger] regs[q].kind == kind && covers(regs[p], a)
            ==> !#[trigger] covers(regs[q], a)
    &&& forall|q: int|
        0 <= q < regs.len() && q != p && #[trigger] regs[q].kind == kind ==> regs[q].id != regs[p].id
}

proof fn lemma_sole_at(regs: Seq<RegisterPoint>, kind: RegisterKind, p: int, a: u16)
    requires
        sole_range(regs, kind, p),
        covers(regs[p], a),
    ensures
        sole_point(regs, kind, p, a),
{
    assert forall|q: int|
        0 <= q < regs.len() && q != p && #[trigger] regs[q].kind == kind implies !covers(regs[q], a)
        && regs[q].id != regs[p].id by {
        assert(!covers(regs[q], a));
    }
}

/// When every address of a multiple write exists, the writes are one per
/// word, in order.
proof fn lemma_multi_writes_all(m: Map<u16, u16>, kind: RegisterKind, address: u16, words: Seq<u16>)
    requires
        forall|i: int| 0 <= i < words.len() ==> m.contains_key(#[trigger] wrap_address(address, i)),
    ensures
        spec_multi_writes(m, kind, address, words) == Seq::new(
            words.len(),
            |i: int| WordWrite { kind, address: wrap_address(address, i), word: words[i] },
        ),
    decreases words.len(),
{
    if words.len() > 0 {
        let n = words.len() - 1;
        lemma_multi_writes_all(m, kind, address, words.drop_last());
        assert(m.contains_key(wrap_address(address, n)));
        assert(spec_multi_writes(m, kind, address, words) =~= Seq::new(
            words.len(),
            |i: int| WordWrite { kind, address: wrap_address(address, i), word: words[i] },
        ));
    }
}

/// Laying writes of distinct addresses over a map.
proof fn lemma_overlay_writes(m: Map<u16, u16>, kind: RegisterKind, base: u16, words: Seq<u16>, x: u16)
    requires
        base + words.len() <= 0x1_0000,
    ensures
        ({
            let ws = Seq::new(
                words.len(),
                |i: int| WordWrite { kind, address: wrap_address(base, i), word: words[i] },
            );
            let o = overlay(m, ws, kind);
            &&& base <= x < base + words.len() ==> o.contains_key(x) && o[x] == words[x - base]
            &&& !(base <= x < base + words.len()) ==> o.contains_key(x) == m.contains_key(x) && (
            m.contains_key(x) ==> o[x] == m[x])
        }),
    decreases words.len(),
{
    if words.len() > 0 {
        let n = words.len() - 1;
        lemma_overlay_writes(m, kind, base, words.drop_last(), x);
        let ws = Seq::new(
            words.len(),
            |i: int| WordWrite { kind, address: wrap_address(base, i), word: words[i] },
        );
        let prev = Seq::new(
            words.drop_last().len(),
            |i: int| WordWrite { kind, address: wrap_address(base, i), word: words.drop_last()[i] },
        );
        assert(ws.drop_last() =~= prev);
        assert(wrap_address(base, n) == base + n);
    }
}

/// What a read gives back of a multiple write: when a holding point of a
/// numeric type has a table to itself at its addresses (as `sole_range`
/// says), the behavior neither disables function codes 3 and 16 nor caps
/// requests below the point's word count, then writing all its words at once
/// succeeds, and reading them back after the write is applied gives the same
/// words.
#[verifier::spinoff_prover]
#[verifier::rlimit(40)]
pub proof fn law_holding_multiple_read_after_write(
    regs: Seq<RegisterPoint>,
    values: Map<u128, ValueModel>,
    b: BehaviorModel,
    p: int,
    ws: Seq<u16>,
)
    requires
        sole_range(regs, RegisterKind::Holding, p),
        regs[p].data_type != DataType::String,
        ws.len() == placed_len(regs[p]),
        !b.disabled_function_codes.contains(16),
        !b.disabled_function_codes.contains(3),
        b.max_registers_per_request is None || b.max_registers_per_request->0 >= ws.len(),
    ensures
        ({
            let a = regs[p].address;
            let n = ws.len() as u16;
            let (o, writes) = spec_process(
                RequestModel::WriteMultipleRegisters { address: a, values: ws },
                regs,
                values,
                b,
            );
            let after = spec_apply(regs, values, writes);
            &&& o == OutcomeModel::Response(ResponseModel::WriteMultipleRegisters { address: a, quantity: n })
            &&& spec_process(
                RequestModel::ReadHoldingRegisters { address: a, quantity: n },
                regs,
                after,
                b,
            ).0 == OutcomeModel::Response(ResponseModel::ReadHoldingRegisters(ws))
        }),
{
    let kind = RegisterKind::Holding;
    let rp = regs[p];
    let a = rp.address;
    let len = ws.len();
    reveal(spec_word_count);
    assert(1 <= len <= 4);
    let n = len as u16;
    assert(fits(rp));
    let m = word_map(regs, values, kind);
    // every word of the point is in the table
    assert forall|i: int| 0 <= i < len implies m.contains_key(#[trigger] wrap_address(a, i)) by {
        assert(wrap_address(a, i) == a + i);
        lemma_sole_at(regs, kind, p, wrap_address(a, i));
        lemma_word_map_at(regs, values, kind, p, wrap_address(a, i));
    }
    assert forall|x: int| a <= x < a + n implies crate::engine::covered(m, x) by {
        assert(m.contains_key(wrap_address(a, x - a)));
        assert(wrap_address(a, x - a) == x);
    }
    let write = RequestModel::WriteMultipleRegisters { address: a, values: ws };
    assert((ws.len() % 0x1_0000) as u16 == n);
    assert(crate::engine::spec_function_code(write) == 16);
    assert(crate::engine::spec_quantity(write) == n);
    assert(crate::engine::spec_target_kind(write) == kind);
    assert(crate::engine::covered(m, a as int));
    assert(crate::engine::spec_coverage(m, a, n) == crate::engine::Coverage::Full);
    assert(crate::engine::spec_missing(m, a, n, b) is None);
    let (o, writes) = spec_process(write, regs, values, b);
    assert(writes == spec_multi_writes(m, kind, a, ws));
    lemma_multi_writes_all(m, kind, a, ws);
    let all = Seq::new(len, |i: int| WordWrite { kind, address: wrap_address(a, i), word: ws[i] });
    assert(writes == all);
    let m2 = overlay(m, writes, kind);
    // the point's words in the written table are the written words
    let ws2 = Seq::new(rp.spec_word_count() as nat, |i: int| read_word(m2, wrap_address(rp.address, i)));
    assert(rp.spec_word_count() as nat == len);
    assert forall|i: int| 0 <= i < len implies ws2[i] == ws[i] by {
        lemma_overlay_writes(m, kind, a, ws, wrap_address(a, i));
        assert(wrap_address(a, i) == a + i);
    }
    assert(ws2 =~= ws);
    law_encode_inverts_decode(ws, rp.data_type, rp.encoding, rp.byte_length);
    assert(decoded_point(rp, m2) is Some);
    let v1 = refresh_points(regs, kind, m2, values);
    lemma_refresh_at(regs, kind, m2, values, p);
    let after = spec_apply(regs, values, writes);
    assert(writes[0].kind == kind);
    assert(has_kind(writes, kind));
    assert(!has_kind(writes, RegisterKind::Input));
    assert(!has_kind(writes, RegisterKind::Discrete));
    assert(!has_kind(writes, RegisterKind::Coil));
    assert(after == v1);
    let dv = decoded_point(rp, m2)->0;
    assert(point_value(rp, v1) == dv);
    assert(spec_point_words(rp, dv) == ws);
    let m1 = word_map(regs, v1, kind);
    assert forall|i: int| 0 <= i < len implies m1.contains_key(#[trigger] wrap_address(a, i))
        && m1[wrap_address(a, i)] == ws[i] by {
        assert(wrap_address(a, i) == a + i);
        lemma_sole_at(regs, kind, p, wrap_address(a, i));
        lemma_word_map_at(regs, v1, kind, p, wrap_address(a, i));
    }
    assert forall|x: int| a <= x < a + n implies crate::engine::covered(m1, x) by {
        assert(m1.contains_key(wrap_address(a, x - a)));
        assert(wrap_address(a, x - a) == x);
    }
    assert(crate::engine::covered(m1, a as int));
    assert(crate::engine::spec_coverage(m1, a, n) == crate::engine::Coverage::Full);
    assert(crate::engine::spec_read_words(m1, a, n) =~= ws);
}

/// A multiple-coil write whose coils all exist, that the behavior neither
/// refuses nor caps, succeeds and writes one word per value, in order, to
/// consecutive coils: 1 for a value that is on and 0 for one that is off.
pub proof fn law_coil_multi_write_words(
    regs: Seq<RegisterPoint>,
    values: Map<u128, ValueModel>,
    b: BehaviorModel,
    address: u16,
    vs: Seq<bool>,
)
    requires
        1 <= vs.len() <= 0xFFFF,
        address + vs.len() <= 0x1_0000,
        !b.disabled_function_codes.contains(15),
        b.max_registers_per_request is None || b.max_registers_per_request->0 >= vs.len(),
        forall|x: int|
            address <= x < address + vs.len() ==> #[trigger] crate::engine::covered(
                word_map(regs, values, RegisterKind::Coil),
                x,
            ),
    ensures
        ({
            let (o, writes) = spec_process(
                RequestModel::WriteMultipleCoils { address, values: vs },
                regs,
                values,
                b,
            );
            &&& o == OutcomeModel::Response(
                ResponseModel::WriteMultipleCoils { address, quantity: vs.len() as u16 },
            )
            &&& writes.len() == vs.len()
            &&& forall|i: int|
                0 <= i < vs.len() ==> #[trigger] writes[i] == WordWrite {
                    kind: RegisterKind::Coil,
                    address: (address + i) as u16,
                    word: if vs[i] {
                        1u16
                    } else {
                        0u16
                    },
                }
        }),
{
    let kind = RegisterKind::Coil;
    let n = vs.len() as u16;
    let m = word_map(regs, values, kind);
    let write = RequestModel::WriteMultipleCoils { address, values: vs };
    assert((vs.len() % 0x1_0000) as u16 == n);
    assert(crate::engine::spec_function_code(write) == 15);
    assert(crate::engine::spec_quantity(write) == n);
    assert(crate::engine::spec_target_kind(write) == kind);
    assert(crate::engine::covered(m, address as int));
    assert(crate::engine::spec_coverage(m, address, n) == crate::engine::Coverage::Full);
    assert(crate::engine::spec_missing(m, address, n, b) is None);
    let words = crate::engine::bit_words(vs);
    assert forall|i: int| 0 <= i < words.len() implies m.contains_key(
        #[trigger] wrap_address(address, i),
    ) by {
        assert(wrap_address(address, i) == address + i);
        assert(crate::engine::covered(m, address + i));
    }
    lemma_multi_writes_all(m, kind, address, words);
    let (o, writes) = spec_process(write, regs, values, b);
    assert(writes == spec_multi_writes(m, kind, address, words));
    assert forall|i: int| 0 <= i < vs.len() implies #[trigger] writes[i] == WordWrite {
        kind,
        address: (address + i) as u16,
        word: if vs[i] {
            1u16
        } else {
            0u16
        },
    } by {
        assert(wrap_address(address, i) == (address + i) as u16);
    }
}

/// Each write of a multiple write is to an address of the table, at the
/// position of one of the words, carrying that word.
proof fn lemma_multi_writes_source(
    m: Map<u16, u16>,
    kind: RegisterKind,
    address: u16,
    words: Seq<u16>,
    i: int,
)
    requires
        0 <= i < spec_multi_writes(m, kind, address, words).len(),
    ensures
        ({
            let w = spec_multi_writes(m, kind, address, words)[i];
            &&& w.kind == kind
            &&& m.contains_key(w.address)
            &&& exists|j: int|
                0 <= j < words.len() && w.address == wrap_address(address, j) && w.word
                    == #[trigger] words[j]
        }),
    decreases words.len(),
{
    let prev = spec_multi_writes(m, kind, address, words.drop_last());
    if i < prev.len() {
        lemma_multi_writes_source(m, kind, address, words.drop_last(), i);
        let w = prev[i];
        let j = choose|j: int|
            0 <= j < words.drop_last().len() && w.address == wrap_address(address, j) && w.word
                == #[trigger] words.drop_last()[j];
        assert(words[j] == words.drop_last()[j]);
    } else {
        assert(words[words.len() - 1] == words.last());
    }
}

/// What a request writes: reads and refused requests write nothing, and
/// every write goes to a register that exists in the request's own table
/// (coils for function codes 5 and 15, holding registers for 6 and 16), at
/// the address of one of the request's values, carrying that value (a coil
/// as 1 when on and 0 when off).
pub proof fn law_writes_follow_request(
    r: RequestModel,
    regs: Seq<RegisterPoint>,
    values: Map<u128, ValueModel>,
    b: BehaviorModel,
    i: int,
)
    requires
        0 <= i < spec_process(r, regs, values, b).1.len(),
    ensures
        ({
            let (o, writes) = spec_process(r, regs, values, b);
            let w = writes[i];
            &&& o is Response
            &&& word_map(regs, values, w.kind).contains_key(w.address)
            &&& match r {
                RequestModel::WriteSingleCoil { address, value } => w == WordWrite {
                    kind: RegisterKind::Coil,
                    address,
                    word: if value {
                        1u16
                    } else {
                        0u16
                    },
                },
                RequestModel::WriteSingleRegister { address, value } => w == WordWrite {
                    kind: RegisterKind::Holding,
                    address,
                    word: value,
                },
                RequestModel::WriteMultipleCoils { address, values: vs } => w.kind
                    == RegisterKind::Coil && exists|j: int|
                    0 <= j < vs.len() && w.address == ((address + j) % 0x1_0000) as u16 && w.word
                        == if #[trigger] vs[j] {
                        1u16
                    } else {
                        0u16
                    },
                RequestModel::WriteMultipleRegisters { address, values: vs } => w.kind
                    == RegisterKind::Holding && exists|j: int|
                    0 <= j < vs.len() && w.address == ((address + j) % 0x1_0000) as u16 && w.word
                        == #[trigger] vs[j],
                _ => false,
            }
        }),
{
    let kind = crate::engine::spec_target_kind(r);
    let m = word_map(regs, values, kind);
    let (o, writes) = spec_process(r, regs, values, b);
    match r {
        RequestModel::WriteMultipleCoils { address, values: vs } => {
            let words = crate::engine::bit_words(vs);
            assert(writes == spec_multi_writes(m, kind, address, words));
            lemma_multi_writes_source(m, kind, address, words, i);
            let j = choose|j: int|
                0 <= j < words.len() && writes[i].address == wrap_address(address, j) && writes[i].word
                    == #[trigger] words[j];
            assert(vs[j] == vs[j]);
        },
        RequestModel::WriteMultipleRegisters { address, values: vs } => {
            assert(writes == spec_multi_writes(m, kind, address, vs));
            lemma_multi_writes_source(m, kind, address, vs, i);
        },
        _ => {},
    }
}

} // verus!
