//! Modbus RTU framing: `[slave_id][pdu...][crc_lo][crc_hi]`.

use vstd::prelude::*;

verus! {

/// One step of the reflected CRC: shift right, folding in the polynomial
/// 0xA001 when the bit shifted out is set; `n` such steps.
pub open spec fn crc_shift(crc: u16, n: nat) -> u16
    decreases n,
{
    if n == 0 {
        crc
    } else {
        let c = crc_shift(crc, (n - 1) as nat);
        if c & 1u16 != 0 {
            (c >> 1u16) ^ 0xA001u16
        } else {
            c >> 1u16
        }
    }
}

/// The CRC state after one more byte.
pub open spec fn crc_byte(crc: u16, b: u8) -> u16 {
    crc_shift(crc ^ (b as u16), 8)
}

/// Modbus CRC16 of a byte sequence (poly 0xA001, init 0xFFFF, reflected).
pub open spec fn spec_crc16(bytes: Seq<u8>) -> u16
    decreases bytes.len(),
{
    if bytes.len() == 0 {
        0xFFFF
    } else {
        crc_byte(spec_crc16(bytes.drop_last()), bytes.last())
    }
}

/// The two little-endian bytes of a word.
pub open spec fn le_pair(w: u16) -> Seq<u8> {
    seq![(w % 256) as u8, (w / 256) as u8]
}

/// An RTU frame: slave id, PDU, then the CRC of both, low byte first.
pub open spec fn spec_frame(slave_id: u8, pdu: Seq<u8>) -> Seq<u8> {
    let body = seq![slave_id] + pdu;
    body + le_pair(spec_crc16(body))
}

/// What a received frame holds: the slave id and the PDU, when the frame has
/// at least four bytes and its trailing CRC (low byte first) matches.
pub open spec fn spec_check_frame(frame: Seq<u8>) -> Option<(u8, Seq<u8>)> {
    if frame.len() < 4 {
        None
    } else {
        let n = frame.len();
        let received = (frame[n - 2] as nat + 256 * frame[n - 1] as nat) as u16;
        if received != spec_crc16(frame.take(n - 2)) {
            None
        } else {
            Some((frame[0], frame.subrange(1, n - 2)))
        }
    }
}

/// Compute the Modbus CRC16 (poly 0xA001, init 0xFFFF, reflected).
pub fn crc16(bytes: &[u8]) -> (r: u16)
    ensures
        r == spec_crc16(bytes@),
{
    let mut crc: u16 = 0xFFFF;
    let mut i: usize = 0;
    while i < bytes.len()
        invariant
            i <= bytes@.len(),
            crc == spec_crc16(bytes@.take(i as int)),
        decreases bytes@.len() - i,
    {
        proof {
            assert(bytes@.take(i as int + 1).drop_last() =~= bytes@.take(i as int));
        }
        let ghost start = crc ^ (bytes[i as int] as u16);
        crc = crc ^ (bytes[i] as u16);
        let mut k: usize = 0;
        while k < 8
            invariant
                k <= 8,
                crc == crc_shift(start, k as nat),
            decreases 8 - k,
        {
            if crc & 1 != 0 {
                crc = (crc >> 1) ^ 0xA001;
            } else {
                crc = crc >> 1;
            }
            k = k + 1;
        }
        i = i + 1;
    }
    assert(bytes@.take(bytes@.len() as int) =~= bytes@);
    crc
}

/// Build a full RTU frame `[slave_id | pdu | crc_lo crc_hi]`.
pub fn build_frame(slave_id: u8, pdu: &[u8]) -> (r: Vec<u8>)
    ensures
        r@ == spec_frame(slave_id, pdu@),
{
    let mut f: Vec<u8> = Vec::new();
    f.push(slave_id);
    let mut i: usize = 0;
    while i < pdu.len()
        invariant
            i <= pdu@.len(),
            f@ == seq![slave_id] + pdu@.take(i as int),
        decreases pdu@.len() - i,
    {
        f.push(pdu[i]);
        i = i + 1;
        assert(f@ =~= seq![slave_id] + pdu@.take(i as int));
    }
    assert(pdu@.take(pdu@.len() as int) =~= pdu@);
    let crc = crc16(f.as_slice());
    f.push((crc % 256) as u8);
    f.push((crc / 256) as u8);
    assert(f@ =~= spec_frame(slave_id, pdu@));
    f
}

/// Check a received frame: `Some((slave_id, pdu))` when it is long enough
/// and its CRC matches, `None` otherwise.
pub fn check_frame(frame: &[u8]) -> (r: Option<(u8, Vec<u8>)>)
    ensures
        match r {
            Some((s, p)) => spec_check_frame(frame@) == Some((s, p@)),
            None => spec_check_frame(frame@) is None,
        },
{
    let n = frame.len();
    if n < 4 {
        return None;
    }
    let received: u16 = (frame[n - 2] as u16) + 256 * (frame[n - 1] as u16);
    let mut body: Vec<u8> = Vec::new();
    let mut i: usize = 0;
    while i < n - 2
        invariant
            i <= n - 2,
            n == frame@.len(),
            body@ == frame@.take(i as int),
        decreases n - 2 - i,
    {
        body.push(frame[i]);
        i = i + 1;
        assert(body@ =~= frame@.take(i as int));
    }
    if received != crc16(body.as_slice()) {
        return None;
    }
    let mut pdu: Vec<u8> = Vec::new();
    let mut j: usize = 1;
    while j < n - 2
        invariant
            1 <= j <= n - 2,
            n == frame@.len(),
            pdu@ == frame@.subrange(1, j as int),
        decreases n - 2 - j,
    {
        pdu.push(frame[j]);
        j = j + 1;
        assert(pdu@ =~= frame@.subrange(1, j as int));
    }
    Some((frame[0], pdu))
}

/// The reply frame for a slave: none for the broadcast address 0 or when
/// the dispatcher stays silent, otherwise the framed reply PDU.
pub fn reply_frame(slave_id: u8, reply_pdu: Option<Vec<u8>>) -> (r: Option<Vec<u8>>)
    ensures
        match reply_pdu {
            Some(p) => if slave_id == 0 {
                r is None
            } else {
                r matches Some(f) && f@ == spec_frame(slave_id, p@)
            },
            None => r is None,
        },
{
    match reply_pdu {
        None => None,
        Some(p) => if slave_id == 0 {
            None
        } else {
            Some(build_frame(slave_id, p.as_slice()))
        },
    }
}

/// A frame built for a slave passes the check and gives back the slave id and
/// the PDU, for every PDU of at least one byte (a shorter frame is refused).
pub proof fn law_check_inverts_build(slave_id: u8, pdu: Seq<u8>)
    requires
        pdu.len() >= 1,
    ensures
        spec_check_frame(spec_frame(slave_id, pdu)) == Some((slave_id, pdu)),
{
    let body = seq![slave_id] + pdu;
    let f = spec_frame(slave_id, pdu);
    let n = f.len();
    let crc = spec_crc16(body);
    assert(f.take(n - 2) =~= body);
    assert(f.subrange(1, n - 2) =~= pdu);
    assert(f[n - 2] == (crc % 256) as u8);
    assert(f[n - 1] == (crc / 256) as u8);
    assert(((crc % 256) as u8) as nat + 256 * ((crc / 256) as u8) as nat == crc);
}

/// Shifting a CRC state whose low byte is clear only moves bits down: no
/// polynomial is folded in during the first eight steps.
proof fn lemma_shift_low_clear(c: u16, k: nat)
    requires
        c & 0xffu16 == 0,
        k <= 8,
    ensures
        crc_shift(c, k) == c >> (k as u16),
    decreases k,
{
    if k == 0 {
        assert(c >> 0u16 == c) by (bit_vector);
    } else {
        lemma_shift_low_clear(c, (k - 1) as nat);
        let j = (k - 1) as u16;
        let j1 = k as u16;
        assert((c >> j) & 1u16 == 0 && (c >> j) >> 1u16 == c >> j1) by (bit_vector)
            requires
                c & 0xffu16 == 0,
                j < 8,
                j1 == j + 1,
        ;
    }
}

/// A zero CRC state stays zero however often it is shifted.
proof fn lemma_shift_zero(k: nat)
    ensures
        crc_shift(0, k) == 0,
    decreases k,
{
    if k > 0 {
        lemma_shift_zero((k - 1) as nat);
        assert(0u16 & 1u16 == 0 && 0u16 >> 1u16 == 0) by (bit_vector);
    }
}

/// The CRC of any bytes followed by their own CRC, low byte first (as a
/// frame carries it), is zero.
pub proof fn law_crc_residue_zero(bytes: Seq<u8>)
    ensures
        spec_crc16(bytes + le_pair(spec_crc16(bytes))) == 0,
{
    let r = spec_crc16(bytes);
    let lo = (r % 256) as u8;
    let hi = (r / 256) as u8;
    let s = bytes + le_pair(r);
    let s1 = bytes.push(lo);
    assert(s.drop_last() =~= s1);
    assert(s1.drop_last() =~= bytes);
    assert(s.last() == hi);
    assert(s1.last() == lo);
    let c1 = r ^ (lo as u16);
    assert(c1 & 0xffu16 == 0 && c1 >> 8u16 == hi as u16) by (bit_vector)
        requires
            c1 == r ^ (lo as u16),
            lo == (r % 256) as u8,
            hi == (r / 256) as u8,
    ;
    lemma_shift_low_clear(c1, 8);
    assert(crc_byte(r, lo) == hi as u16);
    let c2 = (hi as u16) ^ (hi as u16);
    assert(c2 == 0) by (bit_vector)
        requires
            c2 == (hi as u16) ^ (hi as u16),
    ;
    lemma_shift_zero(8);
    assert(crc_byte(hi as u16, hi) == 0);
    assert(spec_crc16(s1) == crc_byte(r, lo));
    assert(spec_crc16(s) == crc_byte(spec_crc16(s1), hi));
}

} // verus!
