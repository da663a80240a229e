//! Modbus TCP framing: the MBAP header around a PDU.

use vstd::prelude::*;
use crate::pdu::be16;

verus! {

/// The seven-byte MBAP header of a Modbus TCP request.
#[derive(Debug, Clone, Copy, PartialEq, Eq, Structural)]
pub struct MbapHeader {
    pub transaction_id: u16,
    pub protocol_id: u16,
    /// Number of bytes that follow: the unit id and the PDU.
    pub length: u16,
    pub unit_id: u8,
}

/// The header a request's seven bytes hold, when the protocol id is 0 and
/// the length lies in 2..=260.
pub open spec fn spec_parse_header(h: Seq<u8>) -> Option<MbapHeader> {
    let header = MbapHeader {
        transaction_id: be16(h[0], h[1]),
        protocol_id: be16(h[2], h[3]),
        length: be16(h[4], h[5]),
        unit_id: h[6],
    };
    if header.protocol_id != 0 || !(2 <= header.length <= 260) {
        None
    } else {
        Some(header)
    }
}

/// A reply frame: transaction id, protocol 0, length (reply + unit id, modulo
/// 2^16), unit id, reply PDU.
pub open spec fn spec_reply_frame(transaction_id: u16, unit_id: u8, reply: Seq<u8>) -> Seq<u8> {
    let len = ((reply.len() + 1) % 0x1_0000) as u16;
    seq![
        (transaction_id / 256) as u8,
        (transaction_id % 256) as u8,
        0u8,
        0u8,
        (len / 256) as u8,
        (len % 256) as u8,
        unit_id,
    ] + reply
}

fn be16_at(h: &[u8; 7], i: usize) -> (r: u16)
    requires
        i + 1 < 7,
    ensures
        r == be16(h@[i as int], h@[i + 1]),
{
    (h[i] as u16) * 256 + (h[i + 1] as u16)
}

/// Read an MBAP header; `None` for a header the server refuses.
pub fn parse_header(h: &[u8; 7]) -> (r: Option<MbapHeader>)
    ensures
        r == spec_parse_header(h@),
{
    let header = MbapHeader {
        transaction_id: be16_at(h, 0),
        protocol_id: be16_at(h, 2),
        length: be16_at(h, 4),
        unit_id: h[6],
    };
    if header.protocol_id != 0 || !(2 <= header.length && header.length <= 260) {
        None
    } else {
        Some(header)
    }
}

impl MbapHeader {
    /// Number of PDU bytes that follow the header.
    pub fn pdu_len(&self) -> (r: usize)
        requires
            self.length >= 1,
        ensures
            r == self.length - 1,
    {
        (self.length - 1) as usize
    }
}

/// Frame a reply PDU for the client.
pub fn reply_frame(transaction_id: u16, unit_id: u8, reply: &[u8]) -> (r: Vec<u8>)
    ensures
        r@ == spec_reply_frame(transaction_id, unit_id, reply@),
{
    let len = ((reply.len() % 0x1_0000 + 1) % 0x1_0000) as u16;
    let mut frame: Vec<u8> = vec![
        (transaction_id / 256) as u8,
        (transaction_id % 256) as u8,
        0u8,
        0u8,
        (len / 256) as u8,
        (len % 256) as u8,
        unit_id,
    ];
    let ghost head = frame@;
    assert(len == ((reply@.len() + 1) % 0x1_0000) as u16);
    let mut i: usize = 0;
    while i < reply.len()
        invariant
            i <= reply@.len(),
            frame@ == head + reply@.take(i as int),
        decreases reply@.len() - i,
    {
        frame.push(reply[i]);
        i = i + 1;
        assert(frame@ =~= head + reply@.take(i as int));
    }
    assert(reply@.take(reply@.len() as int) =~= reply@);
    assert(frame@ =~= spec_reply_frame(transaction_id, unit_id, reply@));
    frame
}

/// The header of a reply frame, read back, names the transaction, protocol 0,
/// the reply's length plus one and the unit, for every reply of 1 to 259
/// bytes (the lengths a request header may carry).
pub proof fn law_header_of_reply(transaction_id: u16, unit_id: u8, reply: Seq<u8>)
    requires
        1 <= reply.len() <= 259,
    ensures
        spec_parse_header(spec_reply_frame(transaction_id, unit_id, reply).take(7)) == Some(
            MbapHeader {
                transaction_id,
                protocol_id: 0,
                length: (reply.len() + 1) as u16,
                unit_id,
            },
        ),
{
    let f = spec_reply_frame(transaction_id, unit_id, reply).take(7);
    assert(f[0] == (transaction_id / 256) as u8);
    assert(f[6] == unit_id);
}

} // verus!
