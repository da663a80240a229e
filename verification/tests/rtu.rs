use modsim::rtu::{build_frame, check_frame, crc16, reply_frame};

#[test]
fn crc_known_vector() {
    // classic test: 01 03 00 00 00 0A -> C5 CD (LE)
    let bytes = [0x01, 0x03, 0x00, 0x00, 0x00, 0x0A];
    let c = crc16(&bytes);
    assert_eq!(c.to_le_bytes(), [0xC5, 0xCD]);
}

#[test]
fn roundtrip_frame_wrap() {
    let pdu = [0x03, 0x00, 0x0A, 0x00, 0x01];
    let f = build_frame(7, &pdu);
    assert_eq!(f[0], 7);
    assert_eq!(&f[1..6], &pdu);
    let crc = u16::from_le_bytes([f[6], f[7]]);
    assert_eq!(crc, crc16(&f[..6]));
}

#[test]
fn crc_of_nothing_is_the_initial_value() {
    assert_eq!(crc16(&[]), 0xFFFF);
}

#[test]
fn checked_frame_gives_back_slave_and_pdu() {
    let pdu = vec![0x03, 0x00, 0x0A, 0x00, 0x01];
    let f = build_frame(9, &pdu);
    assert_eq!(check_frame(&f), Some((9, pdu)));
}

#[test]
fn bad_crc_and_short_frames_are_dropped() {
    let mut f = build_frame(1, &[0x03, 0x00, 0x00, 0x00, 0x01]);
    let last = f.len() - 1;
    f[last] ^= 0xFF;
    assert_eq!(check_frame(&f), None);
    assert_eq!(check_frame(&[0x01, 0x03, 0x00]), None);
}

#[test]
fn broadcast_and_silence_get_no_reply() {
    assert_eq!(reply_frame(0, Some(vec![0x06, 0, 1, 0, 2])), None);
    assert_eq!(reply_frame(3, None), None);
    let reply = vec![0x83, 0x02];
    assert_eq!(reply_frame(3, Some(reply.clone())), Some(build_frame(3, &reply)));
}

#[test]
fn crc_check_value_and_zero_residue() {
    assert_eq!(crc16(b"123456789"), 0x4B37);
    let data = [0x11u8, 0x03, 0x00, 0x6B, 0x00, 0x03];
    let mut framed = data.to_vec();
    framed.extend_from_slice(&crc16(&data).to_le_bytes());
    assert_eq!(crc16(&framed), 0);
    let mut empty = Vec::new();
    empty.extend_from_slice(&crc16(&[]).to_le_bytes());
    assert_eq!(crc16(&empty), 0);
}
