use modsim::tcp::{parse_header, reply_frame, MbapHeader};

#[test]
fn mbap_header_is_parsed() {
    let h = parse_header(&[0x12, 0x34, 0x00, 0x00, 0x00, 0x06, 0x11]).unwrap();
    assert_eq!(
        h,
        MbapHeader { transaction_id: 0x1234, protocol_id: 0, length: 6, unit_id: 0x11 }
    );
    assert_eq!(h.pdu_len(), 5);
}

#[test]
fn invalid_mbap_headers_are_refused() {
    // non-zero protocol id
    assert_eq!(parse_header(&[0, 1, 0, 1, 0, 6, 1]), None);
    // length below 2 and above 260
    assert_eq!(parse_header(&[0, 1, 0, 0, 0, 1, 1]), None);
    assert_eq!(parse_header(&[0, 1, 0, 0, 0x01, 0x05, 1]), None);
    // the limits themselves are fine
    assert!(parse_header(&[0, 1, 0, 0, 0, 2, 1]).is_some());
    assert!(parse_header(&[0, 1, 0, 0, 0x01, 0x04, 1]).is_some());
}

#[test]
fn reply_frame_carries_transaction_and_unit() {
    let f = reply_frame(0xBEEF, 7, &[0x03, 0x02, 0x00, 0x2A]);
    assert_eq!(f, vec![0xBE, 0xEF, 0x00, 0x00, 0x00, 0x05, 0x07, 0x03, 0x02, 0x00, 0x2A]);
}

#[test]
fn reply_header_reads_back() {
    let reply = [0x06, 0x00, 0x01, 0x00, 0x03];
    let f = reply_frame(77, 3, &reply);
    let mut h = [0u8; 7];
    h.copy_from_slice(&f[..7]);
    let back = parse_header(&h).unwrap();
    assert_eq!(back, MbapHeader { transaction_id: 77, protocol_id: 0, length: 6, unit_id: 3 });
    assert_eq!(&f[7..7 + back.pdu_len()], &reply);
}
