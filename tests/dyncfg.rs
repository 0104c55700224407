use gtctl::dyncfg::{
    check_script_size, create_packet, decode_response, read_frame, response_len, MAX_MSG_LEN,
};

#[test]
fn frame_has_big_endian_length() {
    let p = create_packet(b"test");
    assert_eq!(p, vec![0, 4, b't', b'e', b's', b't']);
    let big = vec![7u8; 0x0102];
    let p = create_packet(&big);
    assert_eq!(&p[..2], &[1, 2]);
    assert_eq!(p.len(), 0x0104);
}

#[test]
fn frame_round_trip() {
    for len in [0usize, 1, 255, 256, 65534] {
        let payload: Vec<u8> = (0..len).map(|i| (i * 7 % 251) as u8).collect();
        let frame = create_packet(&payload);
        assert_eq!(response_len(&frame), len);
        assert_eq!(read_frame(&frame), Some(payload));
    }
}

#[test]
fn short_frame_is_incomplete() {
    assert_eq!(read_frame(&[0]), None);
    assert_eq!(read_frame(&[0, 3, 1, 2]), None);
    assert_eq!(read_frame(&[0, 1, 9, 9]), Some(vec![9]));
}

#[test]
fn oversize_script_is_rejected() {
    assert_eq!(check_script_size("s.lua", 65534), Ok(MAX_MSG_LEN));
    assert_eq!(check_script_size("s.lua", 0), Ok(0));
    let e = check_script_size("s.lua", 65535).unwrap_err();
    assert_eq!(e.script, "s.lua");
    assert_eq!(e.size, 65535);
}

#[test]
fn response_is_decoded_lossily() {
    assert_eq!(decode_response(b"0: 1, 2\n"), "0: 1, 2\n");
    assert_eq!(decode_response(&[b'a', 0xff, b'b']), "a\u{FFFD}b");
    assert_eq!(decode_response(&[]), "");
}
