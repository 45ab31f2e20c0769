use mwb_bridge::mwb_protocol::{
    append_bytes, build_clipboard_beat, build_clipboard_handshake, build_handshake,
    build_handshake_ack, build_hide_mouse, build_machine_switched, copy_into, finalize_send_buf,
    handshake_matches, is_big_package, pack_u32_le, unpack_u32_le, validate_and_clean_recv_buf,
    ID_ALL, PACKAGE_SIZE, PACKAGE_SIZE_EX, PACKAGE_TYPE_CLIPBOARD, PACKAGE_TYPE_CLIPBOARD_PUSH,
};

#[test]
fn numbers_are_little_endian() {
    let mut buf = [0xEEu8; 8];
    pack_u32_le(&mut buf, 2, 0x12345678);
    assert_eq!(buf, [0xEE, 0xEE, 0x78, 0x56, 0x34, 0x12, 0xEE, 0xEE]);
    assert_eq!(unpack_u32_le(&buf, 2), 0x12345678);
}

#[test]
fn bytes_are_copied_and_appended() {
    let mut buf = [0u8; 5];
    copy_into(&mut buf, 1, &[7, 8]);
    assert_eq!(buf, [0, 7, 8, 0, 0]);
    let mut v = vec![1u8];
    append_bytes(&mut v, &[2, 3]);
    assert_eq!(v, vec![1, 2, 3]);
}

#[test]
fn big_packages_are_listed() {
    for t in [3u8, 20, 21, 51, 69, 76, 78, 79, 124, 125, 126, 127, 128, 130, 134, 255] {
        assert!(is_big_package(t), "{t}");
    }
    for t in [0u8, 2, 4, 50, 52, 53, 70, 75, 77, 121, 122, 123] {
        assert!(!is_big_package(t), "{t}");
    }
}

#[test]
fn sealing_writes_magic_and_checksum() {
    let mut buf = [0u8; PACKAGE_SIZE];
    buf[0] = 123;
    buf[31] = 0xF0;
    finalize_send_buf(&mut buf, 0x0b17428f);
    assert_eq!(buf[3], 0x0b);
    assert_eq!(buf[2], 0x17);
    assert_eq!(buf[1], (0x0bu32 + 0x17 + 0xF0) as u8);
    assert_eq!(buf[0], 123);
}

#[test]
fn sealed_packages_validate() {
    let mut buf = build_handshake(1, 42, [1, 2, 3, 4], "omarchy").to_vec();
    let plain = buf.clone();
    finalize_send_buf(&mut buf, 0xAABBCCDD);
    let mut other = buf.clone();
    assert!(validate_and_clean_recv_buf(&mut buf, 0xAABB0000));
    assert_eq!(buf, plain);
    assert!(!validate_and_clean_recv_buf(&mut other, 0xAABC0000));
    assert_eq!(other, plain);
}

#[test]
fn one_wrong_byte_is_noticed() {
    for i in 1..PACKAGE_SIZE {
        let mut buf = [5u8; PACKAGE_SIZE];
        finalize_send_buf(&mut buf, 0x01020304);
        buf[i] ^= 0x40;
        assert!(!validate_and_clean_recv_buf(&mut buf, 0x01020304), "{i}");
        assert_eq!(&buf[1..4], &[0, 0, 0]);
    }
}

#[test]
fn second_half_is_not_covered() {
    let mut buf = [5u8; PACKAGE_SIZE_EX];
    finalize_send_buf(&mut buf, 0x01020304);
    buf[40] = 0;
    assert!(validate_and_clean_recv_buf(&mut buf, 0x01020304));
}

#[test]
fn handshake_layout() {
    let h = build_handshake(1, 0x12345678, [0x11, 0x2200, 0x330000, 0x44000000], "omarchy");
    assert_eq!(&h[..16], &[126, 0, 0, 0, 1, 0, 0, 0, 0x78, 0x56, 0x34, 0x12, 0, 0, 0, 0]);
    assert_eq!(&h[16..32], &[0x11, 0, 0, 0, 0, 0x22, 0, 0, 0, 0, 0x33, 0, 0, 0, 0, 0x44]);
    assert_eq!(&h[32..], b"omarchy                         ");
}

#[test]
fn long_names_are_cut() {
    let h = build_handshake(1, 2, [0; 4], "a-name-that-is-longer-than-thirty-two-bytes");
    assert_eq!(&h[32..], b"a-name-that-is-longer-than-thirt");
    let h = build_handshake(1, 2, [0; 4], "é");
    assert_eq!(&h[32..36], &[0xC3, 0xA9, 0x20, 0x20]);
}

#[test]
fn ack_flips_the_challenge() {
    let challenge = [0, u32::MAX, 0x12345678, 0xF0F0F0F0];
    let h = build_handshake(7, 11, challenge, "WINPC");
    let ack = build_handshake_ack(&h, 22, "omarchy");
    assert_eq!(ack[0], 127);
    assert_eq!(unpack_u32_le(&ack, 4), 7);
    assert_eq!(unpack_u32_le(&ack, 8), 22);
    for i in 0..4 {
        assert_eq!(unpack_u32_le(&ack, 16 + 4 * i), !challenge[i]);
    }
    assert_eq!(&ack[32..39], b"omarchy");
    assert!(handshake_matches(&ack, &challenge));
    assert!(!handshake_matches(&ack, &[0, 0, 0, 0]));
}

#[test]
fn announcement_packages() {
    let beat = build_clipboard_beat(5, 6);
    assert_eq!(&beat[..16], &[69, 0, 0, 0, 5, 0, 0, 0, 6, 0, 0, 0, 255, 0, 0, 0]);
    assert_eq!(&beat[16..], &[0u8; 48]);
    let switched = build_machine_switched(5, 6, 7);
    assert_eq!(&switched[..16], &[77, 0, 0, 0, 5, 0, 0, 0, 6, 0, 0, 0, 7, 0, 0, 0]);
    assert_eq!(&switched[16..], &[0u8; 16]);
    let hide = build_hide_mouse(5, 6, 7);
    assert_eq!(&hide[..16], &[50, 0, 0, 0, 5, 0, 0, 0, 6, 0, 0, 0, 7, 0, 0, 0]);
    assert_eq!(ID_ALL, 255);
}

#[test]
fn clipboard_handshake_has_no_seal() {
    let h = build_clipboard_handshake(PACKAGE_TYPE_CLIPBOARD, 9, "mac");
    assert_eq!(&h[..16], &[69, 0, 0, 0, 0, 0, 0, 0, 9, 0, 0, 0, 0, 0, 0, 0]);
    assert_eq!(&h[16..32], &[0u8; 16]);
    assert_eq!(&h[32..36], b"mac ");
    assert_eq!(build_clipboard_handshake(PACKAGE_TYPE_CLIPBOARD_PUSH, 9, "mac")[0], 79);
}
