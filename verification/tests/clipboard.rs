use mwb_bridge::clipboard::{
    build_clipboard_chunk_packages, build_clipboard_image_packages, build_clipboard_text_packages,
    decode_clipboard_text, enough_ids, tag_clipboard_text, text_from_inflated,
    try_build_clipboard_text_packages, ClipboardTextError, CLIPBOARD_CHUNK_SIZE, CLIPBOARD_SEP,
    MAX_CLIPBOARD_FILE_SIZE, MAX_SMALL_PATH_SIZE,
};
use mwb_bridge::mwb_protocol::unpack_u32_le;
use mwb_bridge::text::utf16le_bytes;

fn unhex(s: &str) -> Vec<u8> {
    (0..s.len() / 2).map(|i| u8::from_str_radix(&s[2 * i..2 * i + 2], 16).unwrap()).collect()
}

fn reassemble(packages: &[[u8; 64]]) -> Vec<u8> {
    packages[..packages.len() - 1].iter().flat_map(|p| p[16..].to_vec()).collect()
}

#[test]
fn sizes() {
    assert_eq!(CLIPBOARD_CHUNK_SIZE, 48);
    assert_eq!(MAX_SMALL_PATH_SIZE, 1024 * 1024);
    assert_eq!(MAX_CLIPBOARD_FILE_SIZE, 100 * 1024 * 1024);
}

#[test]
fn payload_is_cut_into_chunks() {
    let payload: Vec<u8> = (0..100).collect();
    let mut id = 1000;
    let packages = build_clipboard_image_packages(&mut id, 77, &payload);
    assert_eq!(packages.len(), 4);
    assert_eq!(id, 1004);
    for (k, p) in packages.iter().enumerate() {
        assert_eq!(p[0], if k < 3 { 125 } else { 76 });
        assert_eq!(unpack_u32_le(p, 4), 1000 + k as u32);
        assert_eq!(unpack_u32_le(p, 8), 77);
        assert_eq!(unpack_u32_le(p, 12), 255);
    }
    assert_eq!(packages[0][16..], payload[..48]);
    assert_eq!(packages[2][16..20], payload[96..]);
    assert_eq!(packages[2][20..], [0u8; 44]);
    assert_eq!(packages[3][16..], [0u8; 48]);
    let mut whole = payload.clone();
    whole.resize(144, 0);
    assert_eq!(reassemble(&packages), whole);
}

#[test]
fn full_chunks_get_no_padding() {
    let mut id = 1;
    let packages = build_clipboard_chunk_packages(&mut id, 1, 124, &[9u8; 96]);
    assert_eq!(packages.len(), 3);
    assert_eq!(reassemble(&packages), vec![9u8; 96]);
}

#[test]
fn empty_payload_takes_one_chunk() {
    let mut id = 1;
    let packages = build_clipboard_image_packages(&mut id, 1, &[]);
    assert_eq!(packages.len(), 2);
    assert_eq!(packages[0][0], 125);
    assert_eq!(packages[1][0], 76);
    assert_eq!(id, 3);
}

#[test]
fn text_is_tagged() {
    let tagged = tag_clipboard_text("hi");
    assert_eq!(tagged, utf16le_bytes(&format!("TXThi{CLIPBOARD_SEP}")));
    assert_eq!(text_from_inflated(&tagged), Some("hi".to_string()));
}

#[test]
fn first_tagged_fragment_counts() {
    let s = |t: &str| text_from_inflated(&utf16le_bytes(t));
    assert_eq!(s(&format!("RTFa{CLIPBOARD_SEP}TXTb{CLIPBOARD_SEP}TXTc")), Some("b".to_string()));
    assert_eq!(s("TXT"), Some(String::new()));
    assert_eq!(s("TX"), None);
    assert_eq!(s(""), None);
    assert_eq!(s(&format!("{CLIPBOARD_SEP}TXT{{4CFF57F7")), Some("{4CFF57F7".to_string()));
    assert_eq!(s(&format!("txta{CLIPBOARD_SEP}HTMb{CLIPBOARD_SEP}")), None);
}

#[test]
fn text_survives_the_packages() {
    for text in ["", "hello", "añ€ 😀\r\n", "{4CFF57F7-BEDD-43d5-AE8F-27A61E886F2F", &"long ".repeat(5000)] {
        let mut id = 1000;
        let packages = build_clipboard_text_packages(&mut id, 3, text);
        assert_eq!(packages[0][0], 124);
        assert_eq!(id as usize, 1000 + packages.len());
        assert_eq!(decode_clipboard_text(&reassemble(&packages)), Ok(text.to_string()));
    }
}

#[test]
fn text_is_compressed() {
    let mut id = 0;
    let packages = build_clipboard_text_packages(&mut id, 3, &"a".repeat(10000));
    assert!(packages.len() < 10);
}

#[test]
fn text_with_the_separator_is_cut_there() {
    let mut id = 0;
    let packages = build_clipboard_text_packages(&mut id, 3, &format!("a{CLIPBOARD_SEP}b"));
    assert_eq!(decode_clipboard_text(&reassemble(&packages)), Ok("a".to_string()));
}

#[test]
fn foreign_streams_are_inflated() {
    let both = unhex(
        "ad8cbb09804010445f431bf8bd4b0ccecf1620175880812508629f46e676e1600d32302cef2d9359c86c3c7417f741cd802b0d411d307a2646c5e42a561923894579a3d44fa2a5f848d4e562cec9ac5d67e7cfcd17",
    );
    assert_eq!(decode_clipboard_text(&both), Ok("hé😀".to_string()));
    let rtf = unhex(
        "1d8ac909804010042ba17978ee7ed763021043300841ccdd421a9aa6aa0f4e929b8791d5954c14bb102cec6c267403972668b2aa0f7a3f8d99ee27d595b2e4e503",
    );
    assert_eq!(decode_clipboard_text(&rtf), Err(ClipboardTextError::NoText));
}

#[test]
fn damaged_streams_are_refused() {
    assert_eq!(decode_clipboard_text(&[0xFF; 10]), Err(ClipboardTextError::Damaged));
    assert_eq!(decode_clipboard_text(&[]), Err(ClipboardTextError::Damaged));
}

#[test]
fn ids_can_run_out() {
    assert!(enough_ids(u32::MAX - 2, 0));
    assert!(!enough_ids(u32::MAX - 1, 0));
    assert!(enough_ids(0, 48));
    assert!(!enough_ids(u32::MAX - 3, 97));
    let mut id = u32::MAX - 1;
    assert!(try_build_clipboard_text_packages(&mut id, 1, "x").is_none());
    assert_eq!(id, u32::MAX - 1);
    id = 5;
    let packages = try_build_clipboard_text_packages(&mut id, 1, "x").unwrap();
    assert_eq!(decode_clipboard_text(&reassemble(&packages)), Ok("x".to_string()));
}
