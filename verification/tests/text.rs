use mwb_bridge::decimal::{decimal_string, parse_usize};
use mwb_bridge::file_header::{build_file_header, parse_file_header};
use mwb_bridge::text::{
    find, rfind, stands_at, str_chars, string_from_utf16_lossy, trim, trim_end, utf16_units_from_le,
    utf16le_bytes,
};

fn chars(s: &str) -> Vec<char> {
    s.chars().collect()
}

#[test]
fn utf16_is_little_endian() {
    assert_eq!(utf16le_bytes("aé"), vec![0x61, 0, 0xE9, 0]);
    assert_eq!(utf16le_bytes("😀"), vec![0x3D, 0xD8, 0x00, 0xDE]);
    assert_eq!(utf16le_bytes(""), Vec::<u8>::new());
}

#[test]
fn utf16_comes_back() {
    let s = "TXT añ€ 😀\u{10FFFF}\u{D7FF}\u{E000}";
    let units = utf16_units_from_le(&utf16le_bytes(s));
    assert_eq!(units, s.encode_utf16().collect::<Vec<u16>>());
    assert_eq!(string_from_utf16_lossy(&units), s);
}

#[test]
fn lone_surrogates_are_replaced() {
    assert_eq!(string_from_utf16_lossy(&[0xD83D]), "\u{FFFD}");
    assert_eq!(string_from_utf16_lossy(&[0xDE00, 0x61]), "\u{FFFD}a");
    assert_eq!(string_from_utf16_lossy(&[0xD83D, 0xD83D, 0xDE00]), "\u{FFFD}😀");
    assert_eq!(string_from_utf16_lossy(&[0xD83D, 0x61]), "\u{FFFD}a");
}

#[test]
fn odd_last_byte_is_left_out() {
    assert_eq!(utf16_units_from_le(&[0x34, 0x12, 0x99]), vec![0x1234]);
}

#[test]
fn patterns_are_found() {
    assert_eq!(find(&chars("abcabc"), &chars("bc"), 0), Some(1));
    assert_eq!(find(&chars("abcabc"), &chars("bc"), 2), Some(4));
    assert_eq!(find(&chars("abc"), &chars("d"), 0), None);
    assert_eq!(find(&chars("abc"), &[], 3), Some(3));
    assert_eq!(find(&chars("abc"), &[], 4), None);
    assert!(stands_at(&chars("abc"), &chars("bc"), 1));
    assert!(!stands_at(&chars("abc"), &chars("cd"), 2));
    assert_eq!(rfind(&chars("a/b\\c"), &chars("/\\")), Some(3));
    assert_eq!(rfind(&chars("abc"), &chars("/")), None);
    assert_eq!(str_chars("é😀"), chars("é😀"));
}

#[test]
fn white_space_is_trimmed_as_std_does() {
    for s in [" \t a b \r\n", "\u{3000}x\u{85}", "", "   ", "x", "\u{200B}x\u{200B}", "\u{1680}y\u{2029}"] {
        assert_eq!(trim(&chars(s)).iter().collect::<String>(), s.trim());
        assert_eq!(trim_end(&chars(s)).iter().collect::<String>(), s.trim_end());
    }
    for v in 0..0x11_0000u32 {
        if let Some(c) = char::from_u32(v) {
            assert_eq!(trim(&[c]).is_empty(), c.is_whitespace());
        }
    }
}

#[test]
fn numbers_in_decimal() {
    assert_eq!(decimal_string(0), "0");
    assert_eq!(decimal_string(104857600), "104857600");
    assert_eq!(decimal_string(u64::MAX), "18446744073709551615");
}

#[test]
fn numbers_are_parsed_as_std_does() {
    for s in ["0", "007", "+5", "+", "", "-0", "12a", "18446744073709551615", "18446744073709551616", " 1", "٣"] {
        assert_eq!(parse_usize(&chars(s)), s.parse::<usize>().ok(), "{s:?}");
    }
}

#[test]
fn header_layout() {
    let h = build_file_header(5, "a");
    assert_eq!(&h[..8], &[0x35, 0, 0x2A, 0, 0x61, 0, 0, 0]);
    assert!(h[6..].iter().all(|&b| b == 0));
}

#[test]
fn header_comes_back() {
    let name = "C:\\Users\\Zoë\\a*b 😀.txt";
    let h = build_file_header(1234567, name);
    assert_eq!(parse_file_header(&h), Some((1234567, name.to_string())));
    let h = build_file_header(0, "Folder is not supported, zip it first!");
    assert_eq!(parse_file_header(&h), Some((0, "Folder is not supported, zip it first!".to_string())));
}

#[test]
fn long_header_is_cut() {
    let name = "x".repeat(600);
    let h = build_file_header(10, &name);
    assert_eq!(parse_file_header(&h), Some((10, "x".repeat(509))));
}

#[test]
fn header_without_a_size_is_refused() {
    let mut h = [0u8; 1024];
    assert_eq!(parse_file_header(&h), None);
    let bytes = utf16le_bytes("12x*name");
    h[..bytes.len()].copy_from_slice(&bytes);
    assert_eq!(parse_file_header(&h), None);
    let bytes = utf16le_bytes("no star");
    h = [0u8; 1024];
    h[..bytes.len()].copy_from_slice(&bytes);
    assert_eq!(parse_file_header(&h), None);
    let bytes = utf16le_bytes("+7*");
    h = [0u8; 1024];
    h[..bytes.len()].copy_from_slice(&bytes);
    assert_eq!(parse_file_header(&h), Some((7, String::new())));
}
