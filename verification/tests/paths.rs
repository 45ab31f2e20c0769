use mwb_bridge::config::{
    clipboard_files_dir, config_path, data_dir, default_xkb_layout, disconnected_detail,
    outbound_image_path, status_line, status_path, Config, Platform, Status, CONFIG_TEMPLATE,
    DETAIL_CONNECTED,
};
use mwb_bridge::icon::{bridge_icon, ICON_SIZE};
use mwb_bridge::paths::{
    can_percent_decode, file_name, file_uri, first_escaped_path, is_same_path, join_path, parse_first_file_uri,
    percent_decode, percent_encode_path, windows_basename, windows_clipboard_host, with_port,
    PeerAddr,
};
use mwb_bridge::probe::{diagnose, dump, ProbeCounts, ProbeReport, PROBE_LIMIT};

#[test]
fn escapes_are_decoded() {
    assert_eq!(percent_decode("/a%20b"), "/a b");
    assert_eq!(percent_decode("%C3%A9%c3%a9"), "éé");
    assert_eq!(percent_decode("100%"), "100%");
    assert_eq!(percent_decode("%4"), "%4");
    assert_eq!(percent_decode("%41"), "A");
    assert_eq!(percent_decode("%zz%%41"), "%zz%A");
    assert_eq!(percent_decode("%+5"), "%+5");
    assert_eq!(percent_decode("%+1"), "%+1");
    assert_eq!(percent_decode(""), "");
}

#[test]
fn invalid_utf8_is_replaced() {
    assert_eq!(percent_decode("a%FFb"), "a\u{FFFD}b");
}

#[test]
fn split_characters_cannot_be_decoded() {
    assert!(!can_percent_decode("%aé"));
    assert!(can_percent_decode("%é"));
    assert!(can_percent_decode("%aaé"));
    assert!(can_percent_decode("é%20"));
}

#[test]
fn paths_are_encoded() {
    assert_eq!(percent_encode_path("/home/a b/é~x-_.Z9"), "/home/a%20b/%C3%A9~x-_.Z9");
    assert_eq!(percent_encode_path("%#?\n"), "%25%23%3F%0A");
}

#[test]
fn encoded_paths_come_back() {
    let path = "/tmp/100% sure/ñ😀 #1?.txt";
    let encoded = percent_encode_path(path);
    assert!(can_percent_decode(&encoded));
    assert_eq!(percent_decode(&encoded), path);
    assert_eq!(file_uri(path), format!("file://{encoded}"));
    assert_eq!(parse_first_file_uri(&format!("{}\n", file_uri(path))), Some(path.to_string()));
}

#[test]
fn first_entry_of_a_list_counts() {
    assert_eq!(
        parse_first_file_uri("# comment\r\n\r\n  file:///a%20b \r\nfile:///c\r\n"),
        Some("/a b".to_string())
    );
    assert_eq!(parse_first_file_uri("https://example.org\nfile:///c\n"), None);
    assert_eq!(parse_first_file_uri("# only a comment"), None);
    assert_eq!(parse_first_file_uri(""), None);
    assert_eq!(first_escaped_path("file://host/a%20b"), Some("host/a%20b".to_string()));
}

#[test]
fn hosts_and_names() {
    assert_eq!(windows_clipboard_host("WINPC.local:15101"), "WINPC.local");
    assert_eq!(windows_clipboard_host("fe80::1:15101"), "fe80::1");
    assert_eq!(windows_clipboard_host("WINPC"), "WINPC");
    assert_eq!(windows_basename("C:\\Users\\Alan\\Downloads\\file.txt"), "file.txt");
    assert_eq!(windows_basename("a/b\\c"), "c");
    assert_eq!(windows_basename("plain.txt"), "plain.txt");
    assert_eq!(windows_basename("dir\\"), "");
}

#[test]
fn file_names_are_as_std_has_them() {
    for path in ["/a/b.txt", "b", "/a/b/", "/a/b/.", "/a/..", "..", ".", "/", "", "a//", "./a", "/a/b/./.", "a/...", "/a/.b"] {
        let want = std::path::Path::new(path).file_name().map(|n| n.to_str().unwrap().to_string());
        assert_eq!(file_name(path), want, "{path:?}");
    }
}

#[test]
fn paths_are_compared_as_std_does() {
    let all = ["/a/b", "/a//b", "/a/b/", "/a/./b", "a/b", "./a/b", "././a/b", ".", "./.", "", "/", "//", "/.", "..", "a/..", ".a", "/a/.b", "/ab", "a", "a/."];
    for a in all {
        for b in all {
            assert_eq!(is_same_path(a, b), std::path::Path::new(a) == std::path::Path::new(b), "{a:?} {b:?}");
        }
    }
}

#[test]
fn paths_are_joined_as_std_does() {
    for (dir, name) in [("/home/u", "x/y"), ("/home/u/", "x"), ("", "x"), ("/", "x"), ("/a", "")] {
        let want = std::path::PathBuf::from(dir).join(name);
        assert_eq!(join_path(dir, name), want.to_str().unwrap());
    }
}

#[test]
fn ports_are_changed_and_nothing_else() {
    assert_eq!(
        with_port(PeerAddr::V4 { ip: [10, 0, 0, 1], port: 15101 }, 15100),
        PeerAddr::V4 { ip: [10, 0, 0, 1], port: 15100 }
    );
    assert_eq!(
        with_port(PeerAddr::V6 { ip: [1; 16], port: 1, flowinfo: 2, scope_id: 3 }, 9),
        PeerAddr::V6 { ip: [1; 16], port: 9, flowinfo: 2, scope_id: 3 }
    );
}

#[test]
fn files_lie_under_the_home_directory() {
    let home = "/home/u";
    assert_eq!(data_dir(Platform::Linux, home), "/home/u/.local/share/omarchy-mwb-bridge");
    assert_eq!(config_path(Platform::Linux, home), "/home/u/.local/share/omarchy-mwb-bridge/config.json");
    assert_eq!(
        status_path(Platform::MacOs, "/Users/u"),
        "/Users/u/Library/Application Support/mwb-mac-bridge/status.json"
    );
    assert_eq!(clipboard_files_dir(Platform::Linux, home), "/home/u/.cache/omarchy-mwb-bridge-files");
    assert_eq!(
        outbound_image_path(Platform::MacOs, "/Users/u"),
        "/Users/u/Library/Caches/mwb-mac-bridge/outbound-image.png"
    );
}

#[test]
fn status_is_told() {
    let status = Status::new(true, "WINPC", DETAIL_CONNECTED, Some(17));
    assert_eq!(status.updated_epoch, 17);
    assert_eq!(status_line(&Some(status)), "Connected to WINPC");
    let status = Status::new(false, "", "Connecting...", None);
    assert_eq!(status.updated_epoch, 0);
    assert_eq!(status_line(&Some(status)), "Status: Connecting...");
    assert_eq!(status_line(&None), "Status: starting...");
    assert_eq!(disconnected_detail("timed out"), "Disconnected: timed out. Reconnecting...");
}

#[test]
fn configuration_is_duplicated() {
    let cfg = Config {
        security_key: "k".to_string(),
        windows_ip: "w:15101".to_string(),
        machine_name: "m".to_string(),
        machine_id: 5,
        xkb_layout: default_xkb_layout(),
        xkb_variant: String::new(),
    };
    let copy = cfg.duplicate();
    assert_eq!(copy.security_key, "k");
    assert_eq!(copy.windows_ip, "w:15101");
    assert_eq!(copy.machine_name, "m");
    assert_eq!(copy.machine_id, 5);
    assert_eq!(copy.xkb_layout, "us");
    assert_eq!(copy.xkb_variant, "");
    let template: serde_json::Value = serde_json::from_str(CONFIG_TEMPLATE).unwrap();
    assert_eq!(template["machine_id"], 2);
    assert_eq!(template["windows_ip"], "windows-pc.local:15101");
}

#[test]
fn icon_is_an_arrow() {
    let rgba = bridge_icon();
    assert_eq!(rgba.len(), (ICON_SIZE * ICON_SIZE * 4) as usize);
    let alpha = |x: usize, y: usize| rgba[(y * 36 + x) * 4 + 3];
    assert_eq!(alpha(18, 18), 255);
    assert_eq!(alpha(18, 16), 255);
    assert_eq!(alpha(18, 15), 0);
    assert_eq!(alpha(3, 18), 255);
    assert_eq!(alpha(3, 17), 0);
    assert_eq!(alpha(12, 13), 255);
    assert_eq!(alpha(12, 12), 0);
    assert_eq!(alpha(2, 18), 0);
    assert_eq!(alpha(32, 18), 255);
    assert_eq!(alpha(33, 18), 0);
    for y in 0..36 {
        for x in 0..36 {
            assert_eq!(alpha(x, y), alpha(35 - x, y));
            assert_eq!(&rgba[(y * 36 + x) * 4..(y * 36 + x) * 4 + 3], &[0, 0, 0]);
        }
    }
}

#[test]
fn bytes_are_dumped() {
    let d = dump(&[0x00, 0x41, 0x7F, 0xFF, 0x20, 0x7E]);
    assert_eq!(d.hex, "00417fff207e");
    assert_eq!(d.ascii, ".A.. ~");
}

#[test]
fn seals_are_diagnosed() {
    let mut p = [1u8; 32];
    p[3] = 0xAB;
    p[2] = 0xCD;
    let d = diagnose(&p, 0xABCE1234);
    assert_eq!(d.magic_got, 0xABCD0000);
    assert_eq!(d.magic_want, 0xABCE0000);
    assert_eq!(d.checksum_got, 1);
    assert_eq!(d.checksum_want, (0xABu32 + 0xCD + 28) as u8);
}

#[test]
fn probe_counts_and_filters() {
    let mut c = ProbeCounts::new();
    assert_eq!(
        c.note(123, 32),
        ProbeReport { numbers: true, mouse: true, keyboard: false, name: false, stop: false }
    );
    assert_eq!(
        c.note(122, 32),
        ProbeReport { numbers: true, mouse: false, keyboard: true, name: false, stop: false }
    );
    assert_eq!(
        c.note(126, 64),
        ProbeReport { numbers: true, mouse: false, keyboard: false, name: true, stop: false }
    );
    assert_eq!(
        c.note(20, 64),
        ProbeReport { numbers: false, mouse: false, keyboard: false, name: false, stop: false }
    );
    assert_eq!((c.packages, c.mouse, c.keyboard), (4, 1, 1));
    while c.packages < 1999 {
        c.note(2, 32);
    }
    assert!(c.note(2, 32).numbers);
    while c.packages < PROBE_LIMIT {
        assert!(!c.note(2, 32).stop);
    }
    assert!(c.note(2, 32).stop);
}
