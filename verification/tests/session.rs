use mwb_bridge::clipboard::decode_clipboard_text;
use mwb_bridge::config::{Config, Platform};
use mwb_bridge::crypto::get_24bit_hash;
use mwb_bridge::input_handling::{InputAction, RecordedInput};
use mwb_bridge::link::Link;
use mwb_bridge::mwb_protocol::{
    finalize_send_buf, is_big_package, pack_u32_le, unpack_u32_le, validate_and_clean_recv_buf,
};
use mwb_bridge::session::{handshake_detail, peer_name, Action, Package, Role, Session};
use mwb_bridge::sharing::{peer_machine_id, ClipboardEvent, ClipboardShared, PendingOutbound};

const KEY: &str = "Pa55-word. Key16";

fn config(key: &str, id: u32, name: &str) -> Config {
    Config {
        security_key: key.to_string(),
        windows_ip: "WINPC.local:15101".to_string(),
        machine_name: name.to_string(),
        machine_id: id,
        xkb_layout: "us".to_string(),
        xkb_variant: String::new(),
    }
}

fn pair(a_role: Role, b_role: Role) -> (Session, Session) {
    let mut a = Session::with_challenge(&config(KEY, 11, "omarchy"), a_role, [1, 2, 3, 4]);
    let mut b = Session::with_challenge(&config(KEY, 22, "WINPC"), b_role, [5, 6, 7, 8]);
    let from_a: [u8; 16] = a.prime().try_into().unwrap();
    let from_b: [u8; 16] = b.prime().try_into().unwrap();
    let hs_a = a.primed(&from_b);
    let hs_b = b.primed(&from_a);
    assert_eq!(hs_a.len(), 640);
    let mut shared = ClipboardShared::new();
    for p in packages(&mut a, &hs_b) {
        assert!(p.valid);
        assert_eq!(p.package_type, 126);
        shared.note_peer_machine_id(0);
    }
    for p in packages(&mut b, &hs_a) {
        assert!(p.valid);
        assert_eq!(peer_name(&p.bytes), "omarchy");
    }
    (a, b)
}

fn packages(s: &mut Session, mut bytes: &[u8]) -> Vec<Package> {
    let mut out = Vec::new();
    while !bytes.is_empty() {
        let half: [u8; 32] = bytes[..32].try_into().unwrap();
        bytes = &bytes[32..];
        let mut p = s.receive_head(&half);
        if is_big_package(p.package_type) {
            let half: [u8; 32] = bytes[..32].try_into().unwrap();
            bytes = &bytes[32..];
            p = s.receive_tail(p, &half);
        }
        out.push(p);
    }
    out
}

fn package(t: u8, numbers: [u32; 4]) -> Package {
    let mut bytes = vec![0u8; if is_big_package(t) { 64 } else { 32 }];
    bytes[0] = t;
    pack_u32_le(&mut bytes, 8, 22);
    for (i, n) in numbers.iter().enumerate() {
        pack_u32_le(&mut bytes, 16 + 4 * i, *n);
    }
    Package { package_type: t, valid: true, bytes }
}

#[test]
fn roles_by_platform() {
    assert_eq!(
        Role::client(),
        Role { forwards_input: true, reports_status: true, takes_clipboard: true }
    );
    assert_eq!(
        Role::server(Platform::Linux),
        Role { forwards_input: false, reports_status: false, takes_clipboard: true }
    );
    assert_eq!(
        Role::server(Platform::MacOs),
        Role { forwards_input: false, reports_status: true, takes_clipboard: false }
    );
}

#[test]
fn connection_opens_with_ten_handshakes() {
    let mut a = Session::with_challenge(&config(KEY, 0x12345678, "omarchy"), Role::client(), [9, 8, 7, 6]);
    let mut peer = Link::new(KEY);
    let first: [u8; 16] = a.prime().try_into().unwrap();
    peer.primed(&first);
    let plain = peer.receive(&a.primed(&[0u8; 16]));
    assert_eq!(plain.len(), 640);
    for k in 0..10 {
        let mut p = plain[64 * k..64 * k + 64].to_vec();
        assert!(validate_and_clean_recv_buf(&mut p, get_24bit_hash(KEY)));
        assert_eq!(p[0], 126);
        assert_eq!(unpack_u32_le(&p, 4), 1);
        assert_eq!(unpack_u32_le(&p, 8), 0x12345678);
        assert_eq!(unpack_u32_le(&p, 12), 0);
        assert_eq!(unpack_u32_le(&p, 16), 9);
        assert_eq!(unpack_u32_le(&p, 28), 6);
        assert_eq!(peer_name(&p), "omarchy");
    }
}

#[test]
fn handshake_completes_between_two_sessions() {
    let mut a = Session::new(&config(KEY, 11, "omarchy"), Role::client());
    let mut b = Session::new(&config(KEY, 22, "WINPC"), Role::server(Platform::Linux));
    let from_a: [u8; 16] = a.prime().try_into().unwrap();
    let from_b: [u8; 16] = b.prime().try_into().unwrap();
    let hs_a = a.primed(&from_b);
    let hs_b = b.primed(&from_a);
    let (mut shared_a, mut shared_b) = (ClipboardShared::new(), ClipboardShared::new());
    packages(&mut a, &hs_b);
    let mut answers = 0;
    for p in packages(&mut b, &hs_a) {
        match b.handle(&mut shared_b, &p) {
            Action::Send(bytes) => {
                for q in packages(&mut a, &bytes) {
                    assert_eq!(q.package_type, 127);
                    match a.handle(&mut shared_a, &q) {
                        Action::Status { connected, peer } => {
                            assert!(connected);
                            assert_eq!(peer, "WINPC");
                            answers += 1;
                        }
                        _ => panic!("no status"),
                    }
                }
            }
            _ => panic!("no answer"),
        }
    }
    assert_eq!(answers, 10);
    assert_eq!(peer_machine_id(&shared_a), Some(22));
    assert_eq!(peer_machine_id(&shared_b), Some(11));
}

#[test]
fn wrong_answer_is_reported() {
    let (mut a, _) = pair(Role::client(), Role::client());
    let mut shared = ClipboardShared::new();
    let mut p = package(127, [!1, !2, !3, 0]);
    p.bytes[32..].copy_from_slice(b"WINPC                           ");
    assert!(matches!(
        a.handle_at(&mut shared, &p, 0),
        Action::Status { connected: false, peer } if peer == "WINPC"
    ));
    p = package(127, [!1, !2, !3, !4]);
    assert!(matches!(a.handle_at(&mut shared, &p, 0), Action::Status { connected: true, .. }));
    assert!(a.is_met_by(&p.bytes));
    assert_eq!(handshake_detail(true), "Connected");
    assert_eq!(handshake_detail(false), "Handshake failed — check the security key");
}

#[test]
fn linux_server_keeps_the_status_to_itself() {
    let (mut a, _) = pair(Role::server(Platform::Linux), Role::client());
    let mut shared = ClipboardShared::new();
    let p = package(127, [!1, !2, !3, !4]);
    assert!(matches!(a.handle_at(&mut shared, &p, 0), Action::Nothing));
    assert_eq!(peer_machine_id(&shared), Some(22));
}

#[test]
fn another_key_is_not_understood() {
    let mut a = Session::with_challenge(&config(KEY, 11, "omarchy"), Role::client(), [1, 2, 3, 4]);
    let mut b = Session::with_challenge(&config("another", 22, "WINPC"), Role::client(), [5, 6, 7, 8]);
    let from_a: [u8; 16] = a.prime().try_into().unwrap();
    let hs_a = a.primed(&[0u8; 16]);
    b.primed(&from_a);
    let half: [u8; 32] = hs_a[..32].try_into().unwrap();
    let head = b.receive_head(&half);
    assert!(!head.valid);
    assert_eq!(&head.bytes[1..4], &[0, 0, 0]);
}

#[test]
fn refused_packages_do_nothing() {
    let (mut a, _) = pair(Role::client(), Role::client());
    let mut shared = ClipboardShared::new();
    for t in [2u8, 69, 76, 122, 123, 124, 126, 127] {
        let mut p = package(t, [1, 2, 3, 4]);
        p.valid = false;
        assert!(matches!(a.handle_at(&mut shared, &p, 0), Action::Nothing));
    }
    assert_eq!(peer_machine_id(&shared), None);
}

#[test]
fn input_is_forwarded_by_the_client_alone() {
    let (mut a, mut b) = pair(Role::client(), Role::server(Platform::MacOs));
    let mut shared = ClipboardShared::new();
    let mouse = package(123, [10, 20, 120, 0x200]);
    assert!(matches!(
        a.handle_at(&mut shared, &mouse, 0),
        Action::Mouse { x: 10, y: 20, wheel: 120, flags: 0x200 }
    ));
    assert!(matches!(b.handle_at(&mut shared, &mouse, 0), Action::Nothing));
    let key = package(122, [0, 0, 0x41, 0x80]);
    assert!(matches!(
        a.handle_at(&mut shared, &key, 0),
        Action::Keyboard { lock: false, forward: true, vk: 0x41, flags: 0x80 }
    ));
    assert!(matches!(
        b.handle_at(&mut shared, &key, 0),
        Action::Keyboard { lock: false, forward: false, .. }
    ));
    let mut sink = RecordedInput::new();
    a.forward_key(&mut sink, 0x41, 0);
    a.forward_key(&mut sink, 0x41, 0);
    assert_eq!(sink.actions, vec![InputAction::Key { code: 30, pressed: true }]);
}

#[test]
fn lock_combination_is_noticed() {
    let (mut a, _) = pair(Role::server(Platform::Linux), Role::client());
    let mut shared = ClipboardShared::new();
    let mut locks = 0;
    for (vk, flags) in [(0x5B, 0), (0x4C, 0), (0x5B, 0x80), (0x4C, 0x80)] {
        if let Action::Keyboard { lock, .. } = a.handle_at(&mut shared, &package(122, [0, 0, vk, flags]), 5) {
            locks += lock as u32;
        }
    }
    assert_eq!(locks, 1);
}

#[test]
fn text_goes_from_session_to_session() {
    let (mut a, mut b) = pair(Role::client(), Role::client());
    let (mut sa, mut sb) = (ClipboardShared::new(), ClipboardShared::new());
    for text in ["héllo 😀", "", &"more ".repeat(999)] {
        let bytes = a.send_event(&mut sa, ClipboardEvent::Text(text.to_string())).unwrap();
        let mut applied = None;
        for p in packages(&mut b, &bytes) {
            assert!(p.valid);
            match b.handle_at(&mut sb, &p, 0) {
                Action::ApplyText(payload) => applied = Some(decode_clipboard_text(&payload).unwrap()),
                Action::Nothing => (),
                _ => panic!("something else"),
            }
        }
        assert_eq!(applied.as_deref(), Some(text));
    }
}

#[test]
fn image_goes_from_session_to_session() {
    let (mut a, mut b) = pair(Role::client(), Role::client());
    let (mut sa, mut sb) = (ClipboardShared::new(), ClipboardShared::new());
    let png: Vec<u8> = (0..=255).collect();
    let bytes = a.send_event(&mut sa, ClipboardEvent::Image(png.clone())).unwrap();
    assert_eq!(bytes.len(), 64 * 7);
    let got = packages(&mut b, &bytes);
    assert_eq!(unpack_u32_le(&got[0].bytes, 4), 1000);
    assert_eq!(unpack_u32_le(&got[6].bytes, 4), 1006);
    let mut applied = None;
    for (k, p) in got.iter().enumerate() {
        if k == 3 {
            assert!(matches!(b.handle_at(&mut sb, &package(123, [0; 4]), 0), Action::Mouse { .. }));
        }
        if let Action::ApplyImage(payload) = b.handle_at(&mut sb, p, 0) {
            applied = Some(payload);
        }
    }
    let applied = applied.unwrap();
    assert_eq!(applied[..256], png[..]);
    assert!(applied[256..].iter().all(|&x| x == 0));
    let bytes = a.send_event(&mut sa, ClipboardEvent::Image(vec![1])).unwrap();
    assert_eq!(unpack_u32_le(&packages(&mut b, &bytes)[0].bytes, 4), 1007);
}

#[test]
fn clipboard_is_dropped_by_a_mac_server() {
    let (mut a, _) = pair(Role::server(Platform::MacOs), Role::client());
    let mut shared = ClipboardShared::new();
    assert!(matches!(a.handle_at(&mut shared, &package(124, [1; 4]), 0), Action::Nothing));
    assert!(matches!(a.handle_at(&mut shared, &package(76, [0; 4]), 0), Action::Nothing));
    assert!(matches!(a.handle_at(&mut shared, &package(69, [0; 4]), 0), Action::Nothing));
    assert_eq!(peer_machine_id(&shared), None);
}

#[test]
fn end_without_data_applies_nothing() {
    let (mut a, _) = pair(Role::client(), Role::client());
    let mut shared = ClipboardShared::new();
    assert!(matches!(a.handle_at(&mut shared, &package(76, [0; 4]), 0), Action::Nothing));
    assert!(matches!(a.handle_at(&mut shared, &package(125, [1; 4]), 0), Action::Nothing));
    assert!(matches!(a.handle_at(&mut shared, &package(76, [0; 4]), 0), Action::ApplyImage(b) if b.len() == 48));
    assert!(matches!(a.handle_at(&mut shared, &package(76, [0; 4]), 0), Action::Nothing));
}

#[test]
fn beat_asks_for_a_pull() {
    let (mut a, _) = pair(Role::server(Platform::Linux), Role::client());
    let mut shared = ClipboardShared::new();
    assert!(matches!(a.handle_at(&mut shared, &package(69, [0; 4]), 0), Action::Pull));
}

#[test]
fn files_are_announced() {
    let (mut a, mut b) = pair(Role::client(), Role::client());
    let mut shared = ClipboardShared::new();
    let bytes = a.send_event(&mut shared, ClipboardEvent::File("/tmp/x".to_string())).unwrap();
    assert!(matches!(shared.pending(), Some(PendingOutbound::File(p)) if p == "/tmp/x"));
    let got = packages(&mut b, &bytes);
    assert_eq!(got.len(), 1);
    assert!(got[0].valid);
    assert_eq!(got[0].package_type, 69);
    shared.note_peer_machine_id(22);
    let bytes = a.send_event(&mut shared, ClipboardEvent::BigImage("/tmp/i.png".to_string())).unwrap();
    assert!(matches!(shared.pending(), Some(PendingOutbound::Image(p)) if p == "/tmp/i.png"));
    let got = packages(&mut b, &bytes);
    assert_eq!(got.iter().map(|p| p.package_type).collect::<Vec<_>>(), vec![69, 50, 77]);
    assert!(got.iter().all(|p| p.valid && unpack_u32_le(&p.bytes, 8) == 11));
    assert_eq!(unpack_u32_le(&got[0].bytes, 12), 255);
    assert_eq!(unpack_u32_le(&got[1].bytes, 12), 22);
    assert_eq!(unpack_u32_le(&got[2].bytes, 12), 22);
}

#[test]
fn announcement_ids_are_used_in_order() {
    let (mut a, mut b) = pair(Role::client(), Role::client());
    let got = { let bytes = a.announce_with_ids(Some(22), [100, 200, 300]); packages(&mut b, &bytes) };
    assert_eq!(got.iter().map(|p| unpack_u32_le(&p.bytes, 4)).collect::<Vec<_>>(), vec![100, 200, 300]);
    let got = { let bytes = a.announce_big_path(None); packages(&mut b, &bytes) };
    assert_eq!(got.len(), 1);
}

#[test]
fn pings_are_counted() {
    let (mut a, _) = pair(Role::client(), Role::client());
    let mut shared = ClipboardShared::new();
    let mut reports = Vec::new();
    for _ in 0..1001 {
        if let Action::ReportHi(n) = a.handle_at(&mut shared, &package(2, [0; 4]), 0) {
            reports.push(n);
        }
    }
    assert_eq!(reports, vec![1, 501, 1001]);
}

#[test]
fn unknown_packages_are_ignored() {
    let (mut a, _) = pair(Role::client(), Role::client());
    let mut shared = ClipboardShared::new();
    for t in [3u8, 4, 20, 77, 50, 121, 200] {
        assert!(matches!(a.handle_at(&mut shared, &package(t, [0; 4]), 0), Action::Nothing));
    }
}

#[test]
fn sealed_reply_to_a_raw_handshake() {
    let (mut a, mut b) = pair(Role::client(), Role::client());
    let mut incoming = package(126, [1, 2, 3, 4]).bytes;
    finalize_send_buf(&mut incoming, 0);
    let bytes = a.answer(&incoming);
    let got = packages(&mut b, &bytes);
    assert_eq!(got[0].package_type, 127);
    assert!(got[0].valid);
    assert_eq!(unpack_u32_le(&got[0].bytes, 16), !1);
    assert_eq!(peer_name(&got[0].bytes), "omarchy");
}
