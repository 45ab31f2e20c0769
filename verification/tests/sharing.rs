use mwb_bridge::paths::file_uri;
use mwb_bridge::picture::{decode_image, encode_png, same_bytes, same_picture, Picture};
use mwb_bridge::sharing::{
    latest_event, peer_machine_id, pending_outbound_image, route_image, ClipboardEvent,
    ClipboardShared, ClipboardWatcher, PendingOutbound, WatchAction,
};

fn unhex(s: &str) -> Vec<u8> {
    (0..s.len() / 2).map(|i| u8::from_str_radix(&s[2 * i..2 * i + 2], 16).unwrap()).collect()
}

fn picture(bytes: &[u8]) -> Picture {
    Picture { width: bytes.len() / 4, height: 1, bytes: bytes.to_vec() }
}

fn text(s: &str) -> Option<String> {
    Some(s.to_string())
}

fn is_nothing(a: &WatchAction) -> bool {
    matches!(a, WatchAction::Nothing)
}

#[test]
fn peer_is_remembered() {
    let mut shared = ClipboardShared::new();
    assert_eq!(peer_machine_id(&shared), None);
    shared.note_peer_machine_id(0);
    shared.note_peer_machine_id(255);
    assert_eq!(peer_machine_id(&shared), None);
    shared.note_peer_machine_id(123456789);
    shared.note_peer_machine_id(0);
    assert_eq!(peer_machine_id(&shared), Some(123456789));
}

#[test]
fn pending_files_replace_each_other() {
    let mut shared = ClipboardShared::default();
    assert!(shared.pending().is_none());
    assert_eq!(pending_outbound_image(&shared), None);
    shared.set_pending(PendingOutbound::Image("/i.png".to_string()));
    assert_eq!(pending_outbound_image(&shared), text("/i.png"));
    shared.set_pending(PendingOutbound::File("/f".to_string()));
    assert_eq!(pending_outbound_image(&shared), None);
    assert!(matches!(shared.pending(), Some(PendingOutbound::File(p)) if p == "/f"));
}

#[test]
fn new_text_is_sent_once() {
    let shared = ClipboardShared::new();
    let mut w = ClipboardWatcher::new(None, None, None, text("old"));
    assert!(is_nothing(&w.look(&shared, None, None, text("old"))));
    assert!(matches!(
        w.look(&shared, None, None, text("new")),
        WatchAction::Send(ClipboardEvent::Text(t)) if t == "new"
    ));
    assert!(is_nothing(&w.look(&shared, None, None, text("new"))));
    assert!(is_nothing(&w.look(&shared, None, None, None)));
}

#[test]
fn echoes_are_kept_back() {
    let mut shared = ClipboardShared::new();
    shared.note_applied_text("t".to_string());
    shared.note_applied_file(file_uri("/tmp/a b"));
    shared.note_applied_image(vec![1, 2, 3]);
    shared.note_applied_picture(picture(&[1, 2, 3, 4]));
    let mut w = ClipboardWatcher::new(None, None, None, None);
    assert!(is_nothing(&w.look(&shared, None, None, text("t"))));
    assert!(is_nothing(&w.look(&shared, text("/tmp/a b"), None, None)));
    assert!(is_nothing(&w.look(&shared, None, Some(vec![1, 2, 3]), None)));
    assert!(is_nothing(&w.look_at_pasteboard(&shared, Some(picture(&[1, 2, 3, 4])), None)));
    assert!(matches!(
        w.look(&shared, text("/tmp/ab"), None, None),
        WatchAction::Send(ClipboardEvent::File(p)) if p == "/tmp/ab"
    ));
}

#[test]
fn other_spelling_of_a_path_is_not_new() {
    let shared = ClipboardShared::new();
    let mut w = ClipboardWatcher::new(text("/tmp/a"), None, None, None);
    assert!(is_nothing(&w.look(&shared, text("/tmp//a/"), None, None)));
    assert!(matches!(w.look(&shared, text("/tmp/b"), None, None), WatchAction::Send(ClipboardEvent::File(_))));
}

#[test]
fn files_go_before_images_before_text() {
    let shared = ClipboardShared::new();
    let mut w = ClipboardWatcher::new(None, None, None, None);
    assert!(matches!(
        w.look(&shared, text("/f"), Some(vec![1]), text("t")),
        WatchAction::Send(ClipboardEvent::File(_))
    ));
    assert!(is_nothing(&w.look(&shared, text("/f"), Some(vec![1]), text("t"))));
    assert!(matches!(
        w.look(&shared, None, Some(vec![1]), text("t")),
        WatchAction::Send(ClipboardEvent::Image(b)) if b == vec![1]
    ));
    assert!(is_nothing(&w.look(&shared, None, Some(vec![1]), text("t"))));
    assert!(matches!(
        w.look(&shared, None, None, text("t")),
        WatchAction::Send(ClipboardEvent::Text(_))
    ));
}

#[test]
fn big_images_are_stored() {
    assert!(matches!(route_image(vec![0; 1024 * 1024 - 1]), WatchAction::Send(ClipboardEvent::Image(_))));
    assert!(matches!(route_image(vec![0; 1024 * 1024]), WatchAction::StoreImage(b) if b.len() == 1024 * 1024));
    let shared = ClipboardShared::new();
    let mut w = ClipboardWatcher::new(None, None, None, None);
    assert!(matches!(w.look(&shared, None, Some(vec![7; 2_000_000]), None), WatchAction::StoreImage(_)));
}

#[test]
fn pixels_are_encoded_for_the_peer() {
    let shared = ClipboardShared::new();
    let mut w = ClipboardWatcher::new(None, None, None, None);
    let seen = picture(&[255, 0, 0, 255, 0, 128, 0, 64]);
    match w.look_at_pasteboard(&shared, Some(seen.duplicate()), text("t")) {
        WatchAction::Send(ClipboardEvent::Image(png)) => {
            assert_eq!(&png[1..4], b"PNG");
            let back = decode_image(&png).unwrap();
            assert_eq!((back.width, back.height), (2, 1));
            assert_eq!(back.bytes, seen.bytes);
        }
        _ => panic!("no image"),
    }
    assert!(!w.is_fresh_picture(&shared, &seen));
    assert!(w.is_fresh_picture(&shared, &picture(&[9, 9, 9, 9])));
    assert!(is_nothing(&w.look_at_pasteboard(&shared, Some(seen), text("t"))));
    assert!(matches!(
        w.look_at_pasteboard(&shared, None, text("t")),
        WatchAction::Send(ClipboardEvent::Text(_))
    ));
    assert!(is_nothing(&w.look_at_pasteboard(&shared, None, None)));
}

#[test]
fn foreign_png_files_are_read() {
    let png = unhex(
        "89504e470d0a1a0a0000000d4948445200000002000000010806000000f4227f8a0000001149444154789c63f8cfc0f09fa181c101000ebc02bfbcb5d7af0000000049454e44ae426082",
    );
    let p = decode_image(&png).unwrap();
    assert_eq!((p.width, p.height), (2, 1));
    assert_eq!(p.bytes, vec![255, 0, 0, 255, 0, 128, 0, 64]);
    assert!(p.whole());
    assert!(decode_image(b"no image").is_none());
}

#[test]
fn zero_sized_pictures_cannot_be_encoded() {
    assert!(encode_png(0, 0, &[]).is_none());
    let shared = ClipboardShared::new();
    let mut w = ClipboardWatcher::new(None, None, None, None);
    let empty = Picture { width: 0, height: 0, bytes: vec![] };
    assert!(is_nothing(&w.look_at_pasteboard(&shared, Some(empty), text("t"))));
}

#[test]
fn pictures_are_compared_by_pixels() {
    let a = picture(&[1, 2, 3, 4]);
    assert!(same_picture(&a, &a.duplicate()));
    assert!(!same_picture(&a, &picture(&[1, 2, 3, 5])));
    assert!(!same_picture(&a, &Picture { width: 1, height: 2, bytes: vec![1, 2, 3, 4] }));
    assert!(same_bytes(&[1, 2], &[1, 2]));
    assert!(!same_bytes(&[1, 2], &[1]));
    assert!(!Picture { width: 1, height: 1, bytes: vec![0; 5] }.whole());
    assert!(!Picture { width: usize::MAX, height: 1, bytes: vec![0; 4] }.whole());
}

#[test]
fn only_the_last_change_counts() {
    assert!(latest_event(vec![]).is_none());
    let events = vec![ClipboardEvent::Text("a".to_string()), ClipboardEvent::File("/b".to_string())];
    assert!(matches!(latest_event(events), Some(ClipboardEvent::File(p)) if p == "/b"));
}
