use mwb_bridge::clipboard::decode_clipboard_text;
use mwb_bridge::config::{Config, Platform};
use mwb_bridge::conversation::Conversation;
use mwb_bridge::session::{Action, Role};
use mwb_bridge::sharing::{peer_machine_id, ClipboardEvent, ClipboardShared};

fn config(id: u32, name: &str) -> Config {
    Config {
        security_key: "Pa55-word. Key16".to_string(),
        windows_ip: "WINPC.local:15101".to_string(),
        machine_name: name.to_string(),
        machine_id: id,
        xkb_layout: "us".to_string(),
        xkb_variant: String::new(),
    }
}

/// One end with the bytes that are on their way to it.
struct End {
    talk: Conversation,
    shared: ClipboardShared,
    incoming: Vec<u8>,
    statuses: Vec<(bool, String)>,
    texts: Vec<String>,
}

impl End {
    fn new(cfg: &Config, role: Role) -> (End, Vec<u8>) {
        let (talk, bytes) = Conversation::open(cfg, role);
        assert_eq!(talk.wanted(), 16);
        assert!(!talk.is_between_packages());
        let end = End { talk, shared: ClipboardShared::new(), incoming: vec![], statuses: vec![], texts: vec![] };
        (end, bytes)
    }

    /// Takes everything in and gives what is to be sent.
    fn run(&mut self) -> Vec<u8> {
        let mut out = Vec::new();
        while self.incoming.len() >= self.talk.wanted() {
            let piece: Vec<u8> = self.incoming.drain(..self.talk.wanted()).collect();
            match self.talk.feed(&mut self.shared, &piece) {
                Action::Send(bytes) => out.extend(bytes),
                Action::Status { connected, peer } => self.statuses.push((connected, peer)),
                Action::ApplyText(payload) => self.texts.push(decode_clipboard_text(&payload).unwrap()),
                _ => (),
            }
        }
        out
    }
}

#[test]
fn two_ends_talk() {
    let (mut a, from_a) = End::new(&config(11, "omarchy"), Role::client());
    let (mut b, from_b) = End::new(&config(22, "WINPC"), Role::server(Platform::MacOs));
    a.incoming.extend(from_b);
    b.incoming.extend(from_a);
    for _ in 0..4 {
        let bytes = a.run();
        b.incoming.extend(bytes);
        let bytes = b.run();
        a.incoming.extend(bytes);
    }
    assert!(a.incoming.is_empty() && b.incoming.is_empty());
    assert_eq!(a.statuses, vec![(true, "WINPC".to_string()); 10]);
    assert_eq!(b.statuses, vec![(true, "omarchy".to_string()); 10]);
    assert_eq!(peer_machine_id(&a.shared), Some(22));
    assert_eq!(peer_machine_id(&b.shared), None);
    assert!(b.talk.is_between_packages());
    let bytes = b.talk.session_mut().send_event(&mut b.shared, ClipboardEvent::Text("copied".to_string())).unwrap();
    a.incoming.extend(bytes);
    assert!(a.run().is_empty());
    assert_eq!(a.texts, vec!["copied".to_string()]);
}

#[test]
fn big_packages_come_in_halves() {
    let (mut a, from_a) = End::new(&config(11, "omarchy"), Role::client());
    let (mut b, from_b) = End::new(&config(22, "WINPC"), Role::client());
    a.incoming.extend(from_b);
    b.incoming.extend(from_a);
    let bytes = a.run();
    assert_eq!(bytes.len(), 640);
    b.run();
    b.incoming.extend(&bytes[..32]);
    assert!(b.run().is_empty());
    assert!(!b.talk.is_between_packages());
    b.incoming.extend(&bytes[32..64]);
    assert_eq!(b.run().len(), 64);
    assert!(b.talk.is_between_packages());
}

#[test]
fn only_the_last_piece_of_an_image_acts() {
    let (mut a, from_a) = End::new(&config(11, "omarchy"), Role::client());
    let (mut b, from_b) = End::new(&config(22, "WINPC"), Role::client());
    a.incoming.extend(from_b);
    b.incoming.extend(from_a);
    let bytes = a.run();
    b.incoming.extend(bytes);
    let bytes = b.run();
    a.incoming.extend(bytes);
    a.run();
    b.incoming.clear();
    for png in [vec![7u8; 100], vec![8u8; 96], vec![]] {
        let bytes = b.talk.session_mut().send_event(&mut b.shared, ClipboardEvent::Image(png.clone())).unwrap();
        let pieces: Vec<&[u8]> = bytes.chunks(32).collect();
        for (i, piece) in pieces.iter().enumerate() {
            assert_eq!(a.talk.wanted(), 32);
            match a.talk.feed_at(&mut a.shared, piece, 0) {
                Action::Nothing => assert!(i + 1 < pieces.len()),
                Action::ApplyImage(applied) => {
                    assert_eq!(i + 1, pieces.len());
                    assert_eq!(applied[..png.len()], png[..]);
                    assert!(applied.len() - png.len() <= 48);
                    assert!(applied[png.len()..].iter().all(|&x| x == 0));
                }
                _ => panic!("something else"),
            }
        }
        assert!(a.talk.is_between_packages());
    }
}

#[test]
fn time_given_is_the_time_used() {
    let (mut a, from_a) = End::new(&config(11, "omarchy"), Role::client());
    let _ = from_a;
    assert!(matches!(a.talk.feed_at(&mut a.shared, &[0u8; 16], 5), Action::Send(_)));
    assert_eq!(a.talk.wanted(), 32);
}
