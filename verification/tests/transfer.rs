use mwb_bridge::config::{Config, Platform};
use mwb_bridge::file_header::build_file_header;
use mwb_bridge::link::Link;
use mwb_bridge::mwb_protocol::unpack_u32_le;
use mwb_bridge::sharing::PendingOutbound;
use mwb_bridge::transfer::{
    clipboard_server_address, destination, outbound_name, receive_header, BodyReader, Destination,
    Offer, Pull, PullAction, Serve, BODY_CHUNK,
};

const KEY: &str = "Pa55-word. Key16";

fn config(id: u32, name: &str) -> Config {
    Config {
        security_key: KEY.to_string(),
        windows_ip: "WINPC.local:15101".to_string(),
        machine_name: name.to_string(),
        machine_id: id,
        xkb_layout: "us".to_string(),
        xkb_variant: String::new(),
    }
}

fn ends() -> (Link, Link) {
    let mut a = Link::new(KEY);
    let mut b = Link::new(KEY);
    let from_a: [u8; 16] = a.prime().try_into().unwrap();
    let from_b: [u8; 16] = b.prime().try_into().unwrap();
    a.primed(&from_b);
    b.primed(&from_a);
    (a, b)
}

/// A pull and a serve that have shaken hands.
fn connected() -> (Pull, Serve) {
    let (mut pull, from_pull) = Pull::open(&config(11, "omarchy"));
    let (mut serve, from_serve) = Serve::open(&config(22, "WINPC"));
    assert_eq!((pull.wanted(), serve.wanted()), (16, 16));
    let hello = match pull.feed(&from_serve) {
        PullAction::Send(bytes) => bytes,
        _ => panic!("no handshake"),
    };
    let answer = serve.feed(&from_pull);
    assert_eq!((pull.wanted(), serve.wanted()), (64, 64));
    assert!(serve.feed(&hello).is_empty());
    assert!(matches!(pull.feed(&answer), PullAction::Continue));
    assert_eq!((pull.wanted(), serve.wanted()), (1024, 0));
    (pull, serve)
}

fn run(pull: &mut Pull, mut bytes: &[u8]) -> (usize, PullAction) {
    let mut pieces = 0;
    loop {
        let n = pull.wanted();
        let action = pull.feed(&bytes[..n]);
        bytes = &bytes[n..];
        pieces += 1;
        if pull.wanted() == 0 {
            assert!(bytes.is_empty());
            return (pieces, action);
        }
        assert!(matches!(action, PullAction::Continue));
    }
}

#[test]
fn both_sides_introduce_themselves() {
    let (mut pull, from_pull) = Pull::open(&config(11, "omarchy"));
    let mut end = Link::new(KEY);
    end.receive(&from_pull);
    let hello = match pull.feed(&[0u8; 16]) {
        PullAction::Send(bytes) => end.receive(&bytes),
        _ => panic!("no handshake"),
    };
    assert_eq!(&hello[..8], &[69, 0, 0, 0, 0, 0, 0, 0]);
    assert_eq!(unpack_u32_le(&hello, 8), 11);
    assert_eq!(&hello[32..40], b"omarchy ");
    let (mut serve, from_serve) = Serve::open(&config(22, "WINPC"));
    let mut end = Link::new(KEY);
    end.receive(&from_serve);
    let hello = end.receive(&serve.feed(&[0u8; 16]));
    assert_eq!(&hello[..8], &[79, 0, 0, 0, 0, 0, 0, 0]);
    assert_eq!(unpack_u32_le(&hello, 8), 22);
    assert_eq!(&hello[32..38], b"WINPC ");
}

#[test]
fn served_files_are_pulled() {
    for len in [1usize, 31, 32, 33, BODY_CHUNK, BODY_CHUNK + 1, 3 * BODY_CHUNK - 7] {
        let data: Vec<u8> = (0..len).map(|i| (i % 251) as u8).collect();
        let (mut pull, mut serve) = connected();
        let bytes = serve.reply("report 1.txt", &data);
        assert_eq!(bytes.len(), 1024 + len.div_ceil(32) * 32);
        let (pieces, action) = run(&mut pull, &bytes);
        assert_eq!(pieces, 1 + len.div_ceil(BODY_CHUNK));
        match action {
            PullAction::Received { name, body } => {
                assert_eq!(name, "report 1.txt");
                assert_eq!(body, data);
            }
            _ => panic!("not received"),
        }
    }
}

#[test]
fn nothing_pending_is_refused() {
    let (mut pull, mut serve) = connected();
    let bytes = serve.reply_nothing();
    assert!(matches!(
        run(&mut pull, &bytes),
        (1, PullAction::Refused { size: 0, name }) if name == "Nothing currently available"
    ));
}

#[test]
fn empty_files_are_refused() {
    let (mut pull, mut serve) = connected();
    let bytes = serve.reply("empty", &[]);
    assert_eq!(bytes.len(), 1024);
    assert!(matches!(run(&mut pull, &bytes), (1, PullAction::Refused { size: 0, .. })));
}

#[test]
fn oversized_files_are_refused() {
    let (mut puller, mut server) = ends();
    let mut offer = |size: usize| {
        let header: [u8; 1024] = server.send(&build_file_header(size, "a")).try_into().unwrap();
        receive_header(&mut puller, &header)
    };
    assert!(matches!(offer(104857600), Offer::Accepted { size: 104857600, .. }));
    assert!(matches!(offer(104857601), Offer::Refused { size: 104857601, .. }));
}

#[test]
fn unreadable_headers_end_the_pull() {
    let (mut pull, from_pull) = Pull::open(&config(11, "omarchy"));
    let mut end = Link::new(KEY);
    end.receive(&from_pull);
    let first = end.prime();
    assert!(matches!(pull.feed(&first), PullAction::Send(_)));
    let intro = end.send(&[0u8; 64]);
    assert!(matches!(pull.feed(&intro), PullAction::Continue));
    let mut plain = build_file_header(5, "a");
    plain[0] = 0x78;
    let header = end.send(&plain);
    assert!(matches!(pull.feed(&header), PullAction::Unreadable));
    assert_eq!(pull.wanted(), 0);
}

#[test]
fn body_comes_in_chunks() {
    let (mut reader_end, mut sender_end) = ends();
    let mut reader = BodyReader::new(40);
    assert_eq!(reader.next_len(), 64);
    let mut plain = vec![7u8; 40];
    plain.resize(64, 0);
    reader.take_chunk(&mut reader_end, &sender_end.send(&plain));
    assert_eq!(reader.next_len(), 0);
    assert_eq!(reader.contents(), vec![7u8; 40]);
    let reader = BodyReader::new(BODY_CHUNK + 32);
    assert_eq!(reader.next_len(), BODY_CHUNK);
    let reader = BodyReader::new(0);
    assert_eq!(reader.next_len(), 0);
    assert_eq!(reader.contents(), Vec::<u8>::new());
}

#[test]
fn received_files_find_their_place() {
    assert!(matches!(destination(Platform::Linux, "image"), Destination::Image));
    assert!(matches!(destination(Platform::MacOs, "image"), Destination::Image));
    assert!(matches!(
        destination(Platform::Linux, "C:\\Users\\Alan\\copytest.txt"),
        Destination::File(name) if name == "copytest.txt"
    ));
    assert!(matches!(destination(Platform::MacOs, "C:\\copytest.txt"), Destination::Nowhere));
    assert!(matches!(destination(Platform::Linux, "C:\\image"), Destination::File(name) if name == "image"));
}

#[test]
fn served_names() {
    assert_eq!(outbound_name(&PendingOutbound::File("/home/u/a b.txt".to_string())), "a b.txt");
    assert_eq!(outbound_name(&PendingOutbound::File("/".to_string())), "file");
    assert_eq!(outbound_name(&PendingOutbound::Image("/tmp/outbound-image.png".to_string())), "image");
}

#[test]
fn server_address_has_the_other_port() {
    assert_eq!(clipboard_server_address("WINPC.local:15101"), "WINPC.local:15100");
    assert_eq!(clipboard_server_address("10.0.0.1"), "10.0.0.1:15100");
}
