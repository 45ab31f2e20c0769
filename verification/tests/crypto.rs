use mwb_bridge::crypto::{derive_iv, derive_key, get_24bit_hash, magic_from_digest, CbcState};
use mwb_bridge::link::Link;

const KEY: &str = "Pa55-word. Key16";

fn unhex(s: &str) -> Vec<u8> {
    (0..s.len() / 2).map(|i| u8::from_str_radix(&s[2 * i..2 * i + 2], 16).unwrap()).collect()
}

#[test]
fn iv_is_the_start_of_the_constant() {
    assert_eq!(&derive_iv(), b"1844674407370955");
}

#[test]
fn key_is_derived_by_pbkdf2() {
    assert_eq!(
        derive_key(KEY).to_vec(),
        unhex("c0019a2aa534174f75e5c4c6cdaa315dd3061fd724f35e2ab6a418e7d1c5cb4b")
    );
}

#[test]
fn magic_number_of_a_key() {
    assert_eq!(get_24bit_hash(KEY), 0x30fe529f);
    assert_eq!(get_24bit_hash("a"), 0x6696ecf0);
}

#[test]
fn magic_number_truncates_the_key() {
    // Characters are cut to their low byte, and only 32 of them count.
    assert_eq!(get_24bit_hash("key-é"), 0x7da7f228);
    assert_eq!(get_24bit_hash("0123456789abcdef0123456789abcdefXYZ"), 0x69abf8ff);
    assert_eq!(get_24bit_hash("0123456789abcdef0123456789abcdef"), 0x69abf8ff);
}

#[test]
fn magic_bytes_share_a_bit() {
    let mut digest = [0u8; 64];
    digest[0] = 0x16;
    digest[1] = 0x17;
    digest[63] = 0x42;
    digest[2] = 0x8f;
    assert_eq!(magic_from_digest(&digest), 0x0b17428f);
    digest[0] = 0x01;
    digest[1] = 0x80;
    assert_eq!(magic_from_digest(&digest), 0x0080428f);
}

#[test]
fn two_blocks_are_chained() {
    let cipher = CbcState::new(&derive_key(KEY));
    let mut chain = derive_iv();
    let plain: Vec<u8> = (0..32).collect();
    let ct = cipher.encrypt(&mut chain, &plain);
    assert_eq!(ct, unhex("6bc24cdb98b6ceb1305df7d3125a2a5ed7aaf0eeda12d7835691750f6ede978f"));
    assert_eq!(chain.to_vec(), ct[16..].to_vec());
    let mut back = derive_iv();
    assert_eq!(cipher.decrypt(&mut back, &ct), plain);
    assert_eq!(back, chain);
}

#[test]
fn chaining_goes_on_from_call_to_call() {
    let cipher = CbcState::new(&[7u8; 32]);
    let plain: Vec<u8> = (0..96).collect();
    let mut one = [1u8; 16];
    let whole = cipher.encrypt(&mut one, &plain);
    let mut two = [1u8; 16];
    let mut parts = cipher.encrypt(&mut two, &plain[..32]);
    parts.extend(cipher.encrypt(&mut two, &plain[32..]));
    assert_eq!(whole, parts);
    let mut back = [1u8; 16];
    let mut read = cipher.decrypt(&mut back, &whole[..64]);
    read.extend(cipher.decrypt(&mut back, &whole[64..]));
    assert_eq!(read, plain);
}

#[test]
fn incomplete_block_comes_out_as_zeros() {
    let cipher = CbcState::new(&[7u8; 32]);
    let mut chain = [9u8; 16];
    assert_eq!(cipher.encrypt(&mut chain, &[1, 2, 3]), vec![0, 0, 0]);
    assert_eq!(cipher.decrypt(&mut chain, &[1, 2, 3]), vec![0, 0, 0]);
    assert_eq!(chain, [9u8; 16]);
    assert_eq!(cipher.encrypt(&mut chain, &[5u8; 20])[16..], [0, 0, 0, 0]);
}

#[test]
fn links_with_one_key_understand_each_other() {
    let mut a = Link::new(KEY);
    let mut b = Link::new(KEY);
    let first: [u8; 16] = a.prime().try_into().unwrap();
    b.primed(&first);
    let sent = a.send(&[3u8; 48]);
    assert_ne!(sent, vec![3u8; 48]);
    assert_eq!(b.receive(&sent), vec![3u8; 48]);
    let sent = a.send(&[4u8; 16]);
    assert_eq!(b.receive(&sent), vec![4u8; 16]);
}

#[test]
fn links_prime_with_random_blocks() {
    let mut a = Link::new(KEY);
    let mut b = Link::new(KEY);
    assert_ne!(a.prime(), b.prime());
}
