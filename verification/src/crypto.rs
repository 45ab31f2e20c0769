//! Keys, the magic number, and AES-256 in cipher block chaining over one
//! continuous stream per direction.

use aes::cipher::{BlockCipherDecrypt, BlockCipherEncrypt, KeyInit};
use pbkdf2::pbkdf2_hmac;
use sha2::{Digest, Sha512};
use vstd::prelude::*;
use vstd::utf8::*;

use crate::mwb_protocol;
use crate::text;

verus! {

/// The constant that salts the key and starts every cipher stream.
pub const INITIAL_IV: &'static str = "18446744073709551615";

/// How often the key derivation and the magic number repeat their hash.
pub const HASH_ROUNDS: u32 = 50_000;

/// One block under AES-256 with the given key.
pub uninterp spec fn aes256_encrypted(key: Seq<u8>, block: Seq<u8>) -> [u8; 16];

/// One block of ciphertext under AES-256 with the given key, decrypted.
pub uninterp spec fn aes256_decrypted(key: Seq<u8>, block: Seq<u8>) -> [u8; 16];

/// The SHA-512 digest of some bytes.
pub uninterp spec fn sha512(data: Seq<u8>) -> [u8; 64];

/// The first 32 bytes that PBKDF2 derives with HMAC-SHA-512.
pub uninterp spec fn pbkdf2_hmac_sha512(password: Seq<u8>, salt: Seq<u8>, rounds: u32) -> [u8; 32];

/// `encrypt_block` of `aes::Aes256`: the result depends on key and block
/// alone, and decrypting it under the same key gives the block back.
#[verifier::external_body]
fn aes256_encrypt_block(key: &[u8; 32], block: &[u8; 16]) -> (r: [u8; 16])
    ensures
        r == aes256_encrypted(key@, block@),
        aes256_decrypted(key@, r@)@ == block@,
{
    let cipher = aes::Aes256::new(key.into());
    let mut out: aes::Block = (*block).into();
    cipher.encrypt_block(&mut out);
    out.into()
}

/// `decrypt_block` of `aes::Aes256`: the result depends on key and block
/// alone, and encrypting it under the same key gives the block back.
#[verifier::external_body]
fn aes256_decrypt_block(key: &[u8; 32], block: &[u8; 16]) -> (r: [u8; 16])
    ensures
        r == aes256_decrypted(key@, block@),
        aes256_encrypted(key@, r@)@ == block@,
{
    let cipher = aes::Aes256::new(key.into());
    let mut out: aes::Block = (*block).into();
    cipher.decrypt_block(&mut out);
    out.into()
}

/// `Sha512::digest` of `sha2`: the digest depends on the data alone.
#[verifier::external_body]
fn sha512_digest(data: &[u8]) -> (r: [u8; 64])
    ensures
        r == sha512(data@),
{
    Sha512::digest(data).into()
}

/// `pbkdf2_hmac::<Sha512>` of `pbkdf2`, filling 32 bytes: the result depends
/// on password, salt and number of rounds alone.
#[verifier::external_body]
fn pbkdf2_sha512(password: &[u8], salt: &[u8], rounds: u32) -> (r: [u8; 32])
    ensures
        r == pbkdf2_hmac_sha512(password@, salt@, rounds),
{
    let mut key = [0u8; 32];
    pbkdf2_hmac::<Sha512>(password, salt, rounds, &mut key);
    key
}

/// The AES key that belongs to a security key: PBKDF2 over its UTF-8 bytes,
/// salted with the constant in UTF-16LE.
pub open spec fn derived_key(security_key: Seq<char>) -> [u8; 32] {
    pbkdf2_hmac_sha512(encode_utf8(security_key), text::utf16le("18446744073709551615"@), 50_000)
}

/// Derives the AES key that belongs to a security key.
pub fn derive_key(security_key: &str) -> (r: [u8; 32])
    ensures
        r == derived_key(security_key@),
{
    let salt: Vec<u8> = text::utf16le_bytes(INITIAL_IV);
    pbkdf2_sha512(security_key.as_bytes(), &salt, HASH_ROUNDS)
}

/// The bytes that every cipher stream starts its chain with: the first 16
/// characters of the constant, in ASCII.
pub open spec fn initial_chain() -> Seq<u8> {
    seq![
        0x31u8, 0x38, 0x34, 0x34, 0x36, 0x37, 0x34, 0x34, 0x30, 0x37, 0x33, 0x37, 0x30, 0x39, 0x35,
        0x35,
    ]
}

/// The initialisation vector of every cipher stream.
pub fn derive_iv() -> (r: [u8; 16])
    ensures
        r@ == initial_chain(),
        r@ == encode_utf8("18446744073709551615"@).take(16),
{
    proof {
        reveal_strlit("18446744073709551615");
        is_ascii_chars_encode_utf8("18446744073709551615"@);
    }
    let bytes: &[u8] = INITIAL_IV.as_bytes();
    let mut r: [u8; 16] = [0u8; 16];
    let mut i: usize = 0;
    while i < 16
        invariant
            i <= 16,
            bytes@.len() == 20,
            forall|j: int| 0 <= j < i ==> #[trigger] r@[j] == bytes@[j],
        decreases 16 - i,
    {
        r[i] = bytes[i];
        i += 1;
    }
    assert(r@ =~= bytes@.take(16));
    assert(r@ =~= initial_chain());
    r
}

/// The bytes that the magic number is hashed from: the first 32 characters,
/// each cut down to its low byte, filled up with zeros.
pub open spec fn truncated_key(key: Seq<char>) -> Seq<u8> {
    Seq::new(
        32,
        |i: int|
            if i < key.len() {
                (key[i] as u32 % 0x100) as u8
            } else {
                0u8
            },
    )
}

/// SHA-512, applied to its own digest `again` more times.
pub open spec fn sha512_repeated(data: Seq<u8>, again: nat) -> [u8; 64]
    decreases again,
{
    if again == 0 {
        sha512(data)
    } else {
        sha512(sha512_repeated(data, (again - 1) as nat)@)
    }
}

/// The magic number in a digest: bytes 0, 1, 63 and 2, from the top down. The
/// first two overlap in bit 23, which is set if either sets it.
pub open spec fn magic_of(digest: Seq<u8>) -> u32 {
    ((digest[0] as u32) << 23) | ((digest[1] as u32) << 16) | ((digest[63] as u32) << 8) | (
    digest[2] as u32)
}

/// The magic number of a digest.
pub fn magic_from_digest(digest: &[u8; 64]) -> (r: u32)
    ensures
        r == magic_of(digest@),
        digest@[0] % 2 == 0 || digest@[1] < 128 ==> r == 0x80_0000 * digest@[0] + 0x1_0000
            * digest@[1] + 0x100 * digest@[63] + digest@[2],
        digest@[0] % 2 == 1 && digest@[1] >= 128 ==> r == 0x80_0000 * digest@[0] + 0x1_0000 * (
        digest@[1] - 128) + 0x100 * digest@[63] + digest@[2],
{
    let a: u8 = digest[0];
    let b: u8 = digest[1];
    let c: u8 = digest[63];
    let d: u8 = digest[2];
    let r: u32 = ((a as u32) << 23) | ((b as u32) << 16) | ((c as u32) << 8) | (d as u32);
    assert(a % 2 == 0 || b < 128 ==> r == 0x80_0000 * a + 0x1_0000 * b + 0x100 * c + d)
        by (bit_vector)
        requires
            r == ((a as u32) << 23) | ((b as u32) << 16) | ((c as u32) << 8) | (d as u32),
    ;
    assert(a % 2 == 1 && b >= 128 ==> r == 0x80_0000 * a + 0x1_0000 * (b - 128) + 0x100 * c + d)
        by (bit_vector)
        requires
            r == ((a as u32) << 23) | ((b as u32) << 16) | ((c as u32) << 8) | (d as u32),
    ;
    r
}

/// The magic number that belongs to a security key: SHA-512 of the truncated
/// key, hashed 50000 more times, packed into 32 bits.
pub open spec fn magic_number_of(key: Seq<char>) -> u32 {
    magic_of(sha512_repeated(truncated_key(key), 50_000)@)
}

/// Computes the magic number that belongs to a security key.
pub fn get_24bit_hash(key: &str) -> (r: u32)
    ensures
        r == magic_number_of(key@),
{
    let chars: Vec<char> = text::str_chars(key);
    let mut bytes: [u8; 32] = [0u8; 32];
    let mut i: usize = 0;
    while i < 32 && i < chars.len()
        invariant
            i <= 32,
            i <= chars@.len(),
            forall|j: int|
                0 <= j < i ==> #[trigger] bytes@[j] == (chars@[j] as u32 % 0x100) as u8,
            forall|j: int| i <= j < 32 ==> #[trigger] bytes@[j] == 0,
        decreases 32 - i,
    {
        bytes[i] = (chars[i] as u32 % 0x100) as u8;
        i += 1;
    }
    assert(bytes@ =~= truncated_key(key@));
    let mut hash: [u8; 64] = sha512_digest(&bytes);
    let mut round: u32 = 0;
    while round < HASH_ROUNDS
        invariant
            round <= 50_000,
            hash == sha512_repeated(truncated_key(key@), round as nat),
        decreases 50_000 - round,
    {
        hash = sha512_digest(&hash);
        round += 1;
    }
    magic_from_digest(&hash)
}

/// Two blocks of 16 bytes, combined bit by bit.
pub open spec fn xor_block(a: Seq<u8>, b: Seq<u8>) -> Seq<u8> {
    Seq::new(16, |i: int| a[i] ^ b[i])
}

/// Plaintext through the cipher, whole blocks chained from `chain` on. What is
/// left over behind the last whole block comes out as zeros.
pub open spec fn cbc_encrypted(key: Seq<u8>, chain: Seq<u8>, plain: Seq<u8>) -> Seq<u8>
    decreases plain.len(),
{
    if plain.len() < 16 {
        mwb_protocol::zeros(plain.len())
    } else {
        let block = aes256_encrypted(key, xor_block(plain.take(16), chain))@;
        block + cbc_encrypted(key, block, plain.skip(16))
    }
}

/// Ciphertext through the cipher, whole blocks chained from `chain` on. What
/// is left over behind the last whole block comes out as zeros.
pub open spec fn cbc_decrypted(key: Seq<u8>, chain: Seq<u8>, cipher: Seq<u8>) -> Seq<u8>
    decreases cipher.len(),
{
    if cipher.len() < 16 {
        mwb_protocol::zeros(cipher.len())
    } else {
        xor_block(aes256_decrypted(key, cipher.take(16))@, chain) + cbc_decrypted(
            key,
            cipher.take(16),
            cipher.skip(16),
        )
    }
}

/// The chain behind some ciphertext: its last whole block, or the chain before
/// it where it holds none.
pub open spec fn chain_after(chain: Seq<u8>, cipher: Seq<u8>) -> Seq<u8>
    decreases cipher.len(),
{
    if cipher.len() < 16 {
        chain
    } else {
        chain_after(cipher.take(16), cipher.skip(16))
    }
}

/// Encryption keeps the length.
pub proof fn lemma_cbc_encrypted_len(key: Seq<u8>, chain: Seq<u8>, plain: Seq<u8>)
    ensures
        cbc_encrypted(key, chain, plain).len() == plain.len(),
    decreases plain.len(),
{
    if plain.len() >= 16 {
        let block = aes256_encrypted(key, xor_block(plain.take(16), chain))@;
        lemma_cbc_encrypted_len(key, block, plain.skip(16));
    }
}

/// Decryption keeps the length.
pub proof fn lemma_cbc_decrypted_len(key: Seq<u8>, chain: Seq<u8>, cipher: Seq<u8>)
    ensures
        cbc_decrypted(key, chain, cipher).len() == cipher.len(),
    decreases cipher.len(),
{
    if cipher.len() >= 16 {
        lemma_cbc_decrypted_len(key, cipher.take(16), cipher.skip(16));
    }
}

/// The cipher is one continuous stream: a message encrypted in two calls, the
/// chain carried over, is the message encrypted in one.
pub proof fn cbc_encrypts_as_a_stream(key: Seq<u8>, chain: Seq<u8>, first: Seq<u8>, second: Seq<u8>)
    requires
        first.len() % 16 == 0,
    ensures
        cbc_encrypted(key, chain, first + second) == cbc_encrypted(key, chain, first)
            + cbc_encrypted(
            key,
            chain_after(chain, cbc_encrypted(key, chain, first)),
            second,
        ),
    decreases first.len(),
{
    if first.len() == 0 {
        assert(first + second =~= second);
        assert(cbc_encrypted(key, chain, first) =~= Seq::<u8>::empty());
        assert(cbc_encrypted(key, chain, first + second) =~= cbc_encrypted(key, chain, first)
            + cbc_encrypted(key, chain_after(chain, cbc_encrypted(key, chain, first)), second));
    } else {
        let all = first + second;
        let block = aes256_encrypted(key, xor_block(first.take(16), chain))@;
        let rest = cbc_encrypted(key, block, first.skip(16));
        assert(all.take(16) =~= first.take(16));
        assert(all.skip(16) =~= first.skip(16) + second);
        cbc_encrypts_as_a_stream(key, block, first.skip(16), second);
        lemma_cbc_encrypted_len(key, block, first.skip(16));
        assert((block + rest).take(16) =~= block);
        assert((block + rest).skip(16) =~= rest);
        assert(cbc_encrypted(key, chain, all) =~= cbc_encrypted(key, chain, first)
            + cbc_encrypted(key, chain_after(chain, cbc_encrypted(key, chain, first)), second));
    }
}

/// The cipher is one continuous stream: ciphertext decrypted in two calls, the
/// chain carried over, is the ciphertext decrypted in one.
pub proof fn cbc_decrypts_as_a_stream(key: Seq<u8>, chain: Seq<u8>, first: Seq<u8>, second: Seq<u8>)
    requires
        first.len() % 16 == 0,
    ensures
        cbc_decrypted(key, chain, first + second) == cbc_decrypted(key, chain, first)
            + cbc_decrypted(key, chain_after(chain, first), second),
    decreases first.len(),
{
    if first.len() == 0 {
        assert(first + second =~= second);
        assert(cbc_decrypted(key, chain, first + second) =~= cbc_decrypted(key, chain, first)
            + cbc_decrypted(key, chain_after(chain, first), second));
    } else {
        let all = first + second;
        assert(all.take(16) =~= first.take(16));
        assert(all.skip(16) =~= first.skip(16) + second);
        cbc_decrypts_as_a_stream(key, first.take(16), first.skip(16), second);
        assert(cbc_decrypted(key, chain, all) =~= cbc_decrypted(key, chain, first)
            + cbc_decrypted(key, chain_after(chain, first), second));
    }
}

/// The chain behind two pieces of ciphertext is the chain behind both.
pub proof fn lemma_chain_after_concat(chain: Seq<u8>, first: Seq<u8>, second: Seq<u8>)
    requires
        first.len() % 16 == 0,
    ensures
        chain_after(chain, first + second) == chain_after(chain_after(chain, first), second),
    decreases first.len(),
{
    if first.len() == 0 {
        assert(first + second =~= second);
    } else {
        let all = first + second;
        assert(all.take(16) =~= first.take(16));
        assert(all.skip(16) =~= first.skip(16) + second);
        lemma_chain_after_concat(first.take(16), first.skip(16), second);
    }
}

/// Combining with the same block twice changes nothing.
proof fn lemma_xor_twice(a: Seq<u8>, b: Seq<u8>)
    requires
        a.len() == 16,
        b.len() == 16,
    ensures
        xor_block(xor_block(a, b), b) == a,
{
    assert forall|i: int| 0 <= i < 16 implies #[trigger] xor_block(xor_block(a, b), b)[i]
        == a[i] by {
        let x = a[i];
        let y = b[i];
        assert((x ^ y) ^ y == x) by (bit_vector);
    }
    assert(xor_block(xor_block(a, b), b) =~= a);
}

/// A key for AES-256 in cipher block chaining. The chain of each direction is
/// the caller's: it persists from call to call and is never reset.
pub struct CbcState {
    key: [u8; 32],
}

impl View for CbcState {
    type V = Seq<u8>;

    closed spec fn view(&self) -> Seq<u8> {
        self.key@
    }
}

fn xor_into(a: &[u8; 16], b: &[u8; 16]) -> (r: [u8; 16])
    ensures
        r@ == xor_block(a@, b@),
{
    let mut r: [u8; 16] = [0u8; 16];
    let mut j: usize = 0;
    while j < 16
        invariant
            j <= 16,
            forall|k: int| 0 <= k < j ==> #[trigger] r@[k] == a@[k] ^ b@[k],
        decreases 16 - j,
    {
        r[j] = a[j] ^ b[j];
        j += 1;
    }
    assert(r@ =~= xor_block(a@, b@));
    r
}

/// The 16 bytes of `s` from `at` on.
fn block_at(s: &[u8], at: usize) -> (r: [u8; 16])
    requires
        at + 16 <= s@.len(),
    ensures
        r@ == s@.subrange(at as int, at + 16),
{
    let mut r: [u8; 16] = [0u8; 16];
    let mut j: usize = 0;
    while j < 16
        invariant
            j <= 16,
            at + 16 <= s@.len(),
            s@.len() == s.len(),
            forall|k: int| 0 <= k < j ==> #[trigger] r@[k] == s@[at + k],
        decreases 16 - j,
    {
        r[j] = s[at + j];
        j += 1;
    }
    assert(r@ =~= s@.subrange(at as int, at + 16));
    r
}

fn push_block(v: &mut Vec<u8>, block: &[u8; 16])
    ensures
        final(v)@ == old(v)@ + block@,
{
    let mut j: usize = 0;
    while j < 16
        invariant
            j <= 16,
            v@ == old(v)@ + block@.take(j as int),
        decreases 16 - j,
    {
        v.push(block[j]);
        j += 1;
        assert(v@ =~= old(v)@ + block@.take(j as int));
    }
    assert(block@.take(16) =~= block@);
}

pub(crate) fn push_zeros(v: &mut Vec<u8>, n: usize)
    ensures
        final(v)@ == old(v)@ + mwb_protocol::zeros(n as nat),
{
    let mut j: usize = 0;
    assert(v@ =~= old(v)@ + mwb_protocol::zeros(0));
    while j < n
        invariant
            j <= n,
            v@ == old(v)@ + mwb_protocol::zeros(j as nat),
        decreases n - j,
    {
        v.push(0u8);
        j += 1;
        assert(v@ =~= old(v)@ + mwb_protocol::zeros(j as nat));
    }
}

impl CbcState {
    pub fn new(key: &[u8; 32]) -> (r: Self)
        ensures
            r@ == key@,
    {
        CbcState { key: *key }
    }

    /// Encrypts whole blocks and moves the chain on. A peer that decrypts the
    /// result from the same chain on gets the plaintext back.
    pub fn encrypt(&self, chain: &mut [u8; 16], plaintext: &[u8]) -> (r: Vec<u8>)
        ensures
            r@ == cbc_encrypted(self@, old(chain)@, plaintext@),
            r@.len() == plaintext@.len(),
            final(chain)@ == chain_after(old(chain)@, r@),
            plaintext@.len() % 16 == 0 ==> cbc_decrypted(self@, old(chain)@, r@) == plaintext@,
    {
        let mut r: Vec<u8> = Vec::new();
        let mut i: usize = 0;
        let ghost c0 = chain@;
        assert(plaintext@.skip(0) =~= plaintext@);
        assert(r@ + cbc_encrypted(self@, c0, plaintext@) =~= cbc_encrypted(
            self@,
            c0,
            plaintext@,
        ));
        assert(cbc_decrypted(self@, c0, r@) =~= plaintext@.take(0));
        while plaintext.len() - i >= 16
            invariant
                i <= plaintext@.len(),
                i % 16 == 0,
                c0.len() == 16,
                r@.len() == i,
                c0 == old(chain)@,
                r@ + cbc_encrypted(self@, chain@, plaintext@.skip(i as int)) == cbc_encrypted(
                    self@,
                    c0,
                    plaintext@,
                ),
                chain@ == chain_after(c0, r@),
                cbc_decrypted(self@, c0, r@) == plaintext@.take(i as int),
            decreases plaintext@.len() - i,
        {
            let ghost before = r@;
            let ghost old_chain = chain@;
            let ghost rest = plaintext@.skip(i as int);
            let piece: [u8; 16] = block_at(plaintext, i);
            let mixed: [u8; 16] = xor_into(&piece, chain);
            let block: [u8; 16] = aes256_encrypt_block(&self.key, &mixed);
            push_block(&mut r, &block);
            *chain = block;
            i += 16;
            proof {
                let b = block@;
                assert(rest.take(16) =~= piece@);
                assert(rest.skip(16) =~= plaintext@.skip(i as int));
                assert(r@ + cbc_encrypted(self@, b, plaintext@.skip(i as int)) =~= before
                    + cbc_encrypted(self@, old_chain, rest));
                lemma_chain_after_concat(c0, before, b);
                assert(b.take(16) =~= b);
                assert(b.skip(16) =~= Seq::<u8>::empty());
                assert(chain_after(old_chain, b) == chain_after(b, Seq::<u8>::empty()));
                cbc_decrypts_as_a_stream(self@, c0, before, b);
                lemma_xor_twice(piece@, old_chain);
                assert(cbc_decrypted(self@, old_chain, b) =~= piece@ + cbc_decrypted(
                    self@,
                    b,
                    Seq::<u8>::empty(),
                ));
                assert(cbc_decrypted(self@, c0, r@) =~= plaintext@.take(i as int));
            }
        }
        let ghost before = r@;
        push_zeros(&mut r, plaintext.len() - i);
        proof {
            let tail = mwb_protocol::zeros((plaintext@.len() - i) as nat);
            lemma_chain_after_concat(c0, before, tail);
            if plaintext@.len() % 16 == 0 {
                assert(i == plaintext@.len());
                assert(r@ =~= before);
                assert(plaintext@.take(i as int) =~= plaintext@);
            }
        }
        r
    }

    /// Decrypts whole blocks and moves the chain on. A peer that encrypts the
    /// result from the same chain on gets the ciphertext back.
    pub fn decrypt(&self, chain: &mut [u8; 16], ciphertext: &[u8]) -> (r: Vec<u8>)
        ensures
            r@ == cbc_decrypted(self@, old(chain)@, ciphertext@),
            r@.len() == ciphertext@.len(),
            final(chain)@ == chain_after(old(chain)@, ciphertext@),
            ciphertext@.len() % 16 == 0 ==> cbc_encrypted(self@, old(chain)@, r@) == ciphertext@,
    {
        let mut r: Vec<u8> = Vec::new();
        let mut i: usize = 0;
        let ghost c0 = chain@;
        assert(ciphertext@.skip(0) =~= ciphertext@);
        assert(ciphertext@.take(0) =~= Seq::<u8>::empty());
        assert(r@ + cbc_decrypted(self@, c0, ciphertext@) =~= cbc_decrypted(
            self@,
            c0,
            ciphertext@,
        ));
        assert(cbc_encrypted(self@, c0, r@) =~= ciphertext@.take(0));
        while ciphertext.len() - i >= 16
            invariant
                i <= ciphertext@.len(),
                i % 16 == 0,
                c0.len() == 16,
                r@.len() == i,
                c0 == old(chain)@,
                r@ + cbc_decrypted(self@, chain@, ciphertext@.skip(i as int)) == cbc_decrypted(
                    self@,
                    c0,
                    ciphertext@,
                ),
                chain@ == chain_after(c0, ciphertext@.take(i as int)),
                cbc_encrypted(self@, c0, r@) == ciphertext@.take(i as int),
            decreases ciphertext@.len() - i,
        {
            let ghost before = r@;
            let ghost old_chain = chain@;
            let ghost rest = ciphertext@.skip(i as int);
            let ghost done = ciphertext@.take(i as int);
            let piece: [u8; 16] = block_at(ciphertext, i);
            let block: [u8; 16] = aes256_decrypt_block(&self.key, &piece);
            let plain: [u8; 16] = xor_into(&block, chain);
            push_block(&mut r, &plain);
            *chain = piece;
            i += 16;
            proof {
                let b = piece@;
                assert(rest.take(16) =~= b);
                assert(rest.skip(16) =~= ciphertext@.skip(i as int));
                assert(r@ + cbc_decrypted(self@, b, ciphertext@.skip(i as int)) =~= before
                    + cbc_decrypted(self@, old_chain, rest));
                assert(ciphertext@.take(i as int) =~= done + b);
                lemma_chain_after_concat(c0, done, b);
                assert(b.take(16) =~= b);
                assert(b.skip(16) =~= Seq::<u8>::empty());
                assert(chain_after(old_chain, b) == chain_after(b, Seq::<u8>::empty()));
                cbc_encrypts_as_a_stream(self@, c0, before, plain@);
                lemma_xor_twice(block@, old_chain);
                assert(plain@.take(16) =~= plain@);
                assert(plain@.skip(16) =~= Seq::<u8>::empty());
                assert(cbc_encrypted(self@, old_chain, plain@) =~= b + cbc_encrypted(
                    self@,
                    b,
                    Seq::<u8>::empty(),
                ));
                assert(cbc_encrypted(self@, c0, r@) =~= ciphertext@.take(i as int));
            }
        }
        let ghost before = r@;
        push_zeros(&mut r, ciphertext.len() - i);
        proof {
            lemma_chain_after_concat(c0, ciphertext@.take(i as int), ciphertext@.skip(i as int));
            assert(ciphertext@.take(i as int) + ciphertext@.skip(i as int) =~= ciphertext@);
            if ciphertext@.len() % 16 == 0 {
                assert(i == ciphertext@.len());
                assert(r@ =~= before);
                assert(ciphertext@.take(i as int) =~= ciphertext@);
            }
        }
        r
    }
}

/// The bytes of a magic number, from the top down: the first of the digest and
/// the second, which meet in bit 23, then the last, then the third. Where only
/// one of the first two sets that bit they add up; where both do, it is set
/// once.
pub proof fn magic_numbers_are_packed(digest: Seq<u8>)
    requires
        digest.len() == 64,
    ensures
        magic_of(digest) as int == 0x80_0000 * digest[0] + 0x1_0000 * digest[1] + 0x100 * digest[63]
            + digest[2] - (if digest[0] % 2 == 1 && digest[1] >= 128 {
            0x80_0000int
        } else {
            0
        }),
{
    let a: u8 = digest[0];
    let b: u8 = digest[1];
    let c: u8 = digest[63];
    let d: u8 = digest[2];
    let r = magic_of(digest);
    assert(a % 2 == 0 || b < 128 ==> r == 0x80_0000 * a + 0x1_0000 * b + 0x100 * c + d)
        by (bit_vector)
        requires
            r == ((a as u32) << 23) | ((b as u32) << 16) | ((c as u32) << 8) | (d as u32),
    ;
    assert(a % 2 == 1 && b >= 128 ==> r == 0x80_0000 * a + 0x1_0000 * (b - 128) + 0x100 * c + d)
        by (bit_vector)
        requires
            r == ((a as u32) << 23) | ((b as u32) << 16) | ((c as u32) << 8) | (d as u32),
    ;
}

/// A key counts by the low byte of each of its first 32 characters, and a short
/// one as if zeros followed it.
pub proof fn keys_count_by_their_first_bytes(key: Seq<char>, i: int)
    requires
        0 <= i < 32,
    ensures
        truncated_key(key).len() == 32,
        i < key.len() ==> (key[i] as u32 - truncated_key(key)[i]) % 0x100 == 0,
        i >= key.len() ==> truncated_key(key)[i] == 0,
{
}

/// A magic number takes the key through SHA-512 50001 times.
pub proof fn magic_numbers_are_hashed_often(key: Seq<char>, data: Seq<u8>, n: nat)
    ensures
        sha512_repeated(data, 0) == sha512(data),
        sha512_repeated(data, n + 1) == sha512(sha512_repeated(data, n)@),
        magic_number_of(key) == magic_of(
            sha512(sha512_repeated(truncated_key(key), 49_999)@)@,
        ),
{
}

/// One block of a stream is what AES makes of the block combined with the
/// chain, and it is the chain of what follows. What does not fill a block comes
/// out as zeros and leaves the chain.
pub proof fn blocks_are_chained(key: Seq<u8>, chain: Seq<u8>, block: Seq<u8>, rest: Seq<u8>)
    requires
        block.len() == 16,
        chain.len() == 16,
    ensures
        ({
            let made = cbc_encrypted(key, chain, block + rest);
            let first = aes256_encrypted(key, Seq::new(16, |i: int| block[i] ^ chain[i]))@;
            &&& made.take(16) == first
            &&& made.skip(16) == cbc_encrypted(key, first, rest)
            &&& chain_after(chain, made) == chain_after(first, made.skip(16))
        }),
        ({
            let read = cbc_decrypted(key, chain, block + rest);
            let first = aes256_decrypted(key, block)@;
            &&& read.take(16) == Seq::new(16, |i: int| first[i] ^ chain[i])
            &&& read.skip(16) == cbc_decrypted(key, block, rest)
        }),
        rest.len() < 16 ==> cbc_encrypted(key, chain, rest) == mwb_protocol::zeros(rest.len())
            && cbc_decrypted(key, chain, rest) == mwb_protocol::zeros(rest.len()) && chain_after(
            chain,
            rest,
        ) == chain,
{
    let all = block + rest;
    assert(all.take(16) =~= block);
    assert(all.skip(16) =~= rest);
    let mixed = Seq::new(16, |i: int| block[i] ^ chain[i]);
    assert(xor_block(block, chain) =~= mixed);
    let first = aes256_encrypted(key, mixed)@;
    let made = cbc_encrypted(key, chain, all);
    assert(made.take(16) =~= first);
    assert(made.skip(16) =~= cbc_encrypted(key, first, rest));
    let opened = aes256_decrypted(key, block)@;
    let read = cbc_decrypted(key, chain, all);
    assert(read.take(16) =~= Seq::new(16, |i: int| opened[i] ^ chain[i]));
    assert(read.skip(16) =~= cbc_decrypted(key, block, rest));
}

} // verus!
