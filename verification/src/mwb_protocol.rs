//! Packages of the Mouse Without Borders wire protocol: their layout, the
//! checksum and magic number that seal them, and how each kind is built.
//!
//! A package is 32 bytes long, or 64 for the "big" kinds. Byte 0 is the type;
//! bytes 1 to 3 carry the checksum and the magic number on the wire and are
//! zero otherwise; then come the id, the source and the destination machine,
//! each as a little-endian `u32`; the rest depends on the type.

use vstd::prelude::*;
use vstd::utf8::*;

verus! {

pub const PACKAGE_SIZE: usize = 32;

pub const PACKAGE_SIZE_EX: usize = 64;

pub const PACKAGE_TYPE_HI: u8 = 2;

pub const PACKAGE_TYPE_HELLO: u8 = 3;

pub const PACKAGE_TYPE_BYEBYE: u8 = 4;

pub const PACKAGE_TYPE_HEARTBEAT: u8 = 20;

/// Sent right before `PACKAGE_TYPE_MACHINE_SWITCHED` when control moves.
pub const PACKAGE_TYPE_HIDE_MOUSE: u8 = 50;

/// The beat that announces a big payload, and the handshake of the pulling
/// side of a clipboard-server connection.
pub const PACKAGE_TYPE_CLIPBOARD: u8 = 69;

pub const PACKAGE_TYPE_CLIPBOARD_DATA_END: u8 = 76;

/// Tells one machine that it is now the active one.
pub const PACKAGE_TYPE_MACHINE_SWITCHED: u8 = 77;

/// The handshake of the pushing side of a clipboard-server connection.
pub const PACKAGE_TYPE_CLIPBOARD_PUSH: u8 = 79;

pub const PACKAGE_TYPE_KEYBOARD: u8 = 122;

pub const PACKAGE_TYPE_MOUSE: u8 = 123;

pub const PACKAGE_TYPE_CLIPBOARD_TEXT: u8 = 124;

pub const PACKAGE_TYPE_CLIPBOARD_IMAGE: u8 = 125;

pub const PACKAGE_TYPE_HANDSHAKE: u8 = 126;

pub const PACKAGE_TYPE_HANDSHAKE_ACK: u8 = 127;

/// The destination that stands for every machine.
pub const ID_ALL: u32 = 255;

/// The four bytes of a number, the lowest first.
pub open spec fn le_bytes(v: u32) -> Seq<u8> {
    seq![
        (v % 0x100) as u8,
        (v / 0x100 % 0x100) as u8,
        (v / 0x1_0000 % 0x100) as u8,
        (v / 0x100_0000) as u8,
    ]
}

/// The number in the four bytes at `offset`, the lowest byte first.
pub open spec fn le_u32(s: Seq<u8>, offset: int) -> u32 {
    (s[offset] + 0x100 * s[offset + 1] + 0x1_0000 * s[offset + 2] + 0x100_0000 * s[offset + 3])
        as u32
}

/// `s` with `part` written over it from `offset` on.
pub open spec fn overwritten(s: Seq<u8>, offset: int, part: Seq<u8>) -> Seq<u8> {
    Seq::new(
        s.len(),
        |i: int|
            if offset <= i < offset + part.len() {
                part[i - offset]
            } else {
                s[i]
            },
    )
}

pub open spec fn zeros(n: nat) -> Seq<u8> {
    Seq::new(n, |i: int| 0u8)
}

pub open spec fn spaces(n: nat) -> Seq<u8> {
    Seq::new(n, |i: int| 0x20u8)
}

/// A number that is packed and unpacked at the same place is the same number,
/// and packing touches nothing else.
pub proof fn pack_then_unpack(s: Seq<u8>, offset: int, value: u32)
    requires
        0 <= offset,
        offset + 4 <= s.len(),
    ensures
        le_u32(overwritten(s, offset, le_bytes(value)), offset) == value,
        forall|i: int|
            0 <= i < s.len() && !(offset <= i < offset + 4) ==> #[trigger] overwritten(
                s,
                offset,
                le_bytes(value),
            )[i] == s[i],
{
}

/// Bytes that are unpacked and packed again are the same bytes.
pub proof fn unpack_then_pack(s: Seq<u8>, offset: int)
    requires
        0 <= offset,
        offset + 4 <= s.len(),
    ensures
        le_bytes(le_u32(s, offset)) == s.subrange(offset, offset + 4),
        overwritten(s, offset, le_bytes(le_u32(s, offset))) == s,
{
    let a = s[offset];
    let b = s[offset + 1];
    let c = s[offset + 2];
    let d = s[offset + 3];
    let v = le_u32(s, offset);
    assert(v % 0x100 == a && v / 0x100 % 0x100 == b && v / 0x1_0000 % 0x100 == c && v / 0x100_0000
        == d) by (bit_vector)
        requires
            v == a + 0x100 * b + 0x1_0000 * c + 0x100_0000 * d,
    ;
    assert(le_bytes(v) =~= s.subrange(offset, offset + 4));
    assert(overwritten(s, offset, le_bytes(le_u32(s, offset))) =~= s);
}

/// Writes `value` into `buf` at `offset`, the lowest byte first.
pub fn pack_u32_le(buf: &mut [u8], offset: usize, value: u32)
    requires
        offset + 4 <= old(buf)@.len(),
    ensures
        final(buf)@ == overwritten(old(buf)@, offset as int, le_bytes(value)),
{
    buf[offset] = (value % 0x100) as u8;
    buf[offset + 1] = (value / 0x100 % 0x100) as u8;
    buf[offset + 2] = (value / 0x1_0000 % 0x100) as u8;
    buf[offset + 3] = (value / 0x100_0000) as u8;
    assert(buf@ =~= overwritten(old(buf)@, offset as int, le_bytes(value)));
}

/// Reads the number at `offset`, the lowest byte first.
pub fn unpack_u32_le(buf: &[u8], offset: usize) -> (r: u32)
    requires
        offset + 4 <= buf@.len(),
    ensures
        r == le_u32(buf@, offset as int),
{
    buf[offset] as u32 + 0x100 * (buf[offset + 1] as u32) + 0x1_0000 * (buf[offset + 2] as u32)
        + 0x100_0000 * (buf[offset + 3] as u32)
}

/// Copies `part` into `buf` from `offset` on.
pub fn copy_into(buf: &mut [u8], offset: usize, part: &[u8])
    requires
        offset + part@.len() <= old(buf)@.len(),
    ensures
        final(buf)@ == overwritten(old(buf)@, offset as int, part@),
{
    let n: usize = buf.len();
    let mut i: usize = 0;
    while i < part.len()
        invariant
            i <= part@.len(),
            offset + part@.len() <= n,
            n == buf@.len(),
            n == old(buf)@.len(),
            buf@ == overwritten(old(buf)@, offset as int, part@.take(i as int)),
        decreases part@.len() - i,
    {
        buf[offset + i] = part[i];
        i += 1;
        assert(buf@ =~= overwritten(old(buf)@, offset as int, part@.take(i as int)));
    }
    assert(buf@ =~= overwritten(old(buf)@, offset as int, part@));
}

/// Appends bytes to others.
pub fn append_bytes(v: &mut Vec<u8>, more: &[u8])
    ensures
        final(v)@ == old(v)@ + more@,
{
    let mut i: usize = 0;
    assert(v@ =~= old(v)@ + more@.take(0));
    while i < more.len()
        invariant
            i <= more@.len(),
            v@ == old(v)@ + more@.take(i as int),
        decreases more@.len() - i,
    {
        v.push(more[i]);
        i += 1;
        assert(v@ =~= old(v)@ + more@.take(i as int));
    }
    assert(more@.take(i as int) =~= more@);
}

/// The sum of some bytes.
pub open spec fn byte_sum(s: Seq<u8>) -> nat
    decreases s.len(),
{
    if s.len() == 0 {
        0
    } else {
        byte_sum(s.drop_last()) + s.last() as nat
    }
}

/// The checksum of a package: the sum of bytes 2 to 31, without carry.
pub open spec fn checksum(s: Seq<u8>) -> u8 {
    (byte_sum(s.subrange(2, 32)) % 0x100) as u8
}

/// A package with the magic number and the checksum written into bytes 1 to 3.
pub open spec fn sealed(s: Seq<u8>, magic_number: u32) -> Seq<u8> {
    let marked = s.update(3, (magic_number / 0x100_0000) as u8).update(
        2,
        (magic_number / 0x1_0000 % 0x100) as u8,
    );
    marked.update(1, checksum(marked))
}

/// A received package carries the upper half of the magic number and a right
/// checksum.
pub open spec fn accepted(s: Seq<u8>, magic_number: u32) -> bool {
    &&& 0x100 * s[3] + s[2] == magic_number / 0x1_0000
    &&& s[1] == checksum(s)
}

/// A package with bytes 1 to 3 set to zero.
pub open spec fn cleaned(s: Seq<u8>) -> Seq<u8> {
    s.update(1, 0u8).update(2, 0u8).update(3, 0u8)
}

/// What one side seals, the other accepts under the same magic number, and
/// after cleaning it is the package that was sealed.
pub proof fn seal_then_validate(s: Seq<u8>, magic_number: u32)
    requires
        s.len() >= 32,
    ensures
        accepted(sealed(s, magic_number), magic_number),
        cleaned(sealed(s, magic_number)) == cleaned(s),
{
    let marked = s.update(3, (magic_number / 0x100_0000) as u8).update(
        2,
        (magic_number / 0x1_0000 % 0x100) as u8,
    );
    assert(sealed(s, magic_number).subrange(2, 32) =~= marked.subrange(2, 32));
    assert(cleaned(sealed(s, magic_number)) =~= cleaned(s));
}

/// A package is accepted under magic numbers of one upper half only.
pub proof fn accepted_under_one_magic(s: Seq<u8>, first: u32, second: u32)
    requires
        s.len() >= 32,
        accepted(s, first),
        accepted(s, second),
    ensures
        first / 0x1_0000 == second / 0x1_0000,
{
}

proof fn lemma_byte_sum_update(s: Seq<u8>, i: int, b: u8)
    requires
        0 <= i < s.len(),
    ensures
        byte_sum(s.update(i, b)) == byte_sum(s) - s[i] + b,
    decreases s.len(),
{
    if i == s.len() - 1 {
        assert(s.update(i, b).drop_last() =~= s.drop_last());
    } else {
        lemma_byte_sum_update(s.drop_last(), i, b);
        assert(s.update(i, b).drop_last() =~= s.drop_last().update(i, b));
    }
}

/// An accepted package is not accepted once one of its bytes 1 to 31 has
/// changed.
pub proof fn one_changed_byte_is_noticed(s: Seq<u8>, magic_number: u32, i: int, b: u8)
    requires
        s.len() >= 32,
        accepted(s, magic_number),
        1 <= i < 32,
        b != s[i],
    ensures
        !accepted(s.update(i, b), magic_number),
{
    let t = s.update(i, b);
    if i == 1 {
        assert(t.subrange(2, 32) =~= s.subrange(2, 32));
    } else {
        assert(t.subrange(2, 32) =~= s.subrange(2, 32).update(i - 2, b));
        lemma_byte_sum_update(s.subrange(2, 32), i - 2, b);
    }
}

/// The checksum of bytes 2 to 31.
pub(crate) fn compute_checksum(buf: &[u8]) -> (r: u8)
    requires
        buf@.len() >= 32,
    ensures
        r == checksum(buf@),
{
    let mut sum: u8 = 0;
    let mut i: usize = 2;
    assert(buf@.subrange(2, 2) =~= Seq::<u8>::empty());
    while i < PACKAGE_SIZE
        invariant
            2 <= i <= 32,
            buf@.len() >= 32,
            sum == byte_sum(buf@.subrange(2, i as int)) % 0x100,
        decreases 32 - i,
    {
        sum = sum.wrapping_add(buf[i]);
        assert(buf@.subrange(2, i + 1).drop_last() =~= buf@.subrange(2, i as int));
        i += 1;
    }
    sum
}

/// Seals an outgoing package: the upper half of the magic number goes into
/// bytes 2 and 3, the checksum of bytes 2 to 31 into byte 1. The second half
/// of a big package is not covered.
pub fn finalize_send_buf(buf: &mut [u8], magic_number: u32)
    requires
        old(buf)@.len() >= 32,
    ensures
        final(buf)@ == sealed(old(buf)@, magic_number),
{
    buf[3] = (magic_number / 0x100_0000) as u8;
    buf[2] = (magic_number / 0x1_0000 % 0x100) as u8;
    let sum: u8 = compute_checksum(buf);
    buf[1] = sum;
}

/// Checks the magic number and the checksum of a received package and sets
/// bytes 1 to 3 to zero, whether they were right or not.
pub fn validate_and_clean_recv_buf(buf: &mut [u8], magic_number: u32) -> (ok: bool)
    requires
        old(buf)@.len() >= 32,
    ensures
        ok == accepted(old(buf)@, magic_number),
        final(buf)@ == cleaned(old(buf)@),
{
    let magic: u32 = 0x100 * (buf[3] as u32) + buf[2] as u32;
    let sum: u8 = compute_checksum(buf);
    let ok: bool = magic == magic_number / 0x1_0000 && buf[1] == sum;
    buf[1] = 0;
    buf[2] = 0;
    buf[3] = 0;
    ok
}

/// The types whose packages have a second half of 32 bytes: hello, awake,
/// heartbeat and its extension, both handshakes, the clipboard kinds, and
/// every type with the matrix bit.
pub open spec fn big_package(t: u8) -> bool {
    ||| t == 3 || t == 20 || t == 21 || t == 51
    ||| t == 69 || t == 76 || t == 78 || t == 79
    ||| t == 124 || t == 125 || t == 126 || t == 127
    ||| t >= 128
}

/// Whether packages of this type have a second half.
pub fn is_big_package(t: u8) -> (r: bool)
    ensures
        r == big_package(t),
{
    matches!(t, 3 | 21 | 20 | 51 | 126 | 127 | 79 | 69 | 78 | 125 | 124 | 76) || t >= 128
}

/// The first 16 bytes of a package that is not sealed.
pub open spec fn header(t: u8, id: u32, src: u32, des: u32) -> Seq<u8> {
    seq![t, 0u8, 0u8, 0u8] + le_bytes(id) + le_bytes(src) + le_bytes(des)
}

/// The machine name as it stands in a package: its UTF-8 bytes, filled up with
/// spaces or cut off at 32 bytes.
pub open spec fn name_field(name: Seq<char>) -> Seq<u8> {
    (encode_utf8(name) + spaces(32)).take(32)
}

/// Four numbers, one after the other.
pub open spec fn four_numbers(v: Seq<u32>) -> Seq<u8> {
    le_bytes(v[0]) + le_bytes(v[1]) + le_bytes(v[2]) + le_bytes(v[3])
}

/// A number with all its bits flipped.
pub open spec fn flipped(v: u32) -> u32 {
    (u32::MAX - v) as u32
}

/// A handshake: our machine as the source, nobody as the destination, four
/// random numbers as the challenge, and our name.
pub open spec fn handshake(id: u32, src: u32, challenge: Seq<u32>, name: Seq<char>) -> Seq<u8> {
    header(PACKAGE_TYPE_HANDSHAKE, id, src, 0) + four_numbers(challenge) + name_field(name)
}

/// The answer to a handshake: the same package with our source and name, the
/// four numbers of the challenge flipped.
pub open spec fn handshake_ack(incoming: Seq<u8>, src: u32, name: Seq<char>) -> Seq<u8> {
    seq![PACKAGE_TYPE_HANDSHAKE_ACK] + incoming.subrange(1, 8) + le_bytes(src) + incoming.subrange(
        12,
        16,
    ) + four_numbers(
        seq![
            flipped(le_u32(incoming, 16)),
            flipped(le_u32(incoming, 20)),
            flipped(le_u32(incoming, 24)),
            flipped(le_u32(incoming, 28)),
        ],
    ) + name_field(name)
}

/// An answer carries the flipped numbers of our challenge.
pub open spec fn challenge_met(ack: Seq<u8>, challenge: Seq<u32>) -> bool {
    &&& le_u32(ack, 16) == flipped(challenge[0])
    &&& le_u32(ack, 20) == flipped(challenge[1])
    &&& le_u32(ack, 24) == flipped(challenge[2])
    &&& le_u32(ack, 28) == flipped(challenge[3])
}

/// The four numbers behind a header are read where they were written.
pub proof fn lemma_four_numbers_at_16(head: Seq<u8>, v: Seq<u32>, tail: Seq<u8>)
    requires
        head.len() == 16,
        v.len() == 4,
    ensures
        le_u32(head + four_numbers(v) + tail, 16) == v[0],
        le_u32(head + four_numbers(v) + tail, 20) == v[1],
        le_u32(head + four_numbers(v) + tail, 24) == v[2],
        le_u32(head + four_numbers(v) + tail, 28) == v[3],
{
    let s = head + four_numbers(v) + tail;
    assert forall|i: int| 0 <= i < 16 implies #[trigger] s[16 + i] == four_numbers(v)[i] by {}
    assert(four_numbers(v).subrange(0, 4) =~= le_bytes(v[0]));
    assert(four_numbers(v).subrange(4, 8) =~= le_bytes(v[1]));
    assert(four_numbers(v).subrange(8, 12) =~= le_bytes(v[2]));
    assert(four_numbers(v).subrange(12, 16) =~= le_bytes(v[3]));
    assert(s.subrange(16, 20) =~= le_bytes(v[0]));
    assert(s.subrange(20, 24) =~= le_bytes(v[1]));
    assert(s.subrange(24, 28) =~= le_bytes(v[2]));
    assert(s.subrange(28, 32) =~= le_bytes(v[3]));
    lemma_le_u32_of_subrange(s, 16);
    lemma_le_u32_of_subrange(s, 20);
    lemma_le_u32_of_subrange(s, 24);
    lemma_le_u32_of_subrange(s, 28);
    lemma_le_bytes_round_trip(v[0]);
    lemma_le_bytes_round_trip(v[1]);
    lemma_le_bytes_round_trip(v[2]);
    lemma_le_bytes_round_trip(v[3]);
}

proof fn lemma_le_u32_of_subrange(s: Seq<u8>, offset: int)
    requires
        0 <= offset,
        offset + 4 <= s.len(),
    ensures
        le_u32(s, offset) == le_u32(s.subrange(offset, offset + 4), 0),
{
}

proof fn lemma_le_bytes_round_trip(v: u32)
    ensures
        le_u32(le_bytes(v), 0) == v,
{
}

/// Every handshake is met by the answer to it, whoever answers.
pub proof fn handshake_is_met_by_its_ack(
    id: u32,
    src: u32,
    challenge: Seq<u32>,
    name: Seq<char>,
    peer: u32,
    peer_name: Seq<char>,
)
    requires
        challenge.len() == 4,
    ensures
        challenge_met(
            handshake_ack(handshake(id, src, challenge, name), peer, peer_name),
            challenge,
        ),
{
    let sent = handshake(id, src, challenge, name);
    lemma_four_numbers_at_16(
        header(PACKAGE_TYPE_HANDSHAKE, id, src, 0),
        challenge,
        name_field(name),
    );
    let answer = seq![
        flipped(le_u32(sent, 16)),
        flipped(le_u32(sent, 20)),
        flipped(le_u32(sent, 24)),
        flipped(le_u32(sent, 28)),
    ];
    let head = seq![PACKAGE_TYPE_HANDSHAKE_ACK] + sent.subrange(1, 8) + le_bytes(peer)
        + sent.subrange(12, 16);
    lemma_four_numbers_at_16(head, answer, name_field(peer_name));
}

/// An answer meets the challenge of no other handshake.
pub proof fn ack_meets_one_challenge(ack: Seq<u8>, first: Seq<u32>, second: Seq<u32>)
    requires
        first.len() == 4,
        second.len() == 4,
        challenge_met(ack, first),
        challenge_met(ack, second),
    ensures
        first == second,
{
    assert(first =~= second);
}

/// Writes the machine name into bytes 32 to 63.
fn write_name(buf: &mut [u8; 64], machine_name: &str)
    ensures
        final(buf)@ == old(buf)@.take(32) + name_field(machine_name@),
{
    let bytes: &[u8] = machine_name.as_bytes();
    let mut i: usize = 0;
    while i < 32
        invariant
            i <= 32,
            bytes@ == encode_utf8(machine_name@),
            buf@ == overwritten(old(buf)@, 32, name_field(machine_name@).take(i as int)),
        decreases 32 - i,
    {
        if i < bytes.len() {
            buf[32 + i] = bytes[i];
        } else {
            buf[32 + i] = 0x20;
        }
        i += 1;
        assert(buf@ =~= overwritten(old(buf)@, 32, name_field(machine_name@).take(i as int)));
    }
    assert(buf@ =~= old(buf)@.take(32) + name_field(machine_name@));
}

/// Writes type, id, source and destination.
pub fn write_header(buf: &mut [u8], t: u8, id: u32, src: u32, des: u32)
    requires
        old(buf)@.len() >= 32,
        old(buf)@ == zeros(old(buf)@.len()),
    ensures
        final(buf)@ == header(t, id, src, des) + zeros((old(buf)@.len() - 16) as nat),
{
    buf[0] = t;
    pack_u32_le(buf, 4, id);
    pack_u32_le(buf, 8, src);
    pack_u32_le(buf, 12, des);
    assert(buf@ =~= header(t, id, src, des) + zeros((old(buf)@.len() - 16) as nat));
}

/// Builds a handshake. `src_id` should be a real machine id, neither 0 nor
/// 255: the peer registers this machine under it.
pub fn build_handshake(id: u32, src_id: u32, machine1_4: [u32; 4], machine_name: &str) -> (r: [u8;
    64])
    ensures
        r@ == handshake(id, src_id, machine1_4@, machine_name@),
{
    let mut buf: [u8; 64] = [0u8; 64];
    assert(buf@ =~= zeros(64));
    write_header(&mut buf, PACKAGE_TYPE_HANDSHAKE, id, src_id, 0);
    pack_u32_le(&mut buf, 16, machine1_4[0]);
    pack_u32_le(&mut buf, 20, machine1_4[1]);
    pack_u32_le(&mut buf, 24, machine1_4[2]);
    pack_u32_le(&mut buf, 28, machine1_4[3]);
    write_name(&mut buf, machine_name);
    assert(buf@ =~= handshake(id, src_id, machine1_4@, machine_name@));
    buf
}

/// Builds the answer to a handshake: the challenge comes back with every bit
/// flipped, under our own source id and name.
pub fn build_handshake_ack(incoming: &[u8], src_id: u32, our_name: &str) -> (r: [u8; 64])
    requires
        incoming@.len() >= 64,
    ensures
        r@ == handshake_ack(incoming@, src_id, our_name@),
{
    let mut ack: [u8; 64] = [0u8; 64];
    copy_into(&mut ack, 0, slice_to(incoming, 64));
    ack[0] = PACKAGE_TYPE_HANDSHAKE_ACK;
    pack_u32_le(&mut ack, 8, src_id);
    pack_u32_le(&mut ack, 16, u32::MAX - unpack_u32_le(incoming, 16));
    pack_u32_le(&mut ack, 20, u32::MAX - unpack_u32_le(incoming, 20));
    pack_u32_le(&mut ack, 24, u32::MAX - unpack_u32_le(incoming, 24));
    pack_u32_le(&mut ack, 28, u32::MAX - unpack_u32_le(incoming, 28));
    write_name(&mut ack, our_name);
    assert(ack@ =~= handshake_ack(incoming@, src_id, our_name@));
    ack
}

/// The first `n` bytes.
fn slice_to(s: &[u8], n: usize) -> (r: &[u8])
    requires
        n <= s@.len(),
    ensures
        r@ == s@.take(n as int),
{
    vstd::slice::slice_subrange(s, 0, n)
}

/// Whether an answer carries the flipped numbers of our challenge.
pub fn handshake_matches(ack: &[u8], machine1_4: &[u32; 4]) -> (r: bool)
    requires
        ack@.len() >= 32,
    ensures
        r == challenge_met(ack@, machine1_4@),
{
    unpack_u32_le(ack, 16) == u32::MAX - machine1_4[0] && unpack_u32_le(ack, 20) == u32::MAX
        - machine1_4[1] && unpack_u32_le(ack, 24) == u32::MAX - machine1_4[2] && unpack_u32_le(
        ack,
        28,
    ) == u32::MAX - machine1_4[3]
}

/// The package that announces a big payload to every machine.
pub open spec fn clipboard_beat(id: u32, src: u32) -> Seq<u8> {
    header(PACKAGE_TYPE_CLIPBOARD, id, src, ID_ALL) + zeros(48)
}

/// The package that tells one machine that it is the active one.
pub open spec fn machine_switched(id: u32, src: u32, des: u32) -> Seq<u8> {
    header(PACKAGE_TYPE_MACHINE_SWITCHED, id, src, des) + zeros(16)
}

/// The package that hides the cursor of one machine.
pub open spec fn hide_mouse(id: u32, src: u32, des: u32) -> Seq<u8> {
    header(PACKAGE_TYPE_HIDE_MOUSE, id, src, des) + zeros(16)
}

/// The handshake on a clipboard-server connection: type, source and name; all
/// else is zero.
pub open spec fn clipboard_handshake(t: u8, src: u32, name: Seq<char>) -> Seq<u8> {
    header(t, 0, src, 0) + zeros(16) + name_field(name)
}

/// Builds the beat that announces a big payload.
pub fn build_clipboard_beat(id: u32, src_id: u32) -> (r: [u8; 64])
    ensures
        r@ == clipboard_beat(id, src_id),
{
    let mut buf: [u8; 64] = [0u8; 64];
    assert(buf@ =~= zeros(64));
    write_header(&mut buf, PACKAGE_TYPE_CLIPBOARD, id, src_id, ID_ALL);
    buf
}

/// Builds the package that makes the destination the active machine.
pub fn build_machine_switched(id: u32, src_id: u32, des_id: u32) -> (r: [u8; 32])
    ensures
        r@ == machine_switched(id, src_id, des_id),
{
    let mut buf: [u8; 32] = [0u8; 32];
    assert(buf@ =~= zeros(32));
    write_header(&mut buf, PACKAGE_TYPE_MACHINE_SWITCHED, id, src_id, des_id);
    buf
}

/// Builds the package that hides the destination's cursor.
pub fn build_hide_mouse(id: u32, src_id: u32, des_id: u32) -> (r: [u8; 32])
    ensures
        r@ == hide_mouse(id, src_id, des_id),
{
    let mut buf: [u8; 32] = [0u8; 32];
    assert(buf@ =~= zeros(32));
    write_header(&mut buf, PACKAGE_TYPE_HIDE_MOUSE, id, src_id, des_id);
    buf
}

/// Builds the handshake of a clipboard-server connection. `package_type` says
/// which side this is: `PACKAGE_TYPE_CLIPBOARD` pulls,
/// `PACKAGE_TYPE_CLIPBOARD_PUSH` pushes. This handshake is never sealed.
pub fn build_clipboard_handshake(package_type: u8, src_id: u32, machine_name: &str) -> (r: [u8; 64])
    ensures
        r@ == clipboard_handshake(package_type, src_id, machine_name@),
{
    let mut buf: [u8; 64] = [0u8; 64];
    assert(buf@ =~= zeros(64));
    write_header(&mut buf, package_type, 0, src_id, 0);
    write_name(&mut buf, machine_name);
    assert(buf@ =~= clipboard_handshake(package_type, src_id, machine_name@));
    buf
}

/// A number in four bytes, the lowest first, and read in the same way.
pub proof fn numbers_are_little_endian(v: u32, s: Seq<u8>, offset: int)
    ensures
        le_bytes(v).len() == 4,
        le_bytes(v)[0] + 0x100 * le_bytes(v)[1] + 0x1_0000 * le_bytes(v)[2] + 0x100_0000
            * le_bytes(v)[3] == v,
        le_u32(s, offset) == s[offset] + 0x100 * s[offset + 1] + 0x1_0000 * s[offset + 2]
            + 0x100_0000 * s[offset + 3],
{
    lemma_le_bytes_round_trip(v);
}

/// The checksum is a sum: of zeros it is zero, and a byte between 2 and 31 that
/// grows has it grow by as much, around 256. No other byte counts.
pub proof fn checksum_is_a_sum(s: Seq<u8>, i: int, b: u8)
    requires
        s.len() >= 32,
        0 <= i < s.len(),
    ensures
        (forall|k: int| 2 <= k < 32 ==> #[trigger] s[k] == 0) ==> checksum(s) == 0,
        2 <= i < 32 ==> (checksum(s.update(i, b)) - checksum(s) - (b - s[i])) % 0x100 == 0,
        !(2 <= i < 32) ==> checksum(s.update(i, b)) == checksum(s),
{
    let part = s.subrange(2, 32);
    if forall|k: int| 2 <= k < 32 ==> #[trigger] s[k] == 0 {
        assert forall|k: int| 0 <= k < part.len() implies #[trigger] part[k] == 0 by {
            assert(s[k + 2] == 0);
        }
        lemma_sum_of_zeros(part);
    }
    if 2 <= i < 32 {
        assert(s.update(i, b).subrange(2, 32) =~= part.update(i - 2, b));
        lemma_byte_sum_update(part, i - 2, b);
    } else {
        assert(s.update(i, b).subrange(2, 32) =~= part);
    }
}

proof fn lemma_sum_of_zeros(s: Seq<u8>)
    requires
        forall|k: int| 0 <= k < s.len() ==> #[trigger] s[k] == 0,
    ensures
        byte_sum(s) == 0,
    decreases s.len(),
{
    if s.len() > 0 {
        lemma_sum_of_zeros(s.drop_last());
    }
}

/// A seal holds the upper half of the magic number, the highest byte last, and
/// the checksum, and leaves everything else. A package is genuine exactly where
/// sealing it changes nothing.
pub proof fn seals_hold_magic_and_checksum(s: Seq<u8>, magic_number: u32, i: int)
    requires
        s.len() >= 32,
    ensures
        sealed(s, magic_number).len() == s.len(),
        0x100 * sealed(s, magic_number)[3] + sealed(s, magic_number)[2] == magic_number / 0x1_0000,
        sealed(s, magic_number)[1] == checksum(sealed(s, magic_number)),
        0 <= i < s.len() && !(1 <= i <= 3) ==> sealed(s, magic_number)[i] == s[i],
        accepted(s, magic_number) <==> sealed(s, magic_number) == s,
{
    let marked = s.update(3, (magic_number / 0x100_0000) as u8).update(
        2,
        (magic_number / 0x1_0000 % 0x100) as u8,
    );
    assert(sealed(s, magic_number).subrange(2, 32) =~= marked.subrange(2, 32));
    let hi = (magic_number / 0x100_0000) as u8;
    let lo = (magic_number / 0x1_0000 % 0x100) as u8;
    assert(magic_number / 0x100_0000 == magic_number / 0x1_0000 / 0x100);
    assert(0x100 * hi + lo == magic_number / 0x1_0000);
    if accepted(s, magic_number) {
        assert(s[3] == hi && s[2] == lo);
        assert(marked =~= s);
        assert(sealed(s, magic_number) =~= s);
    }
}

/// Cleaning takes the seal off and leaves everything else.
pub proof fn cleaning_takes_the_seal_off(s: Seq<u8>, i: int)
    requires
        s.len() >= 32,
        0 <= i < s.len(),
    ensures
        cleaned(s).len() == s.len(),
        cleaned(s)[i] == if 1 <= i <= 3 {
            0u8
        } else {
            s[i]
        },
{
}

/// Twelve types are big, and every type with the matrix bit; no other is.
pub proof fn big_types_are_listed(t: u8)
    ensures
        big_package(t) <==> t & 0x80 != 0 || seq![
            3u8,
            20,
            21,
            51,
            69,
            76,
            78,
            79,
            124,
            125,
            126,
            127,
        ].contains(t),
{
    let listed = seq![3u8, 20, 21, 51, 69, 76, 78, 79, 124, 125, 126, 127];
    assert(t & 0x80 != 0 <==> t >= 128) by (bit_vector);
    assert(listed[0] == 3 && listed[1] == 20 && listed[2] == 21 && listed[3] == 51 && listed[4]
        == 69 && listed[5] == 76 && listed[6] == 78 && listed[7] == 79 && listed[8] == 124
        && listed[9] == 125 && listed[10] == 126 && listed[11] == 127);
}

/// The four numbers at the start of a package: the type, the id, the source and
/// the destination.
pub open spec fn is_addressed(s: Seq<u8>, t: u8, id: u32, src: u32, des: u32) -> bool {
    &&& s.len() >= 32
    &&& s[0] == t && s[1] == 0 && s[2] == 0 && s[3] == 0
    &&& le_u32(s, 4) == id
    &&& le_u32(s, 8) == src
    &&& le_u32(s, 12) == des
}

/// Some bytes are all zero from one place on to another.
pub open spec fn is_blank(s: Seq<u8>, from: int, to: int) -> bool {
    forall|i: int| from <= i < to ==> #[trigger] s[i] == 0
}

/// A header tells type, id, source and destination, whatever follows it.
pub proof fn lemma_addressed(t: u8, id: u32, src: u32, des: u32, rest: Seq<u8>)
    requires
        rest.len() >= 16,
    ensures
        is_addressed(header(t, id, src, des) + rest, t, id, src, des),
{
    let s = header(t, id, src, des) + rest;
    assert(s.subrange(4, 8) =~= le_bytes(id));
    assert(s.subrange(8, 12) =~= le_bytes(src));
    assert(s.subrange(12, 16) =~= le_bytes(des));
    lemma_le_u32_of_subrange(s, 4);
    lemma_le_u32_of_subrange(s, 8);
    lemma_le_u32_of_subrange(s, 12);
    lemma_le_bytes_round_trip(id);
    lemma_le_bytes_round_trip(src);
    lemma_le_bytes_round_trip(des);
}

/// A handshake is a package of type 126 to nobody, with the challenge behind
/// its head and the name behind that.
pub proof fn handshake_layout(id: u32, src: u32, challenge: Seq<u32>, name: Seq<char>, i: int)
    requires
        challenge.len() == 4,
        0 <= i < 4,
    ensures
        handshake(id, src, challenge, name).len() == 64,
        is_addressed(handshake(id, src, challenge, name), 126, id, src, 0),
        le_u32(handshake(id, src, challenge, name), 16 + 4 * i) == challenge[i],
        handshake(id, src, challenge, name).skip(32) == name_field(name),
{
    let s = handshake(id, src, challenge, name);
    assert(s =~= header(PACKAGE_TYPE_HANDSHAKE, id, src, 0) + (four_numbers(challenge) + name_field(
        name,
    )));
    lemma_addressed(
        PACKAGE_TYPE_HANDSHAKE,
        id,
        src,
        0,
        four_numbers(challenge) + name_field(name),
    );
    lemma_four_numbers_at_16(
        header(PACKAGE_TYPE_HANDSHAKE, id, src, 0),
        challenge,
        name_field(name),
    );
    assert(s.skip(32) =~= name_field(name));
}

/// The answer to a handshake is a package of type 127 under our own id, to whom
/// the handshake went, with its id and every bit of its challenge flipped, and
/// our name.
pub proof fn ack_layout(incoming: Seq<u8>, src: u32, name: Seq<char>, i: int)
    requires
        incoming.len() >= 64,
        0 <= i < 4,
    ensures
        ({
            let ack = handshake_ack(incoming, src, name);
            &&& ack.len() == 64
            &&& ack[0] == 127
            &&& ack.subrange(1, 4) == incoming.subrange(1, 4)
            &&& le_u32(ack, 4) == le_u32(incoming, 4)
            &&& le_u32(ack, 8) == src
            &&& le_u32(ack, 12) == le_u32(incoming, 12)
            &&& le_u32(ack, 16 + 4 * i) == !le_u32(incoming, 16 + 4 * i)
            &&& ack.skip(32) == name_field(name)
        }),
{
    let ack = handshake_ack(incoming, src, name);
    let head = seq![PACKAGE_TYPE_HANDSHAKE_ACK] + incoming.subrange(1, 8) + le_bytes(src)
        + incoming.subrange(12, 16);
    let answer = seq![
        flipped(le_u32(incoming, 16)),
        flipped(le_u32(incoming, 20)),
        flipped(le_u32(incoming, 24)),
        flipped(le_u32(incoming, 28)),
    ];
    lemma_four_numbers_at_16(head, answer, name_field(name));
    let v = le_u32(incoming, 16 + 4 * i);
    lemma_flipped(v);
    assert(ack.subrange(1, 4) =~= incoming.subrange(1, 4));
    assert(ack.subrange(4, 8) =~= incoming.subrange(4, 8));
    assert(ack.subrange(12, 16) =~= incoming.subrange(12, 16));
    assert(ack.subrange(8, 12) =~= le_bytes(src));
    lemma_le_u32_of_subrange(ack, 4);
    lemma_le_u32_of_subrange(incoming, 4);
    lemma_le_u32_of_subrange(ack, 12);
    lemma_le_u32_of_subrange(incoming, 12);
    lemma_le_u32_of_subrange(ack, 8);
    lemma_le_bytes_round_trip(src);
    assert(ack.skip(32) =~= name_field(name));
}

/// Flipping a number flips every bit.
pub proof fn lemma_flipped(v: u32)
    ensures
        flipped(v) == !v,
{
    let w = !v;
    assert(v + w == 0xFFFF_FFFF) by (bit_vector)
        requires
            w == !v,
    ;
}

/// A name fills 32 bytes: with as much of its UTF-8 as fits, and with spaces
/// behind it.
pub proof fn names_fill_their_field(name: Seq<char>, i: int)
    requires
        0 <= i < 32,
    ensures
        name_field(name).len() == 32,
        name_field(name)[i] == if i < encode_utf8(name).len() {
            encode_utf8(name)[i]
        } else {
            0x20u8
        },
{
}

/// The packages that announce a file: the beat of type 69 to everyone, and to
/// one machine the one of type 50 that hides its cursor and the one of type 77
/// that makes it the active one. They carry nothing else.
pub proof fn announcements_layout(id: u32, src: u32, des: u32)
    ensures
        clipboard_beat(id, src).len() == 64,
        is_addressed(clipboard_beat(id, src), 69, id, src, 255),
        is_blank(clipboard_beat(id, src), 16, 64),
        hide_mouse(id, src, des).len() == 32,
        is_addressed(hide_mouse(id, src, des), 50, id, src, des),
        is_blank(hide_mouse(id, src, des), 16, 32),
        machine_switched(id, src, des).len() == 32,
        is_addressed(machine_switched(id, src, des), 77, id, src, des),
        is_blank(machine_switched(id, src, des), 16, 32),
{
    lemma_addressed(PACKAGE_TYPE_CLIPBOARD, id, src, ID_ALL, zeros(48));
    lemma_addressed(PACKAGE_TYPE_HIDE_MOUSE, id, src, des, zeros(16));
    lemma_addressed(PACKAGE_TYPE_MACHINE_SWITCHED, id, src, des, zeros(16));
}

/// The handshake on a clipboard connection: type, source and name, and zeros.
pub proof fn clipboard_handshake_layout(t: u8, src: u32, name: Seq<char>)
    ensures
        clipboard_handshake(t, src, name).len() == 64,
        is_addressed(clipboard_handshake(t, src, name), t, 0, src, 0),
        is_blank(clipboard_handshake(t, src, name), 16, 32),
        clipboard_handshake(t, src, name).skip(32) == name_field(name),
{
    let s = clipboard_handshake(t, src, name);
    assert(s =~= header(t, 0, src, 0) + (zeros(16) + name_field(name)));
    lemma_addressed(t, 0, src, 0, zeros(16) + name_field(name));
    assert(s.skip(32) =~= name_field(name));
}

} // verus!
