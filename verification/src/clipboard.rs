//! What travels over the message connection when something small is copied:
//! a payload cut into packages, and the text inside such a payload.

use flate2::read::DeflateDecoder;
use flate2::write::DeflateEncoder;
use flate2::Compression;
use std::io::{Read, Write};
use vstd::prelude::*;

use crate::mwb_protocol;
use crate::mwb_protocol::{
    ID_ALL, PACKAGE_TYPE_CLIPBOARD_DATA_END, PACKAGE_TYPE_CLIPBOARD_IMAGE,
    PACKAGE_TYPE_CLIPBOARD_TEXT,
};
use crate::text;

verus! {

/// How many bytes of a payload one package carries.
pub const CLIPBOARD_CHUNK_SIZE: usize = 48;

/// What ends each fragment of clipboard text.
pub const CLIPBOARD_SEP: &'static str = "{4CFF57F7-BEDD-43d5-AE8F-27A61E886F2F}";

/// What starts the plain-text fragment.
pub const TEXT_TAG: &'static str = "TXT";

/// The biggest file that is taken from the peer.
pub const MAX_CLIPBOARD_FILE_SIZE: usize = 104_857_600;

/// From this size on a payload is announced and pulled, not pushed.
pub const MAX_SMALL_PATH_SIZE: usize = 1_048_576;

/// The name under which an image travels on the clipboard-server connection.
pub const BIG_PATH_IMAGE_NAME: &'static str = "image";

/// How many packages carry a payload of `len` bytes. Even an empty payload
/// takes one.
pub open spec fn chunk_count(len: nat) -> nat {
    if len == 0 {
        1
    } else {
        (len + 47) / 48
    }
}

/// The 48 bytes of the payload that package `k` carries, filled up with zeros.
pub open spec fn chunk_body(payload: Seq<u8>, k: int) -> Seq<u8> {
    Seq::new(
        48,
        |i: int|
            if 48 * k + i < payload.len() {
                payload[48 * k + i]
            } else {
                0u8
            },
    )
}

/// Package `k` of a payload: a piece of it or, behind the last piece, the
/// empty end package. Its id is `k` behind the first one.
pub open spec fn chunk_package(
    first_id: int,
    src: u32,
    package_type: u8,
    payload: Seq<u8>,
    k: int,
) -> Seq<u8> {
    let id = (first_id + k) as u32;
    if k < chunk_count(payload.len()) {
        mwb_protocol::header(package_type, id, src, ID_ALL) + chunk_body(payload, k)
    } else {
        mwb_protocol::header(PACKAGE_TYPE_CLIPBOARD_DATA_END, id, src, ID_ALL)
            + mwb_protocol::zeros(48)
    }
}

/// The packages of a payload, one behind the other, with the end package last.
pub open spec fn payload_packages(
    first_id: int,
    src: u32,
    package_type: u8,
    payload: Seq<u8>,
) -> Seq<Seq<u8>> {
    Seq::new(
        chunk_count(payload.len()) + 1,
        |k: int| chunk_package(first_id, src, package_type, payload, k),
    )
}

/// The bytes of packages.
pub open spec fn bytes_of_each(packages: Seq<[u8; 64]>) -> Seq<Seq<u8>> {
    Seq::new(packages.len(), |k: int| packages[k]@)
}

/// What a receiver has put together from the packages before the end package:
/// their bodies, one behind the other.
pub open spec fn reassembled(packages: Seq<Seq<u8>>) -> Seq<u8>
    decreases packages.len(),
{
    if packages.len() <= 1 {
        Seq::empty()
    } else {
        packages[0].skip(16) + reassembled(packages.skip(1))
    }
}

proof fn lemma_reassembled_from(
    first_id: int,
    src: u32,
    package_type: u8,
    payload: Seq<u8>,
    k: int,
)
    requires
        0 <= k <= chunk_count(payload.len()),
    ensures
        reassembled(payload_packages(first_id, src, package_type, payload).skip(k)).len() == 48 * (
        chunk_count(payload.len()) - k),
        forall|i: int|
            0 <= i < 48 * (chunk_count(payload.len()) - k) ==> #[trigger] reassembled(
                payload_packages(first_id, src, package_type, payload).skip(k),
            )[i] == if 48 * k + i < payload.len() {
                payload[48 * k + i]
            } else {
                0u8
            },
    decreases chunk_count(payload.len()) - k,
{
    let n = chunk_count(payload.len());
    let packages = payload_packages(first_id, src, package_type, payload);
    let rest = packages.skip(k);
    if k < n {
        lemma_reassembled_from(first_id, src, package_type, payload, k + 1);
        assert(rest.skip(1) =~= packages.skip(k + 1));
        assert(rest[0] == packages[k]);
        assert(packages[k].skip(16) =~= chunk_body(payload, k));
    }
}

/// What the receiver puts together is the payload, followed by fewer than 48
/// zeros (48 zeros where the payload is empty).
pub proof fn packages_carry_the_payload(
    first_id: int,
    src: u32,
    package_type: u8,
    payload: Seq<u8>,
)
    ensures
        reassembled(payload_packages(first_id, src, package_type, payload)) == payload
            + mwb_protocol::zeros((48 * chunk_count(payload.len()) - payload.len()) as nat),
        48 * chunk_count(payload.len()) - payload.len() <= 48,
        payload.len() > 0 ==> 48 * chunk_count(payload.len()) - payload.len() < 48,
{
    let packages = payload_packages(first_id, src, package_type, payload);
    lemma_reassembled_from(first_id, src, package_type, payload, 0);
    assert(packages.skip(0) =~= packages);
    assert(reassembled(packages) =~= payload + mwb_protocol::zeros(
        (48 * chunk_count(payload.len()) - payload.len()) as nat,
    ));
}

/// Package `k` of a payload has the id `k` behind the first one.
pub proof fn package_id(
    first_id: int,
    src: u32,
    package_type: u8,
    payload: Seq<u8>,
    k: int,
)
    requires
        0 <= first_id,
        first_id + chunk_count(payload.len()) + 1 <= u32::MAX,
        0 <= k <= chunk_count(payload.len()),
    ensures
        mwb_protocol::le_u32(payload_packages(first_id, src, package_type, payload)[k], 4)
            == first_id + k,
{
    let package = payload_packages(first_id, src, package_type, payload)[k];
    assert(package.subrange(4, 8) =~= mwb_protocol::le_bytes((first_id + k) as u32));
    lemma_id_of(package, (first_id + k) as u32);
}

/// No two packages of one payload share an id: the receiver drops a package
/// whose id it has seen.
pub proof fn package_ids_are_distinct(
    first_id: int,
    src: u32,
    package_type: u8,
    payload: Seq<u8>,
    j: int,
    k: int,
)
    requires
        0 <= first_id,
        first_id + chunk_count(payload.len()) + 1 <= u32::MAX,
        0 <= j < k <= chunk_count(payload.len()),
    ensures
        mwb_protocol::le_u32(payload_packages(first_id, src, package_type, payload)[j], 4)
            < mwb_protocol::le_u32(payload_packages(first_id, src, package_type, payload)[k], 4),
{
    package_id(first_id, src, package_type, payload, j);
    package_id(first_id, src, package_type, payload, k);
}

proof fn lemma_id_of(package: Seq<u8>, id: u32)
    requires
        package.len() >= 8,
        package.subrange(4, 8) == mwb_protocol::le_bytes(id),
    ensures
        mwb_protocol::le_u32(package, 4) == id,
{
    let s = package.subrange(4, 8);
    assert(s[0] == package[4] && s[1] == package[5] && s[2] == package[6] && s[3] == package[7]);
}

/// Cuts a payload into packages that all go to everyone, one id each, with an
/// end package behind them. They still have to be sealed.
pub fn build_clipboard_chunk_packages(
    next_id: &mut u32,
    src_id: u32,
    package_type: u8,
    payload: &[u8],
) -> (r: Vec<[u8; 64]>)
    requires
        *old(next_id) + chunk_count(payload@.len()) + 1 <= u32::MAX,
    ensures
        bytes_of_each(r@) == payload_packages(
            *old(next_id) as int,
            src_id,
            package_type,
            payload@,
        ),
        *final(next_id) == *old(next_id) + chunk_count(payload@.len()) + 1,
{
    let mut packages: Vec<[u8; 64]> = Vec::new();
    let ghost first_id = *next_id as int;
    let mut start: usize = 0;
    let ghost count = chunk_count(payload@.len());
    let mut done: bool = false;
    while !done
        invariant
            count == chunk_count(payload@.len()),
            first_id + count + 1 <= u32::MAX,
            *next_id == first_id + packages@.len(),
            packages@.len() <= count,
            start <= payload@.len(),
            payload@.len() == payload.len(),
            done ==> packages@.len() == count,
            !done ==> packages@.len() < count && start == 48 * packages@.len(),
            forall|k: int|
                0 <= k < packages@.len() ==> (#[trigger] packages@[k])@ == chunk_package(
                    first_id,
                    src_id,
                    package_type,
                    payload@,
                    k,
                ),
        decreases count - packages@.len(), !done as int,
    {
        let left: usize = payload.len() - start;
        let n: usize = if left < 48 {
            left
        } else {
            48
        };
        let mut buf: [u8; 64] = [0u8; 64];
        assert(buf@ =~= mwb_protocol::zeros(64));
        mwb_protocol::write_header(&mut buf, package_type, *next_id, src_id, ID_ALL);
        mwb_protocol::copy_into(
            &mut buf,
            16,
            vstd::slice::slice_subrange(payload, start, start + n),
        );
        assert(buf@ =~= chunk_package(
            first_id,
            src_id,
            package_type,
            payload@,
            packages@.len() as int,
        ));
        packages.push(buf);
        *next_id = *next_id + 1;
        start += n;
        done = start == payload.len();
    }
    let mut end: [u8; 64] = [0u8; 64];
    assert(end@ =~= mwb_protocol::zeros(64));
    mwb_protocol::write_header(&mut end, PACKAGE_TYPE_CLIPBOARD_DATA_END, *next_id, src_id, ID_ALL);
    packages.push(end);
    *next_id = *next_id + 1;
    assert(bytes_of_each(packages@) =~= payload_packages(
        first_id,
        src_id,
        package_type,
        payload@,
    ));
    packages
}

/// Builds the packages of an image: its PNG bytes, as they are.
pub fn build_clipboard_image_packages(next_id: &mut u32, src_id: u32, png_bytes: &[u8]) -> (r: Vec<
    [u8; 64],
>)
    requires
        *old(next_id) + chunk_count(png_bytes@.len()) + 1 <= u32::MAX,
    ensures
        bytes_of_each(r@) == payload_packages(
            *old(next_id) as int,
            src_id,
            PACKAGE_TYPE_CLIPBOARD_IMAGE,
            png_bytes@,
        ),
        *final(next_id) == *old(next_id) + chunk_count(png_bytes@.len()) + 1,
{
    build_clipboard_chunk_packages(next_id, src_id, PACKAGE_TYPE_CLIPBOARD_IMAGE, png_bytes)
}

/// Some bytes as a raw DEFLATE stream, at the default compression level.
pub uninterp spec fn deflated(data: Seq<u8>) -> Seq<u8>;

/// The bytes that a raw DEFLATE stream holds, and `None` where it is damaged
/// or cut short.
pub uninterp spec fn inflated(data: Seq<u8>) -> Option<Seq<u8>>;

/// `DeflateEncoder` of flate2, written to until all data is in and then
/// closed: the stream depends on the data alone, and a decoder that is given
/// the stream, with whatever may follow it, gives the data back. A decoder
/// stops at the end of one stream.
#[verifier::external_body]
fn deflate(data: &[u8]) -> (r: Vec<u8>)
    ensures
        r@ == deflated(data@),
        forall|tail: Seq<u8>| #[trigger] inflated(r@ + tail) == Some(data@),
{
    let mut encoder = DeflateEncoder::new(Vec::new(), Compression::default());
    encoder.write_all(data).expect("compressing into memory cannot fail");
    encoder.finish().expect("compressing into memory cannot fail")
}

/// `DeflateDecoder` of flate2, read to its end: what it reads, and whether it
/// fails, depends on the bytes alone.
#[verifier::external_body]
fn inflate(data: &[u8]) -> (r: Option<Vec<u8>>)
    ensures
        inflated(data@) == (match r {
            Some(bytes) => Some(bytes@),
            None => None,
        }),
{
    let mut out = Vec::new();
    match DeflateDecoder::new(data).read_to_end(&mut out) {
        Ok(_) => Some(out),
        Err(_) => None,
    }
}

/// Clipboard text before it is compressed: tagged, ended by the separator, in
/// UTF-16LE.
pub open spec fn tagged_text(text: Seq<char>) -> Seq<u8> {
    text::utf16le(TEXT_TAG@ + text + CLIPBOARD_SEP@)
}

/// Tags clipboard text for the wire.
pub fn tag_clipboard_text(text: &str) -> (r: Vec<u8>)
    ensures
        r@ == tagged_text(text@),
{
    let mut tagged: String = String::from_str(TEXT_TAG);
    tagged.append(text);
    tagged.append(CLIPBOARD_SEP);
    text::utf16le_bytes(tagged.as_str())
}

/// The text in the first fragment that starts with the tag, among the
/// fragments that separators cut `s` into.
pub open spec fn tagged_fragment(s: Seq<char>) -> Option<Seq<char>>
    decreases s.len(),
{
    let end = text::find_from(s, CLIPBOARD_SEP@, 0);
    let fragment = if end is Some {
        s.take(end->0)
    } else {
        s
    };
    if text::occurs_at(fragment, TEXT_TAG@, 0) {
        Some(fragment.skip(TEXT_TAG@.len() as int))
    } else if end is Some && 0 <= end->0 && end->0 + CLIPBOARD_SEP@.len() <= s.len()
        && CLIPBOARD_SEP@.len() > 0 {
        tagged_fragment(s.skip(end->0 + CLIPBOARD_SEP@.len()))
    } else {
        None
    }
}

/// The text that inflated clipboard data holds.
pub open spec fn text_within(data: Seq<u8>) -> Option<Seq<char>> {
    tagged_fragment(text::utf16_decode(text::units_from_le(data)))
}

/// The text that compressed clipboard data holds.
pub open spec fn text_in_payload(payload: Seq<u8>) -> Option<Seq<char>> {
    match inflated(payload) {
        Some(data) => text_within(data),
        None => None,
    }
}

proof fn lemma_separator()
    ensures
        CLIPBOARD_SEP@.len() == 38,
        CLIPBOARD_SEP@[0] == '{',
        forall|i: int| 1 <= i < 38 ==> #[trigger] CLIPBOARD_SEP@[i] != '{',
        TEXT_TAG@ == seq!['T', 'X', 'T'],
{
    reveal_strlit("{4CFF57F7-BEDD-43d5-AE8F-27A61E886F2F}");
    reveal_strlit("TXT");
    assert(TEXT_TAG@ =~= seq!['T', 'X', 'T']);
}

/// The separator does not stand in the text.
pub open spec fn separator_free(text: Seq<char>) -> bool {
    forall|i: int| !text::occurs_at(text, CLIPBOARD_SEP@, i)
}

/// Text that does not itself hold the separator is found again in its tagged
/// form.
pub proof fn tagged_text_is_found(text: Seq<char>)
    requires
        separator_free(text),
    ensures
        text_within(tagged_text(text)) == Some(text),
{
    lemma_separator();
    let sep = CLIPBOARD_SEP@;
    let s = TEXT_TAG@ + text + sep;
    text::utf16le_round_trip(s);
    let end: int = (3 + text.len()) as int;
    assert(s.subrange(end, end + 38) =~= sep);
    assert forall|j: int| 0 <= j < end implies !text::occurs_at(s, sep, j) by {
        if text::occurs_at(s, sep, j) {
            let here = s.subrange(j, j + 38);
            assert(here[0] == s[j]);
            if j + 38 > end {
                assert(here[end - j] == s[end]);
                assert(s[end] == sep[0]);
            } else if j >= 3 {
                assert(text.subrange(j - 3, j - 3 + 38) =~= here);
                assert(text::occurs_at(text, sep, j - 3));
            } else {
                assert(s[j] == TEXT_TAG@[j]);
            }
        }
    }
    text::lemma_found(s, sep, 0, end);
    let fragment = s.take(end);
    assert(fragment.subrange(0, 3) =~= TEXT_TAG@);
    assert(fragment.skip(3) =~= text);
}

/// Why clipboard data holds no text.
#[derive(Clone, Copy, Debug, PartialEq, Eq, Structural)]
pub enum ClipboardTextError {
    /// The data is no whole DEFLATE stream.
    Damaged,
    /// No fragment of it carries the text tag.
    NoText,
}

/// Finds the text in inflated clipboard data.
pub fn text_from_inflated(data: &[u8]) -> (r: Option<String>)
    ensures
        text_within(data@) == (match r {
            Some(s) => Some(s@),
            None => None,
        }),
{
    proof {
        lemma_separator();
    }
    let units: Vec<u16> = text::utf16_units_from_le(data);
    let decoded: String = text::string_from_utf16_lossy(&units);
    let chars: Vec<char> = text::str_chars(decoded.as_str());
    let sep: Vec<char> = text::str_chars(CLIPBOARD_SEP);
    let tag: Vec<char> = text::str_chars(TEXT_TAG);
    let mut start: usize = 0;
    assert(chars@.skip(0) =~= chars@);
    loop
        invariant
            start <= chars@.len(),
            sep@ == CLIPBOARD_SEP@,
            sep@.len() == 38,
            tag@ == TEXT_TAG@,
            tag@.len() == 3,
            text_within(data@) == tagged_fragment(chars@.skip(start as int)),
        decreases chars@.len() - start,
    {
        let rest: &[char] = vstd::slice::slice_subrange(chars.as_slice(), start, chars.len());
        assert(rest@ =~= chars@.skip(start as int));
        let found: Option<usize> = text::find(rest, &sep, 0);
        proof {
            text::lemma_find_from(rest@, sep@, 0);
        }
        let end: usize = match found {
            Some(at) => at,
            None => rest.len(),
        };
        let fragment: &[char] = vstd::slice::slice_subrange(rest, 0, end);
        assert(fragment@ =~= rest@.take(end as int));
        assert(rest@.take(rest@.len() as int) =~= rest@);
        if text::stands_at(fragment, &tag, 0) {
            let body: &[char] = vstd::slice::slice_subrange(fragment, 3, fragment.len());
            assert(body@ =~= fragment@.skip(3));
            return Some(text::chars_to_string(body));
        }
        if found.is_none() {
            return None;
        }
        assert(rest@.skip(end + 38) =~= chars@.skip(start + end + 38));
        start = start + end + 38;
    }
}

/// Inflates clipboard data and finds the text in it.
pub fn decode_clipboard_text(compressed: &[u8]) -> (r: Result<String, ClipboardTextError>)
    ensures
        match r {
            Ok(s) => text_in_payload(compressed@) == Some(s@),
            Err(e) => text_in_payload(compressed@) is None && (e == ClipboardTextError::Damaged
                <==> inflated(compressed@) is None),
        },
{
    match inflate(compressed) {
        Some(data) => match text_from_inflated(&data) {
            Some(s) => Ok(s),
            None => Err(ClipboardTextError::NoText),
        },
        None => Err(ClipboardTextError::Damaged),
    }
}

/// Builds the packages of a text: tagged, compressed, cut up. A receiver that
/// puts their bodies together finds the text in them.
pub fn build_clipboard_text_packages(next_id: &mut u32, src_id: u32, text: &str) -> (r: Vec<
    [u8; 64],
>)
    requires
        *old(next_id) + chunk_count(deflated(tagged_text(text@)).len()) + 1 <= u32::MAX,
    ensures
        bytes_of_each(r@) == payload_packages(
            *old(next_id) as int,
            src_id,
            PACKAGE_TYPE_CLIPBOARD_TEXT,
            deflated(tagged_text(text@)),
        ),
        *final(next_id) == *old(next_id) + chunk_count(deflated(tagged_text(text@)).len()) + 1,
        inflated(reassembled(bytes_of_each(r@))) == Some(tagged_text(text@)),
        separator_free(text@) ==> text_in_payload(reassembled(bytes_of_each(r@))) == Some(text@),
{
    let data: Vec<u8> = tag_clipboard_text(text);
    let compressed: Vec<u8> = deflate(&data);
    let ghost first_id = *next_id as int;
    let packages: Vec<[u8; 64]> = build_clipboard_chunk_packages(
        next_id,
        src_id,
        PACKAGE_TYPE_CLIPBOARD_TEXT,
        &compressed,
    );
    proof {
        packages_carry_the_payload(
            first_id,
            src_id,
            PACKAGE_TYPE_CLIPBOARD_TEXT,
            compressed@,
        );
        if separator_free(text@) {
            tagged_text_is_found(text@);
        }
    }
    packages
}

/// As `build_clipboard_text_packages`, for any text: `None`, with nothing
/// changed, where there are not enough ids left.
pub fn try_build_clipboard_text_packages(next_id: &mut u32, src_id: u32, text: &str) -> (r: Option<
    Vec<[u8; 64]>,
>)
    ensures
        match r {
            Some(packages) => {
                &&& bytes_of_each(packages@) == payload_packages(
                    *old(next_id) as int,
                    src_id,
                    PACKAGE_TYPE_CLIPBOARD_TEXT,
                    deflated(tagged_text(text@)),
                )
                &&& *final(next_id) == *old(next_id) + chunk_count(
                    deflated(tagged_text(text@)).len(),
                ) + 1
                &&& inflated(reassembled(bytes_of_each(packages@))) == Some(tagged_text(text@))
                &&& separator_free(text@) ==> text_in_payload(
                    reassembled(bytes_of_each(packages@)),
                ) == Some(text@)
            },
            None => {
                &&& *old(next_id) + chunk_count(deflated(tagged_text(text@)).len()) + 1 > u32::MAX
                &&& *final(next_id) == *old(next_id)
            },
        },
{
    let data: Vec<u8> = tag_clipboard_text(text);
    let compressed: Vec<u8> = deflate(&data);
    if enough_ids(*next_id, compressed.len()) {
        Some(build_clipboard_text_packages(next_id, src_id, text))
    } else {
        None
    }
}

/// Whether a payload of `len` bytes finds enough ids from `next_id` on.
pub fn enough_ids(next_id: u32, len: usize) -> (r: bool)
    ensures
        r == (next_id + chunk_count(len as nat) + 1 <= u32::MAX),
{
    let count: u64 = if len == 0 {
        1
    } else {
        (len as u64 - 1) / 48 + 1
    };
    count <= 0xFFFF_FFFF && next_id as u64 + count + 1 <= 0xFFFF_FFFF
}

/// The packages of a payload are addressed to everyone, one id behind the
/// other, under the sender's own id: the pieces with the type of the payload,
/// and behind them one empty package of type 76. They are as few as can be,
/// with 48 bytes in each, but at least one before the end.
pub proof fn packages_are_addressed_to_all(
    first_id: int,
    src: u32,
    package_type: u8,
    payload: Seq<u8>,
    k: int,
)
    requires
        0 <= first_id,
        first_id + chunk_count(payload.len()) + 1 <= u32::MAX,
        0 <= k < payload_packages(first_id, src, package_type, payload).len(),
    ensures
        ({
            let packages = payload_packages(first_id, src, package_type, payload);
            let last = packages.len() - 1;
            &&& packages[k].len() == 64
            &&& last >= 1
            &&& 48 * last >= payload.len()
            &&& last > 1 ==> 48 * (last - 1) < payload.len()
            &&& k < last ==> mwb_protocol::is_addressed(
                packages[k],
                package_type,
                (first_id + k) as u32,
                src,
                255,
            )
            &&& k == last ==> mwb_protocol::is_addressed(
                packages[k],
                76,
                (first_id + k) as u32,
                src,
                255,
            ) && mwb_protocol::is_blank(packages[k], 16, 64)
        }),
{
    let id = (first_id + k) as u32;
    if k < chunk_count(payload.len()) {
        mwb_protocol::lemma_addressed(package_type, id, src, ID_ALL, chunk_body(payload, k));
    } else {
        mwb_protocol::lemma_addressed(
            PACKAGE_TYPE_CLIPBOARD_DATA_END,
            id,
            src,
            ID_ALL,
            mwb_protocol::zeros(48),
        );
    }
}

/// Tagged text reads as the tag, the text and the separator.
pub proof fn tagged_text_reads(text: Seq<char>)
    ensures
        text::utf16_decode(text::units_from_le(tagged_text(text))) == "TXT"@ + text
            + "{4CFF57F7-BEDD-43d5-AE8F-27A61E886F2F}"@,
{
    text::utf16le_round_trip(TEXT_TAG@ + text + CLIPBOARD_SEP@);
}

proof fn lemma_fragment_ends(fragment: Seq<char>, rest: Seq<char>)
    requires
        separator_free(fragment),
    ensures
        text::find_from(fragment + CLIPBOARD_SEP@ + rest, CLIPBOARD_SEP@, 0) == Some(
            fragment.len() as int,
        ),
        text::find_from(fragment, CLIPBOARD_SEP@, 0) is None,
{
    lemma_separator();
    let sep = CLIPBOARD_SEP@;
    let s = fragment + sep + rest;
    let end = fragment.len() as int;
    assert(s.subrange(end, end + 38) =~= sep);
    assert forall|j: int| 0 <= j < end implies !text::occurs_at(s, sep, j) by {
        if text::occurs_at(s, sep, j) {
            let here = s.subrange(j, j + 38);
            if j + 38 > end {
                assert(here[end - j] == s[end]);
                assert(s[end] == sep[0]);
            } else {
                assert(fragment.subrange(j, j + 38) =~= here);
                assert(text::occurs_at(fragment, sep, j));
            }
        }
    }
    text::lemma_found(s, sep, 0, end);
    text::lemma_find_from(fragment, sep, 0);
}

/// The first fragment that starts with the tag gives the text behind the tag,
/// whatever follows; one that does not is passed over.
pub proof fn fragments_are_read_in_order(fragment: Seq<char>, rest: Seq<char>)
    requires
        separator_free(fragment),
    ensures
        ({
            let tagged = fragment.len() >= 3 && fragment[0] == 'T' && fragment[1] == 'X'
                && fragment[2] == 'T';
            let all = fragment + "{4CFF57F7-BEDD-43d5-AE8F-27A61E886F2F}"@ + rest;
            &&& tagged ==> tagged_fragment(all) == Some(fragment.skip(3))
            &&& tagged ==> tagged_fragment(fragment) == Some(fragment.skip(3))
            &&& !tagged ==> tagged_fragment(all) == tagged_fragment(rest)
            &&& !tagged ==> tagged_fragment(fragment) is None
        }),
{
    lemma_separator();
    lemma_fragment_ends(fragment, rest);
    let all = fragment + CLIPBOARD_SEP@ + rest;
    let tagged = fragment.len() >= 3 && fragment[0] == 'T' && fragment[1] == 'X' && fragment[2]
        == 'T';
    assert(all.take(fragment.len() as int) =~= fragment);
    assert(all.skip(fragment.len() as int + 38) =~= rest);
    if tagged {
        assert(fragment.subrange(0, 3) =~= TEXT_TAG@);
    } else if fragment.len() >= 3 {
        let start = fragment.subrange(0, 3);
        assert(start[0] == fragment[0] && start[1] == fragment[1] && start[2] == fragment[2]);
    }
}

/// Text is found in a payload exactly where the payload inflates to data that
/// holds some.
pub proof fn text_needs_a_whole_stream(payload: Seq<u8>)
    ensures
        text_in_payload(payload) is Some <==> inflated(payload) is Some && text_within(
            inflated(payload)->0,
        ) is Some,
        text_in_payload(payload) is Some ==> text_in_payload(payload) == text_within(
            inflated(payload)->0,
        ),
{
}

/// Text is free of the separator unless the separator stands in it: all text
/// without an opening brace is, and all that is shorter than the separator.
pub proof fn ordinary_text_is_separator_free(text: Seq<char>, before: Seq<char>, after: Seq<char>)
    ensures
        text.len() < 38 ==> separator_free(text),
        (forall|i: int| 0 <= i < text.len() ==> #[trigger] text[i] != '{') ==> separator_free(text),
        !separator_free(before + "{4CFF57F7-BEDD-43d5-AE8F-27A61E886F2F}"@ + after),
{
    lemma_separator();
    let sep = CLIPBOARD_SEP@;
    if forall|i: int| 0 <= i < text.len() ==> #[trigger] text[i] != '{' {
        assert forall|i: int| !text::occurs_at(text, sep, i) by {
            if text::occurs_at(text, sep, i) {
                assert(text.subrange(i, i + 38)[0] == text[i]);
            }
        }
    }
    let all = before + sep + after;
    assert(all.subrange(before.len() as int, before.len() as int + 38) =~= sep);
    assert(text::occurs_at(all, sep, before.len() as int));
}

/// Data is read as UTF-16LE, and the text in it is the text in what it says.
pub proof fn data_is_read_as_text(s: Seq<char>)
    ensures
        text_within(text::utf16le(s)) == tagged_fragment(s),
{
    text::utf16le_round_trip(s);
}

} // verus!
