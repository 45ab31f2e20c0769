//! The header in front of a file on the clipboard-server connection.

use vstd::prelude::*;

use crate::decimal;
use crate::mwb_protocol;
use crate::text;

verus! {

/// The length of a header.
pub const CLIPBOARD_FILE_HEADER_SIZE: usize = 1024;

/// What a header says: the size, a star and the name.
pub open spec fn header_text(size: usize, name: Seq<char>) -> Seq<char> {
    decimal::decimal(size as nat) + seq!['*'] + name
}

/// A header: what it says in UTF-16LE, filled up with zeros and cut off at
/// 1024 bytes.
pub open spec fn file_header(size: usize, name: Seq<char>) -> Seq<u8> {
    Seq::new(
        1024,
        |i: int|
            if i < text::utf16le(header_text(size, name)).len() {
                text::utf16le(header_text(size, name))[i]
            } else {
                0u8
            },
    )
}

/// How many units come before the first zero.
pub open spec fn until_zero(units: Seq<u16>) -> nat
    decreases units.len(),
{
    if units.len() == 0 || units[0] == 0 {
        0
    } else {
        1 + until_zero(units.skip(1))
    }
}

/// The size and the name in what a header says: what stands before and behind
/// the first star.
pub open spec fn size_and_name(s: Seq<char>) -> Option<(usize, Seq<char>)> {
    match text::find_from(s, seq!['*'], 0) {
        Some(star) => match decimal::parsed_usize(s.take(star)) {
            Some(size) => Some((size, s.skip(star + 1))),
            None => None,
        },
        None => None,
    }
}

/// The size and the name in a header.
pub open spec fn parsed_header(bytes: Seq<u8>) -> Option<(usize, Seq<char>)> {
    let units = text::units_from_le(bytes);
    size_and_name(text::utf16_decode(units.take(until_zero(units) as int)))
}

proof fn lemma_until_zero(units: Seq<u16>, n: int)
    requires
        0 <= n <= units.len(),
        forall|i: int| 0 <= i < n ==> #[trigger] units[i] != 0,
        n < units.len() ==> units[n] == 0,
    ensures
        until_zero(units) == n,
    decreases n,
{
    if n > 0 {
        assert forall|i: int| 0 <= i < n - 1 implies #[trigger] units.skip(1)[i] != 0 by {
            assert(units[i + 1] != 0);
        }
        lemma_until_zero(units.skip(1), n - 1);
    }
}

proof fn lemma_no_zero_units(s: Seq<char>)
    requires
        forall|i: int| 0 <= i < s.len() ==> #[trigger] s[i] != '\0',
    ensures
        forall|i: int|
            0 <= i < text::utf16_encode(s).len() ==> #[trigger] text::utf16_encode(s)[i] != 0,
    decreases s.len(),
{
    if s.len() > 0 {
        assert forall|i: int| 0 <= i < s.drop_first().len() implies #[trigger] s.drop_first()[i]
            != '\0' by {
            assert(s[i + 1] != '\0');
        }
        lemma_no_zero_units(s.drop_first());
        text::lemma_utf16_units(s[0]);
        let first = text::utf16_units(s[0]);
        let rest = text::utf16_encode(s.drop_first());
        assert(s[0] != '\0');
        assert forall|i: int| 0 <= i < text::utf16_encode(s).len() implies #[trigger]
            text::utf16_encode(s)[i] != 0 by {
            if i >= first.len() {
                assert(rest[i - first.len()] != 0);
            } else {
                assert(text::utf16_encode(s)[i] == first[i]);
            }
        }
    }
}

/// A header that is built and parsed again gives the same size and name, as
/// long as it fits and the name holds no zero.
pub proof fn file_header_round_trip(size: usize, name: Seq<char>)
    requires
        text::utf16_encode(header_text(size, name)).len() <= 512,
        forall|i: int| 0 <= i < name.len() ==> #[trigger] name[i] != '\0',
    ensures
        parsed_header(file_header(size, name)) == Some((size, name)),
{
    let s = header_text(size, name);
    let number = decimal::decimal(size as nat);
    decimal::decimal_round_trip(size);
    assert forall|i: int| 0 <= i < s.len() implies #[trigger] s[i] != '\0' by {
        if i < number.len() {
            assert(decimal::is_digit(number[i]));
        } else if i > number.len() {
            assert(s[i] == name[i - number.len() - 1]);
        }
    }
    lemma_no_zero_units(s);
    let encoded = text::utf16_encode(s);
    let bytes = text::utf16le(s);
    let units = text::units_from_le(file_header(size, name));
    text::units_le_round_trip(encoded);
    assert forall|i: int| 0 <= i < 512 implies #[trigger] units[i] == if i < encoded.len() {
        encoded[i]
    } else {
        0
    } by {
        if i < encoded.len() {
            assert(text::units_from_le(bytes)[i] == encoded[i]);
        }
    }
    lemma_until_zero(units, encoded.len() as int);
    assert(units.take(encoded.len() as int) =~= encoded);
    text::utf16_round_trip(s);
    let star = number.len() as int;
    assert(s.subrange(star, star + 1) =~= seq!['*']);
    assert forall|j: int| 0 <= j < star implies !text::occurs_at(s, seq!['*'], j) by {
        assert(decimal::is_digit(number[j]));
        assert(s.subrange(j, j + 1)[0] == number[j]);
    }
    text::lemma_found(s, seq!['*'], 0, star);
    assert(s.take(star) =~= number);
    assert(s.skip(star + 1) =~= name);
}

/// Builds the header for a file of `size` bytes.
pub fn build_file_header(size: usize, name: &str) -> (r: [u8; 1024])
    ensures
        r@ == file_header(size, name@),
{
    let mut said: String = decimal::decimal_string(size as u64);
    said.push('*');
    said.append(name);
    assert(said@ =~= header_text(size, name@));
    let bytes: Vec<u8> = text::utf16le_bytes(said.as_str());
    let mut buf: [u8; 1024] = [0u8; 1024];
    assert(buf@ =~= mwb_protocol::zeros(1024));
    let n: usize = if bytes.len() < 1024 {
        bytes.len()
    } else {
        1024
    };
    mwb_protocol::copy_into(&mut buf, 0, vstd::slice::slice_subrange(bytes.as_slice(), 0, n));
    assert(buf@ =~= file_header(size, name@));
    buf
}

/// Reads the size and the name from a header. `None` where no number stands
/// before a star. A size of zero means that there is no file.
pub fn parse_file_header(buf: &[u8; 1024]) -> (r: Option<(usize, String)>)
    ensures
        parsed_header(buf@) == (match r {
            Some((size, name)) => Some((size, name@)),
            None => None,
        }),
{
    let units: Vec<u16> = text::utf16_units_from_le(buf);
    let mut end: usize = 0;
    while end < units.len() && units[end] != 0
        invariant
            end <= units@.len(),
            forall|i: int| 0 <= i < end ==> #[trigger] units@[i] != 0,
        decreases units@.len() - end,
    {
        end += 1;
    }
    proof {
        lemma_until_zero(units@, end as int);
    }
    let said: String = text::string_from_utf16_lossy(
        vstd::slice::slice_subrange(units.as_slice(), 0, end),
    );
    assert(units@.subrange(0, end as int) =~= units@.take(end as int));
    let chars: Vec<char> = text::str_chars(said.as_str());
    let star: [char; 1] = ['*'];
    assert(star@ =~= seq!['*']);
    match text::find(chars.as_slice(), &star, 0) {
        Some(at) => {
            proof {
                text::lemma_find_from(chars@, star@, 0);
            }
            let number: &[char] = vstd::slice::slice_subrange(chars.as_slice(), 0, at);
            let name: &[char] = vstd::slice::slice_subrange(chars.as_slice(), at + 1, chars.len());
            assert(number@ =~= chars@.take(at as int));
            assert(name@ =~= chars@.skip(at + 1));
            match decimal::parse_usize(number) {
                Some(size) => Some((size, text::chars_to_string(name))),
                None => None,
            }
        },
        None => None,
    }
}

/// What a header says is read at its first star: before it the size, behind it
/// the name, which may hold stars of its own. Without a star, or without a
/// number before it, nothing is read.
pub proof fn headers_are_read_at_the_first_star(number: Seq<char>, name: Seq<char>)
    requires
        forall|i: int| 0 <= i < number.len() ==> #[trigger] number[i] != '*',
    ensures
        size_and_name(number + seq!['*'] + name) == (match decimal::parsed_usize(number) {
            Some(size) => Some((size, name)),
            None => None,
        }),
        size_and_name(number) is None,
{
    let star = seq!['*'];
    let s = number + star + name;
    let at = number.len() as int;
    assert(s.subrange(at, at + 1) =~= star);
    assert forall|j: int| 0 <= j < at implies !text::occurs_at(s, star, j) by {
        assert(s.subrange(j, j + 1)[0] == number[j]);
    }
    text::lemma_found(s, star, 0, at);
    assert(s.take(at) =~= number);
    assert(s.skip(at + 1) =~= name);
    text::lemma_find_from(number, star, 0);
    assert forall|j: int| 0 <= j implies !text::occurs_at(number, star, j) by {
        if j < number.len() {
            assert(number.subrange(j, j + 1)[0] == number[j]);
        }
    }
    assert(text::find_from(number, star, 0) is None);
}

/// A header is 1024 bytes: what it says in UTF-16LE, as far as that fits, and
/// zeros.
pub proof fn headers_are_filled_with_zeros(size: usize, name: Seq<char>, i: int)
    requires
        0 <= i < 1024,
    ensures
        file_header(size, name).len() == 1024,
        file_header(size, name)[i] == ({
            let said = text::utf16le(decimal::decimal(size as nat) + seq!['*'] + name);
            if i < said.len() {
                said[i]
            } else {
                0u8
            }
        }),
{
}

/// A header is read up to its first zero.
pub proof fn headers_end_at_a_zero(bytes: Seq<u8>, i: int)
    ensures
        ({
            let units = text::units_from_le(bytes);
            let n = until_zero(units);
            &&& n <= units.len()
            &&& 0 <= i < n ==> units[i] != 0
            &&& n < units.len() ==> units[n as int] == 0
            &&& parsed_header(bytes) == size_and_name(text::utf16_decode(units.take(n as int)))
        }),
{
    lemma_until_zero_is_first(text::units_from_le(bytes), i);
}

proof fn lemma_until_zero_is_first(units: Seq<u16>, i: int)
    ensures
        until_zero(units) <= units.len(),
        0 <= i < until_zero(units) ==> units[i] != 0,
        until_zero(units) < units.len() ==> units[until_zero(units) as int] == 0,
    decreases units.len(),
{
    if units.len() > 0 && units[0] != 0 {
        lemma_until_zero_is_first(units.skip(1), i - 1);
    }
}

} // verus!
