//! Text as the wire sees it: UTF-16LE on the clipboard, UTF-8 in names and paths.

use vstd::prelude::*;
use vstd::utf8::*;

verus! {

/// `String::push` of std: appends one character.
pub assume_specification[ String::push ](s: &mut String, c: char)
    ensures
        final(s)@ == old(s)@.push(c),
;

/// The value is a Unicode scalar: a code point that is no surrogate.
pub open spec fn is_scalar_value(v: u32) -> bool {
    v < 0xD800 || 0xE000 <= v <= 0x10FFFF
}

/// `char::from_u32` of std: the character with that scalar value, and `None`
/// for a value that is no Unicode scalar.
pub assume_specification[ char::from_u32 ](v: u32) -> (r: Option<char>)
    ensures
        is_scalar_value(v) ==> r == Some(v as char),
        !is_scalar_value(v) ==> r is None,
;

/// The characters of a string, one by one.
pub fn str_chars(s: &str) -> (r: Vec<char>)
    ensures
        r@ == s@,
{
    let mut r: Vec<char> = Vec::new();
    for c in it: s.chars()
        invariant
            r@ == s@.take(it.index()),
            it.seq() == s@,
    {
        r.push(c);
        assert(s@.take(it.index() + 1) == s@.take(it.index()).push(c));
    }
    assert(s@.take(s@.len() as int) == s@);
    r
}

/// The string made of the given characters.
pub fn chars_to_string(chars: &[char]) -> (r: String)
    ensures
        r@ == chars@,
{
    let mut r: String = String::new();
    let mut i: usize = 0;
    while i < chars.len()
        invariant
            i <= chars@.len(),
            r@ == chars@.take(i as int),
        decreases chars@.len() - i,
    {
        r.push(chars[i]);
        assert(chars@.take(i + 1) == chars@.take(i as int).push(chars@[i as int]));
        i += 1;
    }
    assert(chars@.take(chars@.len() as int) == chars@);
    r
}

/// The UTF-16 code units of one character: one unit, or a surrogate pair
/// outside the Basic Multilingual Plane.
pub open spec fn utf16_units(c: char) -> Seq<u16> {
    if (c as u32) < 0x10000 {
        seq![c as u16]
    } else {
        seq![
            (0xD800 + (c as u32 - 0x10000) / 0x400) as u16,
            (0xDC00 + (c as u32 - 0x10000) % 0x400) as u16,
        ]
    }
}

/// A string in UTF-16 code units.
pub open spec fn utf16_encode(s: Seq<char>) -> Seq<u16>
    decreases s.len(),
{
    if s.len() == 0 {
        Seq::empty()
    } else {
        utf16_units(s[0]) + utf16_encode(s.drop_first())
    }
}

pub open spec fn is_high_surrogate(u: u16) -> bool {
    0xD800 <= u < 0xDC00
}

pub open spec fn is_low_surrogate(u: u16) -> bool {
    0xDC00 <= u < 0xE000
}

/// The character that a surrogate pair stands for.
pub open spec fn surrogate_pair(high: u16, low: u16) -> char {
    (0x10000 + (high - 0xD800) * 0x400 + (low - 0xDC00)) as char
}

/// UTF-16 code units read as text: a surrogate that is no half of a pair
/// becomes the replacement character.
pub open spec fn utf16_decode(units: Seq<u16>) -> Seq<char>
    decreases units.len(),
{
    if units.len() == 0 {
        Seq::empty()
    } else if is_high_surrogate(units[0]) && units.len() >= 2 && is_low_surrogate(units[1]) {
        seq![surrogate_pair(units[0], units[1])] + utf16_decode(units.skip(2))
    } else if is_high_surrogate(units[0]) || is_low_surrogate(units[0]) {
        seq!['\u{FFFD}'] + utf16_decode(units.skip(1))
    } else {
        seq![units[0] as char] + utf16_decode(units.skip(1))
    }
}

/// Code units as bytes, the low byte of each first.
pub open spec fn units_to_le(units: Seq<u16>) -> Seq<u8> {
    Seq::new(
        2 * units.len(),
        |i: int|
            if i % 2 == 0 {
                (units[i / 2] % 0x100) as u8
            } else {
                (units[i / 2] / 0x100) as u8
            },
    )
}

/// Bytes as code units, the low byte of each first; an odd last byte is left
/// out.
pub open spec fn units_from_le(bytes: Seq<u8>) -> Seq<u16> {
    Seq::new(bytes.len() / 2, |i: int| (bytes[2 * i] + 0x100 * bytes[2 * i + 1]) as u16)
}

/// A string in UTF-16LE bytes.
pub open spec fn utf16le(s: Seq<char>) -> Seq<u8> {
    units_to_le(utf16_encode(s))
}

/// What the units of one character are.
pub proof fn lemma_utf16_units(c: char)
    ensures
        (c as u32) < 0x10000 ==> {
            &&& utf16_units(c) == seq![c as u16]
            &&& c as u16 == c as u32
            &&& (c as u16) as char == c
            &&& !is_high_surrogate(c as u16)
            &&& !is_low_surrogate(c as u16)
        },
        (c as u32) >= 0x10000 ==> {
            &&& utf16_units(c).len() == 2
            &&& utf16_units(c)[0] == 0xD800 + (c as u32 - 0x10000) / 0x400
            &&& utf16_units(c)[1] == 0xDC00 + (c as u32 - 0x10000) % 0x400
            &&& is_high_surrogate(utf16_units(c)[0])
            &&& is_low_surrogate(utf16_units(c)[1])
            &&& surrogate_pair(utf16_units(c)[0], utf16_units(c)[1]) == c
        },
{
    char_is_scalar(c);
}

/// Text that is encoded in UTF-16 and decoded again is the same text.
pub proof fn utf16_round_trip(s: Seq<char>)
    ensures
        utf16_decode(utf16_encode(s)) == s,
    decreases s.len(),
{
    if s.len() > 0 {
        let rest = utf16_encode(s.drop_first());
        let all = utf16_encode(s);
        utf16_round_trip(s.drop_first());
        lemma_utf16_units(s[0]);
        if (s[0] as u32) < 0x10000 {
            assert(all[0] == s[0] as u16);
            assert(all.skip(1) =~= rest);
            assert(utf16_decode(all) =~= seq![s[0]] + s.drop_first());
        } else {
            assert(all.len() >= 2);
            assert(is_high_surrogate(all[0]));
            assert(is_low_surrogate(all[1]));
            assert(all.skip(2) =~= rest);
            assert(utf16_decode(all) =~= seq![s[0]] + s.drop_first());
        }
        assert(seq![s[0]] + s.drop_first() =~= s);
    } else {
        assert(utf16_encode(s) =~= Seq::<u16>::empty());
        assert(utf16_decode(utf16_encode(s)) =~= s);
    }
}

/// Code units that are written as bytes and read back are the same units.
pub proof fn units_le_round_trip(units: Seq<u16>)
    ensures
        units_from_le(units_to_le(units)) == units,
{
    let bytes = units_to_le(units);
    assert forall|i: int| 0 <= i < units.len() implies #[trigger] units_from_le(bytes)[i]
        == units[i] by {
        assert((2 * i) / 2 == i && (2 * i) % 2 == 0);
        assert((2 * i + 1) / 2 == i && (2 * i + 1) % 2 == 1);
        assert(bytes[2 * i] == (units[i] % 0x100) as u8);
        assert(bytes[2 * i + 1] == (units[i] / 0x100) as u8);
    }
    assert(units_from_le(bytes) =~= units);
}

/// The text of UTF-16LE bytes is the text that was encoded.
pub proof fn utf16le_round_trip(s: Seq<char>)
    ensures
        utf16_decode(units_from_le(utf16le(s))) == s,
{
    units_le_round_trip(utf16_encode(s));
    utf16_round_trip(s);
}

/// Bytes of units that follow each other follow each other.
pub proof fn lemma_units_to_le_concat(a: Seq<u16>, b: Seq<u16>)
    ensures
        units_to_le(a + b) == units_to_le(a) + units_to_le(b),
{
    assert forall|i: int| 0 <= i < 2 * (a + b).len() implies #[trigger] units_to_le(a + b)[i] == (
    units_to_le(a) + units_to_le(b))[i] by {
        if i >= 2 * a.len() {
            let k = i - 2 * a.len();
            assert(i / 2 == a.len() + k / 2);
            assert(i % 2 == k % 2);
        }
    }
    assert(units_to_le(a + b) =~= units_to_le(a) + units_to_le(b));
}

/// The UTF-16LE bytes of a string, without a terminator.
pub fn utf16le_bytes(s: &str) -> (r: Vec<u8>)
    ensures
        r@ == utf16le(s@),
{
    let chars: Vec<char> = str_chars(s);
    let mut r: Vec<u8> = Vec::new();
    let mut i: usize = 0;
    assert(chars@.skip(0) =~= chars@);
    while i < chars.len()
        invariant
            i <= chars@.len(),
            r@ + units_to_le(utf16_encode(chars@.skip(i as int))) == units_to_le(
                utf16_encode(chars@),
            ),
        decreases chars@.len() - i,
    {
        let ghost before = r@;
        let ghost rest = chars@.skip(i as int);
        let v: u32 = chars[i] as u32;
        proof {
            lemma_utf16_units(chars@[i as int]);
        }
        if v < 0x10000 {
            r.push((v % 0x100) as u8);
            r.push((v / 0x100) as u8);
        } else {
            let w: u32 = v - 0x10000;
            let high: u32 = 0xD800 + w / 0x400;
            let low: u32 = 0xDC00 + w % 0x400;
            r.push((high % 0x100) as u8);
            r.push((high / 0x100) as u8);
            r.push((low % 0x100) as u8);
            r.push((low / 0x100) as u8);
        }
        proof {
            let c = chars@[i as int];
            assert(rest[0] == c);
            assert(rest.drop_first() =~= chars@.skip(i + 1));
            lemma_units_to_le_concat(utf16_units(c), utf16_encode(chars@.skip(i + 1)));
            assert(units_to_le(utf16_units(c)).len() == 2 * utf16_units(c).len());
            assert(r@ =~= before + units_to_le(utf16_units(c)));
        }
        i += 1;
    }
    assert(chars@.skip(i as int) =~= Seq::<char>::empty());
    assert(utf16_encode(chars@.skip(i as int)) =~= Seq::<u16>::empty());
    assert(units_to_le(utf16_encode(chars@.skip(i as int))) =~= Seq::<u8>::empty());
    assert(r@ =~= utf16le(s@));
    r
}

/// The code units that UTF-16LE bytes hold.
pub fn utf16_units_from_le(bytes: &[u8]) -> (r: Vec<u16>)
    ensures
        r@ == units_from_le(bytes@),
{
    let mut r: Vec<u16> = Vec::new();
    let n: usize = bytes.len() / 2;
    let mut i: usize = 0;
    while i < n
        invariant
            n == bytes@.len() / 2,
            2 * n <= bytes.len(),
            i <= n,
            r@ == units_from_le(bytes@).take(i as int),
        decreases n - i,
    {
        let lo: u16 = bytes[2 * i] as u16;
        let hi: u16 = bytes[2 * i + 1] as u16;
        r.push(lo + 0x100 * hi);
        assert(r@ =~= units_from_le(bytes@).take(i + 1));
        i += 1;
    }
    assert(r@ =~= units_from_le(bytes@));
    r
}

/// Decodes UTF-16 code units; a lone surrogate becomes the replacement
/// character.
pub fn string_from_utf16_lossy(units: &[u16]) -> (r: String)
    ensures
        r@ == utf16_decode(units@),
{
    let mut r: String = String::new();
    let mut i: usize = 0;
    assert(units@.skip(0) =~= units@);
    while i < units.len()
        invariant
            i <= units@.len(),
            r@ + utf16_decode(units@.skip(i as int)) == utf16_decode(units@),
        decreases units@.len() - i,
    {
        let ghost before = r@;
        let ghost rest = units@.skip(i as int);
        let u: u16 = units[i];
        let high: bool = 0xD800 <= u && u < 0xDC00;
        let low: bool = 0xDC00 <= u && u < 0xE000;
        if high && i + 1 < units.len() && 0xDC00 <= units[i + 1] && units[i + 1] < 0xE000 {
            let v: u32 = 0x10000 + (u as u32 - 0xD800) * 0x400 + (units[i + 1] as u32 - 0xDC00);
            match char::from_u32(v) {
                Some(c) => r.push(c),
                None => (),
            }
            proof {
                assert(rest[1] == units@[i + 1]);
                assert(rest.skip(2) =~= units@.skip(i + 2));
                assert(r@ + utf16_decode(units@.skip(i + 2)) =~= before + utf16_decode(rest));
            }
            i += 2;
        } else if high || low {
            r.push('\u{FFFD}');
            proof {
                assert(rest.skip(1) =~= units@.skip(i + 1));
                assert(r@ + utf16_decode(units@.skip(i + 1)) =~= before + utf16_decode(rest));
            }
            i += 1;
        } else {
            match char::from_u32(u as u32) {
                Some(c) => r.push(c),
                None => (),
            }
            proof {
                assert(rest.skip(1) =~= units@.skip(i + 1));
                assert(r@ + utf16_decode(units@.skip(i + 1)) =~= before + utf16_decode(rest));
            }
            i += 1;
        }
    }
    assert(units@.skip(i as int) =~= Seq::<u16>::empty());
    assert(r@ =~= utf16_decode(units@));
    r
}

/// `pattern` stands in `s` at `at`.
pub open spec fn occurs_at(s: Seq<char>, pattern: Seq<char>, at: int) -> bool {
    0 <= at && at + pattern.len() <= s.len() && s.subrange(at, at + pattern.len()) == pattern
}

/// Where `pattern` first stands in `s`, from `from` on.
pub open spec fn find_from(s: Seq<char>, pattern: Seq<char>, from: int) -> Option<int>
    decreases s.len() + 1 - from,
{
    if from < 0 || from + pattern.len() > s.len() {
        None
    } else if occurs_at(s, pattern, from) {
        Some(from)
    } else {
        find_from(s, pattern, from + 1)
    }
}

/// What is found is the first occurrence, and nothing is found only where
/// nothing occurs.
pub proof fn lemma_find_from(s: Seq<char>, pattern: Seq<char>, from: int)
    requires
        0 <= from,
    ensures
        match find_from(s, pattern, from) {
            Some(at) => from <= at && occurs_at(s, pattern, at) && forall|j: int|
                from <= j < at ==> !occurs_at(s, pattern, j),
            None => forall|j: int| from <= j ==> !occurs_at(s, pattern, j),
        },
    decreases s.len() + 1 - from,
{
    if from + pattern.len() <= s.len() && !occurs_at(s, pattern, from) {
        lemma_find_from(s, pattern, from + 1);
    }
}

/// The first occurrence is what is found.
pub proof fn lemma_found(s: Seq<char>, pattern: Seq<char>, from: int, at: int)
    requires
        0 <= from <= at,
        occurs_at(s, pattern, at),
        forall|j: int| from <= j < at ==> !occurs_at(s, pattern, j),
    ensures
        find_from(s, pattern, from) == Some(at),
    decreases at - from,
{
    if from < at {
        lemma_found(s, pattern, from + 1, at);
    }
}

/// Whether `pattern` stands in `s` at `at`.
pub fn stands_at(s: &[char], pattern: &[char], at: usize) -> (r: bool)
    ensures
        r == occurs_at(s@, pattern@, at as int),
{
    if at > s.len() || pattern.len() > s.len() - at {
        return false;
    }
    let mut i: usize = 0;
    while i < pattern.len()
        invariant
            i <= pattern@.len(),
            at + pattern@.len() <= s@.len(),
            s@.len() == s.len(),
            forall|j: int| 0 <= j < i ==> #[trigger] pattern@[j] == s@[at + j],
        decreases pattern@.len() - i,
    {
        if s[at + i] != pattern[i] {
            assert(s@.subrange(at as int, at + pattern@.len())[i as int] != pattern@[i as int]);
            return false;
        }
        i += 1;
    }
    assert(s@.subrange(at as int, at + pattern@.len()) =~= pattern@);
    true
}

/// Finds the first occurrence of `pattern` in `s` from `from` on.
pub fn find(s: &[char], pattern: &[char], from: usize) -> (r: Option<usize>)
    ensures
        match r {
            Some(at) => find_from(s@, pattern@, from as int) == Some(at as int),
            None => find_from(s@, pattern@, from as int) is None,
        },
{
    let mut i: usize = from;
    if i > s.len() {
        return None;
    }
    while pattern.len() <= s.len() - i
        invariant
            i <= s@.len(),
            s@.len() == s.len(),
            find_from(s@, pattern@, from as int) == find_from(s@, pattern@, i as int),
        decreases s@.len() - i,
    {
        if stands_at(s, pattern, i) {
            return Some(i);
        }
        if i == s.len() {
            assert(s@.subrange(i as int, i as int) =~= pattern@);
            return None;
        }
        i += 1;
    }
    None
}

/// The Unicode characters with the property White_Space.
pub open spec fn is_white_space(c: char) -> bool {
    let v = c as u32;
    0x09 <= v <= 0x0D || v == 0x20 || v == 0x85 || v == 0xA0 || v == 0x1680 || 0x2000 <= v
        <= 0x200A || v == 0x2028 || v == 0x2029 || v == 0x202F || v == 0x205F || v == 0x3000
}

fn white_space(c: char) -> (r: bool)
    ensures
        r == is_white_space(c),
{
    let v: u32 = c as u32;
    (0x09 <= v && v <= 0x0D) || v == 0x20 || v == 0x85 || v == 0xA0 || v == 0x1680 || (0x2000 <= v
        && v <= 0x200A) || v == 0x2028 || v == 0x2029 || v == 0x202F || v == 0x205F || v == 0x3000
}

/// `s` without the white space at its start.
pub open spec fn trimmed_start(s: Seq<char>) -> Seq<char>
    decreases s.len(),
{
    if s.len() > 0 && is_white_space(s[0]) {
        trimmed_start(s.skip(1))
    } else {
        s
    }
}

/// `s` without the white space at its end.
pub open spec fn trimmed_end(s: Seq<char>) -> Seq<char>
    decreases s.len(),
{
    if s.len() > 0 && is_white_space(s.last()) {
        trimmed_end(s.drop_last())
    } else {
        s
    }
}

/// Takes the white space off the end.
pub fn trim_end(s: &[char]) -> (r: &[char])
    ensures
        r@ == trimmed_end(s@),
{
    let mut end: usize = s.len();
    assert(s@.take(end as int) =~= s@);
    while end > 0 && white_space(s[end - 1])
        invariant
            end <= s@.len(),
            trimmed_end(s@) == trimmed_end(s@.take(end as int)),
        decreases end,
    {
        assert(s@.take(end as int).drop_last() =~= s@.take(end - 1));
        end -= 1;
    }
    assert(s@.subrange(0, end as int) =~= s@.take(end as int));
    vstd::slice::slice_subrange(s, 0, end)
}

/// Takes the white space off both ends.
pub fn trim(s: &[char]) -> (r: &[char])
    ensures
        r@ == trimmed_end(trimmed_start(s@)),
{
    let mut start: usize = 0;
    assert(s@.skip(0) =~= s@);
    while start < s.len() && white_space(s[start])
        invariant
            start <= s@.len(),
            trimmed_start(s@) == trimmed_start(s@.skip(start as int)),
        decreases s@.len() - start,
    {
        assert(s@.skip(start as int).skip(1) =~= s@.skip(start + 1));
        start += 1;
    }
    let rest: &[char] = vstd::slice::slice_subrange(s, start, s.len());
    assert(rest@ =~= s@.skip(start as int));
    trim_end(rest)
}

/// Text that starts and ends with something else than white space is left as
/// it is.
pub proof fn lemma_nothing_to_trim(s: Seq<char>)
    requires
        s.len() > 0,
        !is_white_space(s[0]),
        !is_white_space(s.last()),
    ensures
        trimmed_start(s) == s,
        trimmed_end(s) == s,
{
}

/// The text of bytes that are not valid UTF-8, with the replacement character
/// in the place of what is invalid.
pub uninterp spec fn utf8_replaced(bytes: Seq<u8>) -> Seq<char>;

/// Bytes read as UTF-8.
pub open spec fn utf8_text(bytes: Seq<u8>) -> Seq<char> {
    if valid_utf8(bytes) {
        decode_utf8(bytes)
    } else {
        utf8_replaced(bytes)
    }
}

/// `String::from_utf8_lossy` of std: valid UTF-8 is decoded as it is. What
/// becomes of other bytes depends on the bytes alone.
#[verifier::external_body]
pub(crate) fn string_from_utf8_lossy(bytes: &[u8]) -> (r: String)
    ensures
        r@ == (if valid_utf8(bytes@) {
            decode_utf8(bytes@)
        } else {
            utf8_replaced(bytes@)
        }),
{
    String::from_utf8_lossy(bytes).into_owned()
}

/// Where one of `any` last stands in `s`.
pub open spec fn last_index(s: Seq<char>, any: Seq<char>) -> Option<int>
    decreases s.len(),
{
    if s.len() == 0 {
        None
    } else if any.contains(s.last()) {
        Some(s.len() - 1)
    } else {
        last_index(s.drop_last(), any)
    }
}

/// What is found is the last occurrence, and nothing is found only where
/// nothing occurs.
pub proof fn lemma_last_index(s: Seq<char>, any: Seq<char>)
    ensures
        match last_index(s, any) {
            Some(at) => 0 <= at < s.len() && any.contains(s[at]) && forall|j: int|
                at < j < s.len() ==> !any.contains(#[trigger] s[j]),
            None => forall|j: int| 0 <= j < s.len() ==> !any.contains(#[trigger] s[j]),
        },
    decreases s.len(),
{
    if s.len() > 0 && !any.contains(s.last()) {
        lemma_last_index(s.drop_last(), any);
        assert forall|j: int| 0 <= j < s.len() && (last_index(s, any) is Some ==> last_index(s, any)->0
            < j) implies !any.contains(#[trigger] s[j]) by {
            if j < s.len() - 1 {
                assert(s.drop_last()[j] == s[j]);
            }
        }
    }
}

fn is_one_of(c: char, any: &[char]) -> (r: bool)
    ensures
        r == any@.contains(c),
{
    let mut i: usize = 0;
    while i < any.len()
        invariant
            i <= any@.len(),
            forall|j: int| 0 <= j < i ==> #[trigger] any@[j] != c,
        decreases any@.len() - i,
    {
        if any[i] == c {
            return true;
        }
        i += 1;
    }
    false
}

/// Finds the last occurrence of one of `any`.
pub fn rfind(s: &[char], any: &[char]) -> (r: Option<usize>)
    ensures
        last_index(s@, any@) == (match r {
            Some(at) => Some(at as int),
            None => None,
        }),
        r is Some ==> r->0 < s@.len(),
{
    let mut end: usize = s.len();
    assert(s@.take(end as int) =~= s@);
    while end > 0
        invariant
            end <= s@.len(),
            last_index(s@, any@) == last_index(s@.take(end as int), any@),
        decreases end,
    {
        if is_one_of(s[end - 1], any) {
            return Some(end - 1);
        }
        assert(s@.take(end as int).drop_last() =~= s@.take(end - 1));
        end -= 1;
    }
    None
}

/// The UTF-8 bytes of texts that follow each other follow each other.
pub proof fn lemma_encode_utf8_concat(a: Seq<char>, b: Seq<char>)
    ensures
        encode_utf8(a + b) == encode_utf8(a) + encode_utf8(b),
    decreases a.len(),
{
    if a.len() == 0 {
        assert(a + b =~= b);
        assert(encode_utf8(a) + encode_utf8(b) =~= encode_utf8(b));
    } else {
        assert((a + b).drop_first() =~= a.drop_first() + b);
        lemma_encode_utf8_concat(a.drop_first(), b);
        assert(encode_utf8(a + b) =~= encode_utf8(a) + encode_utf8(b));
    }
}

/// `n` spaces.
pub open spec fn blanks(n: nat) -> Seq<char> {
    Seq::new(n, |i: int| ' ')
}

/// Spaces behind a text that does not end in white space are trimmed off.
pub proof fn lemma_trim_blanks(s: Seq<char>, n: nat)
    requires
        s.len() > 0 ==> !is_white_space(s.last()),
    ensures
        trimmed_end(s + blanks(n)) == s,
    decreases n,
{
    let all = s + blanks(n);
    if n > 0 {
        assert(all.drop_last() =~= s + blanks((n - 1) as nat));
        assert(all.last() == ' ');
        lemma_trim_blanks(s, (n - 1) as nat);
    } else {
        assert(all =~= s);
    }
}

/// The last occurrence is what is found.
pub proof fn lemma_last_at(s: Seq<char>, any: Seq<char>, at: int)
    requires
        0 <= at < s.len(),
        any.contains(s[at]),
        forall|j: int| at < j < s.len() ==> !any.contains(#[trigger] s[j]),
    ensures
        last_index(s, any) == Some(at),
{
    lemma_last_index(s, any);
}

/// What trimming leaves neither starts nor ends with white space, and what it
/// takes away is white space.
pub proof fn trimming_takes_white_space_alone(s: Seq<char>)
    ensures
        ({
            let t = trimmed_end(s);
            &&& t.len() <= s.len()
            &&& t == s.take(t.len() as int)
            &&& t.len() > 0 ==> !is_white_space(t.last())
            &&& forall|i: int| t.len() <= i < s.len() ==> is_white_space(#[trigger] s[i])
        }),
        ({
            let t = trimmed_start(s);
            let n = s.len() - t.len();
            &&& 0 <= n
            &&& t == s.skip(n)
            &&& t.len() > 0 ==> !is_white_space(t[0])
            &&& forall|i: int| 0 <= i < n ==> is_white_space(#[trigger] s[i])
        }),
{
    lemma_trimmed_end(s);
    lemma_trimmed_start(s);
}

proof fn lemma_trimmed_end(s: Seq<char>)
    ensures
        ({
            let t = trimmed_end(s);
            &&& t.len() <= s.len()
            &&& t == s.take(t.len() as int)
            &&& t.len() > 0 ==> !is_white_space(t.last())
            &&& forall|i: int| t.len() <= i < s.len() ==> is_white_space(#[trigger] s[i])
        }),
    decreases s.len(),
{
    let t = trimmed_end(s);
    if s.len() > 0 && is_white_space(s.last()) {
        let init = s.drop_last();
        lemma_trimmed_end(init);
        assert(t =~= s.take(t.len() as int));
        assert forall|i: int| t.len() <= i < s.len() implies is_white_space(#[trigger] s[i]) by {
            if i < init.len() {
                assert(init[i] == s[i]);
            }
        }
    } else {
        assert(t =~= s.take(t.len() as int));
    }
}

proof fn lemma_trimmed_start(s: Seq<char>)
    ensures
        ({
            let t = trimmed_start(s);
            let n = s.len() - t.len();
            &&& 0 <= n
            &&& t == s.skip(n)
            &&& t.len() > 0 ==> !is_white_space(t[0])
            &&& forall|i: int| 0 <= i < n ==> is_white_space(#[trigger] s[i])
        }),
    decreases s.len(),
{
    let t = trimmed_start(s);
    let n = s.len() - t.len();
    if s.len() > 0 && is_white_space(s[0]) {
        let rest = s.skip(1);
        lemma_trimmed_start(rest);
        assert(t =~= s.skip(n));
        assert forall|i: int| 0 <= i < n implies is_white_space(#[trigger] s[i]) by {
            if i > 0 {
                assert(rest[i - 1] == s[i]);
            }
        }
    } else {
        assert(t =~= s.skip(n));
    }
}

/// Space, tab, line feed and carriage return are white space, and no visible
/// ASCII character is.
pub proof fn ascii_white_space(c: char)
    requires
        c as u32 <= 0x7E,
    ensures
        c == ' ' || c == '\t' || c == '\n' || c == '\r' ==> is_white_space(c),
        c as u32 > 0x20 ==> !is_white_space(c),
{
}

/// A character below 0x10000 is one unit with its own number; any other is a
/// high and a low surrogate that together hold its number.
pub proof fn characters_keep_their_number(c: char)
    ensures
        ({
            let units = utf16_encode(seq![c]);
            if (c as u32) < 0x10000 {
                units.len() == 1 && units[0] == c as u32
            } else {
                &&& units.len() == 2
                &&& 0xD800 <= units[0] <= 0xDBFF
                &&& 0xDC00 <= units[1] <= 0xDFFF
                &&& c as u32 == 0x10000 + 0x400 * (units[0] - 0xD800) + (units[1] - 0xDC00)
            }
        }),
{
    lemma_utf16_units(c);
    let s = seq![c];
    assert(s.drop_first() =~= Seq::<char>::empty());
    assert(utf16_encode(s.drop_first()) =~= Seq::<u16>::empty());
    assert(utf16_encode(s) =~= utf16_units(c));
}

/// The units of texts that follow each other follow each other.
pub proof fn utf16_follows_the_text(a: Seq<char>, b: Seq<char>)
    ensures
        utf16_encode(a + b) == utf16_encode(a) + utf16_encode(b),
    decreases a.len(),
{
    if a.len() == 0 {
        assert(a + b =~= b);
        assert(utf16_encode(a) + utf16_encode(b) =~= utf16_encode(b));
    } else {
        assert((a + b).drop_first() =~= a.drop_first() + b);
        utf16_follows_the_text(a.drop_first(), b);
        assert(utf16_encode(a + b) =~= utf16_encode(a) + utf16_encode(b));
    }
}

/// Units become two bytes each, the low one first, and bytes become units in
/// the same way.
pub proof fn units_are_little_endian(units: Seq<u16>, bytes: Seq<u8>, i: int)
    ensures
        units_to_le(units).len() == 2 * units.len(),
        units_from_le(bytes).len() == bytes.len() / 2,
        0 <= i < units.len() ==> units_to_le(units)[2 * i] + 0x100 * units_to_le(units)[2 * i + 1]
            == units[i],
        0 <= i < bytes.len() / 2 ==> units_from_le(bytes)[i] == bytes[2 * i] + 0x100 * bytes[2 * i
            + 1],
{
    if 0 <= i < units.len() {
        assert((2 * i) / 2 == i && (2 * i) % 2 == 0);
        assert((2 * i + 1) / 2 == i && (2 * i + 1) % 2 == 1);
    }
}

/// A unit that is no half of a pair is read as a character: the one with its
/// number, or the replacement character where it is a surrogate.
pub proof fn lone_units_are_read_by_themselves(unit: u16, rest: Seq<u16>)
    requires
        !(0xD800 <= unit <= 0xDBFF && rest.len() > 0 && 0xDC00 <= rest[0] <= 0xDFFF),
    ensures
        ({
            let c = utf16_decode(seq![unit] + rest)[0];
            if 0xD800 <= unit <= 0xDFFF {
                c == '\u{FFFD}'
            } else {
                c as u32 == unit
            }
        }),
        utf16_decode(seq![unit] + rest).skip(1) == utf16_decode(rest),
{
    let all = seq![unit] + rest;
    assert(all.skip(1) =~= rest);
    if all.len() >= 2 {
        assert(all[1] == rest[0]);
    }
    assert(utf16_decode(all).skip(1) =~= utf16_decode(rest));
}

/// Text in UTF-8 is read as the text that it is.
pub proof fn utf8_is_read_back(s: Seq<char>)
    ensures
        utf8_text(encode_utf8(s)) == s,
{
    encode_utf8_valid_utf8(s);
    encode_utf8_decode_utf8(s);
}

} // verus!
