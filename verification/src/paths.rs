//! Paths, `file://` URIs, host names and addresses.

use vstd::prelude::*;
use vstd::utf8::*;

use crate::text;

verus! {

/// The value of a hexadecimal digit.
pub open spec fn hex_value(b: u8) -> Option<u8> {
    if 0x30 <= b <= 0x39 {
        Some((b - 0x30) as u8)
    } else if 0x41 <= b <= 0x46 {
        Some((b - 0x41 + 10) as u8)
    } else if 0x61 <= b <= 0x66 {
        Some((b - 0x61 + 10) as u8)
    } else {
        None
    }
}

/// The byte that the two digits behind a percent sign stand for.
pub open spec fn escape_value(a: u8, b: u8) -> Option<u8> {
    match (hex_value(a), hex_value(b)) {
        (Some(high), Some(low)) => Some((16 * high + low) as u8),
        _ => None,
    }
}

/// Bytes with each escape replaced by the byte that it stands for. What is no
/// escape stays.
pub open spec fn unescaped(bytes: Seq<u8>) -> Seq<u8>
    decreases bytes.len(),
{
    if bytes.len() == 0 {
        Seq::empty()
    } else if bytes[0] == 0x25 && bytes.len() > 2 && escape_value(bytes[1], bytes[2]) is Some {
        seq![escape_value(bytes[1], bytes[2])->0] + unescaped(bytes.skip(3))
    } else {
        seq![bytes[0]] + unescaped(bytes.skip(1))
    }
}

/// No percent sign has its two bytes end in the middle of a character.
pub open spec fn escapes_whole(bytes: Seq<u8>) -> bool {
    forall|i: int|
        0 <= i && i + 3 < bytes.len() && #[trigger] bytes[i] == 0x25 ==> !is_continuation_byte(
            bytes[i + 3],
        )
}

fn hex_digit_value(b: u8) -> (r: Option<u8>)
    ensures
        r == hex_value(b),
{
    if 0x30 <= b && b <= 0x39 {
        Some(b - 0x30)
    } else if 0x41 <= b && b <= 0x46 {
        Some(b - 0x41 + 10)
    } else if 0x61 <= b && b <= 0x66 {
        Some(b - 0x61 + 10)
    } else {
        None
    }
}

fn escaped_byte(a: u8, b: u8) -> (r: Option<u8>)
    ensures
        r == escape_value(a, b),
{
    match hex_digit_value(b) {
        Some(low) => match hex_digit_value(a) {
            Some(high) => Some(16 * high + low),
            None => None,
        },
        None => None,
    }
}

/// Whether `percent_decode` can take `s`.
pub fn can_percent_decode(s: &str) -> (r: bool)
    ensures
        r == escapes_whole(encode_utf8(s@)),
{
    let bytes: &[u8] = s.as_bytes();
    let mut i: usize = 0;
    while i < bytes.len() && 3 < bytes.len() - i
        invariant
            i <= bytes@.len(),
            bytes@.len() == bytes.len(),
            bytes@ == encode_utf8(s@),
            forall|j: int|
                0 <= j < i && j + 3 < bytes@.len() && #[trigger] bytes@[j] == 0x25
                    ==> !is_continuation_byte(bytes@[j + 3]),
        decreases bytes@.len() - i,
    {
        if bytes[i] == 0x25 && 0x80 <= bytes[i + 3] && bytes[i + 3] <= 0xBF {
            assert(is_continuation_byte(bytes@[i + 3]));
            return false;
        }
        i += 1;
    }
    true
}

/// Replaces each `%XX` of a path by its byte and reads the bytes as UTF-8.
pub fn percent_decode(s: &str) -> (r: String)
    requires
        escapes_whole(encode_utf8(s@)),
    ensures
        r@ == text::utf8_text(unescaped(encode_utf8(s@))),
{
    let bytes: &[u8] = s.as_bytes();
    let mut out: Vec<u8> = Vec::new();
    let mut i: usize = 0;
    assert(bytes@.skip(0) =~= bytes@);
    while i < bytes.len()
        invariant
            i <= bytes@.len(),
            bytes@.len() == bytes.len(),
            out@ + unescaped(bytes@.skip(i as int)) == unescaped(bytes@),
        decreases bytes@.len() - i,
    {
        let ghost rest = bytes@.skip(i as int);
        let ghost before = out@;
        let mut value: Option<u8> = None;
        if bytes[i] == 0x25 && bytes.len() - i > 2 {
            value = escaped_byte(bytes[i + 1], bytes[i + 2]);
        }
        match value {
            Some(byte) => {
                out.push(byte);
                i += 3;
                assert(rest.skip(3) =~= bytes@.skip(i as int));
            },
            None => {
                out.push(bytes[i]);
                i += 1;
                assert(rest.skip(1) =~= bytes@.skip(i as int));
            },
        }
        assert(out@ + unescaped(bytes@.skip(i as int)) =~= before + unescaped(rest));
    }
    assert(out@ =~= unescaped(bytes@));
    text::string_from_utf8_lossy(&out)
}

/// The characters that a path keeps in a URI.
pub open spec fn is_unreserved(b: u8) -> bool {
    0x41 <= b <= 0x5A || 0x61 <= b <= 0x7A || 0x30 <= b <= 0x39 || b == 0x2D || b == 0x5F || b
        == 0x2E || b == 0x7E || b == 0x2F
}

/// The upper-case hexadecimal digit for a number below sixteen.
pub open spec fn hex_digit(d: int) -> char {
    if d < 10 {
        (0x30 + d) as char
    } else {
        (0x41 + d - 10) as char
    }
}

/// A byte in a URI: itself, or its escape.
pub open spec fn escaped(b: u8) -> Seq<char> {
    if is_unreserved(b) {
        seq![b as char]
    } else {
        seq!['%', hex_digit(b as int / 16), hex_digit(b as int % 16)]
    }
}

/// Bytes in a URI.
pub open spec fn all_escaped(bytes: Seq<u8>) -> Seq<char>
    decreases bytes.len(),
{
    if bytes.len() == 0 {
        Seq::empty()
    } else {
        escaped(bytes[0]) + all_escaped(bytes.skip(1))
    }
}

fn hex_char(d: u8) -> (r: char)
    requires
        d < 16,
    ensures
        r == hex_digit(d as int),
{
    if d < 10 {
        (0x30 + d) as char
    } else {
        (0x41 + (d - 10)) as char
    }
}

/// Escapes every byte of a path that is not a letter, a digit or one of
/// `-_.~/`.
pub fn percent_encode_path(path: &str) -> (r: String)
    ensures
        r@ == all_escaped(encode_utf8(path@)),
{
    let bytes: &[u8] = path.as_bytes();
    let mut out: String = String::new();
    let mut i: usize = 0;
    assert(bytes@.skip(0) =~= bytes@);
    assert(out@ + all_escaped(bytes@) =~= all_escaped(bytes@));
    while i < bytes.len()
        invariant
            i <= bytes@.len(),
            out@ + all_escaped(bytes@.skip(i as int)) == all_escaped(bytes@),
        decreases bytes@.len() - i,
    {
        let ghost rest = bytes@.skip(i as int);
        let ghost before = out@;
        let b: u8 = bytes[i];
        if (0x41 <= b && b <= 0x5A) || (0x61 <= b && b <= 0x7A) || (0x30 <= b && b <= 0x39) || b
            == 0x2D || b == 0x5F || b == 0x2E || b == 0x7E || b == 0x2F {
            out.push(b as char);
        } else {
            out.push('%');
            out.push(hex_char(b / 16));
            out.push(hex_char(b % 16));
        }
        i += 1;
        assert(rest.skip(1) =~= bytes@.skip(i as int));
        assert(out@ =~= before + escaped(b));
        assert(out@ + all_escaped(bytes@.skip(i as int)) =~= before + all_escaped(rest));
    }
    assert(out@ =~= all_escaped(bytes@));
    out
}

proof fn lemma_escaped_chars(bytes: Seq<u8>)
    ensures
        forall|i: int|
            0 <= i < all_escaped(bytes).len() ==> '!' <= #[trigger] all_escaped(bytes)[i] <= '~',
    decreases bytes.len(),
{
    if bytes.len() > 0 {
        lemma_escaped_chars(bytes.skip(1));
        let first = escaped(bytes[0]);
        let rest = all_escaped(bytes.skip(1));
        assert forall|i: int| 0 <= i < all_escaped(bytes).len() implies '!' <= #[trigger] all_escaped(
            bytes,
        )[i] <= '~' by {
            if i < first.len() {
                assert(all_escaped(bytes)[i] == first[i]);
            } else {
                assert(all_escaped(bytes)[i] == rest[i - first.len()]);
            }
        }
    }
}

proof fn lemma_escape_value(b: u8)
    ensures
        escape_value(
            hex_digit(b as int / 16) as u8,
            hex_digit(b as int % 16) as u8,
        ) == Some(b),
{
    let high = b as int / 16;
    let low = b as int % 16;
    assert(hex_value(hex_digit(high) as u8) == Some(high as u8));
    assert(hex_value(hex_digit(low) as u8) == Some(low as u8));
}

proof fn lemma_unescape(bytes: Seq<u8>, encoded: Seq<u8>)
    requires
        encoded.len() == all_escaped(bytes).len(),
        forall|i: int|
            0 <= i < encoded.len() ==> #[trigger] encoded[i] == all_escaped(bytes)[i] as u8,
    ensures
        unescaped(encoded) == bytes,
    decreases bytes.len(),
{
    if bytes.len() > 0 {
        let b = bytes[0];
        let first = escaped(b);
        let rest = all_escaped(bytes.skip(1));
        let n = first.len() as int;
        assert forall|i: int| 0 <= i < encoded.skip(n).len() implies #[trigger] encoded.skip(n)[i]
            == rest[i] as u8 by {
            assert(encoded[n + i] == all_escaped(bytes)[n + i] as u8);
        }
        lemma_unescape(bytes.skip(1), encoded.skip(n));
        assert(encoded[0] == first[0] as u8);
        if is_unreserved(b) {
            assert(unescaped(encoded) =~= bytes);
        } else {
            assert(encoded[1] == first[1] as u8);
            assert(encoded[2] == first[2] as u8);
            lemma_escape_value(b);
            assert(unescaped(encoded) =~= bytes);
        }
    } else {
        assert(unescaped(encoded) =~= bytes);
    }
}

/// A path that is encoded can be decoded, and comes back as it was.
pub proof fn percent_round_trip(path: Seq<char>)
    ensures
        escapes_whole(encode_utf8(all_escaped(encode_utf8(path)))),
        text::utf8_text(unescaped(encode_utf8(all_escaped(encode_utf8(path))))) == path,
{
    let bytes = encode_utf8(path);
    let chars = all_escaped(bytes);
    lemma_escaped_chars(bytes);
    assert(is_ascii_chars(chars));
    is_ascii_chars_encode_utf8(chars);
    let encoded = encode_utf8(chars);
    assert forall|i: int| 0 <= i < encoded.len() implies #[trigger] encoded[i] < 0x80 by {
        assert(chars[i] <= '~');
    }
    lemma_unescape(bytes, encoded);
    encode_utf8_valid_utf8(path);
    encode_utf8_decode_utf8(path);
}

/// What stands before the path in a URI of a local file.
pub const FILE_SCHEME: &'static str = "file://";

/// The URI of a local file.
pub open spec fn uri_of(path: Seq<char>) -> Seq<char> {
    FILE_SCHEME@ + all_escaped(encode_utf8(path))
}

/// The URI of a local file, as it goes onto the clipboard.
pub fn file_uri(path: &str) -> (r: String)
    ensures
        r@ == uri_of(path@),
{
    let mut r: String = String::from_str(FILE_SCHEME);
    r.append(percent_encode_path(path).as_str());
    r
}

/// The first line that is neither blank nor a comment, trimmed.
pub open spec fn first_entry(list: Seq<char>) -> Option<Seq<char>>
    decreases list.len(),
{
    let end = text::find_from(list, seq!['\n'], 0);
    let line = text::trimmed_end(
        text::trimmed_start(
            if end is Some {
                list.take(end->0)
            } else {
                list
            },
        ),
    );
    if line.len() > 0 && line[0] != '#' {
        Some(line)
    } else if end is Some && 0 <= end->0 < list.len() {
        first_entry(list.skip(end->0 + 1))
    } else {
        None
    }
}

/// The path in the first entry of a URI list, still escaped: `None` where that
/// entry is no file.
pub open spec fn escaped_path(list: Seq<char>) -> Option<Seq<char>> {
    match first_entry(list) {
        Some(entry) if text::occurs_at(entry, FILE_SCHEME@, 0) => Some(
            entry.skip(FILE_SCHEME@.len() as int),
        ),
        _ => None,
    }
}

/// The path of the file that a URI list starts with.
pub open spec fn first_file(list: Seq<char>) -> Option<Seq<char>> {
    match escaped_path(list) {
        Some(path) => Some(text::utf8_text(unescaped(encode_utf8(path)))),
        None => None,
    }
}

/// Finds the path in the first entry of a URI list and leaves it escaped.
pub fn first_escaped_path(uri_list: &str) -> (r: Option<String>)
    ensures
        escaped_path(uri_list@) == (match r {
            Some(path) => Some(path@),
            None => None,
        }),
{
    let chars: Vec<char> = text::str_chars(uri_list);
    let newline: [char; 1] = ['\n'];
    assert(newline@ =~= seq!['\n']);
    let scheme: Vec<char> = text::str_chars(FILE_SCHEME);
    proof {
        reveal_strlit("file://");
    }
    let mut start: usize = 0;
    assert(chars@.skip(0) =~= chars@);
    loop
        invariant
            start <= chars@.len(),
            newline@ == seq!['\n'],
            chars@ == uri_list@,
            scheme@ == FILE_SCHEME@,
            scheme@.len() == 7,
            first_entry(uri_list@) == first_entry(chars@.skip(start as int)),
        decreases chars@.len() - start,
    {
        let rest: &[char] = vstd::slice::slice_subrange(chars.as_slice(), start, chars.len());
        assert(rest@ =~= chars@.skip(start as int));
        let found: Option<usize> = text::find(rest, &newline, 0);
        proof {
            text::lemma_find_from(rest@, newline@, 0);
        }
        let end: usize = match found {
            Some(at) => at,
            None => rest.len(),
        };
        let line: &[char] = vstd::slice::slice_subrange(rest, 0, end);
        assert(line@ =~= rest@.take(end as int));
        assert(rest@.take(rest@.len() as int) =~= rest@);
        let entry: &[char] = text::trim(line);
        if entry.len() > 0 && entry[0] != '#' {
            if text::stands_at(entry, &scheme, 0) {
                let path: &[char] = vstd::slice::slice_subrange(entry, 7, entry.len());
                assert(path@ =~= entry@.skip(7));
                return Some(text::chars_to_string(path));
            }
            return None;
        }
        if found.is_none() {
            return None;
        }
        assert(rest@.skip(end + 1) =~= chars@.skip(start + end + 1));
        start = start + end + 1;
    }
}

/// The path of the file that a URI list starts with. Only one file is ever
/// transferred: further entries are left out.
pub fn parse_first_file_uri(uri_list: &str) -> (r: Option<String>)
    requires
        escaped_path(uri_list@) is Some ==> escapes_whole(
            encode_utf8(escaped_path(uri_list@)->0),
        ),
    ensures
        first_file(uri_list@) == (match r {
            Some(path) => Some(path@),
            None => None,
        }),
{
    match first_escaped_path(uri_list) {
        Some(path) => Some(percent_decode(path.as_str())),
        None => None,
    }
}

/// A file whose URI is put on the clipboard, with a line end behind it, is the
/// file that is read back from there.
pub proof fn file_uri_is_read_back(path: Seq<char>)
    ensures
        escaped_path(uri_of(path) + seq!['\n']) == Some(all_escaped(encode_utf8(path))),
        first_file(uri_of(path) + seq!['\n']) == Some(path),
        first_file(uri_of(path)) == Some(path),
{
    let newline = seq!['\n'];
    let uri = uri_of(path);
    let escaped = all_escaped(encode_utf8(path));
    reveal_strlit("file://");
    lemma_escaped_chars(encode_utf8(path));
    percent_round_trip(path);
    assert forall|i: int| 0 <= i < uri.len() implies '!' <= #[trigger] uri[i] <= '~' by {
        if i >= 7 {
            assert(uri[i] == escaped[i - 7]);
        }
    }
    text::lemma_nothing_to_trim(uri);
    assert(uri.subrange(0, 7) =~= FILE_SCHEME@);
    assert(uri.skip(7) =~= escaped);
    let list = uri + newline;
    assert forall|j: int| 0 <= j < uri.len() implies !text::occurs_at(list, newline, j) by {
        assert(list.subrange(j, j + 1)[0] == uri[j]);
    }
    assert(list.subrange(uri.len() as int, uri.len() as int + 1) =~= newline);
    text::lemma_found(list, newline, 0, uri.len() as int);
    assert(list.take(uri.len() as int) =~= uri);
    text::lemma_find_from(uri, newline, 0);
    assert forall|j: int| 0 <= j implies !text::occurs_at(uri, newline, j) by {
        if j < uri.len() {
            assert(uri.subrange(j, j + 1)[0] == uri[j]);
        }
    }
    assert(text::find_from(uri, newline, 0) is None);
}

/// The host in `host:port`: what stands before the last colon.
pub open spec fn host_of(address: Seq<char>) -> Seq<char> {
    match text::last_index(address, seq![':']) {
        Some(at) => address.take(at),
        None => address,
    }
}

/// Takes the port off an address. Without a colon the address stays.
pub fn windows_clipboard_host(windows_ip: &str) -> (r: String)
    ensures
        r@ == host_of(windows_ip@),
{
    let chars: Vec<char> = text::str_chars(windows_ip);
    let colon: [char; 1] = [':'];
    assert(colon@ =~= seq![':']);
    match text::rfind(chars.as_slice(), &colon) {
        Some(at) => {
            assert(chars@.subrange(0, at as int) =~= chars@.take(at as int));
            text::chars_to_string(vstd::slice::slice_subrange(chars.as_slice(), 0, at))
        },
        None => text::chars_to_string(chars.as_slice()),
    }
}

/// The name behind the last slash or backslash.
pub open spec fn basename(path: Seq<char>) -> Seq<char> {
    match text::last_index(path, seq!['/', '\\']) {
        Some(at) => path.skip(at + 1),
        None => path,
    }
}

/// The file name in a Windows path.
pub fn windows_basename(path: &str) -> (r: String)
    ensures
        r@ == basename(path@),
{
    let chars: Vec<char> = text::str_chars(path);
    let n: usize = chars.len();
    let separators: [char; 2] = ['/', '\\'];
    assert(separators@ =~= seq!['/', '\\']);
    match text::rfind(chars.as_slice(), &separators) {
        Some(at) => {
            assert(chars@.subrange(at + 1, chars@.len() as int) =~= chars@.skip(at + 1));
            text::chars_to_string(vstd::slice::slice_subrange(chars.as_slice(), at + 1, n))
        },
        None => text::chars_to_string(chars.as_slice()),
    }
}

/// A file name holds no separator, and it is the end of the path that it was
/// taken from.
pub proof fn basename_has_no_separator(path: Seq<char>)
    ensures
        forall|i: int|
            0 <= i < basename(path).len() ==> #[trigger] basename(path)[i] != '/' && basename(
                path,
            )[i] != '\\',
        path.skip(path.len() - basename(path).len()) == basename(path),
{
    let separators = seq!['/', '\\'];
    text::lemma_last_index(path, separators);
    assert(separators[0] == '/' && separators[1] == '\\');
    assert(separators.contains('/') && separators.contains('\\'));
    let start = path.len() - basename(path).len();
    assert forall|i: int| 0 <= i < basename(path).len() implies #[trigger] basename(path)[i] != '/'
        && basename(path)[i] != '\\' by {
        assert(basename(path)[i] == path[start + i]);
    }
    assert(path.skip(start) =~= basename(path));
}

/// The last component of a path: its last segment that is neither empty nor a
/// dot. A path that ends in two dots has none.
pub open spec fn last_component(path: Seq<char>) -> Option<Seq<char>>
    decreases path.len(),
{
    let slash = text::last_index(path, seq!['/']);
    let segment = if slash is Some {
        path.skip(slash->0 + 1)
    } else {
        path
    };
    if segment == seq!['.', '.'] {
        None
    } else if segment.len() > 0 && segment != seq!['.'] {
        Some(segment)
    } else if slash is Some && 0 <= slash->0 < path.len() {
        last_component(path.take(slash->0))
    } else {
        None
    }
}

/// The last component of a local path.
pub fn file_name(path: &str) -> (r: Option<String>)
    ensures
        last_component(path@) == (match r {
            Some(name) => Some(name@),
            None => None,
        }),
{
    let chars: Vec<char> = text::str_chars(path);
    let separator: [char; 1] = ['/'];
    assert(separator@ =~= seq!['/']);
    let mut end: usize = chars.len();
    assert(chars@.take(end as int) =~= chars@);
    loop
        invariant
            end <= chars@.len(),
            separator@ == seq!['/'],
            last_component(path@) == last_component(chars@.take(end as int)),
        decreases end,
    {
        let rest: &[char] = vstd::slice::slice_subrange(chars.as_slice(), 0, end);
        assert(rest@ =~= chars@.take(end as int));
        let slash: Option<usize> = text::rfind(rest, &separator);
        let start: usize = match slash {
            Some(at) => at + 1,
            None => 0,
        };
        let segment: &[char] = vstd::slice::slice_subrange(rest, start, rest.len());
        assert(segment@ =~= (if slash is Some {
            rest@.skip(slash->0 + 1)
        } else {
            rest@
        }));
        let dots: bool = segment.len() == 2 && segment[0] == '.' && segment[1] == '.';
        let dot: bool = segment.len() == 1 && segment[0] == '.';
        assert(dots == (segment@ =~= seq!['.', '.']));
        assert(dot == (segment@ =~= seq!['.']));
        if dots {
            return None;
        }
        if segment.len() > 0 && !dot {
            return Some(text::chars_to_string(segment));
        }
        match slash {
            Some(at) => {
                assert(rest@.take(at as int) =~= chars@.take(at as int));
                end = at;
            },
            None => {
                return None;
            },
        }
    }
}

/// The components of a path behind its start, each with a slash before it.
/// Empty segments and single dots are no components.
pub open spec fn components(path: Seq<char>) -> Seq<char>
    decreases path.len(),
{
    let slash = text::find_from(path, seq!['/'], 0);
    let segment = if slash is Some {
        path.take(slash->0)
    } else {
        path
    };
    let first = if segment.len() == 0 || segment == seq!['.'] {
        Seq::empty()
    } else {
        seq!['/'] + segment
    };
    if slash is Some && 0 <= slash->0 < path.len() {
        first + components(path.skip(slash->0 + 1))
    } else {
        first
    }
}

/// A path starts with a dot that is a segment of its own.
pub open spec fn starts_at_dot(path: Seq<char>) -> bool {
    path.len() > 0 && path[0] == '.' && (path.len() == 1 || path[1] == '/')
}

/// What tells paths apart: whether they start at the root or at a dot, and
/// their components.
pub open spec fn path_key(path: Seq<char>) -> Seq<char> {
    if path.len() > 0 && path[0] == '/' {
        seq!['/'] + components(path)
    } else if starts_at_dot(path) {
        seq!['.'] + components(path)
    } else {
        components(path)
    }
}

/// Two spellings of one path, such as with and without a slash at the end.
pub open spec fn same_path(a: Seq<char>, b: Seq<char>) -> bool {
    path_key(a) == path_key(b)
}

fn key_of_path(path: &str) -> (r: String)
    ensures
        r@ == path_key(path@),
{
    let chars: Vec<char> = text::str_chars(path);
    let separator: [char; 1] = ['/'];
    assert(separator@ =~= seq!['/']);
    let mut key: String = String::new();
    if chars.len() > 0 && chars[0] == '/' {
        key.push('/');
    } else if chars.len() > 0 && chars[0] == '.' && (chars.len() == 1 || chars[1] == '/') {
        key.push('.');
    }
    let mut start: usize = 0;
    assert(chars@.skip(0) =~= chars@);
    assert(key@ + components(chars@) =~= path_key(chars@));
    loop
        invariant
            start <= chars@.len(),
            separator@ == seq!['/'],
            key@ + components(chars@.skip(start as int)) == path_key(path@),
        decreases chars@.len() - start,
    {
        let rest: &[char] = vstd::slice::slice_subrange(chars.as_slice(), start, chars.len());
        assert(rest@ =~= chars@.skip(start as int));
        let ghost before = key@;
        let found: Option<usize> = text::find(rest, &separator, 0);
        proof {
            text::lemma_find_from(rest@, separator@, 0);
        }
        let end: usize = match found {
            Some(at) => at,
            None => rest.len(),
        };
        let segment: &[char] = vstd::slice::slice_subrange(rest, 0, end);
        assert(segment@ =~= (if found is Some {
            rest@.take(end as int)
        } else {
            rest@
        }));
        let dot: bool = segment.len() == 1 && segment[0] == '.';
        assert(dot == (segment@ =~= seq!['.']));
        if segment.len() > 0 && !dot {
            key.push('/');
            key.append(text::chars_to_string(segment).as_str());
            assert(key@ =~= before + (seq!['/'] + segment@));
        }
        if found.is_none() {
            assert(key@ =~= path_key(path@));
            return key;
        }
        assert(rest@.skip(end + 1) =~= chars@.skip(start + end + 1));
        start = start + end + 1;
        assert(key@ + components(chars@.skip(start as int)) =~= before + components(rest@));
    }
}

/// Whether two spellings are of one path.
pub fn is_same_path(a: &str, b: &str) -> (r: bool)
    ensures
        r == same_path(a@, b@),
{
    key_of_path(a) == key_of_path(b)
}

/// A relative path under a directory.
pub open spec fn joined(dir: Seq<char>, name: Seq<char>) -> Seq<char> {
    if dir.len() == 0 || dir.last() == '/' {
        dir + name
    } else {
        dir + seq!['/'] + name
    }
}

/// Puts a relative path under a directory.
pub fn join_path(dir: &str, name: &str) -> (r: String)
    ensures
        r@ == joined(dir@, name@),
{
    let chars: Vec<char> = text::str_chars(dir);
    let mut r: String = text::chars_to_string(chars.as_slice());
    if chars.len() > 0 && chars[chars.len() - 1] != '/' {
        r.push('/');
    }
    r.append(name);
    assert(r@ =~= joined(dir@, name@));
    r
}

/// The address of a peer.
#[allow(inconsistent_fields)]
#[derive(Clone, Copy, Debug, PartialEq, Eq)]
pub enum PeerAddr {
    V4 { ip: [u8; 4], port: u16 },
    V6 { ip: [u8; 16], port: u16, flowinfo: u32, scope_id: u32 },
}

/// The same address with another port.
pub open spec fn at_port(addr: PeerAddr, port: u16) -> PeerAddr {
    match addr {
        PeerAddr::V4 { ip, port: _ } => PeerAddr::V4 { ip, port },
        PeerAddr::V6 { ip, port: _, flowinfo, scope_id } => PeerAddr::V6 {
            ip,
            port,
            flowinfo,
            scope_id,
        },
    }
}

/// The port of an address.
pub open spec fn port_of(addr: PeerAddr) -> u16 {
    match addr {
        PeerAddr::V4 { ip: _, port } => port,
        PeerAddr::V6 { ip: _, port, flowinfo: _, scope_id: _ } => port,
    }
}

/// Changing the port changes nothing else: the address has the new port, and
/// with its old port it is what it was.
pub proof fn only_the_port_changes(addr: PeerAddr, port: u16)
    ensures
        port_of(at_port(addr, port)) == port,
        at_port(at_port(addr, port), port_of(addr)) == addr,
{
}

/// The same address with another port. A link-local address keeps its scope,
/// without which nothing reaches it.
pub fn with_port(addr: PeerAddr, port: u16) -> (r: PeerAddr)
    ensures
        r == at_port(addr, port),
        match addr {
            PeerAddr::V4 { ip, port: _ } => r == (PeerAddr::V4 { ip, port }),
            PeerAddr::V6 { ip, port: _, flowinfo, scope_id } => r == (PeerAddr::V6 {
                ip,
                port,
                flowinfo,
                scope_id,
            }),
        },
{
    match addr {
        PeerAddr::V4 { ip, port: _ } => PeerAddr::V4 { ip, port },
        PeerAddr::V6 { ip, port: _, flowinfo, scope_id } => PeerAddr::V6 {
            ip,
            port,
            flowinfo,
            scope_id,
        },
    }
}

/// The name in a path is what stands behind its last slash or backslash,
/// whatever else it holds: it is the whole path, or one of the two stands right
/// before it.
pub proof fn basename_starts_behind_a_separator(path: Seq<char>)
    ensures
        basename(path).len() <= path.len(),
        basename(path).len() < path.len() ==> ({
            let before = path[path.len() - basename(path).len() - 1];
            before == '/' || before == '\\'
        }),
        (forall|i: int| 0 <= i < path.len() ==> #[trigger] path[i] != '/' && path[i] != '\\')
            ==> basename(path) == path,
{
    let separators = seq!['/', '\\'];
    text::lemma_last_index(path, separators);
    if text::last_index(path, separators) is Some {
        let at = text::last_index(path, separators)->0;
        assert(separators.contains(path[at]));
        assert(path[at] == separators[0] || path[at] == separators[1]);
    }
}

/// A name without separators is the name of every path that ends with it.
pub proof fn basename_of_a_path(dir: Seq<char>, separator: char, name: Seq<char>)
    requires
        separator == '/' || separator == '\\',
        forall|i: int| 0 <= i < name.len() ==> #[trigger] name[i] != '/' && name[i] != '\\',
    ensures
        basename(dir + seq![separator] + name) == name,
{
    let path = dir + seq![separator] + name;
    let separators = seq!['/', '\\'];
    let at = dir.len() as int;
    assert(separators[0] == '/' && separators[1] == '\\');
    assert(separators.contains('/') && separators.contains('\\'));
    assert forall|j: int| at < j < path.len() implies !separators.contains(#[trigger] path[j]) by {
        assert(path[j] == name[j - at - 1]);
    }
    text::lemma_last_at(path, separators, at);
    assert(path.skip(at + 1) =~= name);
}

/// The port is what stands behind the last colon; a host may hold colons of
/// its own, and an address without one is a host.
pub proof fn host_stands_before_the_port(host: Seq<char>, port: Seq<char>)
    requires
        forall|i: int| 0 <= i < port.len() ==> #[trigger] port[i] != ':',
    ensures
        host_of(host + seq![':'] + port) == host,
        host_of(port) == port,
{
    let address = host + seq![':'] + port;
    let colon = seq![':'];
    let at = host.len() as int;
    assert(colon[0] == ':');
    assert(colon.contains(':'));
    assert forall|j: int| at < j < address.len() implies !colon.contains(#[trigger] address[j]) by {
        assert(address[j] == port[j - at - 1]);
    }
    text::lemma_last_at(address, colon, at);
    assert(address.take(at) =~= host);
    text::lemma_last_index(port, colon);
}

/// A hexadecimal digit has its value in either case, and nothing else is one.
pub proof fn hex_digits_have_values(b: u8)
    ensures
        b < 0x30 || 0x39 < b < 0x41 || 0x46 < b < 0x61 || b > 0x66 ==> hex_value(b) is None,
        0x30 <= b <= 0x39 ==> hex_value(b) == Some((b - 0x30) as u8),
        0x41 <= b <= 0x46 ==> hex_value(b) == Some((b - 0x37) as u8),
        0x61 <= b <= 0x66 ==> hex_value(b) == Some((b - 0x57) as u8),
{
}

/// A percent sign and two hexadecimal digits are the byte with that value;
/// every other byte is itself, a percent sign without two digits behind it too.
pub proof fn escapes_are_read_one_by_one(b: u8, rest: Seq<u8>)
    ensures
        unescaped(Seq::empty()) == Seq::<u8>::empty(),
        ({
            let escape = b == 0x25 && rest.len() >= 2 && hex_value(rest[0]) is Some && hex_value(
                rest[1],
            ) is Some;
            let got = unescaped(seq![b] + rest);
            if escape {
                &&& got.len() > 0
                &&& got[0] == 16 * (hex_value(rest[0])->0) + hex_value(rest[1])->0
                &&& got.skip(1) == unescaped(rest.skip(2))
            } else {
                got == seq![b] + unescaped(rest)
            }
        }),
{
    let all = seq![b] + rest;
    assert(all.skip(1) =~= rest);
    if all.len() > 2 {
        assert(all[1] == rest[0] && all[2] == rest[1]);
        assert(all.skip(3) =~= rest.skip(2));
    }
    let got = unescaped(all);
    if b == 0x25 && rest.len() >= 2 && hex_value(rest[0]) is Some && hex_value(rest[1]) is Some {
        assert(got.skip(1) =~= unescaped(rest.skip(2)));
    }
}

/// Letters, digits and `-_.~/` stay as they are; every other byte becomes a
/// percent sign and its two digits, in upper case.
pub proof fn bytes_are_escaped_one_by_one(b: u8, rest: Seq<u8>)
    ensures
        all_escaped(Seq::empty()) == Seq::<char>::empty(),
        ({
            let kept = 0x41 <= b <= 0x5A || 0x61 <= b <= 0x7A || 0x30 <= b <= 0x39 || b == 0x2D || b
                == 0x5F || b == 0x2E || b == 0x7E || b == 0x2F;
            let got = all_escaped(seq![b] + rest);
            if kept {
                &&& got.len() > 0
                &&& got[0] as u32 == b
                &&& got.skip(1) == all_escaped(rest)
            } else {
                &&& got.len() >= 3
                &&& got[0] == '%'
                &&& hex_value(got[1] as u8) == Some((b / 16) as u8)
                &&& hex_value(got[2] as u8) == Some((b % 16) as u8)
                &&& !('a' <= got[1] <= 'z') && !('a' <= got[2] <= 'z')
                &&& got.skip(3) == all_escaped(rest)
            }
        }),
{
    let all = seq![b] + rest;
    assert(all.skip(1) =~= rest);
    let got = all_escaped(all);
    if is_unreserved(b) {
        assert(got.skip(1) =~= all_escaped(rest));
    } else {
        lemma_escape_value(b);
        assert(got[1] == hex_digit(b as int / 16));
        assert(got[2] == hex_digit(b as int % 16));
        assert(got.skip(3) =~= all_escaped(rest));
    }
}

/// A line that is blank or a comment is passed over.
pub proof fn blank_lines_and_comments_are_passed_over(line: Seq<char>, rest: Seq<char>)
    requires
        forall|i: int| 0 <= i < line.len() ==> #[trigger] line[i] != '\n',
        ({
            let entry = text::trimmed_end(text::trimmed_start(line));
            entry.len() == 0 || entry[0] == '#'
        }),
    ensures
        first_entry(line + seq!['\n'] + rest) == first_entry(rest),
        first_entry(line) is None,
{
    lemma_first_line(line, rest);
    lemma_only_line(line);
    assert((line + seq!['\n'] + rest).skip(line.len() as int + 1) =~= rest);
}

/// The first line that is neither is the entry, without the white space around
/// it, whatever follows.
pub proof fn first_line_is_the_entry(line: Seq<char>, rest: Seq<char>)
    requires
        forall|i: int| 0 <= i < line.len() ==> #[trigger] line[i] != '\n',
        ({
            let entry = text::trimmed_end(text::trimmed_start(line));
            entry.len() > 0 && entry[0] != '#'
        }),
    ensures
        first_entry(line + seq!['\n'] + rest) == Some(
            text::trimmed_end(text::trimmed_start(line)),
        ),
        first_entry(line) == Some(text::trimmed_end(text::trimmed_start(line))),
{
    lemma_first_line(line, rest);
    lemma_only_line(line);
}

proof fn lemma_first_line(line: Seq<char>, rest: Seq<char>)
    requires
        forall|i: int| 0 <= i < line.len() ==> #[trigger] line[i] != '\n',
    ensures
        ({
            let list = line + seq!['\n'] + rest;
            &&& text::find_from(list, seq!['\n'], 0) == Some(line.len() as int)
            &&& list.take(line.len() as int) == line
        }),
{
    let list = line + seq!['\n'] + rest;
    let newline = seq!['\n'];
    let at = line.len() as int;
    assert(list.subrange(at, at + 1) =~= newline);
    assert forall|j: int| 0 <= j < at implies !text::occurs_at(list, newline, j) by {
        assert(list.subrange(j, j + 1)[0] == line[j]);
    }
    text::lemma_found(list, newline, 0, at);
    assert(list.take(at) =~= line);
}

proof fn lemma_only_line(line: Seq<char>)
    requires
        forall|i: int| 0 <= i < line.len() ==> #[trigger] line[i] != '\n',
    ensures
        text::find_from(line, seq!['\n'], 0) is None,
{
    let newline = seq!['\n'];
    text::lemma_find_from(line, newline, 0);
    assert forall|j: int| 0 <= j implies !text::occurs_at(line, newline, j) by {
        if j < line.len() {
            assert(line.subrange(j, j + 1)[0] == line[j]);
        }
    }
}

/// An entry is a file exactly where it starts with `file://`, and its path is
/// what follows.
pub proof fn files_start_with_their_scheme(list: Seq<char>)
    ensures
        match first_entry(list) {
            Some(entry) => match escaped_path(list) {
                Some(path) => entry == "file://"@ + path,
                None => forall|path: Seq<char>| entry != #[trigger] ("file://"@ + path),
            },
            None => escaped_path(list) is None,
        },
{
    reveal_strlit("file://");
    if first_entry(list) is Some {
        let entry = first_entry(list)->0;
        if escaped_path(list) is Some {
            assert(entry =~= entry.subrange(0, 7) + entry.skip(7));
        } else {
            assert forall|path: Seq<char>| entry != #[trigger] ("file://"@ + path) by {
                let whole = "file://"@ + path;
                assert(whole.subrange(0, 7) =~= "file://"@);
            }
        }
    }
}

/// A proper name is the last component of every path that ends with it, with
/// or without a slash behind it.
pub proof fn proper_names_are_components(dir: Seq<char>, name: Seq<char>)
    requires
        name.len() > 0,
        name != seq!['.'],
        name != seq!['.', '.'],
        forall|i: int| 0 <= i < name.len() ==> #[trigger] name[i] != '/',
    ensures
        last_component(name) == Some(name),
        last_component(dir + seq!['/'] + name) == Some(name),
{
    lemma_last_segment(dir, name);
    lemma_only_segment(name);
}

/// A slash, or a slash and a dot, at the end of a path changes nothing; two
/// dots there leave no component.
pub proof fn slashes_and_dots_end_a_path(path: Seq<char>)
    ensures
        last_component(Seq::empty()) is None,
        last_component(seq!['.']) is None,
        last_component(path + seq!['/']) == last_component(path),
        last_component(path + seq!['/'] + seq!['.']) == last_component(path),
        last_component(path + seq!['/'] + seq!['.', '.']) is None,
        last_component(seq!['.', '.']) is None,
{
    let none = Seq::<char>::empty();
    let dot = seq!['.'];
    let dots = seq!['.', '.'];
    assert(dot.len() == 1 && dots.len() == 2);
    assert(path + seq!['/'] + none =~= path + seq!['/']);
    lemma_last_segment(path, none);
    lemma_last_segment(path, dot);
    lemma_last_segment(path, dots);
    lemma_only_segment(none);
    lemma_only_segment(dot);
    lemma_only_segment(dots);
}

proof fn lemma_last_segment(dir: Seq<char>, name: Seq<char>)
    requires
        forall|i: int| 0 <= i < name.len() ==> #[trigger] name[i] != '/',
    ensures
        ({
            let path = dir + seq!['/'] + name;
            &&& text::last_index(path, seq!['/']) == Some(dir.len() as int)
            &&& path.skip(dir.len() as int + 1) == name
            &&& path.take(dir.len() as int) == dir
        }),
{
    let path = dir + seq!['/'] + name;
    let slash = seq!['/'];
    let at = dir.len() as int;
    assert(slash[0] == '/');
    assert(slash.contains('/'));
    assert forall|j: int| at < j < path.len() implies !slash.contains(#[trigger] path[j]) by {
        assert(path[j] == name[j - at - 1]);
    }
    text::lemma_last_at(path, slash, at);
    assert(path.skip(at + 1) =~= name);
    assert(path.take(at) =~= dir);
}

proof fn lemma_only_segment(name: Seq<char>)
    requires
        forall|i: int| 0 <= i < name.len() ==> #[trigger] name[i] != '/',
    ensures
        text::last_index(name, seq!['/']) is None,
{
    text::lemma_last_index(name, seq!['/']);
}

/// A joined path starts with the directory and ends with the name, with exactly
/// one slash between them that either the directory brings along or is put
/// there; an empty directory gets none.
pub proof fn joined_paths_have_one_slash(dir: Seq<char>, name: Seq<char>)
    ensures
        dir.len() == 0 ==> joined(dir, name) == name,
        dir.len() > 0 ==> joined(dir, name).take(dir.len() as int) == dir,
        joined(dir, name).skip(joined(dir, name).len() - name.len()) == name,
        dir.len() > 0 && dir.last() == '/' ==> joined(dir, name).len() == dir.len() + name.len(),
        dir.len() > 0 && dir.last() != '/' ==> joined(dir, name).len() == dir.len() + name.len() + 1
            && joined(dir, name)[dir.len() as int] == '/',
{
    let all = joined(dir, name);
    if dir.len() == 0 {
        assert(all =~= name);
    }
    assert(all.take(dir.len() as int) =~= dir);
    assert(all.skip(all.len() - name.len()) =~= name);
}

/// The components of a path that is made of two are those of the first,
/// followed by those of the second.
pub proof fn components_follow_the_path(a: Seq<char>, b: Seq<char>)
    ensures
        components(a + seq!['/'] + b) == components(a) + components(b),
    decreases a.len(),
{
    let slash = seq!['/'];
    let all = a + slash + b;
    text::lemma_find_from(a, slash, 0);
    match text::find_from(a, slash, 0) {
        Some(at) => {
            assert(a.subrange(at, at + 1)[0] == '/');
            assert forall|j: int| 0 <= j < at implies !text::occurs_at(all, slash, j) by {
                assert(!text::occurs_at(a, slash, j));
                assert(all.subrange(j, j + 1) =~= a.subrange(j, j + 1));
            }
            assert(all.subrange(at, at + 1) =~= a.subrange(at, at + 1));
            text::lemma_found(all, slash, 0, at);
            assert(all.take(at) =~= a.take(at));
            assert(all.skip(at + 1) =~= a.skip(at + 1) + slash + b);
            components_follow_the_path(a.skip(at + 1), b);
            assert(components(all) =~= components(a) + components(b));
        },
        None => {
            let at = a.len() as int;
            assert(all.subrange(at, at + 1) =~= slash);
            assert forall|j: int| 0 <= j < at implies !text::occurs_at(all, slash, j) by {
                assert(!text::occurs_at(a, slash, j));
                assert(all.subrange(j, j + 1) =~= a.subrange(j, j + 1));
            }
            text::lemma_found(all, slash, 0, at);
            assert(all.take(at) =~= a);
            assert(all.skip(at + 1) =~= b);
            assert(components(all) =~= components(a) + components(b));
        },
    }
}

proof fn lemma_one_segment(name: Seq<char>)
    requires
        forall|i: int| 0 <= i < name.len() ==> #[trigger] name[i] != '/',
    ensures
        components(name) == if name.len() == 0 || name == seq!['.'] {
            Seq::<char>::empty()
        } else {
            seq!['/'] + name
        },
{
    let slash = seq!['/'];
    text::lemma_find_from(name, slash, 0);
    assert forall|j: int| 0 <= j implies !text::occurs_at(name, slash, j) by {
        if j < name.len() {
            assert(name.subrange(j, j + 1)[0] == name[j]);
        }
    }
    assert(text::find_from(name, slash, 0) is None);
}

/// A slash, or a slash and a dot, at the end of a path leaves it the same path.
pub proof fn trailing_slashes_do_not_matter(path: Seq<char>)
    requires
        path.len() > 0,
    ensures
        same_path(path, path + seq!['/']),
        same_path(path, path + seq!['/', '.']),
{
    let none = Seq::<char>::empty();
    let dot = seq!['.'];
    assert(dot[0] == '.');
    lemma_one_segment(none);
    lemma_one_segment(dot);
    components_follow_the_path(path, none);
    components_follow_the_path(path, dot);
    let a = path + seq!['/'];
    let b = path + seq!['/', '.'];
    assert(path + seq!['/'] + none =~= a);
    assert(path + seq!['/'] + dot =~= b);
    assert(components(a) =~= components(path));
    assert(components(b) =~= components(path));
    assert(a[0] == path[0] && b[0] == path[0]);
    if path.len() > 1 {
        assert(a[1] == path[1] && b[1] == path[1]);
    } else {
        assert(a[1] == '/' && b[1] == '/');
    }
}

/// Two proper names in one directory are two paths.
pub proof fn different_names_are_different_paths(dir: Seq<char>, a: Seq<char>, b: Seq<char>)
    requires
        a.len() > 0 && a != seq!['.'],
        b.len() > 0 && b != seq!['.'],
        forall|i: int| 0 <= i < a.len() ==> #[trigger] a[i] != '/',
        forall|i: int| 0 <= i < b.len() ==> #[trigger] b[i] != '/',
        a != b,
    ensures
        !same_path(dir + seq!['/'] + a, dir + seq!['/'] + b),
{
    let p = dir + seq!['/'] + a;
    let q = dir + seq!['/'] + b;
    lemma_one_segment(a);
    lemma_one_segment(b);
    components_follow_the_path(dir, a);
    components_follow_the_path(dir, b);
    assert(p[0] == q[0]);
    if dir.len() > 0 {
        assert(dir.len() > 1 ==> p[1] == dir[1] && q[1] == dir[1]);
        assert(dir.len() == 1 ==> p[1] == '/' && q[1] == '/');
    }
    if path_key(p) == path_key(q) {
        let start = if p[0] == '/' || starts_at_dot(p) {
            1int
        } else {
            0
        };
        let k = start + components(dir).len() + 1;
        assert(path_key(p).skip(k) =~= a);
        assert(path_key(q).skip(k) =~= b);
    }
}

/// The first file of a list is the path of its first entry, with its escapes
/// read, and there is one exactly where that entry is a file.
pub proof fn files_are_read_from_their_entry(list: Seq<char>)
    ensures
        first_file(list) is Some <==> escaped_path(list) is Some,
        escaped_path(list) is Some ==> first_file(list)->0 == text::utf8_text(
            unescaped(encode_utf8(escaped_path(list)->0)),
        ),
{
}

} // verus!
