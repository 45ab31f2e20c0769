//! From Windows virtual keys to evdev codes.

use vstd::prelude::*;
use vstd::utf8::*;

verus! {

/// The evdev codes of the letters A to Z. A virtual key names the letter that
/// is printed and an evdev code the place of the key: Y and Z stand in each
/// other's place, as on the QWERTZ layout that the keyboard is compiled with.
pub open spec fn letter_codes() -> Seq<u32> {
    seq![
        30, 48, 46, 32, 18, 33, 34, 35, 23, 36, 37, 38, 50,
        49, 24, 25, 16, 19, 31, 20, 22, 47, 17, 45, 44, 21,
    ]
}

/// The keys that are neither letters, digits nor function keys, each with its
/// evdev code.
pub open spec fn special_keys() -> Map<u32, u32> {
    map![
        0x08u32 => 14u32,
        0x09u32 => 15u32,
        0x0Du32 => 28u32,
        0x10u32 => 42u32,
        0xA0u32 => 42u32,
        0xA1u32 => 54u32,
        0x11u32 => 29u32,
        0xA2u32 => 29u32,
        0xA3u32 => 97u32,
        0x12u32 => 56u32,
        0xA4u32 => 56u32,
        0xA5u32 => 100u32,
        0x1Bu32 => 1u32,
        0x20u32 => 57u32,
        0x21u32 => 104u32,
        0x22u32 => 109u32,
        0x23u32 => 107u32,
        0x24u32 => 102u32,
        0x25u32 => 105u32,
        0x26u32 => 103u32,
        0x27u32 => 106u32,
        0x28u32 => 108u32,
        0x2Du32 => 110u32,
        0x2Eu32 => 111u32,
        0x14u32 => 58u32,
        0x5Bu32 => 125u32,
        0x5Cu32 => 126u32,
        0xBAu32 => 39u32,
        0xBBu32 => 13u32,
        0xBCu32 => 51u32,
        0xBDu32 => 12u32,
        0xBEu32 => 52u32,
        0xBFu32 => 12u32,
        0xC0u32 => 41u32,
        0xDBu32 => 26u32,
        0xDCu32 => 43u32,
        0xDDu32 => 27u32,
        0xDEu32 => 40u32,
    ]
}

/// The evdev code of a virtual key, and `None` where the table has none.
pub open spec fn evdev_code(vk: u32) -> Option<u32> {
    if 0x41 <= vk <= 0x5A {
        Some(letter_codes()[vk - 0x41])
    } else if vk == 0x30 {
        Some(11)
    } else if 0x31 <= vk <= 0x39 {
        Some((vk - 0x31 + 2) as u32)
    } else if 0x70 <= vk <= 0x79 {
        Some((vk - 0x70 + 59) as u32)
    } else if 0x7A <= vk <= 0x7B {
        Some((vk - 0x7A + 87) as u32)
    } else if special_keys().contains_key(vk) {
        Some(special_keys()[vk])
    } else {
        None
    }
}

/// Translates a virtual key of the main block: letters, digits, punctuation,
/// navigation, function keys and modifiers. The numeric keypad is not in it.
pub fn vk_to_evdev(vk: u32) -> (r: Option<u32>)
    ensures
        r == evdev_code(vk),
{
    let code: u32 = match vk {
        0x08 => 14,  // Backspace
        0x09 => 15,  // Tab
        0x0D => 28,  // Enter
        0x10 => 42,  // Shift
        0xA0 => 42,  // Left Shift
        0xA1 => 54,  // Right Shift
        0x11 => 29,  // Ctrl
        0xA2 => 29,  // Left Ctrl
        0xA3 => 97,  // Right Ctrl
        0x12 => 56,  // Alt
        0xA4 => 56,  // Left Alt
        0xA5 => 100,  // Right Alt
        0x1B => 1,  // Escape
        0x20 => 57,  // Space
        0x21 => 104,  // Page Up
        0x22 => 109,  // Page Down
        0x23 => 107,  // End
        0x24 => 102,  // Home
        0x25 => 105,  // Left
        0x26 => 103,  // Up
        0x27 => 106,  // Right
        0x28 => 108,  // Down
        0x2D => 110,  // Insert
        0x2E => 111,  // Delete
        0x14 => 58,  // Caps Lock
        0x30 => 11,  // 0
        0x31 => 2,  // 1
        0x32 => 3,  // 2
        0x33 => 4,  // 3
        0x34 => 5,  // 4
        0x35 => 6,  // 5
        0x36 => 7,  // 6
        0x37 => 8,  // 7
        0x38 => 9,  // 8
        0x39 => 10,  // 9
        0x41 => 30,  // A
        0x42 => 48,  // B
        0x43 => 46,  // C
        0x44 => 32,  // D
        0x45 => 18,  // E
        0x46 => 33,  // F
        0x47 => 34,  // G
        0x48 => 35,  // H
        0x49 => 23,  // I
        0x4A => 36,  // J
        0x4B => 37,  // K
        0x4C => 38,  // L
        0x4D => 50,  // M
        0x4E => 49,  // N
        0x4F => 24,  // O
        0x50 => 25,  // P
        0x51 => 16,  // Q
        0x52 => 19,  // R
        0x53 => 31,  // S
        0x54 => 20,  // T
        0x55 => 22,  // U
        0x56 => 47,  // V
        0x57 => 17,  // W
        0x58 => 45,  // X
        0x59 => 44,  // Y
        0x5A => 21,  // Z
        0x5B => 125,  // Left Win
        0x5C => 126,  // Right Win
        0x70 => 59,  // F1
        0x71 => 60,  // F2
        0x72 => 61,  // F3
        0x73 => 62,  // F4
        0x74 => 63,  // F5
        0x75 => 64,  // F6
        0x76 => 65,  // F7
        0x77 => 66,  // F8
        0x78 => 67,  // F9
        0x79 => 68,  // F10
        0x7A => 87,  // F11
        0x7B => 88,  // F12
        0xBA => 39,  // ; :
        0xBB => 13,  // = +
        0xBC => 51,  // , <
        0xBD => 12,  // - _
        0xBE => 52,  // . >
        0xBF => 12,  // ' on the layout that the table is made for
        0xC0 => 41,  // ` ~
        0xDB => 26,  // [ {
        0xDC => 43,  // \ |
        0xDD => 27,  // ] }
        0xDE => 40,  // ' "
        _ => {
            return None;
        },
    };
    Some(code)
}

/// The evdev codes of the keypad digits 0 to 9.
pub open spec fn keypad_digit_codes() -> Seq<u32> {
    seq![82, 79, 80, 81, 75, 76, 77, 71, 72, 73]
}

/// The evdev code of a keypad key.
pub open spec fn keypad_code(vk: u32) -> Option<u32> {
    if 0x60 <= vk <= 0x69 {
        Some(keypad_digit_codes()[vk - 0x60])
    } else if vk == 0x6A {
        Some(55)
    } else if vk == 0x6B {
        Some(78)
    } else if vk == 0x6D {
        Some(74)
    } else if vk == 0x6E {
        Some(83)
    } else if vk == 0x6F {
        Some(98)
    } else {
        None
    }
}

/// Translates a key of the numeric keypad.
pub fn keypad_to_evdev(vk: u32) -> (r: Option<u32>)
    ensures
        r == keypad_code(vk),
{
    match vk {
        0x60 => Some(82),
        0x61 => Some(79),
        0x62 => Some(80),
        0x63 => Some(81),
        0x64 => Some(75),
        0x65 => Some(76),
        0x66 => Some(77),
        0x67 => Some(71),
        0x68 => Some(72),
        0x69 => Some(73),
        0x6A => Some(55),
        0x6B => Some(78),
        0x6D => Some(74),
        0x6E => Some(83),
        0x6F => Some(98),
        _ => None,
    }
}

/// The evdev code that a virtual key is forwarded as.
pub open spec fn forwarded_code(vk: u32) -> Option<u32> {
    match evdev_code(vk) {
        Some(code) => Some(code),
        None => keypad_code(vk),
    }
}

/// A keymap as the compositor reads it: its text, ended by a zero.
pub fn keymap_bytes(keymap: &str) -> (r: Vec<u8>)
    ensures
        r@ == encode_utf8(keymap@).push(0),
{
    let mut r: Vec<u8> = vstd::slice::slice_to_vec(keymap.as_bytes());
    r.push(0);
    r
}

/// Letters and digits lie on the keyboard in the rows that QWERTZ prints, and
/// evdev numbers each row from left to right.
pub proof fn letters_and_digits_lie_in_rows(i: int)
    ensures
        0 <= i < 10 ==> evdev_code(seq!['1', '2', '3', '4', '5', '6', '7', '8', '9', '0'][i] as u32) == Some((2 + i) as u32),
        0 <= i < 10 ==> evdev_code(seq!['Q', 'W', 'E', 'R', 'T', 'Z', 'U', 'I', 'O', 'P'][i] as u32) == Some((16 + i) as u32),
        0 <= i < 9 ==> evdev_code(seq!['A', 'S', 'D', 'F', 'G', 'H', 'J', 'K', 'L'][i] as u32) == Some((30 + i) as u32),
        0 <= i < 7 ==> evdev_code(seq!['Y', 'X', 'C', 'V', 'B', 'N', 'M'][i] as u32) == Some((44 + i) as u32),
{
}

/// F1 to F10 follow each other, and F11 and F12 follow each other elsewhere.
pub proof fn function_keys_follow_each_other(n: u32)
    requires
        1 <= n <= 12,
    ensures
        evdev_code((0x6F + n) as u32) == Some(
            if n <= 10 {
                (58 + n) as u32
            } else {
                (76 + n) as u32
            },
        ),
{
}

/// The editing keys, from Backspace to Delete, lie where evdev has them.
pub proof fn editing_keys_keep_their_place(i: int)
    requires
        0 <= i < 8,
    ensures
        evdev_code(seq![0x08u32, 0x09u32, 0x0Du32, 0x14u32, 0x1Bu32, 0x20u32, 0x2Du32, 0x2Eu32][i]) == Some(
            seq![14u32, 15u32, 28u32, 58u32, 1u32, 57u32, 110u32, 111u32][i],
        ),
{
}

/// The navigation keys, from Page Up to Down, lie where evdev has them.
pub proof fn navigation_keys_keep_their_place(i: int)
    requires
        0 <= i < 8,
    ensures
        evdev_code(seq![0x21u32, 0x22u32, 0x23u32, 0x24u32, 0x25u32, 0x26u32, 0x27u32, 0x28u32][i]) == Some(
            seq![104u32, 109u32, 107u32, 102u32, 105u32, 103u32, 106u32, 108u32][i],
        ),
{
}

/// The modifiers, where a key without a side is the left one, lie where evdev has them.
pub proof fn modifiers_keep_their_side(i: int)
    requires
        0 <= i < 11,
    ensures
        evdev_code(seq![0x10u32, 0xA0u32, 0xA1u32, 0x11u32, 0xA2u32, 0xA3u32, 0x12u32, 0xA4u32, 0xA5u32, 0x5Bu32, 0x5Cu32][i]) == Some(
            seq![42u32, 42u32, 54u32, 29u32, 29u32, 97u32, 56u32, 56u32, 100u32, 125u32, 126u32][i],
        ),
{
}

/// The punctuation, from the semicolon to the quote, lie where evdev has them.
pub proof fn punctuation_keeps_its_place(i: int)
    requires
        0 <= i < 11,
    ensures
        evdev_code(seq![0xBAu32, 0xBBu32, 0xBCu32, 0xBDu32, 0xBEu32, 0xBFu32, 0xC0u32, 0xDBu32, 0xDCu32, 0xDDu32, 0xDEu32][i]) == Some(
            seq![39u32, 13u32, 51u32, 12u32, 52u32, 12u32, 41u32, 26u32, 43u32, 27u32, 40u32][i],
        ),
{
}

/// The digits of the keypad lie in a grid of three columns, 7 to 9 at the top,
/// and 0 stands below.
pub proof fn keypad_digits_lie_in_a_grid(digit: int)
    requires
        0 <= digit <= 9,
    ensures
        forwarded_code((0x60 + digit) as u32) == Some(
            if digit == 0 {
                82u32
            } else {
                (79 - 4 * ((digit - 1) / 3) + (digit - 1) % 3) as u32
            },
        ),
{
}

/// The other keys of the keypad: times, plus, minus, the point and division.
pub proof fn keypad_signs_keep_their_place(i: int)
    requires
        0 <= i < 5,
    ensures
        forwarded_code(seq![0x6Au32, 0x6Bu32, 0x6Du32, 0x6Eu32, 0x6Fu32][i]) == Some(
            seq![55u32, 78u32, 74u32, 83u32, 98u32][i],
        ),
{
}

/// The main block goes before the keypad, the two share no key, and what is in
/// neither is not forwarded.
pub proof fn each_key_is_in_one_block(vk: u32)
    ensures
        evdev_code(vk) is None || keypad_code(vk) is None,
        forwarded_code(vk) is Some <==> evdev_code(vk) is Some || keypad_code(vk) is Some,
        evdev_code(vk) is Some ==> forwarded_code(vk) == evdev_code(vk),
        keypad_code(vk) is Some ==> forwarded_code(vk) == keypad_code(vk),
        keypad_code(vk) is Some <==> 0x60 <= vk <= 0x6F && vk != 0x6C,
{
}

/// Keys that the table does not hold have no code: mouse buttons, input method
/// keys, media keys, the locks but Caps Lock, and the keypad.
pub proof fn other_keys_have_no_code(vk: u32)
    requires
        vk <= 0x07
            || 0x0A <= vk <= 0x0C
            || 0x0E <= vk <= 0x0F
            || vk == 0x13
            || 0x15 <= vk <= 0x1A
            || 0x1C <= vk <= 0x1F
            || 0x29 <= vk <= 0x2C
            || vk == 0x2F
            || 0x3A <= vk <= 0x40
            || 0x5D <= vk <= 0x6F
            || 0x7C <= vk <= 0x9F
            || 0xA6 <= vk <= 0xB9
            || 0xC1 <= vk <= 0xDA
            || vk >= 0xDF,
    ensures
        evdev_code(vk) is None,
{
}

} // verus!
