//! From evdev codes to the key codes of macOS. Both number the places of keys
//! on the keyboard, whatever layout is active.

use vstd::prelude::*;

use crate::vk_keycode;

verus! {

/// The row of digits, from 1 to the equals sign: evdev 2 to 13.
pub open spec fn number_row() -> Seq<u16> {
    seq![0x12, 0x13, 0x14, 0x15, 0x17, 0x16, 0x1A, 0x1C, 0x19, 0x1D, 0x1B, 0x18]
}

/// The row from Q to the closing bracket: evdev 16 to 27.
pub open spec fn top_row() -> Seq<u16> {
    seq![0x0C, 0x0D, 0x0E, 0x0F, 0x11, 0x10, 0x20, 0x22, 0x1F, 0x23, 0x21, 0x1E]
}

/// The row from A, with the accent key behind it: evdev 30 to 41.
pub open spec fn home_row() -> Seq<u16> {
    seq![0x00, 0x01, 0x02, 0x03, 0x05, 0x04, 0x26, 0x28, 0x25, 0x29, 0x27, 0x32]
}

/// The backslash and the row from Z to the slash: evdev 43 to 53.
pub open spec fn bottom_row() -> Seq<u16> {
    seq![0x2A, 0x06, 0x07, 0x08, 0x09, 0x0B, 0x2D, 0x2E, 0x2B, 0x2F, 0x2C]
}

/// F1 to F10: evdev 59 to 68.
pub open spec fn function_row() -> Seq<u16> {
    seq![0x7A, 0x78, 0x63, 0x76, 0x60, 0x61, 0x62, 0x64, 0x65, 0x6D]
}

/// The keypad from 7 to the decimal point: evdev 71 to 83.
pub open spec fn keypad() -> Seq<u16> {
    seq![0x59, 0x5B, 0x5C, 0x4E, 0x56, 0x57, 0x58, 0x45, 0x53, 0x54, 0x55, 0x52, 0x41]
}

/// The keys outside these rows: editing, navigation, modifiers, F11 and F12,
/// and what is left of the keypad.
pub open spec fn other_keys() -> Map<u32, u16> {
    map![
        1u32 => 0x35u16,
        14u32 => 0x33u16,
        15u32 => 0x30u16,
        28u32 => 0x24u16,
        29u32 => 0x3Bu16,
        42u32 => 0x38u16,
        54u32 => 0x3Cu16,
        55u32 => 0x43u16,
        56u32 => 0x3Au16,
        57u32 => 0x31u16,
        58u32 => 0x39u16,
        69u32 => 0x47u16,
        87u32 => 0x67u16,
        88u32 => 0x6Fu16,
        97u32 => 0x3Eu16,
        98u32 => 0x4Bu16,
        100u32 => 0x3Du16,
        102u32 => 0x73u16,
        103u32 => 0x7Eu16,
        104u32 => 0x74u16,
        105u32 => 0x7Bu16,
        106u32 => 0x7Cu16,
        107u32 => 0x77u16,
        108u32 => 0x7Du16,
        109u32 => 0x79u16,
        110u32 => 0x72u16,
        111u32 => 0x75u16,
        125u32 => 0x37u16,
        126u32 => 0x36u16,
    ]
}

/// The macOS key code of an evdev code, and `None` for a key that macOS has
/// no place for.
pub open spec fn cg_keycode(evdev: u32) -> Option<u16> {
    if 2 <= evdev <= 13 {
        Some(number_row()[evdev - 2])
    } else if 16 <= evdev <= 27 {
        Some(top_row()[evdev - 16])
    } else if 30 <= evdev <= 41 {
        Some(home_row()[evdev - 30])
    } else if 43 <= evdev <= 53 {
        Some(bottom_row()[evdev - 43])
    } else if 59 <= evdev <= 68 {
        Some(function_row()[evdev - 59])
    } else if 71 <= evdev <= 83 {
        Some(keypad()[evdev - 71])
    } else if other_keys().contains_key(evdev) {
        Some(other_keys()[evdev])
    } else {
        None
    }
}

/// Translates an evdev code.
pub fn evdev_to_cgkeycode(evdev: u32) -> (r: Option<u16>)
    ensures
        r == cg_keycode(evdev),
{
    let code: u16 = match evdev {
        1 => 0x35,
        2 => 0x12,
        3 => 0x13,
        4 => 0x14,
        5 => 0x15,
        6 => 0x17,
        7 => 0x16,
        8 => 0x1A,
        9 => 0x1C,
        10 => 0x19,
        11 => 0x1D,
        12 => 0x1B,
        13 => 0x18,
        14 => 0x33,
        15 => 0x30,
        16 => 0x0C,
        17 => 0x0D,
        18 => 0x0E,
        19 => 0x0F,
        20 => 0x11,
        21 => 0x10,
        22 => 0x20,
        23 => 0x22,
        24 => 0x1F,
        25 => 0x23,
        26 => 0x21,
        27 => 0x1E,
        28 => 0x24,
        29 => 0x3B,
        30 => 0x00,
        31 => 0x01,
        32 => 0x02,
        33 => 0x03,
        34 => 0x05,
        35 => 0x04,
        36 => 0x26,
        37 => 0x28,
        38 => 0x25,
        39 => 0x29,
        40 => 0x27,
        41 => 0x32,
        42 => 0x38,
        43 => 0x2A,
        44 => 0x06,
        45 => 0x07,
        46 => 0x08,
        47 => 0x09,
        48 => 0x0B,
        49 => 0x2D,
        50 => 0x2E,
        51 => 0x2B,
        52 => 0x2F,
        53 => 0x2C,
        54 => 0x3C,
        55 => 0x43,
        56 => 0x3A,
        57 => 0x31,
        58 => 0x39,
        59 => 0x7A,
        60 => 0x78,
        61 => 0x63,
        62 => 0x76,
        63 => 0x60,
        64 => 0x61,
        65 => 0x62,
        66 => 0x64,
        67 => 0x65,
        68 => 0x6D,
        69 => 0x47,
        71 => 0x59,
        72 => 0x5B,
        73 => 0x5C,
        74 => 0x4E,
        75 => 0x56,
        76 => 0x57,
        77 => 0x58,
        78 => 0x45,
        79 => 0x53,
        80 => 0x54,
        81 => 0x55,
        82 => 0x52,
        83 => 0x41,
        87 => 0x67,
        88 => 0x6F,
        97 => 0x3E,
        98 => 0x4B,
        100 => 0x3D,
        102 => 0x73,
        103 => 0x7E,
        104 => 0x74,
        105 => 0x7B,
        106 => 0x7C,
        107 => 0x77,
        108 => 0x7D,
        109 => 0x79,
        110 => 0x72,
        111 => 0x75,
        125 => 0x37,
        126 => 0x36,
        _ => {
            return None;
        },
    };
    Some(code)
}

/// Every key that is forwarded has a place on a Mac.
pub proof fn forwarded_keys_reach_macos(vk: u32)
    requires
        vk_keycode::forwarded_code(vk) is Some,
    ensures
        cg_keycode(vk_keycode::forwarded_code(vk)->0) is Some,
{
}

/// The keys of the main block in the order in which macOS numbers them: from A
/// on to V, and behind a key that only some keyboards have, from B on to the
/// accent.
pub proof fn main_block_is_numbered_in_order(i: int)
    ensures
        0 <= i < 10 ==> cg_keycode(
            seq![30u32, 31u32, 32u32, 33u32, 35u32, 34u32, 44u32, 45u32, 46u32, 47u32][i],
        ) == Some(i as u16),
        0 <= i < 40 ==> cg_keycode(
            seq![
                48u32, 16u32, 17u32, 18u32, 19u32, 21u32, 20u32, 2u32, 3u32, 4u32, 5u32, 7u32, 6u32, 13u32, 10u32, 8u32, 12u32, 9u32, 11u32, 27u32, 24u32, 22u32, 26u32, 23u32, 25u32, 28u32, 38u32, 36u32, 40u32, 37u32, 39u32, 43u32, 51u32, 53u32, 49u32, 50u32, 52u32, 15u32, 57u32, 41u32,
            ][i],
        ) == Some((0x0B + i) as u16),
{
}

/// The other keys in the order in which macOS numbers them: Delete and Escape,
/// the modifiers, the keypad, and the function and navigation keys.
pub proof fn other_keys_keep_their_number(i: int)
    requires
        0 <= i < 49,
    ensures
        cg_keycode(
            seq![
                14u32, 1u32, 126u32, 125u32, 42u32, 58u32, 56u32, 29u32, 54u32, 100u32, 97u32, 83u32, 55u32, 78u32, 69u32, 98u32, 74u32, 82u32, 79u32, 80u32, 81u32, 75u32, 76u32, 77u32, 71u32, 72u32, 73u32, 63u32, 64u32, 65u32, 61u32, 66u32, 67u32, 87u32, 68u32, 88u32, 110u32, 102u32, 104u32, 111u32, 62u32, 107u32, 60u32, 109u32, 59u32, 105u32, 106u32, 108u32, 103u32,
            ][i],
        ) == Some(
            seq![
                0x33u16, 0x35u16, 0x36u16, 0x37u16, 0x38u16, 0x39u16, 0x3Au16, 0x3Bu16, 0x3Cu16, 0x3Du16, 0x3Eu16, 0x41u16, 0x43u16, 0x45u16, 0x47u16, 0x4Bu16, 0x4Eu16, 0x52u16, 0x53u16, 0x54u16, 0x55u16, 0x56u16, 0x57u16, 0x58u16, 0x59u16, 0x5Bu16, 0x5Cu16, 0x60u16, 0x61u16, 0x62u16, 0x63u16, 0x64u16, 0x65u16, 0x67u16, 0x6Du16, 0x6Fu16, 0x72u16, 0x73u16, 0x74u16, 0x75u16, 0x76u16, 0x77u16, 0x78u16, 0x79u16, 0x7Au16, 0x7Bu16, 0x7Cu16, 0x7Du16, 0x7Eu16,
            ][i],
        ),
{
}

/// Keys that a Mac has no place for have no number.
pub proof fn foreign_keys_have_no_number(evdev: u32)
    requires
        evdev == 0
            || evdev == 70
            || 84 <= evdev <= 86
            || 89 <= evdev <= 96
            || evdev == 99
            || evdev == 101
            || 112 <= evdev <= 124
            || evdev >= 127,
    ensures
        cg_keycode(evdev) is None,
{
}

} // verus!
