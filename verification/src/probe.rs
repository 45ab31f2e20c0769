//! What the two diagnostic tools make of the packages that they see.

use vstd::prelude::*;

use crate::mwb_protocol;
use crate::mwb_protocol::{PACKAGE_TYPE_KEYBOARD, PACKAGE_TYPE_MOUSE};

verus! {

/// The probe stops behind so many packages.
pub const PROBE_LIMIT: u32 = 200_000;

/// The read-only listener stops behind so many packages.
pub const LISTENER_LIMIT: u32 = 80;

/// One in so many noisy packages is shown.
pub const NOISY_INTERVAL: u32 = 2000;

/// The types that come all the time: pings, heartbeats and the like.
pub open spec fn is_noisy(t: u8) -> bool {
    t == 2 || t == 20 || t == 21 || 51 <= t <= 53
}

/// What the probe has seen.
#[derive(Clone, Copy, Debug, PartialEq, Eq, Structural)]
pub struct ProbeCounts {
    pub packages: u32,
    pub mouse: u32,
    pub keyboard: u32,
}

/// What the probe shows of a package.
#[derive(Clone, Copy, Debug, PartialEq, Eq, Structural)]
pub struct ProbeReport {
    /// The numbers of the package.
    pub numbers: bool,
    pub mouse: bool,
    pub keyboard: bool,
    /// The machine name in it.
    pub name: bool,
    /// The probe has seen enough.
    pub stop: bool,
}

/// What is shown of a package of `len` bytes that is the `count`th.
pub open spec fn report_on(count: int, t: u8, len: usize) -> ProbeReport {
    ProbeReport {
        numbers: !is_noisy(t) || count % NOISY_INTERVAL as int == 0,
        mouse: t == PACKAGE_TYPE_MOUSE,
        keyboard: t == PACKAGE_TYPE_KEYBOARD,
        name: len >= 64 && !is_noisy(t),
        stop: count > PROBE_LIMIT,
    }
}

/// Of noisy packages only every two thousandth is shown, and none with its
/// name; of all others the numbers are, and the name of a big one. The probe
/// stops behind 200000.
pub proof fn reports_leave_noise_out(count: int, t: u8, len: usize)
    ensures
        ({
            let r = report_on(count, t, len);
            &&& is_noisy(t) ==> (r.numbers <==> count % 2000 == 0) && !r.name
            &&& !is_noisy(t) ==> r.numbers && (r.name <==> len >= 64)
            &&& r.mouse <==> t == 123
            &&& r.keyboard <==> t == 122
            &&& r.stop <==> count > 200_000
        }),
{
}

impl ProbeCounts {
    /// No package was counted twice, and the probe has not gone on behind its
    /// limit.
    pub open spec fn well_formed(self) -> bool {
        self.mouse + self.keyboard <= self.packages <= PROBE_LIMIT + 1
    }

    pub fn new() -> (r: Self)
        ensures
            r == (ProbeCounts { packages: 0, mouse: 0, keyboard: 0 }),
            r.well_formed(),
    {
        ProbeCounts { packages: 0, mouse: 0, keyboard: 0 }
    }

    /// Counts a package of `len` bytes, and says what to show of it.
    pub fn note(&mut self, t: u8, len: usize) -> (r: ProbeReport)
        requires
            old(self).well_formed(),
            old(self).packages <= PROBE_LIMIT,
        ensures
            final(self).well_formed(),
            final(self).packages == old(self).packages + 1,
            final(self).mouse == old(self).mouse + (if t == PACKAGE_TYPE_MOUSE {
                1int
            } else {
                0
            }),
            final(self).keyboard == old(self).keyboard + (if t == PACKAGE_TYPE_KEYBOARD {
                1int
            } else {
                0
            }),
            r == report_on(old(self).packages + 1, t, len),
            r == (ProbeReport {
                numbers: !is_noisy(t) || (old(self).packages + 1) % NOISY_INTERVAL as int == 0,
                mouse: t == PACKAGE_TYPE_MOUSE,
                keyboard: t == PACKAGE_TYPE_KEYBOARD,
                name: len >= 64 && !is_noisy(t),
                stop: old(self).packages + 1 > PROBE_LIMIT,
            }),
    {
        self.packages = self.packages + 1;
        let noisy: bool = t == 2 || t == 20 || t == 21 || (51 <= t && t <= 53);
        let mouse: bool = t == PACKAGE_TYPE_MOUSE;
        let keyboard: bool = t == PACKAGE_TYPE_KEYBOARD;
        if mouse {
            self.mouse = self.mouse + 1;
        }
        if keyboard {
            self.keyboard = self.keyboard + 1;
        }
        ProbeReport {
            numbers: !noisy || self.packages % NOISY_INTERVAL == 0,
            mouse,
            keyboard,
            name: len >= 64 && !noisy,
            stop: self.packages > PROBE_LIMIT,
        }
    }
}

/// What the seal of a package says, beside what it should say.
#[derive(Clone, Copy, Debug, PartialEq, Eq, Structural)]
pub struct Diagnosis {
    pub magic_got: u32,
    pub magic_want: u32,
    pub checksum_got: u8,
    pub checksum_want: u8,
}

/// Reads the seal of a package. The package is genuine if both its magic
/// number and its checksum are as they should be.
pub fn diagnose(package: &[u8], magic_number: u32) -> (r: Diagnosis)
    requires
        package@.len() >= 32,
    ensures
        r.magic_got == 0x1_0000 * (0x100 * package@[3] + package@[2]),
        r.magic_want == magic_number / 0x1_0000 * 0x1_0000,
        r.checksum_got == package@[1],
        r.checksum_want == mwb_protocol::checksum(package@),
        mwb_protocol::accepted(package@, magic_number) <==> r.magic_got == r.magic_want
            && r.checksum_got == r.checksum_want,
{
    let half: u32 = 0x100 * (package[3] as u32) + package[2] as u32;
    Diagnosis {
        magic_got: 0x1_0000 * half,
        magic_want: magic_number / 0x1_0000 * 0x1_0000,
        checksum_got: package[1],
        checksum_want: mwb_protocol::compute_checksum(package),
    }
}

/// The lower-case hexadecimal digit for a number below sixteen.
pub open spec fn lower_hex_digit(d: int) -> char {
    if d < 10 {
        (0x30 + d) as char
    } else {
        (0x61 + d - 10) as char
    }
}

/// Two digits for each byte.
pub open spec fn hex_text(bytes: Seq<u8>) -> Seq<char> {
    Seq::new(
        2 * bytes.len(),
        |i: int|
            if i % 2 == 0 {
                lower_hex_digit(bytes[i / 2] as int / 16)
            } else {
                lower_hex_digit(bytes[i / 2] as int % 16)
            },
    )
}

/// `encode` of hex: two lower-case hexadecimal digits for each byte.
#[verifier::external_body]
fn hex_encode(bytes: &[u8]) -> (r: String)
    ensures
        r@ == hex_text(bytes@),
{
    hex::encode(bytes)
}

/// A byte as a character, and a dot for one that cannot be printed.
pub open spec fn printable(b: u8) -> char {
    if 0x20 <= b < 0x7F {
        b as char
    } else {
        '.'
    }
}

/// Bytes for the eye: as digits, and as characters.
pub struct Dump {
    pub hex: String,
    pub ascii: String,
}

/// Shows bytes as digits and as characters.
pub fn dump(bytes: &[u8]) -> (r: Dump)
    ensures
        r.hex@ == hex_text(bytes@),
        r.ascii@ == Seq::new(bytes@.len(), |i: int| printable(bytes@[i])),
{
    let mut ascii: String = String::new();
    let mut i: usize = 0;
    let ghost all = Seq::new(bytes@.len(), |i: int| printable(bytes@[i]));
    assert(ascii@ =~= all.take(0));
    while i < bytes.len()
        invariant
            i <= bytes@.len(),
            all == Seq::new(bytes@.len(), |i: int| printable(bytes@[i])),
            ascii@ == all.take(i as int),
        decreases bytes@.len() - i,
    {
        let b: u8 = bytes[i];
        if 0x20 <= b && b < 0x7F {
            ascii.push(b as char);
        } else {
            ascii.push('.');
        }
        i += 1;
        assert(ascii@ =~= all.take(i as int));
    }
    assert(all.take(i as int) =~= all);
    Dump { hex: hex_encode(bytes), ascii }
}

/// Six types are noisy, and no other.
pub proof fn noisy_types_are_listed(t: u8)
    ensures
        is_noisy(t) <==> seq![2u8, 20, 21, 51, 52, 53].contains(t),
{
    let listed = seq![2u8, 20, 21, 51, 52, 53];
    assert(listed[0] == 2 && listed[1] == 20 && listed[2] == 21 && listed[3] == 51 && listed[4]
        == 52 && listed[5] == 53);
}

/// A byte is told by two digits, the higher one first, in lower case.
pub proof fn digits_tell_the_byte(bytes: Seq<u8>, i: int)
    requires
        0 <= i < bytes.len(),
    ensures
        hex_text(bytes).len() == 2 * bytes.len(),
        ({
            let high = hex_text(bytes)[2 * i];
            let low = hex_text(bytes)[2 * i + 1];
            &&& '0' <= high <= '9' || 'a' <= high <= 'f'
            &&& '0' <= low <= '9' || 'a' <= low <= 'f'
            &&& 16 * (if high <= '9' {
                high as u32 - 0x30
            } else {
                high as u32 - 0x57
            }) + (if low <= '9' {
                low as u32 - 0x30
            } else {
                low as u32 - 0x57
            }) == bytes[i]
        }),
{
    assert((2 * i) / 2 == i && (2 * i) % 2 == 0);
    assert((2 * i + 1) / 2 == i && (2 * i + 1) % 2 == 1);
}

/// A byte that can be printed stands for itself, and every other for a dot.
pub proof fn printable_bytes_show_themselves(b: u8)
    ensures
        ' ' <= printable(b) <= '~',
        0x20 <= b <= 0x7E ==> printable(b) as u32 == b,
        b < 0x20 || b > 0x7E ==> printable(b) == '.',
{
}

} // verus!
