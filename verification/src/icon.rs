//! The icon in the menu bar: an arrow with two heads.

use vstd::prelude::*;

verus! {

/// The width and the height of the icon.
pub const ICON_SIZE: u32 = 36;

/// The distance of two numbers.
pub open spec fn distance(a: int, b: int) -> int {
    if a < b {
        b - a
    } else {
        a - b
    }
}

/// How far the arrow reaches above and below its middle in a column, and -1
/// beside it. A head is ten columns long and widens by six tenths of a row
/// each.
pub open spec fn half_height(x: int) -> int {
    if 3 <= x < 13 {
        (x - 3) * 6 / 10
    } else if 13 <= x < 23 {
        2
    } else if 23 <= x < 33 {
        (32 - x) * 6 / 10
    } else {
        -1
    }
}

/// The arrow covers a pixel.
pub open spec fn is_drawn(x: int, y: int) -> bool {
    distance(y, 18) <= half_height(x)
}

/// The pixels, row by row, four bytes each. The arrow is black, and only its
/// opacity counts: the system colours it.
pub open spec fn icon_bytes() -> Seq<u8> {
    Seq::new(
        36 * 36 * 4,
        |i: int|
            if i % 4 == 3 && is_drawn(i / 4 % 36, i / 4 / 36) {
                255u8
            } else {
                0u8
            },
    )
}

/// The arrow points both ways alike.
pub proof fn arrow_is_symmetric(x: int, y: int)
    ensures
        is_drawn(x, y) == is_drawn(35 - x, y),
        is_drawn(x, y) == is_drawn(x, 36 - y),
{
}

fn drawn(x: u32, y: u32) -> (r: bool)
    requires
        x < 36,
        y < 36,
    ensures
        r == is_drawn(x as int, y as int),
{
    let away: u32 = if y < 18 {
        18 - y
    } else {
        y - 18
    };
    if 3 <= x && x < 13 {
        away <= (x - 3) * 6 / 10
    } else if 13 <= x && x < 23 {
        away <= 2
    } else if 23 <= x && x < 33 {
        away <= (32 - x) * 6 / 10
    } else {
        false
    }
}

/// Draws the icon.
pub fn bridge_icon() -> (r: Vec<u8>)
    ensures
        r@ == icon_bytes(),
{
    let mut r: Vec<u8> = Vec::new();
    let mut i: u32 = 0;
    while i < 5184
        invariant
            i <= 5184,
            r@ == icon_bytes().take(i as int),
        decreases 5184 - i,
    {
        if i % 4 == 3 && drawn(i / 4 % 36, i / 4 / 36) {
            r.push(255);
        } else {
            r.push(0);
        }
        i += 1;
        assert(r@ =~= icon_bytes().take(i as int));
    }
    assert(icon_bytes().take(5184) =~= icon_bytes());
    r
}

/// The middle row is drawn from the third pixel from the left to the third from
/// the right; nothing is drawn beside it.
pub proof fn arrow_spans_the_icon(x: int, y: int)
    ensures
        is_drawn(x, 18) <==> 3 <= x <= 32,
        is_drawn(x, y) ==> 3 <= x <= 32,
{
}

/// The shaft is five pixels high.
pub proof fn shaft_is_even(x: int, y: int)
    requires
        13 <= x < 23,
    ensures
        is_drawn(x, y) <==> 16 <= y <= 20,
{
}

/// A head widens evenly from its tip: by six tenths of a pixel to either side
/// with each column.
pub proof fn heads_widen_evenly(i: int, y: int)
    requires
        0 <= i < 10,
    ensures
        is_drawn(3 + i, y) <==> -6 * i <= 10 * (y - 18) <= 6 * i,
        is_drawn(32 - i, y) <==> -6 * i <= 10 * (y - 18) <= 6 * i,
{
}

/// A pixel is four bytes, row by row from the top: opaque where the arrow
/// covers it, transparent elsewhere, and black everywhere.
pub proof fn pixels_show_the_arrow(x: int, y: int)
    requires
        0 <= x < 36,
        0 <= y < 36,
    ensures
        icon_bytes().len() == 5184,
        icon_bytes()[4 * (36 * y + x)] == 0,
        icon_bytes()[4 * (36 * y + x) + 1] == 0,
        icon_bytes()[4 * (36 * y + x) + 2] == 0,
        icon_bytes()[4 * (36 * y + x) + 3] == if is_drawn(x, y) {
            255u8
        } else {
            0u8
        },
{
    let p = 36 * y + x;
    assert(p / 36 == y && p % 36 == x) by (nonlinear_arith)
        requires
            p == 36 * y + x,
            0 <= x < 36,
    ;
    assert((4 * p + 3) / 4 == p && (4 * p + 3) % 4 == 3);
    assert(4 * p % 4 == 0 && (4 * p + 1) % 4 == 1 && (4 * p + 2) % 4 == 2);
}

} // verus!
