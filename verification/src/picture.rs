//! Pictures on the clipboard: PNG on the wire, pixels on macOS.

use image::codecs::png::PngEncoder;
use image::{ExtendedColorType, ImageEncoder};
use vstd::prelude::*;

verus! {

/// A picture as rows of pixels, four bytes each.
pub struct Picture {
    pub width: usize,
    pub height: usize,
    pub bytes: Vec<u8>,
}

impl View for Picture {
    type V = (usize, usize, Seq<u8>);

    open spec fn view(&self) -> (usize, usize, Seq<u8>) {
        (self.width, self.height, self.bytes@)
    }
}

/// The bytes are all of the picture, and its sides fit a PNG file.
pub open spec fn is_whole(picture: (usize, usize, Seq<u8>)) -> bool {
    picture.0 <= u32::MAX && picture.1 <= u32::MAX && picture.2.len() == 4 * picture.0 * picture.1
}

impl Picture {
    /// Whether the bytes are all of the picture, and its sides fit a PNG file.
    pub fn whole(&self) -> (r: bool)
        ensures
            r == is_whole(self@),
    {
        if self.width > 0xFFFF_FFFF || self.height > 0xFFFF_FFFF {
            return false;
        }
        let w: u128 = self.width as u128;
        let h: u128 = self.height as u128;
        assert(w * h <= 0xFFFF_FFFF * 0xFFFF_FFFF) by (nonlinear_arith)
            requires
                w <= 0xFFFF_FFFF,
                h <= 0xFFFF_FFFF,
        ;
        assert(4 * w * h == 4 * (w * h)) by (nonlinear_arith);
        self.bytes.len() as u128 == 4 * (w * h)
    }

    /// A copy of the picture.
    pub fn duplicate(&self) -> (r: Picture)
        ensures
            r@ == self@,
    {
        let bytes: Vec<u8> = vstd::slice::slice_to_vec(self.bytes.as_slice());
        Picture { width: self.width, height: self.height, bytes }
    }
}

/// Whether two byte strings are the same.
pub fn same_bytes(a: &[u8], b: &[u8]) -> (r: bool)
    ensures
        r == (a@ == b@),
{
    if a.len() != b.len() {
        return false;
    }
    let mut i: usize = 0;
    while i < a.len()
        invariant
            i <= a@.len(),
            a@.len() == b@.len(),
            a@.take(i as int) == b@.take(i as int),
        decreases a@.len() - i,
    {
        if a[i] != b[i] {
            return false;
        }
        i += 1;
        assert(a@.take(i as int) =~= b@.take(i as int));
    }
    assert(a@.take(i as int) =~= a@);
    assert(b@.take(i as int) =~= b@);
    true
}

/// Whether two pictures are the same.
pub fn same_picture(a: &Picture, b: &Picture) -> (r: bool)
    ensures
        r == (a@ == b@),
{
    a.width == b.width && a.height == b.height && same_bytes(a.bytes.as_slice(), b.bytes.as_slice())
}

/// The width, the height and the pixels of an image file.
pub uninterp spec fn decoded_image(file: Seq<u8>) -> Option<(usize, usize, Seq<u8>)>;

/// The PNG file of a picture with the given width, height and pixels.
pub uninterp spec fn encoded_png(width: usize, height: usize, rgba: Seq<u8>) -> Option<Seq<u8>>;

/// `load_from_memory` of image, with `to_rgba8` on what it loads: what comes
/// out, and whether it fails, depends on the bytes alone.
#[verifier::external_body]
fn load_rgba(file: &[u8]) -> (r: Option<Picture>)
    ensures
        decoded_image(file@) == (match r {
            Some(picture) => Some(picture@),
            None => None,
        }),
{
    match image::load_from_memory(file) {
        Ok(loaded) => {
            let rgba = loaded.to_rgba8();
            let (width, height) = (rgba.width() as usize, rgba.height() as usize);
            Some(Picture { width, height, bytes: rgba.into_raw() })
        },
        Err(_) => None,
    }
}

/// `write_image` of image's `PngEncoder`, with four bytes to a pixel: what
/// comes out, and whether it fails, depends on the sides and the bytes alone.
/// It panics where the bytes are not as many as the sides ask for.
#[verifier::external_body]
fn write_png(width: usize, height: usize, rgba: &[u8]) -> (r: Option<Vec<u8>>)
    requires
        is_whole((width, height, rgba@)),
    ensures
        encoded_png(width, height, rgba@) == (match r {
            Some(file) => Some(file@),
            None => None,
        }),
{
    let mut file = Vec::new();
    let encoder = PngEncoder::new(&mut file);
    match encoder.write_image(rgba, width as u32, height as u32, ExtendedColorType::Rgba8) {
        Ok(()) => Some(file),
        Err(_) => None,
    }
}

/// The pixels of an image that was received, and `None` where it cannot be
/// read.
pub fn decode_image(file: &[u8]) -> (r: Option<Picture>)
    ensures
        decoded_image(file@) == (match r {
            Some(picture) => Some(picture@),
            None => None,
        }),
{
    load_rgba(file)
}

/// The PNG file of a picture, and `None` where it cannot be written.
pub fn encode_png(width: usize, height: usize, rgba: &[u8]) -> (r: Option<Vec<u8>>)
    requires
        is_whole((width, height, rgba@)),
    ensures
        encoded_png(width, height, rgba@) == (match r {
            Some(file) => Some(file@),
            None => None,
        }),
{
    write_png(width, height, rgba)
}

} // verus!
