//! Reading the picture of an environment.
use vstd::prelude::*;
use crate::scalar::{key_of_bits, Scalar};
use crate::scene::Color;

verus! {

/// The picture of an environment, row by row.
pub struct Panorama {
    pub pixels: Vec<Color>,
    pub width: usize,
    pub height: usize,
}

/// The width and height of a Radiance HDR picture, and the bits of its numbers:
/// red, green and blue of each pixel, row by row. None if the bytes are none.
pub uninterp spec fn hdr_picture(bytes: Seq<u8>) -> Option<(nat, nat, Seq<u32>)>;

/// Whether a marker of a run of pixels could stand at a place.
pub open spec fn is_marker(bytes: Seq<u8>, i: int) -> bool {
    bytes[i] == 1 && bytes[i + 1] == 1 && bytes[i + 2] == 1
}

/// How many markers of runs in a row are one too many. Each counts 256 times what
/// the one before it counts, so that this one leaves the machine's counts.
pub open spec fn chain_length() -> int {
    usize::BITS as int / 8
}

/// Whether the marker of a run could stand at a place as one of a chain. From the
/// fifth on, one that counts anything counts more pixels than a row can have, and
/// nothing is read after it: only the last may.
pub open spec fn is_link(bytes: Seq<u8>, i: int, k: int) -> bool {
    is_marker(bytes, i + 4 * k) && (4 <= k < chain_length() - 1 ==> bytes[i + 4 * k + 3] == 0)
}

/// Whether too many markers of runs could follow each other at a place.
pub open spec fn starts_chain(bytes: Seq<u8>, i: int) -> bool {
    &&& 0 <= i
    &&& i + 4 * chain_length() <= bytes.len()
    &&& forall|k: int| 0 <= k < chain_length() ==> #[trigger] is_link(bytes, i, k)
}

/// Whether too many markers of runs could follow each other anywhere.
pub open spec fn has_chain(bytes: Seq<u8>) -> bool {
    exists|i: int| #[trigger] starts_chain(bytes, i)
}

/// Whether too many markers of runs could follow each other anywhere in some bytes.
pub fn check_chain(bytes: &Vec<u8>) -> (r: bool)
    ensures
        r == has_chain(bytes@),
{
    let n: usize = usize::BITS as usize / 8;
    if bytes.len() < 4 * n {
        return false;
    }
    let mut i: usize = 0;
    while i <= bytes.len() - 4 * n
        invariant
            n == chain_length(),
            n <= 8,
            4 * n <= bytes.len(),
            i <= bytes.len() - 4 * n + 1,
            forall|j: int| 0 <= j < i ==> !#[trigger] starts_chain(bytes@, j),
        decreases bytes.len() - i,
    {
        if marks_chain(bytes, i, n) {
            return true;
        }
        i = i + 1;
    }
    false
}

/// Whether too many markers of runs could follow each other at a place.
fn marks_chain(bytes: &Vec<u8>, i: usize, n: usize) -> (r: bool)
    requires
        n == chain_length(),
        n <= 8,
        i + 4 * n <= bytes.len(),
    ensures
        r == starts_chain(bytes@, i as int),
{
    let mut k: usize = 0;
    while k < n
        invariant
            n == chain_length(),
            k <= n <= 8,
            i + 4 * n <= bytes.len(),
            forall|j: int| 0 <= j < k ==> #[trigger] is_link(bytes@, i as int, j),
        decreases n - k,
    {
        if !marks_run(bytes, i + 4 * k) || (4 <= k && k < n - 1 && bytes[i + 4 * k + 3] != 0) {
            assert(!is_link(bytes@, i as int, k as int));
            return false;
        }
        k = k + 1;
    }
    true
}

/// Whether a marker of a run of pixels could stand at a place.
fn marks_run(bytes: &Vec<u8>, i: usize) -> (r: bool)
    requires
        i + 3 <= bytes.len(),
    ensures
        r == is_marker(bytes@, i as int),
{
    bytes[i] == 1 && bytes[i + 1] == 1 && bytes[i + 2] == 1
}

/// Decodes a Radiance HDR picture with `image::load_from_memory_with_format` and
/// `image::DynamicImage::into_rgb32f`. The result is a function of the bytes, and a
/// picture has three numbers for each pixel; what else it is on given bytes is left
/// to the image crate. Bytes in which markers of runs could follow each other so
/// long that their multiplier overflows are left out.
#[verifier::external_body]
fn decode_hdr(bytes: &Vec<u8>) -> (r: Option<(usize, usize, Vec<u32>)>)
    requires
        !has_chain(bytes@),
    ensures
        match r {
            Some((width, height, bits)) => {
                &&& hdr_picture(bytes@) == Some((width as nat, height as nat, bits@))
                &&& bits@.len() == 3 * (width * height)
            },
            None => hdr_picture(bytes@) is None,
        },
{
    let picture = image::load_from_memory_with_format(bytes, image::ImageFormat::Hdr).ok()?.into_rgb32f();
    let (width, height) = picture.dimensions();
    let bits: Vec<u32> = picture.into_raw().into_iter().map(|n| n.to_bits()).collect();
    Some((width as usize, height as usize, bits))
}

/// The number with a pattern.
pub open spec fn scalar_of(bits: u32) -> Scalar {
    Scalar { key: key_of_bits(bits) as i32 }
}

/// The color of a pixel, from the bits of all numbers.
pub open spec fn pixel_of(bits: Seq<u32>, i: int) -> Color {
    Color { x: scalar_of(bits[3 * i]), y: scalar_of(bits[3 * i + 1]), z: scalar_of(bits[3 * i + 2]) }
}

/// Whether a picture has this size and these numbers.
pub open spec fn shows(p: Panorama, width: nat, height: nat, bits: Seq<u32>) -> bool {
    &&& p.width == width
    &&& p.height == height
    &&& p.pixels@.len() == width * height
    &&& forall|i: int| 0 <= i < p.pixels@.len() ==> #[trigger] p.pixels@[i] == pixel_of(bits, i)
}

/// A picture of a size, from the bits of its numbers. None if there are too few.
pub fn to_panorama(width: usize, height: usize, bits: &Vec<u32>) -> (r: Option<Panorama>)
    ensures
        r is Some <==> 3 * (width * height) <= bits.len(),
        r matches Some(p) ==> shows(p, width as nat, height as nat, bits@),
{
    let n: usize = match width.checked_mul(height) {
        Some(n) => n,
        None => {
            return None;
        },
    };
    if n > bits.len() / 3 {
        return None;
    }
    let mut pixels: Vec<Color> = Vec::new();
    let mut i: usize = 0;
    while i < n
        invariant
            i <= n,
            3 * n <= bits.len(),
            pixels.len() == i,
            forall|j: int| 0 <= j < i ==> #[trigger] pixels@[j] == pixel_of(bits@, j),
        decreases n - i,
    {
        let x = Scalar::from_bits(bits[3 * i]);
        let y = Scalar::from_bits(bits[3 * i + 1]);
        let z = Scalar::from_bits(bits[3 * i + 2]);
        pixels.push(Color { x, y, z });
        i = i + 1;
    }
    Some(Panorama { pixels, width, height })
}

/// Load an equirectangular `.hdr` as linear RGB pixels (row-major) and dimensions,
/// from the bytes of its file. Bytes in which so many markers of runs could follow
/// each other that their multiplier overflows are not read: the image crate panics
/// on some of them.
pub fn load_hdr(bytes: &Vec<u8>) -> (r: Option<Panorama>)
    ensures
        has_chain(bytes@) ==> r is None,
        !has_chain(bytes@) ==> match hdr_picture(bytes@) {
            Some((width, height, bits)) => {
                &&& bits.len() == 3 * (width * height)
                &&& r matches Some(p) && shows(p, width, height, bits)
            },
            None => r is None,
        },
{
    if check_chain(bytes) {
        return None;
    }
    match decode_hdr(bytes) {
        Some((width, height, bits)) => to_panorama(width, height, &bits),
        None => None,
    }
}

/// The numbers of a picture run pixel by pixel, and in each red, green, blue: every
/// number is shown, in its place.
pub proof fn law_numbers_run_pixel_by_pixel(p: Panorama, width: nat, height: nat, bits: Seq<u32>, k: int)
    requires
        shows(p, width, height, bits),
        0 <= k < 3 * (width * height),
    ensures
        ({
            let pixel = p.pixels@[k / 3];
            scalar_of(bits[k]) == (if k % 3 == 0 {
                pixel.x
            } else if k % 3 == 1 {
                pixel.y
            } else {
                pixel.z
            })
        }),
{
    let i: int = k / 3;
    assert(0 <= i < p.pixels@.len());
    assert(p.pixels@[i] == pixel_of(bits, i));
    assert(k == 3 * i + k % 3);
}

} // verus!
