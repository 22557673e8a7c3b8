//! Decoding of raster tiles with the `image` crate.
use vstd::prelude::*;

verus! {

/// An RGBA image with 8 bits per channel, row by row.
#[derive(Debug)]
pub struct RgbaPixels {
    pub width: u32,
    pub height: u32,
    pub data: Vec<u8>,
}

/// What `image::load_from_memory` followed by a conversion to RGBA8 makes of
/// `bytes`: the width, height and raw pixels, or nothing when the bytes are not
/// an image the crate can decode.
pub uninterp spec fn decoded_rgba8(bytes: Seq<u8>) -> Option<(u32, u32, Seq<u8>)>;

/// Calls `image::load_from_memory` and converts the image to RGBA8. The result is
/// the one `decoded_rgba8` names; its pixel buffer holds four bytes per pixel.
#[verifier::external_body]
pub(crate) fn load_rgba8(bytes: &[u8]) -> (r: Option<RgbaPixels>)
    ensures
        match decoded_rgba8(bytes@) {
            None => r is None,
            Some(d) => r matches Some(p) && p.width == d.0 && p.height == d.1 && p.data@ == d.2,
        },
        r matches Some(p) ==> p.data@.len() == 4 * p.width * p.height,
{
    match image::load_from_memory(bytes) {
        Ok(img) => {
            let rgba = img.to_rgba8();
            Some(RgbaPixels { width: rgba.width(), height: rgba.height(), data: rgba.into_raw() })
        },
        Err(_) => None,
    }
}

/// Decodes an image file held in memory (such as a PNG texture) into RGBA8
/// pixels; nothing when the bytes are not an image the `image` crate can decode.
pub fn decode_image(bytes: &[u8]) -> (r: Option<RgbaPixels>)
    ensures
        match decoded_rgba8(bytes@) {
            None => r is None,
            Some(d) => r matches Some(p) && p.width == d.0 && p.height == d.1 && p.data@ == d.2,
        },
        r matches Some(p) ==> p.data@.len() == 4 * p.width * p.height,
{
    load_rgba8(bytes)
}

/// Appends a copy of `src` to `dst`.
pub fn append_copy<T: Copy>(dst: &mut Vec<T>, src: &Vec<T>)
    ensures
        final(dst)@ == old(dst)@ + src@,
{
    let ghost start = dst@;
    let mut i: usize = 0;
    while i < src.len()
        invariant
            i <= src@.len(),
            dst@ == start + src@.take(i as int),
        decreases src@.len() - i,
    {
        dst.push(src[i]);
        i = i + 1;
        assert(src@.take(i as int) == src@.take((i - 1) as int).push(src@[i - 1]));
    }
    assert(src@.take(src@.len() as int) == src@);
}

/// A copy of `p`.
pub fn copy_pixels(p: &RgbaPixels) -> (c: RgbaPixels)
    ensures
        c.width == p.width,
        c.height == p.height,
        c.data@ == p.data@,
{
    let mut data: Vec<u8> = Vec::new();
    append_copy(&mut data, &p.data);
    RgbaPixels { width: p.width, height: p.height, data }
}

} // verus!
