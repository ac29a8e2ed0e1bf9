//! Decoded textures: a packed-RGB pixel buffer with its dimensions,
//! sampled by normalised fixed-point coordinates.

use vstd::prelude::*;
use crate::fixed::{FP, mag, fdiv128, lemma_mul_mag, lemma_div_mag};
use crate::vec2::Vec2;

verus! {

/// Magnitude bound on sampling coordinates accepted by `sample`.
pub const COORD_RANGE: i64 = 1099511627776;

/// Holds a pixel buffer, along with the dimensions of the image it
/// represents.  Pixels are packed `0x00RRGGBB` values in row-major
/// order.
#[derive(Clone, Debug)]
pub struct Texture {
    pub width: usize,
    pub height: usize,
    pub pixels: Vec<u32>,
}


/// The packed pixels read off a decoded byte stream: each group of
/// three bytes becomes one `0x00RRGGBB` value; a trailing partial
/// group is dropped.
pub open spec fn pack_rgb(b: Seq<u8>) -> Seq<u32> {
    Seq::new((b.len() / 3) as nat, |i: int|
        (((b[3 * i] as u32) << 16) | ((b[3 * i + 1] as u32) << 8) | (b[3 * i + 2] as u32)))
}

/// What decoding a PNG byte stream yields, if it decodes at all: the
/// decoder's output is a function of the bytes alone.
pub uninterp spec fn png_rgb_output(bytes: Seq<u8>) -> Option<(u32, u32, Seq<u8>)>;

#[verifier::external_type_specification]
#[verifier::external_body]
pub struct ExDecodingError(png::DecodingError);

/// Relies on png's `Decoder` and `Reader`: decoding an in-memory
/// stream either fails or yields the frame's dimensions and pixel
/// bytes, and is a function of the input bytes alone.
#[verifier::external_body]
fn decode_png_bytes(bytes: &[u8]) -> (r: Result<(u32, u32, Vec<u8>), png::DecodingError>)
    ensures
        r is Ok <==> png_rgb_output(bytes@) is Some,
        r matches Ok(t) ==> png_rgb_output(bytes@) == Some((t.0, t.1, t.2@)),
{
    let mut reader = png::Decoder::new(std::io::Cursor::new(bytes)).read_info()?;
    let mut buf = vec![0u8; reader.output_buffer_size().unwrap_or(0)];
    let info = reader.next_frame(&mut buf)?;
    buf.truncate(info.buffer_size());
    Ok((info.width, info.height, buf))
}

/// Packs decoded bytes three at a time into pixel values.
#[verifier::loop_isolation(false)]
fn pack_pixels(data: &[u8]) -> (r: Vec<u32>)
    ensures
        r@ == pack_rgb(data@),
{
    let n = data.len() / 3;
    let mut pixels: Vec<u32> = Vec::new();
    proof {
        vstd::arithmetic::div_mod::lemma_fundamental_div_mod(data@.len() as int, 3);
        vstd::arithmetic::div_mod::lemma_mod_bound(data@.len() as int, 3);
        assert(3 * ((data@.len() as int) / 3) <= data@.len());
    }
    let mut i: usize = 0;
    while i < n
        invariant
            i <= n,
            n == data@.len() as int / 3,
            3 * (n as int) <= data@.len(),
            pixels@.len() == i,
            forall|k: int| 0 <= k < i ==> pixels@[k] == pack_rgb(data@)[k],
        decreases n - i,
    {
        proof {
            assert(3 * (i as int) + 2 < data@.len());
        }
        let px = ((data[3 * i] as u32) << 16) | ((data[3 * i + 1] as u32) << 8)
            | (data[3 * i + 2] as u32);
        pixels.push(px);
        i += 1;
    }
    proof {
        assert(pixels@ =~= pack_rgb(data@));
    }
    pixels
}

impl Texture {
    /// Dimensions small enough for the sampling arithmetic, and a
    /// nonempty buffer that fits in the index arithmetic.
    pub open spec fn sampleable(self) -> bool {
        0 < self.pixels@.len() < 4611686018427387904
        && self.width <= 65536
        && self.height <= 65536
    }

    /// The buffer index that sampling at `(cx, cy)` reads: scale by
    /// the dimensions, take floors, and wrap the row-major index
    /// modulo the buffer length.
    pub open spec fn sample_index(self, cx: int, cy: int) -> int {
        let x = (cx * self.width) / (FP as int);
        let y = (cy * self.height) / (FP as int);
        (self.width * y + x) % (self.pixels@.len() as int)
    }

    /// The pixel that sampling at `(cx, cy)` returns.
    pub open spec fn sample_at(self, cx: int, cy: int) -> u32 {
        self.pixels@[self.sample_index(cx, cy)]
    }

    /// The pixel that sampling at `c` returns.
    pub open spec fn sample_spec(self, c: Vec2) -> u32 {
        self.sample_at(c.x as int, c.y as int)
    }


    /// Decodes an in-memory PNG image into a texture, packing each
    /// decoded byte triple into one pixel value.  A stream that the
    /// decoder rejects is an input error.
    pub fn from_png_bytes(bytes: &[u8]) -> (r: Result<Texture, crate::object::ModelLoadError>)
        ensures
            r is Ok <==> png_rgb_output(bytes@) is Some,
            r matches Ok(t) ==> ({
                &&& png_rgb_output(bytes@) matches Some(d)
                &&& t.width == d.0 as usize
                &&& t.height == d.1 as usize
                &&& t.pixels@ == pack_rgb(d.2)
            }),
    {
        match decode_png_bytes(bytes) {
            Ok((w, h, data)) => {
                let pixels = pack_pixels(data.as_slice());
                Ok(Texture { width: w as usize, height: h as usize, pixels })
            },
            Err(_) => Err(crate::object::ModelLoadError::IoError),
        }
    }

    /// Samples the texture at `coords`, whose components are
    /// fixed-point values nominally in `[0, 1)`.  Out-of-range
    /// coordinates wrap: the row-major index is reduced modulo the
    /// buffer length, so sampling at one never goes out of bounds.
    pub fn sample(&self, coords: Vec2) -> (r: u32)
        requires
            self.sampleable(),
            mag(coords.x as int) <= COORD_RANGE as int,
            mag(coords.y as int) <= COORD_RANGE as int,
        ensures
            r == self.sample_spec(coords),
    {
        proof {
            lemma_mul_mag(coords.x as int, self.width as int, COORD_RANGE as int, 65536);
            lemma_mul_mag(coords.y as int, self.height as int, COORD_RANGE as int, 65536);
            lemma_div_mag(coords.x * self.width, FP as int, COORD_RANGE as int);
            lemma_div_mag(coords.y * self.height, FP as int, COORD_RANGE as int);
        }
        let x: i128 = fdiv128((coords.x as i128) * (self.width as i128), FP as i128);
        let y: i128 = fdiv128((coords.y as i128) * (self.height as i128), FP as i128);
        proof {
            lemma_mul_mag(self.width as int, y as int, 65536, COORD_RANGE as int);
        }
        let idx: i64 = ((self.width as i128) * y + x) as i64;
        let len: i64 = self.pixels.len() as i64;
        let m = crate::fixed::emod64(idx, len);
        self.pixels[m as usize]
    }
}

} // verus!
