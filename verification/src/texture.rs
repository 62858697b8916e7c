//! Immutable image assets decoded from Windows bitmap bytes: wall and
//! sprite textures (24-bit colour, stored bottom-up and reversed on load)
//! and a monochrome glyph font.

use vstd::prelude::*;

verus! {

/// A power of two: the texture sizes the samplers' wraparound indexing needs.
pub open spec fn is_pow2(n: int) -> bool
    decreases n,
{
    if n <= 0 {
        false
    } else if n == 1 {
        true
    } else if n % 2 == 1 {
        false
    } else {
        is_pow2(n / 2)
    }
}

/// Unsigned little-endian 32-bit value at byte offset `i`.
pub open spec fn le32_at(b: Seq<u8>, i: int) -> int {
    b[i] + 256 * b[i + 1] + 65536 * b[i + 2] + 16777216 * b[i + 3]
}

/// The 24-bit pixel starting at byte offset `i`, packed 0x00RRGGBB.
pub open spec fn pixel_at(b: Seq<u8>, i: int) -> u32 {
    (b[i] + 256 * b[i + 1] + 65536 * b[i + 2]) as u32
}

/// The `j`-th pixel of the bitmap body, counted from the data offset.
pub open spec fn bmp_pixel(b: Seq<u8>, j: int) -> u32 {
    pixel_at(b, le32_at(b, 0x0a) + 3 * j)
}

/// Whether the `j`-th body pixel is pure black, the transparency key.
pub open spec fn bmp_black(b: Seq<u8>, j: int) -> bool {
    bmp_pixel(b, j) == 0
}

/// A well-formed bitmap for texture use: in-range data offset, power-of-two
/// dimensions, and a body of exactly one 3-byte pixel per cell.
pub open spec fn bmp_texture_ok(b: Seq<u8>) -> bool {
    &&& b.len() >= 0x1a
    &&& 0x1a <= le32_at(b, 0x0a) <= b.len()
    &&& 1 <= le32_at(b, 0x12) <= 32768
    &&& is_pow2(le32_at(b, 0x12))
    &&& 1 <= le32_at(b, 0x16) <= 32768
    &&& is_pow2(le32_at(b, 0x16))
    &&& b.len() - le32_at(b, 0x0a) == 3 * le32_at(b, 0x12) * le32_at(b, 0x16)
}

/// A well-formed bitmap for font use: the header fits and the pixel data
/// starts past it.
pub open spec fn bmp_font_ok(b: Seq<u8>) -> bool {
    &&& b.len() >= 0x0e
    &&& 0x0e <= le32_at(b, 0x0a)
}

/// Number of glyph samples a font bitmap of length `len` with data offset
/// `dp` yields: one per 3 bytes, the trailing partial group included.
pub open spec fn font_sample_count(len: int, dp: int) -> int {
    if dp >= len {
        0
    } else {
        (len - dp + 2) / 3
    }
}

/// An immutable RGB texture. Both dimensions are powers of two so samplers
/// can wrap coordinates with a remainder; a pure-black pixel anywhere marks
/// the whole image as transparency-keyed.
pub struct Texture {
    pub width: usize,
    pub height: usize,
    pub has_transparency: bool,
    pub data: Vec<u32>,
}

impl Texture {
    /// The shape every loaded texture has.
    pub open spec fn wf(&self) -> bool {
        &&& is_pow2(self.width as int)
        &&& is_pow2(self.height as int)
        &&& 1 <= self.width <= 32768
        &&& 1 <= self.height <= 32768
        &&& self.data@.len() == self.width * self.height
    }

    /// Decodes a 24-bit Windows bitmap. The pixel array is reversed so the
    /// top row comes last, as the samplers expect; any pure-black pixel sets
    /// the transparency flag. Malformed input is a load failure.
    pub fn load_from_bmp(bmp_data: &Vec<u8>) -> (r: Option<Texture>)
        ensures
            match r {
                Some(t) => {
                    &&& bmp_texture_ok(bmp_data@)
                    &&& t.wf()
                    &&& t.width == le32_at(bmp_data@, 0x12)
                    &&& t.height == le32_at(bmp_data@, 0x16)
                    &&& forall|k: int|
                        0 <= k < t.data@.len() ==> t.data@[k] == bmp_pixel(
                            bmp_data@,
                            t.data@.len() - 1 - k,
                        )
                    &&& t.has_transparency == exists|j: int|
                        0 <= j < t.data@.len() && #[trigger] bmp_black(bmp_data@, j)
                },
                None => !bmp_texture_ok(bmp_data@),
            },
    {
        if bmp_data.len() < 0x1a {
            return None;
        }
        let dp: usize = read_le32(bmp_data, 0x0a);
        let w: usize = read_le32(bmp_data, 0x12);
        let h: usize = read_le32(bmp_data, 0x16);
        if dp < 0x1a || dp > bmp_data.len() {
            return None;
        }
        if w < 1 || w > 32768 || !check_pow2(w) {
            return None;
        }
        if h < 1 || h > 32768 || !check_pow2(h) {
            return None;
        }
        assert(1 <= w * h <= 0x4000_0000) by (nonlinear_arith)
            requires
                1 <= w <= 32768,
                1 <= h <= 32768,
        ;
        let n: usize = w * h;
        proof {
            vstd::arithmetic::mul::lemma_mul_is_associative(3, w as int, h as int);
        }
        if bmp_data.len() - dp != 3 * n {
            return None;
        }
        let mut has_transparency = false;
        let mut j: usize = 0;
        while j < n
            invariant
                0 <= j <= n,
                1 <= n,
                dp + 3 * n <= bmp_data@.len(),
                bmp_data@.len() <= usize::MAX,
                dp == le32_at(bmp_data@, 0x0a),
                has_transparency == exists|jj: int|
                    0 <= jj < j && #[trigger] bmp_black(bmp_data@, jj),
            decreases n - j,
        {
            let idx: usize = dp + 3 * j;
            let px: u32 = (bmp_data[idx] as u32) + 256 * (bmp_data[idx + 1] as u32) + 65536 * (
            bmp_data[idx + 2] as u32);
            if px == 0 {
                proof {
                    assert(bmp_black(bmp_data@, j as int));
                }
                has_transparency = true;
            } else {
                proof {
                    assert(!bmp_black(bmp_data@, j as int));
                }
            }
            j = j + 1;
        }
        let mut data: Vec<u32> = Vec::new();
        let mut k: usize = 0;
        while k < n
            invariant
                0 <= k <= n,
                1 <= n,
                dp + 3 * n <= bmp_data@.len(),
                bmp_data@.len() <= usize::MAX,
                dp == le32_at(bmp_data@, 0x0a),
                data@.len() == k,
                forall|kk: int| 0 <= kk < k ==> data@[kk] == bmp_pixel(bmp_data@, n - 1 - kk),
            decreases n - k,
        {
            let idx: usize = dp + 3 * (n - 1 - k);
            let px: u32 = (bmp_data[idx] as u32) + 256 * (bmp_data[idx + 1] as u32) + 65536 * (
            bmp_data[idx + 2] as u32);
            data.push(px);
            k = k + 1;
        }
        Some(Texture { width: w, height: h, has_transparency, data })
    }
}

/// A fixed-width monochrome glyph set blitted for HUD text.
pub struct Font {
    pub charset_length: usize,
    pub glyph_size: usize,
    pub glyphs: Vec<bool>,
}

impl Font {
    /// Decodes a font bitmap: one boolean per 3-byte pixel group, set where
    /// the first channel is fully bright. Malformed input is a load failure.
    pub fn load_from_bmp(bmp_data: &Vec<u8>, glyph_size: usize) -> (r: Option<Font>)
        ensures
            match r {
                Some(f) => {
                    &&& bmp_font_ok(bmp_data@)
                    &&& f.charset_length == 256
                    &&& f.glyph_size == glyph_size
                    &&& f.glyphs@.len() == font_sample_count(
                        bmp_data@.len() as int,
                        le32_at(bmp_data@, 0x0a),
                    )
                    &&& forall|k: int|
                        0 <= k < f.glyphs@.len() ==> f.glyphs@[k] == (bmp_data@[le32_at(
                            bmp_data@,
                            0x0a,
                        ) + 3 * k] == 0xff)
                },
                None => !bmp_font_ok(bmp_data@),
            },
    {
        if bmp_data.len() < 0x0e {
            return None;
        }
        let dp: usize = read_le32(bmp_data, 0x0a);
        if dp < 0x0e {
            return None;
        }
        let len: usize = bmp_data.len();
        let count: usize = if dp >= len {
            0
        } else {
            (len - dp + 2) / 3
        };
        proof {
            if dp < len {
                vstd::arithmetic::div_mod::lemma_fundamental_div_mod((len - dp + 2) as int, 3);
            }
        }
        let mut glyphs: Vec<bool> = Vec::new();
        let mut k: usize = 0;
        while k < count
            invariant
                0 <= k <= count,
                count == font_sample_count(len as int, dp as int),
                len == bmp_data@.len(),
                count > 0 ==> dp + 3 * count <= len + 2,
                len <= usize::MAX,
                glyphs@.len() == k,
                forall|kk: int| 0 <= kk < k ==> glyphs@[kk] == (bmp_data@[dp + 3 * kk] == 0xff),
            decreases count - k,
        {
            let idx: usize = dp + 3 * k;
            glyphs.push(bmp_data[idx] == 0xff);
            k = k + 1;
        }
        Some(Font { charset_length: 256, glyph_size, glyphs })
    }
}

/// Reads the unsigned little-endian 32-bit field at `at`.
fn read_le32(b: &Vec<u8>, at: usize) -> (r: usize)
    requires
        at + 4 <= b@.len(),
    ensures
        r == le32_at(b@, at as int),
        r < 0x1_0000_0000,
{
    let _len: usize = b.len();
    let b0: u64 = b[at] as u64;
    let b1: u64 = b[at + 1] as u64;
    let b2: u64 = b[at + 2] as u64;
    let b3: u64 = b[at + 3] as u64;
    let v: u64 = b0 + 256 * b1 + 65536 * b2 + 16777216 * b3;
    v as usize
}

/// Whether `n` is a power of two.
pub fn check_pow2(n: usize) -> (r: bool)
    ensures
        r == is_pow2(n as int),
{
    if n == 0 {
        return false;
    }
    let mut m: usize = n;
    while m > 1 && m % 2 == 0
        invariant
            1 <= m <= n,
            is_pow2(n as int) == is_pow2(m as int),
        decreases m,
    {
        m = m / 2;
    }
    m == 1
}

} // verus!
