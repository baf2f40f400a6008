//! Turning an RGBA image into the 1-bit raster a thermal printer prints.

use vstd::prelude::*;
use vstd::string::*;

use crate::error::{is_invalid_argument, SlipbridgeError};

verus! {

/// An RGBA image, four bytes per pixel, row by row.
#[derive(Clone, Debug)]
pub struct RgbaPixels {
    pub width: u32,
    pub height: u32,
    pub data: Vec<u8>,
}

/// How wide a rendered image may be.
#[derive(Copy, Clone, Debug)]
pub struct RenderOptions {
    pub max_width: u32,
}

/// A 1-bit raster: each row is `bytes_per_row` bytes, most significant bit first,
/// a set bit meaning a black dot.
#[derive(Clone, Debug)]
pub struct RenderedImage {
    pub width_px: u32,
    pub height_px: u32,
    pub bytes_per_row: usize,
    pub raster_data: Vec<u8>,
}

impl RgbaPixels {
    /// The buffer holds exactly four bytes for every pixel.
    pub open spec fn wf(&self) -> bool {
        self.data@.len() == self.width * self.height * 4
    }
}

// ---------------------------------------------------------------------------
// Alpha
// ---------------------------------------------------------------------------
/// A colour channel `c` with opacity `a`, laid over white.
pub open spec fn over_white(c: u8, a: u8) -> u8 {
    ((c * a + 255 * (255 - a)) / 255) as u8
}

/// Byte `j` of the RGBA buffer `data` once every pixel is laid over white and made opaque.
pub open spec fn flattened_byte(data: Seq<u8>, j: int) -> u8 {
    let alpha = data[j - j % 4 + 3];
    if alpha == 255 {
        data[j]
    } else if j % 4 == 3 {
        255
    } else {
        over_white(data[j], alpha)
    }
}

/// The RGBA buffer `data` with every pixel laid over white and made opaque.
pub open spec fn flattened(data: Seq<u8>) -> Seq<u8> {
    Seq::new(data.len(), |j: int| flattened_byte(data, j))
}

/// Lays every pixel over a white background, so that the image is fully opaque.
pub fn flatten_alpha(image: RgbaPixels) -> (r: RgbaPixels)
    requires
        image.wf(),
    ensures
        r.wf(),
        r.width == image.width,
        r.height == image.height,
        r.data@ == flattened(image.data@),
{
    let ghost orig = image.data@;
    let width = image.width;
    let height = image.height;
    let mut data = image.data;
    let len = data.len();
    assert(len % 4 == 0) by {
        assert((width * height * 4) % 4 == 0) by (nonlinear_arith);
    }
    let mut j: usize = 0;
    let mut ch: usize = 0;
    while j < len
        invariant
            len == orig.len(),
            len % 4 == 0,
            data@.len() == len,
            j <= len,
            ch == j % 4,
            forall|k: int| j <= k < len ==> data@[k] == orig[k],
            forall|k: int| 0 <= k < j ==> data@[k] == flattened_byte(orig, k),
        decreases len - j,
    {
        let base = j - ch;
        assert(base + 3 < len) by {
            assert(base % 4 == 0);
        }
        let alpha = data[base + 3];
        if alpha != 255 {
            if ch == 3 {
                data.set(j, 255);
            } else {
                let src = data[j] as u32;
                let a = alpha as u32;
                assert(src * a + 255 * (255 - a) <= 255 * 255) by (nonlinear_arith)
                    requires
                        src <= 255,
                        a <= 255,
                ;
                let blended = (src * a + 255 * (255 - a)) / 255;
                data.set(j, blended as u8);
            }
        }
        j = j + 1;
        ch = if ch == 3 {
            0
        } else {
            ch + 1
        };
    }
    assert(data@ =~= flattened(orig));
    RgbaPixels { width, height, data }
}

// ---------------------------------------------------------------------------
// Packing
// ---------------------------------------------------------------------------
/// Bytes needed for a row of `width` dots, eight dots per byte.
pub open spec fn row_bytes(width: int) -> int {
    (width + 7) / 8
}

/// Dot `x` of row `y` exists and is dark (luminance below 128).
pub open spec fn is_dark(luma: Seq<u8>, width: int, y: int, x: int) -> bool {
    x < width && luma[y * width + x] < 128
}

/// The first `k` dots from dot `base` of row `y`, most significant first, one bit per dot.
pub open spec fn pack_bits(luma: Seq<u8>, width: int, y: int, base: int, k: nat) -> int
    decreases k,
{
    if k == 0 {
        0
    } else {
        pack_bits(luma, width, y, base, (k - 1) as nat) * 2 + if is_dark(
            luma,
            width,
            y,
            base + k - 1,
        ) {
            1int
        } else {
            0int
        }
    }
}

/// Byte `b` of row `y`: dots `8b .. 8b+7`, the first in the most significant bit.
pub open spec fn packed_byte(luma: Seq<u8>, width: int, y: int, b: int) -> u8 {
    pack_bits(luma, width, y, 8 * b, 8) as u8
}

/// Row `y` of the packed raster.
pub open spec fn packed_row(luma: Seq<u8>, width: int, y: int) -> Seq<u8> {
    Seq::new(row_bytes(width) as nat, |b: int| packed_byte(luma, width, y, b))
}

/// The first `rows` rows of the packed raster.
pub open spec fn packed_rows(luma: Seq<u8>, width: int, rows: nat) -> Seq<u8>
    decreases rows,
{
    if rows == 0 {
        seq![]
    } else {
        packed_rows(luma, width, (rows - 1) as nat) + packed_row(luma, width, rows - 1)
    }
}

proof fn lemma_pack_bits_bound(luma: Seq<u8>, width: int, y: int, base: int, k: nat)
    ensures
        0 <= pack_bits(luma, width, y, base, k) < vstd::arithmetic::power2::pow2(k),
    decreases k,
{
    if k > 0 {
        lemma_pack_bits_bound(luma, width, y, base, (k - 1) as nat);
        vstd::arithmetic::power2::lemma_pow2_unfold(k);
    } else {
        vstd::arithmetic::power2::lemma2_to64();
    }
}

proof fn lemma_row_index(y: int, x: int, width: int, height: int)
    requires
        0 <= y < height,
        0 <= x < width,
    ensures
        0 <= y * width + x < width * height,
        (y + 1) * width == y * width + width,
{
    assert(0 <= y * width + x < width * height) by (nonlinear_arith)
        requires
            0 <= y < height,
            0 <= x < width,
    ;
    assert((y + 1) * width == y * width + width) by (nonlinear_arith);
}

/// Packs a black-and-white image, one luminance byte per dot, into rows of bytes,
/// eight dots per byte with the leftmost in the most significant bit; a dot with
/// luminance below 128 is printed.
pub fn pack_bilevel_rows(width: u32, height: u32, luma: &Vec<u8>) -> (r: Vec<u8>)
    requires
        luma@.len() == width * height,
    ensures
        r@ == packed_rows(luma@, width as int, height as nat),
        r@.len() == row_bytes(width as int) * height,
{
    let bytes_per_row: usize = width as usize / 8 + if width % 8 != 0 {
        1
    } else {
        0
    };
    assert(luma@.len() == luma.len());
    let ghost w = width as int;
    let mut raster: Vec<u8> = Vec::new();
    let mut y: u32 = 0;
    let mut row_base: usize = 0;
    assert(0 * w == 0);
    while y < height
        invariant
            y <= height,
            w == width,
            luma@.len() == width * height,
            luma@.len() <= usize::MAX,
            bytes_per_row == row_bytes(w),
            row_base == y * w,
            raster@ == packed_rows(luma@, w, y as nat),
            raster@.len() == bytes_per_row * y,
        decreases height - y,
    {
        let ghost before = raster@;
        let mut b: usize = 0;
        while b < bytes_per_row
            invariant
                y < height,
                w == width,
                luma@.len() == width * height,
                luma@.len() <= usize::MAX,
                bytes_per_row == row_bytes(w),
                row_base == y * w,
                b <= bytes_per_row,
                raster@ == before + packed_row(luma@, w, y as int).subrange(0, b as int),
            decreases bytes_per_row - b,
        {
            let mut packed: u32 = 0;
            let mut bit: usize = 0;
            proof {
                vstd::arithmetic::power2::lemma2_to64();
            }
            while bit < 8
                invariant
                    y < height,
                    w == width,
                    luma@.len() == width * height,
                    luma@.len() <= usize::MAX,
                    bytes_per_row == row_bytes(w),
                    b < bytes_per_row,
                    row_base == y * w,
                    bit <= 8,
                    packed == pack_bits(luma@, w, y as int, 8 * b as int, bit as nat),
                    packed < vstd::arithmetic::power2::pow2(bit as nat),
                decreases 8 - bit,
            {
                proof {
                    lemma_pack_bits_bound(luma@, w, y as int, 8 * b as int, (bit + 1) as nat);
                    vstd::arithmetic::power2::lemma2_to64();
                    vstd::arithmetic::power2::lemma_pow2_unfold((bit + 1) as nat);
                }
                let x = 8 * b + bit;
                let dark = if x < width as usize {
                    proof {
                        lemma_row_index(y as int, x as int, w, height as int);
                    }
                    luma[row_base + x] < 128
                } else {
                    false
                };
                packed = packed * 2 + if dark {
                    1
                } else {
                    0
                };
                bit = bit + 1;
            }
            proof {
                vstd::arithmetic::power2::lemma2_to64();
            }
            raster.push(packed as u8);
            b = b + 1;
            assert(raster@ =~= before + packed_row(luma@, w, y as int).subrange(0, b as int));
        }
        assert(packed_row(luma@, w, y as int).subrange(0, b as int) =~= packed_row(
            luma@,
            w,
            y as int,
        ));
        proof {
            if w > 0 {
                lemma_row_index(y as int, 0, w, height as int);
            } else {
                assert((y + 1) * w == y * w + w) by (nonlinear_arith);
            }
            assert(bytes_per_row * (y + 1) == bytes_per_row * y + bytes_per_row) by (nonlinear_arith);
            assert((y + 1) * w <= w * height) by (nonlinear_arith)
                requires
                    y < height,
                    w >= 0,
            ;
        }
        y = y + 1;
        row_base = row_base + width as usize;
    }
    raster
}

/// The packed raster has `row_bytes(width)` bytes for each row.
pub proof fn lemma_packed_rows_len(luma: Seq<u8>, width: int, rows: nat)
    requires
        width >= 0,
    ensures
        packed_rows(luma, width, rows).len() == row_bytes(width) * rows,
    decreases rows,
{
    if rows > 0 {
        lemma_packed_rows_len(luma, width, (rows - 1) as nat);
        assert(row_bytes(width) * rows == row_bytes(width) * (rows - 1) + row_bytes(width))
            by (nonlinear_arith);
    } else {
        assert(row_bytes(width) * 0 == 0);
    }
}

/// Flattening leaves every pixel opaque, and leaves an already opaque pixel as it was.
pub proof fn law_flattened_is_opaque(data: Seq<u8>, p: int)
    requires
        data.len() % 4 == 0,
        0 <= p,
        4 * p + 3 < data.len(),
    ensures
        flattened(data)[4 * p + 3] == 255,
        data[4 * p + 3] == 255 ==> forall|c: int|
            0 <= c < 4 ==> #[trigger] flattened(data)[4 * p + c] == data[4 * p + c],
{
    assert((4 * p + 3) % 4 == 3);
    assert forall|c: int| 0 <= c < 4 implies #[trigger] flattened(data)[4 * p + c] == data[4 * p
        + c] || data[4 * p + 3] != 255 by {
        assert((4 * p + c) % 4 == c);
    }
}

proof fn lemma_pack_bit(luma: Seq<u8>, width: int, y: int, base: int, n: nat, k: nat)
    requires
        k < n,
    ensures
        (pack_bits(luma, width, y, base, n) / (vstd::arithmetic::power2::pow2((n - 1 - k) as nat) as int))
            % 2 == if is_dark(luma, width, y, base + k) {
            1int
        } else {
            0int
        },
    decreases n,
{
    let x = pack_bits(luma, width, y, base, (n - 1) as nat);
    let bit: int = if is_dark(luma, width, y, base + n - 1) {
        1
    } else {
        0
    };
    lemma_pack_bits_bound(luma, width, y, base, (n - 1) as nat);
    assert(pack_bits(luma, width, y, base, n) == x * 2 + bit);
    if k == n - 1 {
        vstd::arithmetic::power2::lemma2_to64();
        assert((x * 2 + bit) % 2 == bit) by (nonlinear_arith)
            requires
                0 <= bit <= 1,
                x >= 0,
        ;
        assert(vstd::arithmetic::power2::pow2(0) == 1);
        assert((x * 2 + bit) / 1 == x * 2 + bit);
    } else {
        let e = (n - 2 - k) as nat;
        lemma_pack_bit(luma, width, y, base, (n - 1) as nat, k);
        vstd::arithmetic::power2::lemma_pow2_unfold((n - 1 - k) as nat);
        vstd::arithmetic::power2::lemma_pow2_pos(e);
        let q = vstd::arithmetic::power2::pow2(e) as int;
        assert(vstd::arithmetic::power2::pow2((n - 1 - k) as nat) == 2 * q);
        vstd::arithmetic::div_mod::lemma_div_denominator(x * 2 + bit, 2, q);
        assert((x * 2 + bit) / 2 == x) by (nonlinear_arith)
            requires
                0 <= bit <= 1,
                x >= 0,
        ;
        assert(((x * 2 + bit) / 2) / q == (x * 2 + bit) / (2 * q));
        assert((x * 2 + bit) / (2 * q) == x / q);
    }
}

/// Each dot is one bit: bit `7 - k` of byte `b` in row `y` is set exactly when dot
/// `8b + k` of that row exists and is dark; the leftmost dot is the high bit.
pub proof fn law_packed_bits(luma: Seq<u8>, width: int, y: int, b: int, k: nat)
    requires
        k < 8,
    ensures
        (packed_byte(luma, width, y, b) as int / (vstd::arithmetic::power2::pow2((7 - k) as nat) as int))
            % 2 == if is_dark(luma, width, y, 8 * b + k) {
            1int
        } else {
            0int
        },
{
    lemma_pack_bits_bound(luma, width, y, 8 * b, 8);
    vstd::arithmetic::power2::lemma2_to64();
    lemma_pack_bit(luma, width, y, 8 * b, 8, k);
}

// ---------------------------------------------------------------------------
// Resampling, grey levels and dithering, done by the `image` crate
// ---------------------------------------------------------------------------
/// The RGBA pixels `image::imageops::resize` gives, with the `Triangle` filter, for an
/// RGBA image of `width x height` resized to `new_width x new_height`.
pub uninterp spec fn triangle_resized(
    width: u32,
    height: u32,
    data: Seq<u8>,
    new_width: u32,
    new_height: u32,
) -> Seq<u8>;

/// The luminance bytes `DynamicImage::into_luma8` gives for an RGBA image.
pub uninterp spec fn luma_of_rgba(width: u32, height: u32, data: Seq<u8>) -> Seq<u8>;

/// The luminance bytes after `image::imageops::dither` with the `BiLevel` colour map.
pub uninterp spec fn bilevel_dithered(width: u32, height: u32, luma: Seq<u8>) -> Seq<u8>;

/// Calls `image::imageops::resize` with `FilterType::Triangle`. Claimed: the result is
/// `new_width x new_height` RGBA pixels, and depends on the arguments alone.
#[verifier::external_body]
fn resize_triangle(width: u32, height: u32, data: Vec<u8>, new_width: u32, new_height: u32) -> (r:
    Vec<u8>)
    requires
        data@.len() == width * height * 4,
        new_width >= 1,
        new_height >= 1,
        new_width * new_height * 4 <= usize::MAX,
    ensures
        r@ == triangle_resized(width, height, data@, new_width, new_height),
        r@.len() == new_width * new_height * 4,
{
    let source = image::RgbaImage::from_raw(width, height, data).unwrap();
    image::imageops::resize(&source, new_width, new_height, image::imageops::FilterType::Triangle)
        .into_raw()
}

/// Calls `DynamicImage::into_luma8` on an RGBA image. Claimed: one luminance byte per
/// pixel, depending on the arguments alone.
#[verifier::external_body]
fn rgba_to_luma(width: u32, height: u32, data: Vec<u8>) -> (r: Vec<u8>)
    requires
        data@.len() == width * height * 4,
    ensures
        r@ == luma_of_rgba(width, height, data@),
        r@.len() == width * height,
{
    let source = image::RgbaImage::from_raw(width, height, data).unwrap();
    image::DynamicImage::ImageRgba8(source).into_luma8().into_raw()
}

/// Calls `image::imageops::dither` with `BiLevel` on a luminance image, which indexes
/// the dot to the right of every dot and so needs a width of at least two. Claimed:
/// the size is unchanged and the result depends on the arguments alone.
#[verifier::external_body]
fn dither_bilevel(width: u32, height: u32, luma: Vec<u8>) -> (r: Vec<u8>)
    requires
        luma@.len() == width * height,
        width >= 2,
        height >= 1,
    ensures
        r@ == bilevel_dithered(width, height, luma@),
        r@.len() == width * height,
{
    let mut grey = image::GrayImage::from_raw(width, height, luma).unwrap();
    image::imageops::dither(&mut grey, &image::imageops::BiLevel);
    grey.into_raw()
}

// ---------------------------------------------------------------------------
// Rendering
// ---------------------------------------------------------------------------
/// Why an image cannot be rendered, if it cannot.
pub open spec fn render_error(image: RgbaPixels, options: RenderOptions) -> Option<Seq<char>> {
    if options.max_width == 0 {
        Some("render max width must be > 0"@)
    } else if image.width == 0 || image.height == 0 {
        Some("image has zero dimensions"@)
    } else {
        None
    }
}

/// Width of the rendered image: the source width, capped at the maximum.
pub open spec fn render_width(image: RgbaPixels, options: RenderOptions) -> u32 {
    if image.width <= options.max_width {
        image.width
    } else {
        options.max_width
    }
}

/// Height of the rendered image: the source height, or `scaled_height` when the width was capped.
pub open spec fn render_height(image: RgbaPixels, options: RenderOptions, scaled_height: u32) -> u32 {
    if render_width(image, options) == image.width {
        image.height
    } else {
        scaled_height
    }
}

/// The dithered luminance of the rendered image: the source laid over white, resized when
/// its size changes, turned to grey and dithered to black and white.
pub open spec fn rendered_luma(image: RgbaPixels, options: RenderOptions, scaled_height: u32) -> Seq<u8> {
    let w = render_width(image, options);
    let h = render_height(image, options, scaled_height);
    let flat = flattened(image.data@);
    let resized = if w == image.width && h == image.height {
        flat
    } else {
        triangle_resized(image.width, image.height, flat, w, h)
    };
    bilevel_dithered(w, h, luma_of_rgba(w, h, resized))
}

/// Renders `image` for a thermal printer: lays it over white, caps its width at
/// `options.max_width` (then its height becomes `scaled_height`, the source height
/// scaled in proportion, which the caller computes), dithers it to black and white,
/// and packs it eight dots to a byte.
pub fn render_image_for_thermal(image: RgbaPixels, options: RenderOptions, scaled_height: u32) -> (r:
    Result<RenderedImage, SlipbridgeError>)
    requires
        image.wf(),
        render_error(image, options) is None ==> render_width(image, options) >= 2,
        render_error(image, options) is None && render_width(image, options) != image.width ==> 1
            <= scaled_height <= image.height,
    ensures
        match r {
            Ok(rendered) => {
                let w = render_width(image, options);
                let h = render_height(image, options, scaled_height);
                &&& render_error(image, options) is None
                &&& rendered.width_px == w
                &&& rendered.height_px == h
                &&& rendered.bytes_per_row == row_bytes(w as int)
                &&& rendered.raster_data@ == packed_rows(
                    rendered_luma(image, options, scaled_height),
                    w as int,
                    h as nat,
                )
            },
            Err(e) => render_error(image, options) matches Some(m) && is_invalid_argument(e, m),
        },
{
    if options.max_width == 0 {
        return Err(SlipbridgeError::invalid_argument(String::from_str("render max width must be > 0")));
    }
    let ghost source = image;
    let flat = flatten_alpha(image);
    let source_width = flat.width;
    let source_height = flat.height;
    if source_width == 0 || source_height == 0 {
        return Err(SlipbridgeError::invalid_argument(String::from_str("image has zero dimensions")));
    }
    let target_width = if source_width <= options.max_width {
        source_width
    } else {
        options.max_width
    };
    let target_height = if target_width == source_width {
        source_height
    } else {
        scaled_height
    };
    assert(flat.data@.len() == flat.data.len());
    proof {
        let w = target_width as int;
        let h = target_height as int;
        assert(w * h * 4 <= source_width * source_height * 4) by (nonlinear_arith)
            requires
                0 <= w <= source_width,
                0 <= h <= source_height,
        ;
        assert(w * h >= 1) by (nonlinear_arith)
            requires
                w >= 1,
                h >= 1,
        ;
    }
    let resized = if target_width == source_width && target_height == source_height {
        flat.data
    } else {
        resize_triangle(source_width, source_height, flat.data, target_width, target_height)
    };
    let grey = rgba_to_luma(target_width, target_height, resized);
    let dithered = dither_bilevel(target_width, target_height, grey);
    let raster_data = pack_bilevel_rows(target_width, target_height, &dithered);
    let bytes_per_row = target_width as usize / 8 + if target_width % 8 != 0 {
        1
    } else {
        0
    };
    Ok(
        RenderedImage {
            width_px: target_width,
            height_px: target_height,
            bytes_per_row,
            raster_data,
        },
    )
}

/// Flattening an image that is already flat changes nothing.
pub proof fn lemma_flattened_twice(data: Seq<u8>)
    requires
        data.len() % 4 == 0,
    ensures
        flattened(flattened(data)) == flattened(data),
{
    let f = flattened(data);
    assert forall|j: int| 0 <= j < f.len() implies #[trigger] flattened(f)[j] == f[j] by {
        let p = j / 4;
        let c = j % 4;
        assert(j == 4 * p + c);
        assert(4 * p + 3 < data.len());
        law_flattened_is_opaque(data, p);
        law_flattened_is_opaque(f, p);
        assert(flattened(f)[4 * p + c] == f[4 * p + c]);
    }
    assert(flattened(f) =~= f);
}

/// Rendering sees an image as laid over white: an image and the same image already laid
/// over white (`flat`) render to the same dots, whatever the options.
pub proof fn law_render_flattens_first(
    image: RgbaPixels,
    flat: RgbaPixels,
    options: RenderOptions,
    scaled_height: u32,
)
    requires
        image.wf(),
        flat.width == image.width,
        flat.height == image.height,
        flat.data@ == flattened(image.data@),
    ensures
        rendered_luma(image, options, scaled_height) == rendered_luma(flat, options, scaled_height),
{
    assert(image.data@.len() % 4 == 0) by {
        assert((image.width * image.height * 4) % 4 == 0) by (nonlinear_arith);
    }
    lemma_flattened_twice(image.data@);
}

/// Transparency prints as paper: an image whose pixels are all fully transparent renders
/// exactly as a blank white image of the same size (every byte 255), whatever its colours.
pub proof fn law_transparent_renders_blank(
    image: RgbaPixels,
    white: RgbaPixels,
    options: RenderOptions,
    scaled_height: u32,
)
    requires
        image.wf(),
        forall|p: int| 0 <= p && 4 * p + 3 < image.data@.len() ==> #[trigger] image.data@[4 * p + 3] == 0,
        white.width == image.width,
        white.height == image.height,
        white.data@.len() == image.data@.len(),
        forall|j: int| 0 <= j < white.data@.len() ==> #[trigger] white.data@[j] == 255,
    ensures
        rendered_luma(image, options, scaled_height) == rendered_luma(white, options, scaled_height),
{
    let d = image.data@;
    let w = white.data@;
    assert(d.len() % 4 == 0) by {
        assert((image.width * image.height * 4) % 4 == 0) by (nonlinear_arith);
    }
    assert forall|j: int| 0 <= j < d.len() implies #[trigger] flattened(d)[j] == w[j] by {
        let p = j / 4;
        let c = j % 4;
        assert(j == 4 * p + c);
        assert(4 * p + 3 < d.len());
        assert(d[4 * p + 3] == 0);
        assert(j - j % 4 + 3 == 4 * p + 3);
        assert(over_white(d[j], 0) == 255) by {
            assert((d[j] * 0 + 255 * (255 - 0)) / 255 == 255);
        }
    }
    assert(flattened(d) =~= w);
    assert forall|j: int| 0 <= j < w.len() implies #[trigger] flattened(w)[j] == w[j] by {
        let p = j / 4;
        assert(j - j % 4 + 3 == 4 * p + 3);
        assert(4 * p + 3 < w.len());
    }
    assert(flattened(w) =~= w);
}

} // verus!
