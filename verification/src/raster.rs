//! Images as the engraver sees them: a 1-bit raster, thresholded from the
//! picture's luma and sent row by row.

use vstd::prelude::*;
use vstd::arithmetic::power2::{pow2, lemma2_to64};

use crate::protocol::{round_up8, raster_len, FOOTER, MAX_HEIGHT, MAX_WIDTH};

verus! {

// ── the picture ──────────────────────────────────────────────────────────────

/// A picture as the engraving logic reads it: its dimensions, its RGBA
/// pixels and its grayscale (luma) plane, both row-major with the pixel at
/// `(x, y)` at index `y * width + x`.
pub struct Picture {
    width: u32,
    height: u32,
    pixels: Vec<(u8, u8, u8, u8)>,
    luma: Vec<u8>,
}

/// The mathematical value of a [`Picture`].
pub struct PictureView {
    pub width: u32,
    pub height: u32,
    pub pixels: Seq<(u8, u8, u8, u8)>,
    pub luma: Seq<u8>,
}

impl PictureView {
    /// Both planes hold one entry per pixel.
    pub open spec fn wf(self) -> bool {
        &&& self.pixels.len() == self.width * self.height
        &&& self.luma.len() == self.width * self.height
    }
}

impl View for Picture {
    type V = PictureView;

    closed spec fn view(&self) -> PictureView {
        PictureView {
            width: self.width,
            height: self.height,
            pixels: self.pixels@,
            luma: self.luma@,
        }
    }
}

impl Picture {
    #[verifier::type_invariant]
    spec fn planes_fit(self) -> bool {
        self@.wf()
    }

    /// A picture of `width` × `height` pixels; `None` unless both planes
    /// hold exactly one entry per pixel.
    pub fn new(width: u32, height: u32, pixels: Vec<(u8, u8, u8, u8)>, luma: Vec<u8>) -> (r:
        Option<Picture>)
        ensures
            r is Some <==> pixels@.len() == width * height && luma@.len() == width * height,
            r matches Some(p) ==> p@ == (PictureView {
                width,
                height,
                pixels: pixels@,
                luma: luma@,
            }),
    {
        assert(width as int * height as int <= u32::MAX as int * u32::MAX as int) by (nonlinear_arith)
            requires
                width <= u32::MAX,
                height <= u32::MAX,
        ;
        let n = width as u64 * height as u64;
        if pixels.len() as u64 == n && luma.len() as u64 == n {
            Some(Picture { width, height, pixels, luma })
        } else {
            None
        }
    }

    pub fn width(&self) -> (w: u32)
        ensures
            w == self@.width,
            self@.wf(),
    {
        proof {
            use_type_invariant(self);
        }
        self.width
    }

    pub fn height(&self) -> (h: u32)
        ensures
            h == self@.height,
            self@.wf(),
    {
        proof {
            use_type_invariant(self);
        }
        self.height
    }

    /// The RGBA pixels, row-major.
    pub fn pixels(&self) -> (px: &[(u8, u8, u8, u8)])
        ensures
            px@ == self@.pixels,
    {
        self.pixels.as_slice()
    }

    /// The grayscale plane, row-major.
    pub fn luma(&self) -> (l: &[u8])
        ensures
            l@ == self@.luma,
    {
        self.luma.as_slice()
    }
}

/// The pixel at `(x, y)` of the picture.
pub open spec fn pixel_at(p: PictureView, x: int, y: int) -> (u8, u8, u8, u8) {
    p.pixels[y * p.width + x]
}

/// The RGBA pixel that a grayscale pixel of level `v` reads as.
pub open spec fn gray_rgba(v: u8) -> (u8, u8, u8, u8) {
    (v, v, v, 255)
}

// ── thresholding ─────────────────────────────────────────────────────────────

/// The gray level that thresholding gives a pixel of luma `l`: black (burned)
/// when `l` is below `threshold`, white otherwise, the other way round when
/// `invert` is set.
pub open spec fn threshold_level(l: u8, threshold: u8, invert: bool) -> u8 {
    if (l < threshold) != invert {
        0
    } else {
        255
    }
}

/// The thresholded picture: a grayscale picture of the same size whose
/// pixels are all black or white by `threshold_level` of the luma.
pub open spec fn spec_threshold_image(p: PictureView, threshold: u8, invert: bool) -> PictureView {
    let levels = Seq::new(
        (p.width * p.height) as nat,
        |i: int| threshold_level(p.luma[i], threshold, invert),
    );
    PictureView {
        width: p.width,
        height: p.height,
        pixels: Seq::new((p.width * p.height) as nat, |i: int| gray_rgba(levels[i])),
        luma: levels,
    }
}

/// Apply a simple threshold to convert a colour image to a crisp 1-bit look
/// before encoding.  Threshold 0-255: pixels darker than it are burned, so a
/// higher threshold burns more pixels.
/// If `invert` is true, the result is flipped: white becomes burned, black skipped.
/// Use this for white logos on dark backgrounds.
pub fn threshold_image(img: &Picture, threshold: u8, invert: bool) -> (out: Picture)
    ensures
        out@ == spec_threshold_image(img@, threshold, invert),
{
    let w = img.width();
    let h = img.height();
    let gray = img.luma();
    let n = gray.len();
    let mut levels: Vec<u8> = Vec::with_capacity(n);
    let mut pixels: Vec<(u8, u8, u8, u8)> = Vec::with_capacity(n);
    for i in 0..n
        invariant
            n == gray@.len(),
            levels@.len() == i,
            pixels@.len() == i,
            forall|j: int|
                0 <= j < i ==> #[trigger] levels@[j] == threshold_level(gray@[j], threshold, invert),
            forall|j: int| 0 <= j < i ==> #[trigger] pixels@[j] == gray_rgba(levels@[j]),
    {
        let dark = gray[i] < threshold;
        let burn = if invert {
            !dark
        } else {
            dark
        };
        let v: u8 = if burn {
            0
        } else {
            255
        };
        levels.push(v);
        pixels.push((v, v, v, 255));
    }
    let ghost spec_out = spec_threshold_image(img@, threshold, invert);
    assert(levels@ =~= spec_out.luma);
    assert(pixels@ =~= spec_out.pixels);
    let out = Picture { width: w, height: h, pixels, luma: levels };
    out
}

// ── dimensions ───────────────────────────────────────────────────────────────

/// What `image_dimensions` returns for a picture of `w` × `h` pixels, the
/// dimensions taken modulo 2^16.
pub open spec fn spec_image_dimensions(w: u32, h: u32) -> (u16, u16, u32) {
    let w16 = w as u16;
    let h16 = h as u16;
    (round_up8(w16 as int) as u16, h16, raster_len(w16 as int, h16 as int) as u32)
}

/// The three numbers that the image header needs, from the dimensions
/// taken modulo 2^16.
fn dimensions16(w16: u16, h16: u16) -> (r: (u16, u16, u32))
    requires
        w16 <= 65528,
    ensures
        r.0 == round_up8(w16 as int),
        r.1 == h16,
        r.2 == raster_len(w16 as int, h16 as int),
{
    assert((((w16 + 7) as u16) & !7u16) == (w16 + 7) / 8 * 8) by (bit_vector)
        requires
            w16 <= 65528u16,
    ;
    let wr = (w16 + 7) & !7;
    assert(wr as int * h16 as int <= 65528 * 65535) by (nonlinear_arith)
        requires
            wr <= 65528,
            h16 <= 65535,
    ;
    let le = (wr as u32 * h16 as u32) / 8;
    (wr, h16, le)
}

/// Returns `(wr, h, le)` — the three values needed by `protocol::image_info`.
/// `le` counts the unescaped bytes (what the device expects in the header).
/// The width, taken modulo 2^16, must leave room for the rounding up to a
/// multiple of 8.
pub fn image_dimensions(img: &Picture) -> (r: (u16, u16, u32))
    requires
        img@.width as u16 <= 65528,
    ensures
        r == spec_image_dimensions(img@.width, img@.height),
{
    let w = img.width() as u16;
    let h = img.height() as u16;
    dimensions16(w, h)
}

// ── encoding ─────────────────────────────────────────────────────────────────

/// Whether a pixel of colour `(r, g, b)` is dark: its luma
/// `0.299 r + 0.587 g + 0.114 b`, computed in single precision and truncated
/// to a byte, is below 128.  In integers that is `299 r + 587 g + 114 b`
/// below 128000, together with eight colours that lie exactly on the boundary
/// and that single-precision rounding puts below it.
pub open spec fn luma_is_dark(r: u8, g: u8, b: u8) -> bool {
    ||| 299 * r + 587 * g + 114 * b < 128000
    ||| (r, g, b) == (75u8, 175u8, 25u8)
    ||| (r, g, b) == (94u8, 156u8, 73u8)
    ||| (r, g, b) == (113u8, 137u8, 121u8)
    ||| (r, g, b) == (132u8, 118u8, 169u8)
    ||| (r, g, b) == (199u8, 93u8, 122u8)
    ||| (r, g, b) == (202u8, 114u8, 6u8)
    ||| (r, g, b) == (218u8, 74u8, 170u8)
    ||| (r, g, b) == (237u8, 55u8, 218u8)
}

/// Whether the laser burns a pixel: it is opaque enough (alpha at least 128;
/// a transparent pixel counts as white) and dark.
pub open spec fn pixel_is_dark(p: (u8, u8, u8, u8)) -> bool {
    p.3 >= 128 && luma_is_dark(p.0, p.1, p.2)
}

/// Decides `luma_is_dark` for one colour.
pub fn dark_luma(r: u8, g: u8, b: u8) -> (dark: bool)
    ensures
        dark == luma_is_dark(r, g, b),
{
    let weighted: u32 = 299 * (r as u32) + 587 * (g as u32) + 114 * (b as u32);
    if weighted < 128000 {
        true
    } else if weighted > 128000 {
        false
    } else {
        (r == 75 && g == 175 && b == 25) || (r == 94 && g == 156 && b == 73) || (r == 113 && g
            == 137 && b == 121) || (r == 132 && g == 118 && b == 169) || (r == 199 && g == 93 && b
            == 122) || (r == 202 && g == 114 && b == 6) || (r == 218 && g == 74 && b == 170) || (r
            == 237 && g == 55 && b == 218)
    }
}

/// The column of the picture that raster column `col` of row `row` shows:
/// even rows run left to right, odd rows right to left (a boustrophedon
/// scan); a column past the picture's width `w` maps to `w`, outside it.
pub open spec fn source_column(row: int, col: int, w: int) -> int {
    if row % 2 == 1 {
        if col < w {
            w - 1 - col
        } else {
            w
        }
    } else {
        col
    }
}

/// Whether the laser burns raster column `col` of row `row`; padding
/// columns are never burned.
pub open spec fn raster_bit(img: PictureView, row: int, col: int) -> bool {
    let w = img.width as int;
    let s = source_column(row, col, w);
    s < w && pixel_is_dark(pixel_at(img, s, row))
}

/// The `n` raster bits of row `row` from column `start` on, read as a
/// number with the first bit most significant.
pub open spec fn row_bits(img: PictureView, row: int, start: int, n: nat) -> nat
    decreases n,
{
    if n == 0 {
        0
    } else {
        2 * row_bits(img, row, start, (n - 1) as nat) + if raster_bit(img, row, start + n - 1) {
            1nat
        } else {
            0nat
        }
    }
}

/// Byte `k` of raster row `row`: columns `8k .. 8k + 8`, the first one in the
/// most significant bit.
pub open spec fn raster_byte(img: PictureView, row: int, k: int) -> u8 {
    row_bits(img, row, 8 * k, 8) as u8
}

/// The number of bytes in a raster row of a picture of width `w`.
pub open spec fn row_bytes(w: int) -> int {
    round_up8(w) / 8
}

/// The unescaped raster of the picture: its rows one after the other, each
/// `row_bytes(width)` bytes long.
pub open spec fn raster(img: PictureView) -> Seq<u8> {
    let nb = row_bytes(img.width as int);
    Seq::new(
        (nb * img.height) as nat,
        |i: int| raster_byte(img, i / nb, i % nb),
    )
}

/// How one raster byte goes over the wire: 0x55 (the end-of-packet marker)
/// is followed by 0x00, any other byte goes as it is.
pub open spec fn escape_byte(b: u8) -> Seq<u8> {
    if b == FOOTER {
        seq![FOOTER, 0x00]
    } else {
        seq![b]
    }
}

/// The bytes `s` as they go over the wire, each one escaped.
pub open spec fn escape(s: Seq<u8>) -> Seq<u8>
    decreases s.len(),
{
    if s.len() == 0 {
        Seq::empty()
    } else {
        escape(s.drop_last()) + escape_byte(s.last())
    }
}

/// Undoes `escape`: a 0x55 followed by 0x00 stands for 0x55.
pub open spec fn unescape(s: Seq<u8>) -> Seq<u8>
    decreases s.len(),
{
    if s.len() == 0 {
        Seq::empty()
    } else if s[0] == FOOTER && s.len() >= 2 && s[1] == 0x00 {
        seq![FOOTER] + unescape(s.skip(2))
    } else {
        seq![s[0]] + unescape(s.skip(1))
    }
}

/// The payload that carries a picture: its escaped raster, then the
/// end-of-packet marker.
pub open spec fn spec_encode_image(img: PictureView) -> Seq<u8> {
    escape(raster(img)).push(FOOTER)
}

/// A picture that exceeds the work area.
#[derive(Debug, Clone, Copy, PartialEq, Eq, Structural)]
pub struct ImageTooLarge {
    pub width: u32,
    pub height: u32,
}

/// Push one data byte, escaping 0x55 so the serial reader doesn't
/// treat it as an end-of-packet marker.
fn push_escaped(buf: &mut Vec<u8>, b: u8)
    ensures
        final(buf)@ == old(buf)@ + escape_byte(b),
{
    buf.push(b);
    if b == 0x55 {
        buf.push(0x00);  // escape byte
    }
    assert(final(buf)@ =~= old(buf)@ + escape_byte(b));
}

/// Setting bit `bp` of a byte whose bits `0 ..= bp` are clear adds `2^bp`.
proof fn lemma_set_bit(byte: u8, bp: u8)
    requires
        bp < 8,
        byte as int % (2 * pow2(bp as nat)) as int == 0,
    ensures
        (byte | (1u8 << bp)) as int == byte + pow2(bp as nat),
{
    lemma2_to64();
    if bp == 0 {
        assert(byte % 2 == 0 ==> byte | (1u8 << 0u8) == byte + 1) by (bit_vector);
    } else if bp == 1 {
        assert(byte % 4 == 0 ==> byte | (1u8 << 1u8) == byte + 2) by (bit_vector);
    } else if bp == 2 {
        assert(byte % 8 == 0 ==> byte | (1u8 << 2u8) == byte + 4) by (bit_vector);
    } else if bp == 3 {
        assert(byte % 16 == 0 ==> byte | (1u8 << 3u8) == byte + 8) by (bit_vector);
    } else if bp == 4 {
        assert(byte % 32 == 0 ==> byte | (1u8 << 4u8) == byte + 16) by (bit_vector);
    } else if bp == 5 {
        assert(byte % 64 == 0 ==> byte | (1u8 << 5u8) == byte + 32) by (bit_vector);
    } else if bp == 6 {
        assert(byte % 128 == 0 ==> byte | (1u8 << 6u8) == byte + 64) by (bit_vector);
    } else {
        assert(byte < 128 ==> byte | (1u8 << 7u8) == byte + 128) by (bit_vector);
        assert(pow2(7) == 128);
        assert(byte as int % 256 == 0);
        assert(byte < 128);
    }
}


/// Appending one bit to a partially filled byte: with `j` bits `r` already
/// placed from the top, setting (or not) the next bit places `2 r + bit`.
proof fn lemma_place_bit(byte: u8, r: nat, j: nat, bit: bool)
    requires
        j < 8,
        byte as int == r * pow2((8 - j) as nat),
        r < pow2(j),
    ensures
        byte as int % (2 * pow2((7 - j) as nat)) as int == 0,
        ({
            let placed = 2 * r + if bit { 1nat } else { 0nat };
            &&& placed < pow2(j + 1)
            &&& bit ==> byte + pow2((7 - j) as nat) == placed * pow2((7 - j) as nat)
            &&& !bit ==> byte == placed * pow2((7 - j) as nat)
        }),
{
    let p = pow2((7 - j) as nat);
    vstd::arithmetic::power2::lemma_pow2_unfold((8 - j) as nat);
    vstd::arithmetic::power2::lemma_pow2_unfold(j + 1);
    assert(pow2((8 - j) as nat) == 2 * p);
    assert(byte as int == (r as int) * (2 * p)) ;
    vstd::arithmetic::power2::lemma_pow2_pos((7 - j) as nat);
    vstd::arithmetic::div_mod::lemma_mod_multiples_basic(r as int, 2 * p as int);
    assert(byte as int == (r * 2 * p) as int) by (nonlinear_arith)
        requires byte as int == (r as int) * (2 * p);
    assert((2 * r + 1) * p == 2 * r * p + p) by (nonlinear_arith);
    assert((2 * r) * p == 2 * r * p) by (nonlinear_arith);
}

/// Encode a picture into the raw 1-bit payload the engraver expects,
/// with 0x55 bytes inside the data escaped so the serial framing isn't broken.
///
/// Protocol details:
///   - pixels with luma < 128 are "dark" (laser on); transparent pixels are white
///   - Width rounded up to nearest multiple of 8 (`wr`)
///   - Every odd row is mirrored horizontally (boustrophedon scan)
///   - Pixels packed MSB-first into bytes (dark pixel = 1 = laser on)
///   - Any 0x55 byte in the bitstream is escaped as 0x55 0x00
///   - Terminated with 0x55 (un-escaped end-of-packet marker)
///
/// Pictures larger than the work area are refused.
pub fn encode_image(img: &Picture) -> (r: Result<Vec<u8>, ImageTooLarge>)
    ensures
        match r {
            Ok(out) => {
                &&& img@.width <= MAX_WIDTH
                &&& img@.height <= MAX_HEIGHT
                &&& out@ == spec_encode_image(img@)
            },
            Err(e) => {
                &&& img@.width > MAX_WIDTH || img@.height > MAX_HEIGHT
                &&& e == ImageTooLarge { width: img@.width, height: img@.height }
            },
        },
{
    let w = img.width() as usize;
    let h = img.height() as usize;
    let pixels = img.pixels();

    if w > MAX_WIDTH as usize || h > MAX_HEIGHT as usize {
        return Err(ImageTooLarge { width: w as u32, height: h as u32 });
    }
    // round width up to multiple of 8

    assert((((w + 7) as usize) & !7usize) == (w + 7) / 8 * 8) by (bit_vector)
        requires
            w <= 490usize,
    ;
    let wr = (w + 7) & !7;
    assert(wr * h <= 496 * 490) by (nonlinear_arith)
        requires
            wr <= 496,
            h <= 490,
    ;
    let total_bytes = (wr * h) / 8;
    let ghost nb: int = wr as int / 8;
    let ghost bits = raster(img@);
    assert(nb == row_bytes(w as int));
    assert(bits.len() == nb * h);

    // pre-allocate with a little headroom for escape bytes
    let mut out: Vec<u8> = Vec::with_capacity(total_bytes + total_bytes / 4 + 1);
    assert(bits.take(0) =~= Seq::<u8>::empty());

    let mut row: usize = 0;
    while row < h
        invariant
            w == img@.width,
            h == img@.height,
            w <= 490,
            h <= 490,
            wr == round_up8(w as int),
            nb == wr as int / 8,
            bits == raster(img@),
            bits.len() == nb * h,
            pixels@ == img@.pixels,
            img@.wf(),
            row <= h,
            out@ == escape(bits.take(row * nb)),
        decreases h - row,
    {
        let mut byte: u8 = 0;
        let mut col: usize = 0;
        assert(row * nb + col / 8 == row * nb);
        proof {
            lemma2_to64();
            assert(row_bits(img@, row as int, 0, 0) == 0);
            vstd::arithmetic::mul::lemma_mul_basics(pow2(8) as int);
        }
        while col < wr
            invariant
                w == img@.width,
                h == img@.height,
                w <= 490,
                h <= 490,
                wr == round_up8(w as int),
                nb == wr as int / 8,
                bits == raster(img@),
                bits.len() == nb * h,
                pixels@ == img@.pixels,
                img@.wf(),
                row < h,
                col <= wr,
                out@ == escape(bits.take(row * nb + col / 8)),
                byte as int == row_bits(img@, row as int, col - col % 8, (col % 8) as nat) * pow2(
                    (8 - col % 8) as nat,
                ),
                row_bits(img@, row as int, col - col % 8, (col % 8) as nat) < pow2((col % 8) as nat),
            decreases wr - col,
        {
            let bit_pos = 7 - (col % 8);  // MSB first

            // boustrophedon: odd rows scan right-to-left
            let src_col = if row % 2 == 1 {
                // mirror within the actual image width, pad cols beyond w are white
                if col < w {
                    w - 1 - col
                } else {
                    w
                }  // w is out-of-range → white

            } else {
                col
            };

            let dark = src_col < w && {
                assert(row * w + src_col < w * h <= 490 * 490) by (nonlinear_arith)
                    requires
                        row < h,
                        src_col < w,
                        w <= 490,
                        h <= 490,
                ;
                let px = pixels[row * w + src_col];
                // respect alpha: fully transparent → white (not burned)
                let alpha = px.3;
                if alpha < 128 {
                    false
                } else {
                    dark_luma(px.0, px.1, px.2)
                }
            };
            assert(dark == raster_bit(img@, row as int, col as int));

            let ghost j: nat = (col % 8) as nat;
            let ghost start: int = col - col % 8;
            let ghost placed: nat = row_bits(img@, row as int, start, j + 1);
            proof {
                lemma_place_bit(byte, row_bits(img@, row as int, start, j), j, dark);
                assert(placed == 2 * row_bits(img@, row as int, start, j) + if dark {
                    1nat
                } else {
                    0nat
                });
            }
            if dark {
                proof {
                    lemma_set_bit(byte, bit_pos as u8);
                }
                byte |= 1u8 << (bit_pos as u8);
            }
            assert(byte as int == placed * pow2((7 - j) as nat));
            // flush every 8 columns

            if bit_pos == 0 {
                let ghost idx: int = row * nb + col / 8;
                proof {
                    lemma2_to64();
                    assert(j == 7);
                    assert(pow2((7 - j) as nat) == 1);
                    vstd::arithmetic::mul::lemma_mul_basics(placed as int);
                    assert(byte == placed);
                    assert(idx < bits.len()) by (nonlinear_arith)
                        requires
                            idx == row * nb + col / 8,
                            col / 8 < nb,
                            row < h,
                            bits.len() == nb * h,
                    ;
                    vstd::arithmetic::div_mod::lemma_fundamental_div_mod_converse(
                        idx,
                        nb,
                        row as int,
                        col as int / 8,
                    );
                    assert(start == 8 * (col as int / 8));
                    assert(bits[idx] == raster_byte(img@, row as int, col as int / 8));
                    assert(bits[idx] == byte);
                    assert(bits.take(idx + 1).drop_last() =~= bits.take(idx));
                    assert(escape(bits.take(idx + 1)) == escape(bits.take(idx)) + escape_byte(
                        byte,
                    ));
                }
                push_escaped(&mut out, byte);
                byte = 0;
                proof {
                    assert((col + 1) / 8 == col / 8 + 1);
                    assert(row * nb + (col + 1) / 8 == idx + 1);
                    assert((col + 1) % 8 == 0);
                    assert(row_bits(img@, row as int, col + 1, 0) == 0);
                    vstd::arithmetic::mul::lemma_mul_basics(pow2(8) as int);
                }
            } else {
                proof {
                    lemma2_to64();
                    assert((col + 1) / 8 == col / 8);
                    assert((col + 1) % 8 == j + 1);
                    assert(col + 1 - (col + 1) % 8 == start);
                }
            }
            col += 1;
        }
        assert(col / 8 == nb);
        assert(row * nb + nb == (row + 1) * nb) by (nonlinear_arith);
        // wr is always a multiple of 8, so the last byte is always flushed above
        row += 1;
    }
    assert(bits.take(h * nb) =~= bits) by {
        assert(h * nb == nb * h) by (nonlinear_arith);
    }
    out.push(0x55);  // end-of-packet terminator (never escaped)
    Ok(out)
}


// ── burn estimate ────────────────────────────────────────────────────────────

/// How many of the sampled levels among the first `n` (every fourth one,
/// from the first) are below `threshold`.
pub open spec fn sampled_dark(levels: Seq<u8>, threshold: u8, n: nat) -> nat
    decreases n,
{
    if n == 0 {
        0
    } else {
        sampled_dark(levels, threshold, (n - 1) as nat) + if (n - 1) % 4 == 0 && levels[n - 1]
            < threshold {
            1nat
        } else {
            0nat
        }
    }
}

/// The share of burned pixels that the panel shows, in percent, for a
/// picture of `total` pixels with grayscale plane `levels`: every fourth
/// pixel is sampled and counts for four, and the share is capped at 100.
pub open spec fn spec_burn_percent(levels: Seq<u8>, threshold: u8, total: nat) -> u64 {
    let dark = 4 * sampled_dark(levels, threshold, levels.len());
    if dark * 100 / total > 100 {
        100
    } else {
        (dark * 100 / total) as u64
    }
}

/// Estimates how much of the picture the laser will burn at `threshold`;
/// `None` for an empty picture.  The pixel count must fit in 32 bits.
pub fn estimate_burn_percent(img: &Picture, threshold: u8) -> (pct: Option<u64>)
    requires
        img@.width * img@.height <= u32::MAX,
    ensures
        pct is None <==> img@.width * img@.height == 0,
        pct is Some ==> pct == Some(
            spec_burn_percent(
                img@.luma,
                threshold,
                (img@.width * img@.height) as nat,
            ),
        ),
{
    let total = (img.width() * img.height()) as u64;
    if total == 0 {
        return None;
    }
    // sample every 4th pixel for speed

    let gray = img.luma();
    let n = gray.len();
    let mut count: u64 = 0;
    let mut i: usize = 0;
    while i < n
        invariant
            n == gray@.len(),
            n == total,
            i <= n,
            count == sampled_dark(gray@, threshold, i as nat),
            count <= i,
        decreases n - i,
    {
        if i % 4 == 0 && gray[i] < threshold {
            count += 1;
        }
        i += 1;
    }
    assert(gray@.len() == n);
    let dark = count * 4;
    let pct = (dark * 100 / total).min(100);
    Some(pct)
}

// ── laws ──────────────────────────────────────────────────────────────────────

/// Escaping works byte by byte: escaping two runs of bytes one after the
/// other is escaping their concatenation.
pub proof fn lemma_escape_concat(a: Seq<u8>, b: Seq<u8>)
    ensures
        escape(a + b) == escape(a) + escape(b),
    decreases b.len(),
{
    if b.len() == 0 {
        assert(a + b =~= a);
        assert(escape(a) + escape(b) =~= escape(a));
    } else {
        assert((a + b).drop_last() =~= a + b.drop_last());
        assert((a + b).last() == b.last());
        lemma_escape_concat(a, b.drop_last());
        assert(escape(a + b) =~= escape(a) + escape(b));
    }
}

/// Unescaping what was escaped gives back the same bytes.
pub proof fn lemma_escape_roundtrip(s: Seq<u8>)
    ensures
        unescape(escape(s)) == s,
    decreases s.len(),
{
    if s.len() > 0 {
        let rest = s.skip(1);
        assert(s =~= seq![s[0]] + rest);
        lemma_escape_concat(seq![s[0]], rest);
        assert(seq![s[0]].drop_last() =~= Seq::<u8>::empty());
        assert(seq![s[0]].last() == s[0]);
        assert(escape(Seq::<u8>::empty()) =~= Seq::<u8>::empty());
        assert(escape(seq![s[0]]) =~= escape_byte(s[0]));
        let e = escape(s);
        assert(e == escape_byte(s[0]) + escape(rest));
        lemma_escape_roundtrip(rest);
        if s[0] == FOOTER {
            assert(e.skip(2) =~= escape(rest));
        } else {
            assert(e.skip(1) =~= escape(rest));
        }
        assert(unescape(e) =~= s);
    }
}

/// In escaped bytes every 0x55 is followed by 0x00, so the end-of-packet
/// marker appended after them is the only 0x55 that stands alone.
pub proof fn lemma_escape_marks_footer(s: Seq<u8>)
    ensures
        forall|i: int|
            0 <= i < escape(s).len() && #[trigger] escape(s)[i] == FOOTER ==> i + 1 < escape(s).len()
                && escape(s)[i + 1] == 0x00,
    decreases s.len(),
{
    if s.len() > 0 {
        let init = s.drop_last();
        lemma_escape_marks_footer(init);
        let e0 = escape(init);
        let e = escape(s);
        assert(e == e0 + escape_byte(s.last()));
        assert forall|i: int| 0 <= i < e.len() && #[trigger] e[i] == FOOTER implies i + 1 < e.len()
            && e[i + 1] == 0x00 by {
            if i < e0.len() {
                assert(e[i] == e0[i]);
                assert(e0[i + 1] == e[i + 1]);
            }
        }
    }
}

/// The payload of a picture that fits the work area ends with the marker,
/// unescapes to the raster, and the raster has exactly the length that
/// `image_dimensions` reports and that the image header announces.
pub proof fn lemma_payload_matches_header(img: PictureView)
    requires
        img.width <= MAX_WIDTH,
        img.height <= MAX_HEIGHT,
    ensures
        spec_encode_image(img).last() == FOOTER,
        unescape(spec_encode_image(img).drop_last()) == raster(img),
        raster(img).len() == raster_len(img.width as int, img.height as int),
        raster(img).len() == spec_image_dimensions(img.width, img.height).2,
        raster(img).len() < 0x100_0000,
{
    let w = img.width;
    let h = img.height;
    assert(spec_encode_image(img).drop_last() =~= escape(raster(img)));
    lemma_escape_roundtrip(raster(img));
    let k = (w + 7) / 8;
    assert(round_up8(w as int) == 8 * k);
    assert(8 * k * h / 8 == k * h) by (nonlinear_arith)
        requires
            k >= 0,
            h >= 0,
    ;
    assert(k * h <= 62 * 490) by (nonlinear_arith)
        requires
            0 <= k <= 62,
            0 <= h <= 490,
    ;
    assert(w as u16 == w && h as u16 == h) by (bit_vector)
        requires
            w <= 490u32,
            h <= 490u32,
    ;
}

/// A thresholded picture is encoded with exactly the pixels that passed the
/// threshold burned: the raster bit of row `row`, column `col` is set when
/// the source column lies inside the picture and the luma there is below
/// the threshold (at or above it, when inverted).
pub proof fn lemma_threshold_then_encode(
    img: PictureView,
    threshold: u8,
    invert: bool,
    row: int,
    col: int,
)
    requires
        img.wf(),
        0 <= row < img.height,
        0 <= col < round_up8(img.width as int),
    ensures
        raster_bit(spec_threshold_image(img, threshold, invert), row, col) == ({
            let w = img.width as int;
            let s = source_column(row, col, w);
            s < w && ((img.luma[row * w + s] < threshold) != invert)
        }),
{
    let w = img.width as int;
    let h = img.height as int;
    let s = source_column(row, col, w);
    if s < w {
        assert(0 <= row * w + s < w * h) by (nonlinear_arith)
            requires
                0 <= row < h,
                0 <= s < w,
        ;
    }
}

/// Inverting the threshold swaps black and white: each gray level of the
/// inverted picture is 255 minus the level of the plain one.
pub proof fn lemma_invert_flips(img: PictureView, threshold: u8)
    ensures
        spec_threshold_image(img, threshold, true).luma.len() == spec_threshold_image(
            img,
            threshold,
            false,
        ).luma.len(),
        forall|i: int|
            0 <= i < img.width * img.height ==> #[trigger] spec_threshold_image(
                img,
                threshold,
                true,
            ).luma[i] == 255 - spec_threshold_image(img, threshold, false).luma[i],
{
}

/// A thresholded picture holds only black and white, which keep their class
/// under the same threshold: thresholding again changes nothing.
pub proof fn lemma_threshold_idempotent(img: PictureView, threshold: u8)
    ensures
        spec_threshold_image(spec_threshold_image(img, threshold, false), threshold, false)
            == spec_threshold_image(img, threshold, false),
{
    let once = spec_threshold_image(img, threshold, false);
    let twice = spec_threshold_image(once, threshold, false);
    assert(twice.luma =~= once.luma);
    assert(twice.pixels =~= once.pixels);
}

/// How many bytes of `s` are 0x55.
pub open spec fn footer_count(s: Seq<u8>) -> nat
    decreases s.len(),
{
    if s.len() == 0 {
        0
    } else {
        footer_count(s.drop_last()) + if s.last() == FOOTER {
            1nat
        } else {
            0nat
        }
    }
}

/// Counting 0x55 bytes works run by run.
proof fn lemma_footer_count_concat(a: Seq<u8>, b: Seq<u8>)
    ensures
        footer_count(a + b) == footer_count(a) + footer_count(b),
    decreases b.len(),
{
    if b.len() == 0 {
        assert(a + b =~= a);
    } else {
        assert((a + b).drop_last() =~= a + b.drop_last());
        lemma_footer_count_concat(a, b.drop_last());
    }
}

/// Escaping adds one byte per 0x55 and keeps the number of 0x55 bytes:
/// the escaped bytes, less their 0x55 bytes, are as many as the raw ones.
pub proof fn lemma_escape_length(s: Seq<u8>)
    ensures
        escape(s).len() == s.len() + footer_count(s),
        footer_count(escape(s)) == footer_count(s),
    decreases s.len(),
{
    if s.len() > 0 {
        let x = s.last();
        lemma_escape_length(s.drop_last());
        lemma_footer_count_concat(escape(s.drop_last()), escape_byte(x));
        let e = escape_byte(x);
        if x == FOOTER {
            assert(e.drop_last() =~= seq![FOOTER]);
            assert(seq![FOOTER].drop_last() =~= Seq::<u8>::empty());
            assert(footer_count(Seq::<u8>::empty()) == 0);
            assert(footer_count(seq![FOOTER]) == 1);
            assert(footer_count(e) == 1);
        } else {
            assert(e.drop_last() =~= Seq::<u8>::empty());
            assert(footer_count(Seq::<u8>::empty()) == 0);
            assert(footer_count(e) == 0);
        }
    }
}

/// The header's length counts the payload's data bytes before escaping:
/// the payload of a picture that fits the work area, less its final marker
/// and less one escape byte per 0x55, has exactly the `le` of
/// `image_dimensions`.
pub proof fn lemma_header_counts_data_bytes(img: PictureView)
    requires
        img.width <= MAX_WIDTH,
        img.height <= MAX_HEIGHT,
    ensures
        ({
            let body = spec_encode_image(img).drop_last();
            body.len() - footer_count(body) == spec_image_dimensions(img.width, img.height).2
        }),
{
    lemma_payload_matches_header(img);
    let body = spec_encode_image(img).drop_last();
    assert(body =~= escape(raster(img)));
    lemma_escape_length(raster(img));
}

/// Which pixel column `col` of row `row` burns, stated by the row's parity:
/// even rows read the picture left to right, odd rows right to left, and
/// the padding past the width is never burned.
pub proof fn lemma_scan_order(img: PictureView, row: int, col: int)
    requires
        0 <= row,
        0 <= col,
    ensures
        col < img.width && row % 2 == 0 ==> raster_bit(img, row, col) == pixel_is_dark(
            pixel_at(img, col, row),
        ),
        col < img.width && row % 2 == 1 ==> raster_bit(img, row, col) == pixel_is_dark(
            pixel_at(img, img.width - 1 - col, row),
        ),
        col >= img.width ==> !raster_bit(img, row, col),
{
}

/// Bit `j` (counted from the most significant one) of `n` packed bits is
/// the `j`-th of them, and `n` bits make a number below `2^n`.
proof fn lemma_row_bits_bit(img: PictureView, row: int, start: int, n: nat, j: int)
    requires
        0 <= j < n,
    ensures
        row_bits(img, row, start, n) < pow2(n),
        (row_bits(img, row, start, n) as int / pow2((n - 1 - j) as nat) as int) % 2 == if raster_bit(
            img,
            row,
            start + j,
        ) {
            1int
        } else {
            0int
        },
    decreases n,
{
    let r = row_bits(img, row, start, (n - 1) as nat);
    let b: int = if raster_bit(img, row, start + n - 1) {
        1
    } else {
        0
    };
    vstd::arithmetic::power2::lemma_pow2_unfold(n);
    if n > 1 {
        lemma_row_bits_bit(img, row, start, (n - 1) as nat, if j < n - 1 { j } else { 0 });
    } else {
        assert(r == 0);
        vstd::arithmetic::power2::lemma2_to64();
    }
    assert(r < pow2((n - 1) as nat));
    assert(row_bits(img, row, start, n) == 2 * r + b);
    if j == n - 1 {
        vstd::arithmetic::power2::lemma2_to64();
        assert(pow2(0) == 1);
        assert((2 * r + b) / 1 == 2 * r + b);
        assert((2 * r + b) % 2 == b) by (nonlinear_arith)
            requires
                0 <= b <= 1,
                r >= 0,
        ;
    } else {
        let q = pow2((n - 2 - j) as nat) as int;
        vstd::arithmetic::power2::lemma_pow2_unfold((n - 1 - j) as nat);
        vstd::arithmetic::power2::lemma_pow2_pos((n - 2 - j) as nat);
        assert(pow2((n - 1 - j) as nat) == 2 * q);
        vstd::arithmetic::div_mod::lemma_div_denominator(2 * r + b, 2, q);
        assert((2 * r + b) / 2 == r) by (nonlinear_arith)
            requires
                0 <= b <= 1,
                r >= 0,
        ;
        assert((2 * r + b) / (2 * q) == r as int / q);
    }
}

/// The encoded raster byte `k` of row `row`, read bit by bit from the most
/// significant one: bit `j` is set exactly when pixel column `8k + j` lies
/// inside the picture and the pixel that it shows is dark, that pixel being
/// at that column on even rows and mirrored (`width - 1 - column`) on odd
/// rows.
pub proof fn lemma_raster_byte_bits(img: PictureView, row: int, k: int, j: int)
    requires
        0 <= row < img.height,
        0 <= k < row_bytes(img.width as int),
        0 <= j < 8,
    ensures
        ({
            let nb = row_bytes(img.width as int);
            let byte = raster(img)[row * nb + k];
            let col = 8 * k + j;
            let w = img.width as int;
            ((byte as int / pow2((7 - j) as nat) as int) % 2 == 1) == (col < w && if row % 2 == 0 {
                pixel_is_dark(pixel_at(img, col, row))
            } else {
                pixel_is_dark(pixel_at(img, w - 1 - col, row))
            })
        }),
{
    let nb = row_bytes(img.width as int);
    let h = img.height as int;
    let i = row * nb + k;
    assert(0 <= i < nb * h) by (nonlinear_arith)
        requires
            0 <= row < h,
            0 <= k < nb,
            i == row * nb + k,
    ;
    vstd::arithmetic::div_mod::lemma_fundamental_div_mod_converse(i, nb, row, k);
    lemma_row_bits_bit(img, row, 8 * k, 8, j);
    vstd::arithmetic::power2::lemma2_to64();
    assert(raster(img)[i] == raster_byte(img, row, k));
    assert(raster_byte(img, row, k) as int == row_bits(img, row, 8 * k, 8));
    lemma_scan_order(img, row, 8 * k + j);
}

/// Thresholding burns exactly the pixels darker than the threshold (the
/// others, when inverted), every level is black or white, and a higher
/// threshold burns at least as much.
pub proof fn lemma_threshold_rule(l: u8, t1: u8, t2: u8)
    ensures
        (threshold_level(l, t1, false) == 0) == (l < t1),
        (threshold_level(l, t1, true) == 0) == (l >= t1),
        threshold_level(l, t1, false) == 0 || threshold_level(l, t1, false) == 255,
        t1 <= t2 && threshold_level(l, t1, false) == 0 ==> threshold_level(l, t2, false) == 0,
{
}

/// A pixel burns only when it is opaque enough (alpha 128 or more); then
/// a weighted luma `299 r + 587 g + 114 b` below 128000 burns and one above
/// it does not.
pub proof fn lemma_darkness_rule(p: (u8, u8, u8, u8))
    ensures
        p.3 < 128 ==> !pixel_is_dark(p),
        p.3 >= 128 && 299 * p.0 + 587 * p.1 + 114 * p.2 < 128000 ==> pixel_is_dark(p),
        299 * p.0 + 587 * p.1 + 114 * p.2 > 128000 ==> !pixel_is_dark(p),
{
}

/// The burn estimate is a percentage: never above 100, and 0 when no
/// sampled level is below the threshold.
pub proof fn lemma_burn_percent_range(levels: Seq<u8>, threshold: u8, total: nat)
    requires
        total > 0,
    ensures
        spec_burn_percent(levels, threshold, total) <= 100,
        sampled_dark(levels, threshold, levels.len()) == 0 ==> spec_burn_percent(
            levels,
            threshold,
            total,
        ) == 0,
{
}

} // verus!
