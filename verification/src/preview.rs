//! The preview tool: a mock book page, the texture laid over it, a magnified
//! crop, and the BMP files they are written to.
//!
//! Images here are RGB, three bytes per pixel, rows top to bottom; byte `k`
//! of an image `w` pixels wide belongs to pixel `((k / 3) % w, (k / 3) / w)`,
//! channel `k % 3`.

use vstd::prelude::*;
use vstd::string::*;
use vstd::arithmetic::div_mod::{lemma_fundamental_div_mod_converse_div, lemma_fundamental_div_mod_converse_mod};
use crate::icon::{le16, le32, u16_le, u32_le, push_u16_le, push_u32_le};
use crate::texture::TILE;

verus! {

/// Column of byte `k` in an RGB image `w` pixels wide.
pub open spec fn px_x(k: int, w: int) -> int {
    (k / 3) % w
}

/// Row of byte `k` in an RGB image `w` pixels wide.
pub open spec fn px_y(k: int, w: int) -> int {
    (k / 3) / w
}

/// Channel of byte `k` (0 red, 1 green, 2 blue).
pub open spec fn px_c(k: int) -> int {
    k % 3
}

/// Byte `(y * w + x) * 3 + c` is channel `c` of pixel `(x, y)`.
pub proof fn lemma_pixel_of(w: int, x: int, y: int, c: int)
    requires
        0 <= x < w,
        0 <= y,
        0 <= c < 3,
    ensures
        px_x((y * w + x) * 3 + c, w) == x,
        px_y((y * w + x) * 3 + c, w) == y,
        px_c((y * w + x) * 3 + c) == c,
{
    let k = (y * w + x) * 3 + c;
    let p = y * w + x;
    assert(k == p * 3 + c);
    lemma_fundamental_div_mod_converse_div(k, 3, p, c);
    lemma_fundamental_div_mod_converse_mod(k, 3, p, c);
    lemma_fundamental_div_mod_converse_div(p, w, y, x);
    lemma_fundamental_div_mod_converse_mod(p, w, y, x);
}

/// Grey level of pixel `(x, y)` of the mock page: dark "text" in bands of six
/// rows every fourteen, broken into words, with margins of twenty pixels.
pub open spec fn page_level(x: int, y: int, w: int) -> u8 {
    let in_line_band = y % 14 >= 3 && y % 14 < 9;
    let in_word = x % 37 < 31;
    if in_line_band && in_word && x > 20 && x < w - 20 {
        60
    } else {
        250
    }
}

/// Steps the pixel cursor `(x, y, c)` of an image `w` wide by one byte.
fn next_byte(x: usize, y: usize, c: usize, w: usize) -> (r: (usize, usize, usize))
    requires
        x < w,
        c < 3,
        y < usize::MAX,
    ensures
        r.0 < w,
        r.2 < 3,
        (r.1 * w + r.0) * 3 + r.2 == (y * w + x) * 3 + c + 1,
{
    if c + 1 < 3 {
        (x, y, c + 1)
    } else if x + 1 < w {
        (x + 1, y, 0)
    } else {
        proof {
            assert(((y + 1) * w + 0) * 3 + 0 == (y * w + x) * 3 + c + 1) by (nonlinear_arith)
                requires
                    x + 1 == w,
                    c == 2,
            ;
        }
        (0, y + 1, 0)
    }
}

/// The mock book page: white with rows of dark "words".
pub fn book_page(w: usize, h: usize) -> (px: Vec<u8>)
    requires
        w * h * 3 <= usize::MAX,
    ensures
        px@.len() == w * h * 3,
        forall|k: int|
            0 <= k < px@.len() ==> #[trigger] px@[k] == page_level(px_x(k, w as int), px_y(k, w as int), w as int),
{
    let n: usize = w * h * 3;
    let mut px: Vec<u8> = Vec::new();
    if w == 0 {
        proof {
            assert(n == 0) by (nonlinear_arith)
                requires
                    w == 0,
                    n == w * h * 3,
            ;
        }
        return px;
    }
    let mut x: usize = 0;
    let mut y: usize = 0;
    let mut c: usize = 0;
    let mut k: usize = 0;
    while k < n
        invariant
            n == w * h * 3,
            w > 0,
            x < w,
            c < 3,
            k <= n,
            k == (y * w + x) * 3 + c,
            px@.len() == k,
            forall|i: int|
                0 <= i < k ==> #[trigger] px@[i] == page_level(px_x(i, w as int), px_y(i, w as int), w as int),
        decreases n - k,
    {
        proof {
            lemma_pixel_of(w as int, x as int, y as int, c as int);
            assert(y < h) by (nonlinear_arith)
                requires
                    (y * w + x) * 3 + c < w * h * 3,
                    x < w,
                    c < 3,
            ;
        }
        let in_line_band = y % 14 >= 3 && y % 14 < 9;
        let in_word = (x % 37) < 31;
        let v: u8 = if in_line_band && in_word && x > 20 && x < w - 20 {
            60
        } else {
            250
        };
        px.push(v);
        let (nx, ny, nc) = next_byte(x, y, c, w);
        x = nx;
        y = ny;
        c = nc;
        k = k + 1;
    }
    px
}

/// One channel of the texture laid over the page: the page's value scaled by
/// the texture's transparency plus the texture's premultiplied colour, in
/// integer arithmetic, truncated to a byte.
pub open spec fn blend(base: u8, premul: u8, alpha: u8) -> u8 {
    ((base as int * (255 - alpha as int) + premul as int * 255) / 255) as u8
}

/// Start of the texture pixel that covers image pixel `(x, y)`.
pub open spec fn tile_pixel(x: int, y: int) -> int {
    ((y % TILE as int) * TILE as int + x % TILE as int) * 4
}

/// Channel `c` (red, green, blue) of the blend over pixel `(x, y)`; the
/// texture block stores blue, green, red, alpha.
pub open spec fn composite_value(base: u8, tile: Seq<u8>, x: int, y: int, c: int) -> u8 {
    blend(base, tile[tile_pixel(x, y) + (2 - c)], tile[tile_pixel(x, y) + 3])
}

/// Lays the texture block, repeated every `TILE` pixels, over the first
/// `w * h` pixels of an RGB image; bytes past them are left alone.
pub fn composite(base: &mut [u8], w: usize, h: usize, tile: &[u8])
    requires
        w * h * 3 <= old(base)@.len(),
        forall|x: int, y: int|
            0 <= x < w && 0 <= y < h ==> #[trigger] tile_pixel(x, y) + 3 < tile@.len(),
    ensures
        final(base)@.len() == old(base)@.len(),
        forall|k: int|
            0 <= k < w * h * 3 ==> #[trigger] final(base)@[k] == composite_value(
                old(base)@[k],
                tile@,
                px_x(k, w as int),
                px_y(k, w as int),
                px_c(k),
            ),
        forall|k: int| w * h * 3 <= k < old(base)@.len() ==> #[trigger] final(base)@[k] == old(base)@[k],
        forall|x: int, y: int, c: int|
            0 <= x < w && 0 <= y < h && 0 <= c < 3 ==> #[trigger] final(base)@[(y * w + x) * 3 + c]
                == blend(
                old(base)@[(y * w + x) * 3 + c],
                tile@[((y % 512) * 512 + x % 512) * 4 + (2 - c)],
                tile@[((y % 512) * 512 + x % 512) * 4 + 3],
            ),
{
    let len: usize = base.len();
    let n: usize = w * h * 3;
    if w == 0 {
        proof {
            assert(w * h * 3 == 0) by (nonlinear_arith)
                requires
                    w == 0,
            ;
        }
        return;
    }
    let ghost orig = base@;
    let mut x: usize = 0;
    let mut y: usize = 0;
    let mut c: usize = 0;
    let mut k: usize = 0;
    while k < n
        invariant
            n == w * h * 3,
            n <= len,
            w > 0,
            x < w,
            c < 3,
            k <= n,
            k == (y * w + x) * 3 + c,
            forall|px: int, py: int|
                0 <= px < w && 0 <= py < h ==> #[trigger] tile_pixel(px, py) + 3 < tile@.len(),
            base@.len() == orig.len() == len,
            forall|i: int| k <= i < len ==> #[trigger] base@[i] == orig[i],
            forall|i: int|
                0 <= i < k ==> #[trigger] base@[i] == composite_value(
                    orig[i],
                    tile@,
                    px_x(i, w as int),
                    px_y(i, w as int),
                    px_c(i),
                ),
        decreases n - k,
    {
        proof {
            lemma_pixel_of(w as int, x as int, y as int, c as int);
        }
        proof {
            assert(y < h) by (nonlinear_arith)
                requires
                    (y * w + x) * 3 + c < w * h * 3,
                    x < w,
                    c < 3,
            ;
            assert(tile_pixel(x as int, y as int) + 3 < tile@.len());
            assert(((y % 512) * 512 + (x % 512)) * 4 < 512 * 512 * 4) by (nonlinear_arith);
        }
        let t: usize = ((y % TILE) * TILE + (x % TILE)) * 4;
        let a: u32 = tile[t + 3] as u32;
        let premul: u32 = tile[t + (2 - c)] as u32;
        let b: u32 = base[k] as u32;
        proof {
            assert(b * (255 - a) + premul * 255 <= 255 * 255 + 255 * 255) by (nonlinear_arith)
                requires
                    b <= 255,
                    a <= 255,
                    premul <= 255,
            ;
        }
        let v: u8 = #[verifier::truncate] (((b * (255 - a) + premul * 255) / 255) as u8);
        base[k] = v;
        let (nx, ny, nc) = next_byte(x, y, c, w);
        x = nx;
        y = ny;
        c = nc;
        k = k + 1;
    }
    proof {
        assert forall|x: int, y: int, c: int|
            0 <= x < w && 0 <= y < h && 0 <= c < 3 implies #[trigger] base@[(y * w + x) * 3 + c]
                == blend(
                orig[(y * w + x) * 3 + c],
                tile@[((y % 512) * 512 + x % 512) * 4 + (2 - c)],
                tile@[((y % 512) * 512 + x % 512) * 4 + 3],
            ) by {
            lemma_pixel_of(w as int, x, y, c);
            assert((y * w + x) * 3 + c < w * h * 3) by (nonlinear_arith)
                requires
                    0 <= x < w,
                    0 <= y < h,
                    0 <= c < 3,
            ;
            assert((y * w + x) * 3 + c >= 0) by (nonlinear_arith)
                requires
                    0 <= x,
                    0 <= y,
                    0 <= c,
                    w >= 0,
            ;
        }
    }
}

/// Laying a premultiplied texture (each colour byte at most its alpha) over
/// an image never overflows a byte: each channel is the exact integer blend.
pub proof fn lemma_premultiplied_blend_fits(base: u8, premul: u8, alpha: u8)
    requires
        premul <= alpha,
    ensures
        (base as int * (255 - alpha as int) + premul as int * 255) / 255 <= 255,
        blend(base, premul, alpha) as int == (base as int * (255 - alpha as int) + premul as int
            * 255) / 255,
{
    let s = base as int * (255 - alpha as int) + premul as int * 255;
    assert(s <= 255 * 255) by (nonlinear_arith)
        requires
            s == base as int * (255 - alpha as int) + premul as int * 255,
            base <= 255,
            premul <= alpha,
            alpha <= 255,
    ;
    assert(0 <= s / 255 <= 255) by (nonlinear_arith)
        requires
            0 <= s <= 255 * 255,
    ;
}

/// Bytes per BMP row: three per pixel, padded to a multiple of four.
pub open spec fn bmp_stride(w: int) -> int {
    (w * 3 + 3) / 4 * 4
}

/// The 54-byte header of a 24-bit BMP file `w` by `h` pixels: file header
/// ("BM", file size, reserved, pixel-data offset 54) and info header (size
/// 40, width, height, one plane, 24 bits, the rest zero).
pub open spec fn bmp_header(w: int, h: int) -> Seq<u8> {
    seq![0x42u8, 0x4Du8] + u32_le((54 + bmp_stride(w) * h) as u32) + seq![0u8, 0u8, 0u8, 0u8]
        + u32_le(54) + u32_le(40) + u32_le(w as u32) + u32_le(h as u32) + u16_le(1) + u16_le(24)
        + Seq::new(24, |i: int| 0u8)
}

/// Image row `y` as BMP stores it: each pixel as blue, green, red, then zero
/// padding up to the stride.
pub open spec fn bmp_row(rgb: Seq<u8>, w: int, y: int) -> Seq<u8> {
    Seq::new(
        bmp_stride(w) as nat,
        |j: int|
            if j < w * 3 {
                rgb[(y * w + j / 3) * 3 + (2 - j % 3)]
            } else {
                0u8
            },
    )
}

/// The first `n` rows of the pixel data: BMP stores rows bottom to top, so
/// these are image rows `h - 1` down to `h - n`.
pub open spec fn bmp_rows(rgb: Seq<u8>, w: int, h: int, n: int) -> Seq<u8>
    decreases n,
{
    if n <= 0 {
        Seq::empty()
    } else {
        bmp_rows(rgb, w, h, n - 1) + bmp_row(rgb, w, h - n)
    }
}

/// The BMP file of an RGB image.
pub open spec fn bmp_file(rgb: Seq<u8>, w: int, h: int) -> Seq<u8> {
    bmp_header(w, h) + bmp_rows(rgb, w, h, h)
}

proof fn lemma_bmp_rows_len(rgb: Seq<u8>, w: int, h: int, n: int)
    requires
        n >= 0,
        w >= 0,
    ensures
        bmp_rows(rgb, w, h, n).len() == n * bmp_stride(w),
    decreases n,
{
    if n > 0 {
        lemma_bmp_rows_len(rgb, w, h, n - 1);
        assert((n - 1) * bmp_stride(w) + bmp_stride(w) == n * bmp_stride(w)) by (nonlinear_arith);
    } else {
        assert(n * bmp_stride(w) == 0) by (nonlinear_arith)
            requires
                n == 0,
        ;
    }
}

/// Encodes an RGB image, rows top to bottom, as a 24-bit BMP file.
pub fn bmp_bytes(w: usize, h: usize, rgb: &[u8]) -> (buf: Vec<u8>)
    requires
        w * 3 + 3 <= usize::MAX,
        54 + bmp_stride(w as int) * h <= usize::MAX,
        w * h * 3 <= rgb@.len(),
    ensures
        buf@ == bmp_file(rgb@, w as int, h as int),
        buf@.len() == 54 + bmp_stride(w as int) * h,
{
    let rgb_len: usize = rgb.len();
    let padded: usize = w * 3 + 3;
    let stride: usize = padded & !3usize;
    proof {
        assert(padded & !3usize == padded / 4 * 4) by (bit_vector);
    }
    let file_size: usize = 54 + stride * h;
    let mut buf: Vec<u8> = Vec::new();
    buf.push(0x42);
    buf.push(0x4D);
    push_u32_le(&mut buf, #[verifier::truncate] (file_size as u32));
    push_u32_le(&mut buf, 0);
    push_u32_le(&mut buf, 54);
    push_u32_le(&mut buf, 40);
    push_u32_le(&mut buf, #[verifier::truncate] (w as u32));
    push_u32_le(&mut buf, #[verifier::truncate] (h as u32));
    push_u16_le(&mut buf, 1);
    push_u16_le(&mut buf, 24);
    let ghost head30 = buf@;
    let mut z: usize = 0;
    while z < 24
        invariant
            z <= 24,
            buf@ == head30 + Seq::new(z as nat, |i: int| 0u8),
        decreases 24 - z,
    {
        buf.push(0);
        z = z + 1;
        assert(buf@ =~= head30 + Seq::new(z as nat, |i: int| 0u8));
    }
    assert(buf@ =~= bmp_header(w as int, h as int));
    let ghost header = buf@;
    let mut r: usize = 0;
    while r < h
        invariant
            stride == bmp_stride(w as int),
            w * h * 3 <= rgb@.len(),
            w * h * 3 <= rgb_len,
            r <= h,
            header == bmp_header(w as int, h as int),
            buf@ == header + bmp_rows(rgb@, w as int, h as int, r as int),
        decreases h - r,
    {
        let y: usize = h - 1 - r;
        let ghost row_start = buf@;
        let mut j: usize = 0;
        let mut x: usize = 0;
        let mut c: usize = 0;
        while j < stride
            invariant
                stride == bmp_stride(w as int),
                w * h * 3 <= rgb@.len(),
                w * h * 3 <= rgb_len,
                y < h,
                j <= stride,
                c < 3,
                j == x * 3 + c,
                row_start == header + bmp_rows(rgb@, w as int, h as int, r as int),
                buf@ == row_start + bmp_row(rgb@, w as int, y as int).subrange(0, j as int),
            decreases stride - j,
        {
            let v: u8 = if x < w {
                proof {
                    assert((y * w + x) * 3 + 2 < w * h * 3 && y * w <= (y * w + x) * 3) by (nonlinear_arith)
                        requires
                            y < h,
                            x < w,
                    ;
                }
                rgb[(y * w + x) * 3 + (2 - c)]
            } else {
                0
            };
            proof {
                lemma_fundamental_div_mod_converse_div(j as int, 3, x as int, c as int);
                lemma_fundamental_div_mod_converse_mod(j as int, 3, x as int, c as int);
                assert((j < w * 3) == (x < w));
                assert(v == bmp_row(rgb@, w as int, y as int)[j as int]);
            }
            buf.push(v);
            j = j + 1;
            if c == 2 {
                c = 0;
                x = x + 1;
            } else {
                c = c + 1;
            }
            assert(buf@ =~= row_start + bmp_row(rgb@, w as int, y as int).subrange(0, j as int));
        }
        assert(bmp_row(rgb@, w as int, y as int).subrange(0, stride as int) =~= bmp_row(rgb@, w as int, y as int));
        r = r + 1;
    }
    proof {
        lemma_bmp_rows_len(rgb@, w as int, h as int, h as int);
        assert(h * stride == stride * h) by (nonlinear_arith);
    }
    buf
}

/// Byte `k` of a magnified crop `crop_w` pixels wide: each pixel of the
/// `cw` by `ch` area at `(left, top)` of the page becomes a `zoom` by `zoom`
/// square.
pub open spec fn zoom_source(k: int, page_w: int, left: int, top: int, crop_w: int, zoom: int) -> int {
    ((top + px_y(k, crop_w) / zoom) * page_w + (left + px_x(k, crop_w) / zoom)) * 3 + px_c(k)
}

/// Start of the page pixel at `(left + sx, top + sy)`: the byte a crop reads
/// for area pixel `(sx, sy)`.
pub open spec fn zoom_read(page_w: int, left: int, top: int, sx: int, sy: int) -> int {
    ((top + sy) * page_w + (left + sx)) * 3
}

/// Every byte a crop of the `cw` by `ch` area at `(left, top)` reads lies in
/// a page of `page_len` bytes, `page_w` pixels wide.
pub open spec fn crop_reads_fit(page_len: int, page_w: int, left: int, top: int, cw: int, ch: int) -> bool {
    forall|qx: int, qy: int|
        0 <= qx < cw && 0 <= qy < ch ==> top + qy <= usize::MAX && #[trigger] zoom_read(
            page_w,
            left,
            top,
            qx,
            qy,
        ) + 3 <= page_len
}

/// Magnifies the `cw` by `ch` area at `(left, top)` of an RGB image `w`
/// pixels wide by `zoom`, nearest neighbour.
pub fn zoom_crop(page: &[u8], w: usize, left: usize, top: usize, cw: usize, ch: usize, zoom: usize) -> (crop: Vec<u8>)
    requires
        zoom > 0,
        crop_reads_fit(page@.len() as int, w as int, left as int, top as int, cw as int, ch as int),
        cw * zoom * (ch * zoom) * 3 <= usize::MAX,
    ensures
        crop@.len() == cw * zoom * (ch * zoom) * 3,
        forall|k: int|
            0 <= k < crop@.len() ==> #[trigger] crop@[k] == page@[zoom_source(
                k,
                w as int,
                left as int,
                top as int,
                (cw * zoom) as int,
                zoom as int,
            )],
{
    let page_len: usize = page.len();
    let mut crop: Vec<u8> = Vec::new();
    if cw == 0 || ch == 0 {
        proof {
            assert(cw * zoom * (ch * zoom) * 3 == 0) by (nonlinear_arith)
                requires
                    cw == 0 || ch == 0,
            ;
        }
        return crop;
    }
    proof {
        assert(cw * zoom <= cw * zoom * (ch * zoom) * 3 && ch * zoom <= cw * zoom * (ch * zoom) * 3
            && cw * zoom >= 1) by (nonlinear_arith)
            requires
                ch >= 1,
                cw >= 1,
                zoom >= 1,
        ;
    }
    let crop_w: usize = cw * zoom;
    let n: usize = crop_w * (ch * zoom) * 3;
    let mut x: usize = 0;
    let mut y: usize = 0;
    let mut c: usize = 0;
    let mut k: usize = 0;
    while k < n
        invariant
            zoom > 0,
            crop_reads_fit(page_len as int, w as int, left as int, top as int, cw as int, ch as int),
            page_len == page@.len(),
            crop_w == cw * zoom,
            crop_w > 0,
            n == crop_w * (ch * zoom) * 3,
            x < crop_w,
            c < 3,
            k <= n,
            k == (y * crop_w + x) * 3 + c,
            crop@.len() == k,
            forall|i: int|
                0 <= i < k ==> #[trigger] crop@[i] == page@[zoom_source(
                    i,
                    w as int,
                    left as int,
                    top as int,
                    crop_w as int,
                    zoom as int,
                )],
        decreases n - k,
    {
        proof {
            lemma_pixel_of(crop_w as int, x as int, y as int, c as int);
            assert(y < ch * zoom) by (nonlinear_arith)
                requires
                    (y * crop_w + x) * 3 + c < crop_w * (ch * zoom) * 3,
                    x < crop_w,
                    c < 3,
            ;
        }
        let sy: usize = y / zoom;
        let sx: usize = x / zoom;
        proof {
            assert(sy < ch) by (nonlinear_arith)
                requires
                    sy == y / zoom,
                    y < ch * zoom,
                    zoom > 0,
            ;
            assert(sx < cw) by (nonlinear_arith)
                requires
                    sx == x / zoom,
                    x < cw * zoom,
                    zoom > 0,
            ;
            assert(zoom_read(w as int, left as int, top as int, sx as int, sy as int) + 3 <= page_len);
            assert(top + sy <= usize::MAX);
            assert((top + sy) * w <= ((top + sy) * w + (left + sx)) * 3 && left + sx <= ((top + sy) * w + (left + sx)) * 3) by (nonlinear_arith)
                requires
                    top + sy >= 0,
                    w >= 0,
            ;
        }
        let si: usize = ((top + sy) * w + (left + sx)) * 3 + c;
        crop.push(page[si]);
        let (nx, ny, nc) = next_byte(x, y, c, crop_w);
        x = nx;
        y = ny;
        c = nc;
        k = k + 1;
    }
    crop
}

/// ASCII letters and digits.
pub open spec fn is_ascii_alnum(c: char) -> bool {
    ('0' <= c <= '9') || ('A' <= c <= 'Z') || ('a' <= c <= 'z')
}

/// `String::push`: appends one character.
#[verifier::external_body]
fn push_char(s: &mut String, c: char)
    ensures
        final(s)@ == old(s)@.push(c),
{
    s.push(c);
}

/// The ASCII letters and digits of `s`, in order.
pub open spec fn alnum_chars(s: Seq<char>) -> Seq<char> {
    s.filter(|c: char| is_ascii_alnum(c))
}

/// A file-name stem made of the ASCII letters and digits of `name`, in
/// order.
pub fn ascii_alnum_only(name: &str) -> (r: String)
    ensures
        r@ == alnum_chars(name@),
{
    let n: usize = name.unicode_len();
    let mut r = String::new();
    let mut i: usize = 0;
    while i < n
        invariant
            n == name@.len(),
            i <= n,
            r@ == alnum_chars(name@.take(i as int)),
        decreases n - i,
    {
        let c = name.get_char(i);
        let ghost t1 = name@.take(i as int + 1);
        proof {
            assert(t1.drop_last() =~= name@.take(i as int));
            assert(t1.last() == c);
            reveal_with_fuel(Seq::filter, 2);
            assert(alnum_chars(t1) == if is_ascii_alnum(c) {
                alnum_chars(name@.take(i as int)).push(c)
            } else {
                alnum_chars(name@.take(i as int))
            });
        }
        if ('0' <= c && c <= '9') || ('A' <= c && c <= 'Z') || ('a' <= c && c <= 'z') {
            push_char(&mut r, c);
        }
        i = i + 1;
    }
    assert(name@.take(n as int) =~= name@);
    r
}

/// Reading back the little-endian bytes of `v` gives `v`.
pub proof fn lemma_u32_le_value(v: u32)
    ensures
        u32_le(v).len() == 4,
        le32(u32_le(v), 0) == v as int,
{
    let b0 = v % 256;
    let b1 = (v / 256) % 256;
    let b2 = (v / 65536) % 256;
    let b3 = v / 16777216;
    assert(v == b0 + 256 * b1 + 65536 * b2 + 16777216 * b3 && b3 < 256) by (bit_vector)
        requires
            b0 == v % 256,
            b1 == (v / 256) % 256,
            b2 == (v / 65536) % 256,
            b3 == v / 16777216,
    ;
}

/// Reading back the little-endian bytes of `v` gives `v`.
pub proof fn lemma_u16_le_value(v: u16)
    ensures
        u16_le(v).len() == 2,
        le16(u16_le(v), 0) == v as int,
{
    let b0 = v % 256;
    let b1 = v / 256;
    assert(v == b0 + 256 * b1 && b1 < 256) by (bit_vector)
        requires
            b0 == v % 256,
            b1 == v / 256,
    ;
}

/// The BMP file header and info header read back as what they describe:
/// the "BM" signature, the file size (54 header bytes plus the padded
/// rows), the pixel data at byte 54, a 40-byte info header, the image width
/// at bytes 18..22 and its height at bytes 22..26 (each as 32 bits), one
/// plane, and 24 bits per pixel.
pub proof fn lemma_bmp_header_fields(rgb: Seq<u8>, w: int, h: int)
    requires
        0 <= w,
        0 <= h,
    ensures
        ({
            let f = bmp_file(rgb, w, h);
            &&& f[0] == 0x42u8
            &&& f[1] == 0x4Du8
            &&& le32(f, 2) == ((54 + bmp_stride(w) * h) as u32) as int
            &&& le32(f, 10) == 54
            &&& le32(f, 14) == 40
            &&& le32(f, 18) == (w as u32) as int
            &&& le32(f, 22) == (h as u32) as int
            &&& le16(f, 26) == 1
            &&& le16(f, 28) == 24
        }),
{
    let f = bmp_file(rgb, w, h);
    let hd = bmp_header(w, h);
    let fs = (54 + bmp_stride(w) * h) as u32;
    lemma_u32_le_value(fs);
    lemma_u32_le_value(54);
    lemma_u32_le_value(40);
    lemma_u32_le_value(w as u32);
    lemma_u32_le_value(h as u32);
    lemma_u16_le_value(1);
    lemma_u16_le_value(24);
    assert(hd.len() == 54);
    assert(hd.subrange(2, 6) =~= u32_le(fs));
    assert(hd.subrange(10, 14) =~= u32_le(54));
    assert(hd.subrange(14, 18) =~= u32_le(40));
    assert(hd.subrange(18, 22) =~= u32_le(w as u32));
    assert(hd.subrange(22, 26) =~= u32_le(h as u32));
    assert(hd.subrange(26, 28) =~= u16_le(1));
    assert(hd.subrange(28, 30) =~= u16_le(24));
    assert forall|i: int| 0 <= i < 54 implies #[trigger] f[i] == hd[i] by {}
    assert(f[2] == u32_le(fs)[0] && f[3] == u32_le(fs)[1] && f[4] == u32_le(fs)[2] && f[5] == u32_le(fs)[3]);
    assert(f[10] == u32_le(54)[0] && f[11] == u32_le(54)[1] && f[12] == u32_le(54)[2] && f[13] == u32_le(54)[3]);
    assert(f[14] == u32_le(40)[0] && f[15] == u32_le(40)[1] && f[16] == u32_le(40)[2] && f[17] == u32_le(40)[3]);
    assert(f[18] == u32_le(w as u32)[0] && f[19] == u32_le(w as u32)[1] && f[20] == u32_le(w as u32)[2] && f[21] == u32_le(w as u32)[3]);
    assert(f[22] == u32_le(h as u32)[0] && f[23] == u32_le(h as u32)[1] && f[24] == u32_le(h as u32)[2] && f[25] == u32_le(h as u32)[3]);
    assert(f[26] == u16_le(1)[0] && f[27] == u16_le(1)[1]);
    assert(f[28] == u16_le(24)[0] && f[29] == u16_le(24)[1]);
}

proof fn lemma_bmp_rows_index(rgb: Seq<u8>, w: int, h: int, n: int, r: int, j: int)
    requires
        0 <= w,
        0 <= r < n,
        0 <= j < bmp_stride(w),
    ensures
        bmp_rows(rgb, w, h, n)[r * bmp_stride(w) + j] == bmp_row(rgb, w, h - 1 - r)[j],
    decreases n,
{
    lemma_bmp_rows_len(rgb, w, h, n - 1);
    if r < n - 1 {
        assert(r * bmp_stride(w) + j < (n - 1) * bmp_stride(w)) by (nonlinear_arith)
            requires
                0 <= r < n - 1,
                0 <= j < bmp_stride(w),
        ;
        assert(r * bmp_stride(w) + j >= 0) by (nonlinear_arith)
            requires
                0 <= r,
                0 <= j,
                bmp_stride(w) > 0,
        ;
        lemma_bmp_rows_index(rgb, w, h, n - 1, r, j);
    } else {
        assert(r * bmp_stride(w) == (n - 1) * bmp_stride(w));
    }
}

/// The pixel data is stored bottom row first, each pixel as blue, green,
/// red: byte `c` of pixel `x` in the `r`-th stored row is channel `2 - c` of
/// image pixel `(x, h - 1 - r)`.
pub proof fn lemma_bmp_pixel(rgb: Seq<u8>, w: int, h: int, r: int, x: int, c: int)
    requires
        0 <= r < h,
        0 <= x < w,
        0 <= c < 3,
    ensures
        bmp_file(rgb, w, h)[54 + r * bmp_stride(w) + x * 3 + c] == rgb[((h - 1 - r) * w + x) * 3 + (
        2 - c)],
{
    let j = x * 3 + c;
    assert(j < bmp_stride(w));
    lemma_bmp_rows_index(rgb, w, h, h, r, j);
    lemma_bmp_rows_len(rgb, w, h, h);
    assert(r * bmp_stride(w) + j < h * bmp_stride(w)) by (nonlinear_arith)
        requires
            0 <= r < h,
            0 <= j < bmp_stride(w),
    ;
    assert(r * bmp_stride(w) + j >= 0) by (nonlinear_arith)
        requires
            0 <= r,
            0 <= j,
            bmp_stride(w) >= 0,
    ;
    lemma_fundamental_div_mod_converse_div(j, 3, x, c);
    lemma_fundamental_div_mod_converse_mod(j, 3, x, c);
    assert(bmp_header(w, h).len() == 54);
}

/// The texture pixel an image pixel is blended with repeats every `TILE`
/// pixels across and down, and within the first block each image pixel
/// reads its own block pixel: `(x, y)` reads block pixel `y * TILE + x`.
pub proof fn lemma_blend_source_tiles(x: int, y: int)
    requires
        0 <= x,
        0 <= y,
    ensures
        tile_pixel(x + TILE as int, y) == tile_pixel(x, y),
        tile_pixel(x, y + TILE as int) == tile_pixel(x, y),
        x < TILE && y < TILE ==> tile_pixel(x, y) == (y * TILE as int + x) * 4,
        tile_pixel(x, y) == ((y % 512) * 512 + x % 512) * 4,
{
    lemma_fundamental_div_mod_converse_mod(x + 512, 512, x / 512 + 1, x % 512);
    lemma_fundamental_div_mod_converse_mod(y + 512, 512, y / 512 + 1, y % 512);
    if x < TILE && y < TILE {
        lemma_fundamental_div_mod_converse_mod(x, 512, 0, x);
        lemma_fundamental_div_mod_converse_mod(y, 512, 0, y);
    }
}

} // verus!
