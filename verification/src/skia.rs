//! The pixmaps of `tiny_skia` that the library composites into, and the
//! calls it makes on them. Every item here is trusted: its contract is
//! taken from the `tiny_skia` source, not proved.
use vstd::prelude::*;
use tiny_skia::{Pixmap, PixmapPaint, Transform};

verus! {

/// `tiny_skia::Pixmap`: an owned buffer of premultiplied RGBA8 pixels.
#[verifier::external_type_specification]
#[verifier::external_body]
pub struct ExPixmap(tiny_skia::Pixmap);

/// The bytes a pixmap holds: premultiplied RGBA, row by row, no padding.
pub uninterp spec fn pixmap_data(pixmap: Pixmap) -> Seq<u8>;

/// The (width, height) a pixmap was made with.
pub uninterp spec fn pixmap_size(pixmap: Pixmap) -> (u32, u32);

/// What `Pixmap::draw_pixmap` with the default paint (source-over, full
/// opacity, nearest filtering), the identity transform and no mask leaves
/// in a `dst_w` x `dst_h` canvas holding `dst`, when the `src_w` x `src_h`
/// pixmap holding `src` is drawn with its top-left corner at (x, y).
pub uninterp spec fn drawn_over(
    dst: Seq<u8>,
    dst_w: u32,
    dst_h: u32,
    x: i32,
    y: i32,
    src: Seq<u8>,
    src_w: u32,
    src_h: u32,
) -> Seq<u8>;

/// What `PremultipliedColorU8::demultiply` makes of the premultiplied
/// pixel (r, g, b, a), as straight (r, g, b, a).
pub uninterp spec fn demultiplied(r: u8, g: u8, b: u8, a: u8) -> (u8, u8, u8, u8);

/// When `Pixmap::new(width, height)` succeeds: both sides non-zero, a row
/// of at most `i32::MAX` bytes, and the whole buffer addressable.
pub open spec fn pixmap_size_ok(width: u32, height: u32) -> bool {
    &&& width > 0
    &&& height > 0
    &&& 4 * width <= i32::MAX
    &&& 4 * width * height <= usize::MAX
}

/// The bytes of a fully transparent pixmap of the given size.
pub open spec fn transparent_bytes(width: u32, height: u32) -> Seq<u8> {
    Seq::new(4 * width as nat * height as nat, |i: int| 0u8)
}

/// Byte `c` of pixel (i, j) of the RGBA bytes `data` of a `w`-pixel-wide
/// image, rows top to bottom.
pub open spec fn pixel_at(data: Seq<u8>, w: u32, i: int, j: int, c: int) -> u8 {
    data[4 * (j * w + i) + c]
}

/// Pixel (i, j) is transparent black: its four bytes are zero.
pub open spec fn pixel_clear(data: Seq<u8>, w: u32, i: int, j: int) -> bool {
    &&& pixel_at(data, w, i, j, 0) == 0
    &&& pixel_at(data, w, i, j, 1) == 0
    &&& pixel_at(data, w, i, j, 2) == 0
    &&& pixel_at(data, w, i, j, 3) == 0
}

/// Drawing a `src_w` x `src_h` pixmap at (x, y) onto a `dst_w` x `dst_h`
/// canvas runs `draw_pixmap`'s pipeline on exact coordinates: the canvas
/// sides, the source sides and the offset are within 2^22, so that every
/// f32 pixel-centre coordinate, rectangle edge and tile offset is exact,
/// and the source has at most `i32::MAX` pixels, so that every gather
/// index fits an `i32`.
pub open spec fn exact_draw(dst_w: u32, dst_h: u32, x: i32, y: i32, src_w: u32, src_h: u32) -> bool {
    &&& dst_w <= 0x40_0000
    &&& dst_h <= 0x40_0000
    &&& src_w <= 0x40_0000
    &&& src_h <= 0x40_0000
    &&& src_w * src_h <= i32::MAX
    &&& -0x40_0000 <= x <= 0x40_0000
    &&& -0x40_0000 <= y <= 0x40_0000
}

/// What drawing the `src` pixmap at (x, y) onto the `dst` canvas leaves in
/// `out`, pixel by pixel: outside the drawn rectangle the canvas is
/// unchanged; inside it, where the source pixel is opaque or the canvas
/// pixel is transparent black, the source pixel replaces the canvas pixel
/// (source-over).
pub open spec fn draw_facts(
    out: Seq<u8>,
    dst: Seq<u8>,
    dst_w: u32,
    dst_h: u32,
    x: i32,
    y: i32,
    src: Seq<u8>,
    src_w: u32,
    src_h: u32,
) -> bool {
    forall|i: int, j: int, c: int|
        #![trigger pixel_at(out, dst_w, i, j, c)]
        0 <= i < dst_w && 0 <= j < dst_h && 0 <= c < 4 ==> if x <= i < x + src_w && y <= j < y + src_h {
            (pixel_at(src, src_w, i - x, j - y, 3) == 255 || pixel_clear(dst, dst_w, i, j)) ==> pixel_at(
                out,
                dst_w,
                i,
                j,
                c,
            ) == pixel_at(src, src_w, i - x, j - y, c)
        } else {
            pixel_at(out, dst_w, i, j, c) == pixel_at(dst, dst_w, i, j, c)
        }
}

/// Calls `Pixmap::new`. As its source shows, it succeeds exactly when
/// `pixmap_size_ok` holds, and the pixmap is then filled with transparent
/// black (all bytes zero).
#[verifier::external_body]
pub(crate) fn pixmap_new(width: u32, height: u32) -> (pixmap: Option<Pixmap>)
    ensures
        pixmap is Some <==> pixmap_size_ok(width, height),
        pixmap matches Some(p) ==> pixmap_size(p) == (width, height) && pixmap_data(p)
            == transparent_bytes(width, height),
{
    Pixmap::new(width, height)
}

/// Calls `Pixmap::data`, the pixmap's bytes: four per pixel, as every
/// `Pixmap` constructor checks (`data_len_for_size`).
#[verifier::external_body]
pub(crate) fn pixmap_bytes(pixmap: &Pixmap) -> (data: &[u8])
    ensures
        data@ == pixmap_data(*pixmap),
        data@.len() == 4 * (pixmap_size(*pixmap).0 as nat) * (pixmap_size(*pixmap).1 as nat),
{
    pixmap.data()
}

/// Calls `Pixmap::data_mut` and writes one byte: only that byte changes.
#[verifier::external_body]
pub(crate) fn pixmap_set_byte(pixmap: &mut Pixmap, index: usize, value: u8)
    requires
        index < pixmap_data(*old(pixmap)).len(),
    ensures
        pixmap_size(*final(pixmap)) == pixmap_size(*old(pixmap)),
        pixmap_data(*final(pixmap)) == pixmap_data(*old(pixmap)).update(index as int, value),
{
    pixmap.data_mut()[index] = value;
}

/// Calls `Pixmap::draw_pixmap` with the default paint, the identity
/// transform and no mask. It panics unless the drawn rectangle
/// (x, y, src width, src height) is a valid `IntRect`, which `requires`
/// rules out. The canvas keeps its size; what its bytes become is named by
/// `drawn_over`. Where `exact_draw` holds, its source shows the facts of
/// `draw_facts`. On a canvas of at most 8191 pixels each way, `fill_rect`
/// blends the drawn rectangle clipped to the canvas; on a larger one it
/// fills the rectangle as a path, tile by tile (`DrawTiler`), each tile
/// getting the rectangle and the pattern shifted by the tile's offset, and
/// the non-anti-aliased scan converter fills exactly the pixels whose
/// centres lie in an integer rectangle. Either way each blended pixel is
/// the highp pipeline's `seed_shader`, `transform`, `gather` and
/// `source_over_rgba` (`Gather` has no lowp stage) on the source pixel at
/// its offset: `s + d * (1 - sa)` on bytes scaled to [0, 1] and rounded
/// back, which is `s` exactly when `sa` is 1 or `d` is 0. Beyond those
/// sizes (inexact f32 coordinates) nothing more is stated.
#[verifier::external_body]
pub(crate) fn draw_pixmap_at(canvas: &mut Pixmap, x: i32, y: i32, src: &Pixmap)
    requires
        pixmap_size(*src).0 <= i32::MAX,
        pixmap_size(*src).1 <= i32::MAX,
        x + pixmap_size(*src).0 <= i32::MAX,
        y + pixmap_size(*src).1 <= i32::MAX,
    ensures
        pixmap_size(*final(canvas)) == pixmap_size(*old(canvas)),
        pixmap_data(*final(canvas)).len() == pixmap_data(*old(canvas)).len(),
        pixmap_data(*final(canvas)) == drawn_over(
            pixmap_data(*old(canvas)),
            pixmap_size(*old(canvas)).0,
            pixmap_size(*old(canvas)).1,
            x,
            y,
            pixmap_data(*src),
            pixmap_size(*src).0,
            pixmap_size(*src).1,
        ),
        exact_draw(
            pixmap_size(*old(canvas)).0,
            pixmap_size(*old(canvas)).1,
            x,
            y,
            pixmap_size(*src).0,
            pixmap_size(*src).1,
        ) ==> draw_facts(
            pixmap_data(*final(canvas)),
            pixmap_data(*old(canvas)),
            pixmap_size(*old(canvas)).0,
            pixmap_size(*old(canvas)).1,
            x,
            y,
            pixmap_data(*src),
            pixmap_size(*src).0,
            pixmap_size(*src).1,
        ),
{
    canvas.draw_pixmap(x, y, src.as_ref(), &PixmapPaint::default(), Transform::identity(), None);
}

/// `out` is the premultiplied channel `p` scaled by 255 / `a` and rounded
/// to the nearest integer: `|out * a - 255 * p| <= a / 2`.
pub open spec fn demultiply_close(out: u8, p: u8, a: u8) -> bool {
    -(a as int) <= 2 * (out as int * a as int - 255 * p as int) <= a as int
}

/// Calls `PremultipliedColorU8::demultiply` on the pixmap's pixel number
/// `index`. The result is named by `demultiplied`; its source (color.rs)
/// shows that alpha is kept, that an opaque pixel comes back unchanged,
/// that an all-zero pixel comes back all zero (0 / 0 is NaN, and NaN cast
/// to `u8` is 0), and that for 0 < a each channel p <= a becomes
/// `(p as f64 / (a as f64 / 255.0) + 0.5) as u8`: p * 255 / a rounded to
/// nearest, the f64 error (below 1e-12) being far too small to move the
/// result past the stated bound.
#[verifier::external_body]
pub(crate) fn demultiply_pixel(pixmap: &Pixmap, index: usize) -> (c: (u8, u8, u8, u8))
    requires
        4 * index + 3 < pixmap_data(*pixmap).len(),
    ensures
        c == demultiplied(
            pixmap_data(*pixmap)[4 * index as int],
            pixmap_data(*pixmap)[4 * index as int + 1],
            pixmap_data(*pixmap)[4 * index as int + 2],
            pixmap_data(*pixmap)[4 * index as int + 3],
        ),
        c.3 == pixmap_data(*pixmap)[4 * index as int + 3],
        pixmap_data(*pixmap)[4 * index as int + 3] == 255 ==> c == (
            pixmap_data(*pixmap)[4 * index as int],
            pixmap_data(*pixmap)[4 * index as int + 1],
            pixmap_data(*pixmap)[4 * index as int + 2],
            255u8,
        ),
        pixmap_data(*pixmap)[4 * index as int] == 0 && pixmap_data(*pixmap)[4 * index as int + 1] == 0
            && pixmap_data(*pixmap)[4 * index as int + 2] == 0 && pixmap_data(*pixmap)[4 * index as int
            + 3] == 0 ==> c == (0u8, 0u8, 0u8, 0u8),
        0 < pixmap_data(*pixmap)[4 * index as int + 3] && pixmap_data(*pixmap)[4 * index as int]
            <= pixmap_data(*pixmap)[4 * index as int + 3] ==> demultiply_close(
            c.0,
            pixmap_data(*pixmap)[4 * index as int],
            pixmap_data(*pixmap)[4 * index as int + 3],
        ),
        0 < pixmap_data(*pixmap)[4 * index as int + 3] && pixmap_data(*pixmap)[4 * index as int + 1]
            <= pixmap_data(*pixmap)[4 * index as int + 3] ==> demultiply_close(
            c.1,
            pixmap_data(*pixmap)[4 * index as int + 1],
            pixmap_data(*pixmap)[4 * index as int + 3],
        ),
        0 < pixmap_data(*pixmap)[4 * index as int + 3] && pixmap_data(*pixmap)[4 * index as int + 2]
            <= pixmap_data(*pixmap)[4 * index as int + 3] ==> demultiply_close(
            c.2,
            pixmap_data(*pixmap)[4 * index as int + 2],
            pixmap_data(*pixmap)[4 * index as int + 3],
        ),
{
    let color = pixmap.pixels()[index].demultiply();
    (color.red(), color.green(), color.blue(), color.alpha())
}

} // verus!
