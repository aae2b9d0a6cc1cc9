//! Compositing the object stack into a premultiplied pixmap.
use vstd::prelude::*;
use std::collections::HashMap;
use tiny_skia::Pixmap;
use crate::coord::{round_to_i32, round_to_i32_bits, round_to_u32, round_to_u32_bits};
use crate::document::Document;
use crate::image::{ImageView, RgbaImage};
use crate::object::{CropData, ObjectKind, StackObject};
use vstd::arithmetic::div_mod::lemma_mod_multiples_basic;
use crate::skia::{demultiplied, demultiply_close, demultiply_pixel, draw_facts, draw_pixmap_at, drawn_over, exact_draw, pixel_at, pixel_clear, pixmap_bytes, pixmap_data, pixmap_new, pixmap_set_byte, pixmap_size, pixmap_size_ok, transparent_bytes};

verus! {

broadcast use vstd::std_specs::hash::group_hash_axioms;

/// An integer rectangle, as `tiny_skia::IntRect` holds it.
#[derive(Clone, Copy, Debug, PartialEq, Eq, Structural)]
pub struct IntRect {
    pub x: i32,
    pub y: i32,
    pub width: u32,
    pub height: u32,
}

/// A `w` x `h` rectangle at (x, y) is a valid `IntRect`: non-empty, and
/// both its sides and its right and bottom edges fit in an `i32`.
pub open spec fn rect_fits(x: i32, y: i32, w: u32, h: u32) -> bool {
    &&& w > 0
    &&& h > 0
    &&& w <= i32::MAX
    &&& h <= i32::MAX
    &&& x + w <= i32::MAX
    &&& y + h <= i32::MAX
}

/// `tiny_skia::IntRect::from_xywh`.
pub open spec fn rect_from_xywh(x: i32, y: i32, w: u32, h: u32) -> Option<IntRect> {
    if rect_fits(x, y, w, h) {
        Some(IntRect { x, y, width: w, height: h })
    } else {
        None
    }
}

impl IntRect {
    /// The rectangle, if it is a valid `IntRect` (as `IntRect::from_xywh`
    /// of `tiny_skia` decides).
    pub fn from_xywh(x: i32, y: i32, width: u32, height: u32) -> (r: Option<IntRect>)
        ensures
            r == rect_from_xywh(x, y, width, height),
    {
        if width > 0 && height > 0 && width <= 0x7fff_ffffu32 && height <= 0x7fff_ffffu32 {
            let right: i64 = x as i64 + width as i64;
            let bottom: i64 = y as i64 + height as i64;
            if right <= 0x7fff_ffffi64 && bottom <= 0x7fff_ffffi64 {
                return Some(IntRect { x, y, width, height });
            }
        }
        None
    }
}

pub open spec fn at_least_one(v: int) -> int {
    if v < 1 {
        1
    } else {
        v
    }
}

/// The pixel rectangle that a crop clips to, if it is a valid one: the
/// position rounded, the size rounded and at least one pixel.
pub open spec fn crop_rect_of(data: CropData) -> Option<IntRect> {
    rect_from_xywh(
        round_to_i32(data.x) as i32,
        round_to_i32(data.y) as i32,
        at_least_one(round_to_u32(data.width)) as u32,
        at_least_one(round_to_u32(data.height)) as u32,
    )
}

/// The crop in force after the objects, starting from `initial`: each
/// visible crop with a valid rectangle replaces it, so the last one wins.
pub open spec fn crop_after(objects: Seq<StackObject>, initial: Option<IntRect>) -> Option<IntRect>
    decreases objects.len(),
{
    if objects.len() == 0 {
        initial
    } else {
        let prev = crop_after(objects.drop_last(), initial);
        let o = objects.last();
        match o.kind {
            ObjectKind::Crop(d) => if o.visible && crop_rect_of(d) is Some {
                crop_rect_of(d)
            } else {
                prev
            },
            ObjectKind::Image(_) => prev,
        }
    }
}

/// `c * a / 255`: a straight channel premultiplied by alpha.
pub open spec fn premultiply_channel(c: u8, a: u8) -> u8 {
    ((c as nat * a as nat) / 255) as u8
}

/// Straight RGBA bytes with each color channel premultiplied by its
/// pixel's alpha; alpha bytes are kept.
pub open spec fn premultiplied(data: Seq<u8>) -> Seq<u8> {
    Seq::new(
        data.len(),
        |i: int|
            if i % 4 == 3 {
                data[i]
            } else {
                premultiply_channel(data[i], data[i - i % 4 + 3])
            },
    )
}

/// Premultiplied RGBA bytes back to straight alpha, pixel by pixel.
pub open spec fn straight(data: Seq<u8>) -> Seq<u8> {
    Seq::new(
        (data.len() / 4) * 4,
        |i: int|
            {
                let p = i - i % 4;
                let c = demultiplied(data[p], data[p + 1], data[p + 2], data[p + 3]);
                if i % 4 == 0 {
                    c.0
                } else if i % 4 == 1 {
                    c.1
                } else if i % 4 == 2 {
                    c.2
                } else {
                    c.3
                }
            },
    )
}

/// A pixmap's worth of pixels: bytes, width, height.
pub type Layer = (Seq<u8>, u32, u32);

/// The pixmap an image becomes, if it can have one.
pub open spec fn image_layer(image: ImageView) -> Option<Layer> {
    if pixmap_size_ok(image.width, image.height) {
        Some((premultiplied(image.data), image.width, image.height))
    } else {
        None
    }
}

/// The canvas after drawing `layer` (if there is one) at (x, y).
pub open spec fn draw_layer(canvas: Layer, x: i32, y: i32, layer: Option<Layer>) -> Layer {
    match layer {
        Some(l) => (drawn_over(canvas.0, canvas.1, canvas.2, x, y, l.0, l.1, l.2), canvas.1, canvas.2),
        None => canvas,
    }
}

/// The layer a stack object draws, if any: a visible image whose pixels
/// are in the asset store and can become a pixmap.
pub open spec fn object_layer(o: StackObject, assets: Map<u128, RgbaImage>) -> Option<Layer> {
    match o.kind {
        ObjectKind::Image(_) => if o.visible && assets.contains_key(o.id) {
            image_layer(assets[o.id]@)
        } else {
            None
        },
        ObjectKind::Crop(_) => None,
    }
}

/// The rounded position an image object is drawn at.
pub open spec fn object_position(o: StackObject) -> (i32, i32) {
    match o.kind {
        ObjectKind::Image(d) => (round_to_i32(d.x) as i32, round_to_i32(d.y) as i32),
        ObjectKind::Crop(_) => (0, 0),
    }
}

/// The canvas after painting the objects, bottom of the stack first.
pub open spec fn paint_objects(canvas: Layer, objects: Seq<StackObject>, assets: Map<u128, RgbaImage>) -> Layer
    decreases objects.len(),
{
    if objects.len() == 0 {
        canvas
    } else {
        let prev = paint_objects(canvas, objects.drop_last(), assets);
        let o = objects.last();
        draw_layer(prev, object_position(o).0, object_position(o).1, object_layer(o, assets))
    }
}

/// Painting keeps the canvas size.
pub proof fn lemma_paint_keeps_size(canvas: Layer, objects: Seq<StackObject>, assets: Map<u128, RgbaImage>)
    ensures
        paint_objects(canvas, objects, assets).1 == canvas.1,
        paint_objects(canvas, objects, assets).2 == canvas.2,
    decreases objects.len(),
{
    if objects.len() > 0 {
        lemma_paint_keeps_size(canvas, objects.drop_last(), assets);
    }
}

/// The canvas size: the base image's, at least one pixel each way.
pub open spec fn canvas_width(base: ImageView) -> u32 {
    at_least_one(base.width as int) as u32
}

pub open spec fn canvas_height(base: ImageView) -> u32 {
    at_least_one(base.height as int) as u32
}

/// The canvas with the base image drawn on transparent black.
pub open spec fn base_canvas(base: ImageView) -> Layer {
    let w = canvas_width(base);
    let h = canvas_height(base);
    draw_layer((transparent_bytes(w, h), w, h), 0, 0, image_layer(base))
}

/// The crop in force for a stack over this base image.
pub open spec fn final_crop(objects: Seq<StackObject>, base: ImageView) -> Option<IntRect> {
    crop_after(objects, rect_from_xywh(0, 0, canvas_width(base), canvas_height(base)))
}

/// The composite: base, then every visible image object in stack order,
/// then (if asked) clipped to the final crop.
pub open spec fn composite_layer(
    objects: Seq<StackObject>,
    base: ImageView,
    assets: Map<u128, RgbaImage>,
    apply_crop: bool,
) -> Layer {
    let painted = paint_objects(base_canvas(base), objects, assets);
    if !apply_crop {
        painted
    } else {
        match final_crop(objects, base) {
            Some(r) => (
                drawn_over(
                    transparent_bytes(r.width, r.height),
                    r.width,
                    r.height,
                    (-r.x) as i32,
                    (-r.y) as i32,
                    painted.0,
                    painted.1,
                    painted.2,
                ),
                r.width,
                r.height,
            ),
            None => painted,
        }
    }
}

/// Drawing a `w` x `h` pixmap at (x, y) does not panic.
pub open spec fn draw_fits(x: i32, y: i32, w: u32, h: u32) -> bool {
    w <= i32::MAX && h <= i32::MAX && x + w <= i32::MAX && y + h <= i32::MAX
}

/// Drawing the object's layer, if it has one, does not panic.
pub open spec fn object_draw_fits(o: StackObject, assets: Map<u128, RgbaImage>) -> bool {
    object_layer(o, assets) matches Some(l) ==> draw_fits(
        object_position(o).0,
        object_position(o).1,
        l.1,
        l.2,
    )
}

/// Clipping a `w` x `h` canvas to `r` does not panic.
pub open spec fn crop_fits(r: IntRect, w: u32, h: u32) -> bool {
    &&& pixmap_size_ok(r.width, r.height)
    &&& r.x != i32::MIN
    &&& r.y != i32::MIN
    &&& draw_fits((-r.x) as i32, (-r.y) as i32, w, h)
}

/// The inputs on which compositing runs to the end rather than panicking
/// (on a canvas, an image or a crop too large for a pixmap or for `i32`
/// coordinates).
pub open spec fn composite_defined(
    objects: Seq<StackObject>,
    base: ImageView,
    assets: Map<u128, RgbaImage>,
    apply_crop: bool,
) -> bool {
    &&& pixmap_size_ok(canvas_width(base), canvas_height(base))
    &&& (image_layer(base) is Some ==> draw_fits(0, 0, base.width, base.height))
    &&& forall|i: int| 0 <= i < objects.len() ==> object_draw_fits(#[trigger] objects[i], assets)
    &&& apply_crop ==> (final_crop(objects, base) matches Some(r) ==> crop_fits(
        r,
        canvas_width(base),
        canvas_height(base),
    ))
}

/// `out` holds the `r`-sized window of the `full` layer whose top-left
/// corner is at (r.x, r.y): each pixel is the full layer's pixel at that
/// offset, or transparent black where the window lies outside it.
pub open spec fn clipped_from(out: Seq<u8>, r: IntRect, full: Layer) -> bool {
    forall|i: int, j: int, c: int|
        #![trigger pixel_at(out, r.width, i, j, c)]
        0 <= i < r.width && 0 <= j < r.height && 0 <= c < 4 ==> pixel_at(out, r.width, i, j, c) == if 0 <= r.x
            + i < full.1 && 0 <= r.y + j < full.2 {
            pixel_at(full.0, full.1, r.x + i, r.y + j, c)
        } else {
            0
        }
}

/// Byte `c` of pixel (i, j) lies within the bytes of a `w` x `h` image.
proof fn lemma_pixel_index(w: u32, h: u32, i: int, j: int, c: int)
    requires
        0 <= i < w,
        0 <= j < h,
        0 <= c < 4,
    ensures
        0 <= 4 * (j * w + i) + c < 4 * (w as nat) * (h as nat),
{
    assert(0 <= 4 * (j * w + i) + c < 4 * (w as nat) * (h as nat)) by (nonlinear_arith)
        requires
            0 <= i < w,
            0 <= j < h,
            0 <= c < 4,
    ;
}

/// Every byte of a `w` x `h` image is byte `c` of some pixel (i, j).
proof fn lemma_pixel_decompose(k: int, w: u32, h: u32) -> (p: (int, int, int))
    requires
        0 <= k < 4 * (w as nat) * (h as nat),
    ensures
        0 <= p.0 < w,
        0 <= p.1 < h,
        0 <= p.2 < 4,
        k == 4 * (p.1 * w + p.0) + p.2,
{
    let row: int = 4 * (w as int);
    let j = k / row;
    let rem = k % row;
    let i = rem / 4;
    let c = rem % 4;
    assert(row > 0) by (nonlinear_arith)
        requires
            0 <= k < 4 * (w as nat) * (h as nat),
            row == 4 * (w as int),
    ;
    assert(k == row * j + rem && 0 <= rem < row) by (nonlinear_arith)
        requires
            row > 0,
            j == k / row,
            rem == k % row,
    ;
    assert(rem == 4 * i + c && 0 <= c < 4) by (nonlinear_arith)
        requires
            i == rem / 4,
            c == rem % 4,
    ;
    assert(0 <= i < w) by (nonlinear_arith)
        requires
            0 <= rem < row,
            row == 4 * (w as int),
            rem == 4 * i + c,
            0 <= c < 4,
    ;
    assert(0 <= j < h) by (nonlinear_arith)
        requires
            0 <= k < 4 * (w as nat) * (h as nat),
            k == row * j + rem,
            0 <= rem < row,
            row == 4 * (w as int),
    ;
    assert(k == 4 * (j * w + i) + c) by (nonlinear_arith)
        requires
            k == row * j + rem,
            rem == 4 * i + c,
            row == 4 * (w as int),
    ;
    (i, j, c)
}

/// The object's layer covers canvas pixel (i, j): it is an image object
/// that draws a layer, and the pixel lies in the layer's rectangle with its
/// top-left corner at the object's position rounded, negative or not.
pub open spec fn covers(o: StackObject, assets: Map<u128, RgbaImage>, i: int, j: int) -> bool {
    match o.kind {
        ObjectKind::Image(d) => match object_layer(o, assets) {
            Some(l) => round_to_i32(d.x) <= i < round_to_i32(d.x) + l.1 && round_to_i32(d.y) <= j
                < round_to_i32(d.y) + l.2,
            None => false,
        },
        ObjectKind::Crop(_) => false,
    }
}

/// The index of the topmost object whose layer covers canvas pixel (i, j),
/// if any.
pub open spec fn top_cover(objects: Seq<StackObject>, assets: Map<u128, RgbaImage>, i: int, j: int) -> Option<int>
    decreases objects.len(),
{
    if objects.len() == 0 {
        None
    } else if covers(objects.last(), assets, i, j) {
        Some(objects.len() - 1)
    } else {
        top_cover(objects.drop_last(), assets, i, j)
    }
}

/// Byte `c` of pixel (i, j) of the base canvas: the premultiplied base
/// pixel where the base image has one, transparent black elsewhere.
pub open spec fn base_pixel(base: ImageView, i: int, j: int, c: int) -> u8 {
    match image_layer(base) {
        Some(l) => if i < l.1 && j < l.2 {
            pixel_at(l.0, l.1, i, j, c)
        } else {
            0
        },
        None => 0,
    }
}

/// Pixel (i, j) of the base canvas is transparent black.
pub open spec fn base_clear(base: ImageView, i: int, j: int) -> bool {
    &&& base_pixel(base, i, j, 0) == 0
    &&& base_pixel(base, i, j, 1) == 0
    &&& base_pixel(base, i, j, 2) == 0
    &&& base_pixel(base, i, j, 3) == 0
}

/// What the painted `w` x `h` canvas holds pixel by pixel. Where no
/// object's layer covers a pixel, it is the base canvas pixel. Where the
/// topmost covering object is an image at (x, y) (its position rounded),
/// the pixel is that layer's pixel (i - x, j - y) when the layer is opaque
/// there (later objects paint over earlier ones and over the base), and
/// also, whatever its alpha, when nothing lay under it: no earlier object
/// covers the pixel and the base pixel is transparent black (each layer is
/// blended once, source-over).
pub open spec fn painted_facts(
    data: Seq<u8>,
    w: u32,
    h: u32,
    objects: Seq<StackObject>,
    base: ImageView,
    assets: Map<u128, RgbaImage>,
) -> bool {
    forall|i: int, j: int, c: int|
        0 <= i < w && 0 <= j < h && 0 <= c < 4 ==> #[trigger] painted_pixel(data, w, objects, base, assets, i, j, c)
}

/// Byte `c` of pixel (i, j) of the painted canvas, as `painted_facts`
/// states it.
pub open spec fn painted_pixel(
    data: Seq<u8>,
    w: u32,
    objects: Seq<StackObject>,
    base: ImageView,
    assets: Map<u128, RgbaImage>,
    i: int,
    j: int,
    c: int,
) -> bool {
    match top_cover(objects, assets, i, j) {
        Some(k) => match objects[k].kind {
            ObjectKind::Image(d) => {
                let l = object_layer(objects[k], assets)->0;
                let x = round_to_i32(d.x);
                let y = round_to_i32(d.y);
                (pixel_at(l.0, l.1, i - x, j - y, 3) == 255 || (top_cover(objects.take(k), assets, i, j) is None
                    && base_clear(base, i, j))) ==> pixel_at(data, w, i, j, c) == pixel_at(
                    l.0,
                    l.1,
                    i - x,
                    j - y,
                    c,
                )
            },
            ObjectKind::Crop(_) => false,
        },
        None => pixel_at(data, w, i, j, c) == base_pixel(base, i, j, c),
    }
}

/// Every draw of compositing is done on exact coordinates (`exact_draw`).
pub open spec fn exact_composite(objects: Seq<StackObject>, base: ImageView, assets: Map<u128, RgbaImage>) -> bool {
    &&& exact_draw(canvas_width(base), canvas_height(base), 0, 0, base.width, base.height)
    &&& forall|k: int|
        0 <= k < objects.len() ==> (object_layer(#[trigger] objects[k], assets) matches Some(l) ==> exact_draw(
            canvas_width(base),
            canvas_height(base),
            object_position(objects[k]).0,
            object_position(objects[k]).1,
            l.1,
            l.2,
        ))
}

/// The base canvas, drawn on exact coordinates, holds the base pixels.
proof fn lemma_paint_base(data: Seq<u8>, base: ImageView, assets: Map<u128, RgbaImage>)
    requires
        image_layer(base) matches Some(l) ==> draw_facts(
            data,
            transparent_bytes(canvas_width(base), canvas_height(base)),
            canvas_width(base),
            canvas_height(base),
            0,
            0,
            l.0,
            l.1,
            l.2,
        ),
        image_layer(base) is None ==> data == transparent_bytes(canvas_width(base), canvas_height(base)),
    ensures
        painted_facts(data, canvas_width(base), canvas_height(base), Seq::empty(), base, assets),
{
    let w = canvas_width(base);
    let h = canvas_height(base);
    let dst = transparent_bytes(w, h);
    assert forall|i: int, j: int, c: int| 0 <= i < w && 0 <= j < h && 0 <= c < 4 implies #[trigger] pixel_at(
        data,
        w,
        i,
        j,
        c,
    ) == base_pixel(base, i, j, c) by {
        lemma_pixel_index(w, h, i, j, 0);
        lemma_pixel_index(w, h, i, j, 1);
        lemma_pixel_index(w, h, i, j, 2);
        lemma_pixel_index(w, h, i, j, 3);
        lemma_pixel_index(w, h, i, j, c);
        assert(pixel_clear(dst, w, i, j));
        assert(pixel_at(dst, w, i, j, c) == 0);
    }
}

/// Drawing one more object keeps what is known of the painted canvas.
proof fn lemma_paint_step(
    before: Seq<u8>,
    after: Seq<u8>,
    w: u32,
    h: u32,
    objects: Seq<StackObject>,
    o: StackObject,
    base: ImageView,
    assets: Map<u128, RgbaImage>,
)
    requires
        painted_facts(before, w, h, objects, base, assets),
        object_layer(o, assets) matches Some(l) ==> draw_facts(
            after,
            before,
            w,
            h,
            object_position(o).0,
            object_position(o).1,
            l.0,
            l.1,
            l.2,
        ),
        object_layer(o, assets) is None ==> after == before,
    ensures
        painted_facts(after, w, h, objects.push(o), base, assets),
{
    let next = objects.push(o);
    let n = objects.len() as int;
    assert(next.drop_last() =~= objects);
    assert(next.last() == o);
    assert(next.take(n) =~= objects);
    assert forall|i: int, j: int, c: int|
        0 <= i < w && 0 <= j < h && 0 <= c < 4 implies #[trigger] painted_pixel(after, w, next, base, assets, i, j, c) by {
        assert(painted_pixel(before, w, objects, base, assets, i, j, c));
        assert(painted_pixel(before, w, objects, base, assets, i, j, 0));
        assert(painted_pixel(before, w, objects, base, assets, i, j, 1));
        assert(painted_pixel(before, w, objects, base, assets, i, j, 2));
        assert(painted_pixel(before, w, objects, base, assets, i, j, 3));
        assert(pixel_at(after, w, i, j, c) == pixel_at(after, w, i, j, c));
        lemma_top_cover_range(objects, assets, i, j);
        lemma_top_cover_range(next, assets, i, j);
        if !covers(o, assets, i, j) {
            if let Some(k) = top_cover(objects, assets, i, j) {
                assert(next[k] == objects[k]);
                assert(next.take(k) =~= objects.take(k));
            }
        }
    }
    assert(painted_facts(after, w, h, next, base, assets));
}

/// The topmost covering object is one of the objects.
proof fn lemma_top_cover_range(objects: Seq<StackObject>, assets: Map<u128, RgbaImage>, i: int, j: int)
    ensures
        top_cover(objects, assets, i, j) matches Some(k) ==> 0 <= k < objects.len() && covers(
            objects[k],
            assets,
            i,
            j,
        ),
    decreases objects.len(),
{
    if objects.len() > 0 && !covers(objects.last(), assets, i, j) {
        lemma_top_cover_range(objects.drop_last(), assets, i, j);
        if let Some(k) = top_cover(objects.drop_last(), assets, i, j) {
            assert(objects.drop_last()[k] == objects[k]);
        }
    }
}

/// Drawing a canvas at (-r.x, -r.y) onto a transparent `r`-sized pixmap
/// leaves the canvas's `r` window there.
proof fn lemma_clip_window(out: Seq<u8>, r: IntRect, canvas: Seq<u8>, cw: u32, ch: u32)
    requires
        r.x != i32::MIN,
        r.y != i32::MIN,
        draw_facts(
            out,
            transparent_bytes(r.width, r.height),
            r.width,
            r.height,
            (-r.x) as i32,
            (-r.y) as i32,
            canvas,
            cw,
            ch,
        ),
    ensures
        clipped_from(out, r, (canvas, cw, ch)),
{
    let dst = transparent_bytes(r.width, r.height);
    assert forall|i: int, j: int, c: int| 0 <= i < r.width && 0 <= j < r.height && 0 <= c < 4 implies #[trigger] pixel_at(
        out,
        r.width,
        i,
        j,
        c,
    ) == if 0 <= r.x + i < cw && 0 <= r.y + j < ch {
        pixel_at(canvas, cw, r.x + i, r.y + j, c)
    } else {
        0
    } by {
        lemma_pixel_index(r.width, r.height, i, j, 0);
        lemma_pixel_index(r.width, r.height, i, j, 1);
        lemma_pixel_index(r.width, r.height, i, j, 2);
        lemma_pixel_index(r.width, r.height, i, j, 3);
        lemma_pixel_index(r.width, r.height, i, j, c);
        assert(pixel_clear(dst, r.width, i, j));
        assert(pixel_at(dst, r.width, i, j, c) == 0);
        assert(i - (-r.x) == r.x + i);
        assert(j - (-r.y) == r.y + j);
    }
}

/// A `w` x `h` window at (0, 0) of a `w` x `h` layer is that layer.
proof fn lemma_whole_window(out: Seq<u8>, canvas: Seq<u8>, w: u32, h: u32)
    requires
        out.len() == 4 * (w as nat) * (h as nat),
        canvas.len() == 4 * (w as nat) * (h as nat),
        clipped_from(out, IntRect { x: 0, y: 0, width: w, height: h }, (canvas, w, h)),
    ensures
        out == canvas,
{
    let r = IntRect { x: 0, y: 0, width: w, height: h };
    assert forall|k: int| 0 <= k < out.len() implies out[k] == canvas[k] by {
        let p = lemma_pixel_decompose(k, w, h);
        assert(pixel_at(out, r.width, p.0, p.1, p.2) == pixel_at(canvas, w, r.x + p.0, r.y + p.1, p.2));
    }
    assert(out =~= canvas);
}

/// The pixmap's bytes and size, as a layer.
pub open spec fn layer_of(p: Pixmap) -> Layer {
    (pixmap_data(p), pixmap_size(p).0, pixmap_size(p).1)
}

/// A premultiplied channel never exceeds its alpha (so the premultiplied
/// bytes are a valid premultiplied color); full alpha keeps the channel,
/// zero alpha clears it.
pub proof fn lemma_premultiply_channel_bounds(c: u8, a: u8)
    ensures
        premultiply_channel(c, a) <= a,
        premultiply_channel(c, a) as nat == (c as nat * a as nat) / 255,
        a == 255 ==> premultiply_channel(c, a) == c,
        a == 0 ==> premultiply_channel(c, a) == 0,
{
    assert((c as nat * a as nat) / 255 <= a as nat) by (nonlinear_arith)
        requires
            c <= 255,
    ;
    assert(a == 255 ==> (c as nat * a as nat) / 255 == c as nat) by (nonlinear_arith);
}

/// `c * a / 255`, computed in 16 bits as compositing does.
fn premultiply(c: u8, a: u8) -> (r: u8)
    ensures
        r == premultiply_channel(c, a),
        r <= a,
{
    proof {
        lemma_premultiply_channel_bounds(c, a);
    }
    assert(c as nat * a as nat <= 65025) by (nonlinear_arith)
        requires
            c <= 255,
            a <= 255,
    ;
    ((c as u16 * a as u16) / 255) as u8
}

/// The pixel rectangle that a crop clips to, if it is a valid one.
pub fn crop_data_rect(data: &CropData) -> (r: Option<IntRect>)
    ensures
        r == crop_rect_of(*data),
{
    let x: i32 = round_to_i32_bits(data.x);
    let y: i32 = round_to_i32_bits(data.y);
    let w: u32 = round_to_u32_bits(data.width);
    let h: u32 = round_to_u32_bits(data.height);
    let w: u32 = if w < 1 {
        1
    } else {
        w
    };
    let h: u32 = if h < 1 {
        1
    } else {
        h
    };
    IntRect::from_xywh(x, y, w, h)
}

/// Whether `Pixmap::new(width, height)` succeeds.
pub fn pixmap_size_fits(width: u32, height: u32) -> (ok: bool)
    ensures
        ok == pixmap_size_ok(width, height),
{
    assert(4 * (width as nat) * (height as nat) <= 4 * 0xffff_ffffnat * 0xffff_ffffnat) by (nonlinear_arith)
        requires
            width <= 0xffff_ffff,
            height <= 0xffff_ffff,
    ;
    let total: u128 = 4u128 * (width as u128) * (height as u128);
    width > 0 && height > 0 && 4u64 * (width as u64) <= 0x7fff_ffffu64 && total <= usize::MAX as u128
}

/// Converts a straight-alpha image into a premultiplied pixmap; `None`
/// when the image cannot have a pixmap (zero or too large a size).
pub fn image_to_pixmap(image: &RgbaImage) -> (pixmap: Option<Pixmap>)
    ensures
        match image_layer(image@) {
            Some(l) => pixmap matches Some(p) && layer_of(p) == l,
            None => pixmap is None,
        },
{
    let w: u32 = image.width();
    let h: u32 = image.height();
    let mut pixmap = match pixmap_new(w, h) {
        Some(p) => p,
        None => {
            return None;
        },
    };
    let data = image.data();
    let n: usize = data.len();
    proof {
        let q: int = w as int * h as int;
        assert(n == q * 4) by (nonlinear_arith)
            requires
                n == 4 * (w as nat) * (h as nat),
                q == w as int * h as int,
        ;
        lemma_mod_multiples_basic(q, 4);
    }
    let mut i: usize = 0;
    while i < n
        invariant
            n == data@.len(),
            n % 4 == 0,
            i % 4 == 0,
            i <= n,
            data@ == image@.data,
            pixmap_size(pixmap) == (w, h),
            pixmap_data(pixmap).len() == n,
            forall|k: int| 0 <= k < i ==> #[trigger] pixmap_data(pixmap)[k] == premultiplied(data@)[k],
        decreases n - i,
    {
        let a: u8 = data[i + 3];
        let r: u8 = premultiply(data[i], a);
        let g: u8 = premultiply(data[i + 1], a);
        let b: u8 = premultiply(data[i + 2], a);
        pixmap_set_byte(&mut pixmap, i, r);
        pixmap_set_byte(&mut pixmap, i + 1, g);
        pixmap_set_byte(&mut pixmap, i + 2, b);
        pixmap_set_byte(&mut pixmap, i + 3, a);
        assert(premultiplied(data@)[i as int] == r);
        assert(premultiplied(data@)[i + 1] == g);
        assert(premultiplied(data@)[i + 2] == b);
        assert(premultiplied(data@)[i + 3] == a);
        i += 4;
    }
    assert(pixmap_data(pixmap) =~= premultiplied(data@));
    Some(pixmap)
}

/// The canvas clipped to `rect`: a new `rect`-sized pixmap with the canvas
/// drawn at (-x, -y).
fn crop_to(canvas: &Pixmap, rect: IntRect) -> (out: Pixmap)
    requires
        crop_fits(rect, pixmap_size(*canvas).0, pixmap_size(*canvas).1),
    ensures
        layer_of(out) == (
            drawn_over(
                transparent_bytes(rect.width, rect.height),
                rect.width,
                rect.height,
                (-rect.x) as i32,
                (-rect.y) as i32,
                pixmap_data(*canvas),
                pixmap_size(*canvas).0,
                pixmap_size(*canvas).1,
            ),
            rect.width,
            rect.height,
        ),
        pixmap_data(out).len() == 4 * (rect.width as nat) * (rect.height as nat),
        exact_draw(
            rect.width,
            rect.height,
            (-rect.x) as i32,
            (-rect.y) as i32,
            pixmap_size(*canvas).0,
            pixmap_size(*canvas).1,
        ) ==> draw_facts(
            pixmap_data(out),
            transparent_bytes(rect.width, rect.height),
            rect.width,
            rect.height,
            (-rect.x) as i32,
            (-rect.y) as i32,
            pixmap_data(*canvas),
            pixmap_size(*canvas).0,
            pixmap_size(*canvas).1,
        ),
{
    let mut out = pixmap_new(rect.width, rect.height).unwrap();
    draw_pixmap_at(&mut out, -rect.x, -rect.y, canvas);
    out
}

/// The crop in force after `objects`, starting from the whole
/// `canvas_w` x `canvas_h` canvas: the last visible crop with a valid
/// rectangle.
pub fn crop_after_objects(objects: &Vec<StackObject>, canvas_w: u32, canvas_h: u32) -> (r: Option<IntRect>)
    ensures
        r == crop_after(objects@, rect_from_xywh(0, 0, canvas_w, canvas_h)),
{
    let mut crop_rect: Option<IntRect> = IntRect::from_xywh(0, 0, canvas_w, canvas_h);
    let mut i: usize = 0;
    while i < objects.len()
        invariant
            i <= objects@.len(),
            crop_rect == crop_after(objects@.take(i as int), rect_from_xywh(0, 0, canvas_w, canvas_h)),
        decreases objects@.len() - i,
    {
        let object = &objects[i];
        if object.visible {
            match &object.kind {
                ObjectKind::Crop(data) => {
                    match crop_data_rect(data) {
                        Some(rect) => {
                            crop_rect = Some(rect);
                        },
                        None => {},
                    }
                },
                ObjectKind::Image(_) => {},
            }
        }
        assert(objects@.take(i + 1).drop_last() =~= objects@.take(i as int));
        i += 1;
    }
    assert(objects@.take(objects@.len() as int) =~= objects@);
    crop_rect
}

/// Whether drawing a `w` x `h` pixmap at (x, y) stays within `i32`.
fn draw_fits_exec(x: i32, y: i32, w: u32, h: u32) -> (ok: bool)
    ensures
        ok == draw_fits(x, y, w, h),
{
    w <= 0x7fff_ffffu32 && h <= 0x7fff_ffffu32 && x as i64 + w as i64 <= 0x7fff_ffffi64 && y as i64
        + h as i64 <= 0x7fff_ffffi64
}

/// Whether `composite` runs to the end on these inputs: the canvas, the
/// images and the crop all fit a pixmap and `i32` coordinates.
pub fn composite_supported(
    document: &Document,
    base: &RgbaImage,
    assets: &HashMap<u128, RgbaImage>,
    apply_crop: bool,
) -> (ok: bool)
    ensures
        ok == composite_defined(document.objects@, base@, assets@, apply_crop),
{
    let base_w: u32 = if base.width() < 1 {
        1
    } else {
        base.width()
    };
    let base_h: u32 = if base.height() < 1 {
        1
    } else {
        base.height()
    };
    assert(base_w == canvas_width(base@));
    assert(base_h == canvas_height(base@));
    if !pixmap_size_fits(base_w, base_h) {
        return false;
    }
    if pixmap_size_fits(base.width(), base.height()) && !draw_fits_exec(
        0,
        0,
        base.width(),
        base.height(),
    ) {
        return false;
    }
    let objects = &document.objects;
    let mut i: usize = 0;
    while i < objects.len()
        invariant
            i <= objects@.len(),
            objects@ == document.objects@,
            forall|k: int| 0 <= k < i ==> object_draw_fits(#[trigger] objects@[k], assets@),
        decreases objects@.len() - i,
    {
        let object = &objects[i];
        if object.visible {
            match &object.kind {
                ObjectKind::Image(data) => {
                    match assets.get(&object.id) {
                        Some(pixels) => {
                            let w: u32 = pixels.width();
                            let h: u32 = pixels.height();
                            if pixmap_size_fits(w, h) && !draw_fits_exec(
                                round_to_i32_bits(data.x),
                                round_to_i32_bits(data.y),
                                w,
                                h,
                            ) {
                                assert(!object_draw_fits(document.objects@[i as int], assets@));
                                return false;
                            }
                        },
                        None => {},
                    }
                },
                ObjectKind::Crop(_) => {},
            }
        }
        i += 1;
    }
    if apply_crop {
        match crop_after_objects(objects, base_w, base_h) {
            Some(r) => {
                if !pixmap_size_fits(r.width, r.height) || r.x == i32::MIN || r.y == i32::MIN {
                    return false;
                }
                return draw_fits_exec(-r.x, -r.y, base_w, base_h);
            },
            None => {},
        }
    }
    true
}

/// Composites the base image and the document's object stack into a
/// single premultiplied-alpha pixmap.
///
/// `assets` holds the pixels of pasted images, keyed by the owning object's
/// id. A `Crop` object clips the final output regardless of where it sits
/// in the stack; when `apply_crop` is false the clip is skipped so the full
/// canvas can be shown while cropping.
///
/// With the clip on, the output is the crop's window of the unclipped
/// composite, transparent where the window leaves the canvas; with no crop
/// that sets the clip, it is the unclipped composite itself. Unclipped, a
/// pixel that no image covers is the base pixel, and a pixel whose topmost
/// covering image is opaque there is that image's pixel. These are stated
/// for the sizes at which `tiny_skia` draws on exact coordinates
/// (`exact_draw`, `exact_composite`).
#[verifier::rlimit(60)]
pub fn composite(
    document: &Document,
    base: &RgbaImage,
    assets: &HashMap<u128, RgbaImage>,
    apply_crop: bool,
) -> (out: Pixmap)
    requires
        composite_defined(document.objects@, base@, assets@, apply_crop),
    ensures
        layer_of(out) == composite_layer(document.objects@, base@, assets@, apply_crop),
        pixmap_size(out) == if apply_crop && final_crop(document.objects@, base@) is Some {
            (
                final_crop(document.objects@, base@)->0.width,
                final_crop(document.objects@, base@)->0.height,
            )
        } else {
            (canvas_width(base@), canvas_height(base@))
        },
        final_crop(document.objects@, base@) matches Some(r) ==> (apply_crop && exact_draw(
            r.width,
            r.height,
            (-r.x) as i32,
            (-r.y) as i32,
            canvas_width(base@),
            canvas_height(base@),
        ) ==> clipped_from(layer_of(out).0, r, composite_layer(document.objects@, base@, assets@, false))),
        apply_crop && (forall|m: int|
            0 <= m < document.objects@.len() ==> !sets_crop(#[trigger] document.objects@[m]))
            && exact_draw(
            canvas_width(base@),
            canvas_height(base@),
            0,
            0,
            canvas_width(base@),
            canvas_height(base@),
        ) ==> layer_of(out) == composite_layer(document.objects@, base@, assets@, false),
        exact_composite(document.objects@, base@, assets@) ==> painted_facts(
            composite_layer(document.objects@, base@, assets@, false).0,
            canvas_width(base@),
            canvas_height(base@),
            document.objects@,
            base@,
            assets@,
        ),
{
    let base_w: u32 = if base.width() < 1 {
        1
    } else {
        base.width()
    };
    let base_h: u32 = if base.height() < 1 {
        1
    } else {
        base.height()
    };
    let mut canvas = pixmap_new(base_w, base_h).unwrap();
    match image_to_pixmap(base) {
        Some(base_pixmap) => {
            draw_pixmap_at(&mut canvas, 0, 0, &base_pixmap);
            proof {
                if exact_composite(document.objects@, base@, assets@) {
                    lemma_paint_base(pixmap_data(canvas), base@, assets@);
                }
            }
        },
        None => {
            proof {
                lemma_paint_base(pixmap_data(canvas), base@, assets@);
            }
        },
    }
    assert(document.objects@.take(0) =~= Seq::<StackObject>::empty());
    assert(layer_of(canvas) == base_canvas(base@));
    let mut crop_rect: Option<IntRect> = IntRect::from_xywh(0, 0, base_w, base_h);
    let objects = &document.objects;
    let mut i: usize = 0;
    while i < objects.len()
        invariant
            i <= objects@.len(),
            objects@ == document.objects@,
            composite_defined(document.objects@, base@, assets@, apply_crop),
            layer_of(canvas) == paint_objects(base_canvas(base@), objects@.take(i as int), assets@),
            pixmap_size(canvas) == (base_w, base_h),
            base_w == canvas_width(base@),
            base_h == canvas_height(base@),
            pixmap_data(canvas).len() == 4 * (base_w as nat) * (base_h as nat),
            crop_rect == crop_after(objects@.take(i as int), rect_from_xywh(0, 0, base_w, base_h)),
            exact_composite(document.objects@, base@, assets@) ==> painted_facts(
                pixmap_data(canvas),
                base_w,
                base_h,
                objects@.take(i as int),
                base@,
                assets@,
            ),
        decreases objects@.len() - i,
    {
        let ghost before = pixmap_data(canvas);
        let object = &objects[i];
        if object.visible {
            match &object.kind {
                ObjectKind::Crop(data) => {
                    match crop_data_rect(data) {
                        Some(rect) => {
                            crop_rect = Some(rect);
                        },
                        None => {},
                    }
                },
                ObjectKind::Image(data) => {
                    match assets.get(&object.id) {
                        Some(pixels) => {
                            match image_to_pixmap(pixels) {
                                Some(pixmap) => {
                                    draw_pixmap_at(
                                        &mut canvas,
                                        round_to_i32_bits(data.x),
                                        round_to_i32_bits(data.y),
                                        &pixmap,
                                    );
                                },
                                None => {},
                            }
                        },
                        None => {},
                    }
                },
            }
        }
        assert(objects@.take(i + 1).drop_last() =~= objects@.take(i as int));
        proof {
            if exact_composite(document.objects@, base@, assets@) {
                assert(object_layer(document.objects@[i as int], assets@) matches Some(l) ==> exact_draw(
                    base_w,
                    base_h,
                    object_position(objects@[i as int]).0,
                    object_position(objects@[i as int]).1,
                    l.1,
                    l.2,
                ));
                assert(objects@.take(i + 1) =~= objects@.take(i as int).push(objects@[i as int]));
                lemma_paint_step(
                    before,
                    pixmap_data(canvas),
                    base_w,
                    base_h,
                    objects@.take(i as int),
                    objects@[i as int],
                    base@,
                    assets@,
                );
            }
        }
        i += 1;
    }
    assert(objects@.take(objects@.len() as int) =~= objects@);
    proof {
        lemma_paint_keeps_size(base_canvas(base@), objects@, assets@);
    }
    if !apply_crop {
        return canvas;
    }
    let ghost initial = rect_from_xywh(0, 0, base_w, base_h);
    let ghost whole = (forall|m: int| 0 <= m < objects@.len() ==> !sets_crop(#[trigger] objects@[m]))
        && exact_draw(base_w, base_h, 0, 0, base_w, base_h);
    proof {
        lemma_last_visible_crop_wins(objects@, initial);
    }
    match crop_rect {
        Some(rect) => {
            let out = crop_to(&canvas, rect);
            proof {
                if exact_draw(rect.width, rect.height, (-rect.x) as i32, (-rect.y) as i32, base_w, base_h) {
                    lemma_clip_window(pixmap_data(out), rect, pixmap_data(canvas), base_w, base_h);
                }
                if whole {
                    assert(rect == IntRect { x: 0, y: 0, width: base_w, height: base_h });
                    lemma_clip_window(pixmap_data(out), rect, pixmap_data(canvas), base_w, base_h);
                    lemma_whole_window(pixmap_data(out), pixmap_data(canvas), base_w, base_h);
                }
            }
            out
        },
        None => canvas,
    }
}

/// What demultiplying keeps of premultiplied pixel `t` of `data`, as
/// pixel `t` of `out`: alpha is kept; an opaque pixel is unchanged; an
/// all-zero pixel stays all zero; and with 0 < alpha, each channel no
/// larger than alpha is scaled by 255 / alpha and rounded to nearest.
pub open spec fn demultiplied_pixel(out: Seq<u8>, data: Seq<u8>, t: int) -> bool {
    let i = 4 * t;
    let a = data[i + 3];
    &&& out[i + 3] == a
    &&& a == 255 ==> out[i] == data[i] && out[i + 1] == data[i + 1] && out[i + 2] == data[i + 2]
    &&& data[i] == 0 && data[i + 1] == 0 && data[i + 2] == 0 && a == 0 ==> out[i] == 0 && out[i + 1]
        == 0 && out[i + 2] == 0
    &&& 0 < a && data[i] <= a ==> demultiply_close(out[i], data[i], a)
    &&& 0 < a && data[i + 1] <= a ==> demultiply_close(out[i + 1], data[i + 1], a)
    &&& 0 < a && data[i + 2] <= a ==> demultiply_close(out[i + 2], data[i + 2], a)
}

/// Converts a pixmap's premultiplied pixels back to straight-alpha RGBA8:
/// four bytes for each of the `w * h` pixels, each pixel demultiplied.
pub fn pixmap_to_straight_rgba(pixmap: &Pixmap) -> (bytes: Vec<u8>)
    ensures
        bytes@ == straight(pixmap_data(*pixmap)),
        bytes@.len() == 4 * (pixmap_size(*pixmap).0 as nat) * (pixmap_size(*pixmap).1 as nat),
        forall|t: int|
            0 <= t < pixmap_data(*pixmap).len() / 4 ==> #[trigger] demultiplied_pixel(
                bytes@,
                pixmap_data(*pixmap),
                t,
            ),
{
    let data = pixmap_bytes(pixmap);
    let count: usize = data.len() / 4;
    proof {
        let n = data@.len();
        let q: int = pixmap_size(*pixmap).0 as int * pixmap_size(*pixmap).1 as int;
        assert(n == q * 4) by (nonlinear_arith)
            requires
                n == 4 * (pixmap_size(*pixmap).0 as nat) * (pixmap_size(*pixmap).1 as nat),
                q == pixmap_size(*pixmap).0 as int * pixmap_size(*pixmap).1 as int,
        ;
    }
    let mut bytes: Vec<u8> = Vec::with_capacity(count * 4);
    let mut j: usize = 0;
    while j < count
        invariant
            data@ == pixmap_data(*pixmap),
            count == data@.len() / 4,
            j <= count,
            bytes@.len() == 4 * j,
            forall|k: int| 0 <= k < 4 * j ==> #[trigger] bytes@[k] == straight(data@)[k],
            forall|t: int| 0 <= t < j ==> #[trigger] demultiplied_pixel(straight(data@), data@, t),
        decreases count - j,
    {
        let c = demultiply_pixel(pixmap, j);
        bytes.push(c.0);
        bytes.push(c.1);
        bytes.push(c.2);
        bytes.push(c.3);
        assert(straight(data@)[4 * j as int] == c.0);
        assert(straight(data@)[4 * j + 1] == c.1);
        assert(straight(data@)[4 * j + 2] == c.2);
        assert(straight(data@)[4 * j + 3] == c.3);
        assert(demultiplied_pixel(straight(data@), data@, j as int));
        j += 1;
    }
    assert(bytes@ =~= straight(data@));
    bytes
}

/// Premultiplying an image's pixels and demultiplying them again gives
/// back alpha exactly, opaque pixels exactly, zero for fully transparent
/// pixels, and otherwise each channel `c` as some `c'` with
/// `c' <= c` and `(c - c') * a < 255 + a` (so `c - c' <= 255 / a + 1`).
pub proof fn lemma_premultiply_round_trip(image: Seq<u8>, out: Seq<u8>, t: int, k: int)
    requires
        0 <= t < image.len() / 4,
        0 <= k < 3,
        out.len() == image.len(),
        demultiplied_pixel(out, premultiplied(image), t),
    ensures
        out[4 * t + 3] == image[4 * t + 3],
        image[4 * t + 3] == 255 ==> out[4 * t + k] == image[4 * t + k],
        image[4 * t + 3] == 0 ==> out[4 * t + k] == 0,
        0 < image[4 * t + 3] ==> out[4 * t + k] <= image[4 * t + k] && (image[4 * t + k] - out[4 * t
            + k]) * image[4 * t + 3] < 255 + image[4 * t + 3],
{
    let p = premultiplied(image);
    let i = 4 * t;
    let a = image[i + 3];
    assert(p[i + 3] == a);
    assert((i + k) - (i + k) % 4 + 3 == i + 3);
    assert(p[i + k] == premultiply_channel(image[i + k], a));
    lemma_premultiply_channel_bounds(image[i + k], a);
    assert((i + 0) - (i + 0) % 4 + 3 == i + 3);
    assert((i + 1) - (i + 1) % 4 + 3 == i + 3);
    assert((i + 2) - (i + 2) % 4 + 3 == i + 3);
    lemma_premultiply_channel_bounds(image[i], a);
    lemma_premultiply_channel_bounds(image[i + 1], a);
    lemma_premultiply_channel_bounds(image[i + 2], a);
    assert(p[i] == premultiply_channel(image[i], a));
    assert(p[i + 1] == premultiply_channel(image[i + 1], a));
    assert(p[i + 2] == premultiply_channel(image[i + 2], a));
    if 0 < a && a < 255 {
        let c = image[i + k] as int;
        let o = out[i + k] as int;
        let pk = p[i + k] as int;
        assert(demultiply_close(out[i + k], p[i + k], a));
        assert(255 * pk <= c * a < 255 * pk + 255) by (nonlinear_arith)
            requires
                pk == (c * a) / 255,
                c >= 0,
                a >= 0,
        ;
        assert(o <= c && (c - o) * a < 255 + a) by (nonlinear_arith)
            requires
                -(a as int) <= 2 * (o * a - 255 * pk) <= a as int,
                255 * pk <= c * a < 255 * pk + 255,
                0 < a,
                o >= 0,
        ;
    }
}

/// The object is a visible crop with a valid rectangle: it sets the crop.
pub open spec fn sets_crop(o: StackObject) -> bool {
    match o.kind {
        ObjectKind::Crop(d) => o.visible && crop_rect_of(d) is Some,
        ObjectKind::Image(_) => false,
    }
}

/// The rectangle of a crop object.
pub open spec fn object_crop_rect(o: StackObject) -> Option<IntRect> {
    match o.kind {
        ObjectKind::Crop(d) => crop_rect_of(d),
        ObjectKind::Image(_) => None,
    }
}

/// The last visible crop with a valid rectangle wins: the crop in force is
/// that object's rectangle; with no such crop it is the starting one.
#[verifier::spinoff_prover]
#[verifier::rlimit(40)]
pub proof fn lemma_last_visible_crop_wins(objects: Seq<StackObject>, initial: Option<IntRect>)
    ensures
        (forall|m: int| 0 <= m < objects.len() ==> !sets_crop(#[trigger] objects[m])) ==> crop_after(
            objects,
            initial,
        ) == initial,
        forall|k: int|
            0 <= k < objects.len() && sets_crop(#[trigger] objects[k]) && (forall|m: int|
                k < m < objects.len() ==> !sets_crop(#[trigger] objects[m])) ==> crop_after(objects, initial)
                == object_crop_rect(objects[k]),
    decreases objects.len(),
{
    if objects.len() > 0 {
        let prefix = objects.drop_last();
        lemma_last_visible_crop_wins(prefix, initial);
        assert forall|m: int| 0 <= m < prefix.len() implies #[trigger] prefix[m] == objects[m] by {}
        assert forall|k: int|
            0 <= k < objects.len() && sets_crop(#[trigger] objects[k]) && (forall|m: int|
                k < m < objects.len() ==> !sets_crop(#[trigger] objects[m])) implies crop_after(objects, initial)
            == object_crop_rect(objects[k]) by {
            if k < objects.len() - 1 {
                assert(!sets_crop(objects[objects.len() - 1]));
                assert(prefix[k] == objects[k]);
                assert forall|m: int| k < m < prefix.len() implies !sets_crop(#[trigger] prefix[m]) by {
                    assert(prefix[m] == objects[m]);
                }
            }
        }
    }
}

/// Removing an object that does not set the crop leaves the crop as is.
pub proof fn lemma_crop_skips(objects: Seq<StackObject>, i: int, initial: Option<IntRect>)
    requires
        0 <= i < objects.len(),
        !sets_crop(objects[i]),
    ensures
        crop_after(objects.remove(i), initial) == crop_after(objects, initial),
    decreases objects.len(),
{
    if i == objects.len() - 1 {
        assert(objects.remove(i) =~= objects.drop_last());
    } else {
        assert(objects.remove(i).drop_last() =~= objects.drop_last().remove(i));
        assert(objects.remove(i).last() == objects.last());
        lemma_crop_skips(objects.drop_last(), i, initial);
    }
}

/// Removing an object that draws nothing leaves the painted canvas as is.
pub proof fn lemma_paint_skips(canvas: Layer, objects: Seq<StackObject>, assets: Map<u128, RgbaImage>, i: int)
    requires
        0 <= i < objects.len(),
        object_layer(objects[i], assets) is None,
    ensures
        paint_objects(canvas, objects.remove(i), assets) == paint_objects(canvas, objects, assets),
    decreases objects.len(),
{
    if i == objects.len() - 1 {
        assert(objects.remove(i) =~= objects.drop_last());
    } else {
        assert(objects.remove(i).drop_last() =~= objects.drop_last().remove(i));
        assert(objects.remove(i).last() == objects.last());
        lemma_paint_skips(canvas, objects.drop_last(), assets, i);
    }
}

/// The object neither draws anything nor sets the crop.
pub open spec fn inert(o: StackObject, assets: Map<u128, RgbaImage>) -> bool {
    object_layer(o, assets) is None && !sets_crop(o)
}

/// Removing an inert object leaves the composite, and whether it runs,
/// as they were.
proof fn lemma_inert_object_removal(
    objects: Seq<StackObject>,
    i: int,
    base: ImageView,
    assets: Map<u128, RgbaImage>,
    apply_crop: bool,
)
    requires
        0 <= i < objects.len(),
        inert(objects[i], assets),
    ensures
        composite_layer(objects.remove(i), base, assets, apply_crop) == composite_layer(
            objects,
            base,
            assets,
            apply_crop,
        ),
        composite_defined(objects.remove(i), base, assets, apply_crop) == composite_defined(
            objects,
            base,
            assets,
            apply_crop,
        ),
{
    let w = canvas_width(base);
    let h = canvas_height(base);
    lemma_crop_skips(objects, i, rect_from_xywh(0, 0, w, h));
    lemma_paint_skips(base_canvas(base), objects, assets, i);
    let rest = objects.remove(i);
    assert(forall|k: int| 0 <= k < rest.len() ==> #[trigger] rest[k] == objects[if k < i { k } else { k + 1 }]);
    if forall|k: int| 0 <= k < objects.len() ==> object_draw_fits(#[trigger] objects[k], assets) {
        assert forall|k: int| 0 <= k < rest.len() implies object_draw_fits(#[trigger] rest[k], assets) by {
            assert(object_draw_fits(objects[if k < i { k } else { k + 1 }], assets));
        }
    }
    if forall|k: int| 0 <= k < rest.len() ==> object_draw_fits(#[trigger] rest[k], assets) {
        assert forall|k: int| 0 <= k < objects.len() implies object_draw_fits(#[trigger] objects[k], assets) by {
            if k < i {
                assert(object_draw_fits(rest[k], assets));
            } else if k > i {
                assert(object_draw_fits(rest[k - 1], assets));
            }
        }
    }
}

/// A hidden object has no effect on the composite: the stack without it
/// composites to the same pixels, on the same inputs.
pub proof fn lemma_hidden_object_has_no_effect(
    objects: Seq<StackObject>,
    i: int,
    base: ImageView,
    assets: Map<u128, RgbaImage>,
    apply_crop: bool,
)
    requires
        0 <= i < objects.len(),
        !objects[i].visible,
    ensures
        composite_layer(objects.remove(i), base, assets, apply_crop) == composite_layer(
            objects,
            base,
            assets,
            apply_crop,
        ),
        composite_defined(objects.remove(i), base, assets, apply_crop) == composite_defined(
            objects,
            base,
            assets,
            apply_crop,
        ),
{
    lemma_inert_object_removal(objects, i, base, assets, apply_crop);
}

/// An image object without pixel data (none in the store, or an image
/// with no width or no height) is skipped: the stack without it
/// composites to the same pixels, and compositing runs on exactly the same
/// inputs.
pub proof fn lemma_image_without_pixels_is_skipped(
    objects: Seq<StackObject>,
    i: int,
    base: ImageView,
    assets: Map<u128, RgbaImage>,
    apply_crop: bool,
)
    requires
        0 <= i < objects.len(),
        objects[i].kind is Image,
        !assets.contains_key(objects[i].id) || assets[objects[i].id]@.width == 0
            || assets[objects[i].id]@.height == 0,
    ensures
        composite_layer(objects.remove(i), base, assets, apply_crop) == composite_layer(
            objects,
            base,
            assets,
            apply_crop,
        ),
        composite_defined(objects.remove(i), base, assets, apply_crop) == composite_defined(
            objects,
            base,
            assets,
            apply_crop,
        ),
{
    lemma_inert_object_removal(objects, i, base, assets, apply_crop);
}

/// Leaving out objects that draw nothing leaves the painted canvas as is.
proof fn lemma_paint_filter(
    canvas: Layer,
    objects: Seq<StackObject>,
    assets: Map<u128, RgbaImage>,
    keep: spec_fn(StackObject) -> bool,
)
    requires
        forall|k: int|
            0 <= k < objects.len() && !keep(objects[k]) ==> object_layer(#[trigger] objects[k], assets) is None,
    ensures
        paint_objects(canvas, objects.filter(keep), assets) == paint_objects(canvas, objects, assets),
    decreases objects.len(),
{
    reveal_with_fuel(Seq::<_>::filter, 1);
    if objects.len() > 0 {
        let rest = objects.drop_last();
        assert forall|k: int| 0 <= k < rest.len() && !keep(rest[k]) implies object_layer(
            #[trigger] rest[k],
            assets,
        ) is None by {
            assert(rest[k] == objects[k]);
        }
        lemma_paint_filter(canvas, rest, assets, keep);
        let f = rest.filter(keep);
        let o = objects.last();
        if keep(o) {
            assert(f.push(o).drop_last() =~= f);
        } else {
            assert(object_layer(objects[objects.len() - 1], assets) is None);
        }
    }
}

/// Leaving out objects that do not set the crop leaves the crop as is.
proof fn lemma_crop_filter(objects: Seq<StackObject>, initial: Option<IntRect>, keep: spec_fn(StackObject) -> bool)
    requires
        forall|k: int| 0 <= k < objects.len() && !keep(objects[k]) ==> !sets_crop(#[trigger] objects[k]),
    ensures
        crop_after(objects.filter(keep), initial) == crop_after(objects, initial),
    decreases objects.len(),
{
    reveal_with_fuel(Seq::<_>::filter, 1);
    if objects.len() > 0 {
        let rest = objects.drop_last();
        assert forall|k: int| 0 <= k < rest.len() && !keep(rest[k]) implies !sets_crop(#[trigger] rest[k]) by {
            assert(rest[k] == objects[k]);
        }
        lemma_crop_filter(rest, initial, keep);
        let f = rest.filter(keep);
        let o = objects.last();
        if keep(o) {
            assert(f.push(o).drop_last() =~= f);
        } else {
            assert(!sets_crop(objects[objects.len() - 1]));
        }
    }
}

/// Leaving out objects that draw nothing changes nothing of whether every
/// drawing fits.
proof fn lemma_fits_filter(objects: Seq<StackObject>, assets: Map<u128, RgbaImage>, keep: spec_fn(StackObject) -> bool)
    requires
        forall|k: int|
            0 <= k < objects.len() && !keep(objects[k]) ==> object_layer(#[trigger] objects[k], assets) is None,
    ensures
        (forall|k: int| 0 <= k < objects.len() ==> object_draw_fits(#[trigger] objects[k], assets)) <==> (
        forall|k: int|
            0 <= k < objects.filter(keep).len() ==> object_draw_fits(#[trigger] objects.filter(keep)[k], assets)),
{
    let f = objects.filter(keep);
    if forall|k: int| 0 <= k < objects.len() ==> object_draw_fits(#[trigger] objects[k], assets) {
        assert forall|k: int| 0 <= k < f.len() implies object_draw_fits(#[trigger] f[k], assets) by {
            assert(f.contains(f[k]));
            objects.lemma_filter_contains_rev(keep, f[k]);
            let j = choose|j: int| 0 <= j < objects.len() && objects[j] == f[k];
            assert(object_draw_fits(objects[j], assets));
        }
    }
    if forall|k: int| 0 <= k < f.len() ==> object_draw_fits(#[trigger] f[k], assets) {
        assert forall|k: int| 0 <= k < objects.len() implies object_draw_fits(#[trigger] objects[k], assets) by {
            if keep(objects[k]) {
                objects.lemma_filter_contains(keep, k);
                let j = choose|j: int| 0 <= j < f.len() && f[j] == objects[k];
                assert(object_draw_fits(f[j], assets));
            }
        }
    }
}

/// Leaving out any objects that neither draw nor set the crop leaves the
/// composite, and whether it runs, as they were.
pub proof fn lemma_inert_objects_have_no_effect(
    objects: Seq<StackObject>,
    keep: spec_fn(StackObject) -> bool,
    base: ImageView,
    assets: Map<u128, RgbaImage>,
    apply_crop: bool,
)
    requires
        forall|k: int| 0 <= k < objects.len() && !keep(objects[k]) ==> inert(#[trigger] objects[k], assets),
    ensures
        composite_layer(objects.filter(keep), base, assets, apply_crop) == composite_layer(
            objects,
            base,
            assets,
            apply_crop,
        ),
        composite_defined(objects.filter(keep), base, assets, apply_crop) == composite_defined(
            objects,
            base,
            assets,
            apply_crop,
        ),
{
    lemma_paint_filter(base_canvas(base), objects, assets, keep);
    lemma_crop_filter(objects, rect_from_xywh(0, 0, canvas_width(base), canvas_height(base)), keep);
    lemma_fits_filter(objects, assets, keep);
}

/// Hidden objects, crops and images alike, have no effect: the stack with
/// every hidden object left out composites to the same pixels, on the
/// same inputs.
pub proof fn lemma_hidden_objects_have_no_effect(
    objects: Seq<StackObject>,
    base: ImageView,
    assets: Map<u128, RgbaImage>,
    apply_crop: bool,
)
    ensures
        composite_layer(objects.filter(|o: StackObject| o.visible), base, assets, apply_crop)
            == composite_layer(objects, base, assets, apply_crop),
        composite_defined(objects.filter(|o: StackObject| o.visible), base, assets, apply_crop)
            == composite_defined(objects, base, assets, apply_crop),
{
    lemma_inert_objects_have_no_effect(objects, |o: StackObject| o.visible, base, assets, apply_crop);
}

/// Without the clip, crops do nothing: two stacks with the same image
/// objects in the same order composite to the same pixels, on the same
/// inputs, whatever crops they hold, however edited and wherever placed.
pub proof fn lemma_unclipped_composite_ignores_crops(
    objects: Seq<StackObject>,
    other: Seq<StackObject>,
    base: ImageView,
    assets: Map<u128, RgbaImage>,
)
    requires
        objects.filter(|o: StackObject| o.kind is Image) == other.filter(|o: StackObject| o.kind is Image),
    ensures
        composite_layer(objects, base, assets, false) == composite_layer(other, base, assets, false),
        composite_defined(objects, base, assets, false) == composite_defined(other, base, assets, false),
{
    let img = |o: StackObject| o.kind is Image;
    lemma_paint_filter(base_canvas(base), objects, assets, img);
    lemma_paint_filter(base_canvas(base), other, assets, img);
    lemma_fits_filter(objects, assets, img);
    lemma_fits_filter(other, assets, img);
}

/// A crop clips the output wherever it sits among the images: two stacks
/// with the same image objects in the same order, and the same crops that
/// set the clip in the same order, composite to the same pixels, on the
/// same inputs, with or without the clip.
pub proof fn lemma_crop_position_does_not_matter(
    objects: Seq<StackObject>,
    other: Seq<StackObject>,
    base: ImageView,
    assets: Map<u128, RgbaImage>,
    apply_crop: bool,
)
    requires
        objects.filter(|o: StackObject| o.kind is Image) == other.filter(|o: StackObject| o.kind is Image),
        objects.filter(|o: StackObject| sets_crop(o)) == other.filter(|o: StackObject| sets_crop(o)),
    ensures
        composite_layer(objects, base, assets, apply_crop) == composite_layer(other, base, assets, apply_crop),
        composite_defined(objects, base, assets, apply_crop) == composite_defined(
            other,
            base,
            assets,
            apply_crop,
        ),
{
    let img = |o: StackObject| o.kind is Image;
    let setter = |o: StackObject| sets_crop(o);
    let initial = rect_from_xywh(0, 0, canvas_width(base), canvas_height(base));
    lemma_paint_filter(base_canvas(base), objects, assets, img);
    lemma_paint_filter(base_canvas(base), other, assets, img);
    lemma_fits_filter(objects, assets, img);
    lemma_fits_filter(other, assets, img);
    lemma_crop_filter(objects, initial, setter);
    lemma_crop_filter(other, initial, setter);
}

/// Crop objects only clip: without the clip, the composite is the same
/// whether or not a crop object is in the stack, and wherever it sits.
pub proof fn lemma_crop_object_paints_nothing(
    objects: Seq<StackObject>,
    i: int,
    base: ImageView,
    assets: Map<u128, RgbaImage>,
)
    requires
        0 <= i < objects.len(),
        objects[i].kind is Crop,
    ensures
        composite_layer(objects.remove(i), base, assets, false) == composite_layer(
            objects,
            base,
            assets,
            false,
        ),
{
    lemma_paint_skips(base_canvas(base), objects, assets, i);
}

/// Image objects do not move the clip: the crop in force is the same
/// whether or not an image object is in the stack, and wherever it sits.
pub proof fn lemma_image_object_does_not_crop(objects: Seq<StackObject>, i: int, base: ImageView)
    requires
        0 <= i < objects.len(),
        objects[i].kind is Image,
    ensures
        final_crop(objects.remove(i), base) == final_crop(objects, base),
{
    lemma_crop_skips(objects, i, rect_from_xywh(0, 0, canvas_width(base), canvas_height(base)));
}

/// An image object is drawn with its top-left corner at its position
/// rounded, negative values included (nothing is clamped).
pub proof fn lemma_image_drawn_at_rounded_position(o: StackObject)
    ensures
        o.kind matches ObjectKind::Image(d) ==> object_position(o).0 as int == round_to_i32(d.x)
            && object_position(o).1 as int == round_to_i32(d.y),
{
}

/// Drawing fits at any offset, negative ones included, whose far edges
/// stay within `i32`.
pub proof fn lemma_draw_fits_at_any_offset(x: i32, y: i32, w: u32, h: u32)
    requires
        w <= i32::MAX,
        h <= i32::MAX,
        x + w <= i32::MAX,
        y + h <= i32::MAX,
    ensures
        draw_fits(x, y, w, h),
{
}

/// A crop lying inside the canvas never stops compositing: where the
/// unclipped composite runs on a canvas no taller than `i32::MAX`, the
/// clipped one runs too.
pub proof fn lemma_crop_inside_canvas_is_supported(
    objects: Seq<StackObject>,
    base: ImageView,
    assets: Map<u128, RgbaImage>,
)
    requires
        composite_defined(objects, base, assets, false),
        canvas_height(base) <= i32::MAX,
        final_crop(objects, base) matches Some(r) ==> 0 <= r.x && r.x + r.width <= canvas_width(base) && 0
            <= r.y && r.y + r.height <= canvas_height(base),
    ensures
        composite_defined(objects, base, assets, true),
{
    if let Some(r) = final_crop(objects, base) {
        let cw = canvas_width(base);
        let ch = canvas_height(base);
        lemma_final_crop_valid(objects, base);
        assert(4 * (r.width as nat) * (r.height as nat) <= 4 * (cw as nat) * (ch as nat)) by (nonlinear_arith)
            requires
                r.width <= cw,
                r.height <= ch,
        ;
        assert(pixmap_size_ok(r.width, r.height));
        assert(crop_fits(r, cw, ch));
    }
}

/// The crop in force is always a valid rectangle.
proof fn lemma_final_crop_valid(objects: Seq<StackObject>, base: ImageView)
    ensures
        final_crop(objects, base) matches Some(r) ==> r.width > 0 && r.height > 0,
{
    lemma_crop_after_valid(objects, rect_from_xywh(0, 0, canvas_width(base), canvas_height(base)));
}

proof fn lemma_crop_after_valid(objects: Seq<StackObject>, initial: Option<IntRect>)
    requires
        initial matches Some(r) ==> r.width > 0 && r.height > 0,
    ensures
        crop_after(objects, initial) matches Some(r) ==> r.width > 0 && r.height > 0,
    decreases objects.len(),
{
    if objects.len() > 0 {
        lemma_crop_after_valid(objects.drop_last(), initial);
    }
}

/// The topmost object covering a pixel is object `k`.
proof fn lemma_top_cover_is(objects: Seq<StackObject>, assets: Map<u128, RgbaImage>, i: int, j: int, k: int)
    requires
        0 <= k < objects.len(),
        covers(objects[k], assets, i, j),
        forall|m: int| k < m < objects.len() ==> !covers(#[trigger] objects[m], assets, i, j),
    ensures
        top_cover(objects, assets, i, j) == Some(k),
    decreases objects.len(),
{
    if k < objects.len() - 1 {
        let rest = objects.drop_last();
        assert(!covers(objects[objects.len() - 1], assets, i, j));
        assert forall|m: int| k < m < rest.len() implies !covers(#[trigger] rest[m], assets, i, j) by {
            assert(rest[m] == objects[m]);
        }
        assert(rest[k] == objects[k]);
        lemma_top_cover_is(rest, assets, i, j, k);
    }
}

/// No object covers the pixel.
proof fn lemma_top_cover_none(objects: Seq<StackObject>, assets: Map<u128, RgbaImage>, i: int, j: int)
    requires
        forall|m: int| 0 <= m < objects.len() ==> !covers(#[trigger] objects[m], assets, i, j),
    ensures
        top_cover(objects, assets, i, j) is None,
    decreases objects.len(),
{
    if objects.len() > 0 {
        let rest = objects.drop_last();
        assert(!covers(objects[objects.len() - 1], assets, i, j));
        assert forall|m: int| 0 <= m < rest.len() implies !covers(#[trigger] rest[m], assets, i, j) by {
            assert(rest[m] == objects[m]);
        }
        lemma_top_cover_none(rest, assets, i, j);
    }
}

/// A visible image blended alone over a transparent pixel: where its
/// pixels cover canvas pixel (i, j), no other object covers it and the
/// base pixel is transparent black, the painted pixel is the image's
/// straight pixel at (i - round(x), j - round(y)) premultiplied once:
/// each color byte `c * a / 255`, the alpha byte `a`, whatever `a` is.
pub proof fn lemma_lone_image_pixel(
    data: Seq<u8>,
    w: u32,
    h: u32,
    objects: Seq<StackObject>,
    base: ImageView,
    assets: Map<u128, RgbaImage>,
    k: int,
    i: int,
    j: int,
    c: int,
)
    requires
        painted_facts(data, w, h, objects, base, assets),
        0 <= k < objects.len(),
        objects[k].kind is Image,
        objects[k].visible,
        assets.contains_key(objects[k].id),
        pixmap_size_ok(assets[objects[k].id]@.width, assets[objects[k].id]@.height),
        assets[objects[k].id]@.data.len() == 4 * (assets[objects[k].id]@.width as nat) * (
        assets[objects[k].id]@.height as nat),
        0 <= i < w,
        0 <= j < h,
        0 <= c < 4,
        objects[k].kind matches ObjectKind::Image(d) ==> round_to_i32(d.x) <= i < round_to_i32(d.x)
            + assets[objects[k].id]@.width && round_to_i32(d.y) <= j < round_to_i32(d.y)
            + assets[objects[k].id]@.height,
        forall|m: int| 0 <= m < objects.len() && m != k ==> !covers(#[trigger] objects[m], assets, i, j),
        base_clear(base, i, j),
    ensures
        objects[k].kind matches ObjectKind::Image(d) ==> {
            let s = assets[objects[k].id]@.data;
            let p = 4 * ((j - round_to_i32(d.y)) * assets[objects[k].id]@.width + (i - round_to_i32(d.x)));
            pixel_at(data, w, i, j, c) as nat == if c == 3 {
                s[p + 3] as nat
            } else {
                (s[p + c] as nat * s[p + 3] as nat) / 255
            }
        },
{
    let o = objects[k];
    let img = assets[o.id]@;
    if let ObjectKind::Image(d) = o.kind {
        assert(covers(o, assets, i, j));
        lemma_top_cover_is(objects, assets, i, j, k);
        let before = objects.take(k);
        assert forall|m: int| 0 <= m < before.len() implies !covers(#[trigger] before[m], assets, i, j) by {
            assert(before[m] == objects[m]);
        }
        lemma_top_cover_none(before, assets, i, j);
        assert(painted_pixel(data, w, objects, base, assets, i, j, c));
        let x = round_to_i32(d.x);
        let y = round_to_i32(d.y);
        let q = (j - y) * img.width + (i - x);
        lemma_pixel_index(img.width, img.height, i - x, j - y, c);
        lemma_pixel_index(img.width, img.height, i - x, j - y, 3);
        let p = 4 * q;
        assert((p + c) % 4 == c && (p + c) - (p + c) % 4 + 3 == p + 3) by (nonlinear_arith)
            requires
                p == 4 * q,
                0 <= c < 4,
        ;
        lemma_premultiply_channel_bounds(img.data[p + c], img.data[p + 3]);
    }
}

} // verus!
