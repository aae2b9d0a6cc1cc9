//! The editor's state and the operations its tools, panels and shortcuts
//! perform on it. Windowing, input and file and clipboard I/O live with the
//! user interface; they hand this state plain values.
use vstd::prelude::*;
use std::collections::HashMap;
use std::path::PathBuf;
use tiny_skia::Pixmap;
use crate::coord::{round_to_i32, round_to_i32_bits, F32_ONE, F32_ZERO};
use crate::document::{file_stem_text, Document};
use crate::image::RgbaImage;
use crate::object::{CropData, ImageData, ObjectKind, StackObject};
use crate::render::{composite, composite_defined, composite_layer, composite_supported, covers, crop_data_rect, layer_of, sets_crop, top_cover};
use crate::skia::pixmap_size_ok;

verus! {

broadcast use vstd::std_specs::hash::group_hash_axioms;

/// The active canvas tool.
#[derive(Clone, Copy, Debug, PartialEq, Eq, Structural)]
pub enum Tool {
    Select,
    Crop,
}

/// An in-progress crop drag: which `Crop` object is being edited and where
/// (in base-image pixel space, as `f32` bit patterns) the drag started.
#[derive(Clone, Copy, Debug, PartialEq, Eq, Structural)]
pub struct CropDrag {
    pub object_id: u128,
    pub start_x: u32,
    pub start_y: u32,
}

/// An in-progress move of an image object with the select tool: which
/// object, where it was when the drag started, and where (in base-image
/// pixel space) the drag started; all as `f32` bit patterns.
#[derive(Clone, Copy, Debug, PartialEq, Eq, Structural)]
pub struct MoveDrag {
    pub object_id: u128,
    pub origin: ImageData,
    pub start_x: u32,
    pub start_y: u32,
}

/// The editor: the document, the base image's pixels and the pixels of
/// pasted images (keyed by the owning object's id, kept out of the
/// document as runtime data), the selection, the active tool, an
/// in-progress crop or move drag and a status message.
pub struct IrisApp {
    pub document: Document,
    pub base_image: RgbaImage,
    pub pasted_images: HashMap<u128, RgbaImage>,
    pub selected_object: Option<u128>,
    pub active_tool: Tool,
    pub crop_drag: Option<CropDrag>,
    pub move_drag: Option<MoveDrag>,
    pub status: Option<String>,
}

/// Some image object in the stack has this id.
pub open spec fn has_image_id(objects: Seq<StackObject>, id: u128) -> bool {
    exists|k: int| 0 <= k < objects.len() && (#[trigger] objects[k]).id == id && objects[k].kind is Image
}

/// The pixel store holds pixels exactly for the image objects of the
/// stack: every image object has its pixels there, and every stored key is
/// the id of an image object.
pub open spec fn store_matches_images(objects: Seq<StackObject>, assets: Map<u128, RgbaImage>) -> bool {
    &&& forall|i: int|
        0 <= i < objects.len() && (#[trigger] objects[i]).kind is Image ==> assets.contains_key(
            objects[i].id,
        )
    &&& forall|id: u128| #[trigger] assets.contains_key(id) ==> has_image_id(objects, id)
}

/// Replacing objects by ones with the same ids and the same image-or-not
/// kinds keeps the store matching.
pub proof fn lemma_store_matches_same_shape(
    before: Seq<StackObject>,
    after: Seq<StackObject>,
    assets: Map<u128, RgbaImage>,
)
    requires
        store_matches_images(before, assets),
        after.len() == before.len(),
        forall|i: int|
            0 <= i < after.len() ==> (#[trigger] after[i]).id == before[i].id && (after[i].kind is Image
                == before[i].kind is Image),
    ensures
        store_matches_images(after, assets),
{
    assert forall|id: u128| #[trigger] assets.contains_key(id) implies has_image_id(after, id) by {
        let k = choose|k: int| 0 <= k < before.len() && (#[trigger] before[k]).id == id && before[k].kind is Image;
        assert(after[k].id == id);
    }
}

/// Pushing an object keeps the store matching when an image's pixels are
/// stored along with it (and nothing is stored for a crop).
pub proof fn lemma_store_matches_push(
    before: Seq<StackObject>,
    assets: Map<u128, RgbaImage>,
    o: StackObject,
    after_assets: Map<u128, RgbaImage>,
)
    requires
        store_matches_images(before, assets),
        o.kind is Image ==> after_assets == assets.insert(o.id, after_assets[o.id]),
        !(o.kind is Image) ==> after_assets == assets,
    ensures
        store_matches_images(before.push(o), after_assets),
{
    let after = before.push(o);
    assert forall|i: int| 0 <= i < after.len() && (#[trigger] after[i]).kind is Image implies after_assets.contains_key(
        after[i].id,
    ) by {
        if i < before.len() {
            assert(after[i] == before[i]);
        }
    }
    assert forall|id: u128| #[trigger] after_assets.contains_key(id) implies has_image_id(after, id) by {
        if o.kind is Image && id == o.id {
            assert(after[before.len() as int] == o);
        } else {
            assert(assets.contains_key(id));
            let k = choose|k: int| 0 <= k < before.len() && (#[trigger] before[k]).id == id && before[k].kind is Image;
            assert(after[k] == before[k]);
        }
    }
}

/// Removing object `k` keeps the store matching when its pixels go too,
/// unless another image object keeps that id.
pub proof fn lemma_store_matches_remove(
    before: Seq<StackObject>,
    assets: Map<u128, RgbaImage>,
    k: int,
    after_assets: Map<u128, RgbaImage>,
)
    requires
        store_matches_images(before, assets),
        0 <= k < before.len(),
        after_assets == if has_image_id(before.remove(k), before[k].id) {
            assets
        } else {
            assets.remove(before[k].id)
        },
    ensures
        store_matches_images(before.remove(k), after_assets),
{
    let after = before.remove(k);
    let id = before[k].id;
    assert forall|i: int| 0 <= i < after.len() && (#[trigger] after[i]).kind is Image implies after_assets.contains_key(
        after[i].id,
    ) by {
        let j = if i < k { i } else { i + 1 };
        assert(after[i] == before[j]);
        if after[i].id == id {
            assert(has_image_id(after, id));
        }
    }
    assert forall|key: u128| #[trigger] after_assets.contains_key(key) implies has_image_id(after, key) by {
        if key != id {
            let m = choose|m: int| 0 <= m < before.len() && (#[trigger] before[m]).id == key && before[m].kind is Image;
            if m < k {
                assert(after[m] == before[m]);
            } else {
                assert(m != k);
                assert(after[m - 1] == before[m]);
            }
        }
    }
}

/// `k` is the index of the first crop object.
pub open spec fn first_crop_at(objects: Seq<StackObject>, k: int) -> bool {
    &&& 0 <= k < objects.len()
    &&& objects[k].kind is Crop
    &&& forall|m: int| 0 <= m < k ==> !((#[trigger] objects[m]).kind is Crop)
}

pub open spec fn has_crop(objects: Seq<StackObject>) -> bool {
    exists|k: int| 0 <= k < objects.len() && (#[trigger] objects[k]).kind is Crop
}

/// `k` is the index of the first object with this id.
pub open spec fn first_with_id(objects: Seq<StackObject>, id: u128, k: int) -> bool {
    &&& 0 <= k < objects.len()
    &&& objects[k].id == id
    &&& forall|m: int| 0 <= m < k ==> (#[trigger] objects[m]).id != id
}

pub open spec fn has_id(objects: Seq<StackObject>, id: u128) -> bool {
    exists|k: int| 0 <= k < objects.len() && (#[trigger] objects[k]).id == id
}

/// The pixel (px, py) is inside the rectangle where the object's image is
/// drawn: a visible image object with pixels, at its rounded position.
pub open spec fn image_hit(o: StackObject, assets: Map<u128, RgbaImage>, px: int, py: int) -> bool {
    match o.kind {
        ObjectKind::Image(d) => {
            &&& o.visible
            &&& assets.contains_key(o.id)
            &&& round_to_i32(d.x) <= px < round_to_i32(d.x) + assets[o.id]@.width
            &&& round_to_i32(d.y) <= py < round_to_i32(d.y) + assets[o.id]@.height
        },
        ObjectKind::Crop(_) => false,
    }
}

/// Object `k` is the topmost one whose image covers pixel (px, py).
pub open spec fn topmost_hit(objects: Seq<StackObject>, assets: Map<u128, RgbaImage>, px: int, py: int, k: int) -> bool {
    &&& 0 <= k < objects.len()
    &&& image_hit(objects[k], assets, px, py)
    &&& forall|m: int| k < m < objects.len() ==> !image_hit(#[trigger] objects[m], assets, px, py)
}

/// The degenerate crop a new crop object starts with: (0, 0, 1, 1).
pub open spec fn initial_crop() -> CropData {
    CropData { x: F32_ZERO, y: F32_ZERO, width: F32_ONE, height: F32_ONE }
}

impl IrisApp {
    /// The pixel store holds pixels exactly for the stack's image objects.
    pub open spec fn wf(&self) -> bool {
        store_matches_images(self.document.objects@, self.pasted_images@)
    }

    /// `self` and `other` agree on everything but the stack and the
    /// selection.
    pub open spec fn same_but_stack(&self, other: &Self) -> bool {
        &&& other.document.id == self.document.id
        &&& other.document.name == self.document.name
        &&& other.document.canvas_size == self.document.canvas_size
        &&& other.document.base_asset_path == self.document.base_asset_path
        &&& other.base_image == self.base_image
        &&& other.pasted_images@ == self.pasted_images@
        &&& other.active_tool == self.active_tool
        &&& other.crop_drag == self.crop_drag
        &&& other.move_drag == self.move_drag
        &&& other.status == self.status
    }

    /// What `ensure_crop_object` does, going from `self` to `after` and
    /// returning `id`: with a crop object in the stack, nothing changes and
    /// the first crop's id comes back; without one, a degenerate crop named
    /// "Crop" is pushed, selected, and its id comes back.
    pub open spec fn ensure_crop_post(&self, after: &Self, id: u128) -> bool {
        if has_crop(self.document.objects@) {
            &&& *after == *self
            &&& exists|k: int| first_crop_at(self.document.objects@, k) && self.document.objects@[k].id == id
        } else {
            &&& self.same_but_stack(after)
            &&& after.document.objects@.len() == self.document.objects@.len() + 1
            &&& after.document.objects@.drop_last() == self.document.objects@
            &&& after.document.objects@.last().id == id
            &&& after.document.objects@.last().name@ == "Crop"@
            &&& after.document.objects@.last().visible
            &&& after.document.objects@.last().kind == ObjectKind::Crop(initial_crop())
            &&& after.selected_object == Some(id)
        }
    }

    /// What `paste_image` does, going from `self` to `after`.
    pub open spec fn paste_post(
        &self,
        after: &Self,
        width: u32,
        height: u32,
        bytes: Seq<u8>,
        x: u32,
        y: u32,
        pasted: bool,
    ) -> bool {
        &&& pasted <==> 4 * width <= usize::MAX && 4 * width * height <= bytes.len()
        &&& pasted ==> {
            let o = after.document.objects@.last();
            &&& after.document.objects@.drop_last() == self.document.objects@
            &&& after.document.objects@.len() == self.document.objects@.len() + 1
            &&& o.name@ == "Pasted Image"@
            &&& o.visible
            &&& o.kind == ObjectKind::Image(ImageData { x, y })
            &&& after.pasted_images@.contains_key(o.id)
            &&& after.pasted_images@ == self.pasted_images@.insert(
                o.id,
                after.pasted_images@[o.id],
            )
            &&& after.pasted_images@[o.id]@.width == width
            &&& after.pasted_images@[o.id]@.height == height
            &&& after.pasted_images@[o.id]@.data == bytes.subrange(
                0,
                4 * width * height,
            )
            &&& after.selected_object == Some(o.id)
            &&& after.status matches Some(s) && s@ == "Pasted image"@
        }
        &&& !pasted ==> {
            &&& after.document == self.document
            &&& after.pasted_images@ == self.pasted_images@
            &&& after.selected_object == self.selected_object
            &&& after.status matches Some(s) && s@
                == "Clipboard image had an unexpected size"@
        }
        &&& after.document.id == self.document.id
        &&& after.document.name == self.document.name
        &&& after.document.canvas_size == self.document.canvas_size
        &&& after.document.base_asset_path == self.document.base_asset_path
        &&& after.base_image == self.base_image
        &&& after.active_tool == self.active_tool
        &&& after.crop_drag == self.crop_drag
        &&& after.move_drag == self.move_drag
    }

    /// What `delete_selected` does, going from `self` to `after`.
    pub open spec fn delete_post(&self, after: &Self, deleted: bool) -> bool {
        &&& deleted <==> (self.selected_object matches Some(id) && has_id(self.document.objects@, id))
        &&& !deleted ==> *after == *self
        &&& deleted ==> exists|k: int| #![trigger self.document.objects@.remove(k)] {
            let id = self.selected_object->0;
            &&& first_with_id(self.document.objects@, id, k)
            &&& after.document.objects@ == self.document.objects@.remove(k)
            &&& after.pasted_images@ == if has_image_id(after.document.objects@, id) {
                self.pasted_images@
            } else {
                self.pasted_images@.remove(id)
            }
            &&& after.selected_object is None
            &&& after.crop_drag == if self.crop_drag matches Some(d) && d.object_id == id {
                None
            } else {
                self.crop_drag
            }
            &&& after.move_drag == if self.move_drag matches Some(d) && d.object_id == id {
                None
            } else {
                self.move_drag
            }
        }
        &&& after.document.id == self.document.id
        &&& after.document.name == self.document.name
        &&& after.document.canvas_size == self.document.canvas_size
        &&& after.document.base_asset_path == self.document.base_asset_path
        &&& after.base_image == self.base_image
        &&& after.active_tool == self.active_tool
        &&& after.status == self.status
    }

    /// A new editor on an 800 x 600 transparent placeholder canvas, until
    /// an asset is opened or pasted.
    pub fn new() -> (app: Self)
        ensures
            app.wf(),
            app.document.name@ == "Untitled"@,
            app.document.canvas_size == (800u32, 600u32),
            app.document.base_asset_path is None,
            app.document.objects@.len() == 0,
            app.base_image@.width == 800,
            app.base_image@.height == 600,
            app.base_image@.data == Seq::new(4 * 800 * 600, |i: int| 0u8),
            app.pasted_images@ == Map::<u128, RgbaImage>::empty(),
            app.selected_object is None,
            app.active_tool == Tool::Select,
            app.crop_drag is None,
            app.move_drag is None,
            app.status is None,
    {
        let base_image = RgbaImage::from_pixel(800, 600, [0u8, 0u8, 0u8, 0u8]);
        let document = Document::new("Untitled", base_image.width(), base_image.height());
        assert(base_image@.data =~= Seq::new(4 * 800 * 600, |i: int| 0u8));
        IrisApp {
            document,
            base_image,
            pasted_images: HashMap::new(),
            selected_object: None,
            active_tool: Tool::Select,
            crop_drag: None,
            move_drag: None,
            status: None,
        }
    }

    /// Shows `message` as the status.
    pub fn set_status(&mut self, message: &str)
        ensures
            old(self).wf() ==> final(self).wf(),
            final(self).status matches Some(s) && s@ == message@,
            final(self).document == old(self).document,
            final(self).base_image == old(self).base_image,
            final(self).pasted_images@ == old(self).pasted_images@,
            final(self).selected_object == old(self).selected_object,
            final(self).active_tool == old(self).active_tool,
            final(self).crop_drag == old(self).crop_drag,
            final(self).move_drag == old(self).move_drag,
    {
        self.status = Some(message.to_owned());
    }

    /// Whether the canvas view clips to the crop: not while the crop tool
    /// is active, so the rectangle can be grown back out.
    pub fn preview_applies_crop(&self) -> (apply: bool)
        ensures
            apply == (self.active_tool != Tool::Crop),
    {
        self.active_tool != Tool::Crop
    }

    /// The composite of the document, clipped when `apply_crop`; `None`
    /// exactly when compositing these inputs cannot run to the end.
    pub fn render(&self, apply_crop: bool) -> (out: Option<Pixmap>)
        ensures
            out is Some <==> composite_defined(
                self.document.objects@,
                self.base_image@,
                self.pasted_images@,
                apply_crop,
            ),
            out matches Some(p) ==> layer_of(p) == composite_layer(
                self.document.objects@,
                self.base_image@,
                self.pasted_images@,
                apply_crop,
            ),
    {
        if composite_supported(&self.document, &self.base_image, &self.pasted_images, apply_crop) {
            Some(composite(&self.document, &self.base_image, &self.pasted_images, apply_crop))
        } else {
            None
        }
    }

    /// Replaces the document with a fresh one for a newly opened base
    /// image, named after the file's stem as `Path::file_stem` gives it
    /// (else "Untitled"); pasted images, the selection and any crop drag
    /// are dropped. What the stem is of a given path is the platform's to
    /// say, so the name is stated only for a missing path; `open_document`
    /// states the rest for a given stem.
    pub fn load_base_image(&mut self, image: RgbaImage, path: Option<PathBuf>)
        ensures
            old(self).wf() ==> final(self).wf(),
            path is None ==> final(self).document.name@ == "Untitled"@,
            final(self).document.canvas_size == (image@.width, image@.height),
            final(self).document.base_asset_path == path,
            final(self).document.objects@.len() == 0,
            final(self).base_image == image,
            final(self).pasted_images@ == Map::<u128, RgbaImage>::empty(),
            final(self).selected_object is None,
            final(self).crop_drag is None,
            final(self).move_drag is None,
            final(self).active_tool == old(self).active_tool,
            final(self).status matches Some(s) && s@ == "Opened image"@,
    {
        let stem: Option<String> = match &path {
            Some(p) => file_stem_text(p),
            None => None,
        };
        match stem {
            Some(s) => self.open_document(image, path, Some(s.as_str())),
            None => self.open_document(image, path, None),
        }
    }

    /// Replaces the document with a fresh one for a newly opened base
    /// image, named `stem` (else "Untitled"); pasted images, the selection
    /// and any crop drag are dropped.
    pub fn open_document(&mut self, image: RgbaImage, path: Option<PathBuf>, stem: Option<&str>)
        ensures
            old(self).wf() ==> final(self).wf(),
            final(self).document.name@ == match stem {
                Some(s) => s@,
                None => "Untitled"@,
            },
            final(self).document.canvas_size == (image@.width, image@.height),
            final(self).document.base_asset_path == path,
            final(self).document.objects@.len() == 0,
            final(self).base_image == image,
            final(self).pasted_images@ == Map::<u128, RgbaImage>::empty(),
            final(self).selected_object is None,
            final(self).crop_drag is None,
            final(self).move_drag is None,
            final(self).active_tool == old(self).active_tool,
            final(self).status matches Some(s) && s@ == "Opened image"@,
    {
        let name: &str = match stem {
            Some(s) => s,
            None => "Untitled",
        };
        let mut document = Document::new(name, image.width(), image.height());
        document.base_asset_path = path;
        self.document = document;
        self.base_image = image;
        self.pasted_images.clear();
        self.selected_object = None;
        self.crop_drag = None;
        self.move_drag = None;
        self.status = Some("Opened image".to_owned());
    }

    /// Pastes a `width` x `height` RGBA image from `bytes` as a new visible
    /// image object "Pasted Image" at (x, y) on top of the stack, stores
    /// its pixels under the object's id and selects it. Fails, with a
    /// status saying so, when `bytes` are too few for that size.
    pub fn paste_image(&mut self, width: u32, height: u32, bytes: Vec<u8>, x: u32, y: u32) -> (pasted: bool)
        ensures
            old(self).wf() ==> final(self).wf(),
            old(self).paste_post(final(self), width, height, bytes@, x, y, pasted),
    {
        let pixels = match RgbaImage::from_raw(width, height, bytes) {
            Some(p) => p,
            None => {
                self.status = Some("Clipboard image had an unexpected size".to_owned());
                return false;
            },
        };
        let object = StackObject::new("Pasted Image", ObjectKind::Image(ImageData { x, y }));
        let id: u128 = object.id;
        self.pasted_images.insert(id, pixels);
        self.selected_object = Some(id);
        self.document.objects.push(object);
        self.status = Some("Pasted image".to_owned());
        proof {
            let objects = self.document.objects@;
            assert(objects.drop_last() =~= old(self).document.objects@);
            assert(self.pasted_images@ =~= old(self).pasted_images@.insert(id, self.pasted_images@[id]));
            if old(self).wf() {
                lemma_store_matches_push(
                    old(self).document.objects@,
                    old(self).pasted_images@,
                    objects.last(),
                    self.pasted_images@,
                );
                assert(old(self).document.objects@.push(objects.last()) =~= objects);
            }
        }
        true
    }

    /// Index of the first crop object, if any.
    fn find_first_crop(&self) -> (r: Option<usize>)
        ensures
            match r {
                Some(k) => first_crop_at(self.document.objects@, k as int),
                None => !has_crop(self.document.objects@),
            },
    {
        let objects = &self.document.objects;
        let mut i: usize = 0;
        while i < objects.len()
            invariant
                i <= objects@.len(),
                objects@ == self.document.objects@,
                forall|m: int| 0 <= m < i ==> !((#[trigger] objects@[m]).kind is Crop),
            decreases objects@.len() - i,
        {
            match &objects[i].kind {
                ObjectKind::Crop(_) => {
                    return Some(i);
                },
                ObjectKind::Image(_) => {},
            }
            i += 1;
        }
        None
    }

    /// Index of the first object with this id, if any.
    pub fn find_object(&self, id: u128) -> (r: Option<usize>)
        ensures
            match r {
                Some(k) => first_with_id(self.document.objects@, id, k as int),
                None => !has_id(self.document.objects@, id),
            },
    {
        let objects = &self.document.objects;
        let mut i: usize = 0;
        while i < objects.len()
            invariant
                i <= objects@.len(),
                objects@ == self.document.objects@,
                forall|m: int| 0 <= m < i ==> (#[trigger] objects@[m]).id != id,
            decreases objects@.len() - i,
        {
            if objects[i].id == id {
                return Some(i);
            }
            i += 1;
        }
        None
    }

    /// The id of the document's crop object (the first one), creating a
    /// degenerate one, selected, if there is none yet.
    pub fn ensure_crop_object(&mut self) -> (id: u128)
        ensures
            old(self).wf() ==> final(self).wf(),
            old(self).ensure_crop_post(final(self), id),
    {
        match self.find_first_crop() {
            Some(k) => {
                return self.document.objects[k].id;
            },
            None => {},
        }
        let object = StackObject::new("Crop", ObjectKind::Crop(CropData {
            x: F32_ZERO,
            y: F32_ZERO,
            width: F32_ONE,
            height: F32_ONE,
        }));
        let id: u128 = object.id;
        self.selected_object = Some(id);
        self.document.objects.push(object);
        proof {
            let objects = self.document.objects@;
            assert(objects.drop_last() =~= old(self).document.objects@);
            if old(self).wf() {
                lemma_store_matches_push(
                    old(self).document.objects@,
                    old(self).pasted_images@,
                    objects.last(),
                    self.pasted_images@,
                );
                assert(old(self).document.objects@.push(objects.last()) =~= objects);
            }
        }
        id
    }

    /// Sets the rectangle of the crop object with this id (the first object
    /// with the id, if it is a crop); anything else is left as is.
    pub fn set_crop_data(&mut self, id: u128, data: CropData)
        ensures
            old(self).wf() ==> final(self).wf(),
            old(self).same_but_stack(final(self)),
            final(self).selected_object == old(self).selected_object,
            final(self).document.objects@.len() == old(self).document.objects@.len(),
            forall|k: int|
                first_with_id(old(self).document.objects@, id, k) && old(self).document.objects@[k].kind is Crop
                    ==> final(self).document.objects@ == old(self).document.objects@.update(
                    k,
                    StackObject { kind: ObjectKind::Crop(data), ..old(self).document.objects@[k] },
                ),
            (forall|k: int|
                first_with_id(old(self).document.objects@, id, k) ==> !(old(self).document.objects@[k].kind is Crop))
                ==> final(self).document.objects@ == old(self).document.objects@,
    {
        match self.find_object(id) {
            Some(k) => {
                match self.document.objects[k].kind {
                    ObjectKind::Crop(_) => {
                        self.set_kind_at(k, ObjectKind::Crop(data));
                    },
                    ObjectKind::Image(_) => {},
                }
            },
            None => {},
        }
    }

    /// Sets the position of the image object with this id (the first object
    /// with the id, if it is an image); anything else is left as is.
    pub fn set_image_data(&mut self, id: u128, data: ImageData)
        ensures
            old(self).wf() ==> final(self).wf(),
            old(self).same_but_stack(final(self)),
            final(self).selected_object == old(self).selected_object,
            final(self).document.objects@.len() == old(self).document.objects@.len(),
            forall|k: int|
                first_with_id(old(self).document.objects@, id, k) && old(self).document.objects@[k].kind is Image
                    ==> final(self).document.objects@ == old(self).document.objects@.update(
                    k,
                    StackObject { kind: ObjectKind::Image(data), ..old(self).document.objects@[k] },
                ),
            (forall|k: int|
                first_with_id(old(self).document.objects@, id, k) ==> !(old(self).document.objects@[k].kind is Image))
                ==> final(self).document.objects@ == old(self).document.objects@,
    {
        match self.find_object(id) {
            Some(k) => {
                match self.document.objects[k].kind {
                    ObjectKind::Image(_) => {
                        self.set_kind_at(k, ObjectKind::Image(data));
                    },
                    ObjectKind::Crop(_) => {},
                }
            },
            None => {},
        }
    }

    /// Replaces the kind of object `k` by one of the same variant.
    fn set_kind_at(&mut self, k: usize, kind: ObjectKind)
        requires
            k < old(self).document.objects@.len(),
            (old(self).document.objects@[k as int].kind is Crop) == (kind is Crop),
        ensures
            old(self).wf() ==> final(self).wf(),
            old(self).same_but_stack(final(self)),
            final(self).selected_object == old(self).selected_object,
            final(self).document.objects@ == old(self).document.objects@.update(
                k as int,
                StackObject { kind, ..old(self).document.objects@[k as int] },
            ),
    {
        let mut object = self.document.objects.remove(k);
        object.kind = kind;
        self.document.objects.insert(k, object);
        proof {
            let objects = self.document.objects@;
            assert(objects =~= old(self).document.objects@.update(
                k as int,
                StackObject { kind, ..old(self).document.objects@[k as int] },
            ));
            if old(self).wf() {
                lemma_store_matches_same_shape(old(self).document.objects@, objects, self.pasted_images@);
            }
        }
    }

    /// Shows or hides object `index` of the stack (no change when out of
    /// range).
    pub fn toggle_visibility(&mut self, index: usize)
        ensures
            old(self).wf() ==> final(self).wf(),
            old(self).same_but_stack(final(self)),
            final(self).selected_object == old(self).selected_object,
            index < old(self).document.objects@.len() ==> final(self).document.objects@
                == old(self).document.objects@.update(
                index as int,
                StackObject {
                    visible: !old(self).document.objects@[index as int].visible,
                    ..old(self).document.objects@[index as int]
                },
            ),
            index >= old(self).document.objects@.len() ==> final(self).document.objects@
                == old(self).document.objects@,
    {
        if index < self.document.objects.len() {
            let mut object = self.document.objects.remove(index);
            object.visible = !object.visible;
            self.document.objects.insert(index, object);
            proof {
                let objects = self.document.objects@;
                assert(objects =~= old(self).document.objects@.update(
                    index as int,
                    StackObject {
                        visible: !old(self).document.objects@[index as int].visible,
                        ..old(self).document.objects@[index as int]
                    },
                ));
                if old(self).wf() {
                    lemma_store_matches_same_shape(old(self).document.objects@, objects, self.pasted_images@);
                }
            }
        }
    }

    /// Selects the object with this id.
    pub fn select_object(&mut self, id: u128)
        ensures
            old(self).wf() ==> final(self).wf(),
            old(self).same_but_stack(final(self)),
            final(self).document.objects@ == old(self).document.objects@,
            final(self).selected_object == Some(id),
    {
        self.selected_object = Some(id);
    }

    /// Makes `tool` the active tool.
    pub fn set_active_tool(&mut self, tool: Tool)
        ensures
            old(self).wf() ==> final(self).wf(),
            final(self).active_tool == tool,
            final(self).document == old(self).document,
            final(self).base_image == old(self).base_image,
            final(self).pasted_images@ == old(self).pasted_images@,
            final(self).selected_object == old(self).selected_object,
            final(self).crop_drag == old(self).crop_drag,
            final(self).move_drag == old(self).move_drag,
            final(self).status == old(self).status,
    {
        self.active_tool = tool;
    }

    /// Starts a crop drag at (start_x, start_y) on the document's crop
    /// object, creating that object if there is none yet.
    pub fn begin_crop_drag(&mut self, start_x: u32, start_y: u32) -> (id: u128)
        ensures
            old(self).wf() ==> final(self).wf(),
            ({
                let mid = IrisApp { crop_drag: old(self).crop_drag, ..*final(self) };
                old(self).ensure_crop_post(&mid, id)
            }),
            final(self).crop_drag == Some(CropDrag { object_id: id, start_x, start_y }),
    {
        let id: u128 = self.ensure_crop_object();
        let ghost mid = *self;
        self.crop_drag = Some(CropDrag { object_id: id, start_x, start_y });
        assert(IrisApp { crop_drag: old(self).crop_drag, ..*self } == mid);
        id
    }

    /// Ends any crop drag.
    pub fn end_crop_drag(&mut self)
        ensures
            old(self).wf() ==> final(self).wf(),
            final(self).crop_drag is None,
            final(self).document == old(self).document,
            final(self).base_image == old(self).base_image,
            final(self).pasted_images@ == old(self).pasted_images@,
            final(self).selected_object == old(self).selected_object,
            final(self).active_tool == old(self).active_tool,
            final(self).move_drag == old(self).move_drag,
            final(self).status == old(self).status,
    {
        self.crop_drag = None;
    }

    /// The rectangle of the crop that compositing applies, if any: the last
    /// visible crop with a valid rectangle (shown as the crop overlay while
    /// cropping).
    pub fn applied_crop_data(&self) -> (data: Option<CropData>)
        ensures
            match data {
                Some(d) => exists|k: int|
                    #![trigger self.document.objects@[k]]
                    0 <= k < self.document.objects@.len() && sets_crop(self.document.objects@[k])
                        && self.document.objects@[k].kind == ObjectKind::Crop(d) && forall|m: int|
                        k < m < self.document.objects@.len() ==> !sets_crop(
                            #[trigger] self.document.objects@[m],
                        ),
                None => forall|m: int|
                    0 <= m < self.document.objects@.len() ==> !sets_crop(#[trigger] self.document.objects@[m]),
            },
    {
        let objects = &self.document.objects;
        let mut found: Option<CropData> = None;
        let ghost mut at: int = -1;
        let mut i: usize = 0;
        while i < objects.len()
            invariant
                i <= objects@.len(),
                objects@ == self.document.objects@,
                match found {
                    Some(d) => 0 <= at < i && sets_crop(objects@[at]) && objects@[at].kind == ObjectKind::Crop(d)
                        && forall|m: int| at < m < i ==> !sets_crop(#[trigger] objects@[m]),
                    None => forall|m: int| 0 <= m < i ==> !sets_crop(#[trigger] objects@[m]),
                },
            decreases objects@.len() - i,
        {
            if objects[i].visible {
                match &objects[i].kind {
                    ObjectKind::Crop(d) => {
                        if crop_data_rect(d).is_some() {
                            found = Some(*d);
                            proof {
                                at = i as int;
                            }
                        }
                    },
                    ObjectKind::Image(_) => {},
                }
            }
            i += 1;
        }
        found
    }

    /// Index of the topmost visible image object whose image covers pixel
    /// (px, py), if any.
    pub fn object_at(&self, px: i64, py: i64) -> (r: Option<usize>)
        ensures
            match r {
                Some(k) => topmost_hit(self.document.objects@, self.pasted_images@, px as int, py as int, k as int),
                None => forall|m: int|
                    0 <= m < self.document.objects@.len() ==> !image_hit(
                        #[trigger] self.document.objects@[m],
                        self.pasted_images@,
                        px as int,
                        py as int,
                    ),
            },
    {
        let objects = &self.document.objects;
        let mut i: usize = objects.len();
        while i > 0
            invariant
                i <= objects@.len(),
                objects@ == self.document.objects@,
                forall|m: int| i <= m < objects@.len() ==> !image_hit(#[trigger] objects@[m], self.pasted_images@, px as int, py as int),
            decreases i,
        {
            i -= 1;
            let object = &objects[i];
            if object.visible {
                match &object.kind {
                    ObjectKind::Image(data) => {
                        match self.pasted_images.get(&object.id) {
                            Some(pixels) => {
                                let x: i64 = round_to_i32_bits(data.x) as i64;
                                let y: i64 = round_to_i32_bits(data.y) as i64;
                                if x <= px && px < x + pixels.width() as i64 && y <= py && py < y
                                    + pixels.height() as i64 {
                                    return Some(i);
                                }
                            },
                            None => {},
                        }
                    },
                    ObjectKind::Crop(_) => {},
                }
            }
        }
        None
    }

    /// Selects the topmost image object under pixel (px, py), or nothing
    /// when there is none (a click on the canvas with the select tool).
    pub fn select_at(&mut self, px: i64, py: i64)
        ensures
            old(self).wf() ==> final(self).wf(),
            old(self).same_but_stack(final(self)),
            final(self).document.objects@ == old(self).document.objects@,
            match final(self).selected_object {
                Some(id) => exists|k: int|
                    topmost_hit(old(self).document.objects@, old(self).pasted_images@, px as int, py as int, k)
                        && old(self).document.objects@[k].id == id,
                None => forall|m: int|
                    0 <= m < old(self).document.objects@.len() ==> !image_hit(
                        #[trigger] old(self).document.objects@[m],
                        old(self).pasted_images@,
                        px as int,
                        py as int,
                    ),
            },
    {
        self.selected_object = match self.object_at(px, py) {
            Some(k) => Some(self.document.objects[k].id),
            None => None,
        };
    }

    /// Starts moving the topmost image object under pixel (px, py), which
    /// becomes the selection, from where it is now and from the pointer at
    /// (start_x, start_y). With no image under the pixel, the selection and
    /// any move are dropped and `false` comes back.
    pub fn begin_move_drag(&mut self, px: i64, py: i64, start_x: u32, start_y: u32) -> (started: bool)
        ensures
            old(self).wf() ==> final(self).wf(),
            final(self).document == old(self).document,
            final(self).base_image == old(self).base_image,
            final(self).pasted_images@ == old(self).pasted_images@,
            final(self).active_tool == old(self).active_tool,
            final(self).crop_drag == old(self).crop_drag,
            final(self).status == old(self).status,
            started <==> exists|k: int| topmost_hit(old(self).document.objects@, old(self).pasted_images@, px as int, py as int, k),
            started ==> exists|k: int|
                topmost_hit(old(self).document.objects@, old(self).pasted_images@, px as int, py as int, k) && {
                    let o = old(self).document.objects@[k];
                    &&& final(self).selected_object == Some(o.id)
                    &&& o.kind matches ObjectKind::Image(d) && final(self).move_drag == Some(
                        MoveDrag { object_id: o.id, origin: d, start_x, start_y },
                    )
                },
            !started ==> final(self).selected_object is None && final(self).move_drag is None,
    {
        match self.object_at(px, py) {
            Some(k) => {
                let id: u128 = self.document.objects[k].id;
                match self.document.objects[k].kind {
                    ObjectKind::Image(origin) => {
                        self.selected_object = Some(id);
                        self.move_drag = Some(MoveDrag { object_id: id, origin, start_x, start_y });
                        true
                    },
                    ObjectKind::Crop(_) => {
                        self.selected_object = None;
                        self.move_drag = None;
                        false
                    },
                }
            },
            None => {
                self.selected_object = None;
                self.move_drag = None;
                false
            },
        }
    }

    /// Ends any move drag.
    pub fn end_move_drag(&mut self)
        ensures
            old(self).wf() ==> final(self).wf(),
            final(self).move_drag is None,
            final(self).document == old(self).document,
            final(self).base_image == old(self).base_image,
            final(self).pasted_images@ == old(self).pasted_images@,
            final(self).selected_object == old(self).selected_object,
            final(self).active_tool == old(self).active_tool,
            final(self).crop_drag == old(self).crop_drag,
            final(self).status == old(self).status,
    {
        self.move_drag = None;
    }

    /// The pixels of the selected object, when it is an image (what copy
    /// and cut act on instead of the whole composite).
    pub fn selected_image(&self) -> (image: Option<&RgbaImage>)
        ensures
            match image {
                Some(img) => exists|k: int| #![trigger self.document.objects@[k]] {
                    &&& self.selected_object == Some(self.document.objects@[k].id)
                    &&& first_with_id(self.document.objects@, self.document.objects@[k].id, k)
                    &&& self.document.objects@[k].kind is Image
                    &&& *img == self.pasted_images@[self.document.objects@[k].id]
                },
                None => match self.selected_object {
                    Some(id) => forall|k: int|
                        first_with_id(self.document.objects@, id, k) ==> !(self.document.objects@[k].kind is Image
                            && self.pasted_images@.contains_key(id)),
                    None => true,
                },
            },
    {
        match self.selected_object {
            Some(id) => match self.find_object(id) {
                Some(k) => match self.document.objects[k].kind {
                    ObjectKind::Image(_) => {
                        assert(self.document.objects@[k as int].kind is Image);
                        self.pasted_images.get(&id)
                    },
                    ObjectKind::Crop(_) => None,
                },
                None => None,
            },
            None => None,
        }
    }

    /// Whether some image object in the stack has this id.
    fn has_image_object(&self, id: u128) -> (r: bool)
        ensures
            r == has_image_id(self.document.objects@, id),
    {
        let objects = &self.document.objects;
        let mut i: usize = 0;
        while i < objects.len()
            invariant
                i <= objects@.len(),
                objects@ == self.document.objects@,
                forall|m: int| 0 <= m < i ==> !((#[trigger] objects@[m]).id == id && objects@[m].kind is Image),
            decreases objects@.len() - i,
        {
            if objects[i].id == id {
                match objects[i].kind {
                    ObjectKind::Image(_) => {
                        return true;
                    },
                    ObjectKind::Crop(_) => {},
                }
            }
            i += 1;
        }
        false
    }

    /// Deletes the selected object from the stack (the first with its id),
    /// dropping its pixels when no image object with that id is left, clearing
    /// the selection and any drag on it. `false`, with nothing changed,
    /// when no object is selected.
    pub fn delete_selected(&mut self) -> (deleted: bool)
        ensures
            old(self).wf() ==> final(self).wf(),
            old(self).delete_post(final(self), deleted),
    {
        let id: u128 = match self.selected_object {
            Some(id) => id,
            None => {
                return false;
            },
        };
        let k: usize = match self.find_object(id) {
            Some(k) => k,
            None => {
                return false;
            },
        };
        let _removed = self.document.objects.remove(k);
        if !self.has_image_object(id) {
            self.pasted_images.remove(&id);
        }
        self.selected_object = None;
        match self.crop_drag {
            Some(d) => {
                if d.object_id == id {
                    self.crop_drag = None;
                }
            },
            None => {},
        }
        match self.move_drag {
            Some(d) => {
                if d.object_id == id {
                    self.move_drag = None;
                }
            },
            None => {},
        }
        proof {
            let objects = self.document.objects@;
            let old_objects = old(self).document.objects@;
            assert(objects =~= old_objects.remove(k as int));
            if old(self).wf() {
                lemma_store_matches_remove(old_objects, old(self).pasted_images@, k as int, self.pasted_images@);
            }
        }
        true
    }
}

/// There is only one first crop object.
pub proof fn lemma_first_crop_unique(objects: Seq<StackObject>, j: int, k: int)
    requires
        first_crop_at(objects, j),
        first_crop_at(objects, k),
    ensures
        j == k,
{
    if j < k {
        assert(!(objects[j].kind is Crop));
    } else if k < j {
        assert(!(objects[k].kind is Crop));
    }
}

/// Ensuring the crop object twice is the same as once: the second call
/// changes nothing and hands back the same id.
pub proof fn lemma_ensure_crop_object_idempotent(
    before: IrisApp,
    once: IrisApp,
    id: u128,
    twice: IrisApp,
    id2: u128,
)
    requires
        before.ensure_crop_post(&once, id),
        once.ensure_crop_post(&twice, id2),
    ensures
        twice == once,
        id2 == id,
{
    let objects = once.document.objects@;
    if has_crop(before.document.objects@) {
        let j = choose|j: int| first_crop_at(before.document.objects@, j) && before.document.objects@[j].id == id;
        let k = choose|k: int| first_crop_at(objects, k) && objects[k].id == id2;
        lemma_first_crop_unique(objects, j, k);
    } else {
        let last = objects.len() - 1;
        assert(objects[last].kind is Crop);
        assert forall|m: int| 0 <= m < last implies !((#[trigger] objects[m]).kind is Crop) by {
            assert(objects[m] == before.document.objects@[m]);
        }
        assert(first_crop_at(objects, last));
        assert(has_crop(objects));
        let k = choose|k: int| first_crop_at(objects, k) && objects[k].id == id2;
        lemma_first_crop_unique(objects, last, k);
    }
}

/// Pasting an image and then deleting the selection (the pasted object)
/// gives back the stack and the pixel store as they were, when the pasted
/// object's fresh id was not in use.
pub proof fn lemma_paste_then_delete_restores(
    start: IrisApp,
    pasted: IrisApp,
    width: u32,
    height: u32,
    bytes: Seq<u8>,
    x: u32,
    y: u32,
    deleted: IrisApp,
    removed: bool,
)
    requires
        start.paste_post(&pasted, width, height, bytes, x, y, true),
        pasted.delete_post(&deleted, removed),
        !has_id(start.document.objects@, pasted.document.objects@.last().id),
        !start.pasted_images@.contains_key(pasted.document.objects@.last().id),
    ensures
        removed,
        deleted.document.objects@ == start.document.objects@,
        deleted.pasted_images@ == start.pasted_images@,
        deleted.selected_object is None,
{
    let objects = pasted.document.objects@;
    let last = objects.len() - 1;
    let id = objects[last].id;
    assert forall|m: int| 0 <= m < last implies (#[trigger] objects[m]).id != id by {
        assert(objects[m] == start.document.objects@[m]);
    }
    assert(first_with_id(objects, id, last));
    assert(has_id(objects, id));
    let k = choose|k: int| #![trigger pasted.document.objects@.remove(k)] {
        &&& first_with_id(objects, id, k)
        &&& deleted.document.objects@ == objects.remove(k)
        &&& deleted.pasted_images@ == if has_image_id(deleted.document.objects@, id) {
            pasted.pasted_images@
        } else {
            pasted.pasted_images@.remove(id)
        }
        &&& deleted.selected_object is None
        &&& deleted.crop_drag == if pasted.crop_drag matches Some(d) && d.object_id == id {
            None
        } else {
            pasted.crop_drag
        }
        &&& deleted.move_drag == if pasted.move_drag matches Some(d) && d.object_id == id {
            None
        } else {
            pasted.move_drag
        }
    };
    assert(k == last);
    assert(objects.remove(last) =~= start.document.objects@);
    assert(!has_image_id(start.document.objects@, id));
    assert(deleted.pasted_images@ =~= start.pasted_images@);
}

/// No two objects of the stack share an id.
pub open spec fn ids_distinct(objects: Seq<StackObject>) -> bool {
    forall|a: int, b: int| 0 <= a < b < objects.len() ==> (#[trigger] objects[a]).id != (#[trigger] objects[b]).id
}

/// Changing one object but not its id keeps the ids distinct.
pub proof fn lemma_update_keeps_ids_distinct(objects: Seq<StackObject>, k: int, o: StackObject)
    requires
        ids_distinct(objects),
        0 <= k < objects.len(),
        o.id == objects[k].id,
    ensures
        ids_distinct(objects.update(k, o)),
{
    let after = objects.update(k, o);
    assert forall|a: int, b: int| 0 <= a < b < after.len() implies (#[trigger] after[a]).id != (
    #[trigger] after[b]).id by {
        assert(after[a].id == objects[a].id);
        assert(after[b].id == objects[b].id);
    }
}

/// Removing an object keeps the ids distinct.
pub proof fn lemma_remove_keeps_ids_distinct(objects: Seq<StackObject>, k: int)
    requires
        ids_distinct(objects),
        0 <= k < objects.len(),
    ensures
        ids_distinct(objects.remove(k)),
{
    let after = objects.remove(k);
    assert forall|a: int, b: int| 0 <= a < b < after.len() implies (#[trigger] after[a]).id != (
    #[trigger] after[b]).id by {
        let a0 = if a < k { a } else { a + 1 };
        let b0 = if b < k { b } else { b + 1 };
        assert(after[a] == objects[a0]);
        assert(after[b] == objects[b0]);
    }
}

/// Pushing an object whose id is not in the stack keeps the ids distinct.
pub proof fn lemma_push_keeps_ids_distinct(objects: Seq<StackObject>, o: StackObject)
    requires
        ids_distinct(objects),
        !has_id(objects, o.id),
    ensures
        ids_distinct(objects.push(o)),
{
    let after = objects.push(o);
    assert forall|a: int, b: int| 0 <= a < b < after.len() implies (#[trigger] after[a]).id != (
    #[trigger] after[b]).id by {
        assert(after[a] == objects[a]);
        if b == objects.len() {
            assert(after[b] == o);
        } else {
            assert(after[b] == objects[b]);
        }
    }
}

/// Pasting keeps the stack's ids distinct when the pasted object's fresh
/// id was not in use; the pixel store then still matches the image objects
/// (see `paste_image`).
pub proof fn lemma_paste_keeps_ids_distinct(
    start: IrisApp,
    pasted: IrisApp,
    width: u32,
    height: u32,
    bytes: Seq<u8>,
    x: u32,
    y: u32,
    ok: bool,
)
    requires
        start.paste_post(&pasted, width, height, bytes, x, y, ok),
        ids_distinct(start.document.objects@),
        ok ==> !has_id(start.document.objects@, pasted.document.objects@.last().id),
    ensures
        ids_distinct(pasted.document.objects@),
{
    if ok {
        let after = pasted.document.objects@;
        assert(after =~= start.document.objects@.push(after.last()));
        lemma_push_keeps_ids_distinct(start.document.objects@, after.last());
    }
}

/// Adding the crop object keeps the stack's ids distinct when its fresh id
/// was not in use.
pub proof fn lemma_ensure_crop_keeps_ids_distinct(start: IrisApp, after: IrisApp, id: u128)
    requires
        start.ensure_crop_post(&after, id),
        ids_distinct(start.document.objects@),
        !has_crop(start.document.objects@) ==> !has_id(start.document.objects@, id),
    ensures
        ids_distinct(after.document.objects@),
{
    if !has_crop(start.document.objects@) {
        let objects = after.document.objects@;
        assert(objects =~= start.document.objects@.push(objects.last()));
        lemma_push_keeps_ids_distinct(start.document.objects@, objects.last());
    }
}

/// Deleting the selection keeps the stack's ids distinct.
pub proof fn lemma_delete_keeps_ids_distinct(start: IrisApp, after: IrisApp, deleted: bool)
    requires
        start.delete_post(&after, deleted),
        ids_distinct(start.document.objects@),
    ensures
        ids_distinct(after.document.objects@),
{
    if deleted {
        let k = choose|k: int|
            first_with_id(start.document.objects@, start.selected_object->0, k)
                && after.document.objects@ == #[trigger] start.document.objects@.remove(k);
        lemma_remove_keeps_ids_distinct(start.document.objects@, k);
    }
}

/// The hit box of an image object is exactly what compositing draws of
/// it: a visible image whose pixels can become a pixmap is hit at a pixel
/// exactly when its layer covers that pixel, the full width x height of
/// its pixels at its position rounded.
pub proof fn lemma_hit_is_what_is_drawn(o: StackObject, assets: Map<u128, RgbaImage>, px: int, py: int)
    requires
        o.kind is Image,
        o.visible,
        assets.contains_key(o.id),
        pixmap_size_ok(assets[o.id]@.width, assets[o.id]@.height),
    ensures
        image_hit(o, assets, px, py) <==> covers(o, assets, px, py),
{
}

/// Every visible image with pixels can become a pixmap.
pub open spec fn images_drawable(objects: Seq<StackObject>, assets: Map<u128, RgbaImage>) -> bool {
    forall|m: int|
        0 <= m < objects.len() && (#[trigger] objects[m]).kind is Image && objects[m].visible
            && assets.contains_key(objects[m].id) ==> pixmap_size_ok(
            assets[objects[m].id]@.width,
            assets[objects[m].id]@.height,
        )
}

/// The object the pointer hits is the topmost image the user sees there:
/// when every visible image with pixels is drawable, object `k` is the
/// topmost hit at (px, py) exactly when it is the topmost object whose
/// layer covers that canvas pixel.
pub proof fn lemma_topmost_hit_is_top_cover(
    objects: Seq<StackObject>,
    assets: Map<u128, RgbaImage>,
    px: int,
    py: int,
    k: int,
)
    requires
        images_drawable(objects, assets),
    ensures
        topmost_hit(objects, assets, px, py, k) <==> top_cover(objects, assets, px, py) == Some(k),
    decreases objects.len(),
{
    if objects.len() > 0 {
        let n = objects.len() - 1;
        let rest = objects.drop_last();
        let o = objects[n];
        assert(image_hit(o, assets, px, py) <==> covers(o, assets, px, py));
        assert forall|m: int| 0 <= m < rest.len() implies (image_hit(#[trigger] rest[m], assets, px, py) <==> covers(
            rest[m],
            assets,
            px,
            py,
        )) by {
            assert(rest[m] == objects[m]);
        }
        assert forall|m: int|
            0 <= m < rest.len() && (#[trigger] rest[m]).kind is Image && rest[m].visible && assets.contains_key(
                rest[m].id,
            ) implies pixmap_size_ok(assets[rest[m].id]@.width, assets[rest[m].id]@.height) by {
            assert(rest[m] == objects[m]);
        }
        lemma_topmost_hit_is_top_cover(rest, assets, px, py, k);
        if !image_hit(o, assets, px, py) {
            if topmost_hit(rest, assets, px, py, k) {
                assert(rest[k] == objects[k]);
                assert forall|m: int| k < m < objects.len() implies !image_hit(#[trigger] objects[m], assets, px, py) by {
                    if m < n {
                        assert(rest[m] == objects[m]);
                    }
                }
            }
            if topmost_hit(objects, assets, px, py, k) {
                assert(k != n);
                assert(rest[k] == objects[k]);
                assert forall|m: int| k < m < rest.len() implies !image_hit(#[trigger] rest[m], assets, px, py) by {
                    assert(rest[m] == objects[m]);
                }
            }
        }
    }
}

} // verus!
