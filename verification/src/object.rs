//! Object stack kinds.
use vstd::prelude::*;

verus! {

/// Non-destructive crop: the rectangle (in base-asset pixel space) that the
/// composite is clipped to. The last visible `Crop` in the stack wins.
///
/// Each coordinate is the bit pattern of an `f32` (see `coord`).
#[derive(Clone, Copy, Debug, PartialEq, Eq, Structural)]
pub struct CropData {
    pub x: u32,
    pub y: u32,
    pub width: u32,
    pub height: u32,
}

/// A pasted image, placed on top of the stack below it. Its pixels live in
/// the editor's asset store, keyed by the owning object's id.
///
/// Each coordinate is the bit pattern of an `f32` (see `coord`).
#[derive(Clone, Copy, Debug, PartialEq, Eq, Structural)]
pub struct ImageData {
    pub x: u32,
    pub y: u32,
}

/// Built-in object kinds.
#[derive(Clone, Copy, Debug, PartialEq, Eq, Structural)]
pub enum ObjectKind {
    Crop(CropData),
    Image(ImageData),
}

/// A single entry in the document's ordered object stack.
///
/// The id is the 128-bit value of a random (version 4) UUID.
#[derive(Clone, Debug)]
pub struct StackObject {
    pub id: u128,
    pub name: String,
    pub visible: bool,
    pub kind: ObjectKind,
}

/// Calls `uuid::Uuid::new_v4` and hands back the UUID's 128-bit value.
/// The value is random: nothing is promised of it.
#[verifier::external_body]
pub(crate) fn new_object_id() -> u128 {
    uuid::Uuid::new_v4().as_u128()
}

impl StackObject {
    /// A new, visible object with a fresh random id.
    pub fn new(name: &str, kind: ObjectKind) -> (object: Self)
        ensures
            object.name@ == name@,
            object.visible,
            object.kind == kind,
    {
        StackObject { id: new_object_id(), name: name.to_owned(), visible: true, kind }
    }
}

} // verus!
