//! Extension point for future plugins (shapes, paint, eraser, text, ...).
//!
//! Not wired into the editor yet: the core only ships `Crop` and `Image`
//! (see `object::ObjectKind`). Once a second plugin-contributed kind is
//! needed, this trait grows a way to contribute object kinds, toolbar
//! entries and inspector UI without the core knowing each plugin.
use vstd::prelude::*;

verus! {

pub trait Plugin {
    fn name(&self) -> &str;
}

} // verus!
