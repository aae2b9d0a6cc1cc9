//! The document model: the base asset it references and the ordered stack
//! of non-destructive objects applied on top of it. Pixel data is held
//! separately, by the editor.
use vstd::prelude::*;
use std::path::PathBuf;
use crate::object::{new_object_id, StackObject};

verus! {

/// `std::path::PathBuf`, carried through the document unread.
#[verifier::external_type_specification]
#[verifier::external_body]
pub struct ExPathBuf(std::path::PathBuf);

/// Calls `Path::file_stem` on the path and takes the stem as text when it
/// is valid UTF-8 (`OsStr::to_str`), as an owned `String`. Nothing is
/// stated of the result: which part of a path is its file name depends on
/// how the target platform splits paths into components.
#[verifier::external_body]
pub(crate) fn file_stem_text(path: &PathBuf) -> Option<String> {
    match path.file_stem() {
        Some(stem) => match stem.to_str() {
            Some(text) => Some(text.to_owned()),
            None => None,
        },
        None => None,
    }
}

pub struct Document {
    pub id: u128,
    pub name: String,
    pub canvas_size: (u32, u32),
    pub base_asset_path: Option<PathBuf>,
    pub objects: Vec<StackObject>,
}

impl Document {
    /// An empty document with a fresh random id.
    pub fn new(name: &str, width: u32, height: u32) -> (document: Self)
        ensures
            document.name@ == name@,
            document.canvas_size == (width, height),
            document.base_asset_path is None,
            document.objects@.len() == 0,
    {
        Document {
            id: new_object_id(),
            name: name.to_owned(),
            canvas_size: (width, height),
            base_asset_path: None,
            objects: Vec::new(),
        }
    }
}

} // verus!
