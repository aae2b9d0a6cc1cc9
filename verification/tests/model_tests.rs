use iris::document::Document;
use iris::object::{CropData, ObjectKind, StackObject};

#[test]
fn document_new_is_empty() {
    let document = Document::new("Untitled", 800, 600);
    assert_eq!(document.name, "Untitled");
    assert_eq!(document.canvas_size, (800, 600));
    assert!(document.base_asset_path.is_none());
    assert!(document.objects.is_empty());
}

#[test]
fn stack_objects_get_fresh_ids() {
    let kind = ObjectKind::Crop(CropData { x: 0, y: 0, width: 0, height: 0 });
    let a = StackObject::new("a", kind);
    let b = StackObject::new("b", kind);
    assert_ne!(a.id, b.id);
    assert!(a.visible);
    assert_eq!(a.name, "a");
    assert_eq!(a.kind, kind);
    let d1 = Document::new("x", 1, 1);
    let d2 = Document::new("x", 1, 1);
    assert_ne!(d1.id, d2.id);
}
