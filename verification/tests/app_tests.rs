use iris::app::{IrisApp, Tool};
use iris::image::RgbaImage;
use iris::object::{CropData, ImageData, ObjectKind, StackObject};
use std::path::PathBuf;

#[test]
fn new_editor_starts_on_a_blank_canvas() {
    let app = IrisApp::new();
    assert_eq!(app.document.name, "Untitled");
    assert_eq!(app.document.canvas_size, (800, 600));
    assert!(app.document.objects.is_empty());
    assert_eq!(app.base_image.width(), 800);
    assert!(app.base_image.data().iter().all(|b| *b == 0));
    assert_eq!(app.active_tool, Tool::Select);
    assert!(app.status.is_none());
}

#[test]
fn status_is_set() {
    let mut app = IrisApp::new();
    app.set_status("hello");
    assert_eq!(app.status.as_deref(), Some("hello"));
}

#[test]
fn ensure_crop_object_creates_once() {
    let mut app = IrisApp::new();
    let id = app.ensure_crop_object();
    assert_eq!(app.document.objects.len(), 1);
    assert_eq!(app.document.objects[0].name, "Crop");
    assert_eq!(app.document.objects[0].kind, ObjectKind::Crop(CropData { x: 0, y: 0, width: 1.0f32.to_bits(), height: 1.0f32.to_bits() }));
    assert_eq!(app.selected_object, Some(id));
    let again = app.ensure_crop_object();
    assert_eq!(again, id);
    assert_eq!(app.document.objects.len(), 1);
}

#[test]
fn ensure_crop_object_finds_the_first_crop() {
    let mut app = IrisApp::new();
    assert!(app.paste_image(1, 1, vec![1, 2, 3, 4], 0, 0));
    let first = StackObject::new("Crop", ObjectKind::Crop(CropData { x: 0, y: 0, width: 0, height: 0 }));
    let second = StackObject::new("Crop", ObjectKind::Crop(CropData { x: 0, y: 0, width: 0, height: 0 }));
    let first_id = first.id;
    app.document.objects.push(first);
    app.document.objects.push(second);
    let selected = app.selected_object;
    assert_eq!(app.ensure_crop_object(), first_id);
    assert_eq!(app.selected_object, selected);
    assert_eq!(app.document.objects.len(), 3);
}

#[test]
fn paste_adds_a_selected_image_with_its_pixels() {
    let mut app = IrisApp::new();
    let x = 5.5f32.to_bits();
    assert!(app.paste_image(1, 2, vec![1, 2, 3, 4, 5, 6, 7, 8, 9], x, 0));
    let object = app.document.objects.last().unwrap();
    assert_eq!(object.name, "Pasted Image");
    assert!(object.visible);
    assert_eq!(object.kind, ObjectKind::Image(ImageData { x, y: 0 }));
    assert_eq!(app.selected_object, Some(object.id));
    assert_eq!(app.pasted_images[&object.id].data(), &vec![1, 2, 3, 4, 5, 6, 7, 8]);
    assert_eq!(app.status.as_deref(), Some("Pasted image"));
}

#[test]
fn paste_of_a_short_buffer_fails() {
    let mut app = IrisApp::new();
    assert!(!app.paste_image(2, 2, vec![0; 8], 0, 0));
    assert!(app.document.objects.is_empty());
    assert!(app.pasted_images.is_empty());
    assert_eq!(app.status.as_deref(), Some("Clipboard image had an unexpected size"));
}

#[test]
fn set_crop_data_changes_only_the_crop() {
    let mut app = IrisApp::new();
    let id = app.ensure_crop_object();
    let data = CropData { x: 3.0f32.to_bits(), y: 4.0f32.to_bits(), width: 10.0f32.to_bits(), height: 20.0f32.to_bits() };
    app.set_crop_data(id, data);
    assert_eq!(app.document.objects[0].kind, ObjectKind::Crop(data));
    assert_eq!(app.document.objects[0].name, "Crop");
    assert!(app.paste_image(1, 1, vec![0; 4], 0, 0));
    let image_id = app.document.objects[1].id;
    app.set_crop_data(image_id, data);
    assert_eq!(app.document.objects[1].kind, ObjectKind::Image(ImageData { x: 0, y: 0 }));
}

#[test]
fn set_image_data_moves_an_image() {
    let mut app = IrisApp::new();
    assert!(app.paste_image(1, 1, vec![0; 4], 0, 0));
    let id = app.document.objects[0].id;
    app.set_image_data(id, ImageData { x: 7, y: 9 });
    assert_eq!(app.document.objects[0].kind, ObjectKind::Image(ImageData { x: 7, y: 9 }));
}

#[test]
fn toggle_visibility_flips_one_object() {
    let mut app = IrisApp::new();
    app.ensure_crop_object();
    app.toggle_visibility(0);
    assert!(!app.document.objects[0].visible);
    app.toggle_visibility(0);
    assert!(app.document.objects[0].visible);
    app.toggle_visibility(5);
    assert_eq!(app.document.objects.len(), 1);
}

#[test]
fn load_base_image_starts_a_new_document() {
    let mut app = IrisApp::new();
    assert!(app.paste_image(1, 1, vec![0; 4], 0, 0));
    app.begin_crop_drag(0, 0);
    let image = RgbaImage::from_pixel(3, 4, [9, 9, 9, 255]);
    app.load_base_image(image, Some(PathBuf::from("/tmp/cat.png")));
    assert_eq!(app.document.name, "cat");
    assert_eq!(app.document.canvas_size, (3, 4));
    assert_eq!(app.document.base_asset_path, Some(PathBuf::from("/tmp/cat.png")));
    assert!(app.document.objects.is_empty());
    assert!(app.pasted_images.is_empty());
    assert!(app.selected_object.is_none());
    assert!(app.crop_drag.is_none());
    assert_eq!(app.status.as_deref(), Some("Opened image"));
    app.load_base_image(RgbaImage::from_pixel(1, 1, [0, 0, 0, 0]), None);
    assert_eq!(app.document.name, "Untitled");
    app.load_base_image(RgbaImage::from_pixel(1, 1, [0, 0, 0, 0]), Some(PathBuf::from("/")));
    assert_eq!(app.document.name, "Untitled");
    app.load_base_image(RgbaImage::from_pixel(2, 3, [0, 0, 0, 0]), Some(PathBuf::from("/tmp/archive.tar.gz")));
    assert_eq!(app.document.name, "archive.tar");
    assert_eq!(app.document.canvas_size, (2, 3));
}

#[test]
fn crop_drag_targets_the_crop_object() {
    let mut app = IrisApp::new();
    app.set_active_tool(Tool::Crop);
    assert!(!app.preview_applies_crop());
    let id = app.begin_crop_drag(1, 2);
    let drag = app.crop_drag.unwrap();
    assert_eq!((drag.object_id, drag.start_x, drag.start_y), (id, 1, 2));
    assert_eq!(app.applied_crop_data(), Some(CropData { x: 0, y: 0, width: 1.0f32.to_bits(), height: 1.0f32.to_bits() }));
    app.end_crop_drag();
    assert!(app.crop_drag.is_none());
    app.set_active_tool(Tool::Select);
    assert!(app.preview_applies_crop());
}

#[test]
fn find_object_and_select() {
    let mut app = IrisApp::new();
    let id = app.ensure_crop_object();
    assert_eq!(app.find_object(id), Some(0));
    assert_eq!(app.find_object(id.wrapping_add(1)), None);
    app.select_object(42);
    assert_eq!(app.selected_object, Some(42));
}

#[test]
fn render_clips_unless_cropping() {
    let mut app = IrisApp::new();
    let id = app.ensure_crop_object();
    app.set_crop_data(id, CropData { x: 0, y: 0, width: 10.0f32.to_bits(), height: 5.0f32.to_bits() });
    let clipped = app.render(true).unwrap();
    assert_eq!((clipped.width(), clipped.height()), (10, 5));
    let full = app.render(false).unwrap();
    assert_eq!((full.width(), full.height()), (800, 600));
}

#[test]
fn render_refuses_an_oversized_crop() {
    let mut app = IrisApp::new();
    let id = app.ensure_crop_object();
    app.set_crop_data(id, CropData { x: 0, y: 0, width: 1.0e9f32.to_bits(), height: 1.0f32.to_bits() });
    assert!(app.render(true).is_none());
    assert!(app.render(false).is_some());
}

fn at(x: f32, y: f32) -> (u32, u32) {
    (x.to_bits(), y.to_bits())
}

#[test]
fn object_at_finds_the_topmost_image() {
    let mut app = IrisApp::new();
    let (x0, y0) = at(10.0, 10.0);
    assert!(app.paste_image(5, 5, vec![0; 100], x0, y0));
    let (x1, y1) = at(12.4, 12.6);
    assert!(app.paste_image(5, 5, vec![0; 100], x1, y1));
    assert_eq!(app.object_at(11, 11), Some(0));
    assert_eq!(app.object_at(12, 13), Some(1));
    assert_eq!(app.object_at(16, 17), Some(1));
    assert_eq!(app.object_at(17, 17), None);
    assert_eq!(app.object_at(9, 10), None);
    app.toggle_visibility(1);
    assert_eq!(app.object_at(12, 13), Some(0));
}

#[test]
fn select_at_selects_or_clears() {
    let mut app = IrisApp::new();
    assert!(app.paste_image(2, 2, vec![0; 16], 0, 0));
    let id = app.document.objects[0].id;
    app.select_object(7);
    app.select_at(1, 1);
    assert_eq!(app.selected_object, Some(id));
    app.select_at(5, 5);
    assert_eq!(app.selected_object, None);
}

#[test]
fn move_drag_starts_on_an_image() {
    let mut app = IrisApp::new();
    let (x, y) = at(3.0, 4.0);
    assert!(app.paste_image(2, 2, vec![0; 16], x, y));
    let id = app.document.objects[0].id;
    assert!(app.begin_move_drag(3, 5, 1, 2));
    let drag = app.move_drag.unwrap();
    assert_eq!(drag.object_id, id);
    assert_eq!(drag.origin, ImageData { x, y });
    assert_eq!((drag.start_x, drag.start_y), (1, 2));
    assert_eq!(app.selected_object, Some(id));
    app.end_move_drag();
    assert!(app.move_drag.is_none());
    assert!(!app.begin_move_drag(100, 100, 0, 0));
    assert!(app.selected_object.is_none());
    assert!(app.move_drag.is_none());
}

#[test]
fn selected_image_is_the_selected_objects_pixels() {
    let mut app = IrisApp::new();
    assert!(app.selected_image().is_none());
    assert!(app.paste_image(1, 1, vec![1, 2, 3, 4], 0, 0));
    assert_eq!(app.selected_image().unwrap().data(), &vec![1, 2, 3, 4]);
    let crop_id = app.ensure_crop_object();
    app.select_object(crop_id);
    assert!(app.selected_image().is_none());
}

#[test]
fn delete_selected_removes_the_object_and_its_pixels() {
    let mut app = IrisApp::new();
    assert!(app.paste_image(1, 1, vec![1, 2, 3, 4], 0, 0));
    let id = app.document.objects[0].id;
    app.ensure_crop_object();
    app.select_object(id);
    assert!(app.delete_selected());
    assert_eq!(app.document.objects.len(), 1);
    assert!(matches!(app.document.objects[0].kind, ObjectKind::Crop(_)));
    assert!(!app.pasted_images.contains_key(&id));
    assert!(app.selected_object.is_none());
    assert!(!app.delete_selected());
}

#[test]
fn delete_selected_clears_a_drag_on_it() {
    let mut app = IrisApp::new();
    let id = app.begin_crop_drag(0, 0);
    app.select_object(id);
    assert!(app.delete_selected());
    assert!(app.crop_drag.is_none());
    assert!(app.document.objects.is_empty());
}

#[test]
fn paste_then_delete_restores_the_stack() {
    let mut app = IrisApp::new();
    app.ensure_crop_object();
    let objects_before: Vec<u128> = app.document.objects.iter().map(|o| o.id).collect();
    assert!(app.paste_image(1, 1, vec![1, 2, 3, 4], 0, 0));
    assert!(app.delete_selected());
    let objects_after: Vec<u128> = app.document.objects.iter().map(|o| o.id).collect();
    assert_eq!(objects_before, objects_after);
    assert!(app.pasted_images.is_empty());
    assert!(app.selected_object.is_none());
}

#[test]
fn ids_stay_distinct_and_store_keys_match_image_objects() {
    let mut app = IrisApp::new();
    assert!(app.paste_image(1, 1, vec![1, 2, 3, 255], 0, 0));
    assert!(app.paste_image(1, 1, vec![4, 5, 6, 255], 1, 1));
    app.ensure_crop_object();
    assert!(app.paste_image(1, 1, vec![7, 8, 9, 255], 2, 2));
    app.select_object(app.document.objects[1].id);
    assert!(app.delete_selected());
    let ids: Vec<u128> = app.document.objects.iter().map(|o| o.id).collect();
    for a in 0..ids.len() {
        for b in a + 1..ids.len() {
            assert_ne!(ids[a], ids[b]);
        }
    }
    let mut image_ids: Vec<u128> = app
        .document
        .objects
        .iter()
        .filter(|o| matches!(o.kind, ObjectKind::Image(_)))
        .map(|o| o.id)
        .collect();
    let mut keys: Vec<u128> = app.pasted_images.keys().copied().collect();
    image_ids.sort();
    keys.sort();
    assert_eq!(image_ids, keys);
}

#[test]
fn open_document_names_it_after_the_stem() {
    let mut app = IrisApp::new();
    app.open_document(RgbaImage::from_pixel(2, 3, [1, 2, 3, 4]), Some(PathBuf::from("/tmp/cat.png")), Some("cat"));
    assert_eq!(app.document.name, "cat");
    assert_eq!(app.document.canvas_size, (2, 3));
    app.open_document(RgbaImage::from_pixel(1, 1, [0, 0, 0, 0]), None, None);
    assert_eq!(app.document.name, "Untitled");
}

#[test]
fn applied_crop_is_the_last_visible_valid_one() {
    let mut app = IrisApp::new();
    assert_eq!(app.applied_crop_data(), None);
    let first = CropData { x: 0, y: 0, width: 2.0f32.to_bits(), height: 2.0f32.to_bits() };
    let second = CropData { x: 1.0f32.to_bits(), y: 0, width: 3.0f32.to_bits(), height: 1.0f32.to_bits() };
    let mut hidden = StackObject::new("Crop", ObjectKind::Crop(CropData { x: 0, y: 0, width: 5.0f32.to_bits(), height: 5.0f32.to_bits() }));
    hidden.visible = false;
    let invalid = StackObject::new("Crop", ObjectKind::Crop(CropData { x: 2147483520.0f32.to_bits(), y: 0, width: 1.0e9f32.to_bits(), height: 1.0f32.to_bits() }));
    app.document.objects = vec![
        StackObject::new("Crop", ObjectKind::Crop(first)),
        StackObject::new("Crop", ObjectKind::Crop(second)),
        hidden,
        invalid,
    ];
    assert_eq!(app.applied_crop_data(), Some(second));
}
