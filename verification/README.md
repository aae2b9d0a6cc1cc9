# IRIS core

The verified core of IRIS, a small non-destructive PNG image editor. Edits
are kept as an ordered stack of objects (crop, pasted images) applied on top
of a base image rather than baked into pixels, so they can be re-ordered,
hidden, or adjusted after the fact.

| Path | What it holds |
|---|---|
| `src/object.rs` | Object stack kinds (`Crop`, `Image`) |
| `src/document.rs` | The document model |
| `src/image.rs` | Straight-alpha RGBA8 images |
| `src/coord.rs` | Exact rounding of `f32` coordinates, kept as bit patterns |
| `src/skia.rs` | The `tiny_skia` pixmap calls the core relies on (trusted) |
| `src/render.rs` | Compositing the object stack into a pixmap, and its laws |
| `src/app.rs` | Editor state and operations (selection, crop and move tools, paste, delete) |
| `src/plugin.rs` | Extension point for future object kinds |
| `app/` | The eframe/egui window, file dialogs, clipboard and PNG I/O |

Verus checks everything under `src/`; the tests under `tests/` exercise the
library with `tiny_skia` linked.
