//! IRIS: a small non-destructive image editor core.
//!
//! Edits are kept as an ordered stack of objects (crop, pasted images)
//! applied on top of a base image rather than baked into pixels. This crate
//! holds the document model, the editor state and its operations, and the
//! compositing of the object stack into a premultiplied pixmap.
pub mod app;
pub mod coord;
pub mod document;
pub mod image;
pub mod object;
pub mod plugin;
pub mod render;
pub mod skia;
