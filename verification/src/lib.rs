//! Placeholder images: a colour model that picks a readable foreground, a
//! compositor that blends glyph coverage into a pixel buffer, and an in-memory
//! byte stream that holds the encoded picture.

pub mod canvas;
pub mod color;
pub mod config;
pub mod forms;
pub mod render;
pub mod response;
pub mod text;
