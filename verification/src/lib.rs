//! Font embedding and text encoding for PDF composite (Type0) fonts.
//!
//! The crate turns a raw outline-font binary into the set of interlinked PDF
//! objects that a viewer needs (font descriptor, CID font, embedded font
//! program, ToUnicode character map) and encodes arbitrary text for content
//! streams through the resulting font reference.

pub mod config;
pub mod glyph_map;
pub mod cmap;
pub mod widths;
pub mod metrics;
pub mod to_unicode;
pub mod text;
pub mod ttf;
pub mod pdf;
pub mod fonts;
