//! Choices a caller makes when generating a document.

use vstd::prelude::*;

verus! {

/// The kind of font resource to embed or reference.
#[derive(Debug, Copy, Clone)]
pub enum FontType {
    Type0,
    Type1,
    Ttf,
}

/// Paths to the two variants of a font binary shipped with a deck.
pub struct FontFile {
    pub full: &'static str,
    pub subset: &'static str,
}

} // verus!
