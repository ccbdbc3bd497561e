//! Turns the markup of an EPUB package into styled terminal text: the reading
//! order of a package document, and the rendering of one chapter's node tree.

pub mod text;
pub mod node;
pub mod style;
pub mod paint;
pub mod epub_to_components;
pub mod page_formatter;
