//! A type-safe boundary between raw byte payloads tagged with a content-type
//! label and a canonical in-memory text value.
//!
//! Decoding turns owned bytes plus a label into normalized text, repairing
//! invalid UTF-8 instead of failing; encoding renders the text back to UTF-8
//! bytes for every label the content kind supports.

pub mod lossy;
pub mod mime;
pub mod text;
