//! A verified PresentationML editing core: a lossless XML DOM with surgical
//! edits, the typed parts built on it, and the small models around them.

pub mod bytes;
pub mod content_types;
pub mod drawing;
pub mod layout;
pub mod notes_dom;
pub mod numbers;
pub mod preset_geometry;
pub mod paragraph;
pub mod presentation;
pub mod error;
pub mod text;
pub mod theme_resolver;
pub mod raw_part;
pub mod resolve_geometry;
pub mod scheme_color;
pub mod slide_dom;
pub mod sorted_map;
pub mod xlsx;
pub mod xml;
mod xml_reader;
mod xml_writer;
