//! Translation of the display names in a configuration document.
//!
//! A translation table is merged from a sequence of flat string mappings; the
//! `name` entry of every element of the `sensor`, `button` and `text_sensor`
//! lists of a document is then replaced by its value in the table.

pub mod document;
pub mod error;
pub mod laws;
pub mod source;
pub mod table;
pub mod translate;
pub mod yaml;
