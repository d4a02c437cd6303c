//! Bookmark-manager logic: the bookmark model, tag handling, note condensing,
//! and the CSV / HTML export and HTML import formats.

pub mod text;
pub mod db;
pub mod web;
pub mod settings;
