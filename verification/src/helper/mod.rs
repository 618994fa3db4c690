//! Item helpers: the default item type and the text processing behind it.
pub mod item;
pub mod item_reader;
