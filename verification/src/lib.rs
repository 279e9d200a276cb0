pub mod error;
pub mod model;
pub mod nbt;
mod utf8;
pub mod text;
pub mod helpers;
pub mod gzip;
pub mod queue;
pub mod path;
pub mod editor;
pub mod tree;
pub mod reader_laws;
pub mod tree_laws;
pub mod listing;
