//! Locating Exif data in HEIF files.
//!
//! A HEIF file is an ISO base media file: a sequence of boxes, each a size, a
//! four-character type and a body. Its file type box lists the brands that it
//! conforms to, and its metadata box says which item holds the Exif data and where
//! that item lies, in the file itself or in an item data box.
//!
//! [`is_heif`] recognizes a HEIF file by its major brand. [`get_exif_attr`] extracts
//! the Exif data from a file in memory. For a file that is not in memory, a
//! [`Parser`] says what it needs read, takes the bytes, and ends with the data of
//! the item, which [`unwrap_exif_attr`] turns into the Exif data.

pub mod cut;
pub mod endian;
pub mod error;
pub mod exif;
pub mod fourcc;
pub mod ftyp;
pub mod header;
pub mod item;
pub mod laws;
pub mod layout;
pub mod meta;
pub mod parser;
pub mod reader;
pub mod splitter;

pub use crate::error::Error;
pub use crate::error::IoError;
pub use crate::exif::get_exif_attr;
pub use crate::exif::unwrap_exif_attr;
pub use crate::ftyp::is_heif;
pub use crate::parser::Parser;
pub use crate::parser::Step;
pub use crate::reader::Cursor;
pub use crate::reader::Reply;
pub use crate::reader::Request;
pub use crate::splitter::BoxSplitter;
