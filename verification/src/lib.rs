//! Decoder for a chunk-structured, optionally compressed savegame container.
//!
//! A file starts with an eight-byte header that names the codec of its body. The decompressed
//! body is a stream of chunks; a table chunk carries its own schema in a header block and its
//! rows in a data block. Everything is read through a [`cursor::ByteCursor`].
//!
//! Each decoder comes with a function on plain byte sequences that says what it returns, and
//! the encoders come with the theorems that what they write reads back.

pub mod chunk;
pub mod chunk_writer;
pub mod compression;
pub mod container;
pub mod cursor;
pub mod endian;
pub mod error;
pub mod gamma;
pub mod record;
pub mod record_writer;
pub mod schema;
pub mod text;
pub mod writer;
