//! Reader for PK2 archives: a single file that holds a directory tree in
//! encrypted blocks of twenty fixed-size records.
//!
//! The library performs no input or output. A caller reads the bytes it is
//! asked for and hands them over; the library validates, decrypts, decodes and
//! indexes them, and says which block it wants next:
//!
//! 1. [`reader::Pk2Reader::new`] checks the 256 bytes of the header.
//! 2. While [`reader::Pk2Reader::next_block`] names an offset, the caller
//!    reads 2560 bytes there and passes them to
//!    [`reader::Pk2Reader::read_block`].
//! 3. [`reader::Pk2Reader::find`] locates the payload of an entry; the caller
//!    reads it and [`reader::Pk2Reader::get_file`] checks what was read.
//!
//! What a whole run of step 2 amounts to is stated and proved in
//! [`traversal`].

pub mod cipher;
pub mod endian;
pub mod entry;
pub mod error;
pub mod header;
pub mod index;
pub mod reader;
pub mod text;
pub mod traversal;
pub mod walk;
