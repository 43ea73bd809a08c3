//! A two-pass linker for the file system of a console game. It packs
//! relocatable objects and raw binary blobs into two sections of one output
//! object: `.filetable`, a table of twelve bytes for each file, and `.files`,
//! the files themselves, each on a four-byte boundary.
//!
//! The first pass ([`pass1`]) names every input for C code and indexes the
//! global symbols that the inputs define. The second pass ([`pass2`]) takes
//! the `.data` section of each object, rewrites its relocations against the
//! index ([`section`], [`reloc`]), compresses the files that ask for it
//! ([`compress`]), and lays files and table out ([`buffer`], [`table`]).
//! [`output`] packages the outcome as an object for the target, and
//! [`layout`] states what holds of every table and payload.
//!
//! The library reads and writes no files. It is handed the bytes of every
//! input and hands back the bytes of the two sections.

pub mod buffer;
pub mod compress;
pub mod error;
pub mod halfword;
pub mod layout;
pub mod mkdep;
pub mod objfile;
pub mod output;
pub mod pass1;
pub mod pass2;
pub mod paths;
pub mod reloc;
pub mod script;
pub mod section;
pub mod symbols;
pub mod table;
