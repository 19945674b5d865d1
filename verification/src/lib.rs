//! Line-oriented text utilities: a stream printer, a literal-substring line
//! filter, and a classical keyword-shift (Vigenere) cipher.
//!
//! The library holds the verified core of each tool: the cipher transform,
//! the substring matcher and line filter, the line transform, the line
//! splitter, and the argument parsers that build each tool's configuration.
//! Reading and writing of files and of the standard streams is left to the
//! surrounding binary, which hands the library plain bytes and strings.

pub mod args;

pub mod text;

pub mod cipher;

pub mod filter;

pub mod stream;

pub mod transform;
