//! Reader and writer for the table of contents of a chunked asset archive.
//!
//! The table of contents maps content hashes to the chunks that hold an
//! asset's data. It is stored as a compressed container around a manifest
//! body: a header, a directory of six sections and the six tables themselves.
//! Every executable function of this crate is verified against a contract
//! stated over byte sequences and over the mathematical view of the tables.

pub mod error;
pub mod toc;
pub mod utils;
