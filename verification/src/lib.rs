//! A codec for the export strings of an in-game addon configuration tool.
//!
//! An export string is ASCII text. Behind a mark that tells its form it is
//! base64 text in an alphabet of its own; the bytes are a DEFLATE stream or
//! a legacy container; and what that holds is a list of values, written as
//! legacy text or as a binary stream. `decode` reads a string of any form,
//! `encode` writes the newest form.
//!
//! Every function of the library is verified against a model: a `spec`
//! function that says what the function gives for every input. The laws
//! that tie the models together are proved beside them.

pub mod ace_serialize;
pub mod base64;
pub mod compression;
pub mod decoder;
pub mod error;
pub mod huffman;
pub mod lib_serialize;
pub mod number;
pub mod pipeline;
pub mod text;
pub mod value;

pub use crate::pipeline::{
    decode, decode_with, detect_version, encode, encode_with, read_legacy,
    trim_ascii_from_end_of_slice, unpack, StringVersion,
};
