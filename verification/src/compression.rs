//! Inflating under a ceiling, and deflating. The DEFLATE codec itself is the
//! work of the `flate2` crate.

use crate::error::CodecError;
use flate2::read::{DeflateDecoder, DeflateEncoder};
use flate2::Compression;
use std::io::Read;
use vstd::prelude::*;

verus! {

/// The most that a stream may inflate to: 16 MiB.
pub const MAX_SIZE: usize = 0x100_0000;

/// What comes of inflating a raw DEFLATE stream while at most `limit` bytes
/// are taken from the decoder: nothing if the decoder fails, else the bytes
/// taken and whether the decoder gives anything when asked once more.
pub uninterp spec fn inflate_run(data: Seq<u8>, limit: nat) -> Option<(Seq<u8>, bool)>;

/// What comes of deflating bytes at the best compression level: the raw
/// DEFLATE stream, or nothing if the encoder fails.
pub uninterp spec fn deflate_run(data: Seq<u8>) -> Option<Seq<u8>>;

/// What an inflating run gave, as the model sees it.
pub open spec fn run_view(outcome: Option<(Vec<u8>, bool)>) -> Option<(Seq<u8>, bool)> {
    match outcome {
        Some((bytes, more)) => Some((bytes@, more)),
        None => None,
    }
}

/// What a deflating run gave, as the model sees it.
pub open spec fn stream_view(outcome: Option<Vec<u8>>) -> Option<Seq<u8>> {
    match outcome {
        Some(bytes) => Some(bytes@),
        None => None,
    }
}

/// Runs `flate2::read::DeflateDecoder` over the data and reads it to its end
/// through `Read::take`, which hands out `limit` bytes at most; then asks the
/// decoder for one byte more. Not proved: that the run depends on the data and
/// the limit alone, and that no more than `limit` bytes are taken.
#[verifier::external_body]
fn inflate_up_to(data: &[u8], limit: usize) -> (outcome: Option<(Vec<u8>, bool)>)
    ensures
        run_view(outcome) == inflate_run(data@, limit as nat),
        outcome is Some ==> outcome.unwrap().0@.len() <= limit,
{
    let mut bytes: Vec<u8> = Vec::new();
    let mut reader = DeflateDecoder::new(data).take(limit as u64);
    match reader.read_to_end(&mut bytes) {
        Ok(_) => Some((bytes, reader.into_inner().bytes().next().is_some())),
        Err(_) => None,
    }
}

/// Runs `flate2::read::DeflateEncoder` over the data at `Compression::best()`
/// and reads it to its end. Not proved: that the run depends on the data
/// alone.
#[verifier::external_body]
fn deflate_best(data: &[u8]) -> (outcome: Option<Vec<u8>>)
    ensures
        stream_view(outcome) == deflate_run(data@),
{
    let mut bytes: Vec<u8> = Vec::new();
    match DeflateEncoder::new(data, Compression::best()).read_to_end(&mut bytes) {
        Ok(_) => Some(bytes),
        Err(_) => None,
    }
}

/// What an inflating run under a ceiling comes to: a failed run is
/// `InflateFailed`; a run that filled the ceiling and had more to give is
/// `OutputTooLarge`; any other run gives its bytes.
pub open spec fn bounded_spec(outcome: Option<(Seq<u8>, bool)>, limit: nat) -> Result<
    Seq<u8>,
    CodecError,
> {
    match outcome {
        None => Err(CodecError::InflateFailed),
        Some((bytes, more)) => if bytes.len() < limit || !more {
            Ok(bytes)
        } else {
            Err(CodecError::OutputTooLarge)
        },
    }
}

/// Judges an inflating run under a ceiling, as `bounded_spec` says.
pub fn bounded(outcome: Option<(Vec<u8>, bool)>, limit: usize) -> (r: Result<Vec<u8>, CodecError>)
    ensures
        match bounded_spec(run_view(outcome), limit as nat) {
            Ok(bytes) => r is Ok && r.unwrap()@ == bytes,
            Err(e) => r == Err::<Vec<u8>, CodecError>(e),
        },
{
    match outcome {
        None => Err(CodecError::InflateFailed),
        Some((bytes, more)) => {
            if bytes.len() < limit || !more {
                Ok(bytes)
            } else {
                Err(CodecError::OutputTooLarge)
            }
        },
    }
}

/// What a raw DEFLATE stream inflates to under the ceiling of 16 MiB.
pub open spec fn inflate_spec(data: Seq<u8>) -> Result<Seq<u8>, CodecError> {
    bounded_spec(inflate_run(data, MAX_SIZE as nat), MAX_SIZE as nat)
}

/// Inflates a raw DEFLATE stream. A corrupt stream is `InflateFailed`; a
/// stream that holds more than 16 MiB is `OutputTooLarge`.
pub fn inflate(data: &[u8]) -> (r: Result<Vec<u8>, CodecError>)
    ensures
        match inflate_spec(data@) {
            Ok(bytes) => r is Ok && r.unwrap()@ == bytes && bytes.len() <= MAX_SIZE,
            Err(e) => r == Err::<Vec<u8>, CodecError>(e),
        },
{
    bounded(inflate_up_to(data, MAX_SIZE), MAX_SIZE)
}

/// What deflating comes to: the stream, or `DeflateFailed`.
pub open spec fn packed_spec(outcome: Option<Seq<u8>>) -> Result<Seq<u8>, CodecError> {
    match outcome {
        Some(bytes) => Ok(bytes),
        None => Err(CodecError::DeflateFailed),
    }
}

/// Judges a deflating run, as `packed_spec` says.
pub fn packed(outcome: Option<Vec<u8>>) -> (r: Result<Vec<u8>, CodecError>)
    ensures
        match packed_spec(stream_view(outcome)) {
            Ok(bytes) => r is Ok && r.unwrap()@ == bytes,
            Err(e) => r == Err::<Vec<u8>, CodecError>(e),
        },
{
    match outcome {
        Some(bytes) => Ok(bytes),
        None => Err(CodecError::DeflateFailed),
    }
}

/// What the bytes deflate to at the best compression level.
pub open spec fn deflate_spec(data: Seq<u8>) -> Result<Seq<u8>, CodecError> {
    packed_spec(deflate_run(data))
}

/// Deflates the bytes into a raw DEFLATE stream at the best compression
/// level.
pub fn deflate(data: &[u8]) -> (r: Result<Vec<u8>, CodecError>)
    ensures
        match deflate_spec(data@) {
            Ok(bytes) => r is Ok && r.unwrap()@ == bytes,
            Err(e) => r == Err::<Vec<u8>, CodecError>(e),
        },
{
    packed(deflate_best(data))
}

} // verus!
