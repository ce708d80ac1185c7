//! The container around a manifest body: a signature, the length of the
//! body and the body as a zlib stream.
//!
//! The zlib coding itself is flate2's. What its decoder and its encoder
//! return is named by [`zlib_decoded`] and [`zlib_encoded`]; the framing
//! around the stream is this crate's and is verified.

use crate::error::TocError;
use crate::utils::{u32_le, Record};
use vstd::prelude::*;

verus! {

/// The bytes with which every container begins.
pub const TOC_SIGNATURE: [u8; 4] = [0xAF, 0x12, 0xAF, 0x77];

/// The byte length of signature and length field together.
pub const FRAME_LEN: usize = 8;

/// The error that std's readers and writers report.
#[verifier::external_type_specification]
#[verifier::external_body]
pub struct ExIoError(std::io::Error);

/// What flate2's `bufread::ZlibDecoder` reads out of `stream`, taken to the
/// end: the decoded bytes, or `None` where it reports an error.
pub uninterp spec fn zlib_decoded(stream: Seq<u8>) -> Option<Seq<u8>>;

/// The highest compression level: the encoder may take as long as it likes.
pub const BEST_COMPRESSION: u32 = 9;

/// What flate2's `bufread::ZlibEncoder`, set to compression level `level`,
/// reads out of `data`, taken to the end: the zlib stream, or `None` where it
/// reports an error.
pub uninterp spec fn zlib_encoded(data: Seq<u8>, level: u32) -> Option<Seq<u8>>;

/// Runs flate2's `bufread::ZlibDecoder` over `stream` and collects all that
/// it gives. The contract only names the outcome: it is `zlib_decoded` of
/// the stream.
#[verifier::external_body]
pub(crate) fn zlib_decode(stream: &[u8]) -> (r: Result<Vec<u8>, std::io::Error>)
    ensures
        match r {
            Ok(data) => zlib_decoded(stream@) == Some(data@),
            Err(_) => zlib_decoded(stream@) is None,
        },
{
    let mut decoder = flate2::bufread::ZlibDecoder::new(stream);
    let mut data = Vec::new();
    std::io::copy(&mut decoder, &mut data)?;
    Ok(data)
}

/// Runs flate2's `bufread::ZlibEncoder`, made with `Compression::new(level)`,
/// over `data` and collects all that it gives. The contract names the
/// outcome, `zlib_encoded` of the data and the level, and claims of a stream
/// so made that the decoder turns it back into the data: the coding is
/// lossless at every level. Levels above nine are left out; flate2 documents
/// the scale from zero to nine.
#[verifier::external_body]
pub(crate) fn zlib_encode(data: &[u8], level: u32) -> (r: Result<Vec<u8>, std::io::Error>)
    requires
        level <= 9,
    ensures
        match r {
            Ok(stream) => zlib_encoded(data@, level) == Some(stream@) && zlib_decoded(stream@)
                == Some(data@),
            Err(_) => zlib_encoded(data@, level) is None,
        },
{
    let mut encoder = flate2::bufread::ZlibEncoder::new(data, flate2::Compression::new(level));
    let mut stream = Vec::new();
    std::io::copy(&mut encoder, &mut stream)?;
    Ok(stream)
}

/// The zlib stream inside a container, or why there is none.
///
/// A container that does not begin with the signature, or is too short to
/// hold it, is `SignatureMismatch`; one that ends before its length field is
/// complete is `CodecError`. The length field itself is not looked at.
pub open spec fn spec_payload(bytes: Seq<u8>) -> Result<Seq<u8>, TocError> {
    if bytes.len() < 4 || bytes.subrange(0, 4) != TOC_SIGNATURE@ {
        Err(TocError::SignatureMismatch)
    } else if bytes.len() < FRAME_LEN {
        Err(TocError::CodecError)
    } else {
        Ok(bytes.subrange(FRAME_LEN as int, bytes.len() as int))
    }
}

/// What taking a container apart gives for each input: the decoded payload,
/// or `CodecError` where the payload does not decode.
pub open spec fn spec_decompress(bytes: Seq<u8>) -> Result<Seq<u8>, TocError> {
    match spec_payload(bytes) {
        Err(e) => Err(e),
        Ok(stream) => match zlib_decoded(stream) {
            Some(body) => Ok(body),
            None => Err(TocError::CodecError),
        },
    }
}

/// A container: the signature, the length of the body cut down to 32 bits,
/// and the zlib stream.
pub open spec fn spec_frame(body_len: nat, stream: Seq<u8>) -> Seq<u8> {
    TOC_SIGNATURE@ + u32_le(body_len as u32) + stream
}

/// What packing a body gives: the zlib stream of the body at the highest
/// compression level, framed, or `CodecError` where the encoder fails.
pub open spec fn spec_compress(body: Seq<u8>) -> Result<Seq<u8>, TocError> {
    match zlib_encoded(body, BEST_COMPRESSION) {
        Some(stream) => Ok(spec_frame(body.len(), stream)),
        None => Err(TocError::CodecError),
    }
}

/// The payload of a framed stream is the stream.
pub proof fn lemma_frame_payload(body_len: nat, stream: Seq<u8>)
    ensures
        spec_payload(spec_frame(body_len, stream)) == Ok::<Seq<u8>, TocError>(stream),
{
    let framed = spec_frame(body_len, stream);
    (body_len as u32).lemma_layout();
    assert(u32_le(body_len as u32).len() == 4) by {
        crate::utils::lemma_u32_le_round_trip(body_len as u32);
    }
    assert(framed.subrange(0, 4) =~= TOC_SIGNATURE@);
    assert(framed.subrange(FRAME_LEN as int, framed.len() as int) =~= stream);
}

/// Container round trip, as far as the framing goes. A stream that decodes
/// to `body`, framed, is a container that is taken apart to `body`.
pub proof fn lemma_frame_round_trip(body: Seq<u8>, stream: Seq<u8>)
    requires
        zlib_decoded(stream) == Some(body),
    ensures
        spec_decompress(spec_frame(body.len(), stream)) == Ok::<Seq<u8>, TocError>(body),
{
    lemma_frame_payload(body.len(), stream);
}

/// Finds the zlib stream inside a container.
pub fn payload(buf: &[u8]) -> (r: Result<&[u8], TocError>)
    ensures
        match r {
            Ok(stream) => spec_payload(buf@) == Ok::<Seq<u8>, TocError>(stream@),
            Err(e) => spec_payload(buf@) == Err::<Seq<u8>, TocError>(e),
        },
{
    if buf.len() < 4 {
        return Err(TocError::SignatureMismatch);
    }
    let good = buf[0] == TOC_SIGNATURE[0] && buf[1] == TOC_SIGNATURE[1] && buf[2]
        == TOC_SIGNATURE[2] && buf[3] == TOC_SIGNATURE[3];
    proof {
        let head = buf@.subrange(0, 4);
        assert(head[0] == buf@[0] && head[1] == buf@[1] && head[2] == buf@[2] && head[3]
            == buf@[3]);
        if good {
            assert(head =~= TOC_SIGNATURE@);
        }
    }
    if !good {
        return Err(TocError::SignatureMismatch);
    }
    if buf.len() < FRAME_LEN {
        return Err(TocError::CodecError);
    }
    Ok(vstd::slice::slice_subrange(buf, FRAME_LEN, buf.len()))
}

/// Puts signature and length field in front of a zlib stream.
pub fn frame(body_len: usize, stream: &Vec<u8>) -> (framed: Vec<u8>)
    ensures
        framed@ == spec_frame(body_len as nat, stream@),
{
    let mut framed: Vec<u8> = Vec::new();
    framed.push(TOC_SIGNATURE[0]);
    framed.push(TOC_SIGNATURE[1]);
    framed.push(TOC_SIGNATURE[2]);
    framed.push(TOC_SIGNATURE[3]);
    assert(framed@ =~= TOC_SIGNATURE@);
    let declared: u32 = #[verifier::truncate]
    (body_len as u32);
    declared.encode(&mut framed);
    let mut i: usize = 0;
    assert(framed@ =~= TOC_SIGNATURE@ + u32_le(declared) + stream@.take(0));
    while i < stream.len()
        invariant
            i <= stream.len(),
            framed@ == TOC_SIGNATURE@ + u32_le(declared) + stream@.take(i as int),
        decreases stream.len() - i,
    {
        framed.push(stream[i]);
        i += 1;
        assert(framed@ =~= TOC_SIGNATURE@ + u32_le(declared) + stream@.take(i as int));
    }
    assert(stream@.take(stream.len() as int) =~= stream@);
    framed
}

} // verus!
