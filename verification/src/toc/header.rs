//! The sixteen-byte header of a manifest.

use crate::error::TocError;
use crate::utils::{u32_from_le, u32_le, Record};
use vstd::prelude::*;

verus! {

/// The header of a manifest: four little-endian `u32` fields.
#[derive(Clone, Copy, Debug, PartialEq, Eq, Structural)]
pub struct TocHeader {
    /// The signature bytes, read as a number.
    pub magic: u32,
    /// Checksum of the manifest body; stored and written back as it is.
    pub hash: u32,
    /// Byte length of the whole manifest.
    pub size: u32,
    /// Number of directory entries.
    pub sections: u32,
}

/// The bytes with which every manifest begins.
pub const HEADER_SIGNATURE: [u8; 4] = [0x31, 0x54, 0x41, 0x44];

/// The byte length of a header.
pub const HEADER_LEN: usize = 16;

impl Record for TocHeader {
    open spec fn spec_size() -> nat {
        16
    }

    open spec fn spec_encode(&self) -> Seq<u8> {
        u32_le(self.magic) + u32_le(self.hash) + u32_le(self.size) + u32_le(self.sections)
    }

    open spec fn spec_decode(bytes: Seq<u8>) -> Self {
        TocHeader {
            magic: u32_from_le(bytes.subrange(0, 4)),
            hash: u32_from_le(bytes.subrange(4, 8)),
            size: u32_from_le(bytes.subrange(8, 12)),
            sections: u32_from_le(bytes.subrange(12, 16)),
        }
    }

    proof fn lemma_size() {
    }

    proof fn lemma_layout(&self) {
        let e = self.spec_encode();
        self.magic.lemma_layout();
        self.hash.lemma_layout();
        self.size.lemma_layout();
        self.sections.lemma_layout();
        assert(e.subrange(0, 4) =~= u32_le(self.magic));
        assert(e.subrange(4, 8) =~= u32_le(self.hash));
        assert(e.subrange(8, 12) =~= u32_le(self.size));
        assert(e.subrange(12, 16) =~= u32_le(self.sections));
    }

    fn size() -> (n: usize) {
        16
    }

    fn decode(buf: &[u8], at: usize) -> (r: Self) {
        let len = buf.len();
        assert(at + 16 <= len);
        let magic = u32::decode(buf, at);
        let hash = u32::decode(buf, at + 4);
        let size = u32::decode(buf, at + 8);
        let sections = u32::decode(buf, at + 12);
        proof {
            let s = buf@.subrange(at as int, at + 16);
            assert(s.subrange(0, 4) =~= buf@.subrange(at as int, at + 4));
            assert(s.subrange(4, 8) =~= buf@.subrange(at + 4, at + 4 + 4));
            assert(s.subrange(8, 12) =~= buf@.subrange(at + 8, at + 8 + 4));
            assert(s.subrange(12, 16) =~= buf@.subrange(at + 12, at + 12 + 4));
        }
        TocHeader { magic, hash, size, sections }
    }

    fn encode(&self, out: &mut Vec<u8>) {
        self.magic.encode(out);
        self.hash.encode(out);
        self.size.encode(out);
        self.sections.encode(out);
        assert(out@ =~= old(out)@ + self.spec_encode());
    }
}

/// What parsing a header gives for each input.
///
/// Anything but sixteen bytes is `MalformedHeader`; sixteen bytes that do
/// not begin with the signature are `SignatureMismatch`; all else decodes.
pub open spec fn spec_parse(bytes: Seq<u8>) -> Result<TocHeader, TocError> {
    if bytes.len() != HEADER_LEN {
        Err(TocError::MalformedHeader)
    } else if bytes.subrange(0, 4) != HEADER_SIGNATURE@ {
        Err(TocError::SignatureMismatch)
    } else {
        Ok(TocHeader::spec_decode(bytes))
    }
}

/// The header whose signature is good has the signature as its `magic`, so
/// that writing it back restores the signature bytes.
pub proof fn lemma_parsed_magic(bytes: Seq<u8>)
    requires
        spec_parse(bytes) is Ok,
    ensures
        u32_le(spec_parse(bytes)->Ok_0.magic) == HEADER_SIGNATURE@,
{
    crate::utils::lemma_u32_from_le_round_trip(bytes.subrange(0, 4));
}

/// Parses and validates the header of a manifest.
///
/// The result is `spec_parse` of the input. In particular, sixteen bytes
/// whose first four are not the signature give `SignatureMismatch`.
pub fn parse(buf: &[u8]) -> (r: Result<TocHeader, TocError>)
    ensures
        r == spec_parse(buf@),
        buf@.len() == HEADER_LEN && buf@.subrange(0, 4) != HEADER_SIGNATURE@ ==> r == Err::<
            TocHeader,
            TocError,
        >(TocError::SignatureMismatch),
{
    if buf.len() != HEADER_LEN {
        return Err(TocError::MalformedHeader);
    }
    let good = buf[0] == HEADER_SIGNATURE[0] && buf[1] == HEADER_SIGNATURE[1] && buf[2]
        == HEADER_SIGNATURE[2] && buf[3] == HEADER_SIGNATURE[3];
    proof {
        let head = buf@.subrange(0, 4);
        assert(head[0] == buf@[0] && head[1] == buf@[1] && head[2] == buf@[2] && head[3]
            == buf@[3]);
        if good {
            assert(head =~= HEADER_SIGNATURE@);
        }
    }
    if !good {
        return Err(TocError::SignatureMismatch);
    }
    Ok(crate::utils::from_buf(buf))
}

} // verus!
