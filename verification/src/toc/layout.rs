//! The layout of a manifest body, as a mathematical model.
//!
//! A manifest body is a header, a directory of six entries, an identifier
//! field and the six tables. [`TocView`] is what a manifest holds;
//! [`spec_parse`] says what every byte sequence parses to, and
//! [`TocView::serialize`] the bytes that a manifest is written as. The laws at
//! the end of the file relate the two.

use crate::error::TocError;
use crate::toc::header;
use crate::toc::header::TocHeader;
use crate::toc::section::{
    ArchiveChunkEntry,
    ArchiveFileEntry,
    ArchiveSizeEntry,
    ArchiveSpanEntry,
    Section,
    SectionInfo,
};
use crate::utils::{decode_all, encode_all, lemma_decode_encode_all, u32_le, Record};
use vstd::prelude::*;

verus! {

/// The byte offset of the directory in a manifest body.
pub const DIRECTORY_START: usize = 16;

/// The byte offset at which the first table is written.
pub const TABLES_START: usize = 112;

/// The six directory entries of a manifest, one for each section.
#[derive(Clone, Copy, Debug, PartialEq, Eq, Structural)]
pub struct SectionDirectory {
    pub file_entries: SectionInfo,
    pub asset_hashes: SectionInfo,
    pub size_entries: SectionInfo,
    pub key_hashes: SectionInfo,
    pub chunk_entries: SectionInfo,
    pub span_entries: SectionInfo,
}

impl SectionDirectory {
    /// The entry of section `s`.
    pub open spec fn spec_get(self, s: Section) -> SectionInfo {
        match s {
            Section::FileEntries => self.file_entries,
            Section::AssetHashes => self.asset_hashes,
            Section::SizeEntries => self.size_entries,
            Section::KeyHashes => self.key_hashes,
            Section::ChunkEntries => self.chunk_entries,
            Section::SpanEntries => self.span_entries,
        }
    }

    /// The entry of section `s`.
    pub fn get(&self, s: Section) -> (info: SectionInfo)
        ensures
            info == self.spec_get(s),
    {
        match s {
            Section::FileEntries => self.file_entries,
            Section::AssetHashes => self.asset_hashes,
            Section::SizeEntries => self.size_entries,
            Section::KeyHashes => self.key_hashes,
            Section::ChunkEntries => self.chunk_entries,
            Section::SpanEntries => self.span_entries,
        }
    }

    /// The bytes of the directory: its six entries in section order.
    pub open spec fn spec_encode(self) -> Seq<u8> {
        self.file_entries.spec_encode() + self.asset_hashes.spec_encode()
            + self.size_entries.spec_encode() + self.key_hashes.spec_encode()
            + self.chunk_entries.spec_encode() + self.span_entries.spec_encode()
    }

    /// Appends the bytes of the directory to `out`.
    pub fn encode(&self, out: &mut Vec<u8>)
        ensures
            final(out)@ == old(out)@ + self.spec_encode(),
    {
        self.file_entries.encode(out);
        self.asset_hashes.encode(out);
        self.size_entries.encode(out);
        self.key_hashes.encode(out);
        self.chunk_entries.encode(out);
        self.span_entries.encode(out);
        assert(out@ =~= old(out)@ + self.spec_encode());
    }
}

/// What a manifest holds: the header, the directory and the six tables.
#[verifier::ext_equal]
pub struct TocView {
    pub header: TocHeader,
    pub sections: SectionDirectory,
    pub file_entries: Seq<ArchiveFileEntry>,
    pub asset_hashes: Seq<u64>,
    pub size_entries: Seq<ArchiveSizeEntry>,
    pub key_hashes: Seq<u64>,
    pub chunk_entries: Seq<ArchiveChunkEntry>,
    pub span_entries: Seq<ArchiveSpanEntry>,
}

/// The identifier field: the text `ArchiveTOC`, filled up to 24 bytes with
/// zero bytes.
pub open spec fn format_ident() -> Seq<u8> {
    seq![
        0x41u8, 0x72u8, 0x63u8, 0x68u8, 0x69u8, 0x76u8, 0x65u8, 0x54u8, 0x4fu8, 0x43u8,
        0u8, 0u8, 0u8, 0u8, 0u8, 0u8, 0u8, 0u8, 0u8, 0u8, 0u8, 0u8, 0u8, 0u8,
    ]
}

/// The byte offset of the directory entry of section `s`.
pub open spec fn slot(s: Section) -> int {
    DIRECTORY_START + 12 * s.spec_position()
}

/// The directory entry that starts at byte `at`, if it lies within `bytes`.
pub open spec fn info_at(bytes: Seq<u8>, at: int) -> Option<SectionInfo> {
    if 0 <= at && at + 12 <= bytes.len() {
        Some(SectionInfo::spec_decode(bytes.subrange(at, at + 12)))
    } else {
        None
    }
}

/// The bytes that a directory entry names, if they lie within `bytes`.
pub open spec fn data_of(bytes: Seq<u8>, info: SectionInfo) -> Option<Seq<u8>> {
    if info.offset + info.size <= bytes.len() {
        Some(bytes.subrange(info.offset as int, info.offset + info.size))
    } else {
        None
    }
}

/// The directory entry at byte `at` together with the bytes it names.
/// `None` when either of them does not lie within `bytes`.
pub open spec fn section_at(bytes: Seq<u8>, at: int) -> Option<(SectionInfo, Seq<u8>)> {
    match info_at(bytes, at) {
        Some(info) => match data_of(bytes, info) {
            Some(data) => Some((info, data)),
            None => None,
        },
        None => None,
    }
}

/// What parsing a manifest body gives for each input.
///
/// The header is taken from the first sixteen bytes. The sections are then
/// read in their fixed order, each through its directory entry, and the first
/// failure decides the result: a directory entry or a data range outside the
/// body is `MalformedSection`, and size entries that are not as many as the
/// asset hashes are `SectionSizeMismatch`, found before the key hashes are
/// read.
pub open spec fn spec_parse(bytes: Seq<u8>) -> Result<TocView, TocError> {
    if bytes.len() < header::HEADER_LEN {
        Err(TocError::MalformedHeader)
    } else {
        match header::spec_parse(bytes.subrange(0, 16)) {
            Err(e) => Err(e),
            Ok(head) => {
                let files = section_at(bytes, slot(Section::FileEntries));
                let assets = section_at(bytes, slot(Section::AssetHashes));
                let sizes = section_at(bytes, slot(Section::SizeEntries));
                let keys = section_at(bytes, slot(Section::KeyHashes));
                let chunks = section_at(bytes, slot(Section::ChunkEntries));
                let spans = section_at(bytes, slot(Section::SpanEntries));
                if files is None || assets is None || sizes is None {
                    Err(TocError::MalformedSection)
                } else if decode_all::<ArchiveSizeEntry>(sizes->Some_0.1).len() != decode_all::<
                    u64,
                >(assets->Some_0.1).len() {
                    Err(TocError::SectionSizeMismatch)
                } else if keys is None || chunks is None || spans is None {
                    Err(TocError::MalformedSection)
                } else {
                    Ok(
                        TocView {
                            header: head,
                            sections: SectionDirectory {
                                file_entries: files->Some_0.0,
                                asset_hashes: assets->Some_0.0,
                                size_entries: sizes->Some_0.0,
                                key_hashes: keys->Some_0.0,
                                chunk_entries: chunks->Some_0.0,
                                span_entries: spans->Some_0.0,
                            },
                            file_entries: decode_all(files->Some_0.1),
                            asset_hashes: decode_all(assets->Some_0.1),
                            size_entries: decode_all(sizes->Some_0.1),
                            key_hashes: decode_all(keys->Some_0.1),
                            chunk_entries: decode_all(chunks->Some_0.1),
                            span_entries: decode_all(spans->Some_0.1),
                        },
                    )
                }
            },
        }
    }
}

impl TocView {
    /// The bytes of the table of section `s`.
    pub open spec fn table_bytes(self, s: Section) -> Seq<u8> {
        match s {
            Section::FileEntries => encode_all(self.file_entries),
            Section::AssetHashes => encode_all(self.asset_hashes),
            Section::SizeEntries => encode_all(self.size_entries),
            Section::KeyHashes => encode_all(self.key_hashes),
            Section::ChunkEntries => encode_all(self.chunk_entries),
            Section::SpanEntries => encode_all(self.span_entries),
        }
    }

    /// The byte offset at which the table of section `s` is written: the
    /// tables follow one another in section order from `TABLES_START` on.
    pub open spec fn table_start(self, s: Section) -> nat {
        match s {
            Section::FileEntries => TABLES_START as nat,
            Section::AssetHashes => self.table_end(Section::FileEntries),
            Section::SizeEntries => self.table_end(Section::AssetHashes),
            Section::KeyHashes => self.table_end(Section::SizeEntries),
            Section::ChunkEntries => self.table_end(Section::KeyHashes),
            Section::SpanEntries => self.table_end(Section::ChunkEntries),
        }
    }

    /// The byte offset just behind the table of section `s`.
    pub open spec fn table_end(self, s: Section) -> nat
        decreases s.spec_position(), 0nat,
    {
        match s {
            Section::FileEntries => TABLES_START as nat + self.table_bytes(s).len(),
            Section::AssetHashes => self.table_end(Section::FileEntries) + self.table_bytes(
                s,
            ).len(),
            Section::SizeEntries => self.table_end(Section::AssetHashes) + self.table_bytes(
                s,
            ).len(),
            Section::KeyHashes => self.table_end(Section::SizeEntries) + self.table_bytes(
                s,
            ).len(),
            Section::ChunkEntries => self.table_end(Section::KeyHashes) + self.table_bytes(
                s,
            ).len(),
            Section::SpanEntries => self.table_end(Section::ChunkEntries) + self.table_bytes(
                s,
            ).len(),
        }
    }

    /// The byte length of the serialized manifest.
    pub open spec fn serialized_len(self) -> nat {
        self.table_end(Section::SpanEntries)
    }

    /// The directory entry that serializing writes for section `s`: the
    /// stored hash, and where the table is written and how long it is, each
    /// cut down to 32 bits.
    pub open spec fn written_info(self, s: Section) -> SectionInfo {
        SectionInfo {
            hash: self.sections.spec_get(s).hash,
            offset: self.table_start(s) as u32,
            size: self.table_bytes(s).len() as u32,
        }
    }

    /// The directory that serializing writes.
    pub open spec fn written_directory(self) -> SectionDirectory {
        SectionDirectory {
            file_entries: self.written_info(Section::FileEntries),
            asset_hashes: self.written_info(Section::AssetHashes),
            size_entries: self.written_info(Section::SizeEntries),
            key_hashes: self.written_info(Section::KeyHashes),
            chunk_entries: self.written_info(Section::ChunkEntries),
            span_entries: self.written_info(Section::SpanEntries),
        }
    }

    /// The header that serializing writes: the stored one, with the length of
    /// the serialized manifest, cut down to 32 bits, as its size.
    pub open spec fn written_header(self) -> TocHeader {
        TocHeader {
            magic: self.header.magic,
            hash: self.header.hash,
            size: self.serialized_len() as u32,
            sections: self.header.sections,
        }
    }

    /// The six tables, one after another in section order.
    pub open spec fn tables(self) -> Seq<u8> {
        self.table_bytes(Section::FileEntries) + self.table_bytes(Section::AssetHashes)
            + self.table_bytes(Section::SizeEntries) + self.table_bytes(Section::KeyHashes)
            + self.table_bytes(Section::ChunkEntries) + self.table_bytes(Section::SpanEntries)
    }

    /// The bytes that the manifest is written as.
    pub open spec fn serialize(self) -> Seq<u8> {
        self.written_header().spec_encode() + self.written_directory().spec_encode()
            + format_ident() + self.tables()
    }

    /// The manifest as it reads back after it was written: the tables are the
    /// same, and header and directory are those that serializing wrote.
    pub open spec fn rewritten(self) -> TocView {
        TocView {
            header: self.written_header(),
            sections: self.written_directory(),
            file_entries: self.file_entries,
            asset_hashes: self.asset_hashes,
            size_entries: self.size_entries,
            key_hashes: self.key_hashes,
            chunk_entries: self.chunk_entries,
            span_entries: self.span_entries,
        }
    }

    /// Whether the manifest can be written and read back: its signature is
    /// the right one, the size entries are as many as the asset hashes, and
    /// every offset fits the 32 bits of its field.
    pub open spec fn writable(self) -> bool {
        &&& u32_le(self.header.magic) == header::HEADER_SIGNATURE@
        &&& self.size_entries.len() == self.asset_hashes.len()
        &&& self.serialized_len() <= u32::MAX
    }
}

/// The table of section `s` lies in the serialized manifest where the
/// directory says, and the serialized manifest is as long as
/// `serialized_len` says.
pub proof fn lemma_table_position(t: TocView, s: Section)
    ensures
        t.serialize().len() == t.serialized_len(),
        TABLES_START <= t.table_start(s),
        t.table_start(s) + t.table_bytes(s).len() == t.table_end(s),
        t.table_end(s) <= t.serialized_len(),
        t.serialize().subrange(t.table_start(s) as int, t.table_end(s) as int) == t.table_bytes(s),
{
    let h = t.written_header().spec_encode();
    let d = t.written_directory().spec_encode();
    let i = format_ident();
    let t0 = t.table_bytes(Section::FileEntries);
    let t1 = t.table_bytes(Section::AssetHashes);
    let t2 = t.table_bytes(Section::SizeEntries);
    let t3 = t.table_bytes(Section::KeyHashes);
    let t4 = t.table_bytes(Section::ChunkEntries);
    let t5 = t.table_bytes(Section::SpanEntries);
    lemma_prefix_len(t);
    let b = t.serialize();
    assert(b =~= h + d + i + t0 + t1 + t2 + t3 + t4 + t5);
    assert(b.len() == 112 + t0.len() + t1.len() + t2.len() + t3.len() + t4.len() + t5.len());
    assert(b.subrange(t.table_start(s) as int, t.table_end(s) as int) =~= t.table_bytes(s));
}

/// Header, directory and identifier field together occupy the bytes before
/// `TABLES_START`.
pub proof fn lemma_prefix_len(t: TocView)
    ensures
        t.written_header().spec_encode().len() == 16,
        t.written_directory().spec_encode().len() == 72,
        format_ident().len() == 24,
{
    t.written_header().lemma_layout();
    assert(TocHeader::spec_size() == 16);
    let d = t.written_directory();
    d.file_entries.lemma_layout();
    d.asset_hashes.lemma_layout();
    d.size_entries.lemma_layout();
    d.key_hashes.lemma_layout();
    d.chunk_entries.lemma_layout();
    d.span_entries.lemma_layout();
    assert(SectionInfo::spec_size() == 12);
}

/// The directory entry of section `s` reads back from the serialized
/// manifest as it was written.
pub proof fn lemma_written_info(t: TocView, s: Section)
    ensures
        info_at(t.serialize(), slot(s)) == Some(t.written_info(s)),
{
    let h = t.written_header().spec_encode();
    let dir = t.written_directory();
    let d = dir.spec_encode();
    let b = t.serialize();
    lemma_prefix_len(t);
    dir.file_entries.lemma_layout();
    dir.asset_hashes.lemma_layout();
    dir.size_entries.lemma_layout();
    dir.key_hashes.lemma_layout();
    dir.chunk_entries.lemma_layout();
    dir.span_entries.lemma_layout();
    assert(SectionInfo::spec_size() == 12);
    assert(b.len() >= 112);
    let k = s.spec_position() as int;
    assert(b.subrange(slot(s), slot(s) + 12) =~= d.subrange(12 * k, 12 * k + 12));
    assert(d.subrange(12 * k, 12 * k + 12) =~= dir.spec_get(s).spec_encode());
    assert(dir.spec_get(s) == t.written_info(s));
}

/// A manifest that is writable reads back from its serialized bytes with the
/// same tables, and with the header and the directory that were written.
pub proof fn lemma_parse_serialize(t: TocView)
    requires
        t.writable(),
    ensures
        spec_parse(t.serialize()) == Ok::<TocView, TocError>(t.rewritten()),
{
    let b = t.serialize();
    let h = t.written_header().spec_encode();
    lemma_prefix_len(t);
    lemma_table_position(t, Section::FileEntries);
    lemma_table_position(t, Section::AssetHashes);
    lemma_table_position(t, Section::SizeEntries);
    lemma_table_position(t, Section::KeyHashes);
    lemma_table_position(t, Section::ChunkEntries);
    lemma_table_position(t, Section::SpanEntries);
    lemma_written_info(t, Section::FileEntries);
    lemma_written_info(t, Section::AssetHashes);
    lemma_written_info(t, Section::SizeEntries);
    lemma_written_info(t, Section::KeyHashes);
    lemma_written_info(t, Section::ChunkEntries);
    lemma_written_info(t, Section::SpanEntries);
    // The header reads back.
    assert(b.subrange(0, 16) =~= h);
    assert(h.subrange(0, 4) =~= u32_le(t.header.magic));
    t.written_header().lemma_layout();
    assert(header::spec_parse(h) == Ok::<TocHeader, TocError>(t.written_header()));
    // Each table reads back.
    lemma_decode_encode_all(t.file_entries);
    lemma_decode_encode_all(t.asset_hashes);
    lemma_decode_encode_all(t.size_entries);
    lemma_decode_encode_all(t.key_hashes);
    lemma_decode_encode_all(t.chunk_entries);
    lemma_decode_encode_all(t.span_entries);
    assert forall|s: Section| #[trigger]
        section_at(b, slot(s)) == Some((t.written_info(s), t.table_bytes(s))) by {
        lemma_table_position(t, s);
        lemma_written_info(t, s);
        let info = t.written_info(s);
        assert(info.offset == t.table_start(s));
        assert(info.size == t.table_bytes(s).len());
    }
    assert(section_at(b, slot(Section::FileEntries)) is Some);
    assert(section_at(b, slot(Section::AssetHashes)) is Some);
    assert(section_at(b, slot(Section::SizeEntries)) is Some);
    assert(section_at(b, slot(Section::KeyHashes)) is Some);
    assert(section_at(b, slot(Section::ChunkEntries)) is Some);
    assert(section_at(b, slot(Section::SpanEntries)) is Some);
    assert(spec_parse(b)->Ok_0 =~= t.rewritten());
}

/// A parsed manifest has the signature as its magic number and as many size
/// entries as asset hashes.
pub proof fn lemma_parsed(bytes: Seq<u8>)
    requires
        spec_parse(bytes) is Ok,
    ensures
        u32_le(spec_parse(bytes)->Ok_0.header.magic) == header::HEADER_SIGNATURE@,
        spec_parse(bytes)->Ok_0.size_entries.len() == spec_parse(bytes)->Ok_0.asset_hashes.len(),
{
    header::lemma_parsed_magic(bytes.subrange(0, 16));
}

/// Round trip. Whatever parses to a manifest whose serialized length fits 32
/// bits: serializing that manifest and parsing the bytes again gives the same
/// six tables.
pub proof fn lemma_round_trip(bytes: Seq<u8>)
    requires
        spec_parse(bytes) is Ok,
        spec_parse(bytes)->Ok_0.serialized_len() <= u32::MAX,
    ensures
        ({
            let first = spec_parse(bytes)->Ok_0;
            let again = spec_parse(first.serialize());
            &&& again is Ok
            &&& again->Ok_0.file_entries == first.file_entries
            &&& again->Ok_0.asset_hashes == first.asset_hashes
            &&& again->Ok_0.size_entries == first.size_entries
            &&& again->Ok_0.key_hashes == first.key_hashes
            &&& again->Ok_0.chunk_entries == first.chunk_entries
            &&& again->Ok_0.span_entries == first.span_entries
        }),
{
    lemma_parsed(bytes);
    lemma_parse_serialize(spec_parse(bytes)->Ok_0);
}

/// Writing is stable. A writable manifest that was written and read back is
/// written as the same bytes again.
pub proof fn lemma_serialize_stable(t: TocView)
    requires
        t.writable(),
    ensures
        spec_parse(t.serialize()) is Ok,
        spec_parse(t.serialize())->Ok_0.serialize() == t.serialize(),
{
    lemma_parse_serialize(t);
    let r = t.rewritten();
    assert forall|s: Section| r.table_bytes(s) == t.table_bytes(s) by {}
    assert forall|s: Section|
        r.table_end(s) == t.table_end(s) && r.table_start(s) == t.table_start(s) by {
        lemma_same_tables(t, r, s);
    }
    assert(r.written_header() == t.written_header());
    assert forall|s: Section| r.written_info(s) == t.written_info(s) by {
        lemma_same_tables(t, r, s);
    }
    assert(r.written_directory() == t.written_directory());
    assert(r.tables() == t.tables());
}

/// Two manifests with the same tables lay them out at the same offsets.
proof fn lemma_same_tables(a: TocView, b: TocView, s: Section)
    requires
        a.file_entries == b.file_entries,
        a.asset_hashes == b.asset_hashes,
        a.size_entries == b.size_entries,
        a.key_hashes == b.key_hashes,
        a.chunk_entries == b.chunk_entries,
        a.span_entries == b.span_entries,
    ensures
        a.table_start(s) == b.table_start(s),
        a.table_end(s) == b.table_end(s),
        a.table_bytes(s) == b.table_bytes(s),
{
    reveal_with_fuel(TocView::table_end, 7);
}

/// Cardinality. A manifest body whose header and first three sections can be
/// read, and which holds other than as many size entries as asset hashes, is
/// refused with `SectionSizeMismatch`.
pub proof fn lemma_cardinality_rejection(bytes: Seq<u8>)
    requires
        bytes.len() >= header::HEADER_LEN,
        header::spec_parse(bytes.subrange(0, 16)) is Ok,
        section_at(bytes, slot(Section::FileEntries)) is Some,
        section_at(bytes, slot(Section::AssetHashes)) is Some,
        section_at(bytes, slot(Section::SizeEntries)) is Some,
        decode_all::<ArchiveSizeEntry>(
            section_at(bytes, slot(Section::SizeEntries))->Some_0.1,
        ).len() != decode_all::<u64>(section_at(bytes, slot(Section::AssetHashes))->Some_0.1).len(),
    ensures
        spec_parse(bytes) == Err::<TocView, TocError>(TocError::SectionSizeMismatch),
{
}

} // verus!
