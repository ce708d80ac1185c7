//! The manifest engine: parsing, serialising, looking up and adding entries.

pub mod container;
pub mod entry;
pub mod header;
pub mod layout;
pub mod section;

use crate::error::TocError;
use crate::toc::container::{spec_compress, spec_decompress};
use crate::toc::entry::{
    after_add_entry,
    grown_sizes,
    grown_spans,
    index_of,
    insertion_point,
    sizes_can_grow,
    spans_can_grow,
    spec_add_entry,
    NEW_CHUNK_MAP_BASE,
};
use crate::toc::header::TocHeader;
use crate::toc::layout::{info_at, section_at, spec_parse, SectionDirectory, TocView};
use crate::toc::section::{
    name_bytes,
    ArchiveChunkEntry,
    ArchiveFileEntry,
    ArchiveSizeEntry,
    ArchiveSpanEntry,
    Section,
    SectionInfo,
    FILE_NAME_LEN,
};
use crate::utils::{decode_all, Record};
use vstd::prelude::*;
use vstd::slice::slice_subrange;

verus! {

/// An open manifest: the header, the directory and the six tables.
#[derive(Debug)]
pub struct Toc {
    header: TocHeader,
    sections: SectionDirectory,
    file_entries: Vec<ArchiveFileEntry>,
    asset_hashes: Vec<u64>,
    size_entries: Vec<ArchiveSizeEntry>,
    key_hashes: Vec<u64>,
    chunk_entries: Vec<ArchiveChunkEntry>,
    span_entries: Vec<ArchiveSpanEntry>,
}

impl View for Toc {
    type V = TocView;

    closed spec fn view(&self) -> TocView {
        TocView {
            header: self.header,
            sections: self.sections,
            file_entries: self.file_entries@,
            asset_hashes: self.asset_hashes@,
            size_entries: self.size_entries@,
            key_hashes: self.key_hashes@,
            chunk_entries: self.chunk_entries@,
            span_entries: self.span_entries@,
        }
    }
}

/// What reading a manifest out of a container gives for each input: the
/// container is taken apart and its body parsed, and the first failure decides.
pub open spec fn spec_read(bytes: Seq<u8>) -> Result<TocView, TocError> {
    match spec_decompress(bytes) {
        Ok(body) => spec_parse(body),
        Err(e) => Err(e),
    }
}

/// The number as a `u32`, cut down to its low 32 bits.
fn low_u32(n: usize) -> (r: u32)
    ensures
        r == n as u32,
{
    #[verifier::truncate]
    (n as u32)
}

/// Appends `count` zero bytes to `out`.
fn put_zeros(out: &mut Vec<u8>, count: usize)
    ensures
        final(out)@ == old(out)@ + Seq::new(count as nat, |i: int| 0u8),
{
    let mut i: usize = 0;
    assert(out@ =~= old(out)@ + Seq::new(0, |i: int| 0u8));
    while i < count
        invariant
            i <= count,
            out@ == old(out)@ + Seq::new(i as nat, |i: int| 0u8),
        decreases count - i,
    {
        out.push(0u8);
        i += 1;
        assert(out@ =~= old(out)@ + Seq::new(i as nat, |i: int| 0u8));
    }
}

/// Appends the identifier field to `out`.
fn put_ident(out: &mut Vec<u8>)
    ensures
        final(out)@ == old(out)@ + layout::format_ident(),
{
    out.push(0x41u8);
    out.push(0x72u8);
    out.push(0x63u8);
    out.push(0x68u8);
    out.push(0x69u8);
    out.push(0x76u8);
    out.push(0x65u8);
    out.push(0x54u8);
    out.push(0x4fu8);
    out.push(0x43u8);
    assert(out@ =~= old(out)@ + layout::format_ident().take(10));
    put_zeros(out, 14);
    assert(out@ =~= old(out)@ + layout::format_ident());
}

/// Overwrites the bytes of `buf` from `at` on with `bytes`.
fn patch(buf: &mut Vec<u8>, at: usize, bytes: &Vec<u8>)
    requires
        at + bytes@.len() <= old(buf)@.len(),
    ensures
        final(buf)@ == old(buf)@.subrange(0, at as int) + bytes@ + old(buf)@.subrange(
            at + bytes@.len(),
            old(buf)@.len() as int,
        ),
{
    let mut i: usize = 0;
    let ghost before = buf@;
    let len = buf.len();
    assert(buf@ =~= before.subrange(0, at as int) + bytes@.take(0) + before.subrange(
        at as int,
        before.len() as int,
    ));
    while i < bytes.len()
        invariant
            i <= bytes@.len(),
            at + bytes@.len() <= before.len() <= usize::MAX,
            buf@.len() == before.len(),
            buf@ == before.subrange(0, at as int) + bytes@.take(i as int) + before.subrange(
                at + i,
                before.len() as int,
            ),
        decreases bytes@.len() - i,
    {
        buf.set(at + i, bytes[i]);
        i += 1;
        assert(buf@ =~= before.subrange(0, at as int) + bytes@.take(i as int) + before.subrange(
            at + i,
            before.len() as int,
        ));
    }
    assert(bytes@.take(bytes@.len() as int) =~= bytes@);
}

/// Finds the place of `hash` in the range from `start` to `end`.
fn find_place(hashes: &Vec<u64>, start: usize, end: usize, hash: u64) -> (i: usize)
    requires
        start <= end <= hashes@.len(),
    ensures
        i == insertion_point(hashes@, start as int, end as int, hash),
        start <= i <= end,
{
    let mut i: usize = start;
    while i < end && hashes[i] < hash
        invariant
            start <= i <= end <= hashes@.len(),
            insertion_point(hashes@, i as int, end as int, hash) == insertion_point(
                hashes@,
                start as int,
                end as int,
                hash,
            ),
        decreases end - i,
    {
        i += 1;
    }
    i
}

/// Tests whether span `k` can take one more entry.
fn check_spans_can_grow(spans: &Vec<ArchiveSpanEntry>, k: usize) -> (r: bool)
    requires
        k < spans@.len(),
    ensures
        r == spans_can_grow(spans@, k as int),
{
    let len = spans.len();
    if spans[k].size == u32::MAX {
        return false;
    }
    let mut m: usize = k + 1;
    while m < spans.len()
        invariant
            k < m <= spans@.len(),
            forall|n: int| k < n < m ==> (#[trigger] spans@[n]).offset < u32::MAX,
        decreases spans@.len() - m,
    {
        if spans[m].offset == u32::MAX {
            return false;
        }
        m += 1;
    }
    true
}

/// Makes span `k` larger by one and moves every later span one further on.
fn grow_spans(spans: &mut Vec<ArchiveSpanEntry>, k: usize)
    requires
        k < old(spans)@.len(),
        spans_can_grow(old(spans)@, k as int),
    ensures
        final(spans)@ == grown_spans(old(spans)@, k as int),
{
    let ghost before = spans@;
    let len = spans.len();
    let span = spans[k];
    spans.set(k, ArchiveSpanEntry { offset: span.offset, size: span.size + 1 });
    let mut m: usize = k + 1;
    while m < spans.len()
        invariant
            k < m <= spans@.len(),
            spans@.len() == before.len(),
            spans_can_grow(before, k as int),
            forall|n: int| 0 <= n < m ==> spans@[n] == grown_spans(before, k as int)[n],
            forall|n: int| m <= n < spans@.len() ==> spans@[n] == before[n],
        decreases spans@.len() - m,
    {
        let later = spans[m];
        assert(before[m as int].offset < u32::MAX);
        spans.set(m, ArchiveSpanEntry { offset: later.offset + 1, size: later.size });
        m += 1;
    }
    assert(spans@ =~= grown_spans(before, k as int));
}

/// Tests whether the chunk indices from index `i` on can be raised by one.
fn check_sizes_can_grow(sizes: &Vec<ArchiveSizeEntry>, i: usize) -> (r: bool)
    requires
        i <= sizes@.len(),
    ensures
        r == sizes_can_grow(sizes@, i as int),
{
    let mut j: usize = i;
    while j < sizes.len()
        invariant
            i <= j <= sizes@.len(),
            forall|n: int| i <= n < j ==> (#[trigger] sizes@[n]).chunk_idx < u32::MAX,
        decreases sizes@.len() - j,
    {
        if sizes[j].chunk_idx == u32::MAX {
            return false;
        }
        j += 1;
    }
    true
}

/// Inserts a size entry of a single chunk at index `i` and lets every entry
/// behind it point one chunk further on.
fn grow_sizes(sizes: &mut Vec<ArchiveSizeEntry>, i: usize, size: u32)
    requires
        i <= old(sizes)@.len(),
        i <= u32::MAX,
        sizes_can_grow(old(sizes)@, i as int),
    ensures
        final(sizes)@ == grown_sizes(old(sizes)@, i as int, size),
{
    let ghost before = sizes@;
    sizes.insert(i, ArchiveSizeEntry { chunks: 1, size, chunk_idx: i as u32 });
    let len = sizes.len();
    let mut j: usize = i + 1;
    while j < sizes.len()
        invariant
            i < j <= sizes@.len(),
            sizes@.len() == before.len() + 1,
            sizes_can_grow(before, i as int),
            forall|n: int| 0 <= n < j ==> sizes@[n] == grown_sizes(before, i as int, size)[n],
            forall|n: int| j <= n < sizes@.len() ==> sizes@[n] == before[n - 1],
        decreases sizes@.len() - j,
    {
        let entry = sizes[j];
        assert(before[j - 1].chunk_idx < u32::MAX);
        sizes.set(
            j,
            ArchiveSizeEntry {
                chunks: entry.chunks,
                size: entry.size,
                chunk_idx: entry.chunk_idx + 1,
            },
        );
        j += 1;
    }
    assert(sizes@ =~= grown_sizes(before, i as int, size));
}

/// Finds the first file entry that is named `name`.
fn find_named(files: &Vec<ArchiveFileEntry>, name: &[u8]) -> (r: Option<usize>)
    ensures
        match r {
            Some(i) => index_of(files@, name@) == Some(i as int) && i < files@.len(),
            None => index_of(files@, name@) is None,
        },
{
    let mut i: usize = 0;
    while i < files.len()
        invariant
            i <= files@.len(),
            entry::first_named(files@, name@, i as int) == entry::first_named(files@, name@, 0),
        decreases files@.len() - i,
    {
        if files[i].is_named(name) {
            return Some(i);
        }
        i += 1;
    }
    None
}

impl Toc {
    /// Reads a manifest out of a container: takes the container apart and
    /// parses the body. The outcome is `spec_read` of the bytes.
    pub fn read(container: &[u8]) -> (r: Result<Toc, TocError>)
        ensures
            match r {
                Ok(toc) => spec_read(container@) == Ok::<TocView, TocError>(toc@),
                Err(e) => spec_read(container@) == Err::<TocView, TocError>(e),
            },
    {
        let toc_buf = Toc::decompress(container)?;
        Toc::parse(toc_buf)
    }

    /// Parses a manifest body.
    ///
    /// The outcome is `spec_parse` of the bytes: the manifest that they hold,
    /// or the first failure met while reading the header and then the six
    /// sections in their fixed order. In particular size entries that are not
    /// as many as the asset hashes give `SectionSizeMismatch` and no manifest.
    pub fn parse(buf: Vec<u8>) -> (r: Result<Toc, TocError>)
        ensures
            match r {
                Ok(toc) => spec_parse(buf@) == Ok::<TocView, TocError>(toc@),
                Err(e) => spec_parse(buf@) == Err::<TocView, TocError>(e),
            },
    {
        let bytes = buf.as_slice();
        if bytes.len() < header::HEADER_LEN {
            return Err(TocError::MalformedHeader);
        }
        let mut off: usize = 0;
        let header = header::parse(slice_subrange(bytes, 0, 16))?;
        off += 16;

        let (file_section, file_entries) = Toc::_parse_section::<ArchiveFileEntry>(
            bytes,
            &mut off,
        )?;
        let (asset_section, asset_hashes) = Toc::_parse_section::<u64>(bytes, &mut off)?;
        let (size_section, size_entries) = Toc::_parse_section::<ArchiveSizeEntry>(
            bytes,
            &mut off,
        )?;
        if size_entries.len() != asset_hashes.len() {
            return Err(TocError::SectionSizeMismatch);
        }
        let (key_section, key_hashes) = Toc::_parse_section::<u64>(bytes, &mut off)?;
        let (chunk_section, chunk_entries) = Toc::_parse_section::<ArchiveChunkEntry>(
            bytes,
            &mut off,
        )?;
        let (span_section, span_entries) = Toc::_parse_section::<ArchiveSpanEntry>(
            bytes,
            &mut off,
        )?;
        let sections = SectionDirectory {
            file_entries: file_section,
            asset_hashes: asset_section,
            size_entries: size_section,
            key_hashes: key_section,
            chunk_entries: chunk_section,
            span_entries: span_section,
        };
        let toc = Toc {
            header,
            sections,
            file_entries,
            asset_hashes,
            size_entries,
            key_hashes,
            chunk_entries,
            span_entries,
        };
        assert(spec_parse(buf@)->Ok_0 =~= toc@);
        Ok(toc)
    }

    /// Takes a container apart: checks the signature, passes over the length
    /// field and decodes the zlib stream. The outcome is `spec_decompress` of
    /// the bytes.
    pub fn decompress(buf: &[u8]) -> (r: Result<Vec<u8>, TocError>)
        ensures
            match r {
                Ok(body) => spec_decompress(buf@) == Ok::<Seq<u8>, TocError>(body@),
                Err(e) => spec_decompress(buf@) == Err::<Seq<u8>, TocError>(e),
            },
    {
        let stream = container::payload(buf)?;
        match container::zlib_decode(stream) {
            Ok(body) => Ok(body),
            Err(_) => Err(TocError::CodecError),
        }
    }

    /// Packs a manifest body into a container, at the highest compression
    /// level.
    ///
    /// The outcome is `spec_compress` of the body, and a container so made is
    /// taken apart to the body again.
    pub fn compress(buf: Vec<u8>) -> (r: Result<Vec<u8>, TocError>)
        ensures
            match r {
                Ok(packed) => spec_compress(buf@) == Ok::<Seq<u8>, TocError>(packed@),
                Err(e) => spec_compress(buf@) == Err::<Seq<u8>, TocError>(e),
            },
            r matches Ok(packed) ==> spec_decompress(packed@) == Ok::<Seq<u8>, TocError>(buf@),
    {
        match container::zlib_encode(buf.as_slice(), container::BEST_COMPRESSION) {
            Ok(stream) => {
                proof {
                    container::lemma_frame_round_trip(buf@, stream@);
                }
                Ok(container::frame(buf.len(), &stream))
            },
            Err(_) => Err(TocError::CodecError),
        }
    }

    /// Writes the manifest, packed into a container, behind what `sink`
    /// holds. Where packing fails the sink is left as it was.
    ///
    /// What was written reads back: where the manifest is writable, `read`
    /// gives it again from the container, with the same tables and with the
    /// header and the directory that were written.
    pub fn save_to(&self, sink: &mut Vec<u8>) -> (r: Result<(), TocError>)
        ensures
            match r {
                Ok(()) => {
                    &&& spec_compress(self@.serialize()) is Ok
                    &&& final(sink)@ == old(sink)@ + spec_compress(self@.serialize())->Ok_0
                    &&& self@.writable() ==> spec_read(spec_compress(self@.serialize())->Ok_0)
                        == Ok::<TocView, TocError>(self@.rewritten())
                },
                Err(e) => {
                    &&& spec_compress(self@.serialize()) == Err::<Seq<u8>, TocError>(e)
                    &&& final(sink)@ == old(sink)@
                },
            },
    {
        let body = self.as_buf();
        let packed = Toc::compress(body)?;
        proof {
            if self@.writable() {
                layout::lemma_parse_serialize(self@);
            }
        }
        let mut i: usize = 0;
        assert(sink@ =~= old(sink)@ + packed@.take(0));
        while i < packed.len()
            invariant
                i <= packed@.len(),
                sink@ == old(sink)@ + packed@.take(i as int),
            decreases packed@.len() - i,
        {
            sink.push(packed[i]);
            i += 1;
            assert(sink@ =~= old(sink)@ + packed@.take(i as int));
        }
        assert(packed@.take(packed@.len() as int) =~= packed@);
        Ok(())
    }

    /// Writes the manifest body: the header, the directory, the identifier
    /// field and the six tables in section order. The directory is made anew
    /// from where the tables come to lie, and the header takes the length of
    /// the whole as its size.
    pub fn as_buf(&self) -> (buf: Vec<u8>)
        ensures
            buf@ == self@.serialize(),
    {
        let ghost t = self@;
        let mut buf: Vec<u8> = Vec::new();
        // The size is not known yet, and neither is the directory.
        self.header.encode(&mut buf);
        put_zeros(&mut buf, 72);
        put_ident(&mut buf);
        proof {
            self.header.lemma_layout();
            assert(TocHeader::spec_size() == 16);
        }
        let ghost prefix = buf@;
        assert(prefix.len() == 112);

        let file_start = buf.len();
        crate::utils::put_all(&self.file_entries, &mut buf);
        let asset_start = buf.len();
        crate::utils::put_all(&self.asset_hashes, &mut buf);
        let size_start = buf.len();
        crate::utils::put_all(&self.size_entries, &mut buf);
        let key_start = buf.len();
        crate::utils::put_all(&self.key_hashes, &mut buf);
        let chunk_start = buf.len();
        crate::utils::put_all(&self.chunk_entries, &mut buf);
        let span_start = buf.len();
        crate::utils::put_all(&self.span_entries, &mut buf);
        let end = buf.len();
        proof {
            reveal_with_fuel(TocView::table_end, 7);
            assert(buf@ =~= prefix + t.tables());
            assert(file_start == t.table_start(Section::FileEntries));
            assert(asset_start == t.table_start(Section::AssetHashes));
            assert(size_start == t.table_start(Section::SizeEntries));
            assert(key_start == t.table_start(Section::KeyHashes));
            assert(chunk_start == t.table_start(Section::ChunkEntries));
            assert(span_start == t.table_start(Section::SpanEntries));
            assert(end == t.serialized_len());
        }

        let directory = SectionDirectory {
            file_entries: SectionInfo {
                hash: self.sections.file_entries.hash,
                offset: low_u32(file_start),
                size: low_u32(asset_start - file_start),
            },
            asset_hashes: SectionInfo {
                hash: self.sections.asset_hashes.hash,
                offset: low_u32(asset_start),
                size: low_u32(size_start - asset_start),
            },
            size_entries: SectionInfo {
                hash: self.sections.size_entries.hash,
                offset: low_u32(size_start),
                size: low_u32(key_start - size_start),
            },
            key_hashes: SectionInfo {
                hash: self.sections.key_hashes.hash,
                offset: low_u32(key_start),
                size: low_u32(chunk_start - key_start),
            },
            chunk_entries: SectionInfo {
                hash: self.sections.chunk_entries.hash,
                offset: low_u32(chunk_start),
                size: low_u32(span_start - chunk_start),
            },
            span_entries: SectionInfo {
                hash: self.sections.span_entries.hash,
                offset: low_u32(span_start),
                size: low_u32(end - span_start),
            },
        };
        assert(directory == t.written_directory());
        let mut directory_bytes: Vec<u8> = Vec::new();
        directory.encode(&mut directory_bytes);
        let mut size_bytes: Vec<u8> = Vec::new();
        low_u32(end).encode(&mut size_bytes);
        proof {
            layout::lemma_prefix_len(t);
            assert(directory_bytes@ =~= t.written_directory().spec_encode());
            assert(size_bytes@ =~= crate::utils::u32_le(t.serialized_len() as u32));
            crate::utils::lemma_u32_le_round_trip(t.serialized_len() as u32);
            crate::utils::lemma_u32_le_round_trip(t.header.magic);
            crate::utils::lemma_u32_le_round_trip(t.header.hash);
            crate::utils::lemma_u32_le_round_trip(t.header.size);
            crate::utils::lemma_u32_le_round_trip(t.header.sections);
        }
        patch(&mut buf, layout::DIRECTORY_START, &directory_bytes);
        patch(&mut buf, 8, &size_bytes);
        assert(buf@ =~= t.serialize());
        buf
    }

    /// Adds an asset to span `span_idx`, or gives the asset that has `hash`
    /// there already a new size and chunk.
    ///
    /// The outcome is `spec_add_entry` of the manifest and the arguments, the
    /// name taken as its UTF-8 bytes. A call that fails changes nothing. A
    /// call on a manifest whose asset tables are structured leaves them so.
    pub fn add_entry(
        &mut self,
        file_name: String,
        offset: u32,
        size: u32,
        hash: u64,
        span_idx: usize,
    ) -> (r: Result<(), TocError>)
        ensures
            match r {
                Ok(()) => spec_add_entry(
                    old(self)@,
                    name_bytes(file_name@),
                    offset,
                    size,
                    hash,
                    span_idx as int,
                ) == Ok::<TocView, TocError>(final(self)@),
                Err(e) => {
                    &&& spec_add_entry(
                        old(self)@,
                        name_bytes(file_name@),
                        offset,
                        size,
                        hash,
                        span_idx as int,
                    ) == Err::<TocView, TocError>(e)
                    &&& final(self)@ == old(self)@
                },
            },
            final(self)@ == after_add_entry(
                old(self)@,
                name_bytes(file_name@),
                offset,
                size,
                hash,
                span_idx as int,
            ),
            old(self)@.structured() ==> final(self)@.structured(),
    {
        let ghost t = self@;
        let ghost name_seq = name_bytes(file_name@);
        proof {
            if t.structured() {
                entry::lemma_add_entry_structured(
                    t,
                    name_seq,
                    offset,
                    size,
                    hash,
                    span_idx as int,
                );
            }
        }
        if span_idx >= self.span_entries.len() {
            return Err(TocError::InvalidSpan);
        }
        let name = file_name.as_str().as_bytes();
        if name.len() > FILE_NAME_LEN {
            return Err(TocError::InvalidFileName);
        }
        if self.size_entries.len() != self.asset_hashes.len() {
            return Err(TocError::SectionSizeMismatch);
        }
        let span = self.span_entries[span_idx];
        let span_end: u64 = span.offset as u64 + span.size as u64;
        if span_end > self.asset_hashes.len() as u64 || span_end > u32::MAX as u64 {
            return Err(TocError::InvalidSpan);
        }
        let place = find_place(&self.asset_hashes, span.offset as usize, span_end as usize, hash);
        assert(place == t.place(span_idx as int, hash));

        if place < span_end as usize && self.asset_hashes[place] == hash {
            if place >= self.chunk_entries.len() {
                return Err(TocError::SectionSizeMismatch);
            }
            let file = match find_named(&self.file_entries, name) {
                Some(file) => file,
                None => {
                    return Err(TocError::InvalidFileName);
                },
            };
            self.size_entries.set(
                place,
                ArchiveSizeEntry { chunks: 1, size, chunk_idx: place as u32 },
            );
            self.chunk_entries.set(
                place,
                ArchiveChunkEntry { asset_file: low_u32(file), offset },
            );
            assert(self@ =~= t.updated(place as int, file as int, offset, size));
            return Ok(());
        }
        if !check_spans_can_grow(&self.span_entries, span_idx) {
            return Err(TocError::InvalidSpan);
        }
        if place > self.chunk_entries.len() || self.file_entries.len() > (u32::MAX
            - NEW_CHUNK_MAP_BASE) as usize || !check_sizes_can_grow(&self.size_entries, place) {
            return Err(TocError::SectionSizeMismatch);
        }
        let chunk_map: u32 = NEW_CHUNK_MAP_BASE + self.file_entries.len() as u32;
        let new_file: u32 = self.file_entries.len() as u32;
        let file_entry = ArchiveFileEntry::new(file_name, 0, chunk_map)?;

        grow_spans(&mut self.span_entries, span_idx);
        self.asset_hashes.insert(place, hash);
        self.file_entries.push(file_entry);
        self.chunk_entries.insert(place, ArchiveChunkEntry { asset_file: new_file, offset });
        grow_sizes(&mut self.size_entries, place, size);
        assert(self@ =~= t.inserted(span_idx as int, place as int, name_seq, offset, size, hash));
        Ok(())
    }

    /// The first file entry that is named `file_name`: whose field holds the
    /// UTF-8 bytes of `file_name` with nothing but zero filling behind them.
    /// `None` where no entry is named so.
    pub fn find_entry(&self, file_name: String) -> (r: Option<&ArchiveFileEntry>)
        ensures
            match r {
                Some(found) => exists|i: int|
                    {
                        &&& 0 <= i < self@.file_entries.len()
                        &&& *found == #[trigger] self@.file_entries[i]
                        &&& found.spec_is_named(name_bytes(file_name@))
                        &&& forall|j: int|
                            0 <= j < i ==> !(#[trigger] self@.file_entries[j]).spec_is_named(
                                name_bytes(file_name@),
                            )
                        &&& index_of(self@.file_entries, name_bytes(file_name@)) == Some(i)
                    },
                None => {
                    &&& forall|j: int|
                        0 <= j < self@.file_entries.len() ==> !(
                        #[trigger] self@.file_entries[j]).spec_is_named(name_bytes(file_name@))
                    &&& index_of(self@.file_entries, name_bytes(file_name@)) is None
                },
            },
    {
        proof {
            entry::lemma_index_of(self@.file_entries, name_bytes(file_name@));
        }
        match find_named(&self.file_entries, file_name.as_str().as_bytes()) {
            Some(i) => {
                assert(self@.file_entries[i as int] == self.file_entries@[i as int]);
                Some(&self.file_entries[i])
            },
            None => None,
        }
    }

    /// The index of the first file entry that is named `file_name`: whose
    /// field holds the UTF-8 bytes of `file_name` with nothing but zero
    /// filling behind them. `None` where no entry is named so.
    pub fn index_of_entry(&self, file_name: String) -> (r: Option<usize>)
        ensures
            match r {
                Some(i) => {
                    &&& i < self@.file_entries.len()
                    &&& self@.file_entries[i as int].spec_is_named(name_bytes(file_name@))
                    &&& forall|j: int|
                        0 <= j < i ==> !(#[trigger] self@.file_entries[j]).spec_is_named(
                            name_bytes(file_name@),
                        )
                    &&& index_of(self@.file_entries, name_bytes(file_name@)) == Some(i as int)
                },
                None => {
                    &&& forall|j: int|
                        0 <= j < self@.file_entries.len() ==> !(
                        #[trigger] self@.file_entries[j]).spec_is_named(name_bytes(file_name@))
                    &&& index_of(self@.file_entries, name_bytes(file_name@)) is None
                },
            },
    {
        proof {
            entry::lemma_index_of(self@.file_entries, name_bytes(file_name@));
        }
        find_named(&self.file_entries, file_name.as_str().as_bytes())
    }

    /// Reads the directory entry at `offset` and the records that it names,
    /// and moves `offset` on to the next directory entry. Where either lies
    /// outside the body, the result is `MalformedSection` and `offset` stays.
    fn _parse_section<T: Record>(buf: &[u8], offset: &mut usize) -> (r: Result<
        (SectionInfo, Vec<T>),
        TocError,
    >)
        ensures
            match r {
                Ok((info, items)) => {
                    &&& section_at(buf@, *old(offset) as int) is Some
                    &&& section_at(buf@, *old(offset) as int)->Some_0.0 == info
                    &&& items@ == decode_all::<T>(section_at(buf@, *old(offset) as int)->Some_0.1)
                    &&& *final(offset) == *old(offset) + 12
                },
                Err(e) => {
                    &&& e == TocError::MalformedSection
                    &&& section_at(buf@, *old(offset) as int) is None
                    &&& *final(offset) == *old(offset)
                },
            },
    {
        let at = *offset;
        if buf.len() < 12 || at > buf.len() - 12 {
            return Err(TocError::MalformedSection);
        }
        let section = Toc::_parse_section_info(slice_subrange(buf, at, at + 12))?;
        assert(buf@.subrange(at as int, at + 12).subrange(0, 12) =~= buf@.subrange(
            at as int,
            at + 12,
        ));
        assert(info_at(buf@, at as int) == Some(section));
        let data_end: u64 = section.offset as u64 + section.size as u64;
        if data_end > buf.len() as u64 {
            return Err(TocError::MalformedSection);
        }
        let data = Toc::_parse_buf::<T>(
            slice_subrange(buf, section.offset as usize, data_end as usize),
        );
        *offset = at + 12;
        Ok((section, data))
    }

    /// Reads every whole record that `buf` holds.
    fn _parse_buf<T: Record>(buf: &[u8]) -> (items: Vec<T>)
        ensures
            items@ == decode_all::<T>(buf@),
    {
        crate::utils::get_all(buf)
    }

    /// Reads a directory entry from the first twelve bytes of `buf`.
    fn _parse_section_info(buf: &[u8]) -> (r: Result<SectionInfo, TocError>)
        ensures
            match r {
                Ok(info) => buf@.len() >= 12 && info == SectionInfo::spec_decode(
                    buf@.subrange(0, 12),
                ),
                Err(e) => e == TocError::MalformedSection && buf@.len() < 12,
            },
    {
        if buf.len() < 12 {
            return Err(TocError::MalformedSection);
        }
        Ok(SectionInfo::decode(buf, 0))
    }

    /// The header as it was read.
    pub fn header(&self) -> (r: TocHeader)
        ensures
            r == self@.header,
    {
        self.header
    }

    /// The directory entry of section `s` as it was read.
    pub fn section(&self, s: Section) -> (r: SectionInfo)
        ensures
            r == self@.sections.spec_get(s),
    {
        self.sections.get(s)
    }

    /// The file entries.
    pub fn file_entries(&self) -> (r: &Vec<ArchiveFileEntry>)
        ensures
            r@ == self@.file_entries,
    {
        &self.file_entries
    }

    /// The asset hashes.
    pub fn asset_hashes(&self) -> (r: &Vec<u64>)
        ensures
            r@ == self@.asset_hashes,
    {
        &self.asset_hashes
    }

    /// The size entries.
    pub fn size_entries(&self) -> (r: &Vec<ArchiveSizeEntry>)
        ensures
            r@ == self@.size_entries,
    {
        &self.size_entries
    }

    /// The key hashes.
    pub fn key_hashes(&self) -> (r: &Vec<u64>)
        ensures
            r@ == self@.key_hashes,
    {
        &self.key_hashes
    }

    /// The chunk entries.
    pub fn chunk_entries(&self) -> (r: &Vec<ArchiveChunkEntry>)
        ensures
            r@ == self@.chunk_entries,
    {
        &self.chunk_entries
    }

    /// The span entries.
    pub fn span_entries(&self) -> (r: &Vec<ArchiveSpanEntry>)
        ensures
            r@ == self@.span_entries,
    {
        &self.span_entries
    }
}

} // verus!
