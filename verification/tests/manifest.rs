use archive_toc::error::TocError;
use archive_toc::toc::header;
use archive_toc::toc::header::TocHeader;
use archive_toc::toc::section::{
    ArchiveChunkEntry, ArchiveFileEntry, ArchiveSizeEntry, ArchiveSpanEntry, Section, SectionInfo,
};
use archive_toc::toc::Toc;
use archive_toc::toc::layout::SectionDirectory;
use archive_toc::utils::{as_buf, from_buf, get_all, put_all, Record};

const MAGIC: [u8; 4] = [0x31, 0x54, 0x41, 0x44];
const IDENT: [u8; 24] = [
    b'A', b'r', b'c', b'h', b'i', b'v', b'e', b'T', b'O', b'C', 0, 0, 0, 0, 0, 0, 0, 0, 0, 0, 0, 0,
    0, 0,
];

fn le32(x: u32) -> [u8; 4] {
    x.to_le_bytes()
}

fn file_bytes(name: &str, bucket: u8, chunk_map: u32) -> Vec<u8> {
    let mut out = vec![0u8, 0, 0, bucket];
    out.extend_from_slice(&le32(chunk_map));
    let mut field = name.as_bytes().to_vec();
    field.resize(64, 0);
    out.extend_from_slice(&field);
    out
}

struct Tables {
    files: Vec<(String, u8, u32)>,
    hashes: Vec<u64>,
    sizes: Vec<(u32, u32, u32)>,
    keys: Vec<u64>,
    chunks: Vec<(u32, u32)>,
    spans: Vec<(u32, u32)>,
}

fn table_data(t: &Tables) -> [Vec<u8>; 6] {
    let mut files = Vec::new();
    for (name, bucket, chunk_map) in &t.files {
        files.extend_from_slice(&file_bytes(name, *bucket, *chunk_map));
    }
    let mut hashes = Vec::new();
    for h in &t.hashes {
        hashes.extend_from_slice(&h.to_le_bytes());
    }
    let mut sizes = Vec::new();
    for (chunks, size, chunk_idx) in &t.sizes {
        sizes.extend_from_slice(&le32(*chunks));
        sizes.extend_from_slice(&le32(*size));
        sizes.extend_from_slice(&le32(*chunk_idx));
    }
    let mut keys = Vec::new();
    for k in &t.keys {
        keys.extend_from_slice(&k.to_le_bytes());
    }
    let mut chunks = Vec::new();
    for (asset_file, offset) in &t.chunks {
        chunks.extend_from_slice(&le32(*asset_file));
        chunks.extend_from_slice(&le32(*offset));
    }
    let mut spans = Vec::new();
    for (offset, size) in &t.spans {
        spans.extend_from_slice(&le32(*offset));
        spans.extend_from_slice(&le32(*size));
    }
    [files, hashes, sizes, keys, chunks, spans]
}

/// A manifest body laid out by hand: the tables in section order from byte
/// 112 on, and `hash_base + k` as the hash of directory entry `k`.
fn manifest(t: &Tables, header_hash: u32, hash_base: u32) -> Vec<u8> {
    let data = table_data(t);
    let total: usize = 112 + data.iter().map(|d| d.len()).sum::<usize>();
    let mut out = Vec::new();
    out.extend_from_slice(&MAGIC);
    out.extend_from_slice(&le32(header_hash));
    out.extend_from_slice(&le32(total as u32));
    out.extend_from_slice(&le32(6));
    let mut at = 112usize;
    for (k, d) in data.iter().enumerate() {
        out.extend_from_slice(&le32(hash_base + k as u32));
        out.extend_from_slice(&le32(at as u32));
        out.extend_from_slice(&le32(d.len() as u32));
        at += d.len();
    }
    out.extend_from_slice(&IDENT);
    for d in data.iter() {
        out.extend_from_slice(d);
    }
    out
}

fn padded(name: &str) -> String {
    let mut s = String::from(name);
    while s.len() < 64 {
        s.push('\0');
    }
    s
}

fn sample() -> Tables {
    Tables {
        files: vec![
            (String::from("alpha"), 1, 7),
            (String::from("beta"), 2, 8),
        ],
        hashes: vec![10, 30, 5, 50, 60],
        sizes: vec![(1, 100, 0), (1, 200, 1), (1, 300, 2), (1, 400, 3), (1, 500, 4)],
        keys: vec![0xdead_beef_0000_0001],
        chunks: vec![(0, 1000), (1, 2000), (0, 3000), (1, 4000), (0, 5000)],
        spans: vec![(0, 2), (2, 3)],
    }
}

fn scenario() -> Tables {
    Tables {
        files: vec![],
        hashes: vec![10, 30],
        sizes: vec![(1, 11, 0), (1, 33, 1)],
        keys: vec![],
        chunks: vec![(0, 1), (0, 3)],
        spans: vec![(0, 2)],
    }
}

fn span_values(toc: &Toc) -> Vec<(u32, u32)> {
    toc.span_entries().iter().map(|s| (s.offset, s.size)).collect()
}

fn size_values(toc: &Toc) -> Vec<(u32, u32, u32)> {
    toc.size_entries().iter().map(|s| (s.chunks, s.size, s.chunk_idx)).collect()
}

fn chunk_values(toc: &Toc) -> Vec<(u32, u32)> {
    toc.chunk_entries().iter().map(|c| (c.asset_file, c.offset)).collect()
}

fn spans_are_sorted(toc: &Toc) -> bool {
    let hashes = toc.asset_hashes();
    toc.span_entries().iter().all(|s| {
        let start = s.offset as usize;
        let end = start + s.size as usize;
        end <= hashes.len() && hashes[start..end].windows(2).all(|w| w[0] <= w[1])
    })
}

// ---------------------------------------------------------------- records

#[test]
fn u32_is_written_least_significant_byte_first() {
    assert_eq!(as_buf(&0x1234_5678u32), vec![0x78, 0x56, 0x34, 0x12]);
    assert_eq!(as_buf(&0u32), vec![0, 0, 0, 0]);
    assert_eq!(as_buf(&u32::MAX), vec![0xff, 0xff, 0xff, 0xff]);
}

#[test]
fn u64_is_written_least_significant_byte_first() {
    assert_eq!(
        as_buf(&0x0102_0304_0506_0708u64),
        vec![0x08, 0x07, 0x06, 0x05, 0x04, 0x03, 0x02, 0x01]
    );
    assert_eq!(as_buf(&u64::MAX), vec![0xff; 8]);
}

#[test]
fn integers_are_read_back_from_their_bytes() {
    let buf = [0xaa, 0x78, 0x56, 0x34, 0x12, 0x08, 0x07, 0x06, 0x05, 0x04, 0x03, 0x02, 0x01];
    assert_eq!(u32::decode(&buf, 1), 0x1234_5678);
    assert_eq!(u64::decode(&buf, 5), 0x0102_0304_0506_0708);
    assert_eq!(u32::size(), 4);
    assert_eq!(u64::size(), 8);
}

#[test]
fn record_sizes_are_those_of_the_format() {
    assert_eq!(TocHeader::size(), 16);
    assert_eq!(SectionInfo::size(), 12);
    assert_eq!(ArchiveFileEntry::size(), 72);
    assert_eq!(ArchiveSizeEntry::size(), 12);
    assert_eq!(ArchiveChunkEntry::size(), 8);
    assert_eq!(ArchiveSpanEntry::size(), 8);
}

#[test]
fn records_are_written_field_by_field() {
    let info = SectionInfo { hash: 1, offset: 0x0102, size: 0x0a0b_0c0d };
    assert_eq!(as_buf(&info), vec![1, 0, 0, 0, 2, 1, 0, 0, 0x0d, 0x0c, 0x0b, 0x0a]);
    let size = ArchiveSizeEntry { chunks: 1, size: 256, chunk_idx: 3 };
    assert_eq!(as_buf(&size), vec![1, 0, 0, 0, 0, 1, 0, 0, 3, 0, 0, 0]);
    let chunk = ArchiveChunkEntry { asset_file: 9, offset: 0x0100_0000 };
    assert_eq!(as_buf(&chunk), vec![9, 0, 0, 0, 0, 0, 0, 1]);
    let span = ArchiveSpanEntry { offset: 4, size: 5 };
    assert_eq!(as_buf(&span), vec![4, 0, 0, 0, 5, 0, 0, 0]);
    let head = TocHeader { magic: 0x4441_5431, hash: 2, size: 3, sections: 6 };
    assert_eq!(
        as_buf(&head),
        vec![0x31, 0x54, 0x41, 0x44, 2, 0, 0, 0, 3, 0, 0, 0, 6, 0, 0, 0]
    );
}

#[test]
fn records_decode_to_what_was_encoded() {
    let entry = ArchiveFileEntry::new(String::from("models/hero.model"), 3, 0xcafe).unwrap();
    let bytes = as_buf(&entry);
    assert_eq!(bytes, file_bytes("models/hero.model", 3, 0xcafe));
    let back = ArchiveFileEntry::decode(&bytes, 0);
    assert_eq!(back._padding, [0, 0, 0]);
    assert_eq!(back.install_bucket, 3);
    assert_eq!(back.chunk_map, 0xcafe);
    assert_eq!(back.file_name_bytes, entry.file_name_bytes);

    let size = ArchiveSizeEntry { chunks: 7, size: u32::MAX, chunk_idx: 12 };
    assert_eq!(ArchiveSizeEntry::decode(&as_buf(&size), 0), size);
    let info = SectionInfo { hash: 0xffff_0000, offset: 112, size: 72 };
    assert_eq!(SectionInfo::decode(&as_buf(&info), 0), info);
}

#[test]
fn from_buf_reads_what_as_buf_wrote() {
    let span: ArchiveSpanEntry = from_buf(&[4, 0, 0, 0, 5, 1, 0, 0]);
    assert_eq!(span, ArchiveSpanEntry { offset: 4, size: 261 });
    let chunk = ArchiveChunkEntry { asset_file: 0xdead_beef, offset: 0x0bad_f00d };
    assert_eq!(from_buf::<ArchiveChunkEntry>(&as_buf(&chunk)), chunk);
    let hash: u64 = from_buf(&[1, 0, 0, 0, 0, 0, 0, 0x80]);
    assert_eq!(hash, 0x8000_0000_0000_0001);
}

#[test]
fn directory_is_written_in_section_order() {
    let info = |k: u32| SectionInfo { hash: k, offset: 10 * k, size: 100 * k };
    let directory = SectionDirectory {
        file_entries: info(1),
        asset_hashes: info(2),
        size_entries: info(3),
        key_hashes: info(4),
        chunk_entries: info(5),
        span_entries: info(6),
    };
    assert_eq!(directory.get(Section::FileEntries), info(1));
    assert_eq!(directory.get(Section::KeyHashes), info(4));
    assert_eq!(directory.get(Section::SpanEntries), info(6));
    let mut bytes = Vec::new();
    directory.encode(&mut bytes);
    assert_eq!(bytes.len(), 72);
    for k in 0..6u32 {
        let at = 12 * k as usize;
        assert_eq!(SectionInfo::decode(&bytes, at), info(k + 1));
    }
}

#[test]
fn a_run_of_records_ignores_bytes_left_over() {
    let mut bytes = Vec::new();
    put_all(&vec![1u64, 2, 3], &mut bytes);
    assert_eq!(bytes.len(), 24);
    bytes.extend_from_slice(&[9, 9, 9]);
    let back: Vec<u64> = get_all(&bytes);
    assert_eq!(back, vec![1, 2, 3]);
    let none: Vec<u64> = get_all(&bytes[..7]);
    assert!(none.is_empty());
}

#[test]
fn sections_have_fixed_positions() {
    assert_eq!(Section::FileEntries.position(), 0);
    assert_eq!(Section::AssetHashes.position(), 1);
    assert_eq!(Section::SizeEntries.position(), 2);
    assert_eq!(Section::KeyHashes.position(), 3);
    assert_eq!(Section::ChunkEntries.position(), 4);
    assert_eq!(Section::SpanEntries.position(), 5);
}

// ------------------------------------------------------------ file entries

#[test]
fn file_entry_holds_the_name_filled_up_with_zero_bytes() {
    let entry = ArchiveFileEntry::new(String::from("a"), 0, 10000).unwrap();
    let mut expected = [0u8; 64];
    expected[0] = b'a';
    assert_eq!(entry.file_name_bytes, expected);
    assert_eq!(entry._padding, [0, 0, 0]);
    assert_eq!(entry.install_bucket, 0);
    assert_eq!(entry.chunk_map, 10000);
    assert_eq!(entry.get_file_name(), Ok(String::from("a")));
}

#[test]
fn file_name_is_the_field_without_its_zero_filling() {
    for name in ["a", "models/hero.model", "\u{20ac}uro", "sp ace", ""] {
        let entry = ArchiveFileEntry::new(String::from(name), 0, 0).unwrap();
        assert_eq!(entry.get_file_name(), Ok(String::from(name)));
    }
    let longest = "m".repeat(63);
    let entry = ArchiveFileEntry::new(longest.clone(), 0, 0).unwrap();
    assert_eq!(entry.get_file_name(), Ok(longest));
}

#[test]
fn file_name_keeps_zero_bytes_that_stand_before_its_end() {
    let mut entry = ArchiveFileEntry::new(String::from("a"), 0, 0).unwrap();
    entry.file_name_bytes[2] = b'b';
    assert_eq!(entry.get_file_name(), Ok(String::from("a\0b")));
    assert!(entry.is_named(b"a\0b"));
    assert!(!entry.is_named(b"a"));
    assert!(!entry.is_named(b"ab"));
}

#[test]
fn file_name_drops_zero_characters_at_the_end_of_what_it_was_made_for() {
    let entry = ArchiveFileEntry::new(String::from("a\0\0"), 0, 0).unwrap();
    assert_eq!(entry.get_file_name(), Ok(String::from("a")));
    assert!(entry.is_named(b"a\0\0"));
    assert!(entry.is_named(b"a"));
}

#[test]
fn file_entry_takes_a_name_of_exactly_64_bytes() {
    let name = "n".repeat(64);
    let entry = ArchiveFileEntry::new(name.clone(), 9, 1).unwrap();
    assert_eq!(entry.file_name_bytes, [b'n'; 64]);
    assert_eq!(entry.get_file_name(), Ok(name));
}

#[test]
fn file_entry_refuses_a_name_of_65_bytes() {
    let r = ArchiveFileEntry::new("n".repeat(65), 0, 0);
    assert_eq!(r.err(), Some(TocError::InvalidFileName));
}

#[test]
fn file_entry_counts_bytes_not_characters() {
    // 22 characters of three bytes each are 66 bytes.
    let r = ArchiveFileEntry::new("\u{20ac}".repeat(22), 0, 0);
    assert_eq!(r.err(), Some(TocError::InvalidFileName));
    let ok = ArchiveFileEntry::new("\u{20ac}".repeat(21), 0, 0).unwrap();
    assert_eq!(&ok.file_name_bytes[..3], &[0xe2, 0x82, 0xac]);
    assert_eq!(ok.file_name_bytes[63], 0);
}

#[test]
fn empty_name_gives_a_field_of_zero_bytes() {
    let entry = ArchiveFileEntry::new(String::new(), 0, 0).unwrap();
    assert_eq!(entry.file_name_bytes, [0u8; 64]);
    assert_eq!(entry.get_file_name(), Ok(String::new()));
    assert!(entry.is_named(b""));
    assert!(!entry.is_named(b"a"));
}

#[test]
fn file_name_that_is_not_utf8_is_refused() {
    let mut entry = ArchiveFileEntry::new(String::from("ok"), 0, 0).unwrap();
    entry.file_name_bytes[5] = 0xff;
    assert_eq!(entry.get_file_name(), Err(TocError::InvalidFileName));
}

#[test]
fn is_named_compares_the_name_and_asks_for_zero_filling_behind_it() {
    let entry = ArchiveFileEntry::new(String::from("ab"), 0, 0).unwrap();
    assert!(entry.is_named(b"ab"));
    assert!(!entry.is_named(b"a"));
    assert!(!entry.is_named(b"abc"));
    assert!(!entry.is_named(b"aB"));
    assert!(!entry.is_named(b""));
    // Zero bytes behind the name only repeat the filling.
    assert!(entry.is_named(padded("ab").as_bytes()));
    assert!(!entry.is_named(padded("b").as_bytes()));
}

#[test]
fn is_named_takes_no_name_that_is_longer_than_the_field() {
    let entry = ArchiveFileEntry::new("n".repeat(64), 0, 0).unwrap();
    assert!(entry.is_named("n".repeat(64).as_bytes()));
    assert!(!entry.is_named("n".repeat(65).as_bytes()));
    assert!(!entry.is_named("n".repeat(63).as_bytes()));
    let mut long = "n".repeat(64).into_bytes();
    long.push(0);
    assert!(!entry.is_named(&long));
}

// ------------------------------------------------------------------ header

#[test]
fn header_fields_are_read_little_endian() {
    let bytes = [0x31, 0x54, 0x41, 0x44, 1, 2, 3, 4, 0x70, 0, 0, 0, 6, 0, 0, 0];
    assert_eq!(
        header::parse(&bytes),
        Ok(TocHeader { magic: 0x4441_5431, hash: 0x0403_0201, size: 0x70, sections: 6 })
    );
}

#[test]
fn header_of_another_length_is_malformed() {
    let bytes = [0x31, 0x54, 0x41, 0x44, 1, 2, 3, 4, 0x70, 0, 0, 0, 6, 0, 0, 0, 0];
    assert_eq!(header::parse(&bytes), Err(TocError::MalformedHeader));
    assert_eq!(header::parse(&bytes[..15]), Err(TocError::MalformedHeader));
    assert_eq!(header::parse(&[]), Err(TocError::MalformedHeader));
}

#[test]
fn header_with_a_corrupted_signature_is_refused() {
    let good = [0x31, 0x54, 0x41, 0x44, 1, 2, 3, 4, 0x70, 0, 0, 0, 6, 0, 0, 0];
    for i in 0..4 {
        let mut bytes = good;
        bytes[i] ^= 0x01;
        assert_eq!(header::parse(&bytes), Err(TocError::SignatureMismatch));
    }
    // The signature of the container is not that of the header.
    let mut bytes = good;
    bytes[..4].copy_from_slice(&[0xaf, 0x12, 0xaf, 0x77]);
    assert_eq!(header::parse(&bytes), Err(TocError::SignatureMismatch));
}

// ------------------------------------------------------------------- parse

#[test]
fn parse_reads_the_six_tables() {
    let toc = Toc::parse(manifest(&sample(), 0xabcd, 100)).unwrap();
    assert_eq!(
        toc.header(),
        TocHeader { magic: 0x4441_5431, hash: 0xabcd, size: 112 + 144 + 40 + 60 + 8 + 40 + 16, sections: 6 }
    );
    assert_eq!(toc.file_entries().len(), 2);
    assert_eq!(toc.file_entries()[0].get_file_name(), Ok(String::from("alpha")));
    assert_eq!(toc.file_entries()[0].install_bucket, 1);
    assert_eq!(toc.file_entries()[0].chunk_map, 7);
    assert_eq!(toc.file_entries()[1].get_file_name(), Ok(String::from("beta")));
    assert_eq!(toc.file_entries()[1].install_bucket, 2);
    assert_eq!(toc.file_entries()[1].chunk_map, 8);
    assert_eq!(toc.asset_hashes(), &vec![10, 30, 5, 50, 60]);
    assert_eq!(
        size_values(&toc),
        vec![(1, 100, 0), (1, 200, 1), (1, 300, 2), (1, 400, 3), (1, 500, 4)]
    );
    assert_eq!(toc.key_hashes(), &vec![0xdead_beef_0000_0001]);
    assert_eq!(
        chunk_values(&toc),
        vec![(0, 1000), (1, 2000), (0, 3000), (1, 4000), (0, 5000)]
    );
    assert_eq!(span_values(&toc), vec![(0, 2), (2, 3)]);
}

#[test]
fn parse_keeps_the_directory() {
    let toc = Toc::parse(manifest(&sample(), 0, 100)).unwrap();
    assert_eq!(toc.section(Section::FileEntries), SectionInfo { hash: 100, offset: 112, size: 144 });
    assert_eq!(toc.section(Section::AssetHashes), SectionInfo { hash: 101, offset: 256, size: 40 });
    assert_eq!(toc.section(Section::SizeEntries), SectionInfo { hash: 102, offset: 296, size: 60 });
    assert_eq!(toc.section(Section::KeyHashes), SectionInfo { hash: 103, offset: 356, size: 8 });
    assert_eq!(toc.section(Section::ChunkEntries), SectionInfo { hash: 104, offset: 364, size: 40 });
    assert_eq!(toc.section(Section::SpanEntries), SectionInfo { hash: 105, offset: 404, size: 16 });
}

#[test]
fn parse_follows_the_directory_wherever_it_points() {
    // The same tables, laid out in reverse order behind the identifier.
    let data = table_data(&sample());
    let mut starts = [0usize; 6];
    let mut at = 112usize;
    for k in (0..6).rev() {
        starts[k] = at;
        at += data[k].len();
    }
    let mut out = Vec::new();
    out.extend_from_slice(&MAGIC);
    out.extend_from_slice(&le32(0));
    out.extend_from_slice(&le32(at as u32));
    out.extend_from_slice(&le32(6));
    for k in 0..6 {
        out.extend_from_slice(&le32(0));
        out.extend_from_slice(&le32(starts[k] as u32));
        out.extend_from_slice(&le32(data[k].len() as u32));
    }
    out.extend_from_slice(&IDENT);
    for k in (0..6).rev() {
        out.extend_from_slice(&data[k]);
    }
    let toc = Toc::parse(out).unwrap();
    assert_eq!(toc.asset_hashes(), &vec![10, 30, 5, 50, 60]);
    assert_eq!(span_values(&toc), vec![(0, 2), (2, 3)]);
    assert_eq!(toc.file_entries()[1].get_file_name(), Ok(String::from("beta")));
    assert_eq!(toc.section(Section::SpanEntries).offset, 112);
}

#[test]
fn parse_of_too_few_bytes_is_a_malformed_header() {
    assert_eq!(Toc::parse(vec![]).err(), Some(TocError::MalformedHeader));
    assert_eq!(Toc::parse(MAGIC.to_vec()).err(), Some(TocError::MalformedHeader));
    let body = manifest(&sample(), 0, 0);
    assert_eq!(Toc::parse(body[..15].to_vec()).err(), Some(TocError::MalformedHeader));
}

#[test]
fn parse_refuses_a_wrong_signature() {
    let mut body = manifest(&sample(), 0, 0);
    body[0] = 0x32;
    assert_eq!(Toc::parse(body).err(), Some(TocError::SignatureMismatch));
}

#[test]
fn parse_refuses_a_directory_that_is_cut_off() {
    let body = manifest(&sample(), 0, 0);
    assert_eq!(Toc::parse(body[..16].to_vec()).err(), Some(TocError::MalformedSection));
    assert_eq!(Toc::parse(body[..27].to_vec()).err(), Some(TocError::MalformedSection));
    assert_eq!(Toc::parse(body[..87].to_vec()).err(), Some(TocError::MalformedSection));
}

#[test]
fn parse_refuses_a_section_that_reaches_beyond_the_body() {
    let body = manifest(&sample(), 0, 0);
    assert_eq!(
        Toc::parse(body[..body.len() - 1].to_vec()).err(),
        Some(TocError::MalformedSection)
    );
    let mut far = manifest(&sample(), 0, 0);
    // The offset of the key hashes, at byte 16 + 3 * 12 + 4.
    far[56..60].copy_from_slice(&le32(u32::MAX));
    assert_eq!(Toc::parse(far).err(), Some(TocError::MalformedSection));
}

#[test]
fn parse_refuses_size_entries_that_do_not_match_the_hashes() {
    let mut t = sample();
    t.sizes.pop();
    assert_eq!(Toc::parse(manifest(&t, 0, 0)).err(), Some(TocError::SectionSizeMismatch));
    let mut t = sample();
    t.hashes.pop();
    assert_eq!(Toc::parse(manifest(&t, 0, 0)).err(), Some(TocError::SectionSizeMismatch));
}

#[test]
fn parse_reports_the_mismatch_before_it_reads_the_later_sections() {
    let mut t = sample();
    t.sizes.pop();
    let mut body = manifest(&t, 0, 0);
    // The offset of the span entries, at byte 16 + 5 * 12 + 4.
    body[80..84].copy_from_slice(&le32(u32::MAX));
    assert_eq!(Toc::parse(body).err(), Some(TocError::SectionSizeMismatch));
}

#[test]
fn parse_ignores_bytes_left_over_in_a_section() {
    let mut body = manifest(&scenario(), 0, 0);
    // Let the key hashes, which are empty, cover the first seven bytes of the
    // chunk entries: no whole record.
    body[16 + 3 * 12 + 8..16 + 3 * 12 + 12].copy_from_slice(&le32(7));
    let toc = Toc::parse(body).unwrap();
    assert!(toc.key_hashes().is_empty());
    assert_eq!(toc.section(Section::KeyHashes).size, 7);
}

#[test]
fn parse_takes_an_empty_manifest() {
    let empty = Tables {
        files: vec![],
        hashes: vec![],
        sizes: vec![],
        keys: vec![],
        chunks: vec![],
        spans: vec![],
    };
    let toc = Toc::parse(manifest(&empty, 0, 0)).unwrap();
    assert!(toc.file_entries().is_empty());
    assert!(toc.asset_hashes().is_empty());
    assert!(toc.span_entries().is_empty());
    assert_eq!(toc.header().size, 112);
}

// --------------------------------------------------------------- serialize

#[test]
fn as_buf_of_an_empty_manifest_is_header_directory_and_identifier() {
    let empty = Tables {
        files: vec![],
        hashes: vec![],
        sizes: vec![],
        keys: vec![],
        chunks: vec![],
        spans: vec![],
    };
    let toc = Toc::parse(manifest(&empty, 0x0a0b_0c0d, 0x20)).unwrap();
    let mut expected = vec![0x31, 0x54, 0x41, 0x44, 0x0d, 0x0c, 0x0b, 0x0a, 112, 0, 0, 0, 6, 0, 0, 0];
    for k in 0..6u8 {
        expected.extend_from_slice(&[0x20 + k, 0, 0, 0, 112, 0, 0, 0, 0, 0, 0, 0]);
    }
    expected.extend_from_slice(b"ArchiveTOC");
    expected.extend_from_slice(&[0u8; 14]);
    assert_eq!(expected.len(), 112);
    assert_eq!(toc.as_buf(), expected);
}

#[test]
fn as_buf_lays_the_tables_out_in_section_order() {
    let body = manifest(&sample(), 0x55, 900);
    let toc = Toc::parse(body.clone()).unwrap();
    assert_eq!(toc.as_buf(), body);
}

#[test]
fn as_buf_makes_the_directory_anew() {
    // A manifest whose tables lie in reverse order, and whose header states a
    // wrong size, is written in section order with the right size.
    let data = table_data(&sample());
    let mut starts = [0usize; 6];
    let mut at = 112usize;
    for k in (0..6).rev() {
        starts[k] = at;
        at += data[k].len();
    }
    let mut out = Vec::new();
    out.extend_from_slice(&MAGIC);
    out.extend_from_slice(&le32(0x55));
    out.extend_from_slice(&le32(1));
    out.extend_from_slice(&le32(6));
    for k in 0..6 {
        out.extend_from_slice(&le32(900 + k as u32));
        out.extend_from_slice(&le32(starts[k] as u32));
        out.extend_from_slice(&le32(data[k].len() as u32));
    }
    out.extend_from_slice(&IDENT);
    for k in (0..6).rev() {
        out.extend_from_slice(&data[k]);
    }
    let toc = Toc::parse(out).unwrap();
    assert_eq!(toc.as_buf(), manifest(&sample(), 0x55, 900));
}

#[test]
fn written_manifest_reads_back_with_the_same_tables() {
    let first = Toc::parse(manifest(&sample(), 1, 2)).unwrap();
    let again = Toc::parse(first.as_buf()).unwrap();
    assert_eq!(again.asset_hashes(), first.asset_hashes());
    assert_eq!(again.key_hashes(), first.key_hashes());
    assert_eq!(size_values(&again), size_values(&first));
    assert_eq!(chunk_values(&again), chunk_values(&first));
    assert_eq!(span_values(&again), span_values(&first));
    assert_eq!(again.file_entries().len(), first.file_entries().len());
    for (a, b) in again.file_entries().iter().zip(first.file_entries().iter()) {
        assert_eq!(as_buf(a), as_buf(b));
    }
    assert_eq!(again.as_buf(), first.as_buf());
}

#[test]
fn written_manifest_reads_back_after_entries_were_added() {
    let mut toc = Toc::parse(manifest(&sample(), 1, 2)).unwrap();
    toc.add_entry(String::from("gamma"), 6000, 600, 20, 0).unwrap();
    toc.add_entry(String::from("delta"), 7000, 700, 70, 1).unwrap();
    let body = toc.as_buf();
    assert_eq!(body.len(), 112 + 4 * 72 + 7 * 8 + 7 * 12 + 8 + 7 * 8 + 2 * 8);
    assert_eq!(&body[8..12], &le32(body.len() as u32));
    let again = Toc::parse(body.clone()).unwrap();
    assert_eq!(again.asset_hashes(), &vec![10, 20, 30, 5, 50, 60, 70]);
    assert_eq!(span_values(&again), vec![(0, 3), (3, 4)]);
    assert_eq!(size_values(&again), size_values(&toc));
    assert_eq!(chunk_values(&again), chunk_values(&toc));
    assert_eq!(again.as_buf(), body);
}

// ------------------------------------------------------------------ lookup

#[test]
fn find_entry_finds_a_file_by_its_name() {
    let toc = Toc::parse(manifest(&sample(), 0, 0)).unwrap();
    let found = toc.find_entry(String::from("beta")).unwrap();
    assert_eq!(found.chunk_map, 8);
    assert_eq!(found.install_bucket, 2);
    assert_eq!(found.get_file_name(), Ok(String::from("beta")));
    assert!(toc.find_entry(String::from("gamma")).is_none());
    assert!(toc.find_entry(String::from("bet")).is_none());
    assert!(toc.find_entry(String::from("betas")).is_none());
    assert!(toc.find_entry(String::new()).is_none());
    assert!(toc.find_entry("b".repeat(65)).is_none());
    // The name filled up as it is stored names the same file.
    assert_eq!(toc.find_entry(padded("beta")).unwrap().chunk_map, 8);
}

#[test]
fn index_of_entry_gives_the_first_match() {
    let mut t = sample();
    t.files.push((String::from("alpha"), 9, 99));
    let toc = Toc::parse(manifest(&t, 0, 0)).unwrap();
    assert_eq!(toc.index_of_entry(String::from("alpha")), Some(0));
    assert_eq!(toc.index_of_entry(String::from("beta")), Some(1));
    assert_eq!(toc.index_of_entry(String::from("gamma")), None);
    assert_eq!(toc.index_of_entry(String::from("alph")), None);
    assert_eq!(toc.find_entry(String::from("alpha")).unwrap().chunk_map, 7);
}

#[test]
fn lookup_finds_a_name_of_64_bytes() {
    let name = "x".repeat(64);
    let mut t = sample();
    t.files.push((name.clone(), 0, 3));
    let toc = Toc::parse(manifest(&t, 0, 0)).unwrap();
    assert_eq!(toc.index_of_entry(name), Some(2));
}

#[test]
fn lookup_passes_over_names_that_are_not_utf8() {
    let mut body = manifest(&sample(), 0, 0);
    // The name field of the first file entry starts at byte 112 + 8.
    body[120] = 0xff;
    let toc = Toc::parse(body).unwrap();
    assert_eq!(toc.index_of_entry(String::from("beta")), Some(1));
    assert_eq!(toc.index_of_entry(String::from("alpha")), None);
    assert_eq!(toc.file_entries()[0].get_file_name(), Err(TocError::InvalidFileName));
}

// --------------------------------------------------------------- add_entry

#[test]
fn add_entry_inserts_between_two_hashes() {
    let mut toc = Toc::parse(manifest(&scenario(), 0, 0)).unwrap();
    assert_eq!(toc.add_entry(String::from("a"), 5, 100, 20, 0), Ok(()));
    assert_eq!(toc.asset_hashes(), &vec![10, 20, 30]);
    assert_eq!(span_values(&toc), vec![(0, 3)]);
    assert_eq!(toc.file_entries().len(), 1);
    let file = &toc.file_entries()[0];
    assert_eq!(file.get_file_name(), Ok(String::from("a")));
    assert_eq!(file.chunk_map, 10000);
    assert_eq!(file.install_bucket, 0);
    assert_eq!(file._padding, [0, 0, 0]);
    assert_eq!(toc.index_of_entry(String::from("a")), Some(0));
    assert_eq!(toc.find_entry(String::from("a")).unwrap().chunk_map, 10000);
    assert_eq!(size_values(&toc), vec![(1, 11, 0), (1, 100, 1), (1, 33, 2)]);
    assert_eq!(chunk_values(&toc), vec![(0, 1), (0, 5), (0, 3)]);
}

#[test]
fn add_entry_inserts_at_the_start_and_at_the_end_of_a_span() {
    let mut toc = Toc::parse(manifest(&scenario(), 0, 0)).unwrap();
    assert_eq!(toc.add_entry(String::from("low"), 1, 1, 3, 0), Ok(()));
    assert_eq!(toc.asset_hashes(), &vec![3, 10, 30]);
    assert_eq!(toc.add_entry(String::from("high"), 2, 2, 99, 0), Ok(()));
    assert_eq!(toc.asset_hashes(), &vec![3, 10, 30, 99]);
    assert_eq!(span_values(&toc), vec![(0, 4)]);
    assert_eq!(toc.file_entries()[0].chunk_map, 10000);
    assert_eq!(toc.file_entries()[1].chunk_map, 10001);
    assert_eq!(chunk_values(&toc), vec![(0, 1), (0, 1), (0, 3), (1, 2)]);
    assert_eq!(size_values(&toc), vec![(1, 1, 0), (1, 11, 1), (1, 33, 2), (1, 2, 3)]);
}

#[test]
fn add_entry_moves_every_later_span() {
    let mut t = sample();
    t.spans = vec![(0, 2), (2, 1), (3, 2)];
    let mut toc = Toc::parse(manifest(&t, 0, 0)).unwrap();
    assert_eq!(toc.add_entry(String::from("n"), 9, 90, 20, 0), Ok(()));
    assert_eq!(toc.asset_hashes(), &vec![10, 20, 30, 5, 50, 60]);
    assert_eq!(span_values(&toc), vec![(0, 3), (3, 1), (4, 2)]);
    assert_eq!(toc.file_entries().len(), 3);
    assert_eq!(toc.file_entries()[2].chunk_map, 10002);
    assert_eq!(
        chunk_values(&toc),
        vec![(0, 1000), (2, 9), (1, 2000), (0, 3000), (1, 4000), (0, 5000)]
    );
    assert_eq!(
        size_values(&toc),
        vec![(1, 100, 0), (1, 90, 1), (1, 200, 2), (1, 300, 3), (1, 400, 4), (1, 500, 5)]
    );
}

#[test]
fn add_entry_into_a_later_span_leaves_the_earlier_ones() {
    let mut toc = Toc::parse(manifest(&sample(), 0, 0)).unwrap();
    assert_eq!(toc.add_entry(String::from("n"), 9, 90, 55, 1), Ok(()));
    assert_eq!(toc.asset_hashes(), &vec![10, 30, 5, 50, 55, 60]);
    assert_eq!(span_values(&toc), vec![(0, 2), (2, 4)]);
    assert_eq!(
        size_values(&toc),
        vec![(1, 100, 0), (1, 200, 1), (1, 300, 2), (1, 400, 3), (1, 90, 4), (1, 500, 5)]
    );
}

#[test]
fn add_entry_searches_only_the_span_it_names() {
    // 5 opens the second span. Seen from the first span it is a new hash and
    // is inserted at the end of the first span.
    let mut toc = Toc::parse(manifest(&sample(), 0, 0)).unwrap();
    assert_eq!(toc.add_entry(String::from("n"), 9, 90, 31, 0), Ok(()));
    assert_eq!(toc.asset_hashes(), &vec![10, 30, 31, 5, 50, 60]);
    assert_eq!(span_values(&toc), vec![(0, 3), (3, 3)]);
}

#[test]
fn add_entry_into_an_empty_span() {
    let mut t = scenario();
    t.spans = vec![(0, 0), (0, 2)];
    let mut toc = Toc::parse(manifest(&t, 0, 0)).unwrap();
    assert_eq!(toc.add_entry(String::from("n"), 9, 90, 20, 0), Ok(()));
    assert_eq!(toc.asset_hashes(), &vec![20, 10, 30]);
    assert_eq!(span_values(&toc), vec![(0, 1), (1, 2)]);
}

#[test]
fn add_entry_updates_an_asset_that_is_there() {
    let mut toc = Toc::parse(manifest(&sample(), 0, 0)).unwrap();
    assert_eq!(toc.add_entry(String::from("beta"), 7777, 77, 50, 1), Ok(()));
    assert_eq!(toc.asset_hashes(), &vec![10, 30, 5, 50, 60]);
    assert_eq!(span_values(&toc), vec![(0, 2), (2, 3)]);
    assert_eq!(toc.file_entries().len(), 2);
    assert_eq!(
        size_values(&toc),
        vec![(1, 100, 0), (1, 200, 1), (1, 300, 2), (1, 77, 3), (1, 500, 4)]
    );
    assert_eq!(
        chunk_values(&toc),
        vec![(0, 1000), (1, 2000), (0, 3000), (1, 7777), (0, 5000)]
    );
}

#[test]
fn add_entry_update_sets_a_single_chunk_at_the_asset_index() {
    let mut t = sample();
    t.sizes[4] = (3, 500, 0);
    let mut toc = Toc::parse(manifest(&t, 0, 0)).unwrap();
    assert_eq!(toc.add_entry(String::from("alpha"), 1, 2, 60, 1), Ok(()));
    assert_eq!(size_values(&toc)[4], (1, 2, 4));
    assert_eq!(chunk_values(&toc)[4], (0, 1));
}

#[test]
fn add_entry_update_needs_a_known_file_name() {
    let mut toc = Toc::parse(manifest(&sample(), 0, 0)).unwrap();
    let before = toc.as_buf();
    assert_eq!(
        toc.add_entry(String::from("gamma"), 7777, 77, 50, 1),
        Err(TocError::InvalidFileName)
    );
    assert_eq!(
        toc.add_entry(String::from("bet"), 7777, 77, 50, 1),
        Err(TocError::InvalidFileName)
    );
    assert_eq!(toc.as_buf(), before);
}

#[test]
fn add_entry_twice_inserts_and_then_updates() {
    let mut toc = Toc::parse(manifest(&sample(), 0, 0)).unwrap();
    assert_eq!(toc.add_entry(String::from("gamma"), 6000, 600, 20, 0), Ok(()));
    assert_eq!(toc.index_of_entry(String::from("gamma")), Some(2));
    assert_eq!(toc.file_entries().len(), 3);
    assert_eq!(toc.asset_hashes(), &vec![10, 20, 30, 5, 50, 60]);
    assert_eq!(chunk_values(&toc)[1], (2, 6000));
    assert_eq!(size_values(&toc)[1], (1, 600, 1));
    // The same hash under the same name is found and written anew.
    assert_eq!(toc.add_entry(String::from("gamma"), 6001, 601, 20, 0), Ok(()));
    assert_eq!(toc.file_entries().len(), 3);
    assert_eq!(toc.asset_hashes(), &vec![10, 20, 30, 5, 50, 60]);
    assert_eq!(span_values(&toc), vec![(0, 3), (3, 3)]);
    assert_eq!(chunk_values(&toc)[1], (2, 6001));
    assert_eq!(size_values(&toc)[1], (1, 601, 1));
    // The same hash under the name of another file changes the owner.
    assert_eq!(toc.add_entry(String::from("alpha"), 6002, 602, 20, 0), Ok(()));
    assert_eq!(chunk_values(&toc)[1], (0, 6002));
    assert_eq!(toc.file_entries().len(), 3);
}

#[test]
fn add_entry_under_a_name_that_is_there_finds_the_first_file_of_that_name() {
    let mut toc = Toc::parse(manifest(&sample(), 0, 0)).unwrap();
    assert_eq!(toc.add_entry(String::from("alpha"), 1, 2, 20, 0), Ok(()));
    assert_eq!(toc.file_entries().len(), 3);
    assert_eq!(toc.file_entries()[2].get_file_name(), Ok(String::from("alpha")));
    assert_eq!(toc.file_entries()[2].chunk_map, 10002);
    assert_eq!(chunk_values(&toc)[1], (2, 1));
    assert_eq!(toc.index_of_entry(String::from("alpha")), Some(0));
}

#[test]
fn add_entry_refuses_a_span_index_out_of_range() {
    let mut toc = Toc::parse(manifest(&sample(), 0, 0)).unwrap();
    let before = toc.as_buf();
    assert_eq!(toc.add_entry(String::from("n"), 1, 1, 20, 2), Err(TocError::InvalidSpan));
    assert_eq!(
        toc.add_entry(String::from("n"), 1, 1, 20, usize::MAX),
        Err(TocError::InvalidSpan)
    );
    assert_eq!(toc.as_buf(), before);
}

#[test]
fn add_entry_refuses_a_name_that_is_too_long() {
    let mut toc = Toc::parse(manifest(&sample(), 0, 0)).unwrap();
    let before = toc.as_buf();
    assert_eq!(toc.add_entry("n".repeat(65), 1, 1, 20, 0), Err(TocError::InvalidFileName));
    // Also where the hash is there already.
    assert_eq!(toc.add_entry("n".repeat(65), 1, 1, 30, 0), Err(TocError::InvalidFileName));
    assert_eq!(toc.as_buf(), before);
    assert_eq!(toc.asset_hashes(), &vec![10, 30, 5, 50, 60]);
    assert_eq!(span_values(&toc), vec![(0, 2), (2, 3)]);
}

#[test]
fn add_entry_reports_the_span_index_before_the_name() {
    let mut toc = Toc::parse(manifest(&sample(), 0, 0)).unwrap();
    assert_eq!(toc.add_entry("n".repeat(65), 1, 1, 20, 7), Err(TocError::InvalidSpan));
}

#[test]
fn add_entry_refuses_a_span_beyond_the_hashes() {
    let mut t = sample();
    t.spans = vec![(0, 2), (2, 4)];
    let mut toc = Toc::parse(manifest(&t, 0, 0)).unwrap();
    let before = toc.as_buf();
    assert_eq!(toc.add_entry(String::from("n"), 1, 1, 55, 1), Err(TocError::InvalidSpan));
    assert_eq!(toc.as_buf(), before);
    // The first span is sound and takes the entry.
    assert_eq!(toc.add_entry(String::from("n"), 1, 1, 20, 0), Ok(()));
}

#[test]
fn add_entry_refuses_spans_that_cannot_grow() {
    let mut t = sample();
    t.spans = vec![(0, 2), (u32::MAX, 0)];
    let mut toc = Toc::parse(manifest(&t, 0, 0)).unwrap();
    let before = toc.as_buf();
    assert_eq!(toc.add_entry(String::from("n"), 1, 1, 20, 0), Err(TocError::InvalidSpan));
    assert_eq!(toc.as_buf(), before);
}

#[test]
fn add_entry_refuses_chunk_entries_that_do_not_reach_the_place() {
    let mut t = sample();
    t.chunks.truncate(3);
    let mut toc = Toc::parse(manifest(&t, 0, 0)).unwrap();
    let before = toc.as_buf();
    // Insert at index 4, behind the chunk entries.
    assert_eq!(
        toc.add_entry(String::from("n"), 1, 1, 55, 1),
        Err(TocError::SectionSizeMismatch)
    );
    // Update at index 3, which has no chunk entry.
    assert_eq!(
        toc.add_entry(String::from("beta"), 1, 1, 50, 1),
        Err(TocError::SectionSizeMismatch)
    );
    assert_eq!(toc.as_buf(), before);
    // Insert at index 3, just behind the chunk entries, is in order.
    assert_eq!(toc.add_entry(String::from("n"), 1, 1, 40, 1), Ok(()));
    assert_eq!(chunk_values(&toc), vec![(0, 1000), (1, 2000), (0, 3000), (2, 1)]);
}

#[test]
fn add_entry_refuses_a_chunk_index_that_cannot_be_raised() {
    let mut t = sample();
    t.sizes[4] = (1, 500, u32::MAX);
    let mut toc = Toc::parse(manifest(&t, 0, 0)).unwrap();
    let before = toc.as_buf();
    assert_eq!(
        toc.add_entry(String::from("n"), 1, 1, 20, 0),
        Err(TocError::SectionSizeMismatch)
    );
    assert_eq!(toc.as_buf(), before);
    // Behind the last size entry nothing has to be raised.
    assert_eq!(toc.add_entry(String::from("n"), 1, 1, 70, 1), Ok(()));
}

#[test]
fn add_entry_keeps_the_spans_sorted_and_the_tables_parallel() {
    let mut toc = Toc::parse(manifest(&sample(), 0, 0)).unwrap();
    let calls: [(u64, usize); 8] =
        [(20, 0), (1, 0), (99, 1), (7, 1), (30, 0), (55, 1), (2, 0), (1000, 1)];
    for (n, (hash, span)) in calls.iter().enumerate() {
        let name = if *hash == 30 { String::from("alpha") } else { format!("file{}", n) };
        assert_eq!(toc.add_entry(name, n as u32, 1, *hash, *span), Ok(()));
        assert!(spans_are_sorted(&toc));
        assert_eq!(toc.asset_hashes().len(), toc.size_entries().len());
        assert_eq!(toc.asset_hashes().len(), toc.chunk_entries().len());
    }
    assert_eq!(toc.asset_hashes(), &vec![1, 2, 10, 20, 30, 5, 7, 50, 55, 60, 99, 1000]);
    assert_eq!(span_values(&toc), vec![(0, 5), (5, 7)]);
    assert_eq!(toc.file_entries().len(), 9);
}

#[test]
fn add_entry_with_a_hash_that_is_there_keeps_all_sizes() {
    let mut toc = Toc::parse(manifest(&sample(), 0, 0)).unwrap();
    for (hash, span) in [(10u64, 0usize), (30, 0), (5, 1), (50, 1), (60, 1)] {
        assert_eq!(toc.add_entry(String::from("alpha"), 1, 2, hash, span), Ok(()));
        assert_eq!(toc.file_entries().len(), 2);
        assert_eq!(toc.asset_hashes().len(), 5);
        assert_eq!(span_values(&toc), vec![(0, 2), (2, 3)]);
    }
}

#[test]
fn add_entry_with_a_new_hash_grows_by_one() {
    let mut toc = Toc::parse(manifest(&sample(), 0, 0)).unwrap();
    assert_eq!(toc.add_entry(String::from("n"), 1, 2, 11, 0), Ok(()));
    assert_eq!(toc.asset_hashes().len(), 6);
    assert_eq!(toc.span_entries()[0].size, 3);
    assert_eq!(toc.span_entries()[0].offset, 0);
    assert_eq!(toc.span_entries()[1].offset, 3);
    assert_eq!(toc.span_entries()[1].size, 3);
}
