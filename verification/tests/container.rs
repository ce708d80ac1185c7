use archive_toc::error::TocError;
use archive_toc::toc::container::{frame, payload};
use archive_toc::toc::Toc;
use std::io::{Read, Write};

const SIGNATURE: [u8; 4] = [0xaf, 0x12, 0xaf, 0x77];

fn zlib(data: &[u8]) -> Vec<u8> {
    let mut encoder =
        flate2::write::ZlibEncoder::new(Vec::new(), flate2::Compression::default());
    encoder.write_all(data).unwrap();
    encoder.finish().unwrap()
}

fn unzlib(stream: &[u8]) -> Vec<u8> {
    let mut out = Vec::new();
    flate2::read::ZlibDecoder::new(stream).read_to_end(&mut out).unwrap();
    out
}

fn container(declared: u32, data: &[u8]) -> Vec<u8> {
    let mut out = SIGNATURE.to_vec();
    out.extend_from_slice(&declared.to_le_bytes());
    out.extend_from_slice(&zlib(data));
    out
}

fn small_manifest() -> Vec<u8> {
    let mut out = vec![0x31, 0x54, 0x41, 0x44, 9, 0, 0, 0, 140, 0, 0, 0, 6, 0, 0, 0];
    let sizes = [0u32, 8, 12, 0, 8, 0];
    let mut at = 112u32;
    for (k, size) in sizes.iter().enumerate() {
        out.extend_from_slice(&(k as u32).to_le_bytes());
        out.extend_from_slice(&at.to_le_bytes());
        out.extend_from_slice(&size.to_le_bytes());
        at += size;
    }
    out.extend_from_slice(b"ArchiveTOC");
    out.extend_from_slice(&[0u8; 14]);
    out.extend_from_slice(&77u64.to_le_bytes());
    for v in [1u32, 4096, 0] {
        out.extend_from_slice(&v.to_le_bytes());
    }
    for v in [0u32, 512] {
        out.extend_from_slice(&v.to_le_bytes());
    }
    out
}

#[test]
fn payload_is_what_follows_signature_and_length() {
    let bytes = [0xaf, 0x12, 0xaf, 0x77, 1, 2, 3, 4, 9, 8, 7];
    assert_eq!(payload(&bytes), Ok(&[9u8, 8, 7][..]));
    assert_eq!(payload(&bytes[..8]), Ok(&[][..]));
}

#[test]
fn payload_needs_the_signature() {
    assert_eq!(payload(&[]), Err(TocError::SignatureMismatch));
    assert_eq!(payload(&[0xaf, 0x12, 0xaf]), Err(TocError::SignatureMismatch));
    assert_eq!(
        payload(&[0xaf, 0x12, 0xaf, 0x78, 0, 0, 0, 0, 1]),
        Err(TocError::SignatureMismatch)
    );
    // The signature of the header is not that of the container.
    assert_eq!(
        payload(&[0x31, 0x54, 0x41, 0x44, 0, 0, 0, 0, 1]),
        Err(TocError::SignatureMismatch)
    );
}

#[test]
fn payload_needs_the_whole_length_field() {
    assert_eq!(payload(&[0xaf, 0x12, 0xaf, 0x77]), Err(TocError::CodecError));
    assert_eq!(payload(&[0xaf, 0x12, 0xaf, 0x77, 0, 0, 0]), Err(TocError::CodecError));
}

#[test]
fn frame_puts_signature_and_length_in_front() {
    assert_eq!(
        frame(0x0102_0304, &vec![9, 8, 7]),
        vec![0xaf, 0x12, 0xaf, 0x77, 4, 3, 2, 1, 9, 8, 7]
    );
    assert_eq!(frame(0, &vec![]), vec![0xaf, 0x12, 0xaf, 0x77, 0, 0, 0, 0]);
}

#[test]
fn decompress_decodes_a_zlib_stream() {
    let data: Vec<u8> = (0..2000u32).map(|i| (i % 7) as u8).collect();
    let packed = container(data.len() as u32, &data);
    assert!(packed.len() < data.len());
    assert_eq!(Toc::decompress(&packed), Ok(data));
}

#[test]
fn decompress_does_not_look_at_the_declared_length() {
    let data = b"the declared length is wrong".to_vec();
    assert_eq!(Toc::decompress(&container(0, &data)), Ok(data.clone()));
    assert_eq!(Toc::decompress(&container(u32::MAX, &data)), Ok(data));
}

#[test]
fn decompress_refuses_a_wrong_signature() {
    let mut packed = container(3, b"abc");
    packed[3] = 0x00;
    assert_eq!(Toc::decompress(&packed), Err(TocError::SignatureMismatch));
    assert_eq!(Toc::decompress(&[]), Err(TocError::SignatureMismatch));
    assert_eq!(Toc::decompress(&[0xaf, 0x12]), Err(TocError::SignatureMismatch));
}

#[test]
fn decompress_refuses_a_stream_that_is_cut_off_or_corrupt() {
    let data: Vec<u8> = (0..500u32).map(|i| (i * i % 251) as u8).collect();
    let packed = container(500, &data);
    assert_eq!(
        Toc::decompress(&packed[..packed.len() - 5]),
        Err(TocError::CodecError)
    );
    assert_eq!(Toc::decompress(&packed[..8]), Err(TocError::CodecError));
    assert_eq!(Toc::decompress(&packed[..6]), Err(TocError::CodecError));
    let mut bad = packed.clone();
    bad[8] = 0xff;
    bad[9] = 0xff;
    assert_eq!(Toc::decompress(&bad), Err(TocError::CodecError));
    let plain = frame(3, &vec![b'a', b'b', b'c']);
    assert_eq!(Toc::decompress(&plain), Err(TocError::CodecError));
}

#[test]
fn compress_frames_a_zlib_stream() {
    let data: Vec<u8> = (0..3000u32).map(|i| (i % 5) as u8).collect();
    let packed = Toc::compress(data.clone()).unwrap();
    assert_eq!(&packed[..4], &SIGNATURE);
    assert_eq!(&packed[4..8], &3000u32.to_le_bytes());
    assert!(packed.len() < data.len());
    assert_eq!(unzlib(&packed[8..]), data);
}

#[test]
fn compress_packs_at_the_highest_level() {
    let data: Vec<u8> = (0..40000u32)
        .map(|i| ((i / 7) ^ (i.wrapping_mul(2654435761) >> 29)) as u8)
        .collect();
    let at_level = |level: u32| {
        let mut out = Vec::new();
        flate2::bufread::ZlibEncoder::new(&data[..], flate2::Compression::new(level))
            .read_to_end(&mut out)
            .unwrap();
        out
    };
    let packed = Toc::compress(data.clone()).unwrap();
    assert_eq!(&packed[8..], &at_level(9)[..]);
    assert_ne!(&packed[8..], &at_level(1)[..]);
    assert_ne!(&packed[8..], &at_level(0)[..]);
}

#[test]
fn compress_then_decompress_gives_the_bytes_back() {
    let inputs: Vec<Vec<u8>> = vec![
        vec![],
        vec![0],
        vec![0xaf, 0x12, 0xaf, 0x77],
        b"ArchiveTOC".to_vec(),
        (0..=255u8).collect(),
        vec![0x5a; 70000],
        (0..10000u32).map(|i| (i.wrapping_mul(2654435761) >> 24) as u8).collect(),
    ];
    for data in inputs {
        let packed = Toc::compress(data.clone()).unwrap();
        assert_eq!(&packed[4..8], &(data.len() as u32).to_le_bytes());
        assert_eq!(Toc::decompress(&packed), Ok(data));
    }
}

#[test]
fn compress_of_nothing_is_a_container_of_an_empty_stream() {
    let packed = Toc::compress(vec![]).unwrap();
    assert_eq!(&packed[..8], &[0xaf, 0x12, 0xaf, 0x77, 0, 0, 0, 0]);
    assert!(packed.len() > 8);
    assert_eq!(Toc::decompress(&packed), Ok(vec![]));
}

#[test]
fn save_to_writes_the_packed_manifest_behind_the_sink() {
    let toc = Toc::parse(small_manifest()).unwrap();
    let mut sink = vec![1u8, 2, 3];
    assert_eq!(toc.save_to(&mut sink), Ok(()));
    assert_eq!(&sink[..3], &[1, 2, 3]);
    assert_eq!(&sink[3..], &Toc::compress(toc.as_buf()).unwrap()[..]);
    assert_eq!(Toc::decompress(&sink[3..]), Ok(small_manifest()));
}

#[test]
fn read_takes_the_container_apart_and_parses_the_body() {
    let body = small_manifest();
    let toc = Toc::read(&container(0, &body)).unwrap();
    assert_eq!(toc.as_buf(), body);
    assert_eq!(toc.key_hashes().len(), 0);
    assert_eq!(toc.chunk_entries().len(), 1);
}

#[test]
fn read_reports_the_first_failure() {
    let body = small_manifest();
    let mut file = container(0, &body);
    file[0] = 0;
    assert_eq!(Toc::read(&file).err(), Some(TocError::SignatureMismatch));
    let file = container(0, &body);
    assert_eq!(Toc::read(&file[..20]).err(), Some(TocError::CodecError));
    // A sound container around a body with a wrong signature.
    let mut wrong = body.clone();
    wrong[1] = 0;
    assert_eq!(Toc::read(&container(0, &wrong)).err(), Some(TocError::SignatureMismatch));
    assert_eq!(Toc::read(&container(0, &body[..10])).err(), Some(TocError::MalformedHeader));
    assert_eq!(Toc::read(&container(0, &body[..100])).err(), Some(TocError::MalformedSection));
}

#[test]
fn what_save_to_wrote_reads_back() {
    let toc = Toc::read(&container(0, &small_manifest())).unwrap();
    let mut sink = Vec::new();
    assert_eq!(toc.save_to(&mut sink), Ok(()));
    let again = Toc::read(&sink).unwrap();
    assert_eq!(again.asset_hashes(), toc.asset_hashes());
    assert_eq!(again.size_entries(), toc.size_entries());
    assert_eq!(again.chunk_entries(), toc.chunk_entries());
    assert_eq!(again.header(), toc.header());
    assert_eq!(again.as_buf(), toc.as_buf());
}

#[test]
fn test_decompress() {
    let body = small_manifest();
    let file = container(body.len() as u32, &body);
    let toc_buf = Toc::decompress(&file).unwrap();
    assert_eq!(toc_buf, body);
}

#[test]
fn test_read() {
    let body = small_manifest();
    let file = container(body.len() as u32, &body);
    let toc = Toc::read(&file).unwrap();
    assert_eq!(toc.asset_hashes(), &vec![77]);
    assert_eq!(toc.size_entries().len(), 1);
    assert_eq!(toc.size_entries()[0].size, 4096);
    assert_eq!(toc.chunk_entries()[0].offset, 512);
    assert_eq!(toc.header().hash, 9);
}

#[test]
fn test_encode_buf() {
    let body = small_manifest();
    let file = container(body.len() as u32, &body);
    let toc = Toc::parse(Toc::decompress(&file).unwrap()).unwrap();
    let buf = toc.as_buf();
    let encoded = Toc::compress(buf).unwrap();
    assert_eq!(Toc::decompress(&encoded), Ok(body));
}

#[test]
fn test_as_buf() {
    let body = small_manifest();
    let file = container(body.len() as u32, &body);
    let toc = Toc::parse(Toc::decompress(&file).unwrap()).unwrap();
    let buf = toc.as_buf();
    assert_eq!(buf, body);
}
