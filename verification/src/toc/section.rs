//! The record shapes of the manifest and the names of its six sections.

use crate::error::TocError;
use crate::utils::{u32_from_le, u32_le, Record};
use vstd::prelude::*;
use vstd::utf8::{decode_utf8, encode_utf8, valid_utf8};

verus! {

/// The six tables of a manifest, in the order of their directory entries.
#[derive(Clone, Copy, Debug, PartialEq, Eq, Hash, Structural)]
pub enum Section {
    FileEntries,
    AssetHashes,
    SizeEntries,
    KeyHashes,
    ChunkEntries,
    SpanEntries,
}

impl Section {
    /// The position of this section's entry in the directory.
    pub open spec fn spec_position(self) -> nat {
        match self {
            Section::FileEntries => 0,
            Section::AssetHashes => 1,
            Section::SizeEntries => 2,
            Section::KeyHashes => 3,
            Section::ChunkEntries => 4,
            Section::SpanEntries => 5,
        }
    }

    /// The position of this section's entry in the directory.
    pub fn position(self) -> (k: usize)
        ensures
            k == self.spec_position(),
            k < 6,
    {
        match self {
            Section::FileEntries => 0,
            Section::AssetHashes => 1,
            Section::SizeEntries => 2,
            Section::KeyHashes => 3,
            Section::ChunkEntries => 4,
            Section::SpanEntries => 5,
        }
    }
}

/// One directory entry: where a section's data lies in the manifest body.
#[derive(Clone, Copy, Debug, PartialEq, Eq, Structural)]
pub struct SectionInfo {
    pub hash: u32,
    /// Byte offset of the data from the start of the manifest body.
    pub offset: u32,
    /// Byte length of the data.
    pub size: u32,
}

/// The length of the file name field of a file entry.
pub const FILE_NAME_LEN: usize = 64;

/// The error with which std refuses bytes that are not UTF-8.
#[verifier::external_type_specification]
#[verifier::external_body]
pub struct ExFromUtf8Error(std::string::FromUtf8Error);

/// Calls `String::from_utf8`. It succeeds exactly on well-formed UTF-8, and
/// the string it returns is the one that those bytes encode.
#[verifier::external_body]
fn string_from_utf8(bytes: Vec<u8>) -> (r: Result<String, std::string::FromUtf8Error>)
    ensures
        r is Ok <==> valid_utf8(bytes@),
        r matches Ok(s) ==> s@ == decode_utf8(bytes@),
{
    String::from_utf8(bytes)
}

/// The UTF-8 bytes of a file name.
pub open spec fn name_bytes(name: Seq<char>) -> Seq<u8> {
    encode_utf8(name)
}

/// A name of at most 64 bytes, filled up to 64 with zero bytes.
pub open spec fn padded_name(name: Seq<u8>) -> Seq<u8> {
    name + Seq::new((FILE_NAME_LEN - name.len()) as nat, |i: int| 0u8)
}

/// The bytes without the zero bytes at their end.
pub open spec fn trimmed(bytes: Seq<u8>) -> Seq<u8>
    decreases bytes.len(),
{
    if bytes.len() > 0 && bytes.last() == 0u8 {
        trimmed(bytes.drop_last())
    } else {
        bytes
    }
}

/// What `trimmed` leaves is the front of the bytes; it is empty or ends in a
/// byte that is not zero, and all that it left out is zero.
pub proof fn lemma_trimmed(bytes: Seq<u8>)
    ensures
        trimmed(bytes).len() <= bytes.len(),
        trimmed(bytes) == bytes.take(trimmed(bytes).len() as int),
        trimmed(bytes).len() == 0 || trimmed(bytes).last() != 0u8,
        forall|j: int| trimmed(bytes).len() <= j < bytes.len() ==> bytes[j] == 0u8,
    decreases bytes.len(),
{
    if bytes.len() > 0 && bytes.last() == 0u8 {
        let front = bytes.drop_last();
        lemma_trimmed(front);
        assert(front.take(trimmed(front).len() as int) =~= bytes.take(trimmed(front).len() as int));
        assert forall|j: int| trimmed(bytes).len() <= j < bytes.len() implies bytes[j] == 0u8 by {
            if j < front.len() {
                assert(front[j] == 0u8);
            }
        }
    } else {
        assert(bytes.take(bytes.len() as int) =~= bytes);
    }
}

/// Bytes that are empty or end in a byte that is not zero, with any number of
/// zero bytes behind them, are trimmed to themselves.
pub proof fn lemma_trimmed_filling(name: Seq<u8>, filling: nat)
    requires
        name.len() == 0 || name.last() != 0u8,
    ensures
        trimmed(name + Seq::new(filling, |i: int| 0u8)) == name,
    decreases filling,
{
    let whole = name + Seq::new(filling, |i: int| 0u8);
    if filling == 0 {
        assert(whole =~= name);
    } else {
        assert(whole.last() == 0u8);
        assert(whole.drop_last() =~= name + Seq::new((filling - 1) as nat, |i: int| 0u8));
        lemma_trimmed_filling(name, (filling - 1) as nat);
    }
}

/// A field of 64 bytes is its trimmed bytes filled up again.
pub proof fn lemma_padded_trimmed(field: Seq<u8>)
    requires
        field.len() == FILE_NAME_LEN,
    ensures
        padded_name(trimmed(field)) == field,
{
    lemma_trimmed(field);
    assert(padded_name(trimmed(field)) =~= field);
}

/// One named file of the archive.
#[derive(Clone, Copy, Debug)]
pub struct ArchiveFileEntry {
    pub _padding: [u8; 3],
    pub install_bucket: u8,
    pub chunk_map: u32,
    /// The file name in UTF-8, filled up with zero bytes.
    pub file_name_bytes: [u8; 64],
}

/// Size and chunk run of one asset; runs parallel to the asset hashes.
#[derive(Clone, Copy, Debug, PartialEq, Eq, Structural)]
pub struct ArchiveSizeEntry {
    /// Number of chunks of the asset.
    pub chunks: u32,
    /// Total size of the asset in bytes.
    pub size: u32,
    /// Index of the asset's first chunk entry.
    pub chunk_idx: u32,
}

/// One chunk: the file that owns it and where its payload lies.
#[derive(Clone, Copy, Debug, PartialEq, Eq, Structural)]
pub struct ArchiveChunkEntry {
    /// Index of the owning file entry.
    pub asset_file: u32,
    /// Byte offset of the payload in the chunk archive.
    pub offset: u32,
}

/// A contiguous range of assets, by index into the asset tables.
#[derive(Clone, Copy, Debug, PartialEq, Eq, Structural)]
pub struct ArchiveSpanEntry {
    pub offset: u32,
    pub size: u32,
}

/// The array of `N` bytes whose contents are `s`.
pub open spec fn byte_array<const N: usize>(s: Seq<u8>) -> [u8; N] {
    choose|a: [u8; N]| a@ == s
}

/// The array that holds the first `n` bytes of `s` and zero behind them.
pub open spec fn array_upto<const N: usize>(s: Seq<u8>, n: nat) -> [u8; N]
    decreases n,
{
    if n == 0 {
        vstd::array::spec_array_fill_for_copy_type::<u8, N>(0u8)
    } else {
        vstd::array::spec_array_update(array_upto::<N>(s, (n - 1) as nat), n - 1, s[n - 1])
    }
}

/// `array_upto` holds what its name says.
pub proof fn lemma_array_upto<const N: usize>(s: Seq<u8>, n: nat)
    requires
        n <= N,
    ensures
        array_upto::<N>(s, n)@.len() == N,
        forall|j: int| 0 <= j < n ==> array_upto::<N>(s, n)@[j] == s[j],
    decreases n,
{
    if n > 0 {
        lemma_array_upto::<N>(s, (n - 1) as nat);
        let before = array_upto::<N>(s, (n - 1) as nat);
        assert(array_upto::<N>(s, n)@ == before@.update(n - 1, s[n - 1]));
    }
}

/// For every `N` bytes there is an array that holds them, and `byte_array`
/// is that array.
pub proof fn lemma_byte_array_view<const N: usize>(s: Seq<u8>)
    requires
        s.len() == N,
    ensures
        byte_array::<N>(s)@ == s,
{
    let a = array_upto::<N>(s, N as nat);
    lemma_array_upto::<N>(s, N as nat);
    assert(a@ =~= s);
}

/// An array is the array of its own contents.
pub proof fn lemma_byte_array<const N: usize>(a: [u8; N])
    ensures
        byte_array::<N>(a@) == a,
{
    let b = byte_array::<N>(a@);
    assert(b@ == a@);
    assert(a =~= b);
}

/// Reads `N` bytes that start at `at`.
fn get_bytes<const N: usize>(buf: &[u8], at: usize) -> (a: [u8; N])
    requires
        at + N <= buf@.len(),
    ensures
        a@ == buf@.subrange(at as int, at + N),
        a == byte_array::<N>(buf@.subrange(at as int, at + N)),
{
    let len = buf.len();
    let mut a: [u8; N] = [0u8; N];
    let mut i: usize = 0;
    while i < N
        invariant
            i <= N,
            at + N <= buf@.len() <= usize::MAX,
            a@.len() == N,
            forall|j: int| 0 <= j < i ==> a@[j] == buf@[at + j],
        decreases N - i,
    {
        a[i] = buf[at + i];
        i += 1;
    }
    proof {
        assert(a@ =~= buf@.subrange(at as int, at + N));
        lemma_byte_array(a);
    }
    a
}

/// Appends the bytes of `a` to `out`.
fn put_bytes<const N: usize>(a: &[u8; N], out: &mut Vec<u8>)
    ensures
        final(out)@ == old(out)@ + a@,
{
    let mut i: usize = 0;
    assert(out@ =~= old(out)@ + a@.take(0));
    while i < N
        invariant
            i <= N,
            a@.len() == N,
            out@ == old(out)@ + a@.take(i as int),
        decreases N - i,
    {
        out.push(a[i]);
        i += 1;
        assert(out@ =~= old(out)@ + a@.take(i as int));
    }
    assert(a@.take(N as int) =~= a@);
}

impl Record for SectionInfo {
    open spec fn spec_size() -> nat {
        12
    }

    open spec fn spec_encode(&self) -> Seq<u8> {
        u32_le(self.hash) + u32_le(self.offset) + u32_le(self.size)
    }

    open spec fn spec_decode(bytes: Seq<u8>) -> Self {
        SectionInfo {
            hash: u32_from_le(bytes.subrange(0, 4)),
            offset: u32_from_le(bytes.subrange(4, 8)),
            size: u32_from_le(bytes.subrange(8, 12)),
        }
    }

    proof fn lemma_size() {
    }

    proof fn lemma_layout(&self) {
        let e = self.spec_encode();
        self.hash.lemma_layout();
        self.offset.lemma_layout();
        self.size.lemma_layout();
        assert(e.subrange(0, 4) =~= u32_le(self.hash));
        assert(e.subrange(4, 8) =~= u32_le(self.offset));
        assert(e.subrange(8, 12) =~= u32_le(self.size));
    }

    fn size() -> (n: usize) {
        12
    }

    fn decode(buf: &[u8], at: usize) -> (r: Self) {
        let len = buf.len();
        assert(at + 12 <= len);
        let hash = u32::decode(buf, at);
        let offset = u32::decode(buf, at + 4);
        let size = u32::decode(buf, at + 8);
        proof {
            let s = buf@.subrange(at as int, at + 12);
            assert(s.subrange(0, 4) =~= buf@.subrange(at as int, at + 4));
            assert(s.subrange(4, 8) =~= buf@.subrange(at + 4, at + 4 + 4));
            assert(s.subrange(8, 12) =~= buf@.subrange(at + 8, at + 8 + 4));
        }
        SectionInfo { hash, offset, size }
    }

    fn encode(&self, out: &mut Vec<u8>) {
        self.hash.encode(out);
        self.offset.encode(out);
        self.size.encode(out);
        assert(out@ =~= old(out)@ + self.spec_encode());
    }
}

impl Record for ArchiveSizeEntry {
    open spec fn spec_size() -> nat {
        12
    }

    open spec fn spec_encode(&self) -> Seq<u8> {
        u32_le(self.chunks) + u32_le(self.size) + u32_le(self.chunk_idx)
    }

    open spec fn spec_decode(bytes: Seq<u8>) -> Self {
        ArchiveSizeEntry {
            chunks: u32_from_le(bytes.subrange(0, 4)),
            size: u32_from_le(bytes.subrange(4, 8)),
            chunk_idx: u32_from_le(bytes.subrange(8, 12)),
        }
    }

    proof fn lemma_size() {
    }

    proof fn lemma_layout(&self) {
        let e = self.spec_encode();
        self.chunks.lemma_layout();
        self.size.lemma_layout();
        self.chunk_idx.lemma_layout();
        assert(e.subrange(0, 4) =~= u32_le(self.chunks));
        assert(e.subrange(4, 8) =~= u32_le(self.size));
        assert(e.subrange(8, 12) =~= u32_le(self.chunk_idx));
    }

    fn size() -> (n: usize) {
        12
    }

    fn decode(buf: &[u8], at: usize) -> (r: Self) {
        let len = buf.len();
        assert(at + 12 <= len);
        let chunks = u32::decode(buf, at);
        let size = u32::decode(buf, at + 4);
        let chunk_idx = u32::decode(buf, at + 8);
        proof {
            let s = buf@.subrange(at as int, at + 12);
            assert(s.subrange(0, 4) =~= buf@.subrange(at as int, at + 4));
            assert(s.subrange(4, 8) =~= buf@.subrange(at + 4, at + 4 + 4));
            assert(s.subrange(8, 12) =~= buf@.subrange(at + 8, at + 8 + 4));
        }
        ArchiveSizeEntry { chunks, size, chunk_idx }
    }

    fn encode(&self, out: &mut Vec<u8>) {
        self.chunks.encode(out);
        self.size.encode(out);
        self.chunk_idx.encode(out);
        assert(out@ =~= old(out)@ + self.spec_encode());
    }
}

impl Record for ArchiveChunkEntry {
    open spec fn spec_size() -> nat {
        8
    }

    open spec fn spec_encode(&self) -> Seq<u8> {
        u32_le(self.asset_file) + u32_le(self.offset)
    }

    open spec fn spec_decode(bytes: Seq<u8>) -> Self {
        ArchiveChunkEntry {
            asset_file: u32_from_le(bytes.subrange(0, 4)),
            offset: u32_from_le(bytes.subrange(4, 8)),
        }
    }

    proof fn lemma_size() {
    }

    proof fn lemma_layout(&self) {
        let e = self.spec_encode();
        self.asset_file.lemma_layout();
        self.offset.lemma_layout();
        assert(e.subrange(0, 4) =~= u32_le(self.asset_file));
        assert(e.subrange(4, 8) =~= u32_le(self.offset));
    }

    fn size() -> (n: usize) {
        8
    }

    fn decode(buf: &[u8], at: usize) -> (r: Self) {
        let len = buf.len();
        assert(at + 8 <= len);
        let asset_file = u32::decode(buf, at);
        let offset = u32::decode(buf, at + 4);
        proof {
            let s = buf@.subrange(at as int, at + 8);
            assert(s.subrange(0, 4) =~= buf@.subrange(at as int, at + 4));
            assert(s.subrange(4, 8) =~= buf@.subrange(at + 4, at + 4 + 4));
        }
        ArchiveChunkEntry { asset_file, offset }
    }

    fn encode(&self, out: &mut Vec<u8>) {
        self.asset_file.encode(out);
        self.offset.encode(out);
        assert(out@ =~= old(out)@ + self.spec_encode());
    }
}

impl Record for ArchiveSpanEntry {
    open spec fn spec_size() -> nat {
        8
    }

    open spec fn spec_encode(&self) -> Seq<u8> {
        u32_le(self.offset) + u32_le(self.size)
    }

    open spec fn spec_decode(bytes: Seq<u8>) -> Self {
        ArchiveSpanEntry {
            offset: u32_from_le(bytes.subrange(0, 4)),
            size: u32_from_le(bytes.subrange(4, 8)),
        }
    }

    proof fn lemma_size() {
    }

    proof fn lemma_layout(&self) {
        let e = self.spec_encode();
        self.offset.lemma_layout();
        self.size.lemma_layout();
        assert(e.subrange(0, 4) =~= u32_le(self.offset));
        assert(e.subrange(4, 8) =~= u32_le(self.size));
    }

    fn size() -> (n: usize) {
        8
    }

    fn decode(buf: &[u8], at: usize) -> (r: Self) {
        let len = buf.len();
        assert(at + 8 <= len);
        let offset = u32::decode(buf, at);
        let size = u32::decode(buf, at + 4);
        proof {
            let s = buf@.subrange(at as int, at + 8);
            assert(s.subrange(0, 4) =~= buf@.subrange(at as int, at + 4));
            assert(s.subrange(4, 8) =~= buf@.subrange(at + 4, at + 4 + 4));
        }
        ArchiveSpanEntry { offset, size }
    }

    fn encode(&self, out: &mut Vec<u8>) {
        self.offset.encode(out);
        self.size.encode(out);
        assert(out@ =~= old(out)@ + self.spec_encode());
    }
}

impl ArchiveFileEntry {
    /// The file entry whose name field holds the bytes `name`, filled up with
    /// zero bytes, and whose padding is zero.
    pub open spec fn spec_new(name: Seq<u8>, install_bucket: u8, chunk_map: u32) -> Self {
        ArchiveFileEntry {
            _padding: byte_array::<3>(seq![0u8, 0u8, 0u8]),
            install_bucket,
            chunk_map,
            file_name_bytes: byte_array::<64>(padded_name(name)),
        }
    }

    /// A file entry for `file_name`, with zeroed padding.
    ///
    /// Fails with `InvalidFileName` exactly when the name is longer than the
    /// 64 bytes of its field. A shorter name is filled up with zero bytes,
    /// which are no part of the name: the entry is named `file_name`, and
    /// `get_file_name` gives `file_name` back unless it ends in a zero
    /// character.
    pub fn new(file_name: String, install_bucket: u8, chunk_map: u32) -> (r: Result<
        ArchiveFileEntry,
        TocError,
    >)
        ensures
            match r {
                Ok(e) => {
                    &&& name_bytes(file_name@).len() <= FILE_NAME_LEN
                    &&& e == Self::spec_new(name_bytes(file_name@), install_bucket, chunk_map)
                    &&& e._padding@ == seq![0u8, 0u8, 0u8]
                    &&& e.install_bucket == install_bucket
                    &&& e.chunk_map == chunk_map
                    &&& e.file_name_bytes@ == padded_name(name_bytes(file_name@))
                    &&& e.spec_is_named(name_bytes(file_name@))
                    &&& name_bytes(file_name@).len() == 0 || name_bytes(file_name@).last() != 0u8
                        ==> {
                        &&& e.spec_name() == name_bytes(file_name@)
                        &&& valid_utf8(e.spec_name())
                        &&& decode_utf8(e.spec_name()) == file_name@
                    }
                },
                Err(e) => e == TocError::InvalidFileName && name_bytes(file_name@).len()
                    > FILE_NAME_LEN,
            },
    {
        let bytes = file_name.as_str().as_bytes();
        if bytes.len() > FILE_NAME_LEN {
            return Err(TocError::InvalidFileName);
        }
        let mut file_name_bytes = [0u8; 64];
        let mut i: usize = 0;
        while i < bytes.len()
            invariant
                i <= bytes@.len() <= FILE_NAME_LEN,
                file_name_bytes@.len() == FILE_NAME_LEN,
                forall|j: int| 0 <= j < i ==> file_name_bytes@[j] == bytes@[j],
                forall|j: int| i <= j < FILE_NAME_LEN ==> file_name_bytes@[j] == 0u8,
            decreases bytes@.len() - i,
        {
            file_name_bytes[i] = bytes[i];
            i += 1;
        }
        let padding = [0u8; 3];
        assert(padding@ =~= seq![0u8, 0u8, 0u8]);
        assert(file_name_bytes@ =~= padded_name(bytes@));
        proof {
            lemma_byte_array(padding);
            lemma_byte_array(file_name_bytes);
            if bytes@.len() == 0 || bytes@.last() != 0u8 {
                lemma_trimmed_filling(bytes@, (FILE_NAME_LEN - bytes@.len()) as nat);
                vstd::utf8::encode_utf8_valid_utf8(file_name@);
                vstd::utf8::encode_utf8_decode_utf8(file_name@);
            }
        }
        Ok(ArchiveFileEntry { _padding: padding, install_bucket, chunk_map, file_name_bytes })
    }

    /// The name that the field holds: its bytes without the zero filling.
    pub open spec fn spec_name(&self) -> Seq<u8> {
        trimmed(self.file_name_bytes@)
    }

    /// The file name: the field without its zero filling, as a string.
    ///
    /// Fails with `InvalidFileName` exactly when the name is not well-formed
    /// UTF-8.
    pub fn get_file_name(&self) -> (r: Result<String, TocError>)
        ensures
            match r {
                Ok(s) => valid_utf8(self.spec_name()) && s@ == decode_utf8(self.spec_name()),
                Err(e) => e == TocError::InvalidFileName && !valid_utf8(self.spec_name()),
            },
    {
        let ghost field = self.file_name_bytes@;
        let mut len: usize = FILE_NAME_LEN;
        assert(field.take(len as int) =~= field);
        while len > 0 && self.file_name_bytes[len - 1] == 0
            invariant
                len <= FILE_NAME_LEN,
                field == self.file_name_bytes@,
                field.len() == FILE_NAME_LEN,
                trimmed(field.take(len as int)) == trimmed(field),
            decreases len,
        {
            assert(field.take(len as int).drop_last() =~= field.take(len - 1));
            len -= 1;
        }
        let mut bytes: Vec<u8> = Vec::new();
        let mut i: usize = 0;
        while i < len
            invariant
                i <= len <= FILE_NAME_LEN,
                field == self.file_name_bytes@,
                field.len() == FILE_NAME_LEN,
                bytes@ == field.take(i as int),
            decreases len - i,
        {
            bytes.push(self.file_name_bytes[i]);
            i += 1;
            assert(bytes@ =~= field.take(i as int));
        }
        assert(bytes@ == self.spec_name());
        match string_from_utf8(bytes) {
            Ok(s) => Ok(s),
            Err(_) => Err(TocError::InvalidFileName),
        }
    }

    /// Whether the entry is named `name`: the name fits the field, and the
    /// field holds it with nothing but zero filling behind it.
    pub open spec fn spec_is_named(&self, name: Seq<u8>) -> bool {
        name.len() <= FILE_NAME_LEN && self.file_name_bytes@ == padded_name(name)
    }

    /// Whether the entry is named `name`.
    pub fn is_named(&self, name: &[u8]) -> (r: bool)
        ensures
            r == self.spec_is_named(name@),
    {
        if name.len() > FILE_NAME_LEN {
            return false;
        }
        let ghost field = self.file_name_bytes@;
        let ghost filled = padded_name(name@);
        let mut i: usize = 0;
        while i < name.len()
            invariant
                i <= name@.len() <= FILE_NAME_LEN,
                field == self.file_name_bytes@,
                field.len() == FILE_NAME_LEN,
                filled == padded_name(name@),
                forall|j: int| 0 <= j < i ==> field[j] == name@[j],
            decreases name@.len() - i,
        {
            if self.file_name_bytes[i] != name[i] {
                assert(field[i as int] != filled[i as int]);
                return false;
            }
            i += 1;
        }
        while i < FILE_NAME_LEN
            invariant
                name@.len() <= i <= FILE_NAME_LEN,
                field == self.file_name_bytes@,
                field.len() == FILE_NAME_LEN,
                filled == padded_name(name@),
                forall|j: int| 0 <= j < name@.len() ==> field[j] == name@[j],
                forall|j: int| name@.len() <= j < i ==> field[j] == 0u8,
            decreases FILE_NAME_LEN - i,
        {
            if self.file_name_bytes[i] != 0 {
                assert(field[i as int] != filled[i as int]);
                return false;
            }
            i += 1;
        }
        assert(field =~= filled);
        true
    }

    /// The entry made for a name has that name. This holds of every name that
    /// fits the field and does not end in a zero byte, so of every name
    /// without a zero byte.
    pub proof fn lemma_new_name(name: Seq<u8>, install_bucket: u8, chunk_map: u32)
        requires
            name.len() <= FILE_NAME_LEN,
            name.len() == 0 || name.last() != 0u8,
        ensures
            Self::spec_new(name, install_bucket, chunk_map).file_name_bytes@ == padded_name(name),
            Self::spec_new(name, install_bucket, chunk_map).spec_name() == name,
            Self::spec_new(name, install_bucket, chunk_map).spec_is_named(name),
    {
        lemma_byte_array_view::<64>(padded_name(name));
        lemma_trimmed_filling(name, (FILE_NAME_LEN - name.len()) as nat);
    }

    /// The entry made for a name is found under that name, whatever the name
    /// ends in, as long as it fits the field.
    pub proof fn lemma_new_is_named(name: Seq<u8>, install_bucket: u8, chunk_map: u32)
        requires
            name.len() <= FILE_NAME_LEN,
        ensures
            Self::spec_new(name, install_bucket, chunk_map).spec_is_named(name),
    {
        lemma_byte_array_view::<64>(padded_name(name));
    }

    /// Making an entry and asking for its name are inverse: the entry made for
    /// a string of at most 64 bytes that does not end in a zero character has
    /// a name that is well-formed UTF-8 and decodes to that string.
    pub proof fn lemma_new_then_name(name: Seq<char>, install_bucket: u8, chunk_map: u32)
        requires
            name_bytes(name).len() <= FILE_NAME_LEN,
            name_bytes(name).len() == 0 || name_bytes(name).last() != 0u8,
        ensures
            valid_utf8(Self::spec_new(name_bytes(name), install_bucket, chunk_map).spec_name()),
            decode_utf8(Self::spec_new(name_bytes(name), install_bucket, chunk_map).spec_name())
                == name,
    {
        Self::lemma_new_name(name_bytes(name), install_bucket, chunk_map);
        vstd::utf8::encode_utf8_valid_utf8(name);
        vstd::utf8::encode_utf8_decode_utf8(name);
    }

    /// An entry is named `name` exactly when `name` fits the field and is,
    /// without the zero bytes at its end, the name of the entry.
    pub proof fn lemma_named_iff(&self, name: Seq<u8>)
        ensures
            self.spec_is_named(name) <==> name.len() <= FILE_NAME_LEN && trimmed(name)
                == self.spec_name(),
    {
        if name.len() <= FILE_NAME_LEN {
            let short = trimmed(name);
            lemma_trimmed(name);
            assert(padded_name(name) =~= padded_name(short));
            lemma_trimmed_filling(short, (FILE_NAME_LEN - short.len()) as nat);
            lemma_padded_trimmed(self.file_name_bytes@);
        }
    }
}

impl Record for ArchiveFileEntry {
    open spec fn spec_size() -> nat {
        72
    }

    open spec fn spec_encode(&self) -> Seq<u8> {
        self._padding@ + seq![self.install_bucket] + u32_le(self.chunk_map)
            + self.file_name_bytes@
    }

    open spec fn spec_decode(bytes: Seq<u8>) -> Self {
        ArchiveFileEntry {
            _padding: byte_array::<3>(bytes.subrange(0, 3)),
            install_bucket: bytes[3],
            chunk_map: u32_from_le(bytes.subrange(4, 8)),
            file_name_bytes: byte_array::<64>(bytes.subrange(8, 72)),
        }
    }

    proof fn lemma_size() {
    }

    proof fn lemma_layout(&self) {
        let e = self.spec_encode();
        self.chunk_map.lemma_layout();
        assert(e.subrange(0, 3) =~= self._padding@);
        assert(e[3] == self.install_bucket);
        assert(e.subrange(4, 8) =~= u32_le(self.chunk_map));
        assert(e.subrange(8, 72) =~= self.file_name_bytes@);
        lemma_byte_array(self._padding);
        lemma_byte_array(self.file_name_bytes);
    }

    fn size() -> (n: usize) {
        72
    }

    fn decode(buf: &[u8], at: usize) -> (r: Self) {
        let len = buf.len();
        assert(at + 72 <= len);
        let padding: [u8; 3] = get_bytes(buf, at);
        let install_bucket = buf[at + 3];
        let chunk_map = u32::decode(buf, at + 4);
        let file_name_bytes: [u8; 64] = get_bytes(buf, at + 8);
        proof {
            let s = buf@.subrange(at as int, at + 72);
            assert(s.subrange(0, 3) =~= buf@.subrange(at as int, at + 3));
            assert(s[3] == buf@[at + 3]);
            assert(s.subrange(4, 8) =~= buf@.subrange(at + 4, at + 4 + 4));
            assert(s.subrange(8, 72) =~= buf@.subrange(at + 8, at + 8 + 64));
        }
        ArchiveFileEntry { _padding: padding, install_bucket, chunk_map, file_name_bytes }
    }

    fn encode(&self, out: &mut Vec<u8>) {
        put_bytes(&self._padding, out);
        out.push(self.install_bucket);
        self.chunk_map.encode(out);
        put_bytes(&self.file_name_bytes, out);
        assert(out@ =~= old(out)@ + self.spec_encode());
    }
}

} // verus!
