//! What adding an entry to a manifest does, as a mathematical model, and the
//! laws that hold of it.
//!
//! [`spec_add_entry`] gives the outcome of every call: the manifest that
//! results, or the error and with it no change at all. The executable
//! `Toc::add_entry` is proved to compute exactly this.

use crate::error::TocError;
use crate::toc::layout::TocView;
use crate::toc::section::{
    padded_name,
    ArchiveChunkEntry,
    ArchiveFileEntry,
    ArchiveSizeEntry,
    ArchiveSpanEntry,
    FILE_NAME_LEN,
};
use vstd::prelude::*;

verus! {

/// The number that is added to the file count to make the chunk map
/// identifier of a file that `add_entry` creates.
pub const NEW_CHUNK_MAP_BASE: u32 = 10000;

/// The first index from `start` on, and before `end`, whose hash is not
/// below `hash`; `end` if there is none. In a sorted range this is the place
/// at which `hash` stands or has to be inserted.
pub open spec fn insertion_point(hashes: Seq<u64>, start: int, end: int, hash: u64) -> int
    decreases end - start,
{
    if start < end && hashes[start] < hash {
        insertion_point(hashes, start + 1, end, hash)
    } else {
        start
    }
}

/// The insertion point lies in the range, all hashes before it are below
/// `hash`, and the hash at it, if it is not the end, is not.
pub proof fn lemma_insertion_point(hashes: Seq<u64>, start: int, end: int, hash: u64)
    requires
        start <= end,
    ensures
        start <= insertion_point(hashes, start, end, hash) <= end,
        forall|j: int| start <= j < insertion_point(hashes, start, end, hash) ==> hashes[j] < hash,
        insertion_point(hashes, start, end, hash) < end ==> hashes[insertion_point(
            hashes,
            start,
            end,
            hash,
        )] >= hash,
    decreases end - start,
{
    if start < end && hashes[start] < hash {
        lemma_insertion_point(hashes, start + 1, end, hash);
    }
}

/// The first index from `from` on whose file entry is named `name`; the
/// number of entries if there is none.
pub open spec fn first_named(files: Seq<ArchiveFileEntry>, name: Seq<u8>, from: int) -> int
    decreases files.len() - from,
{
    if from < files.len() && !files[from].spec_is_named(name) {
        first_named(files, name, from + 1)
    } else {
        from
    }
}

/// The index of the first file entry that is named `name`, if there is one.
pub open spec fn index_of(files: Seq<ArchiveFileEntry>, name: Seq<u8>) -> Option<int> {
    let i = first_named(files, name, 0);
    if i < files.len() {
        Some(i)
    } else {
        None
    }
}

/// What `first_named` finds is named `name`, and nothing before it is.
pub proof fn lemma_first_named(files: Seq<ArchiveFileEntry>, name: Seq<u8>, from: int)
    requires
        0 <= from <= files.len(),
    ensures
        from <= first_named(files, name, from) <= files.len(),
        forall|j: int| from <= j < first_named(files, name, from) ==> !files[j].spec_is_named(name),
        first_named(files, name, from) < files.len() ==> files[first_named(
            files,
            name,
            from,
        )].spec_is_named(name),
    decreases files.len() - from,
{
    if from < files.len() && !files[from].spec_is_named(name) {
        lemma_first_named(files, name, from + 1);
    }
}

/// The index that `index_of` gives is that of the first entry named `name`;
/// it gives none exactly when no entry is named so.
pub proof fn lemma_index_of(files: Seq<ArchiveFileEntry>, name: Seq<u8>)
    ensures
        match index_of(files, name) {
            Some(i) => {
                &&& 0 <= i < files.len()
                &&& files[i].spec_is_named(name)
                &&& forall|j: int| 0 <= j < i ==> !files[j].spec_is_named(name)
            },
            None => forall|j: int| 0 <= j < files.len() ==> !files[j].spec_is_named(name),
        },
{
    lemma_first_named(files, name, 0);
}

/// Whether span `k` can take one more entry: its size and the offsets of all
/// later spans can be raised by one.
pub open spec fn spans_can_grow(spans: Seq<ArchiveSpanEntry>, k: int) -> bool {
    &&& spans[k].size < u32::MAX
    &&& forall|m: int| k < m < spans.len() ==> (#[trigger] spans[m]).offset < u32::MAX
}

/// The spans after span `k` took one more entry: it is larger by one, and
/// every later span starts one further on.
pub open spec fn grown_spans(spans: Seq<ArchiveSpanEntry>, k: int) -> Seq<ArchiveSpanEntry> {
    Seq::new(
        spans.len(),
        |m: int|
            if m == k {
                ArchiveSpanEntry { offset: spans[m].offset, size: (spans[m].size + 1) as u32 }
            } else if m > k {
                ArchiveSpanEntry { offset: (spans[m].offset + 1) as u32, size: spans[m].size }
            } else {
                spans[m]
            },
    )
}

/// Whether the chunk indices of the size entries from index `i` on can be
/// raised by one.
pub open spec fn sizes_can_grow(sizes: Seq<ArchiveSizeEntry>, i: int) -> bool {
    forall|j: int| i <= j < sizes.len() ==> (#[trigger] sizes[j]).chunk_idx < u32::MAX
}

/// A size entry that points one chunk further on.
pub open spec fn shifted(entry: ArchiveSizeEntry) -> ArchiveSizeEntry {
    ArchiveSizeEntry {
        chunks: entry.chunks,
        size: entry.size,
        chunk_idx: (entry.chunk_idx + 1) as u32,
    }
}

/// The size entries after a new one, of a single chunk, was inserted at index
/// `i`: those behind it point one chunk further on.
pub open spec fn grown_sizes(sizes: Seq<ArchiveSizeEntry>, i: int, size: u32) -> Seq<
    ArchiveSizeEntry,
> {
    Seq::new(
        sizes.len() + 1,
        |j: int|
            if j < i {
                sizes[j]
            } else if j == i {
                ArchiveSizeEntry { chunks: 1, size, chunk_idx: i as u32 }
            } else {
                shifted(sizes[j - 1])
            },
    )
}

impl TocView {
    /// The index just behind the range of span `k`.
    pub open spec fn span_end(self, k: int) -> int {
        self.span_entries[k].offset + self.span_entries[k].size
    }

    /// Whether the range of span `k` lies within the asset hashes and its end
    /// fits 32 bits, so that the range can be searched.
    pub open spec fn span_searchable(self, k: int) -> bool {
        self.span_end(k) <= self.asset_hashes.len() && self.span_end(k) <= u32::MAX
    }

    /// The place of `hash` in span `k`: where it stands, or where it has to
    /// be inserted.
    pub open spec fn place(self, k: int, hash: u64) -> int {
        insertion_point(self.asset_hashes, self.span_entries[k].offset as int, self.span_end(k), hash)
    }

    /// Whether `hash` stands at its place in span `k`.
    pub open spec fn holds(self, k: int, hash: u64) -> bool {
        self.place(k, hash) < self.span_end(k) && self.asset_hashes[self.place(k, hash)] == hash
    }

    /// Whether span `k` can take one more entry.
    pub open spec fn spans_can_grow(self, k: int) -> bool {
        spans_can_grow(self.span_entries, k)
    }

    /// Whether the tables can take a new entry at index `i`: the chunk
    /// entries reach up to `i`, the new file gets a chunk map identifier, and
    /// the chunk indices from `i` on can be raised by one.
    pub open spec fn tables_can_grow(self, i: int) -> bool {
        &&& i <= self.chunk_entries.len()
        &&& self.file_entries.len() + NEW_CHUNK_MAP_BASE <= u32::MAX
        &&& sizes_can_grow(self.size_entries, i)
    }

    /// The manifest after the asset at index `i` was given a new size and a
    /// single chunk that belongs to file `file`.
    pub open spec fn updated(self, i: int, file: int, offset: u32, size: u32) -> TocView {
        TocView {
            size_entries: self.size_entries.update(
                i,
                ArchiveSizeEntry { chunks: 1, size, chunk_idx: i as u32 },
            ),
            chunk_entries: self.chunk_entries.update(
                i,
                ArchiveChunkEntry { asset_file: file as u32, offset },
            ),
            ..self
        }
    }

    /// The manifest after a new asset was inserted at index `i` of span `k`,
    /// together with a new file named `name` at the end of the file entries.
    pub open spec fn inserted(
        self,
        k: int,
        i: int,
        name: Seq<u8>,
        offset: u32,
        size: u32,
        hash: u64,
    ) -> TocView {
        TocView {
            header: self.header,
            sections: self.sections,
            file_entries: self.file_entries.push(
                ArchiveFileEntry::spec_new(
                    name,
                    0,
                    (NEW_CHUNK_MAP_BASE + self.file_entries.len()) as u32,
                ),
            ),
            asset_hashes: self.asset_hashes.insert(i, hash),
            size_entries: grown_sizes(self.size_entries, i, size),
            key_hashes: self.key_hashes,
            chunk_entries: self.chunk_entries.insert(
                i,
                ArchiveChunkEntry { asset_file: self.file_entries.len() as u32, offset },
            ),
            span_entries: grown_spans(self.span_entries, k),
        }
    }

    /// Whether the range of span `k` lies within the asset hashes and is
    /// sorted ascending there.
    pub open spec fn span_sorted(self, k: int) -> bool {
        &&& self.span_end(k) <= self.asset_hashes.len()
        &&& forall|a: int, b: int|
            self.span_entries[k].offset <= a <= b < self.span_end(k) ==> self.asset_hashes[a]
                <= self.asset_hashes[b]
    }

    /// Whether `hash` occurs in the range of span `k`.
    pub open spec fn span_contains(self, k: int, hash: u64) -> bool {
        exists|j: int|
            self.span_entries[k].offset <= j < self.span_end(k) && j < self.asset_hashes.len()
                && self.asset_hashes[j] == hash
    }

    /// Whether each span ends where the next one begins.
    pub open spec fn spans_contiguous(self) -> bool {
        forall|k: int, n: int|
            #![trigger self.span_end(k), self.span_entries[n]]
            0 <= k && n == k + 1 && n < self.span_entries.len() ==> self.span_end(k)
                == self.span_entries[n].offset
    }

    /// The invariant of the asset tables: hashes, sizes and chunks run in
    /// parallel, the spans follow one another without gap or overlap, and
    /// each span delimits a sorted range of the asset hashes.
    pub open spec fn structured(self) -> bool {
        &&& self.asset_hashes.len() == self.size_entries.len()
        &&& self.asset_hashes.len() == self.chunk_entries.len()
        &&& self.spans_contiguous()
        &&& forall|k: int| 0 <= k < self.span_entries.len() ==> #[trigger] self.span_sorted(k)
    }
}

/// What `add_entry` does on each input.
///
/// The checks come first and in this order, and a failed check leaves the
/// manifest as it was:
/// 1. a span index beyond the spans is `InvalidSpan`;
/// 2. a name of more than 64 bytes is `InvalidFileName`;
/// 3. size entries that are not as many as the asset hashes are
///    `SectionSizeMismatch`;
/// 4. a span that cannot be searched is `InvalidSpan`.
///
/// Then the place of `hash` in the span decides. Where `hash` stands there
/// already, the asset is updated: chunk entries that do not reach the place
/// are `SectionSizeMismatch`, a name that no file entry has is
/// `InvalidFileName`. Otherwise the asset is inserted: spans that cannot grow
/// are `InvalidSpan`, tables that cannot are `SectionSizeMismatch`.
pub open spec fn spec_add_entry(
    t: TocView,
    name: Seq<u8>,
    offset: u32,
    size: u32,
    hash: u64,
    span_idx: int,
) -> Result<TocView, TocError> {
    if !(0 <= span_idx < t.span_entries.len()) {
        Err(TocError::InvalidSpan)
    } else if name.len() > FILE_NAME_LEN {
        Err(TocError::InvalidFileName)
    } else if t.size_entries.len() != t.asset_hashes.len() {
        Err(TocError::SectionSizeMismatch)
    } else if !t.span_searchable(span_idx) {
        Err(TocError::InvalidSpan)
    } else if t.holds(span_idx, hash) {
        if t.place(span_idx, hash) >= t.chunk_entries.len() {
            Err(TocError::SectionSizeMismatch)
        } else {
            match index_of(t.file_entries, name) {
                None => Err(TocError::InvalidFileName),
                Some(file) => Ok(t.updated(t.place(span_idx, hash), file, offset, size)),
            }
        }
    } else if !t.spans_can_grow(span_idx) {
        Err(TocError::InvalidSpan)
    } else if !t.tables_can_grow(t.place(span_idx, hash)) {
        Err(TocError::SectionSizeMismatch)
    } else {
        Ok(t.inserted(span_idx, t.place(span_idx, hash), name, offset, size, hash))
    }
}

/// The manifest after a call of `add_entry`: the new one where the call
/// succeeds, the old one where it fails.
pub open spec fn after_add_entry(
    t: TocView,
    name: Seq<u8>,
    offset: u32,
    size: u32,
    hash: u64,
    span_idx: int,
) -> TocView {
    match spec_add_entry(t, name, offset, size, hash, span_idx) {
        Ok(next) => next,
        Err(_) => t,
    }
}

/// One call of `add_entry`, by its arguments.
pub struct EntryRequest {
    pub name: Seq<u8>,
    pub offset: u32,
    pub size: u32,
    pub hash: u64,
    pub span_idx: int,
}

/// The manifest after a sequence of calls of `add_entry`, each made on what
/// the one before it left.
pub open spec fn after_all(t: TocView, calls: Seq<EntryRequest>) -> TocView
    decreases calls.len(),
{
    if calls.len() == 0 {
        t
    } else {
        let call = calls.last();
        after_add_entry(
            after_all(t, calls.drop_last()),
            call.name,
            call.offset,
            call.size,
            call.hash,
            call.span_idx,
        )
    }
}

/// In a manifest whose spans are contiguous, a span ends before or where
/// every later span begins.
pub proof fn lemma_spans_ordered(t: TocView, m: int, k: int)
    requires
        t.spans_contiguous(),
        0 <= m < k < t.span_entries.len(),
    ensures
        t.span_end(m) <= t.span_entries[k].offset,
    decreases k - m,
{
    assert(t.span_end(m) == t.span_entries[m + 1].offset);
    if m + 1 < k {
        lemma_spans_ordered(t, m + 1, k);
    }
}

/// Invariant preservation, one call. A call of `add_entry` on a manifest
/// whose asset tables are structured leaves them structured: hashes, sizes
/// and chunks still run in parallel, and every span still delimits a sorted
/// range of the asset hashes.
pub proof fn lemma_add_entry_structured(
    t: TocView,
    name: Seq<u8>,
    offset: u32,
    size: u32,
    hash: u64,
    span_idx: int,
)
    requires
        t.structured(),
    ensures
        after_add_entry(t, name, offset, size, hash, span_idx).structured(),
{
    let post = after_add_entry(t, name, offset, size, hash, span_idx);
    match spec_add_entry(t, name, offset, size, hash, span_idx) {
        Err(_) => {},
        Ok(_) => {
            let k = span_idx;
            let i = t.place(k, hash);
            let start = t.span_entries[k].offset as int;
            let end = t.span_end(k);
            lemma_insertion_point(t.asset_hashes, start, end, hash);
            if t.holds(k, hash) {
                assert(post.asset_hashes == t.asset_hashes);
                assert(post.span_entries == t.span_entries);
                assert forall|m: int| 0 <= m < post.span_entries.len() implies #[trigger]
                    post.span_sorted(m) by {
                    assert(t.span_sorted(m));
                }
                assert forall|a: int, n: int|
                    #![trigger post.span_end(a), post.span_entries[n]]
                    0 <= a && n == a + 1 && n < post.span_entries.len() implies post.span_end(a)
                    == post.span_entries[n].offset by {
                    assert(t.span_end(a) == t.span_entries[n].offset);
                }
            } else {
                lemma_inserted_structured(t, name, offset, size, hash, k);
            }
        },
    }
}

/// The insert case of `lemma_add_entry_structured`.
proof fn lemma_inserted_structured(
    t: TocView,
    name: Seq<u8>,
    offset: u32,
    size: u32,
    hash: u64,
    k: int,
)
    requires
        t.structured(),
        0 <= k < t.span_entries.len(),
        t.span_searchable(k),
        !t.holds(k, hash),
        t.spans_can_grow(k),
        t.tables_can_grow(t.place(k, hash)),
    ensures
        t.inserted(k, t.place(k, hash), name, offset, size, hash).structured(),
{
    let i = t.place(k, hash);
    let post = t.inserted(k, i, name, offset, size, hash);
    let start = t.span_entries[k].offset as int;
    let end = t.span_end(k);
    let old_hashes = t.asset_hashes;
    let new_hashes = post.asset_hashes;
    lemma_insertion_point(old_hashes, start, end, hash);
    assert(t.span_sorted(k));
    assert(start <= i <= end <= old_hashes.len());
    assert(new_hashes.len() == old_hashes.len() + 1);
    assert(forall|j: int| 0 <= j < i ==> new_hashes[j] == old_hashes[j]);
    assert(new_hashes[i] == hash);
    assert(forall|j: int| i < j < new_hashes.len() ==> new_hashes[j] == old_hashes[j - 1]);
    // The spans are the old ones, the target larger and the later ones moved.
    assert forall|m: int| 0 <= m < t.span_entries.len() implies {
        &&& post.span_entries[m].offset == t.span_entries[m].offset + (if m > k {
            1int
        } else {
            0int
        })
        &&& post.span_entries[m].size == t.span_entries[m].size + (if m == k {
            1int
        } else {
            0int
        })
    } by {
        if m > k {
            assert(t.span_entries[m].offset < u32::MAX);
        }
    }
    assert forall|a: int, n: int|
        #![trigger post.span_end(a), post.span_entries[n]]
        0 <= a && n == a + 1 && n < post.span_entries.len() implies post.span_end(a)
        == post.span_entries[n].offset by {
        assert(t.span_end(a) == t.span_entries[n].offset);
    }
    assert forall|m: int| 0 <= m < post.span_entries.len() implies #[trigger] post.span_sorted(
        m,
    ) by {
        assert(t.span_sorted(m));
        let old_start = t.span_entries[m].offset as int;
        let old_end = t.span_end(m);
        if m < k {
            lemma_spans_ordered(t, m, k);
            assert(old_end <= start);
            assert forall|a: int, b: int|
                post.span_entries[m].offset <= a <= b < post.span_end(m) implies new_hashes[a]
                <= new_hashes[b] by {
                assert(old_hashes[a] <= old_hashes[b]);
            }
        } else if m == k {
            assert forall|a: int, b: int|
                post.span_entries[m].offset <= a <= b < post.span_end(m) implies new_hashes[a]
                <= new_hashes[b] by {
                if b < i {
                    assert(old_hashes[a] <= old_hashes[b]);
                } else if a < i {
                    assert(old_hashes[a] < hash);
                    if b > i {
                        assert(old_hashes[i] <= old_hashes[b - 1]);
                    }
                } else if a == i {
                    if b > i {
                        assert(old_hashes[i] <= old_hashes[b - 1]);
                    }
                } else {
                    assert(old_hashes[a - 1] <= old_hashes[b - 1]);
                }
            }
        } else {
            lemma_spans_ordered(t, k, m);
            assert(end <= old_start);
            assert forall|a: int, b: int|
                post.span_entries[m].offset <= a <= b < post.span_end(m) implies new_hashes[a]
                <= new_hashes[b] by {
                assert(old_hashes[a - 1] <= old_hashes[b - 1]);
            }
        }
    }
}

/// Invariant preservation. After any sequence of calls of `add_entry` on a
/// manifest whose asset tables are structured, they are structured still.
pub proof fn lemma_structure_preserved(t: TocView, calls: Seq<EntryRequest>)
    requires
        t.structured(),
    ensures
        after_all(t, calls).structured(),
    decreases calls.len(),
{
    if calls.len() > 0 {
        let call = calls.last();
        lemma_structure_preserved(t, calls.drop_last());
        lemma_add_entry_structured(
            after_all(t, calls.drop_last()),
            call.name,
            call.offset,
            call.size,
            call.hash,
            call.span_idx,
        );
    }
}

/// In a sorted span, a hash that occurs in the span stands at its place.
pub proof fn lemma_contained_holds(t: TocView, k: int, hash: u64)
    requires
        0 <= k < t.span_entries.len(),
        t.span_sorted(k),
        t.span_contains(k, hash),
    ensures
        t.holds(k, hash),
{
    let start = t.span_entries[k].offset as int;
    let end = t.span_end(k);
    let i = t.place(k, hash);
    lemma_insertion_point(t.asset_hashes, start, end, hash);
    let j = choose|j: int|
        start <= j < end && j < t.asset_hashes.len() && t.asset_hashes[j] == hash;
    assert(i <= j);
    assert(t.asset_hashes[i] <= t.asset_hashes[j]);
}

/// A hash that stands at its place in a span occurs in the span.
pub proof fn lemma_holds_contained(t: TocView, k: int, hash: u64)
    requires
        0 <= k < t.span_entries.len(),
        t.span_searchable(k),
        t.holds(k, hash),
    ensures
        t.span_contains(k, hash),
{
    let start = t.span_entries[k].offset as int;
    let end = t.span_end(k);
    let i = t.place(k, hash);
    lemma_insertion_point(t.asset_hashes, start, end, hash);
    assert(start <= i < end && i < t.asset_hashes.len() && t.asset_hashes[i] == hash);
}

/// An update keeps the sizes. A call of `add_entry` with a hash that occurs
/// in the span it names, the span being sorted, changes neither the number of
/// file entries, nor the number of asset hashes, nor the size of any span.
pub proof fn lemma_update_keeps_sizes(
    t: TocView,
    name: Seq<u8>,
    offset: u32,
    size: u32,
    hash: u64,
    span_idx: int,
)
    requires
        0 <= span_idx < t.span_entries.len(),
        t.span_sorted(span_idx),
        t.span_contains(span_idx, hash),
    ensures
        ({
            let next = after_add_entry(t, name, offset, size, hash, span_idx);
            &&& next.file_entries.len() == t.file_entries.len()
            &&& next.asset_hashes.len() == t.asset_hashes.len()
            &&& next.span_entries.len() == t.span_entries.len()
            &&& forall|m: int|
                0 <= m < t.span_entries.len() ==> (#[trigger] next.span_entries[m]).size
                    == t.span_entries[m].size
        }),
{
    lemma_contained_holds(t, span_idx, hash);
}

/// An insert grows the span. A call of `add_entry` that succeeds, with a
/// hash that does not occur in the span it names, adds one asset hash, makes
/// that span larger by one and moves every later span on by one; it changes
/// nothing else about the spans.
pub proof fn lemma_insert_grows(
    t: TocView,
    name: Seq<u8>,
    offset: u32,
    size: u32,
    hash: u64,
    span_idx: int,
)
    requires
        spec_add_entry(t, name, offset, size, hash, span_idx) is Ok,
        !t.span_contains(span_idx, hash),
    ensures
        ({
            let next = spec_add_entry(t, name, offset, size, hash, span_idx)->Ok_0;
            &&& next.asset_hashes.len() == t.asset_hashes.len() + 1
            &&& next.file_entries.len() == t.file_entries.len() + 1
            &&& next.span_entries.len() == t.span_entries.len()
            &&& next.span_entries[span_idx].size == t.span_entries[span_idx].size + 1
            &&& next.span_entries[span_idx].offset == t.span_entries[span_idx].offset
            &&& forall|m: int|
                span_idx < m < t.span_entries.len() ==> {
                    &&& (#[trigger] next.span_entries[m]).offset == t.span_entries[m].offset + 1
                    &&& next.span_entries[m].size == t.span_entries[m].size
                }
            &&& forall|m: int|
                0 <= m < span_idx ==> #[trigger] next.span_entries[m] == t.span_entries[m]
        }),
{
    if t.holds(span_idx, hash) {
        lemma_holds_contained(t, span_idx, hash);
    }
    let i = t.place(span_idx, hash);
    lemma_insertion_point(
        t.asset_hashes,
        t.span_entries[span_idx].offset as int,
        t.span_end(span_idx),
        hash,
    );
    let next = t.inserted(span_idx, i, name, offset, size, hash);
    assert forall|m: int| span_idx < m < t.span_entries.len() implies {
        &&& (#[trigger] next.span_entries[m]).offset == t.span_entries[m].offset + 1
        &&& next.span_entries[m].size == t.span_entries[m].size
    } by {
        assert(t.span_entries[m].offset < u32::MAX);
    }
}

/// An update succeeds under the entry's name. On a manifest whose asset
/// tables are structured and hold no more than 32 bits can count, a call of
/// `add_entry` with a hash that occurs in the span it names, and with a name
/// of at most 64 bytes that some file entry has, succeeds. It gives the asset
/// its new size and a single chunk that belongs to the first file of that
/// name, and changes nothing else: not the hashes, not the spans, not the
/// files, not the length of any table.
pub proof fn lemma_update_succeeds(
    t: TocView,
    name: Seq<u8>,
    offset: u32,
    size: u32,
    hash: u64,
    span_idx: int,
)
    requires
        t.structured(),
        t.asset_hashes.len() <= u32::MAX,
        0 <= span_idx < t.span_entries.len(),
        t.span_contains(span_idx, hash),
        name.len() <= FILE_NAME_LEN,
        exists|i: int| 0 <= i < t.file_entries.len() && t.file_entries[i].spec_is_named(name),
    ensures
        index_of(t.file_entries, name) is Some,
        spec_add_entry(t, name, offset, size, hash, span_idx) == Ok::<TocView, TocError>(
            t.updated(
                t.place(span_idx, hash),
                index_of(t.file_entries, name)->Some_0,
                offset,
                size,
            ),
        ),
        ({
            let next = after_add_entry(t, name, offset, size, hash, span_idx);
            &&& next.asset_hashes == t.asset_hashes
            &&& next.span_entries == t.span_entries
            &&& next.file_entries == t.file_entries
            &&& next.key_hashes == t.key_hashes
            &&& next.size_entries.len() == t.size_entries.len()
            &&& next.chunk_entries.len() == t.chunk_entries.len()
        }),
{
    assert(t.span_sorted(span_idx));
    lemma_contained_holds(t, span_idx, hash);
    lemma_insertion_point(
        t.asset_hashes,
        t.span_entries[span_idx].offset as int,
        t.span_end(span_idx),
        hash,
    );
    lemma_index_of(t.file_entries, name);
}

/// What an insert adds is found. After a call of `add_entry` that inserts,
/// the last file entry is the one made for `name`, with install bucket zero
/// and the chunk map identifier that follows from the number of files before.
/// Looking `name` up gives that entry, unless an earlier entry has the same
/// name, which is then found as before.
pub proof fn lemma_inserted_is_found(
    t: TocView,
    name: Seq<u8>,
    offset: u32,
    size: u32,
    hash: u64,
    span_idx: int,
)
    requires
        spec_add_entry(t, name, offset, size, hash, span_idx) is Ok,
        !t.holds(span_idx, hash),
    ensures
        ({
            let next = spec_add_entry(t, name, offset, size, hash, span_idx)->Ok_0;
            let count = t.file_entries.len() as int;
            &&& next.file_entries.len() == count + 1
            &&& next.file_entries.take(count) == t.file_entries
            &&& next.file_entries[count].spec_is_named(name)
            &&& next.file_entries[count].file_name_bytes@ == padded_name(name)
            &&& next.file_entries[count].install_bucket == 0
            &&& next.file_entries[count].chunk_map == NEW_CHUNK_MAP_BASE + count
            &&& name.len() == 0 || name.last() != 0u8 ==> next.file_entries[count].spec_name()
                == name
            &&& index_of(next.file_entries, name) == match index_of(t.file_entries, name) {
                Some(i) => Some(i),
                None => Some(count),
            }
            &&& next.chunk_entries[t.place(span_idx, hash)].asset_file == count
        }),
{
    let next = spec_add_entry(t, name, offset, size, hash, span_idx)->Ok_0;
    let count = t.file_entries.len() as int;
    let place = t.place(span_idx, hash);
    lemma_insertion_point(
        t.asset_hashes,
        t.span_entries[span_idx].offset as int,
        t.span_end(span_idx),
        hash,
    );
    ArchiveFileEntry::lemma_new_is_named(name, 0, (NEW_CHUNK_MAP_BASE + count) as u32);
    if name.len() == 0 || name.last() != 0u8 {
        ArchiveFileEntry::lemma_new_name(name, 0, (NEW_CHUNK_MAP_BASE + count) as u32);
    }
    assert(next.file_entries.take(count) =~= t.file_entries);
    assert(next.file_entries[count].spec_is_named(name));
    lemma_index_of(t.file_entries, name);
    lemma_index_of(next.file_entries, name);
    match index_of(t.file_entries, name) {
        Some(i) => {
            assert(next.file_entries[i] == t.file_entries[i]);
            let found = index_of(next.file_entries, name)->Some_0;
            if found < i {
                assert(next.file_entries[found] == t.file_entries[found]);
            }
        },
        None => {
            let found = index_of(next.file_entries, name)->Some_0;
            if found < count {
                assert(next.file_entries[found] == t.file_entries[found]);
            }
        },
    }
}

} // verus!
