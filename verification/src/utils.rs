//! Byte layout primitives: fixed-size values as little-endian byte sequences.
//!
//! Every record of the manifest has a fixed size and a documented layout.
//! [`Record`] states that layout as a pair of spec functions and offers the
//! executable encoder and decoder that are proved against them.

use vstd::prelude::*;

verus! {

/// A value with a fixed-size byte layout.
///
/// `spec_encode` is the layout itself; `spec_decode` reads it back. The proof
/// obligation `lemma_layout` makes every implementation show that the layout
/// has the stated size and loses nothing.
pub trait Record: Sized {
    /// The number of bytes that one value occupies.
    spec fn spec_size() -> nat;

    /// The bytes of this value.
    spec fn spec_encode(&self) -> Seq<u8>;

    /// The value that the first `spec_size()` bytes of `bytes` stand for.
    spec fn spec_decode(bytes: Seq<u8>) -> Self;

    /// A record occupies at least one byte.
    proof fn lemma_size()
        ensures
            Self::spec_size() > 0,
    ;

    /// The layout has the stated size and decodes to the value that was
    /// encoded.
    proof fn lemma_layout(&self)
        ensures
            self.spec_encode().len() == Self::spec_size(),
            Self::spec_decode(self.spec_encode()) == *self,
    ;

    /// The number of bytes that one value occupies.
    fn size() -> (n: usize)
        ensures
            n == Self::spec_size(),
            n > 0,
    ;

    /// Reads the value that starts at byte `at` of `buf`.
    fn decode(buf: &[u8], at: usize) -> (r: Self)
        requires
            at + Self::spec_size() <= buf@.len(),
        ensures
            r == Self::spec_decode(buf@.subrange(at as int, at + Self::spec_size())),
    ;

    /// Appends the bytes of this value to `out`.
    fn encode(&self, out: &mut Vec<u8>)
        ensures
            final(out)@ == old(out)@ + self.spec_encode(),
    ;
}

/// The four bytes of `x`, least significant first.
#[verifier::opaque]
pub open spec fn u32_le(x: u32) -> Seq<u8> {
    seq![
        (x % 0x100) as u8,
        ((x / 0x100) % 0x100) as u8,
        ((x / 0x1_0000) % 0x100) as u8,
        ((x / 0x100_0000) % 0x100) as u8,
    ]
}

/// The number whose little-endian bytes are the first four of `s`.
#[verifier::opaque]
pub open spec fn u32_from_le(s: Seq<u8>) -> u32 {
    (s[0] + s[1] * 0x100 + s[2] * 0x1_0000 + s[3] * 0x100_0000) as u32
}

/// The eight bytes of `x`, least significant first.
#[verifier::opaque]
pub open spec fn u64_le(x: u64) -> Seq<u8> {
    u32_le((x % 0x1_0000_0000) as u32) + u32_le((x / 0x1_0000_0000) as u32)
}

/// The number whose little-endian bytes are the first eight of `s`.
#[verifier::opaque]
pub open spec fn u64_from_le(s: Seq<u8>) -> u64 {
    (u32_from_le(s.subrange(0, 4)) + u32_from_le(s.subrange(4, 8)) * 0x1_0000_0000) as u64
}

/// Four base-256 digits are recovered from their sum by division and
/// remainder.
proof fn lemma_digits(b0: int, b1: int, b2: int, b3: int)
    requires
        0 <= b0 < 0x100,
        0 <= b1 < 0x100,
        0 <= b2 < 0x100,
        0 <= b3 < 0x100,
    ensures
        ({
            let x = b0 + b1 * 0x100 + b2 * 0x1_0000 + b3 * 0x100_0000;
            &&& 0 <= x < 0x1_0000_0000
            &&& x % 0x100 == b0
            &&& (x / 0x100) % 0x100 == b1
            &&& (x / 0x1_0000) % 0x100 == b2
            &&& (x / 0x100_0000) % 0x100 == b3
        }),
{
    let x = b0 + b1 * 0x100 + b2 * 0x1_0000 + b3 * 0x100_0000;
    let q1 = b1 + b2 * 0x100 + b3 * 0x1_0000;
    let q2 = b2 + b3 * 0x100;
    assert(x == q1 * 0x100 + b0);
    assert(x / 0x100 == q1 && x % 0x100 == b0);
    assert(q1 == q2 * 0x100 + b1);
    assert(q1 / 0x100 == q2 && q1 % 0x100 == b1);
    assert(x == q2 * 0x1_0000 + (b0 + b1 * 0x100));
    assert(x / 0x1_0000 == q2);
    assert(q2 == b3 * 0x100 + b2);
    assert(q2 % 0x100 == b2);
    assert(x == b3 * 0x100_0000 + (b0 + b1 * 0x100 + b2 * 0x1_0000));
    assert(x / 0x100_0000 == b3);
}

/// Encoding then decoding a `u32` gives it back.
pub proof fn lemma_u32_le_round_trip(x: u32)
    ensures
        u32_le(x).len() == 4,
        u32_from_le(u32_le(x)) == x,
{
    reveal(u32_le);
    reveal(u32_from_le);
    let b0 = x % 0x100;
    let b1 = (x / 0x100) % 0x100;
    let b2 = (x / 0x1_0000) % 0x100;
    let b3 = (x / 0x100_0000) % 0x100;
    assert(x == b0 + b1 * 0x100 + b2 * 0x1_0000 + b3 * 0x100_0000);
}

/// Decoding four bytes then encoding the number gives the bytes back.
pub proof fn lemma_u32_from_le_round_trip(s: Seq<u8>)
    requires
        s.len() == 4,
    ensures
        u32_le(u32_from_le(s)) == s,
{
    reveal(u32_le);
    reveal(u32_from_le);
    lemma_digits(s[0] as int, s[1] as int, s[2] as int, s[3] as int);
    assert(u32_le(u32_from_le(s)) =~= s);
}

/// Encoding then decoding a `u64` gives it back.
pub proof fn lemma_u64_le_round_trip(x: u64)
    ensures
        u64_le(x).len() == 8,
        u64_from_le(u64_le(x)) == x,
{
    reveal(u64_le);
    reveal(u64_from_le);
    let lo = (x % 0x1_0000_0000) as u32;
    let hi = (x / 0x1_0000_0000) as u32;
    lemma_u32_le_round_trip(lo);
    lemma_u32_le_round_trip(hi);
    assert(u64_le(x).subrange(0, 4) =~= u32_le(lo));
    assert(u64_le(x).subrange(4, 8) =~= u32_le(hi));
}

impl Record for u32 {
    open spec fn spec_size() -> nat {
        4
    }

    open spec fn spec_encode(&self) -> Seq<u8> {
        u32_le(*self)
    }

    open spec fn spec_decode(bytes: Seq<u8>) -> Self {
        u32_from_le(bytes)
    }

    proof fn lemma_size() {
    }

    proof fn lemma_layout(&self) {
        lemma_u32_le_round_trip(*self);
        assert(Self::spec_size() == 4);
        assert(self.spec_encode() == u32_le(*self));
        assert(Self::spec_decode(u32_le(*self)) == u32_from_le(u32_le(*self)));
    }

    fn size() -> (n: usize) {
        4
    }

    fn decode(buf: &[u8], at: usize) -> (r: Self) {
        reveal(u32_from_le);
        let b0: u32 = buf[at] as u32;
        let b1: u32 = buf[at + 1] as u32;
        let b2: u32 = buf[at + 2] as u32;
        let b3: u32 = buf[at + 3] as u32;
        b0 + b1 * 0x100 + b2 * 0x1_0000 + b3 * 0x100_0000
    }

    fn encode(&self, out: &mut Vec<u8>) {
        reveal(u32_le);
        let x: u32 = *self;
        out.push((x % 0x100) as u8);
        out.push(((x / 0x100) % 0x100) as u8);
        out.push(((x / 0x1_0000) % 0x100) as u8);
        out.push(((x / 0x100_0000) % 0x100) as u8);
        assert(out@ =~= old(out)@ + u32_le(x));
    }
}

impl Record for u64 {
    open spec fn spec_size() -> nat {
        8
    }

    open spec fn spec_encode(&self) -> Seq<u8> {
        u64_le(*self)
    }

    open spec fn spec_decode(bytes: Seq<u8>) -> Self {
        u64_from_le(bytes)
    }

    proof fn lemma_size() {
    }

    proof fn lemma_layout(&self) {
        lemma_u64_le_round_trip(*self);
        assert(Self::spec_size() == 8);
        assert(self.spec_encode() == u64_le(*self));
        assert(Self::spec_decode(u64_le(*self)) == u64_from_le(u64_le(*self)));
    }

    fn size() -> (n: usize) {
        8
    }

    fn decode(buf: &[u8], at: usize) -> (r: Self) {
        reveal(u64_from_le);
        let len = buf.len();
        assert(at + 8 <= len);
        let lo: u32 = u32::decode(buf, at);
        let hi: u32 = u32::decode(buf, at + 4);
        proof {
            let s = buf@.subrange(at as int, at + 8);
            assert(s.subrange(0, 4) =~= buf@.subrange(at as int, at + 4));
            assert(s.subrange(4, 8) =~= buf@.subrange(at + 4, at + 4 + 4));
        }
        lo as u64 + hi as u64 * 0x1_0000_0000
    }

    fn encode(&self, out: &mut Vec<u8>) {
        reveal(u64_le);
        let x: u64 = *self;
        let lo: u32 = (x % 0x1_0000_0000) as u32;
        let hi: u32 = (x / 0x1_0000_0000) as u32;
        lo.encode(out);
        hi.encode(out);
        assert(out@ =~= old(out)@ + u64_le(x));
    }
}

/// The bytes of a run of records, one after another.
pub open spec fn encode_all<T: Record>(items: Seq<T>) -> Seq<u8>
    decreases items.len(),
{
    if items.len() == 0 {
        Seq::empty()
    } else {
        encode_all(items.drop_last()) + items.last().spec_encode()
    }
}

/// The bytes that stand for record `i` of a run.
pub open spec fn record_bytes<T: Record>(bytes: Seq<u8>, i: int) -> Seq<u8> {
    bytes.subrange(i * T::spec_size(), (i + 1) * T::spec_size())
}

/// The records that `bytes` holds: as many as fit whole, and bytes that are
/// left over after the last whole record are ignored.
pub open spec fn decode_all<T: Record>(bytes: Seq<u8>) -> Seq<T> {
    Seq::new(
        (bytes.len() / T::spec_size()) as nat,
        |i: int| T::spec_decode(record_bytes::<T>(bytes, i)),
    )
}

/// A run of `n` records occupies `n` times the record size.
pub proof fn lemma_encode_all_len<T: Record>(items: Seq<T>)
    ensures
        encode_all(items).len() == items.len() * T::spec_size(),
    decreases items.len(),
{
    if items.len() > 0 {
        lemma_encode_all_len(items.drop_last());
        items.last().lemma_layout();
        let n = items.len() as int;
        let size = T::spec_size() as int;
        assert((n - 1) * size + size == n * size) by (nonlinear_arith);
    } else {
        assert(0 * T::spec_size() == 0);
    }
}

/// Record `i` of an encoded run is the encoding of item `i`.
pub proof fn lemma_encode_all_record<T: Record>(items: Seq<T>, i: int)
    requires
        0 <= i < items.len(),
    ensures
        (i + 1) * T::spec_size() <= encode_all(items).len(),
        record_bytes::<T>(encode_all(items), i) == items[i].spec_encode(),
    decreases items.len(),
{
    let size = T::spec_size() as int;
    let n = items.len() as int;
    let front = items.drop_last();
    lemma_encode_all_len(items);
    lemma_encode_all_len(front);
    T::lemma_size();
    items.last().lemma_layout();
    assert((n - 1) * size + size == n * size) by (nonlinear_arith);
    assert((i + 1) * size == i * size + size) by (nonlinear_arith);
    if i == n - 1 {
        assert(record_bytes::<T>(encode_all(items), i) =~= items.last().spec_encode());
    } else {
        lemma_encode_all_record(front, i);
        assert(0 <= i * size) by (nonlinear_arith)
            requires
                0 <= i,
                0 <= size,
        ;
        assert(record_bytes::<T>(encode_all(items), i) =~= record_bytes::<T>(
            encode_all(front),
            i,
        ));
    }
}

/// Decoding an encoded run of records gives the records back.
pub proof fn lemma_decode_encode_all<T: Record>(items: Seq<T>)
    ensures
        decode_all::<T>(encode_all(items)) == items,
{
    let size = T::spec_size() as int;
    let n = items.len() as int;
    let bytes = encode_all(items);
    lemma_encode_all_len(items);
    T::lemma_size();
    assert((n * size) / size == n) by (nonlinear_arith)
        requires
            size > 0,
    ;
    assert forall|i: int| 0 <= i < n implies decode_all::<T>(bytes)[i] == items[i] by {
        lemma_encode_all_record(items, i);
        items[i].lemma_layout();
    }
    assert(decode_all::<T>(bytes) =~= items);
}

/// The byte representation of one record.
pub fn as_buf<T: Record>(data: &T) -> (bytes: Vec<u8>)
    ensures
        bytes@ == data.spec_encode(),
{
    let mut bytes: Vec<u8> = Vec::new();
    data.encode(&mut bytes);
    assert(bytes@ =~= data.spec_encode());
    bytes
}

/// The record that `bytes`, which are exactly as many as one record has,
/// stand for.
pub fn from_buf<T: Record>(bytes: &[u8]) -> (data: T)
    requires
        bytes@.len() == T::spec_size(),
    ensures
        data == T::spec_decode(bytes@),
{
    assert(bytes@.subrange(0, bytes@.len() as int) =~= bytes@);
    T::decode(bytes, 0)
}

/// Appends the bytes of every record of `items` to `out`.
pub fn put_all<T: Record>(items: &Vec<T>, out: &mut Vec<u8>)
    ensures
        final(out)@ == old(out)@ + encode_all(items@),
{
    let mut i: usize = 0;
    assert(items@.take(0) =~= Seq::<T>::empty());
    assert(out@ =~= old(out)@ + encode_all(items@.take(0)));
    while i < items.len()
        invariant
            i <= items.len(),
            out@ == old(out)@ + encode_all(items@.take(i as int)),
        decreases items.len() - i,
    {
        let ghost before = out@;
        items[i].encode(out);
        proof {
            let next = items@.take(i + 1);
            assert(next.drop_last() =~= items@.take(i as int));
            assert(next.last() == items@[i as int]);
            assert(out@ =~= old(out)@ + encode_all(next));
        }
        i += 1;
    }
    assert(items@.take(items.len() as int) =~= items@);
}

/// Reads every whole record that `buf` holds.
pub fn get_all<T: Record>(buf: &[u8]) -> (items: Vec<T>)
    ensures
        items@ == decode_all::<T>(buf@),
{
    let size = T::size();
    let count = buf.len() / size;
    let mut items: Vec<T> = Vec::new();
    let mut i: usize = 0;
    proof {
        assert(count * size <= buf@.len()) by (nonlinear_arith)
            requires
                count == buf@.len() / (size as nat),
                size > 0,
        ;
    }
    while i < count
        invariant
            i <= count,
            size == T::spec_size(),
            size > 0,
            count == buf@.len() / (size as nat),
            count * size <= buf@.len() <= usize::MAX,
            items@.len() == i,
            forall|j: int| 0 <= j < i ==> items@[j] == T::spec_decode(record_bytes::<T>(buf@, j)),
        decreases count - i,
    {
        proof {
            assert((i + 1) * size <= count * size && 0 <= i * size && (i + 1) * size == i * size
                + size) by (nonlinear_arith)
                requires
                    i < count,
                    size > 0,
            ;
            assert(i * size + size <= buf@.len());
        }
        let item = T::decode(buf, i * size);
        items.push(item);
        i += 1;
    }
    assert(items@ =~= decode_all::<T>(buf@));
    items
}

} // verus!
