//! Records shared between host and kernel, and their device layout.

use crate::words::{
    bytes_to_words, le_bytes_to_words, lemma_words_round_trip, words_to_bytes, words_to_le_bytes,
};
use vstd::arithmetic::div_mod::lemma_fundamental_div_mod;
use vstd::arithmetic::mul::{lemma_mul_inequality, lemma_mul_is_distributive_add_other_way};
use vstd::prelude::*;
use vstd::slice::slice_subrange;

verus! {

/// A record with a fixed layout of 32-bit words, as the kernel sees it.
pub trait DeviceRecord: Sized {
    /// How many words one record occupies.
    spec fn spec_word_count() -> nat;

    /// The words of this record, in layout order.
    spec fn spec_words(&self) -> Seq<u32>;

    /// How many words one record occupies.
    fn word_count() -> (n: usize)
        ensures
            n == Self::spec_word_count(),
            n > 0,
    ;

    /// Appends the words of this record to `out`.
    fn push_words(&self, out: &mut Vec<u32>)
        ensures
            final(out)@ == old(out)@ + self.spec_words(),
    ;

    /// The record whose words are `ws`.
    fn from_words(ws: &[u32]) -> (r: Self)
        requires
            ws@.len() == Self::spec_word_count(),
        ensures
            r.spec_words() == ws@,
    ;

    /// A record occupies at least one word.
    proof fn lemma_word_count_positive()
        ensures
            Self::spec_word_count() > 0,
    ;

    /// Every record has the same number of words.
    proof fn lemma_words_len(&self)
        ensures
            self.spec_words().len() == Self::spec_word_count(),
    ;

    /// A record is determined by its words.
    proof fn lemma_words_determine(a: &Self, b: &Self)
        requires
            a.spec_words() == b.spec_words(),
        ensures
            *a == *b,
    ;
}

/// A record of three unsigned integers.
#[derive(Clone, Copy, Debug, PartialEq, Eq, Structural)]
pub struct TestVec {
    pub a: u32,
    pub b: u32,
    pub c: u32,
}

impl DeviceRecord for TestVec {
    open spec fn spec_word_count() -> nat {
        3
    }

    open spec fn spec_words(&self) -> Seq<u32> {
        seq![self.a, self.b, self.c]
    }

    fn word_count() -> (n: usize) {
        3
    }

    fn push_words(&self, out: &mut Vec<u32>) {
        out.push(self.a);
        out.push(self.b);
        out.push(self.c);
        assert(out@ =~= old(out)@ + self.spec_words());
    }

    fn from_words(ws: &[u32]) -> (r: Self) {
        let r = TestVec { a: ws[0], b: ws[1], c: ws[2] };
        assert(r.spec_words() =~= ws@);
        r
    }

    proof fn lemma_word_count_positive() {
    }

    proof fn lemma_words_len(&self) {
    }

    proof fn lemma_words_determine(a: &Self, b: &Self) {
        assert(a.spec_words()[0] == b.spec_words()[0]);
        assert(a.spec_words()[1] == b.spec_words()[1]);
        assert(a.spec_words()[2] == b.spec_words()[2]);
    }
}

/// A ray: an origin and a direction, each four 32-bit floats held as their
/// IEEE 754 bit patterns.
#[derive(Clone, Copy, Debug, PartialEq, Eq)]
pub struct Ray {
    pub origin: [u32; 4],
    pub direction: [u32; 4],
}

impl DeviceRecord for Ray {
    open spec fn spec_word_count() -> nat {
        8
    }

    open spec fn spec_words(&self) -> Seq<u32> {
        self.origin@ + self.direction@
    }

    fn word_count() -> (n: usize) {
        8
    }

    fn push_words(&self, out: &mut Vec<u32>) {
        let mut i: usize = 0;
        while i < 4
            invariant
                i <= 4,
                out@ == old(out)@ + self.origin@.take(i as int),
            decreases 4 - i,
        {
            out.push(self.origin[i]);
            assert(self.origin@.take(i + 1) =~= self.origin@.take(i as int).push(self.origin@[i as int]));
            i += 1;
        }
        let mut i: usize = 0;
        while i < 4
            invariant
                i <= 4,
                out@ == old(out)@ + self.origin@ + self.direction@.take(i as int),
            decreases 4 - i,
        {
            out.push(self.direction[i]);
            assert(self.direction@.take(i + 1) =~= self.direction@.take(i as int).push(
                self.direction@[i as int],
            ));
            i += 1;
        }
        assert(self.origin@.take(4) =~= self.origin@);
        assert(self.direction@.take(4) =~= self.direction@);
        assert(out@ =~= old(out)@ + self.spec_words());
    }

    fn from_words(ws: &[u32]) -> (r: Self) {
        let r = Ray {
            origin: [ws[0], ws[1], ws[2], ws[3]],
            direction: [ws[4], ws[5], ws[6], ws[7]],
        };
        assert(r.spec_words() =~= ws@);
        r
    }

    proof fn lemma_word_count_positive() {
    }

    proof fn lemma_words_len(&self) {
    }

    proof fn lemma_words_determine(a: &Self, b: &Self) {
        assert(a.origin@ =~= a.spec_words().take(4));
        assert(b.origin@ =~= b.spec_words().take(4));
        assert(a.direction@ =~= a.spec_words().skip(4));
        assert(b.direction@ =~= b.spec_words().skip(4));
        assert(a.origin == b.origin);
        assert(a.direction == b.direction);
    }
}

/// The words of a sequence of records, one record after another.
pub open spec fn records_words<T: DeviceRecord>(rs: Seq<T>) -> Seq<u32>
    decreases rs.len(),
{
    if rs.len() == 0 {
        Seq::empty()
    } else {
        records_words(rs.drop_last()) + rs.last().spec_words()
    }
}

/// The byte image of a sequence of records, as it is uploaded to the device.
pub open spec fn records_to_bytes<T: DeviceRecord>(rs: Seq<T>) -> Seq<u8> {
    words_to_bytes(records_words(rs))
}

/// `rs` is what `bs` holds: one record for each whole record's worth of
/// words, each made of its own words; words after the last whole record
/// are ignored.
pub open spec fn decodes_to<T: DeviceRecord>(bs: Seq<u8>, rs: Seq<T>) -> bool {
    let ws = bytes_to_words(bs);
    let k = T::spec_word_count() as int;
    &&& rs.len() == ws.len() as int / k
    &&& forall|i: int|
        0 <= i < rs.len() ==> #[trigger] rs[i].spec_words() == ws.subrange(i * k, i * k + k)
}

/// Where each record stands among the words of a record sequence.
pub proof fn lemma_records_words_layout<T: DeviceRecord>(rs: Seq<T>)
    ensures
        records_words(rs).len() == rs.len() * T::spec_word_count(),
        forall|i: int|
            0 <= i < rs.len() ==> #[trigger] records_words(rs).subrange(
                i * T::spec_word_count(),
                i * T::spec_word_count() + T::spec_word_count(),
            ) == rs[i].spec_words(),
    decreases rs.len(),
{
    let k = T::spec_word_count() as int;
    if rs.len() > 0 {
        let p = rs.drop_last();
        let n = p.len() as int;
        lemma_records_words_layout(p);
        rs.last().lemma_words_len();
        lemma_mul_is_distributive_add_other_way(k, n, 1);
        let all = records_words(rs);
        assert(all == records_words(p) + rs.last().spec_words());
        assert forall|i: int| 0 <= i < rs.len() implies #[trigger] all.subrange(i * k, i * k + k)
            == rs[i].spec_words() by {
            lemma_mul_is_distributive_add_other_way(k, i, 1);
            if i < n {
                lemma_mul_inequality(i + 1, n, k);
                assert(all.subrange(i * k, i * k + k) =~= records_words(p).subrange(
                    i * k,
                    i * k + k,
                ));
                assert(p[i] == rs[i]);
            } else {
                assert(all.subrange(i * k, i * k + k) =~= rs.last().spec_words());
            }
        }
    }
}

/// Lays records out as bytes: each record's words in order, each word as
/// four little-endian bytes.
pub fn opaque_array_to_bytes<T: DeviceRecord>(arr: &[T]) -> (r: Vec<u8>)
    ensures
        r@ == records_to_bytes(arr@),
{
    let mut ws: Vec<u32> = Vec::new();
    let mut i: usize = 0;
    while i < arr.len()
        invariant
            i <= arr@.len(),
            ws@ == records_words(arr@.take(i as int)),
        decreases arr@.len() - i,
    {
        arr[i].push_words(&mut ws);
        assert(arr@.take(i + 1).drop_last() =~= arr@.take(i as int));
        i += 1;
    }
    assert(arr@.take(arr@.len() as int) =~= arr@);
    words_to_le_bytes(ws.as_slice())
}

/// Reads records back out of bytes laid out as `opaque_array_to_bytes`
/// writes them; bytes after the last whole record are ignored.
pub fn bytes_to_opaque_array<T: DeviceRecord>(arr: &[u8]) -> (r: Vec<T>)
    ensures
        decodes_to(arr@, r@),
{
    let ws = le_bytes_to_words(arr);
    let k = T::word_count();
    let len: usize = ws.len();
    let n: usize = len / k;
    let mut out: Vec<T> = Vec::new();
    let mut i: usize = 0;
    while i < n
        invariant
            ws@ == bytes_to_words(arr@),
            k == T::spec_word_count(),
            k > 0,
            len == ws@.len(),
            n == len / k,
            i <= n,
            out@.len() == i,
            forall|m: int|
                0 <= m < i ==> #[trigger] out@[m].spec_words() == ws@.subrange(m * k, m * k + k),
        decreases n - i,
    {
        proof {
            lemma_fundamental_div_mod(len as int, k as int);
            lemma_mul_inequality(i + 1, n as int, k as int);
            lemma_mul_is_distributive_add_other_way(k as int, i as int, 1);
            vstd::arithmetic::mul::lemma_mul_is_commutative(n as int, k as int);
        }
        let start: usize = i * k;
        let rec = T::from_words(slice_subrange(ws.as_slice(), start, start + k));
        out.push(rec);
        i += 1;
    }
    out
}

/// Two decodings of the same bytes are the same records.
pub proof fn lemma_decode_unique<T: DeviceRecord>(bs: Seq<u8>, a: Seq<T>, b: Seq<T>)
    requires
        decodes_to(bs, a),
        decodes_to(bs, b),
    ensures
        a == b,
{
    assert forall|i: int| 0 <= i < a.len() implies a[i] == b[i] by {
        T::lemma_words_determine(&a[i], &b[i]);
    }
    assert(a =~= b);
}

/// Records read back from their own byte image are the records written.
pub proof fn lemma_records_round_trip<T: DeviceRecord>(rs: Seq<T>)
    ensures
        decodes_to(records_to_bytes(rs), rs),
{
    let ws = records_words(rs);
    let k = T::spec_word_count() as int;
    lemma_words_round_trip(ws);
    lemma_records_words_layout(rs);
    T::lemma_word_count_positive();
    vstd::arithmetic::div_mod::lemma_div_multiples_vanish(rs.len() as int, k);
}

/// Bytes uploaded from records and read back unchanged give those records.
pub proof fn lemma_unchanged_buffer_reads_back<T: DeviceRecord>(rs: Seq<T>, out: Seq<T>)
    requires
        decodes_to(records_to_bytes(rs), out),
    ensures
        out == rs,
{
    lemma_records_round_trip(rs);
    lemma_decode_unique(records_to_bytes(rs), out, rs);
}

} // verus!
