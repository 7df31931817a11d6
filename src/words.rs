//! 32-bit words and their little-endian byte image.

use vstd::bytes::{
    lemma_auto_spec_u32_to_from_le_bytes, spec_u32_from_le_bytes, spec_u32_to_le_bytes,
    u32_from_le_bytes, u32_to_le_bytes,
};
use vstd::prelude::*;
use vstd::slice::slice_subrange;

verus! {

/// The bytes of `ws`: each word as four little-endian bytes, in order.
pub open spec fn words_to_bytes(ws: Seq<u32>) -> Seq<u8> {
    Seq::new(ws.len() * 4, |j: int| spec_u32_to_le_bytes(ws[j / 4])[j % 4])
}

/// The words read from `bs`, four little-endian bytes each; bytes after the
/// last whole word are ignored.
pub open spec fn bytes_to_words(bs: Seq<u8>) -> Seq<u32> {
    Seq::new(bs.len() / 4, |i: int| spec_u32_from_le_bytes(bs.subrange(4 * i, 4 * i + 4)))
}

/// Encodes words as little-endian bytes.
pub fn words_to_le_bytes(ws: &[u32]) -> (r: Vec<u8>)
    ensures
        r@ == words_to_bytes(ws@),
{
    proof {
        lemma_auto_spec_u32_to_from_le_bytes();
    }
    let mut out: Vec<u8> = Vec::new();
    let mut i: usize = 0;
    while i < ws.len()
        invariant
            i <= ws@.len(),
            out@.len() == 4 * i,
            forall|j: int|
                0 <= j < 4 * i ==> #[trigger] out@[j] == spec_u32_to_le_bytes(ws@[j / 4])[j % 4],
            forall|x: u32| #[trigger] spec_u32_to_le_bytes(x).len() == 4,
        decreases ws@.len() - i,
    {
        let b = u32_to_le_bytes(ws[i]);
        out.push(b[0]);
        out.push(b[1]);
        out.push(b[2]);
        out.push(b[3]);
        i += 1;
    }
    assert(out@ =~= words_to_bytes(ws@));
    out
}

/// Decodes little-endian bytes into words, ignoring a trailing partial word.
pub fn le_bytes_to_words(bs: &[u8]) -> (r: Vec<u32>)
    ensures
        r@ == bytes_to_words(bs@),
{
    let len: usize = bs.len();
    let n: usize = len / 4;
    let mut out: Vec<u32> = Vec::new();
    let mut i: usize = 0;
    while i < n
        invariant
            len == bs@.len(),
            n == len / 4,
            i <= n,
            out@.len() == i,
            forall|k: int| 0 <= k < i ==> #[trigger] out@[k] == bytes_to_words(bs@)[k],
        decreases n - i,
    {
        proof {
            vstd::arithmetic::div_mod::lemma_fundamental_div_mod(len as int, 4);
        }
        let w = u32_from_le_bytes(slice_subrange(bs, 4 * i, 4 * i + 4));
        out.push(w);
        i += 1;
    }
    assert(out@ =~= bytes_to_words(bs@));
    out
}

/// Reading back the bytes of a word sequence gives the same words.
pub proof fn lemma_words_round_trip(ws: Seq<u32>)
    ensures
        bytes_to_words(words_to_bytes(ws)) == ws,
{
    lemma_auto_spec_u32_to_from_le_bytes();
    let bs = words_to_bytes(ws);
    assert forall|i: int| 0 <= i < ws.len() implies #[trigger] bytes_to_words(bs)[i] == ws[i] by {
        assert(bs.subrange(4 * i, 4 * i + 4) =~= spec_u32_to_le_bytes(ws[i]));
    }
    assert(bytes_to_words(bs) =~= ws);
}

/// Words and bytes correspond one to one on byte strings of whole words.
pub proof fn lemma_bytes_round_trip(bs: Seq<u8>)
    requires
        bs.len() % 4 == 0,
    ensures
        words_to_bytes(bytes_to_words(bs)) == bs,
{
    lemma_auto_spec_u32_to_from_le_bytes();
    let ws = bytes_to_words(bs);
    assert forall|j: int| 0 <= j < bs.len() implies #[trigger] words_to_bytes(ws)[j] == bs[j] by {
        let i = j / 4;
        let chunk = bs.subrange(4 * i, 4 * i + 4);
        assert(spec_u32_to_le_bytes(spec_u32_from_le_bytes(chunk)) == chunk);
    }
    assert(words_to_bytes(ws) =~= bs);
}

} // verus!
