//! Keyframe words on the wire: each `i64` as its eight little-endian bytes.

use vstd::prelude::*;

verus! {

/// Byte `k` (0 the least significant) of word `w`'s two's-complement bits.
pub open spec fn word_byte(w: i64, k: int) -> u8 {
    #[verifier::truncate] (((#[verifier::truncate] (w as u64)) >> ((8 * k) as u64)) as u8)
}

/// The little-endian bytes of words `ws`, eight per word.
pub open spec fn le_bytes(ws: Seq<i64>) -> Seq<u8> {
    Seq::new(8 * ws.len(), |n: int| word_byte(ws[n / 8], n % 8))
}

/// The word whose eight little-endian bytes start at `b[8 * i]`.
pub open spec fn le_word(b: Seq<u8>, i: int) -> i64 {
    let at = 8 * i;
    (b[at] as u64 | (b[at + 1] as u64) << 8u64 | (b[at + 2] as u64) << 16u64 | (b[at + 3] as u64) << 24u64 | (b[at
        + 4] as u64) << 32u64 | (b[at + 5] as u64) << 40u64 | (b[at + 6] as u64) << 48u64 | (b[at + 7] as u64)
        << 56u64) as i64
}

/// The words packed in bytes `b`, eight bytes each.
pub open spec fn le_words(b: Seq<u8>) -> Seq<i64> {
    Seq::new(b.len() / 8, |i: int| le_word(b, i))
}

/// A word rebuilt from its own eight bytes is the word.
proof fn lemma_word_from_bytes(w: i64)
    ensures
        (word_byte(w, 0) as u64 | (word_byte(w, 1) as u64) << 8u64 | (word_byte(w, 2) as u64) << 16u64 | (word_byte(
            w,
            3,
        ) as u64) << 24u64 | (word_byte(w, 4) as u64) << 32u64 | (word_byte(w, 5) as u64) << 40u64 | (word_byte(w, 6)
            as u64) << 48u64 | (word_byte(w, 7) as u64) << 56u64) as i64 == w,
{
    let x = w as u64;
    assert(x >> 0u64 == x) by (bit_vector);
    assert(word_byte(w, 0) == x as u8);
    assert(word_byte(w, 1) == (x >> 8u64) as u8);
    assert(word_byte(w, 2) == (x >> 16u64) as u8);
    assert(word_byte(w, 3) == (x >> 24u64) as u8);
    assert(word_byte(w, 4) == (x >> 32u64) as u8);
    assert(word_byte(w, 5) == (x >> 40u64) as u8);
    assert(word_byte(w, 6) == (x >> 48u64) as u8);
    assert(word_byte(w, 7) == (x >> 56u64) as u8);
    assert((((x as u8) as u64) | (((x >> 8u64) as u8) as u64) << 8u64 | (((x >> 16u64) as u8) as u64) << 16u64 | (((x
        >> 24u64) as u8) as u64) << 24u64 | (((x >> 32u64) as u8) as u64) << 32u64 | (((x >> 40u64) as u8) as u64)
        << 40u64 | (((x >> 48u64) as u8) as u64) << 48u64 | (((x >> 56u64) as u8) as u64) << 56u64) as i64 == w)
        by (bit_vector)
        requires
            x == w as u64,
    ;
}

/// Packing words into bytes and reading them back gives the words.
pub proof fn lemma_bytes_round_trip(ws: Seq<i64>)
    ensures
        le_words(le_bytes(ws)) == ws,
{
    let b = le_bytes(ws);
    assert forall|i: int| 0 <= i < ws.len() implies #[trigger] le_word(b, i) == ws[i] by {
        assert forall|k: int| 0 <= k < 8 implies #[trigger] b[8 * i + k] == word_byte(ws[i], k) by {
            assert((8 * i + k) / 8 == i && (8 * i + k) % 8 == k) by (nonlinear_arith)
                requires
                    0 <= k < 8,
            ;
        }
        assert(b[8 * i] == word_byte(ws[i], 0));
        assert(b[8 * i + 1] == word_byte(ws[i], 1));
        assert(b[8 * i + 2] == word_byte(ws[i], 2));
        assert(b[8 * i + 3] == word_byte(ws[i], 3));
        assert(b[8 * i + 4] == word_byte(ws[i], 4));
        assert(b[8 * i + 5] == word_byte(ws[i], 5));
        assert(b[8 * i + 6] == word_byte(ws[i], 6));
        assert(b[8 * i + 7] == word_byte(ws[i], 7));
        lemma_word_from_bytes(ws[i]);
    }
    assert(b.len() / 8 == ws.len()) by (nonlinear_arith)
        requires
            b.len() == 8 * ws.len(),
    ;
    assert(le_words(b) =~= ws);
}

/// Words `words` as little-endian bytes, eight per word.
pub fn words_to_bytes(words: &[i64]) -> (out: Vec<u8>)
    requires
        8 * words@.len() <= usize::MAX,
    ensures
        out@ == le_bytes(words@),
{
    let mut out: Vec<u8> = Vec::new();
    let mut i: usize = 0;
    while i < words.len()
        invariant
            8 * words@.len() <= usize::MAX,
            0 <= i <= words@.len(),
            out@.len() == 8 * i,
            forall|n: int| 0 <= n < 8 * i ==> #[trigger] out@[n] == word_byte(words@[n / 8], n % 8),
        decreases words@.len() - i,
    {
        let w = words[i];
        let x = w as u64;
        let ghost start = out@;
        out.push(x as u8);
        out.push((x >> 8u64) as u8);
        out.push((x >> 16u64) as u8);
        out.push((x >> 24u64) as u8);
        out.push((x >> 32u64) as u8);
        out.push((x >> 40u64) as u8);
        out.push((x >> 48u64) as u8);
        out.push((x >> 56u64) as u8);
        proof {
            assert(x >> 0u64 == x) by (bit_vector);
            assert forall|n: int| 0 <= n < 8 * (i + 1) implies #[trigger] out@[n] == word_byte(words@[n / 8], n % 8) by {
                if n >= 8 * i {
                    let k = n - 8 * i;
                    assert(n / 8 == i && n % 8 == k) by (nonlinear_arith)
                        requires
                            0 <= k < 8,
                            n == 8 * i + k,
                    ;
                    assert(out@[n] == start.push(x as u8).push((x >> 8u64) as u8).push((x >> 16u64) as u8).push(
                        (x >> 24u64) as u8,
                    ).push((x >> 32u64) as u8).push((x >> 40u64) as u8).push((x >> 48u64) as u8).push((x >> 56u64) as u8)[n]);
                } else {
                    assert(out@[n] == start[n]);
                }
            }
        }
        i = i + 1;
    }
    assert(out@ =~= le_bytes(words@));
    out
}

/// The words packed little-endian in `bytes`, or `None` when the length is
/// not a whole number of words.
pub fn words_from_bytes(bytes: &[u8]) -> (r: Option<Vec<i64>>)
    ensures
        r is None <==> bytes@.len() % 8 != 0,
        r matches Some(ws) ==> ws@ == le_words(bytes@),
{
    let len = bytes.len();
    if len % 8 != 0 {
        return None;
    }
    let n = len / 8;
    let mut out: Vec<i64> = Vec::new();
    let mut i: usize = 0;
    while i < n
        invariant
            len == bytes@.len(),
            n == bytes@.len() / 8,
            bytes@.len() % 8 == 0,
            0 <= i <= n,
            out@ == le_words(bytes@).take(i as int),
        decreases n - i,
    {
        assert(8 * i + 7 < bytes@.len()) by (nonlinear_arith)
            requires
                i < n,
                n == bytes@.len() / 8,
                bytes@.len() % 8 == 0,
        ;
        let at = 8 * i;
        let x: u64 = bytes[at] as u64 | (bytes[at + 1] as u64) << 8u64 | (bytes[at + 2] as u64) << 16u64
            | (bytes[at + 3] as u64) << 24u64 | (bytes[at + 4] as u64) << 32u64 | (bytes[at + 5] as u64) << 40u64
            | (bytes[at + 6] as u64) << 48u64 | (bytes[at + 7] as u64) << 56u64;
        out.push(#[verifier::truncate] (x as i64));
        assert(out@ =~= le_words(bytes@).take(i + 1));
        i = i + 1;
    }
    assert(out@ =~= le_words(bytes@));
    Some(out)
}

} // verus!
