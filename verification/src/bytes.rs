//! Little-endian byte images of 64-bit words.

use vstd::prelude::*;

verus! {

/// Byte `i` (0 = least significant) of the word `w`.
pub open spec fn word_byte(w: u64, i: int) -> u8 {
    ((w >> ((8 * i) as u64)) & 0xff) as u8
}

/// The little-endian byte image of a sequence of words.
pub open spec fn le_bytes(words: Seq<u64>) -> Seq<u8> {
    Seq::new(words.len() * 8, |k: int| word_byte(words[k / 8], k % 8))
}

/// The little-endian bytes of one word.
pub fn word_le_bytes(w: u64) -> (r: [u8; 8])
    ensures
        r@ == Seq::new(8, |i: int| word_byte(w, i)),
{
    let r = [
        (w & 0xff) as u8,
        ((w >> 8u64) & 0xff) as u8,
        ((w >> 16u64) & 0xff) as u8,
        ((w >> 24u64) & 0xff) as u8,
        ((w >> 32u64) & 0xff) as u8,
        ((w >> 40u64) & 0xff) as u8,
        ((w >> 48u64) & 0xff) as u8,
        ((w >> 56u64) & 0xff) as u8,
    ];
    assert(w >> 0u64 == w) by (bit_vector);
    assert(r@ =~= Seq::new(8, |i: int| word_byte(w, i)));
    r
}


/// The word whose little-endian bytes are `b[off..off + 8]`.
fn word_from_le_bytes(b: &[u8], off: usize) -> (w: u64)
    requires
        off + 8 <= b@.len(),
    ensures
        forall|i: int| 0 <= i < 8 ==> #[trigger] word_byte(w, i) == b@[off + i],
{
    let b0 = b[off] as u64;
    let b1 = b[off + 1] as u64;
    let b2 = b[off + 2] as u64;
    let b3 = b[off + 3] as u64;
    let b4 = b[off + 4] as u64;
    let b5 = b[off + 5] as u64;
    let b6 = b[off + 6] as u64;
    let b7 = b[off + 7] as u64;
    let w = b0 | (b1 << 8u64) | (b2 << 16u64) | (b3 << 24u64) | (b4 << 32u64) | (b5 << 40u64) | (b6 << 48u64)
        | (b7 << 56u64);
    assert(b0 < 256 && b1 < 256 && b2 < 256 && b3 < 256 && b4 < 256 && b5 < 256 && b6 < 256 && b7 < 256);
    assert({
        &&& (w >> 0u64) & 0xff == b0
        &&& (w >> 8u64) & 0xff == b1
        &&& (w >> 16u64) & 0xff == b2
        &&& (w >> 24u64) & 0xff == b3
        &&& (w >> 32u64) & 0xff == b4
        &&& (w >> 40u64) & 0xff == b5
        &&& (w >> 48u64) & 0xff == b6
        &&& (w >> 56u64) & 0xff == b7
    }) by (bit_vector)
        requires
            b0 < 256 && b1 < 256 && b2 < 256 && b3 < 256 && b4 < 256 && b5 < 256 && b6 < 256 && b7 < 256,
            w == b0 | (b1 << 8u64) | (b2 << 16u64) | (b3 << 24u64) | (b4 << 32u64) | (b5 << 40u64) | (b6
                << 48u64) | (b7 << 56u64),
    ;
    assert forall|i: int| 0 <= i < 8 implies #[trigger] word_byte(w, i) == b@[off + i] by {
        if i == 0 {
        } else if i == 1 {
        } else if i == 2 {
        } else if i == 3 {
        } else if i == 4 {
        } else if i == 5 {
        } else if i == 6 {
        } else {
        }
    }
    w
}

/// The words whose little-endian byte image is `bytes`, when its length is a multiple of 8.
pub fn words_from_le_bytes(bytes: &[u8]) -> (r: Option<Vec<u64>>)
    ensures
        r is Some <==> bytes@.len() % 8 == 0,
        r matches Some(words) ==> le_bytes(words@) == bytes@,
{
    let n = bytes.len();
    if n % 8 != 0 {
        return None;
    }
    let mut words: Vec<u64> = Vec::new();
    let mut k: usize = 0;
    while k < n / 8
        invariant
            n == bytes@.len(),
            n % 8 == 0,
            k <= n / 8,
            words@.len() == k,
            le_bytes(words@) == bytes@.subrange(0, 8 * k as int),
        decreases n / 8 - k,
    {
        let w = word_from_le_bytes(bytes, 8 * k);
        let ghost before = words@;
        words.push(w);
        proof {
            assert forall|j: int| 0 <= j < 8 * (k + 1) implies #[trigger] le_bytes(words@)[j] == bytes@.subrange(
                0,
                8 * (k + 1),
            )[j] by {
                if j < 8 * k {
                    assert(le_bytes(before)[j] == bytes@.subrange(0, 8 * k as int)[j]);
                    assert(words@[j / 8] == before[j / 8]);
                } else {
                    assert(j / 8 == k);
                    assert(word_byte(w, j % 8) == bytes@[8 * k + j % 8]);
                }
            }
            assert(le_bytes(words@) =~= bytes@.subrange(0, 8 * (k + 1)));
        }
        k = k + 1;
    }
    assert(bytes@.subrange(0, n as int) =~= bytes@);
    Some(words)
}


/// A word is determined by its eight bytes.
proof fn lemma_word_from_bytes(x: u64, y: u64)
    requires
        forall|t: int| 0 <= t < 8 ==> #[trigger] word_byte(x, t) == word_byte(y, t),
    ensures
        x == y,
{
    assert(word_byte(x, 0) == word_byte(y, 0));
    assert(word_byte(x, 1) == word_byte(y, 1));
    assert(word_byte(x, 2) == word_byte(y, 2));
    assert(word_byte(x, 3) == word_byte(y, 3));
    assert(word_byte(x, 4) == word_byte(y, 4));
    assert(word_byte(x, 5) == word_byte(y, 5));
    assert(word_byte(x, 6) == word_byte(y, 6));
    assert(word_byte(x, 7) == word_byte(y, 7));
    assert(x == y) by (bit_vector)
        requires
            ((x >> 0u64) & 0xff) as u8 == ((y >> 0u64) & 0xff) as u8,
            ((x >> 8u64) & 0xff) as u8 == ((y >> 8u64) & 0xff) as u8,
            ((x >> 16u64) & 0xff) as u8 == ((y >> 16u64) & 0xff) as u8,
            ((x >> 24u64) & 0xff) as u8 == ((y >> 24u64) & 0xff) as u8,
            ((x >> 32u64) & 0xff) as u8 == ((y >> 32u64) & 0xff) as u8,
            ((x >> 40u64) & 0xff) as u8 == ((y >> 40u64) & 0xff) as u8,
            ((x >> 48u64) & 0xff) as u8 == ((y >> 48u64) & 0xff) as u8,
            ((x >> 56u64) & 0xff) as u8 == ((y >> 56u64) & 0xff) as u8,
    ;
}

/// Words are determined by their little-endian byte image: reading words back from the
/// bytes of words gives those words.
pub proof fn lemma_le_bytes_injective(a: Seq<u64>, b: Seq<u64>)
    requires
        le_bytes(a) == le_bytes(b),
    ensures
        a == b,
{
    assert(le_bytes(a).len() == a.len() * 8);
    assert(le_bytes(b).len() == b.len() * 8);
    assert(a.len() == b.len());
    assert forall|i: int| 0 <= i < a.len() implies a[i] == b[i] by {
        assert forall|t: int| 0 <= t < 8 implies #[trigger] word_byte(a[i], t) == word_byte(b[i], t) by {
            let k = 8 * i + t;
            assert(k / 8 == i && k % 8 == t);
            assert(k < a.len() * 8);
            assert(le_bytes(a)[k] == word_byte(a[i], t));
            assert(le_bytes(b)[k] == word_byte(b[i], t));
        }
        lemma_word_from_bytes(a[i], b[i]);
    }
    assert(a =~= b);
}

} // verus!
