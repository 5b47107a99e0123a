use vstd::prelude::*;

use crate::reader::byte_reader::{spec_take, ByteReader};
use crate::reader::error::{Failure, outcome, ErrorView, HeliumError};
use crate::reader::helpers::{le_u64, Helper};

verus! {

/// A bit set over the slots of a tree node, stored as 64-bit words: slot
/// `i` is bit `i % 64` of word `i / 64`.
#[derive(Debug)]
pub struct NodeMask {
    pub bit_count: usize,
    pub words: Vec<u64>,
}

/// The mathematical value of a [`NodeMask`].
pub struct NodeMaskView {
    pub bit_count: usize,
    pub words: Seq<u64>,
}

impl View for NodeMask {
    type V = NodeMaskView;

    open spec fn view(&self) -> NodeMaskView {
        NodeMaskView { bit_count: self.bit_count, words: self.words@ }
    }
}

/// Whether bit `b` (counted from the least significant) of `w` is set.
pub open spec fn word_bit(w: u64, b: int) -> bool {
    (w >> (b as u64)) & 1 == 1
}

/// The number of set bits of `w` among bits `0..k`.
pub open spec fn bits_below(w: u64, k: int) -> nat
    decreases k,
{
    if k <= 0 {
        0
    } else {
        bits_below(w, k - 1) + if word_bit(w, k - 1) {
            1nat
        } else {
            0nat
        }
    }
}

/// The number of set bits of `w`.
pub open spec fn popcount(w: u64) -> nat {
    bits_below(w, 64)
}

/// The number of set bits in the first `n` words of `words`.
pub open spec fn words_popcount(words: Seq<u64>, n: int) -> nat
    decreases n,
{
    if n <= 0 {
        0
    } else {
        words_popcount(words, n - 1) + popcount(words[n - 1])
    }
}

/// The number of 64-bit words that hold `bit_count` bits.
pub open spec fn word_count(bit_count: int) -> int {
    bit_count / 64 + if bit_count % 64 == 0 {
        0int
    } else {
        1int
    }
}

impl NodeMaskView {
    /// The words hold exactly the bits of the mask.
    pub open spec fn wf(self) -> bool {
        self.words.len() == word_count(self.bit_count as int)
    }

    /// Whether slot `i` is set.
    pub open spec fn is_on(self, i: int) -> bool {
        word_bit(self.words[i / 64], i % 64)
    }

    /// The number of set slots among `0..n`.
    pub open spec fn count_set(self, n: int) -> nat
        decreases n,
    {
        if n <= 0 {
            0
        } else {
            self.count_set(n - 1) + if self.is_on(n - 1) {
                1nat
            } else {
                0nat
            }
        }
    }

    /// The number of set bits in all the words.
    pub open spec fn count_on(self) -> nat {
        words_popcount(self.words, self.words.len() as int)
    }
}

/// A mask of `bit_count` bits: `word_count(bit_count)` little-endian
/// `u64` words.
pub open spec fn spec_node_mask(data: Seq<u8>, pos: int, bit_count: usize) -> Result<
    (NodeMaskView, int),
    Failure,
> {
    let n = word_count(bit_count as int);
    match spec_take(data, pos, 8 * n) {
        Ok((_, q)) => Ok(
            (
                NodeMaskView {
                    bit_count,
                    words: Seq::new(
                        n as nat,
                        |i: int| le_u64(data.subrange(pos + 8 * i, pos + 8 * i + 8)) as u64,
                    ),
                },
                q,
            ),
        ),
        Err(e) => Err(e),
    }
}

/// `u64::count_ones`: the number of ones in the binary representation.
#[verifier::external_body]
fn u64_count_ones(w: u64) -> (r: u32)
    ensures
        r == popcount(w),
{
    w.count_ones()
}

proof fn lemma_bit_test(w: u64, b: u64)
    requires
        b < 64,
    ensures
        (w & (1u64 << b) != 0) == word_bit(w, b as int),
{
    assert((w & (1u64 << b) != 0) == ((w >> b) & 1 == 1)) by (bit_vector)
        requires
            b < 64,
    ;
}

proof fn lemma_bits_below_bound(w: u64, k: int)
    requires
        0 <= k,
    ensures
        bits_below(w, k) <= k,
    decreases k,
{
    if k > 0 {
        lemma_bits_below_bound(w, k - 1);
    }
}

proof fn lemma_words_popcount_bound(words: Seq<u64>, n: int)
    requires
        0 <= n,
    ensures
        words_popcount(words, n) <= 64 * n,
    decreases n,
{
    if n > 0 {
        lemma_words_popcount_bound(words, n - 1);
        lemma_bits_below_bound(words[n - 1], 64);
    }
}

/// A well-formed mask over a multiple of 64 slots has at most as many set
/// bits as slots.
pub proof fn lemma_count_on_bound(m: NodeMaskView)
    requires
        m.wf(),
        m.bit_count % 64 == 0,
    ensures
        m.count_on() <= m.bit_count,
        64 * m.words.len() == m.bit_count,
{
    lemma_words_popcount_bound(m.words, m.words.len() as int);
}

/// Counting the set slots of the first `j` words word by word.
proof fn lemma_count_set_word(m: NodeMaskView, j: int, k: int)
    requires
        0 <= j,
        0 <= k <= 64,
    ensures
        m.count_set(64 * j + k) == m.count_set(64 * j) + bits_below(m.words[j], k),
    decreases k,
{
    if k > 0 {
        lemma_count_set_word(m, j, k - 1);
        let i = 64 * j + k - 1;
        assert(i / 64 == j && i % 64 == k - 1) by (nonlinear_arith)
            requires
                i == 64 * j + k - 1,
                0 <= j,
                0 < k <= 64,
        ;
    }
}

/// The set bits of the words are exactly the set slots.
pub proof fn lemma_count_on_counts_slots(m: NodeMaskView, n: int)
    requires
        0 <= n <= m.words.len(),
    ensures
        words_popcount(m.words, n) == m.count_set(64 * n),
    decreases n,
{
    if n > 0 {
        lemma_count_on_counts_slots(m, n - 1);
        lemma_count_set_word(m, n - 1, 64);
        assert(64 * (n - 1) + 64 == 64 * n);
    }
}

impl NodeMask {
    /// Reads a mask of `bit_count` bits: `bit_count / 64` words, rounded up.
    pub fn read(reader: &mut ByteReader, bit_count: usize) -> (r: Result<Self, HeliumError>)
        ensures
            final(reader).bytes == old(reader).bytes,
            outcome(r, spec_node_mask(old(reader).data(), old(reader).pos as int, bit_count), final(reader).pos),
            r matches Ok(m) ==> m@.wf(),
    {
        let n_words = bit_count / 64 + if bit_count % 64 == 0 {
            0
        } else {
            1
        };
        if n_words > 0 && !reader.has_remaining(8 * n_words as u64) {
            return Err(HeliumError::UnexpectedEof);
        }
        let ghost d = reader.data();
        let ghost p = reader.pos as int;
        let mut words: Vec<u64> = Vec::new();
        let mut i: usize = 0;
        while i < n_words
            invariant
                0 <= i <= n_words,
                n_words == word_count(bit_count as int),
                reader.bytes == old(reader).bytes,
                d == reader.data(),
                p == old(reader).pos,
                reader.pos == p + 8 * i,
                n_words > 0 ==> p + 8 * n_words <= d.len(),
                words@ =~= Seq::new(
                    i as nat,
                    |k: int| le_u64(d.subrange(p + 8 * k, p + 8 * k + 8)) as u64,
                ),
            decreases n_words - i,
        {
            let w = match Helper::read_u64_le(reader) {
                Ok(w) => w,
                Err(e) => return Err(e),
            };
            words.push(w);
            i = i + 1;
        }
        Ok(NodeMask { bit_count, words })
    }

    /// Whether slot `index` is set.
    pub fn is_on(&self, index: usize) -> (b: bool)
        requires
            index < self.bit_count,
            index / 64 < self.words@.len(),
        ensures
            b == self@.is_on(index as int),
    {
        let word_index = index / 64;
        let bit_index = index % 64;
        proof {
            lemma_bit_test(self.words@[word_index as int], bit_index as u64);
        }
        self.words[word_index] & (1u64 << (bit_index as u64)) != 0
    }

    /// The number of set bits; it equals the number of set slots among the
    /// `64 * words.len()` slots that the words hold.
    pub fn count_on(&self) -> (n: usize)
        requires
            64 * self.words@.len() <= usize::MAX,
        ensures
            n == self@.count_on(),
            n == self@.count_set(64 * self.words@.len() as int),
    {
        let mut total: usize = 0;
        let mut i: usize = 0;
        while i < self.words.len()
            invariant
                0 <= i <= self.words@.len(),
                64 * self.words@.len() <= usize::MAX,
                total == words_popcount(self.words@, i as int),
            decreases self.words@.len() - i,
        {
            proof {
                lemma_words_popcount_bound(self.words@, i + 1);
            }
            total = total + u64_count_ones(self.words[i]) as usize;
            i = i + 1;
        }
        proof {
            lemma_count_on_counts_slots(self@, self.words@.len() as int);
        }
        total
    }
}

} // verus!
