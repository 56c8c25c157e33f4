//! A space-efficient bit set of a size fixed at creation: up to 64 bits are
//! kept in one word, more in one word per bit slot.
use vstd::prelude::*;

verus! {

/// Bit `k` of the word `w`.
pub open spec fn word_bit(w: u64, k: u64) -> bool {
    (w >> k) & 1u64 == 1u64
}

/// Setting bit `b` of a word sets that bit and leaves the others.
proof fn lemma_set_bit(w: u64, b: u64, k: u64)
    requires
        b < 64,
        k < 64,
    ensures
        word_bit(w | (1u64 << b), k) == (k == b || word_bit(w, k)),
{
    assert(((w | (1u64 << b)) >> k) & 1u64 == 1u64 <==> (k == b || (w >> k) & 1u64 == 1u64)) by (bit_vector)
        requires
            b < 64,
            k < 64,
    ;
}

/// No bit of the zero word is set.
proof fn lemma_zero_word(k: u64)
    requires
        k < 64,
    ensures
        !word_bit(0u64, k),
{
    assert((0u64 >> k) & 1u64 != 1u64) by (bit_vector);
}

/// The low six bits of an index are its remainder modulo 64.
proof fn lemma_low_bits(index: usize)
    ensures
        index & 63usize == index % 64,
        (index & 63usize) < 64,
{
    assert(index & 63usize == index % 64) by (bit_vector);
    assert((index & 63usize) < 64) by (bit_vector);
}

/// Whether some set bit of `bits` falls on slot `k` when slots wrap around
/// every 64 positions.
pub open spec fn some_set_at(bits: Seq<bool>, upto: int, k: int) -> bool {
    exists|j: int| 0 <= j < upto && #[trigger] bits[j] && j % 64 == k
}

/// What bit `i` of a set built from `bits` with `size` slots reads as. With
/// more than 64 slots each bit has its own place; with at most 64 all bits
/// share one word, so a bit past the size lands on slot `j % 64`.
pub open spec fn spec_built_bit(bits: Seq<bool>, size: int, i: int) -> bool {
    if size > 64 {
        i < bits.len() && bits[i]
    } else {
        some_set_at(bits, bits.len() as int, i)
    }
}

/// The bits, one word for small sets and one word per slot for large ones.
enum CompactBitSetData {
    Small(u64),
    Large(Vec<u64>),
}

impl CompactBitSetData {
    spec fn spec_bit(&self, index: int) -> bool {
        match self {
            CompactBitSetData::Small(w) => word_bit(*w, (index % 64) as u64),
            CompactBitSetData::Large(ws) => word_bit(ws@[index / 64], (index % 64) as u64),
        }
    }

    /// Reads bit `index` (no size check).
    fn get(&self, index: usize) -> (res: bool)
        requires
            match self {
                CompactBitSetData::Small(_) => true,
                CompactBitSetData::Large(ws) => index / 64 < ws@.len(),
            },
        ensures
            res == self.spec_bit(index as int),
    {
        let entry_index = index / 64;
        let bit_index = index & 63;
        proof {
            lemma_low_bits(index);
        }
        match self {
            CompactBitSetData::Small(entry) => ((*entry >> (bit_index as u64)) & 1) == 1,
            CompactBitSetData::Large(entries) => {
                let entry = entries[entry_index];
                ((entry >> (bit_index as u64)) & 1) == 1
            },
        }
    }

    /// Sets bit `index` (no size check).
    fn set(&mut self, index: usize)
        requires
            match *old(self) {
                CompactBitSetData::Small(_) => true,
                CompactBitSetData::Large(ws) => index / 64 < ws@.len(),
            },
        ensures
            match (*old(self), *final(self)) {
                (CompactBitSetData::Small(w0), CompactBitSetData::Small(w1)) => w1 == w0 | (1u64 << ((
                index % 64) as u64)),
                (CompactBitSetData::Large(ws0), CompactBitSetData::Large(ws1)) => ws1@ == ws0@.update(
                    index as int / 64,
                    ws0@[index as int / 64] | (1u64 << ((index % 64) as u64)),
                ),
                _ => false,
            },
    {
        let entry_index = index / 64;
        let bit_index = index & 63;
        proof {
            lemma_low_bits(index);
        }
        match self {
            CompactBitSetData::Small(entry) => {
                *entry = *entry | (1u64 << (bit_index as u64));
            },
            CompactBitSetData::Large(entries) => {
                let entry = entries[entry_index] | (1u64 << (bit_index as u64));
                entries.set(entry_index, entry);
            },
        }
    }
}

/// A bit set whose size is fixed when it is built.
pub struct CompactBitSet {
    size: usize,
    data: CompactBitSetData,
}

impl View for CompactBitSet {
    type V = Seq<bool>;

    closed spec fn view(&self) -> Seq<bool> {
        Seq::new(self.size as nat, |i: int| self.data.spec_bit(i))
    }
}

impl CompactBitSet {
    #[verifier::type_invariant]
    closed spec fn shape(self) -> bool {
        match self.data {
            CompactBitSetData::Small(_) => self.size <= 64,
            CompactBitSetData::Large(ws) => self.size > 64 && ws@.len() == self.size,
        }
    }

    /// The empty set, of size 0.
    pub fn empty() -> (res: Self)
        ensures
            res@.len() == 0,
    {
        CompactBitSet { size: 0, data: CompactBitSetData::Small(0) }
    }

    /// A set of `size` slots in which bit `i` is set for each `bits[i]` that
    /// is true. With at most 64 slots, a true bit past the size sets slot
    /// `i % 64`.
    pub fn from_iter(bits: &[bool], size: usize) -> (res: Self)
        requires
            size > 64 ==> forall|j: int| 0 <= j < bits@.len() && #[trigger] bits@[j] ==> j / 64 < size,
        ensures
            res@.len() == size,
            forall|i: int| 0 <= i < size ==> #[trigger] res@[i] == spec_built_bit(bits@, size as int, i),
    {
        let mut data = if size > 64 {
            let mut words: Vec<u64> = Vec::new();
            let mut n: usize = 0;
            while n < size
                invariant
                    0 <= n <= size,
                    words@.len() == n,
                    forall|e: int| 0 <= e < n ==> words@[e] == 0,
                decreases size - n,
            {
                words.push(0);
                n = n + 1;
            }
            CompactBitSetData::Large(words)
        } else {
            CompactBitSetData::Small(0)
        };
        let mut t: usize = 0;
        proof {
            assert forall|k: u64| k < 64 implies !#[trigger] word_bit(0u64, k) by {
                lemma_zero_word(k);
            }
        }
        while t < bits.len()
            invariant
                0 <= t <= bits@.len(),
                size > 64 ==> forall|j: int| 0 <= j < bits@.len() && #[trigger] bits@[j] ==> j / 64 < size,
                match data {
                    CompactBitSetData::Small(w) => size <= 64 && forall|k: u64| k < 64 ==> #[trigger] word_bit(w, k) == some_set_at(bits@, t as int, k as int),
                    CompactBitSetData::Large(ws) => size > 64 && ws@.len() == size && forall|e: int, k: u64| 0 <= e < size && k < 64 ==> #[trigger] word_bit(ws@[e], k) == (64 * e + k < t && bits@[64 * e + k]),
                },
            decreases bits@.len() - t,
        {
            if bits[t] {
                let ghost old_data = data;
                data.set(t);
                let ghost new_data = data;
                proof {
                    match (old_data, new_data) {
                        (CompactBitSetData::Small(w0), CompactBitSetData::Small(w1)) => {
                            assert forall|k: u64| k < 64 implies #[trigger] word_bit(w1, k) == some_set_at(bits@, t + 1, k as int) by {
                                lemma_set_bit(w0, (t % 64) as u64, k);
                                if k as int == t % 64 {
                                    assert(bits@[t as int] && (t as int) % 64 == k);
                                } else if some_set_at(bits@, t + 1, k as int) {
                                    let j = choose|j: int| 0 <= j < t + 1 && #[trigger] bits@[j] && j % 64 == k;
                                    assert(j != t);
                                }
                            }
                        },
                        (CompactBitSetData::Large(ws0), CompactBitSetData::Large(ws1)) => {
                            assert forall|e: int, k: u64| 0 <= e < size && k < 64 implies #[trigger] word_bit(ws1@[e], k) == (64 * e + k < t + 1 && bits@[64 * e + k]) by {
                                if e == t / 64 {
                                    lemma_set_bit(ws0@[e], (t % 64) as u64, k);
                                }
                            }
                        },
                        _ => {},
                    }
                }
            } else {
                let ghost cur = data;
                proof {
                    match cur {
                        CompactBitSetData::Small(w) => {
                            assert forall|k: u64| k < 64 implies #[trigger] word_bit(w, k) == some_set_at(bits@, t + 1, k as int) by {
                                if some_set_at(bits@, t + 1, k as int) {
                                    let j = choose|j: int| 0 <= j < t + 1 && #[trigger] bits@[j] && j % 64 == k;
                                    assert(j != t);
                                }
                            }
                        },
                        _ => {},
                    }
                }
            }
            t = t + 1;
        }
        let res = CompactBitSet { size, data };
        let ghost rd = res.data;
        proof {
            assert forall|i: int| 0 <= i < size implies #[trigger] res@[i] == spec_built_bit(bits@, size as int, i) by {
                match rd {
                    CompactBitSetData::Small(w) => {
                        assert(word_bit(w, (i % 64) as u64) == some_set_at(bits@, t as int, i % 64));
                    },
                    CompactBitSetData::Large(ws) => {
                        assert(word_bit(ws@[i / 64], (i % 64) as u64) == (64 * (i / 64) + i % 64 < t && bits@[64 * (i / 64) + i % 64]));
                    },
                }
            }
        }
        res
    }

    /// Bit `index`, which must lie below the size.
    pub fn get(&self, index: usize) -> (res: bool)
        requires
            index < self@.len(),
        ensures
            res == self@[index as int],
    {
        proof {
            use_type_invariant(self);
        }
        self.data.get(index)
    }
}

} // verus!
