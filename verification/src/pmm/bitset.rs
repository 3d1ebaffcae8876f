//! A set of bits over borrowed words.

use vstd::prelude::*;

verus! {

/// Whether bit `bit` of `word` is set.
pub open spec fn word_bit(word: u64, bit: u64) -> bool {
    word & (1u64 << bit) != 0
}

proof fn lemma_word_bit_update(word: u64, bit: u64, other: u64)
    by (bit_vector)
    requires
        bit < 64,
        other < 64,
    ensures
        word_bit(word | (1u64 << bit), other) == (other == bit || word_bit(word, other)),
        word_bit(word & !(1u64 << bit), other) == (other != bit && word_bit(word, other)),
        word_bit((word & !(1u64 << bit)) | ((1u64 << bit) & 0xFFFF_FFFF_FFFF_FFFFu64), other) == (
        other == bit || word_bit(word, other)),
        word_bit((word & !(1u64 << bit)) | ((1u64 << bit) & 0u64), other) == (other != bit
            && word_bit(word, other)),
{
}

/// The bits that a sequence of words holds, bit 0 of word 0 first.
pub open spec fn bits_of(words: Seq<u64>) -> Seq<bool> {
    Seq::new(words.len() * 64, |i: int| word_bit(words[i / 64], (i % 64) as u64))
}

proof fn lemma_bits_of_update(words: Seq<u64>, index: int, word: u64, value: bool)
    requires
        0 <= index < words.len() * 64,
        forall|other: u64|
            other < 64 ==> #[trigger] word_bit(word, other) == if other == (index % 64) as u64 {
                value
            } else {
                word_bit(words[index / 64], other)
            },
    ensures
        bits_of(words.update(index / 64, word)) == bits_of(words).update(index, value),
{
    let updated = words.update(index / 64, word);
    assert forall|i: int| 0 <= i < words.len() * 64 implies bits_of(updated)[i] == bits_of(
        words,
    ).update(index, value)[i] by {
        if i / 64 == index / 64 {
            assert(word_bit(word, (i % 64) as u64) == if (i % 64) as u64 == (index % 64) as u64 {
                value
            } else {
                word_bit(words[index / 64], (i % 64) as u64)
            });
        }
    }
    assert(bits_of(updated) =~= bits_of(words).update(index, value));
}

/// A bit per index, kept in words that the set borrows.
pub struct BoolBitset<'a> {
    pub storage: &'a mut [u64],
}

impl<'a> View for BoolBitset<'a> {
    type V = Seq<bool>;

    /// The bits, bit 0 of the first word first.
    open spec fn view(&self) -> Seq<bool> {
        bits_of(self.storage@)
    }
}

impl<'a> BoolBitset<'a> {
    /// The number of words.
    pub open spec fn words(&self) -> nat {
        self.storage@.len()
    }

    /// The set has 64 bits for each word.
    pub proof fn lemma_len(&self)
        ensures
            self@.len() == self.words() * 64,
    {
    }

    /// The set over `storage`, with the bits that the words hold.
    pub fn new(storage: &'a mut [u64]) -> (bitset: Self)
        ensures
            bitset@ == bits_of(old(storage)@),
            bitset.words() == old(storage)@.len(),
            final(storage)@ == final(bitset.storage)@,
    {
        Self { storage }
    }

    /// The number of words, each of 64 bits.
    pub fn len(&self) -> (len: usize)
        ensures
            len == self.words(),
            self@.len() == len * 64,
    {
        self.storage.len()
    }

    /// Sets bit `index`, which must be one of the set.
    pub fn set_at(&mut self, index: usize)
        requires
            index < old(self)@.len(),
        ensures
            final(self)@ == old(self)@.update(index as int, true),
            final(self).words() == old(self).words(),
            final(final(self).storage)@ == final(old(self).storage)@,
    {
        let word: usize = index / 64;
        let updated: u64 = self.storage[word] | (1 << (index % 64));
        proof {
            assert forall|other: u64| other < 64 implies #[trigger] word_bit(updated, other) == if other
                == (index as int % 64) as u64 {
                true
            } else {
                word_bit(self.storage@[index as int / 64], other)
            } by {
                lemma_word_bit_update(self.storage@[word as int], (index % 64) as u64, other);
            }
            lemma_bits_of_update(self.storage@, index as int, updated, true);
        }
        self.storage[word] = updated;
    }

    /// Clears bit `index`, which must be one of the set.
    pub fn clear_at(&mut self, index: usize)
        requires
            index < old(self)@.len(),
        ensures
            final(self)@ == old(self)@.update(index as int, false),
            final(self).words() == old(self).words(),
            final(final(self).storage)@ == final(old(self).storage)@,
    {
        let word: usize = index / 64;
        let updated: u64 = self.storage[word] & !(1 << (index % 64));
        proof {
            assert forall|other: u64| other < 64 implies #[trigger] word_bit(updated, other) == if other
                == (index as int % 64) as u64 {
                false
            } else {
                word_bit(self.storage@[index as int / 64], other)
            } by {
                lemma_word_bit_update(self.storage@[word as int], (index % 64) as u64, other);
            }
            lemma_bits_of_update(self.storage@, index as int, updated, false);
        }
        self.storage[word] = updated;
    }

    /// Sets bit `index` to `value`; the bit must be one of the set.
    pub fn assign_at(&mut self, index: usize, value: bool)
        requires
            index < old(self)@.len(),
        ensures
            final(self)@ == old(self)@.update(index as int, value),
            final(self).words() == old(self).words(),
            final(final(self).storage)@ == final(old(self).storage)@,
    {
        let word: usize = index / 64;
        let mask: u64 = 1 << (index % 64);
        let val_mask: u64 = if value {
            0xFFFF_FFFF_FFFF_FFFF
        } else {
            0
        };
        let updated: u64 = (self.storage[word] & !mask) | (mask & val_mask);
        proof {
            assert forall|other: u64| other < 64 implies #[trigger] word_bit(updated, other) == if other
                == (index as int % 64) as u64 {
                value
            } else {
                word_bit(self.storage@[index as int / 64], other)
            } by {
                lemma_word_bit_update(self.storage@[word as int], (index % 64) as u64, other);
            }
            lemma_bits_of_update(self.storage@, index as int, updated, value);
        }
        self.storage[word] = updated;
    }

    /// Reads bit `index`, which must be one of the set.
    pub fn get(&self, index: usize) -> (bit: bool)
        requires
            index < self@.len(),
        ensures
            bit == self@[index as int],
    {
        let word: usize = index / 64;
        let mask: u64 = 1 << (index % 64);
        (self.storage[word] & mask) != 0
    }
}

} // verus!
