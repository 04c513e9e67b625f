//! Which bins hold a free chunk: one bit for each bin, and one bit for each
//! word of those bits.

use super::geometry::Geometry;
use crate::numeric::{bit_flip, lowest_bit};
use vstd::prelude::*;

verus! {

pub struct Availability {
    summary: u64,
    words: Vec<u64>,
    bins: u64,
}

/// The word whose bits from `bit` on are set, and no other.
proof fn lemma_upper_bits(word: u64, bit: u64, other: u64)
    by (bit_vector)
    requires
        bit < 64,
        other < 64,
    ensures
        (((word & (0xffff_ffff_ffff_ffffu64 << bit)) >> other) & 1) != 0 <==> (((word >> other) & 1)
            != 0 && other >= bit),
{
}

proof fn lemma_shifted(word: u64, bit: u64, other: u64)
    by (bit_vector)
    requires
        bit < 64,
        other < 64,
        bit + other < 64,
    ensures
        (((word >> bit) >> other) & 1) == ((word >> ((bit + other) as u64)) & 1),
{
}

proof fn lemma_shifted_out(word: u64, bit: u64, other: u64)
    by (bit_vector)
    requires
        bit < 64,
        other < 64,
        bit + other >= 64,
    ensures
        (((word >> bit) >> other) & 1) == 0,
{
}

impl Availability {
    spec fn bit(self, index: int) -> bool {
        crate::numeric::bit_is_set(self.words@[index / 64], (index % 64) as u64)
    }

    /// Whether bin `index` is marked.
    pub closed spec fn has(self, index: int) -> bool {
        0 <= index < self.bins && self.bit(index)
    }

    pub closed spec fn count(self) -> int {
        self.bins as int
    }

    /// The summary tells which words are empty, and no bit is set beyond the
    /// bins.
    pub closed spec fn wf(self) -> bool {
        &&& 0 < self.bins <= 4096
        &&& self.words@.len() == super::geometry::div_ceil_spec(self.bins as int, 64)
        &&& forall|index: int|
            self.bins <= index < 64 * self.words@.len() ==> !#[trigger] self.bit(index)
        &&& forall|word: int|
            0 <= word < self.words@.len() ==> (crate::numeric::bit_is_set(
                self.summary,
                word as u64,
            ) <==> #[trigger] self.words@[word] != 0)
        &&& forall|word: u64|
            self.words@.len() <= word < 64 ==> !#[trigger] crate::numeric::bit_is_set(
                self.summary,
                word,
            )
    }

    /// No bin of the geometry is marked.
    pub fn new(geometry: Geometry) -> (made: Self)
        requires
            geometry.wf(),
        ensures
            made.wf(),
            made.count() == geometry.bins_spec(),
            forall|index: int| !#[trigger] made.has(index),
    {
        let count: u64 = geometry.availability_words(64);
        let bins: u64 = geometry.bin_count();
        proof {
            super::geometry::lemma_wf(geometry);
        }
        let mut words: Vec<u64> = Vec::new();
        let mut i: u64 = 0;
        while i < count
            invariant
                i <= count,
                words@.len() == i,
                forall|j: int| 0 <= j < i ==> #[trigger] words@[j] == 0,
            decreases count - i,
        {
            words.push(0);
            i = i + 1;
        }
        let made = Availability { summary: 0, words, bins };
        proof {
            crate::numeric::lemma_zero_word(0);
            assert forall|index: int| 0 <= index < 64 * made.words@.len() implies !#[trigger] made.bit(
                index,
            ) by {
                assert(made.words@[index / 64] == 0);
            }
        }
        made
    }

    fn toggle_avail(&mut self, index: u64, should_be: bool)
        requires
            old(self).wf(),
            index < old(self).count(),
            old(self).has(index as int) != should_be,
        ensures
            final(self).wf(),
            final(self).count() == old(self).count(),
            forall|other: int| #[trigger]
                final(self).has(other) == (if other == index {
                    should_be
                } else {
                    old(self).has(other)
                }),
    {
        let ghost before = *self;
        let word_index: u64 = index / 64;
        let bit_index: u64 = index % 64;
        let at: usize = word_index as usize;
        let mut word: u64 = self.words[at];
        let was_empty: bool = word == 0;
        bit_flip(&mut word, bit_index);
        let is_empty: bool = word == 0;
        self.words[at] = word;
        let summary: u64 = self.summary;
        if was_empty != is_empty {
            if is_empty {
                self.summary = summary & !(1u64 << word_index);
            } else {
                self.summary = summary | (1u64 << word_index);
            }
        }
        proof {
            let after = *self;
            assert forall|other: int| 0 <= other < 64 * before.words@.len() implies #[trigger]
                after.bit(other) == (before.bit(other) != (other == index)) by {
                if other / 64 == index / 64 {
                    assert(crate::numeric::bit_is_set(word, (other % 64) as u64) == (
                    crate::numeric::bit_is_set(before.words@[at as int], (other % 64) as u64) != ((
                    other % 64) as u64 == bit_index)));
                }
            }
            assert forall|w: u64| w < 64 implies #[trigger] crate::numeric::bit_is_set(
                after.summary,
                w,
            ) == (if w == word_index {
                !is_empty
            } else {
                crate::numeric::bit_is_set(before.summary, w)
            }) by {
                crate::numeric::lemma_set_bit(summary, word_index, w);
                if w == word_index {
                    assert(crate::numeric::bit_is_set(before.summary, word_index)
                        <==> before.words@[at as int] != 0);
                }
            }
            assert forall|w: int| 0 <= w < after.words@.len() implies (
            crate::numeric::bit_is_set(after.summary, w as u64) <==> #[trigger] after.words@[w]
                != 0) by {
                if w != at {
                    assert(after.words@[w] == before.words@[w]);
                }
            }
            assert forall|other: int| #[trigger] after.has(other) == (if other == index {
                should_be
            } else {
                before.has(other)
            }) by {
                if 0 <= other < after.bins {
                    assert(after.bit(other) == (before.bit(other) != (other == index)));
                }
            }
        }
    }

    pub fn set_avail(&mut self, index: u64)
        requires
            old(self).wf(),
            index < old(self).count(),
            !old(self).has(index as int),
        ensures
            final(self).wf(),
            final(self).count() == old(self).count(),
            forall|other: int| #[trigger]
                final(self).has(other) == (other == index || old(self).has(other)),
    {
        self.toggle_avail(index, true);
    }

    pub fn clear_avail(&mut self, index: u64)
        requires
            old(self).wf(),
            index < old(self).count(),
            old(self).has(index as int),
        ensures
            final(self).wf(),
            final(self).count() == old(self).count(),
            forall|other: int| #[trigger]
                final(self).has(other) == (other != index && old(self).has(other)),
    {
        self.toggle_avail(index, false);
    }

    /// The first marked bin from `index` on.
    pub fn next_avail_bin_idx(&self, index: u64) -> (found: Option<u64>)
        requires
            self.wf(),
        ensures
            match found {
                Some(bin) => index <= bin < self.count() && self.has(bin as int) && forall|
                    other: int,
                |
                    index <= other < bin ==> !#[trigger] self.has(other),
                None => forall|other: int| index <= other ==> !#[trigger] self.has(other),
            },
    {
        if index >= self.bins {
            return None;
        }
        let word_index: u64 = index / 64;
        let bit_index: u64 = index % 64;
        let word: u64 = self.words[word_index as usize];
        let shifted: u64 = word >> bit_index;
        if shifted != 0 {
            let low: u64 = lowest_bit(shifted);
            proof {
                if bit_index + low >= 64 {
                    lemma_shifted_out(word, bit_index, low);
                }
                lemma_shifted(word, bit_index, low);
                let bin = index + low;
                assert(bin / 64 == word_index && bin % 64 == bit_index + low);
                assert(self.bit(bin));
                assert forall|other: int| index <= other < bin implies !#[trigger] self.has(
                    other,
                ) by {
                    let step = (other - index) as u64;
                    assert(!crate::numeric::bit_is_set(shifted, step));
                    lemma_shifted(word, bit_index, step);
                    assert(other / 64 == word_index && other % 64 == bit_index + step);
                }
            }
            return Some(index + low);
        }
        proof {
            crate::numeric::lemma_zero_word(shifted);
            assert forall|other: int| index <= other < 64 * (word_index + 1) implies !#[trigger] self.has(
                other,
            ) by {
                let step = (other - index) as u64;
                assert(!crate::numeric::bit_is_set(shifted, step));
                lemma_shifted(word, bit_index, step);
                assert(other / 64 == word_index && other % 64 == bit_index + step);
            }
        }
        let next_word: u64 = word_index + 1;
        if next_word >= self.words.len() as u64 {
            return None;
        }
        let summary: u64 = self.summary & (0xffff_ffff_ffff_ffffu64 << next_word);
        let ghost whole = self.summary;
        if summary == 0 {
            proof {
                crate::numeric::lemma_zero_word(summary);
                assert forall|other: int| index <= other implies !#[trigger] self.has(other) by {
                    if 64 * next_word <= other < self.bins {
                        let w = (other / 64) as u64;
                        lemma_upper_bits(whole, next_word, w);
                        assert(!crate::numeric::bit_is_set(summary, w));
                        assert(self.words@[w as int] == 0);
                        crate::numeric::lemma_zero_word(0);
                    }
                }
            }
            return None;
        }
        let found_word: u64 = lowest_bit(summary);
        proof {
            lemma_upper_bits(whole, next_word, found_word);
            assert(crate::numeric::bit_is_set(whole, found_word));
            assert(found_word < self.words@.len());
            assert(self.words@[found_word as int] != 0);
        }
        let word: u64 = self.words[found_word as usize];
        let low: u64 = lowest_bit(word);
        let found: u64 = found_word * 64 + low;
        proof {
            assert(found / 64 == found_word && found % 64 == low);
            assert(self.bit(found as int));
            assert forall|other: int| index <= other < found implies !#[trigger] self.has(
                other,
            ) by {
                if other >= 64 * next_word {
                    let w = (other / 64) as u64;
                    if w < found_word {
                        lemma_upper_bits(whole, next_word, w);
                        assert(!crate::numeric::bit_is_set(summary, w));
                        assert(self.words@[w as int] == 0);
                        crate::numeric::lemma_zero_word(0);
                    } else {
                        assert(!crate::numeric::bit_is_set(word, (other % 64) as u64));
                    }
                }
            }
        }
        Some(found)
    }
}

} // verus!
