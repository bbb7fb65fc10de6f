//! The dictionary: a fixed, ordered list of words, each with the number of
//! times it was observed. The position of a word in the list is its stable
//! index.
use crate::feedback::{is_word, letters, WORD_LEN};
use vstd::prelude::*;

verus! {

/// The letters of every word of a dictionary, by stable index.
pub open spec fn dictionary_words(dictionary: Seq<(&str, usize)>) -> Seq<Seq<u8>> {
    Seq::new(dictionary.len(), |i: int| letters(dictionary[i].0@))
}

/// Every entry of the dictionary is a word.
pub open spec fn words_only(dictionary: Seq<(&str, usize)>) -> bool {
    forall|i: int| 0 <= i < dictionary.len() ==> is_word(letters((#[trigger] dictionary[i]).0@))
}

/// The sum of the frequencies of all entries.
pub open spec fn frequency_sum(dictionary: Seq<(&str, usize)>) -> nat
    decreases dictionary.len(),
{
    if dictionary.len() == 0 {
        0
    } else {
        frequency_sum(dictionary.drop_last()) + dictionary.last().1 as nat
    }
}

/// The frequencies of the first entries sum to no more than those of all.
pub proof fn lemma_frequency_sum_prefix(dictionary: Seq<(&str, usize)>, n: int)
    requires
        0 <= n <= dictionary.len(),
    ensures
        frequency_sum(dictionary.take(n)) <= frequency_sum(dictionary),
    decreases dictionary.len(),
{
    if n == dictionary.len() {
        assert(dictionary.take(n) =~= dictionary);
    } else {
        lemma_frequency_sum_prefix(dictionary.drop_last(), n);
        assert(dictionary.drop_last().take(n) =~= dictionary.take(n));
    }
}

/// Whether every entry of the dictionary is a word of `WORD_LEN` bytes.
pub fn holds_words_only(dictionary: &[(&str, usize)]) -> (ok: bool)
    ensures
        ok == words_only(dictionary@),
{
    let mut i: usize = 0;
    while i < dictionary.len()
        invariant
            i <= dictionary@.len(),
            forall|k: int| 0 <= k < i ==> is_word(letters((#[trigger] dictionary@[k]).0@)),
        decreases dictionary@.len() - i,
    {
        if dictionary[i].0.as_bytes().len() != WORD_LEN {
            return false;
        }
        i = i + 1;
    }
    true
}

/// The sum of the frequencies of all entries, or nothing where the sum does
/// not fit the machine's word.
pub fn total_frequency(dictionary: &[(&str, usize)]) -> (total: Option<usize>)
    ensures
        match total {
            Some(sum) => sum == frequency_sum(dictionary@),
            None => frequency_sum(dictionary@) > usize::MAX,
        },
{
    let mut sum: usize = 0;
    let mut i: usize = 0;
    while i < dictionary.len()
        invariant
            i <= dictionary@.len(),
            sum == frequency_sum(dictionary@.take(i as int)),
        decreases dictionary@.len() - i,
    {
        proof {
            assert(dictionary@.take(i + 1).drop_last() =~= dictionary@.take(i as int));
            lemma_frequency_sum_prefix(dictionary@, i + 1);
        }
        match sum.checked_add(dictionary[i].1) {
            Some(next) => {
                sum = next;
            },
            None => {
                return None;
            },
        }
        i = i + 1;
    }
    assert(dictionary@.take(dictionary@.len() as int) =~= dictionary@);
    Some(sum)
}

} // verus!
