//! Candidates: the words that may still be the answer, each with its stable
//! index, and what narrowing by one observed pattern keeps of them.
use crate::dictionary::{dictionary_words, words_only};
use crate::feedback::{is_word, letters, packed_pattern, WORD_LEN};
use vstd::prelude::*;

verus! {

/// A word that may still be the answer, with its stable index in the
/// dictionary.
#[derive(Clone, Copy, Debug)]
pub struct Candidate<'a> {
    pub word: &'a str,
    pub index: usize,
}

/// Whether two strings hold the same bytes.
pub fn same_word(a: &str, b: &str) -> (same: bool)
    ensures
        same == (letters(a@) == letters(b@)),
{
    let x = a.as_bytes();
    let y = b.as_bytes();
    if x.len() != y.len() {
        return false;
    }
    let mut i: usize = 0;
    while i < x.len()
        invariant
            x@ == letters(a@),
            y@ == letters(b@),
            x@.len() == y@.len(),
            i <= x@.len(),
            forall|k: int| 0 <= k < i ==> x@[k] == y@[k],
        decreases x@.len() - i,
    {
        if x[i] != y[i] {
            return false;
        }
        i = i + 1;
    }
    assert(x@ =~= y@);
    true
}

/// Every word of the dictionary, in order, each with its own position as
/// index.
pub open spec fn all_candidates<'a>(dictionary: Seq<(&'a str, usize)>) -> Seq<Candidate<'a>> {
    Seq::new(dictionary.len(), |i: int| Candidate { word: dictionary[i].0, index: i as usize })
}

/// The letters of the word of every candidate, in order.
pub open spec fn words_of(candidates: Seq<Candidate>) -> Seq<Seq<u8>> {
    Seq::new(candidates.len(), |i: int| letters(candidates[i].word@))
}

/// The candidates are a whole dictionary: each is a word, and each has its
/// own position as index.
pub open spec fn whole_dictionary(candidates: Seq<Candidate>) -> bool {
    forall|i: int|
        0 <= i < candidates.len() ==> (#[trigger] candidates[i]).index == i && is_word(
            letters(candidates[i].word@),
        )
}

/// The candidates of a new game: every word of the dictionary, in order, each
/// with its position as index.
pub fn initial_candidates<'a>(dictionary: &[(&'a str, usize)]) -> (initial: Vec<Candidate<'a>>)
    ensures
        initial@ == all_candidates(dictionary@),
        words_of(initial@) == dictionary_words(dictionary@),
        words_only(dictionary@) ==> whole_dictionary(initial@),
{
    let mut initial: Vec<Candidate<'a>> = Vec::new();
    let mut i: usize = 0;
    while i < dictionary.len()
        invariant
            i <= dictionary@.len(),
            initial@ == all_candidates(dictionary@).take(i as int),
        decreases dictionary@.len() - i,
    {
        initial.push(Candidate { word: dictionary[i].0, index: i });
        i = i + 1;
    }
    assert(words_of(initial@) =~= dictionary_words(dictionary@));
    initial
}

/// Whether the candidates are a whole dictionary.
pub fn is_whole_dictionary(candidates: &Vec<Candidate>) -> (whole: bool)
    ensures
        whole == whole_dictionary(candidates@),
{
    let mut i: usize = 0;
    while i < candidates.len()
        invariant
            i <= candidates@.len(),
            forall|k: int|
                0 <= k < i ==> (#[trigger] candidates@[k]).index == k && is_word(
                    letters(candidates@[k].word@),
                ),
        decreases candidates@.len() - i,
    {
        if candidates[i].index != i || candidates[i].word.as_bytes().len() != WORD_LEN {
            return false;
        }
        i = i + 1;
    }
    true
}

/// The candidates are drawn from `words`: each index is in range and names
/// the candidate's own word, and the indices rise strictly, so that no word
/// of the dictionary occurs twice and dictionary order is kept.
pub open spec fn drawn_from(candidates: Seq<Candidate>, words: Seq<Seq<u8>>) -> bool {
    &&& forall|i: int|
        0 <= i < candidates.len() ==> (#[trigger] candidates[i]).index < words.len()
            && words[candidates[i].index as int] == letters(candidates[i].word@)
    &&& forall|i: int, j: int|
        0 <= i < j < candidates.len() ==> (#[trigger] candidates[i]).index < (
        #[trigger] candidates[j]).index
}

/// The test that a candidate could still be the answer after `guess` received
/// the packed pattern `reference`: its own pattern against `guess` is that one.
pub open spec fn fits<'a>(guess: Seq<u8>, reference: nat) -> spec_fn(Candidate<'a>) -> bool {
    |c: Candidate<'a>| packed_pattern(letters(c.word@), guess) == reference
}

/// The candidates, in order, that could still be the answer after `guess`
/// received the packed pattern `reference`.
pub open spec fn consistent<'a>(
    candidates: Seq<Candidate<'a>>,
    guess: Seq<u8>,
    reference: nat,
) -> Seq<Candidate<'a>> {
    candidates.filter(fits(guess, reference))
}

/// How narrowing treats the last of the candidates: it is kept, after those
/// kept of the ones before it, exactly when it passes the test.
pub proof fn lemma_consistent_last<'a>(
    candidates: Seq<Candidate<'a>>,
    guess: Seq<u8>,
    reference: nat,
)
    requires
        candidates.len() > 0,
    ensures
        consistent(candidates, guess, reference) == if packed_pattern(
            letters(candidates.last().word@),
            guess,
        ) == reference {
            consistent(candidates.drop_last(), guess, reference).push(candidates.last())
        } else {
            consistent(candidates.drop_last(), guess, reference)
        },
{
    reveal(Seq::filter);
}

/// Narrowing never adds a candidate; it keeps all of them exactly when every
/// one has the reference pattern against the guess; and every candidate that
/// it keeps has that pattern.
pub proof fn lemma_consistent<'a>(candidates: Seq<Candidate<'a>>, guess: Seq<u8>, reference: nat)
    ensures
        consistent(candidates, guess, reference).len() <= candidates.len(),
        consistent(candidates, guess, reference).len() == candidates.len() <==> forall|i: int|
            0 <= i < candidates.len() ==> packed_pattern(
                letters((#[trigger] candidates[i]).word@),
                guess,
            ) == reference,
        consistent(candidates, guess, reference).len() == candidates.len() ==> consistent(
            candidates,
            guess,
            reference,
        ) == candidates,
        forall|k: int|
            0 <= k < consistent(candidates, guess, reference).len() ==> packed_pattern(
                letters((#[trigger] consistent(candidates, guess, reference)[k]).word@),
                guess,
            ) == reference,
    decreases candidates.len(),
{
    if candidates.len() > 0 {
        let head = candidates.drop_last();
        lemma_consistent_last(candidates, guess, reference);
        lemma_consistent(head, guess, reference);
        if consistent(head, guess, reference).len() == head.len() {
            assert forall|i: int| 0 <= i < head.len() implies packed_pattern(
                letters((#[trigger] candidates[i]).word@),
                guess,
            ) == reference by {
                assert(candidates[i] == head[i]);
            }
        } else {
            let i = choose|i: int|
                0 <= i < head.len() && packed_pattern(letters((#[trigger] head[i]).word@), guess)
                    != reference;
            assert(candidates[i] == head[i]);
        }
    } else {
        reveal(Seq::filter);
    }
}

/// Narrowing keeps candidates drawn from a dictionary drawn from it, in
/// dictionary order.
pub proof fn lemma_consistent_drawn<'a>(
    candidates: Seq<Candidate<'a>>,
    words: Seq<Seq<u8>>,
    guess: Seq<u8>,
    reference: nat,
)
    requires
        drawn_from(candidates, words),
    ensures
        drawn_from(consistent(candidates, guess, reference), words),
    decreases candidates.len(),
{
    if candidates.len() > 0 {
        let head = candidates.drop_last();
        let last = candidates.last();
        let kept = consistent(head, guess, reference);
        lemma_consistent_last(candidates, guess, reference);
        assert(drawn_from(head, words)) by {
            assert forall|i: int| 0 <= i < head.len() implies (#[trigger] head[i])
                == candidates[i] by {}
        }
        lemma_consistent_drawn(head, words, guess, reference);
        assert forall|k: int| 0 <= k < kept.len() implies (#[trigger] kept[k]).index
            < last.index by {
            assert(kept.contains(kept[k]));
            head.lemma_filter_contains_rev(fits(guess, reference), kept[k]);
            let i = choose|i: int| 0 <= i < head.len() && head[i] == kept[k];
            assert(candidates[i] == kept[k]);
            assert(candidates[candidates.len() - 1] == last);
        }
    } else {
        reveal(Seq::filter);
    }
}

/// A guess that was not marked correct throughout is ruled out by its own
/// marks: no candidate that narrowing keeps holds the guessed word.
pub proof fn lemma_missed_guess_is_dropped<'a>(
    candidates: Seq<Candidate<'a>>,
    guess: Seq<u8>,
    reference: nat,
)
    requires
        reference != 0,
    ensures
        forall|k: int|
            0 <= k < consistent(candidates, guess, reference).len() ==> letters(
                (#[trigger] consistent(candidates, guess, reference)[k]).word@,
            ) != guess,
{
    lemma_consistent(candidates, guess, reference);
    crate::feedback::lemma_pattern_of_itself(guess);
}

} // verus!
