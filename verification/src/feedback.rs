//! The feedback rule of the game: how a guess is marked against an answer,
//! and how the marks of one guess are packed into a small integer.
use vstd::prelude::*;
use vstd::utf8::encode_utf8;

verus! {

/// The number of letters in a word.
pub const WORD_LEN: usize = 5;

/// The number of distinct packed patterns; every packed pattern is below it.
pub const MAX_MASK_ENUM: usize = 243;

/// The mark that one letter of a guess receives.
#[derive(Clone, Copy, PartialEq, Eq, Structural, Debug)]
pub enum Correctness {
    /// The letter stands at this position of the answer.
    Correct,
    /// The letter stands elsewhere in the answer, and that occurrence is not
    /// yet accounted for by another letter of the guess.
    Misplaced,
    /// The answer has no occurrence left for this letter.
    Wrong,
}

/// The bytes of a string, as the game reads them.
pub open spec fn letters(text: Seq<char>) -> Seq<u8> {
    encode_utf8(text)
}

/// A word is a sequence of exactly `WORD_LEN` bytes.
pub open spec fn is_word(w: Seq<u8>) -> bool {
    w.len() == WORD_LEN
}

/// The number of positions below `upto` at which the answer holds `letter`
/// and the guess holds another letter: the occurrences of `letter` in the
/// answer that no exact match uses up.
pub open spec fn spare_in_answer(answer: Seq<u8>, guess: Seq<u8>, letter: u8, upto: int) -> nat
    decreases upto,
{
    if upto <= 0 {
        0
    } else {
        let before = spare_in_answer(answer, guess, letter, upto - 1);
        if answer[upto - 1] == letter && guess[upto - 1] != letter {
            before + 1
        } else {
            before
        }
    }
}

/// The number of positions below `upto` at which the guess holds `letter`
/// and the answer holds another letter: the earlier letters of the guess
/// that compete for a spare occurrence of `letter`.
pub open spec fn claims_before(answer: Seq<u8>, guess: Seq<u8>, letter: u8, upto: int) -> nat
    decreases upto,
{
    if upto <= 0 {
        0
    } else {
        let before = claims_before(answer, guess, letter, upto - 1);
        if guess[upto - 1] == letter && answer[upto - 1] != letter {
            before + 1
        } else {
            before
        }
    }
}

/// The mark of position `i` of `guess` when the true word is `answer`.
///
/// An exact match is `Correct`. Any other letter is `Misplaced` as long as
/// the answer has a spare occurrence of it that no earlier letter of the
/// guess has claimed, and `Wrong` after that.
pub open spec fn mark(answer: Seq<u8>, guess: Seq<u8>, i: int) -> Correctness {
    if guess[i] == answer[i] {
        Correctness::Correct
    } else if claims_before(answer, guess, guess[i], i) < spare_in_answer(
        answer,
        guess,
        guess[i],
        WORD_LEN as int,
    ) {
        Correctness::Misplaced
    } else {
        Correctness::Wrong
    }
}

/// The marks of all positions of `guess` against `answer`.
pub open spec fn pattern(answer: Seq<u8>, guess: Seq<u8>) -> Seq<Correctness> {
    Seq::new(WORD_LEN as nat, |i: int| mark(answer, guess, i))
}

/// The base-three digit of a mark.
pub open spec fn digit(c: Correctness) -> nat {
    match c {
        Correctness::Correct => 0,
        Correctness::Misplaced => 1,
        Correctness::Wrong => 2,
    }
}

/// The marks read as a base-three number, first mark most significant.
pub open spec fn packed(marks: Seq<Correctness>) -> nat
    decreases marks.len(),
{
    if marks.len() == 0 {
        0
    } else {
        packed(marks.drop_last()) * 3 + digit(marks.last())
    }
}

/// Three to the power `n`.
pub open spec fn pow3(n: nat) -> nat
    decreases n,
{
    if n == 0 {
        1
    } else {
        3 * pow3((n - 1) as nat)
    }
}

/// The first powers of three.
pub proof fn lemma_pow3_values()
    ensures
        pow3(0) == 1,
        pow3(1) == 3,
        pow3(2) == 9,
        pow3(3) == 27,
        pow3(4) == 81,
        pow3(5) == 243,
{
    reveal_with_fuel(pow3, 6);
}

/// The packed pattern of `guess` against `answer`.
pub open spec fn packed_pattern(answer: Seq<u8>, guess: Seq<u8>) -> nat {
    packed(pattern(answer, guess))
}

/// A packed sequence of marks is below three to the power of its length.
pub proof fn lemma_packed_bound(marks: Seq<Correctness>)
    ensures
        packed(marks) < pow3(marks.len()),
    decreases marks.len(),
{
    if marks.len() > 0 {
        lemma_packed_bound(marks.drop_last());
    }
}

/// Every packed pattern of a word pair is below `MAX_MASK_ENUM`.
pub proof fn lemma_packed_pattern_bound(answer: Seq<u8>, guess: Seq<u8>)
    ensures
        packed_pattern(answer, guess) < MAX_MASK_ENUM,
{
    lemma_packed_bound(pattern(answer, guess));
    lemma_pow3_values();
}

/// A word guessed against itself is marked correct throughout, and that
/// pattern packs to zero.
pub proof fn lemma_pattern_of_itself(word: Seq<u8>)
    ensures
        pattern(word, word) == Seq::new(WORD_LEN as nat, |i: int| Correctness::Correct),
        packed_pattern(word, word) == 0,
{
    lemma_packed_all_correct(pattern(word, word));
}

/// Marks that are all correct pack to zero.
pub proof fn lemma_packed_all_correct(marks: Seq<Correctness>)
    requires
        forall|i: int| 0 <= i < marks.len() ==> marks[i] == Correctness::Correct,
    ensures
        packed(marks) == 0,
    decreases marks.len(),
{
    if marks.len() > 0 {
        lemma_packed_all_correct(marks.drop_last());
    }
}

/// Packing loses nothing: two sequences of marks of one length with the same
/// packed value are the same sequence.
pub proof fn lemma_packed_injective(a: Seq<Correctness>, b: Seq<Correctness>)
    requires
        a.len() == b.len(),
        packed(a) == packed(b),
    ensures
        a == b,
    decreases a.len(),
{
    if a.len() > 0 {
        lemma_packed_injective(a.drop_last(), b.drop_last());
        assert(b =~= b.drop_last().push(b.last()));
    }
}

impl Correctness {
    /// Counts the positions below `upto` where `answer` holds `letter` and
    /// `guess` does not.
    fn count_spare(answer: &[u8], guess: &[u8], letter: u8, upto: usize) -> (n: usize)
        requires
            is_word(answer@),
            is_word(guess@),
            upto <= WORD_LEN,
        ensures
            n == spare_in_answer(answer@, guess@, letter, upto as int),
            n <= upto,
    {
        let mut n: usize = 0;
        let mut j: usize = 0;
        while j < upto
            invariant
                is_word(answer@),
                is_word(guess@),
                j <= upto <= WORD_LEN,
                n == spare_in_answer(answer@, guess@, letter, j as int),
                n <= j,
            decreases upto - j,
        {
            if answer[j] == letter && guess[j] != letter {
                n = n + 1;
            }
            j = j + 1;
        }
        n
    }

    /// Counts the positions below `upto` where `guess` holds `letter` and
    /// `answer` does not.
    fn count_claims(answer: &[u8], guess: &[u8], letter: u8, upto: usize) -> (n: usize)
        requires
            is_word(answer@),
            is_word(guess@),
            upto <= WORD_LEN,
        ensures
            n == claims_before(answer@, guess@, letter, upto as int),
            n <= upto,
    {
        let mut n: usize = 0;
        let mut j: usize = 0;
        while j < upto
            invariant
                is_word(answer@),
                is_word(guess@),
                j <= upto <= WORD_LEN,
                n == claims_before(answer@, guess@, letter, j as int),
                n <= j,
            decreases upto - j,
        {
            if guess[j] == letter && answer[j] != letter {
                n = n + 1;
            }
            j = j + 1;
        }
        n
    }

    /// Marks every letter of `guess` against `answer`.
    pub fn compute(answer: &str, guess: &str) -> (marks: [Correctness; 5])
        requires
            is_word(letters(answer@)),
            is_word(letters(guess@)),
        ensures
            marks@ == pattern(letters(answer@), letters(guess@)),
    {
        let a = answer.as_bytes();
        let g = guess.as_bytes();
        let mut marks = [Correctness::Wrong;5];
        let mut i: usize = 0;
        while i < WORD_LEN
            invariant
                is_word(a@),
                is_word(g@),
                i <= WORD_LEN,
                forall|k: int| 0 <= k < i ==> marks@[k] == mark(a@, g@, k),
            decreases WORD_LEN - i,
        {
            if g[i] == a[i] {
                marks[i] = Correctness::Correct;
            } else {
                let claims = Self::count_claims(a, g, g[i], i);
                let spare = Self::count_spare(a, g, g[i], WORD_LEN);
                if claims < spare {
                    marks[i] = Correctness::Misplaced;
                } else {
                    marks[i] = Correctness::Wrong;
                }
            }
            i = i + 1;
        }
        marks
    }

    /// Packs the marks of one guess into a single byte.
    pub fn pack(marks: &[Correctness; 5]) -> (p: u8)
        ensures
            p == packed(marks@),
            p < MAX_MASK_ENUM,
    {
        let mut acc: u8 = 0;
        let mut i: usize = 0;
        while i < WORD_LEN
            invariant
                i <= WORD_LEN,
                acc == packed(marks@.take(i as int)),
                acc < pow3(i as nat),
            decreases WORD_LEN - i,
        {
            let d: u8 = match marks[i] {
                Correctness::Correct => 0,
                Correctness::Misplaced => 1,
                Correctness::Wrong => 2,
            };
            proof {
                assert(marks@.take(i + 1).drop_last() =~= marks@.take(i as int));
                lemma_pow3_values();
            }
            acc = acc * 3 + d;
            i = i + 1;
        }
        proof {
            assert(marks@.take(5) =~= marks@);
            lemma_pow3_values();
        }
        acc
    }
}

} // verus!
