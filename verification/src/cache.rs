//! The pairwise feedback table: one row per guess word, one column per answer
//! word, each cell empty or holding the packed pattern of that pair.
use crate::feedback::{is_word, letters, packed_pattern, Correctness, MAX_MASK_ENUM};
use vstd::prelude::*;

verus! {

/// A stored packed pattern.
///
/// The pattern is kept one above its value, so that the stored byte is never
/// zero.
#[derive(Clone, Copy, Debug)]
pub struct CacheValue {
    raw: u8,
}

impl View for CacheValue {
    type V = u8;

    /// The pattern that is stored.
    closed spec fn view(&self) -> u8 {
        (self.raw - 1) as u8
    }
}

impl CacheValue {
    #[verifier::type_invariant]
    spec fn raw_is_positive(self) -> bool {
        self.raw != 0
    }

    /// Stores the pattern `val`.
    pub fn new(val: u8) -> (v: Self)
        requires
            val < u8::MAX,
        ensures
            v@ == val,
    {
        CacheValue { raw: val.wrapping_add(1) }
    }

    /// The pattern that was stored.
    pub fn get(&self) -> (val: u8)
        ensures
            val == self@,
            val < u8::MAX,
    {
        proof {
            use_type_invariant(self);
        }
        self.raw - 1
    }
}

/// What a cell holds: nothing yet, or a packed pattern.
pub open spec fn cell_view(cell: Option<CacheValue>) -> Option<u8> {
    match cell {
        Some(v) => Some(v@),
        None => None,
    }
}

/// What the cells of one row hold.
pub open spec fn row_view(row: Seq<Option<CacheValue>>) -> Seq<Option<u8>> {
    Seq::new(row.len(), |a: int| cell_view(row[a]))
}

/// What a query of a cell returns: the stored pattern if there is one, else
/// the packed pattern of `guess` against `answer`, computed afresh.
pub open spec fn lookup_value(cell: Option<u8>, answer: Seq<u8>, guess: Seq<u8>) -> nat {
    match cell {
        Some(p) => p as nat,
        None => packed_pattern(answer, guess),
    }
}

/// The row after a query of column `idx`: that cell now holds what the query
/// returned, every other cell is as before. What a query returns is a stored
/// byte or a packed pattern, which is below `MAX_MASK_ENUM`, so it fits a cell.
pub open spec fn row_after_lookup(
    row: Seq<Option<u8>>,
    idx: int,
    answer: Seq<u8>,
    guess: Seq<u8>,
) -> Seq<Option<u8>> {
    row.update(idx, Some(lookup_value(row[idx], answer, guess) as u8))
}

/// A row agrees with the word `guess` of its row and the words `answers` of
/// its columns when every filled cell holds the packed pattern of its pair.
pub open spec fn row_agrees(row: Seq<Option<u8>>, guess: Seq<u8>, answers: Seq<Seq<u8>>) -> bool {
    forall|a: int|
        0 <= a < row.len() && a < answers.len() ==> (#[trigger] row[a]) is Some ==> row[a]->0
            == packed_pattern(answers[a], guess)
}

/// The table has as many columns in every row as it has rows.
pub open spec fn table_square(table: Seq<Seq<Option<u8>>>) -> bool {
    forall|g: int| 0 <= g < table.len() ==> (#[trigger] table[g]).len() == table.len()
}

/// The square table for `num_words` words in which no cell is filled.
pub open spec fn empty_table(num_words: nat) -> Seq<Seq<Option<u8>>> {
    Seq::new(num_words, |g: int| Seq::new(num_words, |a: int| None::<u8>))
}

/// An empty table agrees with every dictionary.
pub proof fn lemma_empty_table_agrees(num_words: nat, dictionary: Seq<Seq<u8>>)
    ensures
        table_square(empty_table(num_words)),
        table_agrees(empty_table(num_words), dictionary),
{
}

/// Every filled cell of the table holds the packed pattern of its pair of
/// words of `dictionary`, the row's word as the guess and the column's as the
/// answer.
pub open spec fn table_agrees(table: Seq<Seq<Option<u8>>>, dictionary: Seq<Seq<u8>>) -> bool {
    forall|g: int|
        0 <= g < table.len() && g < dictionary.len() ==> row_agrees(
            #[trigger] table[g],
            dictionary[g],
            dictionary,
        )
}

/// A query made with the words that belong to its row and column returns the
/// packed pattern of the pair, whatever the table held, and leaves the table
/// in agreement with the dictionary.
pub proof fn lemma_lookup_agrees(
    table: Seq<Seq<Option<u8>>>,
    dictionary: Seq<Seq<u8>>,
    g: int,
    a: int,
)
    requires
        table_agrees(table, dictionary),
        0 <= g < table.len(),
        g < dictionary.len(),
        0 <= a < table[g].len(),
        a < dictionary.len(),
    ensures
        lookup_value(table[g][a], dictionary[a], dictionary[g]) == packed_pattern(
            dictionary[a],
            dictionary[g],
        ),
        table_agrees(
            table.update(g, row_after_lookup(table[g], a, dictionary[a], dictionary[g])),
            dictionary,
        ),
{
    crate::feedback::lemma_packed_pattern_bound(dictionary[a], dictionary[g]);
}

/// Memoization is idempotent. A second query of a cell returns what the first
/// returned and leaves the row as the first left it; and where the cell held
/// nothing or the pattern of its pair, both return exactly that pattern, so a
/// forced recomputation reproduces the stored value.
pub proof fn lemma_lookup_idempotent(
    row: Seq<Option<u8>>,
    idx: int,
    answer: Seq<u8>,
    guess: Seq<u8>,
)
    requires
        0 <= idx < row.len(),
    ensures
        ({
            let once = row_after_lookup(row, idx, answer, guess);
            let first = lookup_value(row[idx], answer, guess);
            &&& lookup_value(once[idx], answer, guess) == first
            &&& row_after_lookup(once, idx, answer, guess) == once
            &&& (row[idx] is None || row[idx]->0 == packed_pattern(answer, guess)) ==> first
                == packed_pattern(answer, guess)
        }),
{
    crate::feedback::lemma_packed_pattern_bound(answer, guess);
    let once = row_after_lookup(row, idx, answer, guess);
}

/// Returns the packed pattern of `guess` against `answer` from column
/// `answer_idx` of `row`, the row of `guess`. An empty cell is filled with the
/// pattern computed from the two words; a filled cell is read and left alone.
pub fn get_correctness_packed(
    row: &mut Vec<Option<CacheValue>>,
    guess: &str,
    answer: &str,
    answer_idx: usize,
) -> (p: u8)
    requires
        answer_idx < old(row).len(),
        is_word(letters(guess@)),
        is_word(letters(answer@)),
    ensures
        final(row)@.len() == old(row)@.len(),
        p == lookup_value(
            row_view(old(row)@)[answer_idx as int],
            letters(answer@),
            letters(guess@),
        ),
        row_view(final(row)@) == row_after_lookup(
            row_view(old(row)@),
            answer_idx as int,
            letters(answer@),
            letters(guess@),
        ),
        old(row)@[answer_idx as int] is Some ==> final(row)@ == old(row)@,
        old(row)@[answer_idx as int] is None ==> p < MAX_MASK_ENUM,
{
    match row[answer_idx] {
        Some(a) => {
            let p = a.get();
            assert(row_view(row@) =~= row_after_lookup(
                row_view(row@),
                answer_idx as int,
                letters(answer@),
                letters(guess@),
            ));
            p
        },
        None => {
            let correctness = Correctness::pack(&Correctness::compute(answer, guess));
            row[answer_idx] = Some(CacheValue::new(correctness));
            assert(row_view(row@) =~= row_after_lookup(
                row_view(old(row)@),
                answer_idx as int,
                letters(answer@),
                letters(guess@),
            ));
            correctness
        },
    }
}

/// The square table of cached patterns for a dictionary of `num_words()`
/// words. Cell `(g, a)` is for word `g` guessed when word `a` is the answer;
/// cell `(a, g)` is another cell and is filled on its own.
pub struct Cache {
    cells: Vec<Vec<Option<CacheValue>>>,
}

/// What the cells of a whole table hold.
pub open spec fn table_view(rows: Seq<Vec<Option<CacheValue>>>) -> Seq<Seq<Option<u8>>> {
    Seq::new(rows.len(), |g: int| row_view(rows[g]@))
}

impl View for Cache {
    type V = Seq<Seq<Option<u8>>>;

    /// What the cells hold, row by row.
    closed spec fn view(&self) -> Seq<Seq<Option<u8>>> {
        table_view(self.cells@)
    }
}

impl Cache {
    /// The number of words the table was built for.
    pub open spec fn num_words(&self) -> nat {
        self@.len()
    }

    /// The table is square.
    pub open spec fn wf(&self) -> bool {
        table_square(self@)
    }

    /// A table for `num_words` words with every cell empty.
    pub fn new(num_words: usize) -> (cache: Cache)
        ensures
            cache@ == empty_table(num_words as nat),
            cache.wf(),
            cache.num_words() == num_words,
    {
        let mut cells: Vec<Vec<Option<CacheValue>>> = Vec::new();
        let mut g: usize = 0;
        while g < num_words
            invariant
                g <= num_words,
                cells@.len() == g,
                forall|i: int| 0 <= i < g ==> (#[trigger] cells@[i])@.len() == num_words,
                forall|i: int, a: int|
                    0 <= i < g && 0 <= a < num_words ==> (#[trigger] cells@[i]@[a]) is None,
            decreases num_words - g,
        {
            let mut row: Vec<Option<CacheValue>> = Vec::new();
            let mut a: usize = 0;
            while a < num_words
                invariant
                    a <= num_words,
                    row@.len() == a,
                    forall|k: int| 0 <= k < a ==> (#[trigger] row@[k]) is None,
                decreases num_words - a,
            {
                row.push(None);
                a = a + 1;
            }
            cells.push(row);
            g = g + 1;
        }
        let cache = Cache { cells };
        assert(cache@ =~~= empty_table(num_words as nat));
        cache
    }

    /// The number of words the table was built for.
    pub fn len(&self) -> (n: usize)
        ensures
            n == self.num_words(),
    {
        self.cells.len()
    }

    /// The rows of the table.
    pub fn get(&self) -> (rows: &Vec<Vec<Option<CacheValue>>>)
        ensures
            table_view(rows@) == self@,
    {
        &self.cells
    }

    /// Returns the packed pattern of `guess`, the word of row `guess_idx`,
    /// against `answer`, the word of column `answer_idx`: the stored one, or,
    /// on the first query of the pair, the computed one, which is then stored.
    pub fn get_packed(&mut self, guess: &str, guess_idx: usize, answer: &str, answer_idx: usize) -> (p:
        u8)
        requires
            old(self).wf(),
            guess_idx < old(self).num_words(),
            answer_idx < old(self).num_words(),
            is_word(letters(guess@)),
            is_word(letters(answer@)),
        ensures
            final(self).wf(),
            p == lookup_value(
                old(self)@[guess_idx as int][answer_idx as int],
                letters(answer@),
                letters(guess@),
            ),
            final(self)@ == old(self)@.update(
                guess_idx as int,
                row_after_lookup(
                    old(self)@[guess_idx as int],
                    answer_idx as int,
                    letters(answer@),
                    letters(guess@),
                ),
            ),
    {
        assert(self@[guess_idx as int].len() == self@.len());
        let p = get_correctness_packed(&mut self.cells[guess_idx], guess, answer, answer_idx);
        assert(self@ =~= old(self)@.update(
            guess_idx as int,
            row_after_lookup(
                old(self)@[guess_idx as int],
                answer_idx as int,
                letters(answer@),
                letters(guess@),
            ),
        ));
        p
    }
}

} // verus!
