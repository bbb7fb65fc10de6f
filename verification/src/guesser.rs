//! The guesser's state: the candidates still consistent with the history of
//! a game, how a turn narrows them, and which of them a turn evaluates.
use crate::cache::{empty_table, lemma_lookup_agrees, table_agrees, table_square, Cache};
use crate::candidates::{
    consistent, drawn_from, fits, lemma_consistent, lemma_consistent_drawn,
    lemma_consistent_last, same_word, whole_dictionary, words_of, Candidate,
};
use crate::context::Computes;
use crate::feedback::{is_word, letters, packed, packed_pattern, Correctness, MAX_MASK_ENUM};
use std::borrow::Cow;
use vstd::prelude::*;

verus! {

/// The word that opens every game.
pub const OPENING: &'static str = "tares";

/// The least number of candidates that a turn evaluates, while there are that
/// many.
pub const MIN_BUDGET: usize = 20;

/// One past guess of a game: the word and the marks it received.
#[derive(Debug)]
pub struct Guess<'a> {
    pub word: Cow<'a, str>,
    pub mask: [Correctness; 5],
}

impl<'a> Guess<'a> {
    /// The guessed word.
    pub fn text(&self) -> (word: &str)
        ensures
            word@ == self.word@,
    {
        match &self.word {
            Cow::Borrowed(borrowed) => borrowed,
            Cow::Owned(owned) => owned.as_str(),
        }
    }
}

/// Whether `candidate`, were it the answer, would have given the guess of
/// `entry` the marks that it received.
pub open spec fn explains(candidate: Candidate, entry: Guess) -> bool {
    packed_pattern(letters(candidate.word@), letters(entry.word@)) == packed(entry.mask@)
}

/// The candidates that remain of `candidates` after one turn for each entry
/// of `history`, each turn narrowing by the entry that was then the last.
pub open spec fn narrowed<'a>(candidates: Seq<Candidate<'a>>, history: Seq<Guess>) -> Seq<
    Candidate<'a>,
>
    decreases history.len(),
{
    if history.len() == 0 {
        candidates
    } else {
        consistent(
            narrowed(candidates, history.drop_last()),
            letters(history.last().word@),
            packed(history.last().mask@),
        )
    }
}

/// What remains after the turns of a game is what is consistent with its
/// whole history: a candidate remains exactly when it was there at the start
/// and explains every past guess. Each turn leaves no more candidates than it
/// found.
pub proof fn lemma_narrowed<'a>(candidates: Seq<Candidate<'a>>, history: Seq<Guess>)
    ensures
        forall|c: Candidate<'a>| #[trigger]
            narrowed(candidates, history).contains(c) <==> candidates.contains(c) && forall|h: int|
                0 <= h < history.len() ==> explains(c, #[trigger] history[h]),
        narrowed(candidates, history).len() <= candidates.len(),
        history.len() > 0 ==> narrowed(candidates, history).len() <= narrowed(
            candidates,
            history.drop_last(),
        ).len(),
    decreases history.len(),
{
    if history.len() > 0 {
        let earlier = history.drop_last();
        let last = history.last();
        let before = narrowed(candidates, earlier);
        let pred = fits::<'a>(letters(last.word@), packed(last.mask@));
        let after = narrowed(candidates, history);
        lemma_narrowed(candidates, earlier);
        before.lemma_filter_len(pred);
        assert forall|c: Candidate<'a>| #[trigger] after.contains(c) implies candidates.contains(c)
            && forall|h: int| 0 <= h < history.len() ==> explains(c, #[trigger] history[h]) by {
            before.lemma_filter_contains_rev(pred, c);
            let k = choose|k: int| 0 <= k < after.len() && after[k] == c;
            before.lemma_filter_pred(pred, k);
            assert forall|h: int| 0 <= h < history.len() implies explains(
                c,
                #[trigger] history[h],
            ) by {
                if h < earlier.len() {
                    assert(history[h] == earlier[h]);
                }
            }
        }
        assert forall|c: Candidate<'a>|
            candidates.contains(c) && (forall|h: int|
                0 <= h < history.len() ==> explains(c, #[trigger] history[h])) implies #[trigger]
            after.contains(c) by {
            assert forall|h: int| 0 <= h < earlier.len() implies explains(
                c,
                #[trigger] earlier[h],
            ) by {
                assert(earlier[h] == history[h]);
            }
            assert(before.contains(c));
            let i = choose|i: int| 0 <= i < before.len() && before[i] == c;
            before.lemma_filter_contains(pred, i);
        }
    }
}

/// The number of candidates that a turn may evaluate: a third of those that
/// remain, and at least `MIN_BUDGET`.
pub open spec fn budget(remaining: nat) -> nat {
    if remaining / 3 >= MIN_BUDGET {
        remaining / 3
    } else {
        MIN_BUDGET as nat
    }
}

/// The number of candidates that a turn does evaluate: the budget, or all of
/// them where fewer remain.
pub open spec fn evaluated(remaining: nat) -> nat {
    if remaining <= budget(remaining) {
        remaining
    } else {
        budget(remaining)
    }
}

/// The search budget of a turn with `remaining` candidates.
pub fn search_budget(remaining: usize) -> (stop: usize)
    ensures
        stop == budget(remaining as nat),
        stop >= MIN_BUDGET,
{
    let third: usize = remaining / 3;
    if third >= MIN_BUDGET {
        third
    } else {
        MIN_BUDGET
    }
}

/// For a game that took `total_turns` turns and recorded an entropy on
/// `recorded` of them: for each position of that trace, the number of turns
/// that the game still needed after the turn that recorded it.
pub fn finish(recorded: usize, total_turns: usize) -> (needed: Vec<usize>)
    requires
        recorded <= total_turns,
    ensures
        needed@.len() == recorded,
        forall|i: int| 0 <= i < recorded ==> (#[trigger] needed@[i]) == total_turns - (i + 1),
{
    let mut needed: Vec<usize> = Vec::new();
    let mut i: usize = 0;
    while i < recorded
        invariant
            i <= recorded <= total_turns,
            needed@.len() == i,
            forall|k: int| 0 <= k < i ==> (#[trigger] needed@[k]) == total_turns - (k + 1),
        decreases recorded - i,
    {
        needed.push(total_turns - (i + 1));
        i = i + 1;
    }
    needed
}

/// What a turn asks of the caller.
#[derive(Debug)]
pub enum Turn {
    /// The game has no history: guess this word, nothing is to be scored.
    Opening(String),
    /// Score this many candidates, at least one, the first of those that
    /// remain, and guess the best of them.
    Search(usize),
    /// No candidate remains: the history contradicts the dictionary, and
    /// there is no word to guess.
    Exhausted,
}

/// The table of a context serves a guesser with dictionary `words`: it has
/// been built, is square, has one row for each word, and agrees with the
/// words.
pub open spec fn serves(table: Option<Seq<Seq<Option<u8>>>>, words: Seq<Seq<u8>>) -> bool {
    &&& table is Some
    &&& table_square(table->0)
    &&& table->0.len() == words.len()
    &&& table_agrees(table->0, words)
}

/// Copies from `list` the candidates whose pattern against `guess`, the word
/// of row `guess_idx`, is `reference`.
fn filtered<'a>(
    list: &Vec<Candidate<'a>>,
    cache: &mut Cache,
    guess: &str,
    guess_idx: usize,
    reference: u8,
    Ghost(words): Ghost<Seq<Seq<u8>>>,
) -> (kept: Vec<Candidate<'a>>)
    requires
        drawn_from(list@, words),
        forall|w: int| 0 <= w < words.len() ==> is_word(#[trigger] words[w]),
        serves(Some(old(cache)@), words),
        guess_idx < words.len(),
        words[guess_idx as int] == letters(guess@),
    ensures
        kept@ == consistent(list@, letters(guess@), reference as nat),
        serves(Some(final(cache)@), words),
{
    let mut kept: Vec<Candidate<'a>> = Vec::new();
    let mut i: usize = 0;
    proof {
        reveal(Seq::filter);
    }
    while i < list.len()
        invariant
            i <= list@.len(),
            drawn_from(list@, words),
            forall|w: int| 0 <= w < words.len() ==> is_word(#[trigger] words[w]),
            serves(Some(cache@), words),
            guess_idx < words.len(),
            words[guess_idx as int] == letters(guess@),
            kept@ == consistent(list@.take(i as int), letters(guess@), reference as nat),
        decreases list@.len() - i,
    {
        let candidate = list[i];
        proof {
            lemma_lookup_agrees(cache@, words, guess_idx as int, candidate.index as int);
            lemma_consistent_last(list@.take(i + 1), letters(guess@), reference as nat);
            assert(list@.take(i + 1).drop_last() =~= list@.take(i as int));
        }
        let p = cache.get_packed(guess, guess_idx, candidate.word, candidate.index);
        if p == reference {
            kept.push(candidate);
        }
        i = i + 1;
    }
    assert(list@.take(list@.len() as int) =~= list@);
    kept
}

/// Keeps in `list`, in place and in order, the candidates whose pattern
/// against `guess`, the word of row `guess_idx`, is `reference`.
fn retain<'a>(
    list: &mut Vec<Candidate<'a>>,
    cache: &mut Cache,
    guess: &str,
    guess_idx: usize,
    reference: u8,
    Ghost(words): Ghost<Seq<Seq<u8>>>,
)
    requires
        drawn_from(old(list)@, words),
        forall|w: int| 0 <= w < words.len() ==> is_word(#[trigger] words[w]),
        serves(Some(old(cache)@), words),
        guess_idx < words.len(),
        words[guess_idx as int] == letters(guess@),
    ensures
        final(list)@ == consistent(old(list)@, letters(guess@), reference as nat),
        serves(Some(final(cache)@), words),
{
    let ghost before = list@;
    let total = list.len();
    let mut kept: usize = 0;
    let mut i: usize = 0;
    proof {
        reveal(Seq::filter);
    }
    while i < total
        invariant
            kept <= i <= total,
            total == before.len(),
            list@.len() == total,
            drawn_from(before, words),
            forall|w: int| 0 <= w < words.len() ==> is_word(#[trigger] words[w]),
            serves(Some(cache@), words),
            guess_idx < words.len(),
            words[guess_idx as int] == letters(guess@),
            forall|m: int| i <= m < total ==> #[trigger] list@[m] == before[m],
            list@.take(kept as int) == consistent(
                before.take(i as int),
                letters(guess@),
                reference as nat,
            ),
        decreases total - i,
    {
        let candidate = list[i];
        let ghost held = list@;
        proof {
            lemma_lookup_agrees(cache@, words, guess_idx as int, candidate.index as int);
            lemma_consistent_last(before.take(i + 1), letters(guess@), reference as nat);
            assert(before.take(i + 1).drop_last() =~= before.take(i as int));
        }
        let p = cache.get_packed(guess, guess_idx, candidate.word, candidate.index);
        if p == reference {
            list[kept] = candidate;
            assert(list@.take(kept + 1) =~= held.take(kept as int).push(candidate));
            kept = kept + 1;
        }
        i = i + 1;
    }
    list.truncate(kept);
    assert(before.take(before.len() as int) =~= before);
}

/// The guesser: the candidates that remain in one game.
///
/// A new game shares the list of all candidates with every other new game.
/// The first narrowing copies what it keeps into a list of the game's own,
/// and every later narrowing works on that list in place.
pub struct Cached<'a> {
    remaining: Cow<'a, Vec<Candidate<'a>>>,
    words: Ghost<Seq<Seq<u8>>>,
}

impl<'a> View for Cached<'a> {
    type V = Seq<Candidate<'a>>;

    /// The remaining candidates, in order.
    closed spec fn view(&self) -> Seq<Candidate<'a>> {
        self.remaining@
    }
}

impl<'a> Cached<'a> {
    /// The letters of the words of the dictionary that the guesser was made
    /// from.
    pub closed spec fn words(&self) -> Seq<Seq<u8>> {
        self.words@
    }

    /// Whether the game still shares the list that it was made from.
    pub closed spec fn shares_initial(&self) -> bool {
        self.remaining is Borrowed
    }

    /// The dictionary holds words only, and the remaining candidates are
    /// drawn from it.
    pub open spec fn wf(&self) -> bool {
        &&& forall|i: int| 0 <= i < self.words().len() ==> is_word(#[trigger] self.words()[i])
        &&& drawn_from(self@, self.words())
    }

    /// Whether some remaining candidate holds the bytes `word`.
    pub open spec fn has_word(&self, word: Seq<u8>) -> bool {
        exists|i: int| 0 <= i < self@.len() && letters((#[trigger] self@[i]).word@) == word
    }

    /// A guesser for a new game, in which every candidate of `initial`
    /// remains. The list is shared, not copied. The context builds its table
    /// for the dictionary if it has none yet.
    pub fn new(initial: &'a Vec<Candidate<'a>>, computes: &mut Computes) -> (cached: Self)
        requires
            whole_dictionary(initial@),
        ensures
            cached.wf(),
            cached.words() == words_of(initial@),
            cached@ == initial@,
            cached.shares_initial(),
            final(computes)@ == match old(computes)@ {
                Some(table) => Some(table),
                None => Some(empty_table(initial@.len())),
            },
    {
        computes.prepare(initial.len());
        Cached { remaining: Cow::Borrowed(initial), words: Ghost(words_of(initial@)) }
    }

    /// The remaining candidates.
    pub fn remaining(&self) -> (candidates: &Vec<Candidate<'a>>)
        ensures
            candidates@ == self@,
    {
        match &self.remaining {
            Cow::Borrowed(shared) => shared,
            Cow::Owned(own) => own,
        }
    }

    /// Whether the game still shares the list that it was made from.
    pub fn is_shared(&self) -> (shared: bool)
        ensures
            shared == self.shares_initial(),
    {
        match &self.remaining {
            Cow::Borrowed(_) => true,
            Cow::Owned(_) => false,
        }
    }

    /// The position among the remaining candidates of the first one whose
    /// word is `word`, if there is one.
    pub fn position(&self, word: &str) -> (at: Option<usize>)
        ensures
            at is Some <==> self.has_word(letters(word@)),
            at matches Some(i) ==> i < self@.len() && letters(self@[i as int].word@) == letters(
                word@,
            ) && forall|k: int| 0 <= k < i ==> letters((#[trigger] self@[k]).word@) != letters(word@),
    {
        let list = self.remaining();
        let mut i: usize = 0;
        while i < list.len()
            invariant
                list@ == self@,
                i <= self@.len(),
                forall|k: int| 0 <= k < i ==> letters((#[trigger] self@[k]).word@) != letters(word@),
            decreases self@.len() - i,
        {
            if same_word(list[i].word, word) {
                return Some(i);
            }
            i = i + 1;
        }
        None
    }

    /// Narrows the candidates with the patterns of `cache`: a shared list is
    /// left alone and what is kept of it is copied, a list of the game's own
    /// is narrowed in place.
    fn narrow_in(&mut self, cache: &mut Cache, last: &Guess)
        requires
            old(self).wf(),
            serves(Some(old(cache)@), old(self).words()),
            old(self).has_word(letters(last.word@)),
        ensures
            final(self)@ == consistent(old(self)@, letters(last.word@), packed(last.mask@)),
            final(self).words() == old(self).words(),
            !final(self).shares_initial(),
            serves(Some(final(cache)@), old(self).words()),
    {
        let reference = Correctness::pack(&last.mask);
        let guess = last.text();
        let at = self.position(guess).unwrap();
        let guess_idx = self.remaining()[at].index;
        let ghost words = self.words();
        let shared: Option<&'a Vec<Candidate<'a>>> = match &self.remaining {
            Cow::Borrowed(list) => Some(*list),
            Cow::Owned(_) => None,
        };
        match shared {
            Some(list) => {
                let kept = filtered(list, cache, guess, guess_idx, reference, Ghost(words));
                self.remaining = Cow::Owned(kept);
            },
            None => {
                match &mut self.remaining {
                    Cow::Owned(list) => {
                        retain(list, cache, guess, guess_idx, reference, Ghost(words));
                    },
                    Cow::Borrowed(_) => {},
                }
            },
        }
    }

    /// Narrows the remaining candidates to those consistent with the past
    /// guess `last`: those whose packed pattern against the guessed word is
    /// the packed form of the marks it received. No candidate is added, all
    /// are kept only if all have that pattern, and the order is kept. The
    /// patterns come from the context's table, from the row of the guessed
    /// word, which must be one of the candidates. Afterwards the list is the
    /// game's own.
    pub fn narrow(&mut self, computes: &mut Computes, last: &Guess)
        requires
            old(self).wf(),
            serves(old(computes)@, old(self).words()),
            old(self).has_word(letters(last.word@)),
        ensures
            final(self)@ == consistent(old(self)@, letters(last.word@), packed(last.mask@)),
            final(self)@.len() <= old(self)@.len(),
            final(self)@.len() == old(self)@.len() <==> forall|i: int|
                0 <= i < old(self)@.len() ==> packed_pattern(
                    letters((#[trigger] old(self)@[i]).word@),
                    letters(last.word@),
                ) == packed(last.mask@),
            forall|k: int|
                0 <= k < final(self)@.len() ==> packed_pattern(
                    letters((#[trigger] final(self)@[k]).word@),
                    letters(last.word@),
                ) == packed(last.mask@),
            final(self).words() == old(self).words(),
            final(self).wf(),
            !final(self).shares_initial(),
            serves(final(computes)@, old(self).words()),
    {
        proof {
            lemma_consistent(self@, letters(last.word@), packed(last.mask@));
            lemma_consistent_drawn(
                self@,
                self.words(),
                letters(last.word@),
                packed(last.mask@),
            );
        }
        match computes.cache() {
            Some(cache) => {
                self.narrow_in(cache, last);
            },
            None => {},
        }
    }

    /// Takes one turn of a game whose past guesses are `history`.
    ///
    /// With no history the turn is the fixed opening: nothing is narrowed,
    /// nothing is looked up, and the opening word is returned. Otherwise the
    /// candidates are narrowed by the last guess of the history, which must
    /// be one of them, and the turn says how many of those that remain are to
    /// be scored, or that none remains.
    pub fn guess(&mut self, computes: &mut Computes, history: &[Guess]) -> (turn: Turn)
        requires
            old(self).wf(),
            history@.len() > 0 ==> serves(old(computes)@, old(self).words()),
            history@.len() > 0 ==> old(self).has_word(letters(history@.last().word@)),
        ensures
            match turn {
                Turn::Opening(word) => {
                    &&& history@.len() == 0
                    &&& word@ == OPENING@
                    &&& final(self)@ == old(self)@
                    &&& final(self).shares_initial() == old(self).shares_initial()
                    &&& final(computes)@ == old(computes)@
                },
                Turn::Search(count) => {
                    &&& history@.len() > 0
                    &&& final(self)@.len() > 0
                    &&& count == evaluated(final(self)@.len())
                },
                Turn::Exhausted => {
                    &&& history@.len() > 0
                    &&& final(self)@.len() == 0
                },
            },
            history@.len() > 0 ==> final(self)@ == consistent(
                old(self)@,
                letters(history@.last().word@),
                packed(history@.last().mask@),
            ),
            history@.len() > 0 ==> !final(self).shares_initial(),
            history@.len() > 0 ==> serves(final(computes)@, old(self).words()),
            final(self).words() == old(self).words(),
            final(self).wf(),
    {
        if history.len() == 0 {
            return Turn::Opening(OPENING.to_owned());
        }
        self.narrow(computes, &history[history.len() - 1]);
        if self.remaining().len() == 0 {
            return Turn::Exhausted;
        }
        Turn::Search(self.evaluated_count())
    }

    /// The number of candidates that a turn scores: the first so many of
    /// those that remain.
    pub fn evaluated_count(&self) -> (count: usize)
        ensures
            count == evaluated(self@.len()),
            count <= self@.len(),
    {
        let len = self.remaining().len();
        let stop = search_budget(len);
        if len <= stop {
            len
        } else {
            stop
        }
    }

    /// The bucket of every candidate, with the patterns of `cache`.
    fn buckets_in(&self, cache: &mut Cache, at: usize) -> (patterns: Vec<u8>)
        requires
            self.wf(),
            serves(Some(old(cache)@), self.words()),
            at < self@.len(),
        ensures
            patterns@.len() == self@.len(),
            forall|j: int|
                0 <= j < self@.len() ==> (#[trigger] patterns@[j]) == packed_pattern(
                    letters(self@[j].word@),
                    letters(self@[at as int].word@),
                ),
            serves(Some(final(cache)@), self.words()),
    {
        let list = self.remaining();
        let guess = list[at];
        let ghost words = self.words();
        let mut patterns: Vec<u8> = Vec::new();
        let mut j: usize = 0;
        while j < list.len()
            invariant
                list@ == self@,
                j <= self@.len(),
                self.wf(),
                self.words() == words,
                at < self@.len(),
                guess == self@[at as int],
                serves(Some(cache@), words),
                patterns@.len() == j,
                forall|k: int|
                    0 <= k < j ==> (#[trigger] patterns@[k]) == packed_pattern(
                        letters(self@[k].word@),
                        letters(guess.word@),
                    ),
            decreases self@.len() - j,
        {
            let answer = list[j];
            proof {
                lemma_lookup_agrees(cache@, words, guess.index as int, answer.index as int);
            }
            let p = cache.get_packed(guess.word, guess.index, answer.word, answer.index);
            patterns.push(p);
            j = j + 1;
        }
        patterns
    }

    /// The packed pattern that the candidate at position `at` would receive
    /// as a guess against each remaining candidate as the answer, in the
    /// order of the candidates: the bucket into which each of them falls.
    pub fn buckets(&self, computes: &mut Computes, at: usize) -> (patterns: Vec<u8>)
        requires
            self.wf(),
            serves(old(computes)@, self.words()),
            at < self@.len(),
        ensures
            patterns@.len() == self@.len(),
            forall|j: int|
                0 <= j < self@.len() ==> (#[trigger] patterns@[j]) == packed_pattern(
                    letters(self@[j].word@),
                    letters(self@[at as int].word@),
                ),
            forall|j: int| 0 <= j < self@.len() ==> (#[trigger] patterns@[j]) < MAX_MASK_ENUM,
            serves(final(computes)@, self.words()),
    {
        let patterns = match computes.cache() {
            Some(cache) => self.buckets_in(cache, at),
            None => Vec::new(),
        };
        proof {
            assert forall|j: int| 0 <= j < self@.len() implies (#[trigger] patterns@[j])
                < MAX_MASK_ENUM by {
                crate::feedback::lemma_packed_pattern_bound(
                    letters(self@[j].word@),
                    letters(self@[at as int].word@),
                );
            }
        }
        patterns
    }
}

} // verus!
