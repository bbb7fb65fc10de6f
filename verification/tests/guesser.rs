use word_guesser::context::Computes;
use word_guesser::dictionary::{holds_words_only, total_frequency};
use word_guesser::feedback::{Correctness, MAX_MASK_ENUM};
use std::borrow::Cow;
use word_guesser::candidates::{initial_candidates, is_whole_dictionary, same_word, Candidate};
use word_guesser::guesser::{finish, search_budget, Cached, Guess, Turn, MIN_BUDGET, OPENING};

const DICTIONARY: [(&str, usize); 11] = [
    ("tares", 100),
    ("raise", 90),
    ("slate", 80),
    ("crane", 70),
    ("muddy", 60),
    ("fluid", 50),
    ("blimp", 40),
    ("pound", 30),
    ("vying", 20),
    ("lucky", 10),
    ("whoop", 5),
];

fn entry(word: &str, mask: [Correctness; 5]) -> Guess<'_> {
    Guess { word: Cow::Borrowed(word), mask }
}

fn words(cached: &Cached) -> Vec<String> {
    cached.remaining().iter().map(|c| c.word.to_string()).collect()
}

fn numbered(n: usize) -> Vec<String> {
    (0..n).map(|i| format!("{:05}", i)).collect()
}

/// Scores the candidates that the turn asks for and returns the best word,
/// with equal weights for all candidates.
fn pick(cached: &Cached, computes: &mut Computes, count: usize, turns: usize) -> String {
    let len = cached.remaining().len();
    let total = len as f64;
    let entropy = -(0..len).map(|_| (1.0 / total) * (1.0 / total).log2()).sum::<f64>();
    let mut best: Option<(usize, f64)> = None;
    for at in 0..count {
        let mut totals = [0.0f64; MAX_MASK_ENUM];
        for p in cached.buckets(computes, at) {
            totals[usize::from(p)] += 1.0;
        }
        let info = -totals
            .iter()
            .filter(|t| **t != 0.0)
            .map(|t| (t / total) * (t / total).log2())
            .sum::<f64>();
        let p_word = 1.0 / total;
        let left = ((entropy - info) * 3.870 + 3.679).ln();
        let score = p_word * (turns as f64 + 1.0) + (1.0 - p_word) * (turns as f64 + left);
        if best.map_or(true, |(_, s)| score < s) {
            best = Some((at, score));
        }
    }
    cached.remaining()[best.unwrap().0].word.to_string()
}

#[test]
fn new_game_holds_the_whole_dictionary_in_order() {
    let mut computes = Computes::new();
    let initial = initial_candidates(&DICTIONARY);
    let cached = Cached::new(&initial, &mut computes);
    let remaining = cached.remaining();
    assert_eq!(remaining.len(), DICTIONARY.len());
    for (i, candidate) in remaining.iter().enumerate() {
        assert_eq!(candidate.word, DICTIONARY[i].0);
        assert_eq!(candidate.index, i);
    }
}

#[test]
fn new_game_builds_the_table_of_the_context() {
    let mut computes = Computes::new();
    assert!(computes.cache().is_none());
    let initial = initial_candidates(&DICTIONARY);
    let _cached = Cached::new(&initial, &mut computes);
    let cache = computes.cache().unwrap();
    assert_eq!(cache.len(), DICTIONARY.len());
    assert!(cache.get().iter().all(|row| row.iter().all(|cell| cell.is_none())));
}

#[test]
fn second_game_shares_the_table_of_the_first() {
    let mut computes = Computes::new();
    let initial = initial_candidates(&DICTIONARY);
    let mut first = Cached::new(&initial, &mut computes);
    first.narrow(&mut computes, &entry("tares", [Correctness::Wrong; 5]));
    let filled = computes.cache().unwrap().get()[0].iter().filter(|c| c.is_some()).count();
    assert_eq!(filled, DICTIONARY.len());
    let again = initial_candidates(&DICTIONARY);
    let second = Cached::new(&again, &mut computes);
    assert_eq!(second.remaining().len(), DICTIONARY.len());
    let kept = computes.cache().unwrap().get()[0].iter().filter(|c| c.is_some()).count();
    assert_eq!(kept, DICTIONARY.len());
}

#[test]
fn empty_history_gives_the_opening_word() {
    let mut computes = Computes::new();
    let initial = initial_candidates(&DICTIONARY);
    let mut cached = Cached::new(&initial, &mut computes);
    match cached.guess(&mut computes, &[]) {
        Turn::Opening(word) => assert_eq!(word, "tares"),
        other => panic!("the first turn scores nothing: {:?}", other),
    }
    assert_eq!(OPENING, "tares");
}

#[test]
fn opening_turn_narrows_nothing_and_looks_nothing_up() {
    let mut computes = Computes::new();
    let initial = initial_candidates(&DICTIONARY);
    let mut cached = Cached::new(&initial, &mut computes);
    let _ = cached.guess(&mut computes, &[]);
    assert_eq!(cached.remaining().len(), DICTIONARY.len());
    let cache = computes.cache().unwrap();
    assert!(cache.get().iter().all(|row| row.iter().all(|cell| cell.is_none())));
}

#[test]
fn opening_turn_needs_no_table() {
    let mut computes = Computes::new();
    let initial = initial_candidates(&DICTIONARY);
    let mut cached = Cached::new(&initial, &mut computes);
    let mut other = Computes::new();
    assert!(matches!(cached.guess(&mut other, &[]), Turn::Opening(_)));
    assert!(other.cache().is_none());
}

#[test]
fn all_absent_on_the_opening_excludes_every_word_that_shares_a_letter() {
    let mut computes = Computes::new();
    let initial = initial_candidates(&DICTIONARY);
    let mut cached = Cached::new(&initial, &mut computes);
    assert!(matches!(cached.guess(&mut computes, &[]), Turn::Opening(_)));
    let history = [entry("tares", [Correctness::Wrong; 5])];
    let turn = cached.guess(&mut computes, &history);
    assert_eq!(
        words(&cached),
        vec!["muddy", "fluid", "blimp", "pound", "vying", "lucky", "whoop"]
    );
    for word in words(&cached) {
        assert!(!word.bytes().any(|b| "tares".bytes().any(|t| t == b)));
    }
    let count = match turn {
        Turn::Search(count) => count,
        other => panic!("a turn with history scores candidates: {:?}", other),
    };
    assert_eq!(count, 7);
    let next = pick(&cached, &mut computes, count, history.len());
    assert!(words(&cached).contains(&next));
    assert_ne!(next, "tares");
}

#[test]
fn same_history_gives_the_same_turn() {
    let history = [entry("tares", [Correctness::Wrong; 5])];
    let mut outcomes = Vec::new();
    for _ in 0..3 {
        let mut computes = Computes::new();
        let initial = initial_candidates(&DICTIONARY);
        let mut cached = Cached::new(&initial, &mut computes);
        let count = match cached.guess(&mut computes, &history) {
            Turn::Search(count) => count,
            other => panic!("a turn with history scores candidates: {:?}", other),
        };
        let next = pick(&cached, &mut computes, count, history.len());
        outcomes.push((words(&cached), count, next));
    }
    assert_eq!(outcomes[0], outcomes[1]);
    assert_eq!(outcomes[0], outcomes[2]);
}

#[test]
fn a_filled_table_gives_the_same_turn_as_an_empty_one() {
    let history = [entry("tares", [Correctness::Wrong; 5])];
    let mut computes = Computes::new();
    let initial = initial_candidates(&DICTIONARY);
    let mut first = Cached::new(&initial, &mut computes);
    let a = first.guess(&mut computes, &history);
    let again = initial_candidates(&DICTIONARY);
    let mut second = Cached::new(&again, &mut computes);
    let b = second.guess(&mut computes, &history);
    assert_eq!(words(&first), words(&second));
    assert!(matches!((a, b), (Turn::Search(7), Turn::Search(7))));
    for at in 0..7 {
        assert_eq!(first.buckets(&mut computes, at), second.buckets(&mut computes, at));
    }
}

#[test]
fn narrowing_keeps_exactly_the_words_with_the_observed_pattern() {
    let mut computes = Computes::new();
    let initial = initial_candidates(&DICTIONARY);
    let mut cached = Cached::new(&initial, &mut computes);
    let mask = Correctness::compute("slate", "raise");
    let before = words(&cached);
    cached.narrow(&mut computes, &entry("raise", mask));
    let reference = Correctness::pack(&mask);
    let expected: Vec<String> = before
        .into_iter()
        .filter(|w| Correctness::pack(&Correctness::compute(w, "raise")) == reference)
        .collect();
    assert_eq!(words(&cached), expected);
    assert!(words(&cached).contains(&"slate".to_string()));
    for candidate in cached.remaining() {
        assert_eq!(Correctness::pack(&Correctness::compute(candidate.word, "raise")), reference);
    }
}

#[test]
fn narrowing_never_grows_the_set() {
    let mut computes = Computes::new();
    let initial = initial_candidates(&DICTIONARY);
    let mut cached = Cached::new(&initial, &mut computes);
    let mut sizes = vec![cached.remaining().len()];
    cached.narrow(&mut computes, &entry("tares", Correctness::compute("lucky", "tares")));
    sizes.push(cached.remaining().len());
    cached.narrow(&mut computes, &entry("muddy", Correctness::compute("lucky", "muddy")));
    sizes.push(cached.remaining().len());
    cached.narrow(&mut computes, &entry("lucky", Correctness::compute("lucky", "lucky")));
    sizes.push(cached.remaining().len());
    assert!(sizes.windows(2).all(|w| w[1] <= w[0]));
    assert_eq!(words(&cached), vec!["lucky"]);
}

#[test]
fn narrowing_keeps_all_when_all_share_the_pattern() {
    let dictionary = [("tares", 1), ("muddy", 1), ("muddy", 1)];
    let mut computes = Computes::new();
    let initial = initial_candidates(&dictionary);
    let mut cached = Cached::new(&initial, &mut computes);
    cached.narrow(&mut computes, &entry("tares", [Correctness::Wrong; 5]));
    assert_eq!(cached.remaining().len(), 2);
    cached.narrow(&mut computes, &entry("muddy", [Correctness::Correct; 5]));
    assert_eq!(cached.remaining().len(), 2);
    assert_eq!(cached.remaining()[0].index, 1);
    assert_eq!(cached.remaining()[1].index, 2);
}

#[test]
fn narrowing_may_leave_nothing() {
    let mut computes = Computes::new();
    let initial = initial_candidates(&DICTIONARY);
    let mut cached = Cached::new(&initial, &mut computes);
    let turn = cached.guess(&mut computes, &[entry("tares", [Correctness::Misplaced; 5])]);
    assert!(cached.remaining().is_empty());
    assert!(matches!(turn, Turn::Exhausted));
}

#[test]
fn narrowing_keeps_indices_of_the_dictionary() {
    let mut computes = Computes::new();
    let initial = initial_candidates(&DICTIONARY);
    let mut cached = Cached::new(&initial, &mut computes);
    cached.narrow(&mut computes, &entry("tares", [Correctness::Wrong; 5]));
    let indices: Vec<usize> = cached.remaining().iter().map(|c| c.index).collect();
    assert_eq!(indices, vec![4, 5, 6, 7, 8, 9, 10]);
    for candidate in cached.remaining() {
        assert_eq!(DICTIONARY[candidate.index].0, candidate.word);
    }
}

#[test]
fn position_finds_the_first_candidate_with_the_word() {
    let mut computes = Computes::new();
    let initial = initial_candidates(&DICTIONARY);
    let mut cached = Cached::new(&initial, &mut computes);
    assert_eq!(cached.position("tares"), Some(0));
    assert_eq!(cached.position("whoop"), Some(10));
    assert_eq!(cached.position("zzzzz"), None);
    assert_eq!(cached.position("tare"), None);
    cached.narrow(&mut computes, &entry("tares", [Correctness::Wrong; 5]));
    assert_eq!(cached.position("tares"), None);
    assert_eq!(cached.position("muddy"), Some(0));
    assert_eq!(cached.position("whoop"), Some(6));
}

#[test]
fn buckets_hold_the_pattern_of_each_candidate_as_the_answer() {
    let mut computes = Computes::new();
    let initial = initial_candidates(&DICTIONARY);
    let cached = Cached::new(&initial, &mut computes);
    for at in 0..DICTIONARY.len() {
        let patterns = cached.buckets(&mut computes, at);
        assert_eq!(patterns.len(), DICTIONARY.len());
        for (j, p) in patterns.iter().enumerate() {
            let marks = Correctness::compute(DICTIONARY[j].0, DICTIONARY[at].0);
            assert_eq!(*p, Correctness::pack(&marks));
            assert!(usize::from(*p) < MAX_MASK_ENUM);
        }
        assert_eq!(patterns[at], 0);
    }
}

#[test]
fn buckets_fill_the_row_of_the_guess() {
    let mut computes = Computes::new();
    let initial = initial_candidates(&DICTIONARY);
    let cached = Cached::new(&initial, &mut computes);
    let patterns = cached.buckets(&mut computes, 3);
    let cache = computes.cache().unwrap();
    for (g, row) in cache.get().iter().enumerate() {
        for (a, cell) in row.iter().enumerate() {
            if g == 3 {
                assert_eq!(cell.map(|v| v.get()), Some(patterns[a]));
            } else {
                assert!(cell.is_none());
            }
        }
    }
}

#[test]
fn budget_is_a_third_and_at_least_twenty() {
    assert_eq!(MIN_BUDGET, 20);
    assert_eq!(search_budget(0), 20);
    assert_eq!(search_budget(59), 20);
    assert_eq!(search_budget(60), 20);
    assert_eq!(search_budget(62), 20);
    assert_eq!(search_budget(63), 21);
    assert_eq!(search_budget(100), 33);
    assert_eq!(search_budget(usize::MAX), usize::MAX / 3);
}

#[test]
fn sixty_candidates_evaluate_twenty() {
    let names = numbered(60);
    let dictionary: Vec<(&str, usize)> = names.iter().map(|w| (w.as_str(), 1)).collect();
    let mut computes = Computes::new();
    let initial = initial_candidates(&dictionary);
    let cached = Cached::new(&initial, &mut computes);
    assert_eq!(cached.evaluated_count(), 20);
}

#[test]
fn hundred_candidates_evaluate_thirty_three() {
    let names = numbered(100);
    let dictionary: Vec<(&str, usize)> = names.iter().map(|w| (w.as_str(), 1)).collect();
    let mut computes = Computes::new();
    let initial = initial_candidates(&dictionary);
    let cached = Cached::new(&initial, &mut computes);
    assert_eq!(cached.evaluated_count(), 33);
}

#[test]
fn few_candidates_are_all_evaluated() {
    let mut computes = Computes::new();
    let initial = initial_candidates(&DICTIONARY);
    let cached = Cached::new(&initial, &mut computes);
    assert_eq!(cached.evaluated_count(), 11);
    let none: [(&str, usize); 0] = [];
    let mut other = Computes::new();
    let empty = initial_candidates(&none);
    assert_eq!(Cached::new(&empty, &mut other).evaluated_count(), 0);
}

#[test]
fn turn_after_history_reports_the_evaluated_count() {
    let names = numbered(100);
    let dictionary: Vec<(&str, usize)> = names.iter().map(|w| (w.as_str(), 1)).collect();
    let mut computes = Computes::new();
    let initial = initial_candidates(&dictionary);
    let mut cached = Cached::new(&initial, &mut computes);
    let mask = Correctness::compute("00042", "00000");
    let turn = cached.guess(&mut computes, &[entry("00000", mask)]);
    let left = cached.remaining().len();
    assert!(left > 0 && left < 100);
    match turn {
        Turn::Search(count) => assert_eq!(count, left.min(search_budget(left))),
        other => panic!("a turn with history scores candidates: {:?}", other),
    }
}

#[test]
fn finish_counts_the_turns_after_each_recorded_one() {
    assert_eq!(finish(0, 0), Vec::<usize>::new());
    assert_eq!(finish(0, 4), Vec::<usize>::new());
    assert_eq!(finish(3, 4), vec![3, 2, 1]);
    assert_eq!(finish(4, 4), vec![3, 2, 1, 0]);
}

#[test]
fn total_frequency_sums_all_entries() {
    assert_eq!(total_frequency(&DICTIONARY), Some(555));
    let none: [(&str, usize); 0] = [];
    assert_eq!(total_frequency(&none), Some(0));
    assert_eq!(total_frequency(&[("tares", usize::MAX)]), Some(usize::MAX));
}

#[test]
fn total_frequency_is_nothing_on_overflow() {
    assert_eq!(total_frequency(&[("tares", usize::MAX), ("raise", 1)]), None);
    assert_eq!(total_frequency(&[("tares", usize::MAX), ("raise", 1), ("slate", 0)]), None);
}

#[test]
fn holds_words_only_wants_five_bytes_each() {
    assert!(holds_words_only(&DICTIONARY));
    let none: [(&str, usize); 0] = [];
    assert!(holds_words_only(&none));
    assert!(!holds_words_only(&[("tares", 1), ("tare", 1)]));
    assert!(!holds_words_only(&[("tarest", 1)]));
    assert!(!holds_words_only(&[("tar\u{e9}s", 1)]));
}

#[test]
fn same_word_compares_bytes() {
    assert!(same_word("tares", "tares"));
    assert!(same_word("", ""));
    assert!(!same_word("tares", "tarez"));
    assert!(!same_word("tares", "tare"));
    assert!(!same_word("tare", "tares"));
}

#[test]
fn initial_candidates_number_the_words_in_order() {
    let initial = initial_candidates(&DICTIONARY);
    assert_eq!(initial.len(), DICTIONARY.len());
    for (i, candidate) in initial.iter().enumerate() {
        assert_eq!(candidate.word, DICTIONARY[i].0);
        assert_eq!(candidate.index, i);
    }
    let none: [(&str, usize); 0] = [];
    assert!(initial_candidates(&none).is_empty());
}

#[test]
fn whole_dictionary_wants_words_at_their_own_index() {
    assert!(is_whole_dictionary(&initial_candidates(&DICTIONARY)));
    assert!(is_whole_dictionary(&Vec::new()));
    assert!(!is_whole_dictionary(&initial_candidates(&[("tares", 1), ("tare", 1)])));
    let shifted = vec![Candidate { word: "tares", index: 1 }];
    assert!(!is_whole_dictionary(&shifted));
    let swapped =
        vec![Candidate { word: "raise", index: 1 }, Candidate { word: "tares", index: 0 }];
    assert!(!is_whole_dictionary(&swapped));
}

#[test]
fn new_game_shares_the_initial_list_until_it_narrows() {
    let initial = initial_candidates(&DICTIONARY);
    let mut computes = Computes::new();
    let mut cached = Cached::new(&initial, &mut computes);
    assert!(cached.is_shared());
    assert!(std::ptr::eq(cached.remaining(), &initial));
    let _ = cached.guess(&mut computes, &[]);
    assert!(cached.is_shared());
    cached.narrow(&mut computes, &entry("tares", [Correctness::Wrong; 5]));
    assert!(!cached.is_shared());
    assert_eq!(cached.remaining().len(), 7);
    assert_eq!(initial.len(), DICTIONARY.len());
    cached.narrow(&mut computes, &entry("muddy", Correctness::compute("lucky", "muddy")));
    assert!(!cached.is_shared());
    assert_eq!(words(&cached), vec!["lucky"]);
}

#[test]
fn narrowing_that_keeps_all_still_takes_a_list_of_its_own() {
    let dictionary = [("muddy", 1), ("muddy", 1)];
    let initial = initial_candidates(&dictionary);
    let mut computes = Computes::new();
    let mut cached = Cached::new(&initial, &mut computes);
    cached.narrow(&mut computes, &entry("muddy", [Correctness::Correct; 5]));
    assert_eq!(cached.remaining().len(), 2);
    assert!(!cached.is_shared());
}

#[test]
fn guess_reads_the_word_of_an_entry_borrowed_or_owned() {
    let borrowed = entry("tares", [Correctness::Wrong; 5]);
    let owned = Guess { word: Cow::Owned("tares".to_string()), mask: [Correctness::Wrong; 5] };
    assert_eq!(borrowed.text(), "tares");
    assert_eq!(owned.text(), "tares");
    let initial = initial_candidates(&DICTIONARY);
    let mut computes = Computes::new();
    let mut first = Cached::new(&initial, &mut computes);
    let mut second = Cached::new(&initial, &mut computes);
    first.narrow(&mut computes, &borrowed);
    second.narrow(&mut computes, &owned);
    assert_eq!(words(&first), words(&second));
}

#[test]
fn entropy_over_the_buckets_is_never_negative() {
    let initial = initial_candidates(&DICTIONARY);
    let mut computes = Computes::new();
    let cached = Cached::new(&initial, &mut computes);
    let total = DICTIONARY.len() as f64;
    for at in 0..DICTIONARY.len() {
        let mut totals = [0.0f64; MAX_MASK_ENUM];
        for p in cached.buckets(&mut computes, at) {
            totals[usize::from(p)] += 1.0;
        }
        let filled = totals.iter().filter(|t| **t != 0.0).count();
        let entropy = -totals
            .iter()
            .filter(|t| **t != 0.0)
            .map(|t| (t / total) * (t / total).log2())
            .sum::<f64>();
        assert!(entropy >= 0.0);
        assert!(filled > 1);
        assert!(entropy > 0.0);
    }
}

#[test]
fn entropy_is_zero_when_one_bucket_holds_everything() {
    let dictionary = [("muddy", 3), ("muddy", 2), ("muddy", 1)];
    let initial = initial_candidates(&dictionary);
    let mut computes = Computes::new();
    let cached = Cached::new(&initial, &mut computes);
    let patterns = cached.buckets(&mut computes, 0);
    assert_eq!(patterns, vec![0, 0, 0]);
    let mut totals = [0.0f64; MAX_MASK_ENUM];
    for p in patterns {
        totals[usize::from(p)] += 1.0;
    }
    let entropy = -totals
        .iter()
        .filter(|t| **t != 0.0)
        .map(|t| (t / 3.0) * (t / 3.0).log2())
        .sum::<f64>();
    assert_eq!(entropy, 0.0);
}
