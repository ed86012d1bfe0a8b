use std::sync::Arc;
use text_mutator::homophones::HomophoneSets;
use text_mutator::models::Mutation;
use text_mutator::mutator::TextMutator;

/// An engine with the rate `numerator / denominator` and a fixed seed.
fn create_test_mutator(
    numerator: u32,
    denominator: u32,
    swap_letters: bool,
    remove_punctuation: bool,
    homophones: bool,
) -> TextMutator {
    TextMutator::new(
        numerator,
        denominator,
        Some(42),
        swap_letters,
        remove_punctuation,
        homophones,
        Arc::new(HomophoneSets::new_for_tests()),
    )
    .unwrap()
}

#[test]
fn test_find_possible_mutations_swap_only() {
    let mutator = create_test_mutator(1, 1, true, false, false);
    let mutations = mutator.find_possible_mutations("abc");
    assert_eq!(mutations.len(), 2);
    assert!(matches!(mutations[0], Mutation::SwapLetters(0)));
    assert!(matches!(mutations[1], Mutation::SwapLetters(1)));
}

#[test]
fn test_find_possible_mutations_punctuation_only() {
    let mutator = create_test_mutator(1, 1, false, true, false);
    let mutations = mutator.find_possible_mutations("a,b.c!");
    assert_eq!(mutations.len(), 3);
    assert!(matches!(mutations[0], Mutation::RemovePunctuation(1)));
    assert!(matches!(mutations[1], Mutation::RemovePunctuation(3)));
    assert!(matches!(mutations[2], Mutation::RemovePunctuation(5)));
}

#[test]
fn test_find_possible_mutations_homophones_only() {
    let mutator = create_test_mutator(1, 1, false, false, true);
    let mutations = mutator.find_possible_mutations("your text");
    assert_eq!(mutations.len(), 1);
    assert!(matches!(mutations[0], Mutation::ReplaceHomophone(0, 4)));
}

#[test]
fn test_find_possible_mutations_all_types() {
    let mutator = create_test_mutator(1, 1, true, true, true);
    let mutations = mutator.find_possible_mutations("It's your text!");
    assert_eq!(mutations.len(), 11);
}

#[test]
fn test_mutate_no_mutations_zero_rate() {
    let mut mutator = create_test_mutator(0, 1, true, true, true);
    let text = "It's your text!";
    let result = mutator.mutate(text);
    assert_eq!(result.mutated_text, text);
    assert!(result.mutations.is_empty());
}

#[test]
fn test_mutate_swap_only_full_rate() {
    let mut mutator = create_test_mutator(1, 1, true, false, false);
    let result = mutator.mutate("abc");
    assert_eq!(result.mutated_text, "cab");
    assert_eq!(result.mutations.len(), 2);
    assert!(result.mutations.iter().any(|m| matches!(m, Mutation::SwapLetters(0))));
    assert!(result.mutations.iter().any(|m| matches!(m, Mutation::SwapLetters(1))));
}

#[test]
fn test_mutate_punctuation_only_full_rate() {
    let mut mutator = create_test_mutator(1, 1, false, true, false);
    let result = mutator.mutate("a,b.c!");
    assert_eq!(result.mutated_text, "abc");
    assert_eq!(result.mutations.len(), 3);
    assert!(result.mutations.iter().any(|m| matches!(m, Mutation::RemovePunctuation(1))));
    assert!(result.mutations.iter().any(|m| matches!(m, Mutation::RemovePunctuation(3))));
    assert!(result.mutations.iter().any(|m| matches!(m, Mutation::RemovePunctuation(5))));
}

#[test]
fn test_mutate_homophones_only_full_rate() {
    let mut mutator = create_test_mutator(1, 1, false, false, true);
    let result = mutator.mutate("your text to test");
    assert_eq!(result.mutated_text, "you're text two test");
    assert_eq!(result.mutations.len(), 2);
    assert!(result.mutations.iter().any(|m| matches!(m, Mutation::ReplaceHomophone(0, 4))));
    assert!(result.mutations.iter().any(|m| matches!(m, Mutation::ReplaceHomophone(10, 2))));
}

#[test]
fn test_mutate_all_types_full_rate() {
    let mut mutator = create_test_mutator(1, 1, true, true, true);
    let text = "It's your text!";
    let result = mutator.mutate(text);
    // All 11 candidates are selected, but letter swaps inside "It's" and
    // "your" are applied before the replacements of those words, which then
    // no longer match the table and are skipped: only edits that changed the
    // text are reported.
    assert_eq!(result.mutations.len(), 9);
    assert_ne!(result.mutated_text, text);

    let mut mutator_simple = create_test_mutator(1, 1, true, true, false);
    let result_simple = mutator_simple.mutate("Test.");
    assert_eq!(result_simple.mutated_text, "tTes");
    assert_eq!(result_simple.mutations.len(), 4);
}

#[test]
fn test_mutate_partial_rate_fixed_seed() {
    let mut mutator = create_test_mutator(1, 2, true, true, true);
    let text = "It's your text!";
    let result = mutator.mutate(text);
    assert_eq!(result.mutations.len(), 5);
    assert_ne!(result.mutated_text, text);
}

#[test]
fn test_mutate_empty_string() {
    let mut mutator = create_test_mutator(1, 1, true, true, true);
    let result = mutator.mutate("");
    assert_eq!(result.mutated_text, "");
    assert!(result.mutations.is_empty());
}

#[test]
fn test_mutate_no_possible_mutations() {
    let mut mutator = create_test_mutator(1, 1, true, true, true);
    let result_spaces = mutator.mutate("   ");
    assert_eq!(result_spaces.mutated_text, "   ");
    assert!(result_spaces.mutations.is_empty());

    let result_numbers = mutator.mutate("12345");
    assert_eq!(result_numbers.mutated_text, "12345");
    assert!(result_numbers.mutations.is_empty());
}

#[test]
fn test_homophone_preserves_punctuation() {
    let mut mutator = create_test_mutator(1, 1, false, false, true);
    let result = mutator.mutate("Were you there?");
    assert_eq!(result.mutated_text, "We're you they're?");
    assert_eq!(result.mutations.len(), 2);
}

#[test]
fn test_homophone_case_preservation() {
    let mut mutator = create_test_mutator(1, 1, false, false, true);
    let result = mutator.mutate("Your car, your rules.");
    assert_eq!(result.mutated_text, "You're car, you're rules.");
    assert_eq!(result.mutations.len(), 2);
}

#[test]
fn repeated_runs_with_one_seed_agree() {
    let text = "Were you there? Your car, your rules; it's too late to lose.";
    let mut a = create_test_mutator(1, 2, true, true, true);
    let mut b = create_test_mutator(1, 2, true, true, true);
    let ra = a.mutate(text);
    let rb = b.mutate(text);
    assert_eq!(ra.mutated_text, rb.mutated_text);
    assert_eq!(ra.mutations, rb.mutations);
}

#[test]
fn zero_rate_leaves_any_text_alone() {
    for text in ["", "abc", "Were you there?", "a,b.c!", "  x  "] {
        let mut m = create_test_mutator(0, 5, true, true, true);
        let r = m.mutate(text);
        assert_eq!(r.mutated_text, text);
        assert!(r.mutations.is_empty());
    }
}

#[test]
fn no_candidates_leaves_text_alone_at_any_rate() {
    for (num, den) in [(1, 1), (1, 2), (3, 4)] {
        let mut m = create_test_mutator(num, den, true, true, true);
        let r = m.mutate("12 34\t\n 56");
        assert_eq!(r.mutated_text, "12 34\t\n 56");
        assert!(r.mutations.is_empty());
    }
}

#[test]
fn swap_only_applies_the_floor_of_the_rate() {
    let mut m = create_test_mutator(1, 3, true, false, false);
    let text = "abcdefg";
    let cands = m.find_possible_mutations(text);
    assert_eq!(cands.len(), 6);
    let r = m.mutate(text);
    assert_eq!(r.mutations.len(), 2);
    for x in &r.mutations {
        assert!(cands.contains(x));
    }
}

#[test]
fn applied_edits_are_in_descending_order() {
    let mut m = create_test_mutator(1, 1, false, true, false);
    let r = m.mutate("a.b,c;d");
    assert_eq!(r.mutated_text, "abcd");
    assert_eq!(
        r.mutations,
        vec![
            Mutation::RemovePunctuation(5),
            Mutation::RemovePunctuation(3),
            Mutation::RemovePunctuation(1)
        ]
    );
}

#[test]
fn homophone_site_spans_the_whole_word() {
    let m = create_test_mutator(1, 1, false, false, true);
    let c = m.find_possible_mutations("  there?  ok");
    assert_eq!(c, vec![Mutation::ReplaceHomophone(2, 6)]);
}

#[test]
fn candidates_use_character_indices() {
    let m = create_test_mutator(1, 1, true, true, true);
    let c = m.find_possible_mutations("é! to");
    assert_eq!(
        c,
        vec![
            Mutation::SwapLetters(3),
            Mutation::RemovePunctuation(1),
            Mutation::ReplaceHomophone(3, 2)
        ]
    );
}

#[test]
fn repeated_word_gets_its_own_site() {
    let m = create_test_mutator(1, 1, false, false, true);
    let c = m.find_possible_mutations("to to");
    assert_eq!(c, vec![Mutation::ReplaceHomophone(0, 2), Mutation::ReplaceHomophone(3, 2)]);
}

#[test]
fn trailing_punctuation_follows_replacement() {
    let mut m = create_test_mutator(1, 1, false, false, true);
    let r = m.mutate("there?");
    assert!(r.mutated_text == "their?" || r.mutated_text == "they're?");
}

#[test]
fn lowercase_word_gets_lowercase_alternative() {
    let mut m = create_test_mutator(1, 1, false, false, true);
    let r = m.mutate("which");
    assert_eq!(r.mutated_text, "witch");
}

#[test]
fn swap_and_homophone_on_one_word() {
    let mut m = create_test_mutator(1, 1, true, false, true);
    let text = "to";
    let cands = m.find_possible_mutations(text);
    assert_eq!(cands, vec![Mutation::SwapLetters(0), Mutation::ReplaceHomophone(0, 2)]);
    let r = m.mutate(text);
    if r.mutations.len() == 1 {
        // The swap came first: "ot" matches no group, so the replacement is skipped.
        assert_eq!(r.mutations, vec![Mutation::SwapLetters(0)]);
        assert_eq!(r.mutated_text, "ot");
    } else {
        // The replacement came first, and the swap then applies to the new word.
        assert_eq!(r.mutations, vec![Mutation::ReplaceHomophone(0, 2), Mutation::SwapLetters(0)]);
        assert!(r.mutated_text == "oto" || r.mutated_text == "wto");
    }
}

#[test]
fn selection_depends_on_seed() {
    let text = "abcdefghijkl";
    let mut saw_other_than_first = false;
    for seed in 0..20u64 {
        let mut m = TextMutator::new(
            1,
            4,
            Some(seed),
            true,
            false,
            false,
            Arc::new(HomophoneSets::new()),
        )
        .unwrap();
        let r = m.mutate(text);
        assert_eq!(r.mutations.len(), 2);
        if r.mutations != vec![Mutation::SwapLetters(1), Mutation::SwapLetters(0)] {
            saw_other_than_first = true;
        }
    }
    assert!(saw_other_than_first);
}

#[test]
fn swaps_and_removals_all_take_effect() {
    let mut m = create_test_mutator(1, 2, true, true, false);
    let text = "ab,cd.ef!";
    let cands = m.find_possible_mutations(text);
    assert_eq!(cands.len(), 6);
    let r = m.mutate(text);
    assert_eq!(r.mutations.len(), 3);
    for x in &r.mutations {
        assert!(cands.contains(x));
    }
}

#[test]
fn only_trailing_punctuation_is_kept() {
    let mut m = create_test_mutator(1, 1, false, false, true);
    assert_eq!(m.mutate("it's").mutated_text, "its");
    assert_eq!(m.mutate("Who's?!").mutated_text, "Whose?!");
    assert_eq!(m.mutate("(your").mutated_text, "you're");
    assert_eq!(m.mutate("\"effect,\"").mutated_text, "affect,\"");
}

#[test]
fn unseeded_engine_is_available() {
    let e = TextMutator::new(1, 1, None, true, false, false, Arc::new(HomophoneSets::new()));
    let mut e = e.unwrap();
    let r = e.mutate("ab");
    assert_eq!(r.mutated_text, "ba");
}
