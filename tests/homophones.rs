use rand::rngs::StdRng;
use rand::SeedableRng;
use text_mutator::homophones::{match_case, HomophoneSets};

#[test]
fn test_find_matching_set_found() {
    let hs = HomophoneSets::new_for_tests();
    let set = hs.find_matching_set("your");
    assert!(set.is_some());
    assert!(set.unwrap().contains(&"you're".to_string()));
}

#[test]
fn test_find_matching_set_case_insensitive() {
    let hs = HomophoneSets::new_for_tests();
    let set = hs.find_matching_set("Their");
    assert!(set.is_some());
    assert!(set.unwrap().contains(&"there".to_string()));
    assert!(set.unwrap().contains(&"they're".to_string()));
}

#[test]
fn test_find_matching_set_not_found() {
    let hs = HomophoneSets::new_for_tests();
    let set = hs.find_matching_set("hello");
    assert!(set.is_none());
}

#[test]
fn test_get_alternative_basic() {
    let hs = HomophoneSets::new_for_tests();
    let mut rng = StdRng::from_os_rng();
    let alt = hs.get_alternative("to", &mut rng);
    assert!(alt.is_some());
    let alt_word = alt.unwrap();
    assert!(alt_word == "too" || alt_word == "two");
}

#[test]
fn test_get_alternative_case_preserved() {
    let hs = HomophoneSets::new_for_tests();
    let mut rng = StdRng::from_os_rng();
    let alt_your = hs.get_alternative("Your", &mut rng);
    assert!(alt_your.is_some());
    assert_eq!(alt_your.unwrap(), "You're");

    let alt_theyre = hs.get_alternative("They're", &mut rng);
    assert!(alt_theyre.is_some());
    let alt_word = alt_theyre.unwrap();
    assert!(alt_word == "Their" || alt_word == "There");
    assert!(alt_word.chars().next().unwrap().is_uppercase());
}

#[test]
fn test_get_alternative_no_match() {
    let hs = HomophoneSets::new_for_tests();
    let mut rng = StdRng::from_os_rng();
    let alt = hs.get_alternative("world", &mut rng);
    assert!(alt.is_none());
}

#[test]
fn test_get_alternative_single_option() {
    let hs = HomophoneSets::new_for_tests();
    let mut rng = StdRng::from_os_rng();
    let alt_affect = hs.get_alternative("affect", &mut rng);
    assert!(alt_affect.is_some());
    assert_eq!(alt_affect.unwrap(), "effect");

    let alt_effect_caps = hs.get_alternative("Effect", &mut rng);
    assert!(alt_effect_caps.is_some());
    assert_eq!(alt_effect_caps.unwrap(), "Affect");
}

#[test]
fn new_and_test_tables_agree() {
    let a = HomophoneSets::new();
    let b = HomophoneSets::new_for_tests();
    assert_eq!(a.sets, b.sets);
    assert_eq!(a.sets.len(), 11);
}

#[test]
fn find_matching_set_returns_first_group_in_full() {
    let hs = HomophoneSets::new();
    let set = hs.find_matching_set("WHERE").unwrap();
    assert_eq!(set, &vec!["were".to_string(), "we're".to_string(), "where".to_string()]);
}

#[test]
fn alternatives_exclude_the_word_itself() {
    let hs = HomophoneSets::new();
    assert_eq!(hs.alternatives_of("There"), vec!["their".to_string(), "they're".to_string()]);
    assert!(hs.alternatives_of("banana").is_empty());
}

#[test]
fn match_case_capitalizes_only_the_first_letter() {
    assert_eq!(match_case("Your", &"you're".to_string()), "You're");
    assert_eq!(match_case("your", &"you're".to_string()), "you're");
    assert_eq!(match_case("", &"to".to_string()), "to");
    assert_eq!(match_case("T", &"".to_string()), "");
}

#[test]
fn alternative_never_equals_word_ignoring_case() {
    let hs = HomophoneSets::new();
    for seed in 0..20u64 {
        let mut rng = StdRng::seed_from_u64(seed);
        let alt = hs.get_alternative("Too", &mut rng).unwrap();
        assert!(alt == "To" || alt == "Two");
    }
}
