use text_mutator::models::{
    Mutation, MutationResponse, MutationResponseItem, MutationResponseType, MutationResult,
};
use text_mutator::routes::get_route;
use text_mutator::scan::trailing_punct_of;

#[test]
fn route_has_version_prefix() {
    assert_eq!(get_route("health"), "/api/v1/health");
    assert_eq!(get_route("mutate"), "/api/v1/mutate");
    assert_eq!(get_route(""), "/api/v1/");
}

#[test]
fn response_items_give_spans() {
    let res = MutationResult {
        mutated_text: "you're tex".to_string(),
        mutations: vec![
            Mutation::RemovePunctuation(9),
            Mutation::ReplaceHomophone(0, 4),
            Mutation::SwapLetters(3),
        ],
    };
    let r = MutationResponse::from_result(res);
    assert_eq!(r.mutated_text, "you're tex");
    assert_eq!(
        r.mutations,
        vec![
            MutationResponseItem { start: 9, end: 9, kind: MutationResponseType::RemovePunctuation },
            MutationResponseItem { start: 0, end: 4, kind: MutationResponseType::ReplaceHomophone },
            MutationResponseItem { start: 3, end: 3, kind: MutationResponseType::SwapLetters },
        ]
    );
}

#[test]
fn response_item_end_saturates() {
    let item = MutationResponseItem::from_mutation(Mutation::ReplaceHomophone(usize::MAX - 1, 5));
    assert_eq!(item.end, usize::MAX);
}

#[test]
fn trailing_punctuation_of_a_span() {
    let t: Vec<char> = "x(a,b?!) y".chars().collect();
    assert_eq!(trailing_punct_of(&t, 1, 8), vec!['?', '!', ')']);
    assert_eq!(trailing_punct_of(&t, 1, 4), vec![',']);
    assert_eq!(trailing_punct_of(&t, 1, 5), Vec::<char>::new());
    assert_eq!(trailing_punct_of(&t, 2, 3), Vec::<char>::new());
    assert_eq!(trailing_punct_of(&t, 4, 4), Vec::<char>::new());
}
