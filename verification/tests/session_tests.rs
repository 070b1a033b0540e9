use pbanki::decks::DeckNode;
use pbanki::session::{
    contains_type_directive, empty_durations, no_card_presentation, substitute_back_field,
    CardStates, LearnSession, QueuedCard, Rating,
};

fn deck(due: i32) -> DeckNode {
    DeckNode {
        id: 7,
        name: "German".to_string(),
        level: 1,
        collapsed: false,
        new: 2,
        learn: 0,
        due,
        has_children: false,
        parent_index: -1,
    }
}

fn one_card(review_left: i32) -> QueuedCard<u8> {
    QueuedCard {
        card_id: 42,
        states: CardStates { current: 0u8, again: 1, hard: 2, good: 3, easy: 4 },
        question_text: "Wie [[x]]geht es dir".to_string(),
        answer_text: "How are you".to_string(),
        durations: vec![
            "<1m".to_string(),
            "10m".to_string(),
            "1d".to_string(),
            "4d".to_string(),
        ],
        new_count: 2,
        learning_count: 0,
        review_count: review_left,
    }
}

#[test]
fn sentinel_presentation_has_fixed_shape() {
    let r = no_card_presentation(deck(3));
    assert_eq!(r.id, -1);
    assert_eq!(r.question, vec!["No more cards due!"]);
    assert!(r.answer.is_empty());
    assert!(r.durations.is_empty());
    assert_eq!(r.deck.id, 7);
    assert_eq!(r.deck.due, 3);
}

#[test]
fn present_card_paginates_and_updates_counts() {
    let mut s: LearnSession<u8> = LearnSession::new();
    let r = s.present_card(one_card(0), deck(1), 12, 5_000);
    assert_eq!(r.id, 42);
    assert_eq!(r.question, vec!["Wie geht es", "dir"]);
    assert_eq!(r.answer, vec!["How are you"]);
    assert_eq!(r.durations.len(), 4);
    assert_eq!(r.deck.due, 0);
    assert_eq!(r.deck.new, 2);
    assert_eq!(r.deck.name, "German");
    assert_eq!(s.current_card, Some(42));
    assert_eq!(s.start_time_ms, Some(5_000));
}

#[test]
fn rate_card_produces_record_and_clears_session() {
    let mut s: LearnSession<u8> = LearnSession::new();
    s.present_card(one_card(0), deck(1), 12, 5_000);
    let rec = s.rate_card(2, 8_500).expect("a card was under review");
    assert_eq!(rec.card_id, 42);
    assert_eq!(rec.current_state, 0);
    assert_eq!(rec.new_state, 3);
    assert_eq!(rec.rating, Rating::Good);
    assert_eq!(rec.milliseconds_taken, 3_500);
    assert!(s.current_card.is_none());
    assert!(s.states.is_none());
    assert!(s.start_time_ms.is_none());
}

#[test]
fn rate_card_without_card_is_no_op() {
    let mut s: LearnSession<u8> = LearnSession::new();
    assert!(s.rate_card(2, 1_000).is_none());
    assert!(s.current_card.is_none());
}

#[test]
fn rate_card_out_of_range_rating_grades_nothing() {
    let mut s: LearnSession<u8> = LearnSession::new();
    s.present_card(one_card(0), deck(1), 12, 5_000);
    assert!(s.rate_card(4, 6_000).is_none());
    assert!(s.rate_card(-1, 6_000).is_none());
    // the card is still under review, so a valid rating still grades it
    let rec = s.rate_card(0, 6_000).expect("card still under review");
    assert_eq!(rec.rating, Rating::Again);
    assert_eq!(rec.new_state, 1);
}

#[test]
fn rate_twice_second_is_sentinel() {
    let mut s: LearnSession<u8> = LearnSession::new();
    s.present_card(one_card(0), deck(1), 12, 5_000);
    assert!(s.rate_card(2, 6_000).is_some());
    // no new card was presented in between, so the second rating grades
    // nothing and the caller shows the sentinel again
    assert!(s.rate_card(2, 7_000).is_none());
}

#[test]
fn one_due_card_good_good_ends_on_decremented_sentinel() {
    // pre-session snapshot: one card due
    let pre_due: i32 = 1;
    let pre = deck(pre_due);
    let mut s: LearnSession<u8> = LearnSession::new();
    // fetching the only due card reports no further reviews waiting
    let shown = s.present_card(one_card(0), pre, 40, 1_000);
    assert_eq!(shown.id, 42);
    // first Good: grades the card; the queue is now empty, so the chained
    // fetch shows the sentinel with the updated deck row
    let rec = s.rate_card(2, 2_000).expect("first rating grades the card");
    assert_eq!(rec.rating, Rating::Good);
    let after_first = no_card_presentation(shown.deck);
    assert_eq!(after_first.id, -1);
    // second Good: nothing is under review any more
    assert!(s.rate_card(2, 3_000).is_none());
    let after_second = no_card_presentation(after_first.deck);
    assert_eq!(after_second.id, -1);
    assert_eq!(after_second.question, vec!["No more cards due!"]);
    assert!(after_second.answer.is_empty());
    assert!(after_second.durations.is_empty());
    assert_eq!(after_second.deck.due, pre_due - 1);
}

#[test]
fn elapsed_is_zero_without_recorded_start() {
    let mut s: LearnSession<u8> = LearnSession {
        current_card: Some(1),
        states: Some(CardStates { current: 0u8, again: 1, hard: 2, good: 3, easy: 4 }),
        start_time_ms: None,
    };
    let rec = s.rate_card(1, 9_999).expect("card under review");
    assert_eq!(rec.milliseconds_taken, 0);
    assert_eq!(rec.rating, Rating::Hard);
}

#[test]
fn type_directive_detection() {
    assert!(contains_type_directive("x[[type:Back]]y"));
    assert!(contains_type_directive("[[type:"));
    assert!(!contains_type_directive("[[type"));
    assert!(!contains_type_directive("plain answer"));
    assert!(!contains_type_directive(""));
}

#[test]
fn back_field_substitution_takes_last_back_field() {
    let names = vec!["Front".to_string(), "Back".to_string()];
    let values = vec!["f".to_string(), "b".to_string()];
    assert_eq!(substitute_back_field("orig".to_string(), &names, &values), "b");

    let names2 = vec!["Back".to_string(), "Middle".to_string(), "Back".to_string()];
    let values2 = vec!["first".to_string(), "m".to_string(), "last".to_string()];
    assert_eq!(substitute_back_field("orig".to_string(), &names2, &values2), "last");
}

#[test]
fn back_field_substitution_keeps_answer_without_back_field() {
    let names = vec!["Front".to_string(), "Extra".to_string()];
    let values = vec!["f".to_string(), "e".to_string()];
    assert_eq!(substitute_back_field("orig".to_string(), &names, &values), "orig");
}

#[test]
fn back_field_substitution_ignores_name_without_value() {
    let names = vec!["Front".to_string(), "Back".to_string()];
    let values = vec!["f".to_string()];
    assert_eq!(substitute_back_field("orig".to_string(), &names, &values), "orig");
}

#[test]
fn empty_durations_are_four_empty_labels() {
    let d = empty_durations();
    assert_eq!(d, vec!["", "", "", ""]);
}
