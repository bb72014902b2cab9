use repeater::card::{Card, CardContent};
use repeater::crud::DB;
use repeater::drill::{
    action_for, format_card_text, header_text, instructions_text, mask_cloze_text,
    register_all_cards, DrillAction, DrillKey, DrillState,
};
use repeater::fsrs::{Performance, ReviewStatus};

fn card(hash: &str) -> Card {
    Card {
        file_path: format!("{hash}.md"),
        file_card_range: (0, 2),
        content: CardContent::Basic { question: hash.to_string(), answer: "a".to_string() },
        card_hash: hash.to_string(),
    }
}

fn hashes(cards: &[Card]) -> Vec<String> {
    cards.iter().map(|c| c.card_hash.clone()).collect()
}

#[test]
fn failed_card_comes_again_until_passed() {
    let mut db = DB::new();
    let cards = vec![card("A"), card("B")];
    db.add_cards_batch(&cards, 0);
    let mut state = DrillState::new(cards);
    let mut grade_calls = 0;

    assert!(!state.is_complete());
    assert_eq!(state.current_card().unwrap().card_hash, "A");
    assert!(!state.show_answer());
    state.reveal_answer();
    assert!(state.show_answer());
    state.reveal_answer();
    assert!(state.show_answer());
    assert_eq!(state.handle_review(&mut db, ReviewStatus::Fail, 100), Ok(true));
    grade_calls += 1;
    assert!(!state.show_answer());
    assert_eq!(state.last_action(), Some(ReviewStatus::Fail));

    assert_eq!(state.current_card().unwrap().card_hash, "B");
    state.reveal_answer();
    assert_eq!(state.handle_review(&mut db, ReviewStatus::Pass, 200), Ok(true));
    grade_calls += 1;

    // the first pass is through, and A waits for the next
    assert_eq!(state.shown_card().unwrap().card_hash, "A");
    assert_eq!(state.current_idx(), 2);
    assert_eq!(hashes(state.cards()), vec!["A", "B"]);
    assert_eq!(hashes(state.redo_cards()), vec!["A"]);
    assert!(!state.is_complete());

    // the session swaps to the failed cards
    assert_eq!(state.current_card().unwrap().card_hash, "A");
    assert_eq!(state.current_idx(), 0);
    assert_eq!(hashes(state.cards()), vec!["A"]);
    assert!(state.redo_cards().is_empty());

    state.reveal_answer();
    assert_eq!(state.handle_review(&mut db, ReviewStatus::Pass, 300), Ok(true));
    grade_calls += 1;
    assert!(state.is_complete());
    assert!(state.shown_card().is_none());
    assert!(state.current_card().is_none());
    assert_eq!(state.last_action(), Some(ReviewStatus::Pass));

    assert_eq!(grade_calls, 3);
    match db.get_card_performance(&card("A")).unwrap() {
        Performance::Reviewed(p) => {
            assert_eq!(p.review_count, 2);
            assert_eq!(p.last_reviewed_at, 300);
        }
        Performance::New => panic!("A was reviewed"),
    }
    match db.get_card_performance(&card("B")).unwrap() {
        Performance::Reviewed(p) => assert_eq!(p.review_count, 1),
        Performance::New => panic!("B was reviewed"),
    }
}

#[test]
fn empty_session_is_complete() {
    let mut state = DrillState::new(vec![]);
    assert!(state.is_complete());
    assert!(state.current_card().is_none());
    assert_eq!(state.last_action(), None);
}

#[test]
fn grading_an_unknown_card_is_reported_and_moves_on() {
    let mut db = DB::new();
    let mut state = DrillState::new(vec![card("ghost")]);
    state.reveal_answer();
    assert_eq!(state.handle_review(&mut db, ReviewStatus::Pass, 5), Ok(false));
    assert!(state.is_complete());
    assert!(db.rows().is_empty());
}

#[test]
fn drill_mask_hides_what_is_between_the_brackets() {
    assert_eq!(mask_cloze_text("ping? [pong]", 6, 11), "ping? [____]");
    assert_eq!(mask_cloze_text("日本 [東京] だ", 7, 14), "日本 [___] だ");
    assert_eq!(mask_cloze_text("a [b] c", 2, 4), "a [___] c");
    // offsets that are no good leave the text
    assert_eq!(mask_cloze_text("a [b] c", 4, 2), "a [b] c");
    assert_eq!(mask_cloze_text("a [b] c", 2, 7), "a [b] c");
    assert_eq!(mask_cloze_text("a [b] c", 7, 9), "a [b] c");
    assert_eq!(mask_cloze_text("日本 [東京]", 1, 7), "日本 [東京]");
    assert_eq!(mask_cloze_text("", 0, 0), "");
}

#[test]
fn card_text_shows_answer_only_when_revealed() {
    let basic = card("what?");
    assert_eq!(format_card_text(&basic, false), "Q:\nwhat?\n\nA:\n");
    assert_eq!(format_card_text(&basic, true), "Q:\nwhat?\n\nA:\na");
    let cloze = Card {
        file_path: "c.md".to_string(),
        file_card_range: (0, 1),
        content: CardContent::Cloze { text: "ping? [pong]".to_string(), start: 6, end: 11 },
        card_hash: "c".to_string(),
    };
    assert_eq!(format_card_text(&cloze, false), "Cloze:\nping? [____]");
    assert_eq!(format_card_text(&cloze, true), "Cloze:\nping? [pong]");
}

#[test]
fn instructions_and_header_follow_the_state() {
    let mut db = DB::new();
    let mut state = DrillState::new(vec![card("A"), card("B")]);
    assert_eq!(instructions_text(&state), "Show answer: Space/Enter • Esc/Ctrl-C exit");
    let shown = state.current_card().unwrap();
    assert_eq!(header_text(&state, &shown), " Card 1/2 • 0 to redo • A.md ");
    state.reveal_answer();
    assert_eq!(instructions_text(&state), "Fail: 1 • Pass: 2 • Quit: Q/Esc");
    state.handle_review(&mut db, ReviewStatus::Fail, 0).unwrap();
    assert_eq!(
        instructions_text(&state),
        "Show answer: Space/Enter • Esc/Ctrl-C exit | Last: Fail"
    );
    let shown = state.current_card().unwrap();
    assert_eq!(header_text(&state, &shown), " Card 2/2 • 1 to redo • B.md ");
    state.reveal_answer();
    state.handle_review(&mut db, ReviewStatus::Pass, 0).unwrap();
    state.reveal_answer();
    assert_eq!(instructions_text(&state), "Fail: 1 • Pass: 2 • Quit: Q/Esc | Last: Pass");
}

#[test]
fn keys_act_by_whether_the_answer_is_shown() {
    assert_eq!(action_for(DrillKey::Escape, false), DrillAction::Quit);
    assert_eq!(action_for(DrillKey::Char('c', true), true), DrillAction::Quit);
    assert_eq!(action_for(DrillKey::Char('c', false), true), DrillAction::Ignore);
    assert_eq!(action_for(DrillKey::Char(' ', false), false), DrillAction::Reveal);
    assert_eq!(action_for(DrillKey::Char(' ', false), true), DrillAction::Ignore);
    assert_eq!(action_for(DrillKey::Enter, false), DrillAction::Reveal);
    assert_eq!(action_for(DrillKey::Enter, true), DrillAction::Ignore);
    assert_eq!(action_for(DrillKey::Char('1', false), true), DrillAction::Grade(ReviewStatus::Fail));
    assert_eq!(action_for(DrillKey::Char('2', false), true), DrillAction::Grade(ReviewStatus::Pass));
    assert_eq!(action_for(DrillKey::Char('1', false), false), DrillAction::Ignore);
    assert_eq!(action_for(DrillKey::Char('2', false), false), DrillAction::Ignore);
    assert_eq!(action_for(DrillKey::Other, true), DrillAction::Ignore);
}

#[test]
fn registering_cards_inserts_rows_and_indexes_identities() {
    let mut db = DB::new();
    db.add_card(&card("old"), 1);
    let index = register_all_cards(&mut db, vec![card("x"), card("old"), card("x")], 50);
    assert_eq!(index.len(), 2);
    assert_eq!(hashes(index.cards()), vec!["old", "x"]);
    let rows: Vec<(String, i64)> =
        db.rows().iter().map(|r| (r.card_hash.clone(), r.added_at)).collect();
    assert_eq!(rows, vec![("old".to_string(), 1), ("x".to_string(), 50)]);
    assert_eq!(hashes(&db.due_today(&index, None, 50)), vec!["old", "x"]);
}
