use repeater::check::stats_report;
use repeater::create::{is_yes, text_to_append, Editor, EditorAction, EditorKey, EditorStatus};
use repeater::crud::{CardStats, UpcomingCount};

fn type_text(editor: &mut Editor, text: &str) {
    for c in text.chars() {
        let key = match c {
            '\n' => EditorKey::Enter,
            '\t' => EditorKey::Tab,
            c => EditorKey::Char(c, false),
        };
        assert!(matches!(editor.handle_key(key), EditorAction::Continue));
    }
}

#[test]
fn yes_is_y_or_yes_in_any_case() {
    assert!(is_yes("y"));
    assert!(is_yes(" YES \n"));
    assert!(is_yes("Yes"));
    assert!(!is_yes("yeah"));
    assert!(!is_yes(""));
    assert!(!is_yes("n"));
}

#[test]
fn appended_text_ends_in_one_line_feed() {
    assert_eq!(
        text_to_append("Q: a\nA: b\n\n\n", false),
        Some("Q: a\nA: b\n".to_string())
    );
    assert_eq!(text_to_append("Q: a\nA: b", true), Some("\nQ: a\nA: b\n".to_string()));
    assert_eq!(text_to_append("\n\n", true), None);
    assert_eq!(text_to_append("", false), None);
    assert_eq!(text_to_append(" \n", false), Some(" \n".to_string()));
}

#[test]
fn editor_writes_saves_and_quits() {
    let mut editor = Editor::new();
    assert_eq!(editor.input(), "");
    assert_eq!(editor.status(), None);
    type_text(&mut editor, "Q: a\n\tb");
    assert_eq!(editor.input(), "Q: a\n\tb");
    assert!(matches!(editor.handle_key(EditorKey::Backspace), EditorAction::Continue));
    assert_eq!(editor.input(), "Q: a\n\t");
    assert!(matches!(editor.handle_key(EditorKey::Other), EditorAction::Continue));
    assert!(matches!(editor.handle_key(EditorKey::Char('x', true)), EditorAction::Continue));
    assert_eq!(editor.input(), "Q: a\n\t");
    match editor.handle_key(EditorKey::Char('s', true)) {
        EditorAction::Save(text) => assert_eq!(text, "Q: a\n\t"),
        other => panic!("expected a save, got {other:?}"),
    }
    assert_eq!(editor.input(), "");
    assert_eq!(editor.status(), Some(EditorStatus::Saved));
    assert_eq!(EditorStatus::Saved.message(), "Card saved.");

    type_text(&mut editor, " \n ");
    assert!(matches!(editor.handle_key(EditorKey::Char('s', true)), EditorAction::Continue));
    assert_eq!(editor.input(), "");
    assert_eq!(editor.status(), Some(EditorStatus::NotSaved));
    assert_eq!(EditorStatus::NotSaved.message(), "Card not saved (empty).");

    assert!(matches!(editor.handle_key(EditorKey::Backspace), EditorAction::Continue));
    type_text(&mut editor, "kept");
    assert!(matches!(editor.handle_key(EditorKey::Escape), EditorAction::Quit));
    assert!(matches!(editor.handle_key(EditorKey::Char('c', true)), EditorAction::Quit));
    assert_eq!(editor.input(), "kept");
    assert_eq!(editor.status(), Some(EditorStatus::NotSaved));
}

#[test]
fn cursor_stays_within_the_frame() {
    let mut editor = Editor::new();
    assert_eq!(editor.cursor_position(5, 7, 20, 10), (6, 8));
    type_text(&mut editor, "ab\ncde");
    assert_eq!(editor.cursor_position(5, 7, 20, 10), (9, 9));
    assert_eq!(editor.cursor_position(5, 7, 4, 10), (8, 9));
    assert_eq!(editor.cursor_position(5, 7, 20, 2), (9, 8));
    assert_eq!(editor.cursor_position(5, 7, 0, 0), (6, 8));
    type_text(&mut editor, "\n");
    assert_eq!(editor.cursor_position(0, 0, 20, 10), (1, 3));
    assert_eq!(editor.cursor_position(u16::MAX, u16::MAX - 1, 20, 10), (u16::MAX, u16::MAX));
}

#[test]
fn report_lists_the_counts() {
    let mut stats = CardStats {
        total_cards_in_db: 12,
        num_cards: 10,
        new_cards: 4,
        reviewed_cards: 6,
        due_cards: 5,
        overdue_cards: 1,
        upcoming_week: vec![],
        upcoming_month: 3,
    };
    assert_eq!(
        stats_report(&stats),
        vec![
            "Number of cards 10 • new 4 • reviewed 6".to_string(),
            "Due now: 5 (1 overdue)".to_string(),
            "Due in next 30 days: 3".to_string(),
            "Total number of cards indexed in DB: 12".to_string(),
        ]
    );
    stats.upcoming_week = vec![
        UpcomingCount { day: "2024-01-02".to_string(), count: 2 },
        UpcomingCount { day: "2024-01-05".to_string(), count: 100 },
    ];
    assert_eq!(
        stats_report(&stats),
        vec![
            "Number of cards 10 • new 4 • reviewed 6".to_string(),
            "Due now: 5 (1 overdue)".to_string(),
            "Due in next 7 days: 102".to_string(),
            "  2024-01-02: 2".to_string(),
            "  2024-01-05: 100".to_string(),
            "Due in next 30 days: 3".to_string(),
            "Total number of cards indexed in DB: 12".to_string(),
        ]
    );
    stats.upcoming_week[0].count = usize::MAX;
    assert_eq!(stats_report(&stats)[2], format!("Due in next 7 days: {}", usize::MAX));
    assert_eq!(stats_report(&CardStats::default())[0], "Number of cards 0 • new 0 • reviewed 0");
}
