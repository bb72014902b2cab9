use repeater::card::{Card, CardContent, CardIndex};
use repeater::crud::{performance_of, CardRow, StoreError, DB};
use repeater::fsrs::{update_performance, Performance, ReviewStatus};

const DAY: i64 = 86_400;
// 2023-11-14T22:13:20Z
const NOW: i64 = 1_700_000_000;

fn card(hash: &str) -> Card {
    Card {
        file_path: format!("{hash}.md"),
        file_card_range: (0, 2),
        content: CardContent::Basic { question: hash.to_string(), answer: "a".to_string() },
        card_hash: hash.to_string(),
    }
}

fn row(hash: &str, due_date: Option<i64>, review_count: i64) -> CardRow {
    CardRow {
        card_hash: hash.to_string(),
        added_at: 0,
        last_reviewed_at: due_date.map(|_| 0),
        stability: due_date.map(|_| 3000),
        difficulty: due_date.map(|_| 5000),
        interval_raw: due_date.map(|_| 3000),
        interval_days: 3,
        due_date,
        review_count,
    }
}

fn hashes(cards: &[Card]) -> Vec<String> {
    cards.iter().map(|c| c.card_hash.clone()).collect()
}

#[test]
fn add_card_inserts_once() {
    let mut db = DB::new();
    assert!(!db.card_exists(&card("a")));
    db.add_card(&card("a"), 10);
    db.add_card(&card("a"), 20);
    assert!(db.card_exists(&card("a")));
    assert_eq!(db.rows().len(), 1);
    let r = &db.rows()[0];
    assert_eq!(r.card_hash, "a");
    assert_eq!(r.added_at, 10);
    assert_eq!(r.review_count, 0);
    assert_eq!(r.interval_days, 0);
    assert_eq!(r.due_date, None);
    assert_eq!(r.last_reviewed_at, None);
    assert_eq!(r.stability, None);
    assert_eq!(r.difficulty, None);
    assert_eq!(r.interval_raw, None);
}

#[test]
fn batch_insert_is_idempotent_and_leaves_reviewed_rows() {
    let mut db = DB::new();
    let cards = vec![card("a"), card("b"), card("a")];
    db.add_cards_batch(&cards, 10);
    assert_eq!(db.rows().len(), 2);
    assert_eq!(db.update_card_performance(&card("a"), ReviewStatus::Pass, NOW), Ok(true));
    let before: Vec<String> = db.rows().iter().map(|r| format!("{r:?}")).collect();
    db.add_cards_batch(&cards, 99);
    let after: Vec<String> = db.rows().iter().map(|r| format!("{r:?}")).collect();
    assert_eq!(before, after);
    assert_eq!(db.rows()[0].review_count, 1);
    db.add_cards_batch(&vec![card("c")], 99);
    assert_eq!(db.rows().len(), 3);
    assert_eq!(db.rows()[2].added_at, 99);
}

#[test]
fn get_performance_reads_new_and_reviewed() {
    let mut db = DB::new();
    assert_eq!(db.get_card_performance(&card("a")), Err(StoreError::NotFound));
    db.add_card(&card("a"), 0);
    assert_eq!(db.get_card_performance(&card("a")), Ok(Performance::New));
    assert_eq!(db.update_card_performance(&card("a"), ReviewStatus::Fail, NOW), Ok(true));
    let expected = update_performance(Performance::New, ReviewStatus::Fail, NOW);
    assert_eq!(db.get_card_performance(&card("a")), Ok(Performance::Reviewed(expected)));
    assert_eq!(db.update_card_performance(&card("a"), ReviewStatus::Pass, NOW + DAY), Ok(true));
    let second = update_performance(Performance::Reviewed(expected), ReviewStatus::Pass, NOW + DAY);
    assert_eq!(db.get_card_performance(&card("a")), Ok(Performance::Reviewed(second)));
    assert_eq!(db.rows()[0].review_count, 2);
    assert_eq!(db.rows()[0].added_at, 0);
    assert_eq!(db.row(&card("a")).unwrap().due_date, Some(second.due_date));
    assert!(db.row(&card("zz")).is_none());
}

#[test]
fn unknown_card_is_reported_not_written() {
    let mut db = DB::new();
    db.add_card(&card("a"), 0);
    assert_eq!(db.update_card_performance(&card("nope"), ReviewStatus::Pass, NOW), Ok(false));
    assert_eq!(db.rows().len(), 1);
    assert_eq!(db.rows()[0].review_count, 0);
}

#[test]
fn corrupt_rows_are_refused() {
    let mut broken = row("a", Some(5), 2);
    broken.stability = None;
    assert_eq!(performance_of(&broken), None);
    assert_eq!(performance_of(&row("a", Some(5), -1)), None);
    let mut negative = row("a", Some(5), 1);
    negative.interval_days = -3;
    assert_eq!(performance_of(&negative), None);
    assert_eq!(performance_of(&row("a", None, 0)), Some(Performance::New));

    let mut db = DB::from_rows(vec![broken, row("full", Some(5), i64::MAX)]).unwrap();
    assert_eq!(db.get_card_performance(&card("a")), Err(StoreError::Corrupt));
    assert_eq!(
        db.update_card_performance(&card("a"), ReviewStatus::Pass, NOW),
        Err(StoreError::Corrupt)
    );
    assert_eq!(
        db.update_card_performance(&card("full"), ReviewStatus::Pass, NOW),
        Err(StoreError::Corrupt)
    );
    assert_eq!(db.rows()[1].review_count, i64::MAX);
    assert!(DB::from_rows(vec![row("a", None, 0), row("b", None, 0), row("a", None, 0)]).is_err());
}

#[test]
fn due_today_keeps_row_order_and_candidates() {
    let db = DB::from_rows(vec![
        row("stale", None, 0),
        row("later", Some(NOW + 1), 1),
        row("new", None, 0),
        row("exact", Some(NOW), 1),
        row("past", Some(NOW - 5), 1),
    ])
    .unwrap();
    let index = CardIndex::from_cards(vec![card("past"), card("exact"), card("later"), card("new"), card("unseen")]);
    let due = db.due_today(&index, None, NOW);
    assert_eq!(hashes(&due), vec!["new", "exact", "past"]);
    assert_eq!(due[0].file_path, "new.md");
    assert_eq!(hashes(&db.due_today(&index, Some(2), NOW)), vec!["new", "exact"]);
    assert_eq!(hashes(&db.due_today(&index, Some(0), NOW)), Vec::<String>::new());
    assert_eq!(hashes(&db.due_today(&index, Some(10), NOW)), vec!["new", "exact", "past"]);
    assert_eq!(hashes(&db.due_today(&index, None, NOW + 1)), vec!["later", "new", "exact", "past"]);
    let nothing = CardIndex::from_cards(vec![]);
    assert!(db.due_today(&nothing, None, NOW).is_empty());
}

#[test]
fn card_index_keeps_last_of_each_identity() {
    let mut second = card("a");
    second.file_path = "second.md".to_string();
    let index = CardIndex::from_cards(vec![card("a"), card("b"), second]);
    assert_eq!(index.len(), 2);
    assert!(!index.is_empty());
    assert_eq!(hashes(index.cards()), vec!["b", "a"]);
    assert_eq!(index.get(&"a".to_string()).unwrap().file_path, "second.md");
    assert!(index.contains_key(&"b".to_string()));
    assert!(!index.contains_key(&"c".to_string()));
    assert!(index.get(&"c".to_string()).is_none());
}

#[test]
fn stats_on_empty_candidates_count_only_the_store() {
    let db = DB::from_rows(vec![row("a", None, 0), row("b", Some(NOW + DAY), 2)]).unwrap();
    let stats = db.collection_stats(&CardIndex::from_cards(vec![]), NOW);
    assert_eq!(stats.total_cards_in_db, 2);
    assert_eq!(stats.num_cards, 0);
    assert_eq!(stats.new_cards, 0);
    assert_eq!(stats.reviewed_cards, 0);
    assert_eq!(stats.due_cards, 0);
    assert_eq!(stats.overdue_cards, 0);
    assert_eq!(stats.upcoming_month, 0);
    assert!(stats.upcoming_week.is_empty());
}

#[test]
fn stats_partition_rows_of_loaded_cards() {
    let db = DB::from_rows(vec![
        row("new", None, 0),
        row("overdue", Some(NOW - 1), 1),
        row("exact", Some(NOW), 1),
        row("tonight", Some(NOW + 3600), 1),
        row("tomorrow", Some(NOW + DAY), 1),
        row("tomorrow2", Some(NOW + DAY + 60), 3),
        row("week", Some(NOW + 7 * DAY), 1),
        row("week_plus", Some(NOW + 7 * DAY + 1), 1),
        row("month", Some(NOW + 30 * DAY), 1),
        row("far", Some(NOW + 30 * DAY + 1), 1),
        row("unloaded", Some(NOW + DAY), 1),
    ])
    .unwrap();
    let loaded = vec![
        "new", "overdue", "exact", "tonight", "tomorrow", "tomorrow2", "week", "week_plus", "month",
        "far", "not_in_store",
    ];
    let index = CardIndex::from_cards(loaded.into_iter().map(card).collect());
    let stats = db.collection_stats(&index, NOW);
    assert_eq!(stats.total_cards_in_db, 11);
    assert_eq!(stats.num_cards, 11);
    assert_eq!(stats.new_cards, 1);
    assert_eq!(stats.reviewed_cards, 9);
    assert_eq!(stats.due_cards, 3);
    assert_eq!(stats.overdue_cards, 1);
    assert_eq!(stats.upcoming_month, 6);
    let week: Vec<(String, usize)> =
        stats.upcoming_week.iter().map(|b| (b.day.clone(), b.count)).collect();
    assert_eq!(
        week,
        vec![
            ("2023-11-14".to_string(), 1),
            ("2023-11-15".to_string(), 2),
            ("2023-11-21".to_string(), 1),
        ]
    );
}

#[test]
fn stats_days_before_the_epoch_are_calendar_days() {
    let now = -DAY - 1;
    let db = DB::from_rows(vec![row("a", Some(-DAY), 1), row("b", Some(-1), 1), row("c", Some(0), 1)])
        .unwrap();
    let index = CardIndex::from_cards(vec![card("a"), card("b"), card("c")]);
    let stats = db.collection_stats(&index, now);
    let week: Vec<(String, usize)> =
        stats.upcoming_week.iter().map(|b| (b.day.clone(), b.count)).collect();
    assert_eq!(
        week,
        vec![("1969-12-31".to_string(), 2), ("1970-01-01".to_string(), 1)]
    );
}
