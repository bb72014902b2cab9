//! The table of cards: insertion, review state, the cards that are due, and counts.

use crate::card::{card_views, card_with, has_card, Card, CardIndex, CardView};
use crate::fsrs::{
    default_parameters, lemma_stability_in_range, lemma_update_well_formed, next_stability,
    spec_update, update_performance, Performance, ReviewStatus, ReviewedPerformance,
};
use vstd::prelude::*;

verus! {

/// One row of the table of cards: what is kept of a card between sittings.
#[derive(Debug)]
pub struct CardRow {
    /// The card's identity, the key of the table.
    pub card_hash: String,
    /// When the card was first seen.
    pub added_at: i64,
    pub last_reviewed_at: Option<i64>,
    pub stability: Option<u64>,
    pub difficulty: Option<u64>,
    pub interval_raw: Option<u64>,
    pub interval_days: i64,
    pub due_date: Option<i64>,
    pub review_count: i64,
}

/// The mathematical value of a `CardRow`.
pub struct RowView {
    pub card_hash: Seq<char>,
    pub added_at: i64,
    pub last_reviewed_at: Option<i64>,
    pub stability: Option<u64>,
    pub difficulty: Option<u64>,
    pub interval_raw: Option<u64>,
    pub interval_days: i64,
    pub due_date: Option<i64>,
    pub review_count: i64,
}

impl View for CardRow {
    type V = RowView;

    open spec fn view(&self) -> RowView {
        RowView {
            card_hash: self.card_hash@,
            added_at: self.added_at,
            last_reviewed_at: self.last_reviewed_at,
            stability: self.stability,
            difficulty: self.difficulty,
            interval_raw: self.interval_raw,
            interval_days: self.interval_days,
            due_date: self.due_date,
            review_count: self.review_count,
        }
    }
}

impl Clone for CardRow {
    fn clone(&self) -> (r: CardRow)
        ensures
            r@ == self@,
    {
        CardRow {
            card_hash: self.card_hash.clone(),
            added_at: self.added_at,
            last_reviewed_at: self.last_reviewed_at,
            stability: self.stability,
            difficulty: self.difficulty,
            interval_raw: self.interval_raw,
            interval_days: self.interval_days,
            due_date: self.due_date,
            review_count: self.review_count,
        }
    }
}

/// Why the store could not answer.
#[derive(Clone, Copy, Debug, PartialEq, Eq, Structural)]
pub enum StoreError {
    /// No row has the identity that was asked for.
    NotFound,
    /// A row holds what no sequence of insertions and reviews leaves behind.
    Corrupt,
}

/// The views of the rows of `rows`, in order.
pub open spec fn row_views(rows: Seq<CardRow>) -> Seq<RowView> {
    Seq::new(rows.len(), |i: int| rows[i]@)
}

/// Whether `rows` holds a row for `hash`.
pub open spec fn has_row(rows: Seq<RowView>, hash: Seq<char>) -> bool {
    exists|i: int| 0 <= i < rows.len() && #[trigger] rows[i].card_hash == hash
}

/// Where in `rows` the row for `hash` stands.
pub open spec fn row_index(rows: Seq<RowView>, hash: Seq<char>) -> int
    recommends
        has_row(rows, hash),
{
    choose|i: int| 0 <= i < rows.len() && #[trigger] rows[i].card_hash == hash
}

/// Whether no identity has two rows.
pub open spec fn distinct_rows(rows: Seq<RowView>) -> bool {
    forall|i: int, j: int|
        0 <= i < j < rows.len() ==> #[trigger] rows[i].card_hash != #[trigger] rows[j].card_hash
}

/// The row of a card that was seen at `now` and never graded.
pub open spec fn fresh_row(hash: Seq<char>, now: i64) -> RowView {
    RowView {
        card_hash: hash,
        added_at: now,
        last_reviewed_at: None,
        stability: None,
        difficulty: None,
        interval_raw: None,
        interval_days: 0,
        due_date: None,
        review_count: 0,
    }
}

/// `rows` after `hash` was inserted at `now`: unchanged if it has a row, else with a fresh
/// row at the end.
pub open spec fn insert_one(rows: Seq<RowView>, hash: Seq<char>, now: i64) -> Seq<RowView> {
    if has_row(rows, hash) {
        rows
    } else {
        rows.push(fresh_row(hash, now))
    }
}

/// `rows` after the identities of `cards` were inserted in turn at `now`.
pub open spec fn insert_all(rows: Seq<RowView>, cards: Seq<CardView>, now: i64) -> Seq<RowView>
    decreases cards.len(),
{
    if cards.len() == 0 {
        rows
    } else {
        insert_one(insert_all(rows, cards.drop_last(), now), cards.last().card_hash, now)
    }
}

/// The review state that a row stands for: new if it counts no review, else the reviewed
/// state of its fields. A row that counts reviews and lacks a field stands for none.
pub open spec fn row_performance(row: RowView) -> Option<Performance> {
    if row.review_count == 0 {
        Some(Performance::New)
    } else if 0 < row.review_count <= usize::MAX && 0 <= row.interval_days <= usize::MAX
        && row.last_reviewed_at is Some && row.stability is Some && row.difficulty is Some
        && row.interval_raw is Some && row.due_date is Some {
        Some(
            Performance::Reviewed(
                ReviewedPerformance {
                    last_reviewed_at: row.last_reviewed_at->0,
                    stability: row.stability->0,
                    difficulty: row.difficulty->0,
                    interval_raw: row.interval_raw->0,
                    interval_days: row.interval_days as usize,
                    due_date: row.due_date->0,
                    review_count: row.review_count as usize,
                },
            ),
        )
    } else {
        None
    }
}

/// Whether one more review can be recorded in `row`: it stands for a state, and its count
/// can still grow.
pub open spec fn reviewable(row: RowView) -> bool {
    row_performance(row) is Some && row.review_count < usize::MAX && row.review_count < i64::MAX
}

/// `row` with the outcome `p` of a review written into it; identity and first-seen time
/// stay.
pub open spec fn reviewed_row(row: RowView, p: ReviewedPerformance) -> RowView {
    RowView {
        card_hash: row.card_hash,
        added_at: row.added_at,
        last_reviewed_at: Some(p.last_reviewed_at),
        stability: Some(p.stability),
        difficulty: Some(p.difficulty),
        interval_raw: Some(p.interval_raw),
        interval_days: p.interval_days as i64,
        due_date: Some(p.due_date),
        review_count: p.review_count as i64,
    }
}

/// The table after a review of the card `hash` with grade `status` at `now` was recorded:
/// the card's row holds the state that `spec_update` gives. Without such a row, or with one
/// that no review can be recorded in, nothing changes.
pub open spec fn recorded(rows: Seq<RowView>, hash: Seq<char>, status: ReviewStatus, now: i64) -> Seq<
    RowView,
> {
    if has_row(rows, hash) && reviewable(rows[row_index(rows, hash)]) {
        rows.update(
            row_index(rows, hash),
            reviewed_row(
                rows[row_index(rows, hash)],
                spec_update(row_performance(rows[row_index(rows, hash)])->0, status, now),
            ),
        )
    } else {
        rows
    }
}

/// What recording a review of the card `hash` reports: that nothing was written where the
/// card has no row, that the row is corrupt where it stands for no state or its count is
/// full, else that the row was written.
pub open spec fn record_outcome(rows: Seq<RowView>, hash: Seq<char>) -> Result<bool, StoreError> {
    if !has_row(rows, hash) {
        Ok(false)
    } else if !reviewable(rows[row_index(rows, hash)]) {
        Err(StoreError::Corrupt)
    } else {
        Ok(true)
    }
}

/// The index of the row of `rows` for `hash`.
fn find_row(rows: &Vec<CardRow>, hash: &String) -> (r: Option<usize>)
    ensures
        r is Some <==> has_row(row_views(rows@), hash@),
        r matches Some(i) ==> i < rows.len() && rows[i as int].card_hash@ == hash@,
        distinct_rows(row_views(rows@)) ==> (r matches Some(i) ==> i == row_index(
            row_views(rows@),
            hash@,
        )),
{
    let ghost views = row_views(rows@);
    let mut i: usize = 0;
    while i < rows.len()
        invariant
            i <= rows.len(),
            views == row_views(rows@),
            forall|j: int| 0 <= j < i ==> #[trigger] views[j].card_hash != hash@,
        decreases rows.len() - i,
    {
        if rows[i].card_hash == *hash {
            proof {
                assert(views[i as int].card_hash == hash@);
                if distinct_rows(views) {
                    let k = row_index(views, hash@);
                    assert(k == i);
                }
            }
            return Some(i);
        }
        i += 1;
    }
    None
}

/// The review state that `row` stands for.
pub fn performance_of(row: &CardRow) -> (r: Option<Performance>)
    ensures
        r == row_performance(row@),
{
    if row.review_count == 0 {
        return Some(Performance::New);
    }
    if row.review_count < 0 || row.interval_days < 0 {
        return None;
    }
    if row.review_count as u64 > usize::MAX as u64 || row.interval_days as u64 > usize::MAX as u64 {
        return None;
    }
    match (row.last_reviewed_at, row.stability, row.difficulty, row.interval_raw, row.due_date) {
        (Some(last_reviewed_at), Some(stability), Some(difficulty), Some(interval_raw), Some(due_date)) => Some(
            Performance::Reviewed(
                ReviewedPerformance {
                    last_reviewed_at,
                    stability,
                    difficulty,
                    interval_raw,
                    interval_days: row.interval_days as usize,
                    due_date,
                    review_count: row.review_count as usize,
                },
            ),
        ),
        _ => None,
    }
}

/// The table of cards, keyed by identity, its rows in the order in which they came.
pub struct DB {
    rows: Vec<CardRow>,
}

impl View for DB {
    type V = Seq<RowView>;

    closed spec fn view(&self) -> Seq<RowView> {
        row_views(self.rows@)
    }
}

impl DB {
    /// No identity has two rows.
    pub open spec fn well_formed(&self) -> bool {
        distinct_rows(self@)
    }

    /// The empty table.
    pub fn new() -> (db: DB)
        ensures
            db.well_formed(),
            db@ == Seq::<RowView>::empty(),
    {
        let db = DB { rows: Vec::new() };
        assert(db@ =~= Seq::<RowView>::empty());
        db
    }

    /// The table that holds `rows`, in their order; refused if two rows share an identity.
    pub fn from_rows(rows: Vec<CardRow>) -> (r: Result<DB, StoreError>)
        ensures
            match r {
                Ok(db) => db.well_formed() && db@ == row_views(rows@),
                Err(e) => e == StoreError::Corrupt && !distinct_rows(row_views(rows@)),
            },
    {
        let ghost views = row_views(rows@);
        let mut i: usize = 0;
        while i < rows.len()
            invariant
                i <= rows.len(),
                views == row_views(rows@),
                forall|a: int, b: int|
                    0 <= a < b < i ==> #[trigger] views[a].card_hash != #[trigger] views[b].card_hash,
            decreases rows.len() - i,
        {
            let mut j: usize = 0;
            while j < i
                invariant
                    j <= i < rows.len(),
                    views == row_views(rows@),
                    forall|a: int| 0 <= a < j ==> #[trigger] views[a].card_hash != views[i as int].card_hash,
                decreases i - j,
            {
                if rows[j].card_hash == rows[i].card_hash {
                    assert(views[j as int].card_hash == views[i as int].card_hash);
                    return Err(StoreError::Corrupt);
                }
                j += 1;
            }
            i += 1;
        }
        Ok(DB { rows })
    }

    /// The rows, in their order.
    pub fn rows(&self) -> (rows: &Vec<CardRow>)
        ensures
            row_views(rows@) == self@,
    {
        &self.rows
    }

    /// The row of `card`, if it has one.
    pub fn row(&self, card: &Card) -> (r: Option<&CardRow>)
        requires
            self.well_formed(),
        ensures
            r is Some <==> has_row(self@, card@.card_hash),
            r matches Some(row) ==> row@ == self@[row_index(self@, card@.card_hash)],
    {
        match find_row(&self.rows, &card.card_hash) {
            Some(i) => Some(&self.rows[i]),
            None => None,
        }
    }

    /// Makes sure that `card` has a row: a card that has none gets a fresh one, first seen
    /// at `now`; the row of a card that has one is left as it is.
    pub fn add_card(&mut self, card: &Card, now: i64)
        requires
            old(self).well_formed(),
        ensures
            final(self).well_formed(),
            final(self)@ == insert_one(old(self)@, card@.card_hash, now),
    {
        if find_row(&self.rows, &card.card_hash).is_none() {
            let ghost before = self@;
            self.rows.push(
                CardRow {
                    card_hash: card.card_hash.clone(),
                    added_at: now,
                    last_reviewed_at: None,
                    stability: None,
                    difficulty: None,
                    interval_raw: None,
                    interval_days: 0,
                    due_date: None,
                    review_count: 0,
                },
            );
            proof {
                assert(self@ =~= before.push(fresh_row(card@.card_hash, now)));
                assert forall|i: int, j: int| 0 <= i < j < self@.len() implies #[trigger] self@[i].card_hash
                    != #[trigger] self@[j].card_hash by {
                    if j == before.len() {
                        assert(before[i].card_hash != card@.card_hash);
                    } else {
                        assert(before[i].card_hash != before[j].card_hash);
                    }
                }
            }
        }
    }

    /// Makes sure that every card of `cards` has a row, as `add_card` does for one. Rows
    /// that were there stay as they were and where they were.
    pub fn add_cards_batch(&mut self, cards: &Vec<Card>, now: i64)
        requires
            old(self).well_formed(),
        ensures
            final(self).well_formed(),
            final(self)@ == insert_all(old(self)@, card_views(cards@), now),
    {
        let ghost all = card_views(cards@);
        let mut i: usize = 0;
        assert(all.take(0) =~= Seq::<CardView>::empty());
        while i < cards.len()
            invariant
                i <= cards.len(),
                all == card_views(cards@),
                self.well_formed(),
                self@ == insert_all(old(self)@, all.take(i as int), now),
            decreases cards.len() - i,
        {
            proof {
                assert(all.take(i + 1).drop_last() == all.take(i as int));
                assert(all.take(i + 1).last() == cards[i as int]@);
            }
            self.add_card(&cards[i], now);
            i += 1;
        }
        assert(all.take(cards.len() as int) == all);
    }

    /// Whether `card` has a row.
    pub fn card_exists(&self, card: &Card) -> (r: bool)
        ensures
            r == has_row(self@, card@.card_hash),
    {
        find_row(&self.rows, &card.card_hash).is_some()
    }

    /// The review state of `card`: new if its row counts no review, else what the row
    /// holds.
    pub fn get_card_performance(&self, card: &Card) -> (r: Result<Performance, StoreError>)
        requires
            self.well_formed(),
        ensures
            match r {
                Ok(p) => has_row(self@, card@.card_hash) && row_performance(
                    self@[row_index(self@, card@.card_hash)],
                ) == Some(p),
                Err(StoreError::NotFound) => !has_row(self@, card@.card_hash),
                Err(StoreError::Corrupt) => has_row(self@, card@.card_hash) && row_performance(
                    self@[row_index(self@, card@.card_hash)],
                ) is None,
            },
    {
        match find_row(&self.rows, &card.card_hash) {
            None => Err(StoreError::NotFound),
            Some(i) => match performance_of(&self.rows[i]) {
                Some(p) => Ok(p),
                None => Err(StoreError::Corrupt),
            },
        }
    }

    /// Records a review of `card` with grade `review_status` at `now`: the card's state
    /// moves as `update_performance` says and is written to its row, of which identity
    /// and first-seen time stay. Says whether a row was written; none is where the card
    /// has no row. No other row changes.
    pub fn update_card_performance(&mut self, card: &Card, review_status: ReviewStatus, now: i64) -> (r:
        Result<bool, StoreError>)
        requires
            old(self).well_formed(),
        ensures
            final(self).well_formed(),
            final(self)@ == recorded(old(self)@, card@.card_hash, review_status, now),
            r == record_outcome(old(self)@, card@.card_hash),
    {
        let found = find_row(&self.rows, &card.card_hash);
        let i = match found {
            None => {
                return Ok(false);
            },
            Some(i) => i,
        };
        let prior = match performance_of(&self.rows[i]) {
            None => {
                return Err(StoreError::Corrupt);
            },
            Some(p) => p,
        };
        if self.rows[i].review_count == i64::MAX || self.rows[i].review_count as u64
            >= usize::MAX as u64 {
            return Err(StoreError::Corrupt);
        }
        let next = update_performance(prior, review_status, now);
        let ghost before = self@;
        let row = CardRow {
            card_hash: self.rows[i].card_hash.clone(),
            added_at: self.rows[i].added_at,
            last_reviewed_at: Some(next.last_reviewed_at),
            stability: Some(next.stability),
            difficulty: Some(next.difficulty),
            interval_raw: Some(next.interval_raw),
            interval_days: next.interval_days as i64,
            due_date: Some(next.due_date),
            review_count: next.review_count as i64,
        };
        self.rows.set(i, row);
        proof {
            assert(self@ =~= before.update(i as int, reviewed_row(before[i as int], next)));
            assert forall|a: int, b: int| 0 <= a < b < self@.len() implies #[trigger] self@[a].card_hash
                != #[trigger] self@[b].card_hash by {
                assert(self@[a].card_hash == before[a].card_hash);
                assert(self@[b].card_hash == before[b].card_hash);
            }
        }
        Ok(true)
    }
}

/// Whether a row is due at `now`: it has no due date, or one that has come.
pub open spec fn is_due(row: RowView, now: i64) -> bool {
    row.due_date is None || row.due_date->0 <= now
}

/// The loaded cards whose rows are due at `now`, in the order of the rows.
pub open spec fn due_cards(rows: Seq<RowView>, cards: Seq<CardView>, now: i64) -> Seq<CardView>
    decreases rows.len(),
{
    if rows.len() == 0 {
        Seq::empty()
    } else if is_due(rows.last(), now) && has_card(cards, rows.last().card_hash) {
        due_cards(rows.drop_last(), cards, now).push(card_with(cards, rows.last().card_hash))
    } else {
        due_cards(rows.drop_last(), cards, now)
    }
}

/// The first `limit` items of `items`, or all of them where there is no limit or there are
/// no more.
pub open spec fn capped(items: Seq<CardView>, limit: Option<usize>) -> Seq<CardView> {
    match limit {
        Some(n) => if n < items.len() {
            items.take(n as int)
        } else {
            items
        },
        None => items,
    }
}

/// The due cards of the first rows are the first of the due cards of all rows.
pub proof fn lemma_due_cards_grow(rows: Seq<RowView>, cards: Seq<CardView>, now: i64, i: int)
    requires
        0 <= i <= rows.len(),
    ensures
        due_cards(rows.take(i), cards, now).len() <= due_cards(rows, cards, now).len(),
        due_cards(rows, cards, now).take(due_cards(rows.take(i), cards, now).len() as int)
            == due_cards(rows.take(i), cards, now),
    decreases rows.len(),
{
    let part = due_cards(rows.take(i), cards, now);
    let whole = due_cards(rows, cards, now);
    if i == rows.len() {
        assert(rows.take(i) == rows);
        assert(whole.take(whole.len() as int) == whole);
    } else {
        lemma_due_cards_grow(rows.drop_last(), cards, now, i);
        assert(rows.drop_last().take(i) == rows.take(i));
        let shorter = due_cards(rows.drop_last(), cards, now);
        assert(whole.take(part.len() as int) =~= shorter.take(part.len() as int));
    }
}

/// What one more row adds to the due cards.
pub proof fn lemma_due_cards_step(rows: Seq<RowView>, cards: Seq<CardView>, now: i64, i: int)
    requires
        0 <= i < rows.len(),
    ensures
        due_cards(rows.take(i + 1), cards, now) == if is_due(rows[i], now) && has_card(
            cards,
            rows[i].card_hash,
        ) {
            due_cards(rows.take(i), cards, now).push(card_with(cards, rows[i].card_hash))
        } else {
            due_cards(rows.take(i), cards, now)
        },
{
    assert(rows.take(i + 1).drop_last() == rows.take(i));
    assert(rows.take(i + 1).last() == rows[i]);
}

/// Once the due cards of the first rows fill the limit, they are the capped answer.
pub proof fn lemma_due_cards_full(rows: Seq<RowView>, cards: Seq<CardView>, now: i64, i: int, n: usize)
    requires
        0 <= i <= rows.len(),
        due_cards(rows.take(i), cards, now).len() == n,
    ensures
        capped(due_cards(rows, cards, now), Some(n)) == due_cards(rows.take(i), cards, now),
{
    lemma_due_cards_grow(rows, cards, now, i);
    let whole = due_cards(rows, cards, now);
    if !(n < whole.len()) {
        assert(whole.take(n as int) == whole);
    }
}

impl DB {
    /// The loaded cards that are due at `now`: those of `cards` whose row has no due date
    /// or one that has come, in the order of their rows, and no more than `card_limit` of
    /// them. A row whose identity is not among `cards` gives nothing.
    pub fn due_today(&self, cards: &CardIndex, card_limit: Option<usize>, now: i64) -> (due: Vec<
        Card,
    >)
        ensures
            card_views(due@) == capped(due_cards(self@, cards@, now), card_limit),
    {
        let ghost views = self@;
        let mut due: Vec<Card> = Vec::new();
        let mut i: usize = 0;
        assert(views.take(0) =~= Seq::<RowView>::empty());
        assert(card_views(due@) =~= Seq::<CardView>::empty());
        loop
            invariant
                i <= self.rows.len(),
                views == row_views(self.rows@),
                card_views(due@) == due_cards(views.take(i as int), cards@, now),
                card_limit matches Some(n) ==> due.len() <= n,
            ensures
                card_views(due@) == capped(due_cards(views, cards@, now), card_limit),
            decreases self.rows.len() - i,
        {
            if i >= self.rows.len() {
                assert(views.take(i as int) == views);
                break;
            }
            if let Some(n) = card_limit {
                if due.len() >= n {
                    proof {
                        lemma_due_cards_full(views, cards@, now, i as int, n);
                    }
                    break;
                }
            }
            proof {
                lemma_due_cards_step(views, cards@, now, i as int);
            }
            let row = &self.rows[i];
            let row_due = match row.due_date {
                None => true,
                Some(d) => d <= now,
            };
            if row_due {
                if let Some(card) = cards.get(&row.card_hash) {
                    let ghost before = card_views(due@);
                    due.push(card.clone());
                    assert(card_views(due@) =~= before.push(card@));
                }
            }
            i += 1;
        }
        due
    }
}

/// Seconds in a day.
pub const DAY: i64 = 86_400;

/// How far ahead the weekly count looks: seven days, in seconds.
pub const WEEK_HORIZON: i64 = 604_800;

/// How far ahead the monthly count looks: thirty days, in seconds.
pub const MONTH_HORIZON: i64 = 2_592_000;

/// The calendar days that the week ahead can touch: today and the seven that follow.
pub const WEEK_DAYS: usize = 8;

/// The number of cards due on one calendar day.
#[derive(Debug)]
pub struct UpcomingCount {
    /// The day, as year, month and day.
    pub day: String,
    pub count: usize,
}

impl Clone for UpcomingCount {
    fn clone(&self) -> (r: UpcomingCount)
        ensures
            r.day@ == self.day@,
            r.count == self.count,
    {
        UpcomingCount { day: self.day.clone(), count: self.count }
    }
}

/// Counts over the table, taken at one moment.
#[derive(Debug, Default)]
pub struct CardStats {
    /// All rows, loaded or not.
    pub total_cards_in_db: usize,
    /// The loaded cards.
    pub num_cards: usize,
    pub new_cards: usize,
    pub reviewed_cards: usize,
    pub due_cards: usize,
    pub overdue_cards: usize,
    /// The days ahead on which cards fall due, in order, each with its count.
    pub upcoming_week: Vec<UpcomingCount>,
    pub upcoming_month: usize,
}

/// What a count counts.
pub enum Tally {
    /// Rows that were never graded.
    New,
    /// Rows that were graded.
    Reviewed,
    /// Rows that are due.
    Due,
    /// Rows whose due date lies before now.
    Overdue,
    /// Rows that fall due within the week, on the day this many days after today.
    Week(int),
    /// Rows that fall due within thirty days.
    Month,
}

/// The number of the calendar day that holds the moment `t`, counted from the epoch.
pub open spec fn day_number(t: int) -> int {
    t / (DAY as int)
}

/// Whether `row` is counted under `what` at `now`. Only rows of loaded cards are.
pub open spec fn counts_as(row: RowView, cards: Seq<CardView>, now: i64, what: Tally) -> bool {
    has_card(cards, row.card_hash) && match what {
        Tally::New => row.review_count == 0,
        Tally::Reviewed => row.review_count != 0,
        Tally::Due => is_due(row, now),
        Tally::Overdue => row.due_date is Some && row.due_date->0 < now,
        Tally::Week(k) => row.due_date is Some && now < row.due_date->0 <= now + WEEK_HORIZON
            && day_number(row.due_date->0 as int) == day_number(now as int) + k,
        Tally::Month => row.due_date is Some && now < row.due_date->0 <= now + MONTH_HORIZON,
    }
}

/// The number of rows of `rows` that are counted under `what` at `now`.
pub open spec fn tally(rows: Seq<RowView>, cards: Seq<CardView>, now: i64, what: Tally) -> nat
    decreases rows.len(),
{
    if rows.len() == 0 {
        0
    } else {
        tally(rows.drop_last(), cards, now, what) + if counts_as(rows.last(), cards, now, what) {
            1nat
        } else {
            0nat
        }
    }
}

/// The date on which the moment `moment` falls, written as year, month and day with
/// hyphens between; none where the calendar does not reach.
pub uninterp spec fn spec_date_label(moment: int) -> Option<Seq<char>>;

/// The due date of the first row of `rows` that is counted under `what` at `now`.
pub open spec fn first_due(rows: Seq<RowView>, cards: Seq<CardView>, now: i64, what: Tally) -> Option<
    i64,
>
    decreases rows.len(),
{
    if rows.len() == 0 {
        None
    } else if first_due(rows.drop_last(), cards, now, what) is Some {
        first_due(rows.drop_last(), cards, now, what)
    } else if counts_as(rows.last(), cards, now, what) {
        rows.last().due_date
    } else {
        None
    }
}

/// The days of the week ahead on which loaded cards fall due, from today up to the day
/// `upto` days on, each with its date and its count. The date of a day is the date of the
/// first due date that falls on it; a day whose date cannot be written is left out.
pub open spec fn week_ahead(rows: Seq<RowView>, cards: Seq<CardView>, now: i64, upto: int) -> Seq<
    (Seq<char>, nat),
>
    decreases upto,
{
    if upto <= 0 {
        Seq::empty()
    } else {
        let before = week_ahead(rows, cards, now, upto - 1);
        match first_due(rows, cards, now, Tally::Week(upto - 1)) {
            Some(due) => match spec_date_label(due as int) {
                Some(label) => before.push(
                    (label, tally(rows, cards, now, Tally::Week(upto - 1))),
                ),
                None => before,
            },
            None => before,
        }
    }
}

/// The days and counts of `buckets`, in order.
pub open spec fn bucket_views(buckets: Seq<UpcomingCount>) -> Seq<(Seq<char>, nat)> {
    Seq::new(buckets.len(), |i: int| (buckets[i].day@, buckets[i].count as nat))
}

/// `chrono::DateTime::from_timestamp` gives the moment in UTC, or none where the calendar
/// does not reach; `format` with year, month and day writes its date. The result depends
/// on the moment alone.
#[verifier::external_body]
fn day_label(moment: i64) -> (label: Option<String>)
    ensures
        label is Some <==> spec_date_label(moment as int) is Some,
        label matches Some(text) ==> text@ == spec_date_label(moment as int)->0,
{
    match chrono::DateTime::from_timestamp(moment, 0) {
        Some(t) => Some(t.format("%Y-%m-%d").to_string()),
        None => None,
    }
}

/// The number of the calendar day that holds `t`.
fn day_of(t: i64) -> (d: i64)
    ensures
        d == day_number(t as int),
{
    if t >= 0 {
        t / DAY
    } else {
        let below: i64 = -1 - t;
        let q: i64 = below / DAY;
        proof {
            let r = below as int % (DAY as int);
            vstd::arithmetic::div_mod::lemma_fundamental_div_mod(below as int, DAY as int);
            assert(t as int == (-1 - q) * DAY + (DAY - 1 - r)) by (nonlinear_arith)
                requires
                    below as int == DAY * (q as int) + r,
                    below as int == -1 - t,
            ;
            vstd::arithmetic::div_mod::lemma_fundamental_div_mod_converse(
                t as int,
                DAY as int,
                -1 - q,
                DAY - 1 - r,
            );
        }
        -1 - q
    }
}

/// What one more row adds to a count.
pub proof fn lemma_tally_step(rows: Seq<RowView>, cards: Seq<CardView>, now: i64, what: Tally, i: int)
    requires
        0 <= i < rows.len(),
    ensures
        tally(rows.take(i + 1), cards, now, what) == tally(rows.take(i), cards, now, what) + if counts_as(
            rows[i],
            cards,
            now,
            what,
        ) {
            1nat
        } else {
            0nat
        },
        tally(rows.take(i + 1), cards, now, what) <= i + 1,
    decreases i,
{
    assert(rows.take(i + 1).drop_last() == rows.take(i));
    assert(rows.take(i + 1).last() == rows[i]);
    if i > 0 {
        lemma_tally_step(rows, cards, now, what, i - 1);
    } else {
        assert(rows.take(0).len() == 0);
    }
}

/// What one more row adds to the first due date, and that there is one exactly where
/// something is counted.
pub proof fn lemma_first_due_step(rows: Seq<RowView>, cards: Seq<CardView>, now: i64, what: Tally, i: int)
    requires
        0 <= i < rows.len(),
    ensures
        first_due(rows.take(i + 1), cards, now, what) == if first_due(
            rows.take(i),
            cards,
            now,
            what,
        ) is Some {
            first_due(rows.take(i), cards, now, what)
        } else if counts_as(rows[i], cards, now, what) {
            rows[i].due_date
        } else {
            None
        },
{
    assert(rows.take(i + 1).drop_last() == rows.take(i));
    assert(rows.take(i + 1).last() == rows[i]);
}

/// A due date within the week ahead falls on today or one of the seven days after it.
pub proof fn lemma_week_day(now: i64, due: i64)
    requires
        now < due <= now + WEEK_HORIZON,
    ensures
        0 <= day_number(due as int) - day_number(now as int) < WEEK_DAYS,
{
}

/// The weekly list, from the counts of the days and the first due date of each day that
/// has any.
fn week_list(counts: &Vec<usize>, samples: &Vec<i64>, Ghost(rows): Ghost<Seq<RowView>>, Ghost(
    cards,
): Ghost<Seq<CardView>>, now: i64) -> (list: Vec<UpcomingCount>)
    requires
        counts.len() == WEEK_DAYS,
        samples.len() == WEEK_DAYS,
        forall|k: int|
            0 <= k < WEEK_DAYS ==> #[trigger] counts[k] == tally(rows, cards, now, Tally::Week(k))
                && first_due(rows, cards, now, Tally::Week(k)) == if counts[k] > 0 {
                Some(samples[k])
            } else {
                None
            },
    ensures
        bucket_views(list@) == week_ahead(rows, cards, now, WEEK_DAYS as int),
{
    let mut list: Vec<UpcomingCount> = Vec::new();
    let mut k: usize = 0;
    assert(bucket_views(list@) =~= Seq::<(Seq<char>, nat)>::empty());
    while k < WEEK_DAYS
        invariant
            k <= WEEK_DAYS,
            counts.len() == WEEK_DAYS,
            samples.len() == WEEK_DAYS,
            forall|k: int|
                0 <= k < WEEK_DAYS ==> #[trigger] counts[k] == tally(
                    rows,
                    cards,
                    now,
                    Tally::Week(k),
                ) && first_due(rows, cards, now, Tally::Week(k)) == if counts[k] > 0 {
                    Some(samples[k])
                } else {
                    None
                },
            bucket_views(list@) == week_ahead(rows, cards, now, k as int),
        decreases WEEK_DAYS - k,
    {
        assert(counts[k as int] == tally(rows, cards, now, Tally::Week(k as int)));
        if counts[k] > 0 {
            if let Some(day) = day_label(samples[k]) {
                let ghost before = bucket_views(list@);
                let ghost label = day@;
                list.push(UpcomingCount { day, count: counts[k] });
                assert(bucket_views(list@) =~= before.push((label, counts[k as int] as nat)));
            }
        }
        k += 1;
    }
    list
}

impl DB {
    /// Counts over the table at `now`. `total_cards_in_db` counts every row. All other
    /// counts are of the rows of loaded cards only: those never graded and those graded;
    /// those due, which are the ones without a due date and the ones whose due date has
    /// come; of these the overdue, whose due date lies before `now`; and of those not yet
    /// due, the ones that fall due within seven days, by calendar day, and within thirty.
    pub fn collection_stats(&self, cards: &CardIndex, now: i64) -> (stats: CardStats)
        ensures
            stats.total_cards_in_db == self@.len(),
            stats.num_cards == cards@.len(),
            stats.new_cards == tally(self@, cards@, now, Tally::New),
            stats.reviewed_cards == tally(self@, cards@, now, Tally::Reviewed),
            stats.due_cards == tally(self@, cards@, now, Tally::Due),
            stats.overdue_cards == tally(self@, cards@, now, Tally::Overdue),
            stats.upcoming_month == tally(self@, cards@, now, Tally::Month),
            bucket_views(stats.upcoming_week@) == week_ahead(self@, cards@, now, WEEK_DAYS as int),
    {
        let ghost views = self@;
        let today = day_of(now);
        let mut new_cards: usize = 0;
        let mut reviewed_cards: usize = 0;
        let mut due_cards: usize = 0;
        let mut overdue_cards: usize = 0;
        let mut upcoming_month: usize = 0;
        let mut counts: Vec<usize> = vec![0, 0, 0, 0, 0, 0, 0, 0];
        let mut samples: Vec<i64> = vec![0, 0, 0, 0, 0, 0, 0, 0];
        let mut i: usize = 0;
        assert(views.take(0).len() == 0);
        loop
            invariant
                i <= self.rows.len(),
                views == row_views(self.rows@),
                today == day_number(now as int),
                counts.len() == WEEK_DAYS,
                samples.len() == WEEK_DAYS,
                new_cards == tally(views.take(i as int), cards@, now, Tally::New) <= i,
                reviewed_cards == tally(views.take(i as int), cards@, now, Tally::Reviewed) <= i,
                due_cards == tally(views.take(i as int), cards@, now, Tally::Due) <= i,
                overdue_cards == tally(views.take(i as int), cards@, now, Tally::Overdue) <= i,
                upcoming_month == tally(views.take(i as int), cards@, now, Tally::Month) <= i,
                forall|k: int|
                    0 <= k < WEEK_DAYS ==> #[trigger] counts[k] == tally(
                        views.take(i as int),
                        cards@,
                        now,
                        Tally::Week(k),
                    ) && counts[k] <= i && first_due(
                        views.take(i as int),
                        cards@,
                        now,
                        Tally::Week(k),
                    ) == if counts[k] > 0 {
                        Some(samples[k])
                    } else {
                        None
                    },
            ensures
                i == self.rows.len(),
                counts.len() == WEEK_DAYS,
                samples.len() == WEEK_DAYS,
                new_cards == tally(views, cards@, now, Tally::New),
                reviewed_cards == tally(views, cards@, now, Tally::Reviewed),
                due_cards == tally(views, cards@, now, Tally::Due),
                overdue_cards == tally(views, cards@, now, Tally::Overdue),
                upcoming_month == tally(views, cards@, now, Tally::Month),
                forall|k: int|
                    0 <= k < WEEK_DAYS ==> #[trigger] counts[k] == tally(
                        views,
                        cards@,
                        now,
                        Tally::Week(k),
                    ) && first_due(views, cards@, now, Tally::Week(k)) == if counts[k] > 0 {
                        Some(samples[k])
                    } else {
                        None
                    },
            decreases self.rows.len() - i,
        {
            if i >= self.rows.len() {
                assert(views.take(i as int) == views);
                break;
            }
            let row = &self.rows[i];
            let ghost r = views[i as int];
            proof {
                lemma_tally_step(views, cards@, now, Tally::New, i as int);
                lemma_tally_step(views, cards@, now, Tally::Reviewed, i as int);
                lemma_tally_step(views, cards@, now, Tally::Due, i as int);
                lemma_tally_step(views, cards@, now, Tally::Overdue, i as int);
                lemma_tally_step(views, cards@, now, Tally::Month, i as int);
                assert forall|k: int| 0 <= k < WEEK_DAYS implies tally(
                    views.take(i + 1),
                    cards@,
                    now,
                    Tally::Week(k),
                ) == counts[k] + if counts_as(r, cards@, now, Tally::Week(k)) {
                    1nat
                } else {
                    0nat
                } by {
                    lemma_tally_step(views, cards@, now, Tally::Week(k), i as int);
                }
                assert forall|k: int| 0 <= k < WEEK_DAYS implies first_due(
                    views.take(i + 1),
                    cards@,
                    now,
                    Tally::Week(k),
                ) == if #[trigger] counts[k] > 0 {
                    Some(samples[k])
                } else if counts_as(r, cards@, now, Tally::Week(k)) {
                    r.due_date
                } else {
                    None
                } by {
                    lemma_first_due_step(views, cards@, now, Tally::Week(k), i as int);
                }
            }
            if cards.contains_key(&row.card_hash) {
                if row.review_count == 0 {
                    new_cards += 1;
                } else {
                    reviewed_cards += 1;
                }
                match row.due_date {
                    None => {
                        due_cards += 1;
                    },
                    Some(due) => {
                        if due <= now {
                            due_cards += 1;
                            if due < now {
                                overdue_cards += 1;
                            }
                        } else {
                            let gap: i128 = due as i128 - now as i128;
                            if gap <= WEEK_HORIZON as i128 {
                                proof {
                                    lemma_week_day(now, due);
                                }
                                let k: usize = (day_of(due) - today) as usize;
                                if counts[k] == 0 {
                                    samples.set(k, due);
                                }
                                let bumped: usize = counts[k] + 1;
                                counts.set(k, bumped);
                            }
                            if gap <= MONTH_HORIZON as i128 {
                                upcoming_month += 1;
                            }
                        }
                    },
                }
            }
            i += 1;
        }
        let upcoming_week = week_list(&counts, &samples, Ghost(views), Ghost(cards@), now);
        CardStats {
            total_cards_in_db: self.rows.len(),
            num_cards: cards.len(),
            new_cards,
            reviewed_cards,
            due_cards,
            overdue_cards,
            upcoming_week,
            upcoming_month,
        }
    }
}

/// Insertion only adds rows at the end: every row that was there is still there, at its
/// place and with all its fields, and every identity that had a row still has one.
pub proof fn lemma_insert_keeps_rows(rows: Seq<RowView>, cards: Seq<CardView>, now: i64)
    ensures
        rows.len() <= insert_all(rows, cards, now).len(),
        insert_all(rows, cards, now).take(rows.len() as int) == rows,
        forall|h: Seq<char>| has_row(rows, h) ==> has_row(insert_all(rows, cards, now), h),
    decreases cards.len(),
{
    let after = insert_all(rows, cards, now);
    if cards.len() == 0 {
        assert(rows.take(rows.len() as int) == rows);
    } else {
        let mid = insert_all(rows, cards.drop_last(), now);
        lemma_insert_keeps_rows(rows, cards.drop_last(), now);
        assert(after.take(rows.len() as int) =~= mid.take(rows.len() as int));
        assert forall|h: Seq<char>| has_row(rows, h) implies has_row(after, h) by {
            let i = choose|i: int| 0 <= i < mid.len() && #[trigger] mid[i].card_hash == h;
            assert(after[i].card_hash == h);
        }
    }
}

/// After insertion every card that was inserted has a row.
pub proof fn lemma_insert_covers(rows: Seq<RowView>, cards: Seq<CardView>, now: i64)
    ensures
        forall|j: int|
            0 <= j < cards.len() ==> has_row(
                insert_all(rows, cards, now),
                #[trigger] cards[j].card_hash,
            ),
    decreases cards.len(),
{
    if cards.len() > 0 {
        let mid = insert_all(rows, cards.drop_last(), now);
        let after = insert_all(rows, cards, now);
        let last = cards.last().card_hash;
        lemma_insert_covers(rows, cards.drop_last(), now);
        assert forall|j: int| 0 <= j < cards.len() implies has_row(
            after,
            #[trigger] cards[j].card_hash,
        ) by {
            let h = cards[j].card_hash;
            if j == cards.len() - 1 {
                if has_row(mid, h) {
                } else {
                    assert(after[mid.len() as int].card_hash == h);
                }
            } else {
                assert(cards.drop_last()[j] == cards[j]);
                let i = choose|i: int| 0 <= i < mid.len() && #[trigger] mid[i].card_hash == h;
                assert(after[i].card_hash == h);
            }
        }
    }
}

/// Inserting cards that all have rows changes nothing.
pub proof fn lemma_insert_present(rows: Seq<RowView>, cards: Seq<CardView>, now: i64)
    requires
        forall|j: int| 0 <= j < cards.len() ==> has_row(rows, #[trigger] cards[j].card_hash),
    ensures
        insert_all(rows, cards, now) == rows,
    decreases cards.len(),
{
    if cards.len() > 0 {
        assert forall|j: int| 0 <= j < cards.drop_last().len() implies has_row(
            rows,
            #[trigger] cards.drop_last()[j].card_hash,
        ) by {
            assert(cards.drop_last()[j] == cards[j]);
        }
        lemma_insert_present(rows, cards.drop_last(), now);
        assert(has_row(rows, cards[cards.len() - 1].card_hash));
    }
}

/// Insertion is idempotent: to insert the same cards a second time, at whatever moment,
/// changes no row and adds none.
pub proof fn lemma_insert_idempotent(rows: Seq<RowView>, cards: Seq<CardView>, first: i64, second: i64)
    ensures
        insert_all(insert_all(rows, cards, first), cards, second) == insert_all(rows, cards, first),
{
    lemma_insert_covers(rows, cards, first);
    lemma_insert_present(insert_all(rows, cards, first), cards, second);
}

/// Every due card that is handed out is a loaded card, and its row is due.
pub proof fn lemma_due_cards_are_loaded(rows: Seq<RowView>, cards: Seq<CardView>, now: i64, limit: Option<
    usize,
>)
    ensures
        forall|i: int|
            0 <= i < capped(due_cards(rows, cards, now), limit).len() ==> {
                let card = #[trigger] capped(due_cards(rows, cards, now), limit)[i];
                &&& has_card(cards, card.card_hash)
                &&& card == card_with(cards, card.card_hash)
                &&& exists|j: int|
                    0 <= j < rows.len() && #[trigger] rows[j].card_hash == card.card_hash && is_due(
                        rows[j],
                        now,
                    )
            },
    decreases rows.len(),
{
    let due = due_cards(rows, cards, now);
    if rows.len() > 0 {
        let before = due_cards(rows.drop_last(), cards, now);
        lemma_due_cards_are_loaded(rows.drop_last(), cards, now, None);
        assert forall|i: int| 0 <= i < due.len() implies {
            let card = #[trigger] due[i];
            &&& has_card(cards, card.card_hash)
            &&& card == card_with(cards, card.card_hash)
            &&& exists|j: int|
                0 <= j < rows.len() && #[trigger] rows[j].card_hash == card.card_hash && is_due(
                    rows[j],
                    now,
                )
        } by {
            let card = due[i];
            if i < before.len() {
                assert(card == capped(before, None)[i]);
                let j = choose|j: int|
                    0 <= j < rows.drop_last().len() && #[trigger] rows.drop_last()[j].card_hash
                        == card.card_hash && is_due(rows.drop_last()[j], now);
                assert(rows[j].card_hash == card.card_hash && is_due(rows[j], now));
            } else {
                let h = rows.last().card_hash;
                lemma_card_with(cards, h);
                assert(rows[rows.len() - 1].card_hash == card.card_hash);
            }
        }
    }
    assert forall|i: int| 0 <= i < capped(due, limit).len() implies capped(due, limit)[i]
        == due[i] by {}
}

/// The card that stands for a loaded identity has that identity.
pub proof fn lemma_card_with(cards: Seq<CardView>, hash: Seq<char>)
    requires
        has_card(cards, hash),
    ensures
        card_with(cards, hash).card_hash == hash,
{
    crate::card::lemma_first_with(cards, hash);
}

/// Without a limit, every loaded card whose row has no due date is handed out.
pub proof fn lemma_never_reviewed_is_due(rows: Seq<RowView>, cards: Seq<CardView>, now: i64, j: int)
    requires
        0 <= j < rows.len(),
        rows[j].due_date is None,
        has_card(cards, rows[j].card_hash),
    ensures
        exists|i: int|
            0 <= i < due_cards(rows, cards, now).len() && #[trigger] due_cards(rows, cards, now)[i]
                == card_with(cards, rows[j].card_hash),
    decreases rows.len(),
{
    let due = due_cards(rows, cards, now);
    if j == rows.len() - 1 {
        assert(due[due.len() - 1] == card_with(cards, rows[j].card_hash));
    } else {
        lemma_never_reviewed_is_due(rows.drop_last(), cards, now, j);
        let before = due_cards(rows.drop_last(), cards, now);
        let i = choose|i: int|
            0 <= i < before.len() && #[trigger] before[i] == card_with(
                cards,
                rows.drop_last()[j].card_hash,
            );
        assert(due[i] == before[i]);
    }
}

/// With no card loaded, nothing is counted, whatever the table holds.
pub proof fn lemma_nothing_loaded_nothing_counted(rows: Seq<RowView>, now: i64, what: Tally)
    ensures
        tally(rows, Seq::<CardView>::empty(), now, what) == 0,
    decreases rows.len(),
{
    if rows.len() > 0 {
        lemma_nothing_loaded_nothing_counted(rows.drop_last(), now, what);
    }
}

/// With no card loaded, no due date is found.
pub proof fn lemma_nothing_loaded_no_first_due(rows: Seq<RowView>, now: i64, what: Tally)
    ensures
        first_due(rows, Seq::<CardView>::empty(), now, what) is None,
    decreases rows.len(),
{
    if rows.len() > 0 {
        lemma_nothing_loaded_no_first_due(rows.drop_last(), now, what);
    }
}

/// With no card loaded, no day of the week ahead is listed.
pub proof fn lemma_nothing_loaded_no_week(rows: Seq<RowView>, now: i64, upto: int)
    ensures
        week_ahead(rows, Seq::<CardView>::empty(), now, upto) == Seq::<(Seq<char>, nat)>::empty(),
    decreases upto,
{
    if upto > 0 {
        lemma_nothing_loaded_no_week(rows, now, upto - 1);
        lemma_nothing_loaded_no_first_due(rows, now, Tally::Week(upto - 1));
    }
}

/// What was written of a review is what is read back.
pub proof fn lemma_review_reads_back(row: RowView, p: ReviewedPerformance)
    requires
        p.review_count >= 1,
        p.review_count <= i64::MAX,
        p.interval_days <= i64::MAX,
    ensures
        row_performance(reviewed_row(row, p)) == Some(Performance::Reviewed(p)),
        reviewed_row(row, p).card_hash == row.card_hash,
        reviewed_row(row, p).added_at == row.added_at,
{
}

/// Recording a review changes the row of the card and no other: the card's state moves
/// as the model says, and one more review is counted.
pub proof fn lemma_recorded_changes_one_row(
    rows: Seq<RowView>,
    hash: Seq<char>,
    status: ReviewStatus,
    now: i64,
)
    requires
        distinct_rows(rows),
        record_outcome(rows, hash) == Ok::<bool, StoreError>(true),
    ensures
        recorded(rows, hash, status, now).len() == rows.len(),
        distinct_rows(recorded(rows, hash, status, now)),
        forall|j: int|
            0 <= j < rows.len() && rows[j].card_hash != hash ==> #[trigger] recorded(
                rows,
                hash,
                status,
                now,
            )[j] == rows[j],
        row_performance(recorded(rows, hash, status, now)[row_index(rows, hash)]) == Some(
            Performance::Reviewed(
                spec_update(row_performance(rows[row_index(rows, hash)])->0, status, now),
            ),
        ),
        recorded(rows, hash, status, now)[row_index(rows, hash)].review_count
            == rows[row_index(rows, hash)].review_count + 1,
{
    let at = row_index(rows, hash);
    let prior = row_performance(rows[at])->0;
    let next = spec_update(prior, status, now);
    lemma_update_well_formed(default_parameters(), prior, status, now);
    lemma_stability_in_range(default_parameters(), prior, now);
    let after = recorded(rows, hash, status, now);
    assert forall|i: int, j: int| 0 <= i < j < after.len() implies #[trigger] after[i].card_hash
        != #[trigger] after[j].card_hash by {
        assert(after[i].card_hash == rows[i].card_hash);
        assert(after[j].card_hash == rows[j].card_hash);
    }
    assert(next.interval_days <= 1_000_000_000) by {
        let s = next_stability(default_parameters(), prior, status, now);
        assert(s <= 36_500_000);
    }
}

/// The counts are consistent: of the rows of loaded cards each is new or reviewed, the
/// overdue are among the due, and what falls due within a day of the week ahead falls due
/// within thirty days.
pub proof fn lemma_counts_are_consistent(rows: Seq<RowView>, cards: Seq<CardView>, now: i64, day: int)
    ensures
        tally(rows, cards, now, Tally::New) + tally(rows, cards, now, Tally::Reviewed) <= rows.len(),
        tally(rows, cards, now, Tally::Overdue) <= tally(rows, cards, now, Tally::Due),
        tally(rows, cards, now, Tally::Week(day)) <= tally(rows, cards, now, Tally::Month),
        tally(rows, cards, now, Tally::Due) + tally(rows, cards, now, Tally::Month)
            <= tally(rows, cards, now, Tally::New) + tally(rows, cards, now, Tally::Reviewed),
    decreases rows.len(),
{
    if rows.len() > 0 {
        lemma_counts_are_consistent(rows.drop_last(), cards, now, day);
    }
}

} // verus!
