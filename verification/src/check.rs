//! The report of the counts over a collection.

use crate::crud::{CardStats, UpcomingCount};
use crate::palette::{decimal, spec_decimal};
use crate::text::{chars_of, extend_chars, string_of, string_views};
use vstd::prelude::*;

verus! {

/// The sum of the counts of `buckets`, or the greatest number there is where the sum is
/// greater.
pub open spec fn total_of(buckets: Seq<UpcomingCount>) -> nat
    decreases buckets.len(),
{
    if buckets.len() == 0 {
        0
    } else {
        let sum: nat = total_of(buckets.drop_last()) + buckets.last().count as nat;
        if sum > usize::MAX {
            usize::MAX as nat
        } else {
            sum
        }
    }
}

/// The line of one day of the week ahead.
pub open spec fn day_line(bucket: UpcomingCount) -> Seq<char> {
    "  "@ + bucket.day@ + ": "@ + spec_decimal(bucket.count as nat)
}

/// The lines of the days of `buckets`, in order.
pub open spec fn day_lines(buckets: Seq<UpcomingCount>) -> Seq<Seq<char>> {
    Seq::new(buckets.len(), |i: int| day_line(buckets[i]))
}

/// The counts of `stats` as the lines of a report: the loaded cards, new and reviewed;
/// the cards due and overdue; where cards fall due within the week, their number and a
/// line for each day; the cards that fall due within thirty days; and the rows of the
/// store.
pub open spec fn spec_stats_report(stats: CardStats) -> Seq<Seq<char>> {
    seq![
        "Number of cards "@ + spec_decimal(stats.num_cards as nat) + " \u{2022} new "@
            + spec_decimal(stats.new_cards as nat) + " \u{2022} reviewed "@ + spec_decimal(
            stats.reviewed_cards as nat,
        ),
        "Due now: "@ + spec_decimal(stats.due_cards as nat) + " ("@ + spec_decimal(
            stats.overdue_cards as nat,
        ) + " overdue)"@,
    ] + (if stats.upcoming_week@.len() > 0 {
        seq!["Due in next 7 days: "@ + spec_decimal(total_of(stats.upcoming_week@))] + day_lines(
            stats.upcoming_week@,
        )
    } else {
        Seq::empty()
    }) + seq![
        "Due in next 30 days: "@ + spec_decimal(stats.upcoming_month as nat),
        "Total number of cards indexed in DB: "@ + spec_decimal(stats.total_cards_in_db as nat),
    ]
}

fn sum_of(buckets: &Vec<UpcomingCount>) -> (sum: usize)
    ensures
        sum == total_of(buckets@),
{
    let mut sum: usize = 0;
    let mut i: usize = 0;
    assert(buckets@.take(0).len() == 0);
    while i < buckets.len()
        invariant
            i <= buckets.len(),
            sum == total_of(buckets@.take(i as int)),
        decreases buckets.len() - i,
    {
        assert(buckets@.take(i + 1).drop_last() == buckets@.take(i as int));
        sum = if buckets[i].count > usize::MAX - sum {
            usize::MAX
        } else {
            sum + buckets[i].count
        };
        i += 1;
    }
    assert(buckets@.take(buckets.len() as int) == buckets@);
    sum
}

/// Appends a line to the lines of a report.
fn push_line(lines: &mut Vec<String>, line: &Vec<char>)
    ensures
        string_views(final(lines)@) == string_views(old(lines)@).push(line@),
{
    lines.push(string_of(line));
    assert(string_views(lines@) =~= string_views(old(lines)@).push(line@));
}

/// The counts of `stats` as the lines of a report.
pub fn stats_report(stats: &CardStats) -> (lines: Vec<String>)
    ensures
        string_views(lines@) == spec_stats_report(*stats),
{
    let mut lines: Vec<String> = Vec::new();
    assert(string_views(lines@) =~= Seq::<Seq<char>>::empty());
    let mut line = chars_of("Number of cards ");
    extend_chars(&mut line, &decimal(stats.num_cards));
    extend_chars(&mut line, &chars_of(" \u{2022} new "));
    extend_chars(&mut line, &decimal(stats.new_cards));
    extend_chars(&mut line, &chars_of(" \u{2022} reviewed "));
    extend_chars(&mut line, &decimal(stats.reviewed_cards));
    push_line(&mut lines, &line);
    let mut line = chars_of("Due now: ");
    extend_chars(&mut line, &decimal(stats.due_cards));
    extend_chars(&mut line, &chars_of(" ("));
    extend_chars(&mut line, &decimal(stats.overdue_cards));
    extend_chars(&mut line, &chars_of(" overdue)"));
    push_line(&mut lines, &line);
    let ghost week = day_lines(stats.upcoming_week@);
    if stats.upcoming_week.len() > 0 {
        let mut line = chars_of("Due in next 7 days: ");
        extend_chars(&mut line, &decimal(sum_of(&stats.upcoming_week)));
        push_line(&mut lines, &line);
        let ghost first = string_views(lines@);
        let mut i: usize = 0;
        assert(first =~= first + week.take(0));
        while i < stats.upcoming_week.len()
            invariant
                i <= stats.upcoming_week.len(),
                week == day_lines(stats.upcoming_week@),
                string_views(lines@) == first + week.take(i as int),
            decreases stats.upcoming_week.len() - i,
        {
            let bucket = &stats.upcoming_week[i];
            let mut line = chars_of("  ");
            extend_chars(&mut line, &chars_of(bucket.day.as_str()));
            extend_chars(&mut line, &chars_of(": "));
            extend_chars(&mut line, &decimal(bucket.count));
            assert(line@ == week[i as int]);
            push_line(&mut lines, &line);
            assert((first + week.take(i as int)).push(week[i as int]) =~= first + week.take(i + 1));
            i += 1;
        }
        assert(week.take(stats.upcoming_week.len() as int) == week);
    }
    let mut line = chars_of("Due in next 30 days: ");
    extend_chars(&mut line, &decimal(stats.upcoming_month));
    push_line(&mut lines, &line);
    let mut line = chars_of("Total number of cards indexed in DB: ");
    extend_chars(&mut line, &decimal(stats.total_cards_in_db));
    push_line(&mut lines, &line);
    assert(string_views(lines@) =~= spec_stats_report(*stats));
    lines
}

} // verus!
