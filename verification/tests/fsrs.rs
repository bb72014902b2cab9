use repeater::fsrs::{
    update_performance, update_performance_with, Parameters, Performance, ReviewStatus,
    ReviewedPerformance,
};

const DAY: i64 = 86_400;

#[test]
fn new_card_passed_gets_first_pass_values() {
    let now = 1_700_000_000;
    let r = update_performance(Performance::New, ReviewStatus::Pass, now);
    assert_eq!(
        r,
        ReviewedPerformance {
            last_reviewed_at: now,
            stability: 3000,
            difficulty: 5000,
            interval_raw: 3000,
            interval_days: 3,
            due_date: now + 3 * DAY,
            review_count: 1,
        }
    );
}

#[test]
fn new_card_failed_is_due_at_once() {
    let now = 1_700_000_000;
    let r = update_performance(Performance::New, ReviewStatus::Fail, now);
    assert_eq!(
        r,
        ReviewedPerformance {
            last_reviewed_at: now,
            stability: 400,
            difficulty: 7000,
            interval_raw: 400,
            interval_days: 0,
            due_date: now,
            review_count: 1,
        }
    );
}

#[test]
fn recall_on_time_grows_stability_by_difficulty() {
    let first = update_performance(Performance::New, ReviewStatus::Pass, 0);
    let second = update_performance(Performance::Reviewed(first), ReviewStatus::Pass, 3 * DAY);
    // 3000 + 3000 * (11000 - 5000) / 4000, reviewed exactly when due: no bonus
    assert_eq!(second.stability, 7500);
    assert_eq!(second.difficulty, 4800);
    assert_eq!(second.interval_raw, 7500);
    assert_eq!(second.interval_days, 8);
    assert_eq!(second.due_date, 3 * DAY + 8 * DAY);
    assert_eq!(second.review_count, 2);
    assert_eq!(second.last_reviewed_at, 3 * DAY);
}

#[test]
fn late_recall_earns_a_bonus_capped_at_half_the_stability() {
    let first = update_performance(Performance::New, ReviewStatus::Pass, 0);
    let a_day_late = update_performance(Performance::Reviewed(first), ReviewStatus::Pass, 4 * DAY);
    assert_eq!(a_day_late.stability, 7500 + 500);
    let very_late = update_performance(Performance::Reviewed(first), ReviewStatus::Pass, 400 * DAY);
    assert_eq!(very_late.stability, 7500 + 1500);
    let early = update_performance(Performance::Reviewed(first), ReviewStatus::Pass, DAY);
    assert_eq!(early.stability, 7500);
    let clock_went_back = update_performance(Performance::Reviewed(first), ReviewStatus::Pass, -5);
    assert_eq!(clock_went_back.stability, 7500);
}

#[test]
fn lapse_cuts_stability_and_raises_difficulty() {
    let prior = ReviewedPerformance {
        last_reviewed_at: 0,
        stability: 20_000,
        difficulty: 9500,
        interval_raw: 20_000,
        interval_days: 20,
        due_date: 20 * DAY,
        review_count: 7,
    };
    let r = update_performance(Performance::Reviewed(prior), ReviewStatus::Fail, 20 * DAY);
    assert_eq!(r.stability, 1000);
    assert_eq!(r.difficulty, 10_000);
    assert_eq!(r.interval_days, 1);
    assert_eq!(r.due_date, 21 * DAY);
    assert_eq!(r.review_count, 8);

    let weak = ReviewedPerformance { stability: 2000, ..prior };
    let r = update_performance(Performance::Reviewed(weak), ReviewStatus::Fail, 20 * DAY);
    assert_eq!(r.stability, 400);
    assert_eq!(r.interval_days, 0);
    assert_eq!(r.due_date, 20 * DAY);
}

#[test]
fn fail_never_schedules_later_than_pass() {
    let mut states = vec![Performance::New];
    let mut grown = update_performance(Performance::New, ReviewStatus::Pass, 0);
    for step in 1..12 {
        states.push(Performance::Reviewed(grown));
        grown = update_performance(Performance::Reviewed(grown), ReviewStatus::Pass, step * 40 * DAY);
    }
    for prior in states {
        let fail = update_performance(prior, ReviewStatus::Fail, 1000 * DAY);
        let pass = update_performance(prior, ReviewStatus::Pass, 1000 * DAY);
        assert!(fail.interval_days <= pass.interval_days);
        assert!(fail.due_date <= pass.due_date);
        assert!(fail.interval_days < pass.interval_days);
    }
}

#[test]
fn review_count_goes_up_by_one() {
    let mut state = Performance::New;
    assert_eq!(state.review_count(), 0);
    for n in 1..=5usize {
        let status = if n % 2 == 0 { ReviewStatus::Fail } else { ReviewStatus::Pass };
        let next = update_performance(state, status, n as i64 * DAY);
        assert_eq!(next.review_count, n);
        state = Performance::Reviewed(next);
        assert_eq!(state.review_count(), n);
    }
}

#[test]
fn values_out_of_range_are_brought_into_range() {
    let wild = ReviewedPerformance {
        last_reviewed_at: i64::MIN,
        stability: u64::MAX,
        difficulty: 0,
        interval_raw: u64::MAX,
        interval_days: usize::MAX,
        due_date: i64::MIN,
        review_count: 3,
    };
    let pass = update_performance(Performance::Reviewed(wild), ReviewStatus::Pass, i64::MAX);
    assert_eq!(pass.stability, 36_500_000);
    assert_eq!(pass.difficulty, 1000);
    assert_eq!(pass.interval_days, 36_500);
    assert_eq!(pass.due_date, i64::MAX);
    assert_eq!(pass.review_count, 4);
    let fail = update_performance(Performance::Reviewed(wild), ReviewStatus::Fail, 0);
    assert_eq!(fail.stability, 1000);
    assert_eq!(fail.difficulty, 2000);

    let faint = ReviewedPerformance { stability: 0, difficulty: u64::MAX, ..wild };
    let pass = update_performance(Performance::Reviewed(faint), ReviewStatus::Pass, 0);
    assert_eq!(pass.stability, 125);
    assert_eq!(pass.difficulty, 9800);
    assert_eq!(pass.interval_days, 1);
    let fail = update_performance(Performance::Reviewed(faint), ReviewStatus::Fail, 0);
    assert_eq!(fail.stability, 100);
    assert_eq!(fail.interval_days, 0);
}

#[test]
fn labels_and_default() {
    assert_eq!(ReviewStatus::Fail.label(), "Fail");
    assert_eq!(ReviewStatus::Pass.label(), "Pass");
    assert_eq!(Performance::default(), Performance::New);
}

#[test]
fn coefficients_can_be_chosen() {
    let defaults = Parameters::default();
    assert!(defaults.is_well_formed());
    let now = 1_700_000_000;
    assert_eq!(
        update_performance_with(&defaults, Performance::New, ReviewStatus::Pass, now),
        update_performance(Performance::New, ReviewStatus::Pass, now)
    );
    let eager = Parameters { first_pass_stability: 7000, growth_divisor: 2000, ..defaults };
    assert!(eager.is_well_formed());
    let first = update_performance_with(&eager, Performance::New, ReviewStatus::Pass, now);
    assert_eq!(first.interval_days, 7);
    assert_eq!(first.due_date, now + 7 * DAY);
    let second = update_performance_with(
        &eager,
        Performance::Reviewed(first),
        ReviewStatus::Pass,
        now + 7 * DAY,
    );
    // 7000 + 7000 * (11000 - 5000) / 2000
    assert_eq!(second.stability, 28_000);

    assert!(!Parameters { stability_min: 0, ..defaults }.is_well_formed());
    assert!(!Parameters { growth_pivot: 10_000, ..defaults }.is_well_formed());
    assert!(!Parameters { first_fail_stability: 3001, ..defaults }.is_well_formed());
    assert!(!Parameters { lapse_divisor: 0, ..defaults }.is_well_formed());
    assert!(!Parameters { growth_divisor: 0, ..defaults }.is_well_formed());
    assert!(!Parameters { stability_max: 1_000_000_000_001, ..defaults }.is_well_formed());
    assert!(!Parameters { lapse_stability_cap: 99, ..defaults }.is_well_formed());
}
