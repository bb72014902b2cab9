//! The scheduling model: how a grade changes the memory strength of a card and when the
//! card is due again. All quantities are integers in thousandths.

use vstd::prelude::*;

verus! {

/// Stability, difficulty and the raw interval are fixed-point numbers: this many units make
/// one day (of stability and interval) or one step of difficulty.
pub const SCALE: u64 = 1000;

/// Seconds in a day.
pub const DAY_SECONDS: i64 = 86400;

/// No stability that the model works with is greater than this.
pub const STABILITY_LIMIT: u64 = 1_000_000_000_000;

/// No difficulty that the model works with is greater than this.
pub const DIFFICULTY_LIMIT: u64 = 1_000_000;

/// The coefficients of the model.
#[derive(Clone, Copy, Debug, PartialEq, Eq, Structural)]
pub struct Parameters {
    /// The least stability a reviewed card can have.
    pub stability_min: u64,
    /// The greatest stability a card can reach.
    pub stability_max: u64,
    /// The easiest a card can be.
    pub difficulty_min: u64,
    /// The hardest a card can be.
    pub difficulty_max: u64,
    /// Stability of a card that was recalled at its first review.
    pub first_pass_stability: u64,
    /// Stability of a card that was not recalled at its first review.
    pub first_fail_stability: u64,
    /// Difficulty of a card that was recalled at its first review.
    pub first_pass_difficulty: u64,
    /// Difficulty of a card that was not recalled at its first review.
    pub first_fail_difficulty: u64,
    /// A recalled card becomes easier by this much.
    pub pass_easing: u64,
    /// A forgotten card becomes harder by this much.
    pub fail_penalty: u64,
    /// A forgotten card keeps one part in this many of its stability.
    pub lapse_divisor: u64,
    /// No forgotten card keeps more stability than this.
    pub lapse_stability_cap: u64,
    /// Divides the growth of stability on a recall: the growth is the stability times the
    /// distance of the difficulty from `growth_pivot`, over this.
    pub growth_divisor: u64,
    /// The difficulty at which a recall would add nothing to stability.
    pub growth_pivot: u64,
}

/// The coefficients that are used where none are given: a new card that is recalled is
/// due in three days, one that is not, at once; a forgotten card keeps a fifth of its
/// stability and no more than a day.
pub open spec fn default_parameters() -> Parameters {
    Parameters {
        stability_min: 100,
        stability_max: 36_500_000,
        difficulty_min: 1000,
        difficulty_max: 10_000,
        first_pass_stability: 3000,
        first_fail_stability: 400,
        first_pass_difficulty: 5000,
        first_fail_difficulty: 7000,
        pass_easing: 200,
        fail_penalty: 1000,
        lapse_divisor: 5,
        lapse_stability_cap: 1000,
        growth_divisor: 4000,
        growth_pivot: 11_000,
    }
}

impl Parameters {
    /// The coefficients fit together: the ranges are not empty and lie within the model's
    /// limits, the first-review values lie in their ranges, a first lapse leaves no more
    /// stability than a first recall, a lapse leaves no more than the cap, which lies in
    /// the range, and no difficulty reaches the pivot.
    pub open spec fn well_formed(&self) -> bool {
        &&& 0 < self.stability_min <= self.stability_max <= STABILITY_LIMIT
        &&& self.difficulty_min <= self.difficulty_max < self.growth_pivot <= DIFFICULTY_LIMIT
        &&& self.stability_min <= self.first_fail_stability <= self.first_pass_stability
            <= self.stability_max
        &&& self.difficulty_min <= self.first_pass_difficulty <= self.difficulty_max
        &&& self.difficulty_min <= self.first_fail_difficulty <= self.difficulty_max
        &&& self.stability_min <= self.lapse_stability_cap <= self.stability_max
        &&& self.pass_easing <= DIFFICULTY_LIMIT
        &&& self.fail_penalty <= DIFFICULTY_LIMIT
        &&& self.lapse_divisor >= 1
        &&& self.growth_divisor >= 1
    }

    /// Whether the coefficients fit together.
    pub fn is_well_formed(&self) -> (r: bool)
        ensures
            r == self.well_formed(),
    {
        0 < self.stability_min && self.stability_min <= self.stability_max && self.stability_max
            <= STABILITY_LIMIT && self.difficulty_min <= self.difficulty_max && self.difficulty_max
            < self.growth_pivot && self.growth_pivot <= DIFFICULTY_LIMIT && self.stability_min
            <= self.first_fail_stability && self.first_fail_stability <= self.first_pass_stability
            && self.first_pass_stability <= self.stability_max && self.difficulty_min
            <= self.first_pass_difficulty && self.first_pass_difficulty <= self.difficulty_max
            && self.difficulty_min <= self.first_fail_difficulty && self.first_fail_difficulty
            <= self.difficulty_max && self.stability_min <= self.lapse_stability_cap
            && self.lapse_stability_cap <= self.stability_max && self.pass_easing
            <= DIFFICULTY_LIMIT && self.fail_penalty <= DIFFICULTY_LIMIT && self.lapse_divisor >= 1
            && self.growth_divisor >= 1
    }
}

impl Default for Parameters {
    fn default() -> (params: Parameters)
        ensures
            params == default_parameters(),
            params.well_formed(),
    {
        Parameters {
            stability_min: 100,
            stability_max: 36_500_000,
            difficulty_min: 1000,
            difficulty_max: 10_000,
            first_pass_stability: 3000,
            first_fail_stability: 400,
            first_pass_difficulty: 5000,
            first_fail_difficulty: 7000,
            pass_easing: 200,
            fail_penalty: 1000,
            lapse_divisor: 5,
            lapse_stability_cap: 1000,
            growth_divisor: 4000,
            growth_pivot: 11_000,
        }
    }
}

/// The grade of one review.
#[derive(Clone, Copy, Debug, PartialEq, Eq, Structural)]
pub enum ReviewStatus {
    Fail,
    Pass,
}

/// What is known of a card that was reviewed at least once.
#[derive(Clone, Copy, Debug, PartialEq, Eq, Structural)]
pub struct ReviewedPerformance {
    /// When the card was last graded, in seconds since the epoch.
    pub last_reviewed_at: i64,
    /// Memory strength, in thousandths of a day.
    pub stability: u64,
    /// Hardness of the card, in thousandths.
    pub difficulty: u64,
    /// The interval before rounding, in thousandths of a day.
    pub interval_raw: u64,
    /// The interval in whole days.
    pub interval_days: usize,
    /// When the card is next due, in seconds since the epoch.
    pub due_date: i64,
    /// How many times the card was graded.
    pub review_count: usize,
}

/// The review state of a card.
#[derive(Clone, Copy, Debug, PartialEq, Eq, Structural)]
pub enum Performance {
    /// Never graded.
    New,
    /// Graded at least once.
    Reviewed(ReviewedPerformance),
}

pub open spec fn clamp(x: int, lo: int, hi: int) -> int {
    if x < lo {
        lo
    } else if x > hi {
        hi
    } else {
        x
    }
}

/// The time from `last` to `now` in thousandths of a day; nothing if `now` is not later.
pub open spec fn elapsed_units(now: i64, last: i64) -> int {
    if now > last {
        (now - last) * 10 / 864
    } else {
        0
    }
}

/// What a late review adds to stability on a recall: half of the time by which the review
/// came after the planned interval, and no more than half of the stability.
pub open spec fn late_bonus(stability: int, planned: int, elapsed: int) -> int {
    if elapsed <= planned {
        0
    } else if elapsed - planned >= stability {
        stability / 2
    } else {
        (elapsed - planned) / 2
    }
}

/// Stability after a recall of a card of stability `s` and difficulty `d`, both in range:
/// the stability grows by a share that is the greater the easier the card is, and by the
/// bonus of a late review.
pub open spec fn recall_stability(params: Parameters, s: int, d: int, planned: int, elapsed: int) -> int {
    clamp(
        s + s * (params.growth_pivot - d) / (params.growth_divisor as int) + late_bonus(
            s,
            planned,
            elapsed,
        ),
        params.stability_min as int,
        params.stability_max as int,
    )
}

/// Stability after a lapse of a card of stability `s`.
pub open spec fn lapse_stability(params: Parameters, s: int) -> int {
    clamp(
        s / (params.lapse_divisor as int),
        params.stability_min as int,
        params.lapse_stability_cap as int,
    )
}

/// The stability after a review. A stability or difficulty before the review that lies
/// out of range counts as the nearest in range.
pub open spec fn next_stability(params: Parameters, prior: Performance, status: ReviewStatus, now: i64) -> int {
    match prior {
        Performance::New => match status {
            ReviewStatus::Pass => params.first_pass_stability as int,
            ReviewStatus::Fail => params.first_fail_stability as int,
        },
        Performance::Reviewed(p) => {
            let s = clamp(
                p.stability as int,
                params.stability_min as int,
                params.stability_max as int,
            );
            let d = clamp(
                p.difficulty as int,
                params.difficulty_min as int,
                params.difficulty_max as int,
            );
            match status {
                ReviewStatus::Pass => recall_stability(
                    params,
                    s,
                    d,
                    p.interval_raw as int,
                    elapsed_units(now, p.last_reviewed_at),
                ),
                ReviewStatus::Fail => lapse_stability(params, s),
            }
        },
    }
}

/// The difficulty after a review: a recall makes the card easier, a lapse harder.
pub open spec fn next_difficulty(params: Parameters, prior: Performance, status: ReviewStatus) -> int {
    match prior {
        Performance::New => match status {
            ReviewStatus::Pass => params.first_pass_difficulty as int,
            ReviewStatus::Fail => params.first_fail_difficulty as int,
        },
        Performance::Reviewed(p) => {
            let d = clamp(
                p.difficulty as int,
                params.difficulty_min as int,
                params.difficulty_max as int,
            );
            match status {
                ReviewStatus::Pass => clamp(
                    d - params.pass_easing,
                    params.difficulty_min as int,
                    params.difficulty_max as int,
                ),
                ReviewStatus::Fail => clamp(
                    d + params.fail_penalty,
                    params.difficulty_min as int,
                    params.difficulty_max as int,
                ),
            }
        },
    }
}

/// The interval in whole days for a raw interval: rounded to the nearest day, and at least
/// one day after a recall.
pub open spec fn whole_days(interval_raw: int, status: ReviewStatus) -> int {
    let rounded = (interval_raw + SCALE / 2) / (SCALE as int);
    if status == ReviewStatus::Pass && rounded < 1 {
        1
    } else {
        rounded
    }
}

/// The moment `days` days after `now`, or the last moment there is.
pub open spec fn due_after(now: i64, days: int) -> int {
    if now + days * DAY_SECONDS > i64::MAX {
        i64::MAX as int
    } else {
        now + days * DAY_SECONDS
    }
}

/// How often a card in this state was graded.
pub open spec fn spec_review_count(prior: Performance) -> nat {
    match prior {
        Performance::New => 0,
        Performance::Reviewed(p) => p.review_count as nat,
    }
}

/// The state that a review with grade `status` at `now` leads to, under the coefficients
/// `params`.
pub open spec fn spec_update_with(
    params: Parameters,
    prior: Performance,
    status: ReviewStatus,
    now: i64,
) -> ReviewedPerformance
    recommends
        params.well_formed(),
        spec_review_count(prior) < usize::MAX,
{
    let stability = next_stability(params, prior, status, now);
    let days = whole_days(stability, status);
    ReviewedPerformance {
        last_reviewed_at: now,
        stability: stability as u64,
        difficulty: next_difficulty(params, prior, status) as u64,
        interval_raw: stability as u64,
        interval_days: days as usize,
        due_date: due_after(now, days) as i64,
        review_count: (spec_review_count(prior) + 1) as usize,
    }
}

/// The state that a review with grade `status` at `now` leads to, under the default
/// coefficients.
pub open spec fn spec_update(prior: Performance, status: ReviewStatus, now: i64) -> ReviewedPerformance
    recommends
        spec_review_count(prior) < usize::MAX,
{
    spec_update_with(default_parameters(), prior, status, now)
}

impl ReviewedPerformance {
    /// What holds of every state that a review under `params` produced: stability and
    /// difficulty are in range, the interval follows from the stability, the due date
    /// from the interval, and the card was graded.
    pub open spec fn well_formed(&self, params: Parameters) -> bool {
        &&& params.stability_min <= self.stability <= params.stability_max
        &&& params.difficulty_min <= self.difficulty <= params.difficulty_max
        &&& self.interval_raw == self.stability
        &&& self.interval_days * SCALE <= self.interval_raw + SCALE
        &&& self.due_date == due_after(self.last_reviewed_at, self.interval_days as int)
        &&& self.due_date >= self.last_reviewed_at
        &&& self.review_count >= 1
    }
}

impl Performance {
    pub open spec fn well_formed(&self, params: Parameters) -> bool {
        match *self {
            Performance::New => true,
            Performance::Reviewed(p) => p.well_formed(params),
        }
    }

    /// How often the card was graded: zero exactly for a new card of a valid state.
    pub fn review_count(&self) -> (n: usize)
        ensures
            n == spec_review_count(*self),
    {
        match self {
            Performance::New => 0,
            Performance::Reviewed(p) => p.review_count,
        }
    }
}

impl Default for Performance {
    fn default() -> (p: Performance)
        ensures
            p == Performance::New,
    {
        Performance::New
    }
}

impl ReviewStatus {
    /// The grade's name as it is shown.
    pub fn label(&self) -> (s: &'static str)
        ensures
            s@ == (match *self {
                ReviewStatus::Fail => "Fail"@,
                ReviewStatus::Pass => "Pass"@,
            }),
    {
        match self {
            ReviewStatus::Fail => "Fail",
            ReviewStatus::Pass => "Pass",
        }
    }
}

fn clamp_u64(x: u64, lo: u64, hi: u64) -> (r: u64)
    requires
        lo <= hi,
    ensures
        r == clamp(x as int, lo as int, hi as int),
{
    if x < lo {
        lo
    } else if x > hi {
        hi
    } else {
        x
    }
}

/// The time from `last` to `now` in thousandths of a day.
fn elapsed_since(now: i64, last: i64) -> (e: u128)
    ensures
        e == elapsed_units(now, last),
{
    if now > last {
        let span: i128 = now as i128 - last as i128;
        (span as u128) * 10 / 864
    } else {
        0
    }
}

fn stability_after_recall(params: &Parameters, s: u64, d: u64, planned: u64, elapsed: u128) -> (r:
    u64)
    requires
        params.well_formed(),
        params.stability_min <= s <= params.stability_max,
        params.difficulty_min <= d <= params.difficulty_max,
    ensures
        r == recall_stability(*params, s as int, d as int, planned as int, elapsed as int),
{
    let slack: u64 = params.growth_pivot - d;
    assert(0 <= s * slack <= 1_000_000_000_000 * 1_000_000) by (nonlinear_arith)
        requires
            0 <= s <= 1_000_000_000_000,
            0 <= slack <= 1_000_000,
    ;
    let growth: u64 = s * slack / params.growth_divisor;
    assert(growth <= s * slack) by (nonlinear_arith)
        requires
            growth == (s * slack) / (params.growth_divisor as int),
            params.growth_divisor >= 1,
            s * slack >= 0,
    ;
    let bonus: u64 = if elapsed <= planned as u128 {
        0
    } else if elapsed - planned as u128 >= s as u128 {
        s / 2
    } else {
        ((elapsed - planned as u128) / 2) as u64
    };
    clamp_u64(s + growth + bonus, params.stability_min, params.stability_max)
}

fn days_of(interval_raw: u64, status: ReviewStatus) -> (days: usize)
    requires
        interval_raw <= STABILITY_LIMIT,
    ensures
        days == whole_days(interval_raw as int, status),
        days <= 1_000_000_000,
{
    let rounded: u64 = (interval_raw + SCALE / 2) / SCALE;
    match status {
        ReviewStatus::Pass => if rounded < 1 {
            1
        } else {
            rounded as usize
        },
        ReviewStatus::Fail => rounded as usize,
    }
}

fn due_date_after(now: i64, days: usize) -> (due: i64)
    requires
        days <= 1_000_000_000,
    ensures
        due == due_after(now, days as int),
        due >= now,
{
    let span: i64 = days as i64 * DAY_SECONDS;
    if now > i64::MAX - span {
        i64::MAX
    } else {
        now + span
    }
}

/// Grades a card under the coefficients `params`: from its state before the review, the
/// grade and the time of the review, the state after it.
///
/// A new card starts from the first-review values of its grade. A reviewed card gains
/// stability on a recall, the more the easier it is and the later the review came, and
/// loses most of it on a lapse. The interval is the new stability, in whole days; the card
/// is due that many days after `now`.
pub fn update_performance_with(
    params: &Parameters,
    prior: Performance,
    status: ReviewStatus,
    now: i64,
) -> (r: ReviewedPerformance)
    requires
        params.well_formed(),
        spec_review_count(prior) < usize::MAX,
    ensures
        r == spec_update_with(*params, prior, status, now),
        r.well_formed(*params),
        r.last_reviewed_at == now,
        r.review_count == spec_review_count(prior) + 1,
{
    let (stability, difficulty): (u64, u64) = match prior {
        Performance::New => match status {
            ReviewStatus::Pass => (params.first_pass_stability, params.first_pass_difficulty),
            ReviewStatus::Fail => (params.first_fail_stability, params.first_fail_difficulty),
        },
        Performance::Reviewed(p) => {
            let s = clamp_u64(p.stability, params.stability_min, params.stability_max);
            let d = clamp_u64(p.difficulty, params.difficulty_min, params.difficulty_max);
            match status {
                ReviewStatus::Pass => (
                    stability_after_recall(
                        params,
                        s,
                        d,
                        p.interval_raw,
                        elapsed_since(now, p.last_reviewed_at),
                    ),
                    if d >= params.pass_easing {
                        clamp_u64(
                            d - params.pass_easing,
                            params.difficulty_min,
                            params.difficulty_max,
                        )
                    } else {
                        params.difficulty_min
                    },
                ),
                ReviewStatus::Fail => (
                    clamp_u64(
                        s / params.lapse_divisor,
                        params.stability_min,
                        params.lapse_stability_cap,
                    ),
                    clamp_u64(
                        d + params.fail_penalty,
                        params.difficulty_min,
                        params.difficulty_max,
                    ),
                ),
            }
        },
    };
    let days = days_of(stability, status);
    ReviewedPerformance {
        last_reviewed_at: now,
        stability,
        difficulty,
        interval_raw: stability,
        interval_days: days,
        due_date: due_date_after(now, days),
        review_count: prior.review_count() + 1,
    }
}

/// Grades a card under the default coefficients.
pub fn update_performance(prior: Performance, status: ReviewStatus, now: i64) -> (r:
    ReviewedPerformance)
    requires
        spec_review_count(prior) < usize::MAX,
    ensures
        r == spec_update(prior, status, now),
        r.well_formed(default_parameters()),
        r.last_reviewed_at == now,
        r.review_count == spec_review_count(prior) + 1,
{
    update_performance_with(&Parameters::default(), prior, status, now)
}

/// The state after the reviews of `history` in turn, each a grade and its time: the card
/// is new before the first.
pub open spec fn state_after(params: Parameters, history: Seq<(ReviewStatus, i64)>) -> Performance
    decreases history.len(),
{
    if history.len() == 0 {
        Performance::New
    } else {
        Performance::Reviewed(
            spec_update_with(
                params,
                state_after(params, history.drop_last()),
                history.last().0,
                history.last().1,
            ),
        )
    }
}

/// The stability after a review lies in the range of the coefficients, and a lapse leaves
/// no more of it than a recall.
pub proof fn lemma_stability_in_range(params: Parameters, prior: Performance, now: i64)
    requires
        params.well_formed(),
    ensures
        params.stability_min <= next_stability(params, prior, ReviewStatus::Fail, now)
            <= next_stability(params, prior, ReviewStatus::Pass, now) <= params.stability_max,
{
    match prior {
        Performance::New => {},
        Performance::Reviewed(r) => {
            let s = clamp(
                r.stability as int,
                params.stability_min as int,
                params.stability_max as int,
            );
            let d = clamp(
                r.difficulty as int,
                params.difficulty_min as int,
                params.difficulty_max as int,
            );
            let e = elapsed_units(now, r.last_reviewed_at);
            let slack = params.growth_pivot - d;
            let divisor = params.growth_divisor as int;
            let lapse = params.lapse_divisor as int;
            assert(s * slack / divisor >= 0) by (nonlinear_arith)
                requires
                    s >= 0,
                    slack >= 0,
                    divisor >= 1,
            ;
            assert(s / lapse <= s) by (nonlinear_arith)
                requires
                    s >= 0,
                    lapse >= 1,
            ;
            assert(late_bonus(s, r.interval_raw as int, e) >= 0);
        },
    }
}

/// A lapse never leaves a card with a longer interval, or a later due date, than a recall
/// of the same card at the same moment would.
pub proof fn lemma_fail_shrinks_interval(params: Parameters, prior: Performance, now: i64)
    requires
        params.well_formed(),
    ensures
        spec_update_with(params, prior, ReviewStatus::Fail, now).interval_days <= spec_update_with(
            params,
            prior,
            ReviewStatus::Pass,
            now,
        ).interval_days,
        spec_update_with(params, prior, ReviewStatus::Fail, now).due_date <= spec_update_with(
            params,
            prior,
            ReviewStatus::Pass,
            now,
        ).due_date,
        spec_update_with(params, prior, ReviewStatus::Fail, now).stability <= spec_update_with(
            params,
            prior,
            ReviewStatus::Pass,
            now,
        ).stability,
{
    lemma_stability_in_range(params, prior, now);
    let f = next_stability(params, prior, ReviewStatus::Fail, now);
    let p = next_stability(params, prior, ReviewStatus::Pass, now);
    let fd = whole_days(f, ReviewStatus::Fail);
    let pd = whole_days(p, ReviewStatus::Pass);
    assert(0 <= fd <= pd <= 1_000_000_000);
    assert(fd * DAY_SECONDS <= pd * DAY_SECONDS) by (nonlinear_arith)
        requires
            fd <= pd,
    ;
}

/// Under the default coefficients, too, a lapse never schedules later than a recall.
pub proof fn lemma_fail_shrinks_default_interval(prior: Performance, now: i64)
    ensures
        spec_update(prior, ReviewStatus::Fail, now).interval_days <= spec_update(
            prior,
            ReviewStatus::Pass,
            now,
        ).interval_days,
        spec_update(prior, ReviewStatus::Fail, now).due_date <= spec_update(
            prior,
            ReviewStatus::Pass,
            now,
        ).due_date,
{
    lemma_fail_shrinks_interval(default_parameters(), prior, now);
}

/// Every review adds exactly one to the number of reviews, whatever the grade and the
/// coefficients; and a new card has none.
pub proof fn lemma_review_count_steps(
    params: Parameters,
    prior: Performance,
    status: ReviewStatus,
    now: i64,
)
    requires
        spec_review_count(prior) < usize::MAX,
    ensures
        spec_review_count(Performance::Reviewed(spec_update_with(params, prior, status, now)))
            == spec_review_count(prior) + 1,
        spec_review_count(Performance::New) == 0,
{
}

/// A card that was new and then graded `n` times has a review count of `n`.
pub proof fn lemma_review_count_counts(params: Parameters, history: Seq<(ReviewStatus, i64)>)
    requires
        history.len() <= usize::MAX,
    ensures
        spec_review_count(state_after(params, history)) == history.len(),
    decreases history.len(),
{
    if history.len() > 0 {
        lemma_review_count_counts(params, history.drop_last());
    }
}

/// Whatever the state before, the state after a review is well formed.
pub proof fn lemma_update_well_formed(
    params: Parameters,
    prior: Performance,
    status: ReviewStatus,
    now: i64,
)
    requires
        params.well_formed(),
        spec_review_count(prior) < usize::MAX,
    ensures
        spec_update_with(params, prior, status, now).well_formed(params),
{
    lemma_stability_in_range(params, prior, now);
    let s = next_stability(params, prior, status, now);
    assert(params.stability_min <= s <= params.stability_max);
    let days = whole_days(s, status);
    assert(0 <= days <= 1_000_000_000);
    assert(0 <= days * DAY_SECONDS <= 1_000_000_000 * 86_400) by (nonlinear_arith)
        requires
            0 <= days <= 1_000_000_000,
            DAY_SECONDS == 86_400,
    ;
}

} // verus!
