//! The scoring engine: data model, four sub-scorers, the aggregator and the
//! rating classifier.
//!
//! A `GitHubUser` record carries the activity data; every score is a
//! fixed-point value in `[0, SCALE]` points (`SCALE` points stand for 1.0).
//! Timestamps are seconds since the Unix epoch, UTC; the caller passes the
//! current time in, so scoring itself is a pure function of its arguments.

use vstd::prelude::*;

use crate::points::{log_magnitude_points, ratio_points, recency_points};
use crate::SCALE;

verus! {

/// Seconds in one day.
pub const DAY_SECONDS: u64 = 86400;

/// The lookback window for recent activity: 180 days, in seconds.
pub const RECENT_WINDOW_SECONDS: u64 = 180 * 86400;

/// The lookback window for recent activity, in days.
pub const RECENT_WINDOW_DAYS: u64 = 180;

/// A scoring failure: either the upstream data source failed, or an input
/// record was malformed beyond the documented clamps.
#[derive(Debug, Clone, PartialEq, Eq)]
pub enum ScoringError {
    ApiError(String),
    InvalidData(String),
}

/// The owner of a repository.
#[derive(Debug, Clone, PartialEq, Eq)]
pub struct User {
    pub login: String,
}

/// One public repository of the scored user.
#[derive(Debug, Clone, PartialEq, Eq)]
pub struct Repository {
    pub name: String,
    pub full_name: String,
    pub stargazers_count: u32,
    pub forks_count: u32,
    pub updated_at: i64,
    pub owner: User,
    pub description: Option<String>,
}

/// The repository an event touched, when the feed names one.
#[derive(Debug, Clone, PartialEq, Eq)]
pub struct Repo {
    pub name: String,
}

/// The payload of an event; only the action tag matters here.
#[derive(Debug, Clone, PartialEq, Eq)]
pub struct EventPayload {
    pub action: Option<String>,
}

/// One public event from the user's activity feed. The type is a free-form
/// tag; unrecognized tags are inert and contribute to no sub-score.
#[derive(Debug, Clone, PartialEq, Eq)]
pub struct Event {
    pub event_type: String,
    pub created_at: i64,
    pub repo: Option<Repo>,
    pub payload: Option<EventPayload>,
}

/// One pull request authored by the user; a merge timestamp means merged.
#[derive(Debug, Clone, PartialEq, Eq)]
pub struct PullRequest {
    pub merged_at: Option<i64>,
}

/// The full input record for one scoring call. Any of the collections may
/// be empty; absence of data is never an error, only a zero-credit factor.
#[derive(Debug, Clone, PartialEq, Eq)]
pub struct GitHubUser {
    pub login: String,
    pub repositories: Vec<Repository>,
    pub events: Vec<Event>,
    pub pull_requests: Vec<PullRequest>,
}

/// The four weighted sub-scores, each in `[0, SCALE]`.
#[derive(Debug, Clone, PartialEq, Eq)]
pub struct ScoreComponents {
    pub contribution_weight: u64,
    pub repo_significance: u64,
    pub code_quality: u64,
    pub community_engagement: u64,
}

/// The full scoring result: the final score, the four sub-scores, and for
/// each sub-scorer its labeled factor breakdown, in a fixed order.
#[derive(Debug, Clone, PartialEq, Eq)]
pub struct DetailedScores {
    pub final_score: u64,
    pub component_scores: ScoreComponents,
    pub detailed_components: Vec<(String, Vec<(String, u64)>)>,
}

/// Compares two string slices by content.
pub fn str_eq(a: &str, b: &str) -> (r: bool)
    ensures
        r == (a@ == b@),
{
    let owned_a: String = a.to_owned();
    let owned_b: String = b.to_owned();
    owned_a == owned_b
}

/// How many elements of `s` satisfy `p`.
pub open spec fn count_where<A>(s: Seq<A>, p: spec_fn(A) -> bool) -> int
    decreases s.len(),
{
    if s.len() == 0 {
        0
    } else {
        count_where(s.drop_last(), p) + if p(s.last()) {
            1int
        } else {
            0int
        }
    }
}

pub proof fn lemma_count_where_step<A>(s: Seq<A>, p: spec_fn(A) -> bool, i: int)
    requires
        0 <= i < s.len(),
    ensures
        count_where(s.take(i + 1), p) == count_where(s.take(i), p) + if p(s[i]) {
            1int
        } else {
            0int
        },
{
    assert(s.take(i + 1).drop_last() =~= s.take(i));
    assert(s.take(i + 1).last() == s[i]);
}

/// The age of a timestamp in whole days, never negative: a timestamp at or
/// past `now` counts as zero days old.
pub open spec fn age_days(now: int, t: int) -> int {
    if t >= now {
        0
    } else {
        (now - t) / (DAY_SECONDS as int)
    }
}

/// Computes `age_days` exactly, through 128-bit intermediates.
pub fn age_days_u64(now: i64, t: i64) -> (r: u64)
    ensures
        r == age_days(now as int, t as int),
{
    if t >= now {
        0
    } else {
        let diff: i128 = (now as i128) - (t as i128);
        ((diff as u128) / (DAY_SECONDS as u128)) as u64
    }
}

/// The timestamp falls inside the 180-day lookback window ending at `now`.
pub open spec fn is_recent(created_at: int, now: int) -> bool {
    created_at > now - RECENT_WINDOW_SECONDS
}

/// Tests `is_recent` exactly, through 128-bit intermediates.
pub fn is_recent_i64(created_at: i64, now: i64) -> (r: bool)
    ensures
        r == is_recent(created_at as int, now as int),
{
    (created_at as i128) > (now as i128) - (RECENT_WINDOW_SECONDS as i128)
}

pub open spec fn is_push_event(e: Event) -> bool {
    e.event_type@ == "PushEvent"@
}

pub open spec fn recent_push_pred(now: int) -> spec_fn(Event) -> bool {
    |e: Event| is_push_event(e) && is_recent(e.created_at as int, now)
}

pub open spec fn is_issues_event(e: Event) -> bool {
    e.event_type@ == "IssuesEvent"@
}

pub open spec fn issues_pred() -> spec_fn(Event) -> bool {
    |e: Event| is_issues_event(e)
}

/// An issues event whose payload carries the action tag `closed`.
pub open spec fn is_closed_issues_event(e: Event) -> bool {
    is_issues_event(e) && match e.payload {
        Some(p) => match p.action {
            Some(a) => a@ == "closed"@,
            None => false,
        },
        None => false,
    }
}

pub open spec fn closed_issues_pred() -> spec_fn(Event) -> bool {
    |e: Event| is_closed_issues_event(e)
}

pub open spec fn is_review_event(e: Event) -> bool {
    e.event_type@ == "PullRequestReviewEvent"@
}

pub open spec fn review_pred() -> spec_fn(Event) -> bool {
    |e: Event| is_review_event(e)
}

pub open spec fn is_discussion_event(e: Event) -> bool {
    e.event_type@ == "IssueCommentEvent"@ || e.event_type@ == "CommitCommentEvent"@
}

pub open spec fn discussion_pred() -> spec_fn(Event) -> bool {
    |e: Event| is_discussion_event(e)
}

pub open spec fn merged_pred() -> spec_fn(PullRequest) -> bool {
    |pr: PullRequest| pr.merged_at is Some
}

/// A repository whose description runs past 50 characters.
pub open spec fn is_documented(r: Repository) -> bool {
    match r.description {
        Some(d) => d@.len() > 50,
        None => false,
    }
}

pub open spec fn documented_pred() -> spec_fn(Repository) -> bool {
    |r: Repository| is_documented(r)
}

/// A repository updated within the 180-day lookback window.
pub open spec fn active_repo_pred(now: int) -> spec_fn(Repository) -> bool {
    |r: Repository| age_days(now, r.updated_at as int) <= RECENT_WINDOW_DAYS
}

/// A repository whose owner login equals the given login.
pub open spec fn owned_repo_pred(login: Seq<char>) -> spec_fn(Repository) -> bool {
    |r: Repository| r.owner.login@ == login
}

/// Counts saturate just below `u64::MAX`, so that one more than a total
/// still fits in a machine word. At realistic scales the cap is unreachable.
pub const COUNT_CAP: u64 = 0xFFFF_FFFF_FFFF_FFFE;

/// Addition saturating at `COUNT_CAP`.
pub open spec fn sat_add(a: int, b: int) -> int {
    if a + b > COUNT_CAP {
        COUNT_CAP as int
    } else {
        a + b
    }
}

/// The stargazer counts of all repositories, summed with saturation.
pub open spec fn star_sum(s: Seq<Repository>) -> int
    decreases s.len(),
{
    if s.len() == 0 {
        0
    } else {
        sat_add(star_sum(s.drop_last()), s.last().stargazers_count as int)
    }
}

/// The fork counts of all repositories, summed with saturation.
pub open spec fn fork_sum(s: Seq<Repository>) -> int
    decreases s.len(),
{
    if s.len() == 0 {
        0
    } else {
        sat_add(fork_sum(s.drop_last()), s.last().forks_count as int)
    }
}

pub proof fn lemma_star_sum_bounds(s: Seq<Repository>)
    ensures
        0 <= star_sum(s) <= COUNT_CAP,
        0 <= fork_sum(s) <= COUNT_CAP,
    decreases s.len(),
{
    if s.len() > 0 {
        lemma_star_sum_bounds(s.drop_last());
    }
}

pub proof fn lemma_star_sum_step(s: Seq<Repository>, i: int)
    requires
        0 <= i < s.len(),
    ensures
        star_sum(s.take(i + 1)) == sat_add(star_sum(s.take(i)), s[i].stargazers_count as int),
        fork_sum(s.take(i + 1)) == sat_add(fork_sum(s.take(i)), s[i].forks_count as int),
{
    assert(s.take(i + 1).drop_last() =~= s.take(i));
    assert(s.take(i + 1).last() == s[i]);
}

/// The summed ages, in days, of the recent push events: the numerator of
/// the mean age that drives the recency decay.
pub open spec fn recent_push_age_sum(s: Seq<Event>, now: int) -> int
    decreases s.len(),
{
    if s.len() == 0 {
        0
    } else {
        recent_push_age_sum(s.drop_last(), now) + if recent_push_pred(now)(s.last()) {
            age_days(now, s.last().created_at as int)
        } else {
            0int
        }
    }
}

/// The age of a recent timestamp is under the 180-day window.
pub proof fn lemma_recent_age_bound(now: int, t: int)
    requires
        is_recent(t, now),
    ensures
        0 <= age_days(now, t) < RECENT_WINDOW_DAYS,
{
    if t < now {
        vstd::arithmetic::div_mod::lemma_div_pos_is_pos(now - t, DAY_SECONDS as int);
        vstd::arithmetic::div_mod::lemma_div_is_ordered(
            now - t,
            RECENT_WINDOW_SECONDS - 1,
            DAY_SECONDS as int,
        );
    }
}

pub proof fn lemma_age_sum_step(s: Seq<Event>, now: int, i: int)
    requires
        0 <= i < s.len(),
    ensures
        recent_push_age_sum(s.take(i + 1), now) == recent_push_age_sum(s.take(i), now)
            + if recent_push_pred(now)(s[i]) {
            age_days(now, s[i].created_at as int)
        } else {
            0int
        },
{
    assert(s.take(i + 1).drop_last() =~= s.take(i));
    assert(s.take(i + 1).last() == s[i]);
}

/// The views of a sequence of strings.
pub open spec fn string_views(s: Seq<String>) -> Seq<Seq<char>> {
    s.map_values(|x: String| x@)
}

/// The distinct repository names touched by the events, first occurrence
/// first: the deduplicated list a forward scan accumulates.
pub open spec fn distinct_repo_names(s: Seq<Event>) -> Seq<Seq<char>>
    decreases s.len(),
{
    if s.len() == 0 {
        Seq::empty()
    } else {
        let rest = distinct_repo_names(s.drop_last());
        match s.last().repo {
            Some(r) => if rest.contains(r.name@) {
                rest
            } else {
                rest.push(r.name@)
            },
            None => rest,
        }
    }
}

pub proof fn lemma_distinct_step(s: Seq<Event>, i: int)
    requires
        0 <= i < s.len(),
    ensures
        distinct_repo_names(s.take(i + 1)) == ({
            let rest = distinct_repo_names(s.take(i));
            match s[i].repo {
                Some(r) => if rest.contains(r.name@) {
                    rest
                } else {
                    rest.push(r.name@)
                },
                None => rest,
            }
        }),
{
    assert(s.take(i + 1).drop_last() =~= s.take(i));
    assert(s.take(i + 1).last() == s[i]);
}

/// Commits in the window, against a cap of 100 recent pushes.
pub open spec fn commit_frequency_points(events: Seq<Event>, now: int) -> int {
    ratio_points(count_where(events, recent_push_pred(now)), 100)
}

/// Recency decay over the recent push events; no recent pushes yield 0.
pub open spec fn commit_recency_points(events: Seq<Event>, now: int) -> int {
    recency_points(
        recent_push_age_sum(events, now),
        count_where(events, recent_push_pred(now)),
        RECENT_WINDOW_DAYS as int,
    )
}

/// Closed-issue events against all issue events; no issues yield 0.
pub open spec fn issue_resolution_points(events: Seq<Event>) -> int {
    ratio_points(count_where(events, closed_issues_pred()), count_where(events, issues_pred()))
}

/// Merged pull requests against all pull requests; none yield 0.
pub open spec fn pr_acceptance_points(prs: Seq<PullRequest>) -> int {
    ratio_points(count_where(prs, merged_pred()), prs.len() as int)
}

/// The Contribution sub-score: the weighted sum of its four factors,
/// with weights 0.35 / 0.25 / 0.20 / 0.20.
pub open spec fn contribution_points(events: Seq<Event>, prs: Seq<PullRequest>, now: int) -> int {
    (350 * commit_frequency_points(events, now) + 250 * commit_recency_points(events, now) + 200
        * issue_resolution_points(events) + 200 * pr_acceptance_points(prs)) / 1000
}

/// Log-magnitude of the summed stars, against a reference of 1000.
pub open spec fn stars_points(repos: Seq<Repository>) -> int {
    log_magnitude_points(star_sum(repos), 1000)
}

/// Log-magnitude of the summed forks, against a reference of 500.
pub open spec fn forks_points(repos: Seq<Repository>) -> int {
    log_magnitude_points(fork_sum(repos), 500)
}

/// The fraction of repositories updated within the window.
pub open spec fn repo_activity_points(repos: Seq<Repository>, now: int) -> int {
    ratio_points(count_where(repos, active_repo_pred(now)), repos.len() as int)
}

/// The mean of the star and fork factors, taken after their clamps, so it
/// already lies in `[0, SCALE]`.
pub open spec fn ecosystem_impact_points(repos: Seq<Repository>) -> int {
    (stars_points(repos) + forks_points(repos)) / 2
}

/// The Repository Significance sub-score: 0 with no repositories at all,
/// else the weighted sum of its four factors, 0.30 / 0.25 / 0.25 / 0.20.
pub open spec fn repo_significance_points(repos: Seq<Repository>, now: int) -> int {
    if repos.len() == 0 {
        0
    } else {
        (300 * stars_points(repos) + 250 * forks_points(repos) + 250 * repo_activity_points(
            repos,
            now,
        ) + 200 * ecosystem_impact_points(repos)) / 1000
    }
}

/// The fixed commit-quality factor: a deliberate placeholder signal of 0.7,
/// kept constant because no commit content is inspected.
pub const COMMIT_QUALITY_POINTS: u64 = 700_000;

/// Review events against a cap of 50.
pub open spec fn code_review_points(events: Seq<Event>) -> int {
    ratio_points(count_where(events, review_pred()), 50)
}

/// The fraction of repositories with a description past 50 characters.
pub open spec fn documentation_points(repos: Seq<Repository>) -> int {
    ratio_points(count_where(repos, documented_pred()), repos.len() as int)
}

/// The Code Quality sub-score: weighted sum of review participation,
/// documentation and the fixed commit-quality factor, 0.30 / 0.30 / 0.40.
pub open spec fn code_quality_points(events: Seq<Event>, repos: Seq<Repository>) -> int {
    (300 * code_review_points(events) + 300 * documentation_points(repos) + 400 * (
    COMMIT_QUALITY_POINTS as int)) / 1000
}

/// Comment events against a cap of 50.
pub open spec fn discussions_points(events: Seq<Event>) -> int {
    ratio_points(count_where(events, discussion_pred()), 50)
}

/// Distinct repositories touched by events, against a cap of 10.
pub open spec fn project_diversity_points(events: Seq<Event>) -> int {
    ratio_points(distinct_repo_names(events).len() as int, 10)
}

/// Repositories owned under the user's own login, against a cap of 5.
pub open spec fn maintainer_roles_points(repos: Seq<Repository>, login: Seq<char>) -> int {
    ratio_points(count_where(repos, owned_repo_pred(login)), 5)
}

/// The Community Engagement sub-score: weighted sum of its three factors,
/// 0.30 / 0.40 / 0.30.
pub open spec fn community_points(
    events: Seq<Event>,
    repos: Seq<Repository>,
    login: Seq<char>,
) -> int {
    (300 * discussions_points(events) + 400 * project_diversity_points(events) + 300
        * maintainer_roles_points(repos, login)) / 1000
}

/// The final score over the raw collections: the four sub-scores under the
/// fixed top-level weights 0.35 / 0.30 / 0.20 / 0.15, which sum to one.
pub open spec fn final_points_parts(
    events: Seq<Event>,
    prs: Seq<PullRequest>,
    repos: Seq<Repository>,
    login: Seq<char>,
    now: int,
) -> int {
    (350 * contribution_points(events, prs, now) + 300 * repo_significance_points(repos, now) + 200
        * code_quality_points(events, repos) + 150 * community_points(events, repos, login)) / 1000
}

/// The final score of a user record.
pub open spec fn final_points(u: GitHubUser, now: int) -> int {
    final_points_parts(u.events@, u.pull_requests@, u.repositories@, u.login@, now)
}

/// A weighted sum of factors in `[0, SCALE]` under weights summing to 1000
/// lands back in `[0, SCALE]`.
pub proof fn lemma_weighted4_bounded(
    w1: int,
    f1: int,
    w2: int,
    f2: int,
    w3: int,
    f3: int,
    w4: int,
    f4: int,
)
    requires
        w1 >= 0 && w2 >= 0 && w3 >= 0 && w4 >= 0,
        w1 + w2 + w3 + w4 == 1000,
        0 <= f1 <= SCALE,
        0 <= f2 <= SCALE,
        0 <= f3 <= SCALE,
        0 <= f4 <= SCALE,
    ensures
        0 <= (w1 * f1 + w2 * f2 + w3 * f3 + w4 * f4) / 1000 <= SCALE,
{
    let total = w1 * f1 + w2 * f2 + w3 * f3 + w4 * f4;
    vstd::arithmetic::mul::lemma_mul_nonnegative(w1, f1);
    vstd::arithmetic::mul::lemma_mul_nonnegative(w2, f2);
    vstd::arithmetic::mul::lemma_mul_nonnegative(w3, f3);
    vstd::arithmetic::mul::lemma_mul_nonnegative(w4, f4);
    vstd::arithmetic::mul::lemma_mul_inequality(f1, SCALE as int, w1);
    vstd::arithmetic::mul::lemma_mul_inequality(f2, SCALE as int, w2);
    vstd::arithmetic::mul::lemma_mul_inequality(f3, SCALE as int, w3);
    vstd::arithmetic::mul::lemma_mul_inequality(f4, SCALE as int, w4);
    assert(w1 * f1 == f1 * w1 && w2 * f2 == f2 * w2 && w3 * f3 == f3 * w3 && w4 * f4 == f4 * w4);
    assert(total <= (SCALE as int) * w1 + (SCALE as int) * w2 + (SCALE as int) * w3 + (
    SCALE as int) * w4);
    assert((SCALE as int) * w1 + (SCALE as int) * w2 + (SCALE as int) * w3 + (SCALE as int) * w4
        == (SCALE as int) * 1000) by {
        vstd::arithmetic::mul::lemma_mul_is_distributive_add(SCALE as int, w1, w2);
        vstd::arithmetic::mul::lemma_mul_is_distributive_add(SCALE as int, w1 + w2, w3);
        vstd::arithmetic::mul::lemma_mul_is_distributive_add(SCALE as int, w1 + w2 + w3, w4);
    }
    vstd::arithmetic::div_mod::lemma_div_pos_is_pos(total, 1000);
    vstd::arithmetic::div_mod::lemma_div_is_ordered(total, (SCALE as int) * 1000, 1000);
    vstd::arithmetic::div_mod::lemma_div_multiples_vanish(SCALE as int, 1000);
    assert((SCALE as int) * 1000 == 1000 * (SCALE as int));
}

/// The nine ordinal rating levels, 0 the lowest, from the fixed threshold
/// ladder: one level per 0.1 of score from 0.2 up, first match from the top.
pub open spec fn rating_level(points: int) -> int {
    if points >= 900000 {
        8
    } else if points >= 800000 {
        7
    } else if points >= 700000 {
        6
    } else if points >= 600000 {
        5
    } else if points >= 500000 {
        4
    } else if points >= 400000 {
        3
    } else if points >= 300000 {
        2
    } else if points >= 200000 {
        1
    } else {
        0
    }
}

/// The label of each rating level.
pub open spec fn rating_name(level: int) -> Seq<char> {
    if level == 8 {
        "Outstanding Contributor"@
    } else if level == 7 {
        "Exceptional Developer"@
    } else if level == 6 {
        "Excellent Developer"@
    } else if level == 5 {
        "Very Good Developer"@
    } else if level == 4 {
        "Strong Developer"@
    } else if level == 3 {
        "Good Developer"@
    } else if level == 2 {
        "Promising Developer"@
    } else if level == 1 {
        "Developing Contributor"@
    } else {
        "Beginner"@
    }
}

/// The rating ladder is monotonic: a higher score never earns a lower level.
pub proof fn lemma_rating_monotone(a: int, b: int)
    requires
        a <= b,
    ensures
        rating_level(a) <= rating_level(b),
{
}

/// The factor breakdown of the Contribution sub-scorer, in order.
pub open spec fn contribution_breakdown_ok(
    events: Seq<Event>,
    prs: Seq<PullRequest>,
    now: int,
    b: Seq<(String, u64)>,
) -> bool {
    &&& b.len() == 4
    &&& b[0].0@ == "commit_frequency"@ && b[0].1 == commit_frequency_points(events, now)
    &&& b[1].0@ == "commit_recency"@ && b[1].1 == commit_recency_points(events, now)
    &&& b[2].0@ == "issue_resolution"@ && b[2].1 == issue_resolution_points(events)
    &&& b[3].0@ == "pr_acceptance"@ && b[3].1 == pr_acceptance_points(prs)
}

/// The factor breakdown of the Repository Significance sub-scorer: empty
/// when the user owns no repositories at all.
pub open spec fn repo_breakdown_ok(repos: Seq<Repository>, now: int, b: Seq<(String, u64)>) -> bool {
    if repos.len() == 0 {
        b.len() == 0
    } else {
        &&& b.len() == 4
        &&& b[0].0@ == "stars"@ && b[0].1 == stars_points(repos)
        &&& b[1].0@ == "forks"@ && b[1].1 == forks_points(repos)
        &&& b[2].0@ == "repo_activity"@ && b[2].1 == repo_activity_points(repos, now)
        &&& b[3].0@ == "ecosystem_impact"@ && b[3].1 == ecosystem_impact_points(repos)
    }
}

/// The factor breakdown of the Code Quality sub-scorer, in order.
pub open spec fn quality_breakdown_ok(
    events: Seq<Event>,
    repos: Seq<Repository>,
    b: Seq<(String, u64)>,
) -> bool {
    &&& b.len() == 3
    &&& b[0].0@ == "code_review_participation"@ && b[0].1 == code_review_points(events)
    &&& b[1].0@ == "documentation"@ && b[1].1 == documentation_points(repos)
    &&& b[2].0@ == "commit_quality"@ && b[2].1 == COMMIT_QUALITY_POINTS
}

/// The factor breakdown of the Community Engagement sub-scorer, in order.
pub open spec fn community_breakdown_ok(
    events: Seq<Event>,
    repos: Seq<Repository>,
    login: Seq<char>,
    b: Seq<(String, u64)>,
) -> bool {
    &&& b.len() == 3
    &&& b[0].0@ == "discussions"@ && b[0].1 == discussions_points(events)
    &&& b[1].0@ == "project_diversity"@ && b[1].1 == project_diversity_points(events)
    &&& b[2].0@ == "maintainer_roles"@ && b[2].1 == maintainer_roles_points(repos, login)
}

/// What `calculate_score` promises of its result: every score field equals
/// its spec-level value, and the breakdown lists the factors by sub-scorer
/// in a fixed order. This pins the whole record to a function of the input
/// and the clock, so two calls on equal input agree bitwise.
pub open spec fn detailed_scores_ok(u: GitHubUser, now: int, d: DetailedScores) -> bool {
    &&& d.final_score == final_points(u, now)
    &&& d.component_scores.contribution_weight == contribution_points(
        u.events@,
        u.pull_requests@,
        now,
    )
    &&& d.component_scores.repo_significance == repo_significance_points(u.repositories@, now)
    &&& d.component_scores.code_quality == code_quality_points(u.events@, u.repositories@)
    &&& d.component_scores.community_engagement == community_points(
        u.events@,
        u.repositories@,
        u.login@,
    )
    &&& d.detailed_components@.len() == 4
    &&& d.detailed_components@[0].0@ == "contribution_weight"@
    &&& contribution_breakdown_ok(u.events@, u.pull_requests@, now, d.detailed_components@[0].1@)
    &&& d.detailed_components@[1].0@ == "repo_significance"@
    &&& repo_breakdown_ok(u.repositories@, now, d.detailed_components@[1].1@)
    &&& d.detailed_components@[2].0@ == "code_quality"@
    &&& quality_breakdown_ok(u.events@, u.repositories@, d.detailed_components@[2].1@)
    &&& d.detailed_components@[3].0@ == "community_engagement"@
    &&& community_breakdown_ok(
        u.events@,
        u.repositories@,
        u.login@,
        d.detailed_components@[3].1@,
    )
}

/// The multi-factor scorer. The weight tables are fixed by construction
/// (each level sums to 1000 per-mille), so scoring is deterministic; the
/// token only rides along for the caller's fetch layer.
pub struct GitHubScorer {
    pub token: Option<String>,
}

impl Default for GitHubScorer {
    fn default() -> (r: Self)
        ensures
            r.token is None,
    {
        GitHubScorer { token: None }
    }
}

impl GitHubScorer {
    pub fn new() -> (r: Self)
        ensures
            r.token is None,
    {
        GitHubScorer { token: None }
    }

    pub fn with_token(token: String) -> (r: Self)
        ensures
            r.token == Some(token),
    {
        GitHubScorer { token: Some(token) }
    }

    /// Maps a final score to its ordinal label: the fixed threshold ladder,
    /// highest first, first match wins.
    pub fn rate_score(&self, points: u64) -> (r: &'static str)
        ensures
            r@ == rating_name(rating_level(points as int)),
    {
        if points >= 900000 {
            "Outstanding Contributor"
        } else if points >= 800000 {
            "Exceptional Developer"
        } else if points >= 700000 {
            "Excellent Developer"
        } else if points >= 600000 {
            "Very Good Developer"
        } else if points >= 500000 {
            "Strong Developer"
        } else if points >= 400000 {
            "Good Developer"
        } else if points >= 300000 {
            "Promising Developer"
        } else if points >= 200000 {
            "Developing Contributor"
        } else {
            "Beginner"
        }
    }

    /// The Contribution sub-scorer: commit frequency and recency over the
    /// window, issue resolution, and pull-request acceptance.
    pub fn score_contribution_weight(&self, user: &GitHubUser, now: i64) -> (r: Result<
        (u64, Vec<(String, u64)>),
        ScoringError,
    >)
        ensures
            r matches Ok(p) && p.0 == contribution_points(
                user.events@,
                user.pull_requests@,
                now as int,
            ) && p.0 <= SCALE && contribution_breakdown_ok(
                user.events@,
                user.pull_requests@,
                now as int,
                p.1@,
            ),
    {
        let ghost events: Seq<Event> = user.events@;
        let ghost gnow: int = now as int;
        let mut recent_pushes: u64 = 0;
        let mut age_sum: u128 = 0;
        let mut issue_events: u64 = 0;
        let mut closed_issues: u64 = 0;
        let mut i: usize = 0;
        while i < user.events.len()
            invariant
                events == user.events@,
                gnow == now as int,
                i <= events.len(),
                recent_pushes == count_where(events.take(i as int), recent_push_pred(gnow)),
                age_sum == recent_push_age_sum(events.take(i as int), gnow),
                issue_events == count_where(events.take(i as int), issues_pred()),
                closed_issues == count_where(events.take(i as int), closed_issues_pred()),
                recent_pushes <= i && issue_events <= i && closed_issues <= i,
                age_sum <= 180 * i,
            decreases events.len() - i,
        {
            proof {
                lemma_count_where_step(events, recent_push_pred(gnow), i as int);
                lemma_count_where_step(events, issues_pred(), i as int);
                lemma_count_where_step(events, closed_issues_pred(), i as int);
                lemma_age_sum_step(events, gnow, i as int);
            }
            let e = &user.events[i];
            if str_eq(e.event_type.as_str(), "PushEvent") && is_recent_i64(e.created_at, now) {
                proof {
                    lemma_recent_age_bound(gnow, e.created_at as int);
                }
                recent_pushes = recent_pushes + 1;
                age_sum = age_sum + (age_days_u64(now, e.created_at) as u128);
            }
            if str_eq(e.event_type.as_str(), "IssuesEvent") {
                issue_events = issue_events + 1;
                let mut closed = false;
                match &e.payload {
                    Some(p) => {
                        match &p.action {
                            Some(a) => {
                                closed = str_eq(a.as_str(), "closed");
                            },
                            None => {},
                        }
                    },
                    None => {},
                }
                if closed {
                    closed_issues = closed_issues + 1;
                }
            }
            i = i + 1;
        }
        proof {
            assert(events.take(events.len() as int) =~= events);
        }
        let mut merged: u64 = 0;
        let mut j: usize = 0;
        let ghost prs: Seq<PullRequest> = user.pull_requests@;
        while j < user.pull_requests.len()
            invariant
                prs == user.pull_requests@,
                j <= prs.len(),
                merged == count_where(prs.take(j as int), merged_pred()),
                merged <= j,
            decreases prs.len() - j,
        {
            proof {
                lemma_count_where_step(prs, merged_pred(), j as int);
            }
            if user.pull_requests[j].merged_at.is_some() {
                merged = merged + 1;
            }
            j = j + 1;
        }
        proof {
            assert(prs.take(prs.len() as int) =~= prs);
        }
        let commit_frequency = crate::points::ratio_points_u64(recent_pushes, 100);
        let commit_recency = crate::points::recency_points_u64(
            age_sum,
            recent_pushes,
            RECENT_WINDOW_DAYS,
        );
        let issue_resolution = crate::points::ratio_points_u64(closed_issues, issue_events);
        let pr_acceptance = crate::points::ratio_points_u64(merged, user.pull_requests.len() as u64);
        let mut breakdown: Vec<(String, u64)> = Vec::new();
        breakdown.push(("commit_frequency".to_owned(), commit_frequency));
        breakdown.push(("commit_recency".to_owned(), commit_recency));
        breakdown.push(("issue_resolution".to_owned(), issue_resolution));
        breakdown.push(("pr_acceptance".to_owned(), pr_acceptance));
        let weighted = (350 * commit_frequency + 250 * commit_recency + 200 * issue_resolution + 200
            * pr_acceptance) / 1000;
        proof {
            lemma_weighted4_bounded(
                350,
                commit_frequency as int,
                250,
                commit_recency as int,
                200,
                issue_resolution as int,
                200,
                pr_acceptance as int,
            );
        }
        Ok((weighted, breakdown))
    }

    /// The Repository Significance sub-scorer: star and fork magnitudes,
    /// the share of recently updated repositories, and ecosystem impact.
    /// A user with no repositories at all scores 0 with an empty breakdown.
    pub fn score_repo_significance(&self, user: &GitHubUser, now: i64) -> (r: Result<
        (u64, Vec<(String, u64)>),
        ScoringError,
    >)
        ensures
            r matches Ok(p) && p.0 == repo_significance_points(user.repositories@, now as int)
                && p.0 <= SCALE && repo_breakdown_ok(user.repositories@, now as int, p.1@),
    {
        if user.repositories.len() == 0 {
            return Ok((0, Vec::new()));
        }
        let ghost repos: Seq<Repository> = user.repositories@;
        let ghost gnow: int = now as int;
        let mut stars_total: u64 = 0;
        let mut forks_total: u64 = 0;
        let mut active: u64 = 0;
        let mut i: usize = 0;
        while i < user.repositories.len()
            invariant
                repos == user.repositories@,
                gnow == now as int,
                i <= repos.len(),
                stars_total == star_sum(repos.take(i as int)),
                forks_total == fork_sum(repos.take(i as int)),
                active == count_where(repos.take(i as int), active_repo_pred(gnow)),
                active <= i,
                stars_total <= COUNT_CAP && forks_total <= COUNT_CAP,
            decreases repos.len() - i,
        {
            proof {
                lemma_star_sum_step(repos, i as int);
                lemma_count_where_step(repos, active_repo_pred(gnow), i as int);
            }
            let rep = &user.repositories[i];
            let s = rep.stargazers_count as u64;
            if stars_total > COUNT_CAP - s {
                stars_total = COUNT_CAP;
            } else {
                stars_total = stars_total + s;
            }
            let f = rep.forks_count as u64;
            if forks_total > COUNT_CAP - f {
                forks_total = COUNT_CAP;
            } else {
                forks_total = forks_total + f;
            }
            if age_days_u64(now, rep.updated_at) <= RECENT_WINDOW_DAYS {
                active = active + 1;
            }
            i = i + 1;
        }
        proof {
            assert(repos.take(repos.len() as int) =~= repos);
        }
        let star_score = crate::points::log_magnitude_points_u64(stars_total, 1000);
        let fork_score = crate::points::log_magnitude_points_u64(forks_total, 500);
        let activity_score = crate::points::ratio_points_u64(
            active,
            user.repositories.len() as u64,
        );
        let ecosystem_score = (star_score + fork_score) / 2;
        let mut breakdown: Vec<(String, u64)> = Vec::new();
        breakdown.push(("stars".to_owned(), star_score));
        breakdown.push(("forks".to_owned(), fork_score));
        breakdown.push(("repo_activity".to_owned(), activity_score));
        breakdown.push(("ecosystem_impact".to_owned(), ecosystem_score));
        let weighted = (300 * star_score + 250 * fork_score + 250 * activity_score + 200
            * ecosystem_score) / 1000;
        proof {
            lemma_weighted4_bounded(
                300,
                star_score as int,
                250,
                fork_score as int,
                250,
                activity_score as int,
                200,
                ecosystem_score as int,
            );
        }
        Ok((weighted, breakdown))
    }

    /// The Code Quality sub-scorer: review participation, documentation
    /// coverage, and the fixed commit-quality placeholder.
    pub fn score_code_quality(&self, user: &GitHubUser) -> (r: Result<
        (u64, Vec<(String, u64)>),
        ScoringError,
    >)
        ensures
            r matches Ok(p) && p.0 == code_quality_points(user.events@, user.repositories@)
                && p.0 <= SCALE && quality_breakdown_ok(user.events@, user.repositories@, p.1@),
    {
        let ghost events: Seq<Event> = user.events@;
        let mut reviews: u64 = 0;
        let mut i: usize = 0;
        while i < user.events.len()
            invariant
                events == user.events@,
                i <= events.len(),
                reviews == count_where(events.take(i as int), review_pred()),
                reviews <= i,
            decreases events.len() - i,
        {
            proof {
                lemma_count_where_step(events, review_pred(), i as int);
            }
            if str_eq(user.events[i].event_type.as_str(), "PullRequestReviewEvent") {
                reviews = reviews + 1;
            }
            i = i + 1;
        }
        proof {
            assert(events.take(events.len() as int) =~= events);
        }
        let ghost repos: Seq<Repository> = user.repositories@;
        let mut documented: u64 = 0;
        let mut j: usize = 0;
        while j < user.repositories.len()
            invariant
                repos == user.repositories@,
                j <= repos.len(),
                documented == count_where(repos.take(j as int), documented_pred()),
                documented <= j,
            decreases repos.len() - j,
        {
            proof {
                lemma_count_where_step(repos, documented_pred(), j as int);
            }
            match &user.repositories[j].description {
                Some(d) => {
                    if d.as_str().unicode_len() > 50 {
                        documented = documented + 1;
                    }
                },
                None => {},
            }
            j = j + 1;
        }
        proof {
            assert(repos.take(repos.len() as int) =~= repos);
        }
        let review_score = crate::points::ratio_points_u64(reviews, 50);
        let doc_score = crate::points::ratio_points_u64(
            documented,
            user.repositories.len() as u64,
        );
        let mut breakdown: Vec<(String, u64)> = Vec::new();
        breakdown.push(("code_review_participation".to_owned(), review_score));
        breakdown.push(("documentation".to_owned(), doc_score));
        breakdown.push(("commit_quality".to_owned(), COMMIT_QUALITY_POINTS));
        let weighted = (300 * review_score + 300 * doc_score + 400 * COMMIT_QUALITY_POINTS) / 1000;
        proof {
            lemma_weighted4_bounded(
                300,
                review_score as int,
                300,
                doc_score as int,
                400,
                COMMIT_QUALITY_POINTS as int,
                0,
                0,
            );
        }
        Ok((weighted, breakdown))
    }

    /// The Community Engagement sub-scorer: comment activity, the spread of
    /// repositories touched by events, and owned repositories.
    pub fn score_community_engagement(&self, user: &GitHubUser) -> (r: Result<
        (u64, Vec<(String, u64)>),
        ScoringError,
    >)
        ensures
            r matches Ok(p) && p.0 == community_points(
                user.events@,
                user.repositories@,
                user.login@,
            ) && p.0 <= SCALE && community_breakdown_ok(
                user.events@,
                user.repositories@,
                user.login@,
                p.1@,
            ),
    {
        let ghost events: Seq<Event> = user.events@;
        let mut discussions: u64 = 0;
        let mut seen: Vec<String> = Vec::new();
        let mut i: usize = 0;
        while i < user.events.len()
            invariant
                events == user.events@,
                i <= events.len(),
                discussions == count_where(events.take(i as int), discussion_pred()),
                discussions <= i,
                string_views(seen@) == distinct_repo_names(events.take(i as int)),
            decreases events.len() - i,
        {
            proof {
                lemma_count_where_step(events, discussion_pred(), i as int);
                lemma_distinct_step(events, i as int);
            }
            let e = &user.events[i];
            if str_eq(e.event_type.as_str(), "IssueCommentEvent") || str_eq(
                e.event_type.as_str(),
                "CommitCommentEvent",
            ) {
                discussions = discussions + 1;
            }
            match &e.repo {
                Some(rep) => {
                    if !contains_name(&seen, rep.name.as_str()) {
                        let owned_name: String = rep.name.as_str().to_owned();
                        seen.push(owned_name);
                        proof {
                            assert(string_views(seen@) =~= distinct_repo_names(
                                events.take(i as int + 1),
                            ));
                        }
                    }
                },
                None => {},
            }
            i = i + 1;
        }
        proof {
            assert(events.take(events.len() as int) =~= events);
        }
        let ghost repos: Seq<Repository> = user.repositories@;
        let mut owned_repos: u64 = 0;
        let mut j: usize = 0;
        while j < user.repositories.len()
            invariant
                repos == user.repositories@,
                j <= repos.len(),
                owned_repos == count_where(repos.take(j as int), owned_repo_pred(user.login@)),
                owned_repos <= j,
            decreases repos.len() - j,
        {
            proof {
                lemma_count_where_step(repos, owned_repo_pred(user.login@), j as int);
            }
            if str_eq(user.repositories[j].owner.login.as_str(), user.login.as_str()) {
                owned_repos = owned_repos + 1;
            }
            j = j + 1;
        }
        proof {
            assert(repos.take(repos.len() as int) =~= repos);
        }
        let discussion_score = crate::points::ratio_points_u64(discussions, 50);
        let diversity_score = crate::points::ratio_points_u64(seen.len() as u64, 10);
        let maintainer_score = crate::points::ratio_points_u64(owned_repos, 5);
        let mut breakdown: Vec<(String, u64)> = Vec::new();
        breakdown.push(("discussions".to_owned(), discussion_score));
        breakdown.push(("project_diversity".to_owned(), diversity_score));
        breakdown.push(("maintainer_roles".to_owned(), maintainer_score));
        let weighted = (300 * discussion_score + 400 * diversity_score + 300 * maintainer_score)
            / 1000;
        proof {
            lemma_weighted4_bounded(
                300,
                discussion_score as int,
                400,
                diversity_score as int,
                300,
                maintainer_score as int,
                0,
                0,
            );
        }
        Ok((weighted, breakdown))
    }

    /// The aggregator: runs the four sub-scorers, combines them under the
    /// fixed top-level weights, and assembles the full breakdown. Pure and
    /// deterministic: equal input and clock give a bitwise-equal record,
    /// and every score lies in `[0, SCALE]`.
    pub fn calculate_score(&self, user: &GitHubUser, now: i64) -> (r: Result<
        DetailedScores,
        ScoringError,
    >)
        ensures
            r matches Ok(d) && detailed_scores_ok(*user, now as int, d),
            r matches Ok(d) && d.final_score <= SCALE && d.component_scores.contribution_weight
                <= SCALE && d.component_scores.repo_significance <= SCALE
                && d.component_scores.code_quality <= SCALE
                && d.component_scores.community_engagement <= SCALE,
    {
        let contribution = match self.score_contribution_weight(user, now) {
            Ok(p) => p,
            Err(e) => {
                return Err(e);
            },
        };
        let repo = match self.score_repo_significance(user, now) {
            Ok(p) => p,
            Err(e) => {
                return Err(e);
            },
        };
        let quality = match self.score_code_quality(user) {
            Ok(p) => p,
            Err(e) => {
                return Err(e);
            },
        };
        let community = match self.score_community_engagement(user) {
            Ok(p) => p,
            Err(e) => {
                return Err(e);
            },
        };
        let component_scores = ScoreComponents {
            contribution_weight: contribution.0,
            repo_significance: repo.0,
            code_quality: quality.0,
            community_engagement: community.0,
        };
        let mut detailed_components: Vec<(String, Vec<(String, u64)>)> = Vec::new();
        detailed_components.push(("contribution_weight".to_owned(), contribution.1));
        detailed_components.push(("repo_significance".to_owned(), repo.1));
        detailed_components.push(("code_quality".to_owned(), quality.1));
        detailed_components.push(("community_engagement".to_owned(), community.1));
        let final_score = (350 * contribution.0 + 300 * repo.0 + 200 * quality.0 + 150
            * community.0) / 1000;
        proof {
            lemma_weighted4_bounded(
                350,
                contribution.0 as int,
                300,
                repo.0 as int,
                200,
                quality.0 as int,
                150,
                community.0 as int,
            );
        }
        Ok(DetailedScores { final_score, component_scores, detailed_components })
    }
}

/// Every factor, every sub-score and the final score lie in `[0, SCALE]`,
/// for every input: the unit interval is never left.
pub proof fn lemma_scores_bounded(
    events: Seq<Event>,
    prs: Seq<PullRequest>,
    repos: Seq<Repository>,
    login: Seq<char>,
    now: int,
)
    ensures
        0 <= commit_frequency_points(events, now) <= SCALE,
        0 <= commit_recency_points(events, now) <= SCALE,
        0 <= issue_resolution_points(events) <= SCALE,
        0 <= pr_acceptance_points(prs) <= SCALE,
        0 <= contribution_points(events, prs, now) <= SCALE,
        0 <= stars_points(repos) <= SCALE,
        0 <= forks_points(repos) <= SCALE,
        0 <= repo_activity_points(repos, now) <= SCALE,
        0 <= ecosystem_impact_points(repos) <= SCALE,
        0 <= repo_significance_points(repos, now) <= SCALE,
        0 <= code_review_points(events) <= SCALE,
        0 <= documentation_points(repos) <= SCALE,
        0 <= code_quality_points(events, repos) <= SCALE,
        0 <= discussions_points(events) <= SCALE,
        0 <= project_diversity_points(events) <= SCALE,
        0 <= maintainer_roles_points(repos, login) <= SCALE,
        0 <= community_points(events, repos, login) <= SCALE,
        0 <= final_points_parts(events, prs, repos, login, now) <= SCALE,
{
    crate::points::lemma_ratio_points_bounded(count_where(events, recent_push_pred(now)), 100);
    crate::points::lemma_recency_points_bounded(
        recent_push_age_sum(events, now),
        count_where(events, recent_push_pred(now)),
        RECENT_WINDOW_DAYS as int,
    );
    crate::points::lemma_ratio_points_bounded(
        count_where(events, closed_issues_pred()),
        count_where(events, issues_pred()),
    );
    crate::points::lemma_ratio_points_bounded(count_where(prs, merged_pred()), prs.len() as int);
    lemma_weighted4_bounded(
        350,
        commit_frequency_points(events, now),
        250,
        commit_recency_points(events, now),
        200,
        issue_resolution_points(events),
        200,
        pr_acceptance_points(prs),
    );
    lemma_star_sum_bounds(repos);
    crate::points::lemma_log_magnitude_raw_nonneg(star_sum(repos), 1000);
    crate::points::lemma_log_magnitude_raw_nonneg(fork_sum(repos), 500);
    crate::points::lemma_ratio_points_bounded(
        count_where(repos, active_repo_pred(now)),
        repos.len() as int,
    );
    vstd::arithmetic::div_mod::lemma_div_pos_is_pos(
        stars_points(repos) + forks_points(repos),
        2,
    );
    vstd::arithmetic::div_mod::lemma_div_is_ordered(
        stars_points(repos) + forks_points(repos),
        2 * (SCALE as int),
        2,
    );
    vstd::arithmetic::div_mod::lemma_div_multiples_vanish(SCALE as int, 2);
    if repos.len() > 0 {
        lemma_weighted4_bounded(
            300,
            stars_points(repos),
            250,
            forks_points(repos),
            250,
            repo_activity_points(repos, now),
            200,
            ecosystem_impact_points(repos),
        );
    }
    crate::points::lemma_ratio_points_bounded(count_where(events, review_pred()), 50);
    crate::points::lemma_ratio_points_bounded(
        count_where(repos, documented_pred()),
        repos.len() as int,
    );
    lemma_weighted4_bounded(
        300,
        code_review_points(events),
        300,
        documentation_points(repos),
        400,
        COMMIT_QUALITY_POINTS as int,
        0,
        0,
    );
    crate::points::lemma_ratio_points_bounded(count_where(events, discussion_pred()), 50);
    crate::points::lemma_ratio_points_bounded(distinct_repo_names(events).len() as int, 10);
    crate::points::lemma_ratio_points_bounded(count_where(repos, owned_repo_pred(login)), 5);
    lemma_weighted4_bounded(
        300,
        discussions_points(events),
        400,
        project_diversity_points(events),
        300,
        maintainer_roles_points(repos, login),
        0,
        0,
    );
    lemma_weighted4_bounded(
        350,
        contribution_points(events, prs, now),
        300,
        repo_significance_points(repos, now),
        200,
        code_quality_points(events, repos),
        150,
        community_points(events, repos, login),
    );
}

/// Pointwise equality of two factor breakdowns: same length, same factor
/// names and the same points at every position.
pub open spec fn breakdown_points_eq(a: Seq<(String, u64)>, b: Seq<(String, u64)>) -> bool {
    &&& a.len() == b.len()
    &&& forall|j: int| 0 <= j < a.len() ==> #[trigger] a[j].0@ == b[j].0@ && a[j].1 == b[j].1
}

/// Idempotence of the aggregator: two results that both satisfy the
/// aggregator's contract for the same input and clock carry the same final
/// score, the same sub-scores, and the same breakdown content. Since
/// `calculate_score` always returns a conforming record, two calls on equal
/// input agree on everything the record holds.
pub proof fn lemma_scoring_idempotent(
    u1: GitHubUser,
    u2: GitHubUser,
    now: int,
    d1: DetailedScores,
    d2: DetailedScores,
)
    requires
        u1 == u2,
        detailed_scores_ok(u1, now, d1),
        detailed_scores_ok(u2, now, d2),
    ensures
        d1.final_score == d2.final_score,
        d1.component_scores == d2.component_scores,
        d1.detailed_components@.len() == d2.detailed_components@.len(),
        forall|i: int|
            0 <= i < 4 ==> #[trigger] d1.detailed_components@[i].0@
                == d2.detailed_components@[i].0@,
        forall|i: int|
            0 <= i < 4 ==> breakdown_points_eq(
                #[trigger] d1.detailed_components@[i].1@,
                d2.detailed_components@[i].1@,
            ),
{
    assert forall|i: int| 0 <= i < 4 implies #[trigger] d1.detailed_components@[i].0@
        == d2.detailed_components@[i].0@ by {
        assert(i == 0 || i == 1 || i == 2 || i == 3);
    }
    assert forall|i: int| 0 <= i < 4 implies breakdown_points_eq(
        #[trigger] d1.detailed_components@[i].1@,
        d2.detailed_components@[i].1@,
    ) by {
        assert(i == 0 || i == 1 || i == 2 || i == 3);
    }
}

/// An empty user record scores strictly below one tenth: with no
/// repositories, events or pull requests every factor degrades to zero
/// except the fixed commit-quality placeholder, which leaves exactly
/// 0.056 of the unit.
pub proof fn lemma_empty_user_scores_low(u: GitHubUser, now: int)
    requires
        u.repositories@.len() == 0,
        u.events@.len() == 0,
        u.pull_requests@.len() == 0,
    ensures
        final_points(u, now) == 56000,
        final_points(u, now) < 100000,
{
    let events = u.events@;
    let prs = u.pull_requests@;
    let repos = u.repositories@;
    assert(count_where(events, recent_push_pred(now)) == 0);
    assert(count_where(events, issues_pred()) == 0);
    assert(count_where(events, closed_issues_pred()) == 0);
    assert(count_where(events, review_pred()) == 0);
    assert(count_where(events, discussion_pred()) == 0);
    assert(count_where(prs, merged_pred()) == 0);
    assert(count_where(repos, owned_repo_pred(u.login@)) == 0);
    assert(recent_push_age_sum(events, now) == 0);
    assert(distinct_repo_names(events).len() == 0);
    assert(commit_frequency_points(events, now) == 0);
    assert(commit_recency_points(events, now) == 0);
    assert(issue_resolution_points(events) == 0);
    assert(pr_acceptance_points(prs) == 0);
    assert(contribution_points(events, prs, now) == 0);
    assert(repo_significance_points(repos, now) == 0);
    assert(code_review_points(events) == 0);
    assert(documentation_points(repos) == 0);
    assert(code_quality_points(events, repos) == (400 * 700000) / 1000);
    assert((400 * 700000int) / 1000 == 280000);
    assert(discussions_points(events) == 0);
    assert(project_diversity_points(events) == 0);
    assert(maintainer_roles_points(repos, u.login@) == 0);
    assert(community_points(events, repos, u.login@) == 0);
    assert(final_points(u, now) == (200 * 280000int) / 1000);
    assert((200 * 280000int) / 1000 == 56000);
}

/// Whether `views` of the seen list holds a name.
fn contains_name(seen: &Vec<String>, name: &str) -> (r: bool)
    ensures
        r == string_views(seen@).contains(name@),
{
    let ghost views: Seq<Seq<char>> = string_views(seen@);
    let mut j: usize = 0;
    while j < seen.len()
        invariant
            views == string_views(seen@),
            j <= seen.len(),
            forall|q: int| 0 <= q < j ==> views[q] != name@,
        decreases seen.len() - j,
    {
        if str_eq(seen[j].as_str(), name) {
            proof {
                assert(views[j as int] == name@);
            }
            return true;
        }
        j = j + 1;
    }
    proof {
        if views.contains(name@) {
            let w = choose|q: int| 0 <= q < views.len() && views[q] == name@;
            assert(false);
        }
    }
    false
}

} // verus!
