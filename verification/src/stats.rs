//! Derived statistics over the same raw collections the scorer reads:
//! repository totals, activity counts, a seven-day activity trend, and a
//! language histogram. The response layer renders these around the score.

use vstd::prelude::*;

use crate::scoring::{
    count_where, fork_sum, is_issues_event, is_push_event, lemma_count_where_step,
    lemma_star_sum_step, star_sum, str_eq, string_views, Event, GitHubUser, COUNT_CAP, DAY_SECONDS,
};

verus! {

/// Repository and contribution totals. Star and fork totals saturate at
/// `COUNT_CAP`, like the sums the scorer uses.
#[derive(Debug, Clone, PartialEq, Eq)]
pub struct UserStats {
    pub total_repositories: u64,
    pub total_stars: u64,
    pub total_forks: u64,
    pub total_contributions: u64,
}

/// Counts of push, pull-request and issue events in the feed.
#[derive(Debug, Clone, PartialEq, Eq)]
pub struct ActivityCounts {
    pub commits: u64,
    pub pull_requests: u64,
    pub issues: u64,
}

/// One day of the activity trend: the day index is the count of whole days
/// since the Unix epoch, so the rendering layer can name the date.
#[derive(Debug, Clone, PartialEq, Eq)]
pub struct ActivityPoint {
    pub day_index: i64,
    pub commits: u64,
    pub pull_requests: u64,
    pub issues: u64,
}

pub open spec fn is_pr_event(e: Event) -> bool {
    e.event_type@ == "PullRequestEvent"@
}

pub open spec fn pr_event_pred() -> spec_fn(Event) -> bool {
    |e: Event| is_pr_event(e)
}

pub open spec fn push_event_pred() -> spec_fn(Event) -> bool {
    |e: Event| is_push_event(e)
}

pub open spec fn issues_event_pred() -> spec_fn(Event) -> bool {
    |e: Event| is_issues_event(e)
}

/// The UTC day a timestamp falls in, as whole days since the Unix epoch;
/// timestamps before the epoch all land on day zero.
pub open spec fn day_of(t: int) -> int {
    if t <= 0 {
        0
    } else {
        t / (DAY_SECONDS as int)
    }
}

/// Computes `day_of` exactly.
pub fn day_of_i64(t: i64) -> (r: i64)
    ensures
        r == day_of(t as int),
        0 <= r,
{
    if t <= 0 {
        0
    } else {
        t / (DAY_SECONDS as i64)
    }
}

pub open spec fn push_on_day_pred(day: int) -> spec_fn(Event) -> bool {
    |e: Event| is_push_event(e) && day_of(e.created_at as int) == day
}

pub open spec fn pr_on_day_pred(day: int) -> spec_fn(Event) -> bool {
    |e: Event| is_pr_event(e) && day_of(e.created_at as int) == day
}

pub open spec fn issues_on_day_pred(day: int) -> spec_fn(Event) -> bool {
    |e: Event| is_issues_event(e) && day_of(e.created_at as int) == day
}

/// Repository and contribution totals for a user record.
pub fn user_stats(user: &GitHubUser) -> (r: UserStats)
    ensures
        r.total_repositories == user.repositories@.len(),
        r.total_stars == star_sum(user.repositories@),
        r.total_forks == fork_sum(user.repositories@),
        r.total_contributions == user.events@.len(),
{
    let ghost repos = user.repositories@;
    let mut stars: u64 = 0;
    let mut forks: u64 = 0;
    let mut i: usize = 0;
    while i < user.repositories.len()
        invariant
            repos == user.repositories@,
            i <= repos.len(),
            stars == star_sum(repos.take(i as int)),
            forks == fork_sum(repos.take(i as int)),
            stars <= COUNT_CAP && forks <= COUNT_CAP,
        decreases repos.len() - i,
    {
        proof {
            lemma_star_sum_step(repos, i as int);
        }
        let rep = &user.repositories[i];
        let s = rep.stargazers_count as u64;
        if stars > COUNT_CAP - s {
            stars = COUNT_CAP;
        } else {
            stars = stars + s;
        }
        let f = rep.forks_count as u64;
        if forks > COUNT_CAP - f {
            forks = COUNT_CAP;
        } else {
            forks = forks + f;
        }
        i = i + 1;
    }
    proof {
        assert(repos.take(repos.len() as int) =~= repos);
    }
    UserStats {
        total_repositories: user.repositories.len() as u64,
        total_stars: stars,
        total_forks: forks,
        total_contributions: user.events.len() as u64,
    }
}

/// How many events of the feed are pushes, pull requests and issues.
pub fn activity_counts(events: &Vec<Event>) -> (r: ActivityCounts)
    ensures
        r.commits == count_where(events@, push_event_pred()),
        r.pull_requests == count_where(events@, pr_event_pred()),
        r.issues == count_where(events@, issues_event_pred()),
{
    let ghost s = events@;
    let mut commits: u64 = 0;
    let mut prs: u64 = 0;
    let mut issues: u64 = 0;
    let mut i: usize = 0;
    while i < events.len()
        invariant
            s == events@,
            i <= s.len(),
            commits == count_where(s.take(i as int), push_event_pred()),
            prs == count_where(s.take(i as int), pr_event_pred()),
            issues == count_where(s.take(i as int), issues_event_pred()),
            commits <= i && prs <= i && issues <= i,
        decreases s.len() - i,
    {
        proof {
            lemma_count_where_step(s, push_event_pred(), i as int);
            lemma_count_where_step(s, pr_event_pred(), i as int);
            lemma_count_where_step(s, issues_event_pred(), i as int);
        }
        let e = &events[i];
        if str_eq(e.event_type.as_str(), "PushEvent") {
            commits = commits + 1;
        }
        if str_eq(e.event_type.as_str(), "PullRequestEvent") {
            prs = prs + 1;
        }
        if str_eq(e.event_type.as_str(), "IssuesEvent") {
            issues = issues + 1;
        }
        i = i + 1;
    }
    proof {
        assert(s.take(s.len() as int) =~= s);
    }
    ActivityCounts { commits, pull_requests: prs, issues }
}

/// Counts the events of one UTC day by kind.
fn day_counts(events: &Vec<Event>, day: i64) -> (r: ActivityPoint)
    ensures
        r.day_index == day,
        r.commits == count_where(events@, push_on_day_pred(day as int)),
        r.pull_requests == count_where(events@, pr_on_day_pred(day as int)),
        r.issues == count_where(events@, issues_on_day_pred(day as int)),
{
    let ghost s = events@;
    let ghost gday: int = day as int;
    let mut commits: u64 = 0;
    let mut prs: u64 = 0;
    let mut issues: u64 = 0;
    let mut i: usize = 0;
    while i < events.len()
        invariant
            s == events@,
            gday == day as int,
            i <= s.len(),
            commits == count_where(s.take(i as int), push_on_day_pred(gday)),
            prs == count_where(s.take(i as int), pr_on_day_pred(gday)),
            issues == count_where(s.take(i as int), issues_on_day_pred(gday)),
            commits <= i && prs <= i && issues <= i,
        decreases s.len() - i,
    {
        proof {
            lemma_count_where_step(s, push_on_day_pred(gday), i as int);
            lemma_count_where_step(s, pr_on_day_pred(gday), i as int);
            lemma_count_where_step(s, issues_on_day_pred(gday), i as int);
        }
        let e = &events[i];
        if day_of_i64(e.created_at) == day {
            if str_eq(e.event_type.as_str(), "PushEvent") {
                commits = commits + 1;
            }
            if str_eq(e.event_type.as_str(), "PullRequestEvent") {
                prs = prs + 1;
            }
            if str_eq(e.event_type.as_str(), "IssuesEvent") {
                issues = issues + 1;
            }
        }
        i = i + 1;
    }
    proof {
        assert(s.take(s.len() as int) =~= s);
    }
    ActivityPoint { day_index: day, commits, pull_requests: prs, issues }
}

/// The activity trend of the last seven UTC days, today first: for each
/// day, how many pushes, pull requests and issues the feed holds.
pub fn activity_trend(events: &Vec<Event>, now: i64) -> (r: Vec<ActivityPoint>)
    ensures
        r@.len() == 7,
        forall|i: int|
            0 <= i < 7 ==> {
                let day = day_of(now as int) - i;
                &&& (#[trigger] r@[i]).day_index == day
                &&& r@[i].commits == count_where(events@, push_on_day_pred(day))
                &&& r@[i].pull_requests == count_where(events@, pr_on_day_pred(day))
                &&& r@[i].issues == count_where(events@, issues_on_day_pred(day))
            },
{
    let today = day_of_i64(now);
    let mut trend: Vec<ActivityPoint> = Vec::new();
    let mut i: u64 = 0;
    while i < 7
        invariant
            i <= 7,
            0 <= today == day_of(now as int),
            trend@.len() == i,
            forall|q: int|
                0 <= q < i ==> {
                    let day = day_of(now as int) - q;
                    &&& (#[trigger] trend@[q]).day_index == day
                    &&& trend@[q].commits == count_where(events@, push_on_day_pred(day))
                    &&& trend@[q].pull_requests == count_where(events@, pr_on_day_pred(day))
                    &&& trend@[q].issues == count_where(events@, issues_on_day_pred(day))
                },
        decreases 7 - i,
    {
        let point = day_counts(events, today - (i as i64));
        trend.push(point);
        i = i + 1;
    }
    trend
}

/// Every string equal to `k`.
pub open spec fn name_eq_pred(k: Seq<char>) -> spec_fn(String) -> bool {
    |x: String| x@ == k
}

/// The distinct strings of a list, first occurrence first.
pub open spec fn distinct_strings(s: Seq<String>) -> Seq<Seq<char>>
    decreases s.len(),
{
    if s.len() == 0 {
        Seq::empty()
    } else {
        let rest = distinct_strings(s.drop_last());
        if rest.contains(s.last()@) {
            rest
        } else {
            rest.push(s.last()@)
        }
    }
}

pub proof fn lemma_distinct_strings_step(s: Seq<String>, i: int)
    requires
        0 <= i < s.len(),
    ensures
        distinct_strings(s.take(i + 1)) == ({
            let rest = distinct_strings(s.take(i));
            if rest.contains(s[i]@) {
                rest
            } else {
                rest.push(s[i]@)
            }
        }),
{
    assert(s.take(i + 1).drop_last() =~= s.take(i));
    assert(s.take(i + 1).last() == s[i]);
}

/// The language histogram: each language named by the repositories, first
/// appearance first, with how many repositories name it.
pub fn language_counts(languages: &Vec<String>) -> (r: Vec<(String, u64)>)
    ensures
        r@.len() == distinct_strings(languages@).len(),
        forall|i: int|
            0 <= i < r@.len() ==> (#[trigger] r@[i]).0@ == distinct_strings(languages@)[i]
                && r@[i].1 == count_where(languages@, name_eq_pred(distinct_strings(languages@)[i])),
{
    let ghost s = languages@;
    let mut seen: Vec<String> = Vec::new();
    let mut i: usize = 0;
    while i < languages.len()
        invariant
            s == languages@,
            i <= s.len(),
            string_views(seen@) == distinct_strings(s.take(i as int)),
        decreases s.len() - i,
    {
        proof {
            lemma_distinct_strings_step(s, i as int);
        }
        let lang = &languages[i];
        if !contains_string(&seen, lang.as_str()) {
            let owned_lang: String = lang.as_str().to_owned();
            seen.push(owned_lang);
            proof {
                assert(string_views(seen@) =~= distinct_strings(s.take(i as int + 1)));
            }
        }
        i = i + 1;
    }
    proof {
        assert(s.take(s.len() as int) =~= s);
    }
    let ghost names = distinct_strings(s);
    let mut counts: Vec<(String, u64)> = Vec::new();
    let mut j: usize = 0;
    while j < seen.len()
        invariant
            s == languages@,
            names == distinct_strings(s),
            string_views(seen@) == names,
            j <= seen.len(),
            counts@.len() == j,
            forall|q: int|
                0 <= q < j ==> (#[trigger] counts@[q]).0@ == names[q] && counts@[q].1
                    == count_where(s, name_eq_pred(names[q])),
        decreases seen.len() - j,
    {
        let name = &seen[j];
        let c = count_language(languages, name.as_str());
        proof {
            assert(string_views(seen@)[j as int] == name@);
        }
        let owned_name: String = name.as_str().to_owned();
        counts.push((owned_name, c));
        j = j + 1;
    }
    counts
}

/// How many entries of the list equal the name.
fn count_language(languages: &Vec<String>, name: &str) -> (r: u64)
    ensures
        r == count_where(languages@, name_eq_pred(name@)),
{
    let ghost s = languages@;
    let mut c: u64 = 0;
    let mut i: usize = 0;
    while i < languages.len()
        invariant
            s == languages@,
            i <= s.len(),
            c == count_where(s.take(i as int), name_eq_pred(name@)),
            c <= i,
        decreases s.len() - i,
    {
        proof {
            lemma_count_where_step(s, name_eq_pred(name@), i as int);
        }
        if str_eq(languages[i].as_str(), name) {
            c = c + 1;
        }
        i = i + 1;
    }
    proof {
        assert(s.take(s.len() as int) =~= s);
    }
    c
}

/// Whether the list holds the name.
fn contains_string(seen: &Vec<String>, name: &str) -> (r: bool)
    ensures
        r == string_views(seen@).contains(name@),
{
    let ghost views: Seq<Seq<char>> = string_views(seen@);
    let mut j: usize = 0;
    while j < seen.len()
        invariant
            views == string_views(seen@),
            j <= seen.len(),
            forall|q: int| 0 <= q < j ==> views[q] != name@,
        decreases seen.len() - j,
    {
        if str_eq(seen[j].as_str(), name) {
            proof {
                assert(views[j as int] == name@);
            }
            return true;
        }
        j = j + 1;
    }
    proof {
        if views.contains(name@) {
            let w = choose|q: int| 0 <= q < views.len() && views[q] == name@;
            assert(false);
        }
    }
    false
}

/// Every string whose content is `v`.
pub open spec fn view_eq_pred(v: Seq<char>) -> spec_fn(Seq<char>) -> bool {
    |n: Seq<char>| n == v
}

/// The counts of the first `k` histogram names, summed.
pub open spec fn counts_sum(s: Seq<String>, names: Seq<Seq<char>>, k: int) -> int
    decreases k,
{
    if k <= 0 {
        0
    } else {
        counts_sum(s, names, k - 1) + count_where(s, name_eq_pred(names[k - 1]))
    }
}

/// A predicate no element satisfies counts to zero.
proof fn lemma_count_where_zero<A>(s: Seq<A>, p: spec_fn(A) -> bool)
    requires
        forall|i: int| 0 <= i < s.len() ==> !p(#[trigger] s[i]),
    ensures
        count_where(s, p) == 0,
    decreases s.len(),
{
    if s.len() > 0 {
        assert(forall|i: int| 0 <= i < s.len() - 1 ==> s.drop_last()[i] == s[i]);
        lemma_count_where_zero(s.drop_last(), p);
    }
}

/// The histogram names are exactly the contents that occur in the list.
proof fn lemma_distinct_strings_complete(s: Seq<String>, v: Seq<char>)
    ensures
        distinct_strings(s).contains(v) <==> exists|i: int| 0 <= i < s.len() && s[i]@ == v,
    decreases s.len(),
{
    if s.len() > 0 {
        lemma_distinct_strings_complete(s.drop_last(), v);
        assert(forall|i: int| 0 <= i < s.len() - 1 ==> s.drop_last()[i] == s[i]);
        if s.last()@ == v {
            assert(s[s.len() - 1]@ == v);
            let rest = distinct_strings(s.drop_last());
            if !rest.contains(v) {
                assert(rest.push(v)[rest.len() as int] == v);
            }
        } else {
            let rest = distinct_strings(s.drop_last());
            if exists|i: int| 0 <= i < s.len() && s[i]@ == v {
                let w = choose|i: int| 0 <= i < s.len() && s[i]@ == v;
                assert(w < s.len() - 1);
                assert(s.drop_last()[w]@ == v);
                if !rest.contains(s.last()@) {
                    let u = choose|i: int| 0 <= i < rest.len() && rest[i] == v;
                    assert(rest.push(s.last()@)[u] == v);
                }
            }
            if distinct_strings(s).contains(v) {
                if !rest.contains(s.last()@) {
                    let w = choose|i: int|
                        0 <= i < rest.push(s.last()@).len() && rest.push(s.last()@)[i] == v;
                    assert(w < rest.len());
                    assert(rest[w] == v);
                }
            }
        }
    }
}

/// The histogram names never repeat.
proof fn lemma_distinct_strings_no_dup(s: Seq<String>)
    ensures
        forall|i: int, j: int|
            0 <= i < j < distinct_strings(s).len() ==> distinct_strings(s)[i] != distinct_strings(
                s,
            )[j],
    decreases s.len(),
{
    if s.len() > 0 {
        lemma_distinct_strings_no_dup(s.drop_last());
        let rest = distinct_strings(s.drop_last());
        if !rest.contains(s.last()@) {
            assert forall|i: int, j: int|
                0 <= i < j < rest.push(s.last()@).len() implies rest.push(s.last()@)[i] != rest.push(
                s.last()@,
            )[j] by {
                if j == rest.len() {
                    assert(rest[i] != s.last()@);
                }
            }
        }
    }
}

/// In a list without repeats, a content occurs once if present, else not
/// at all.
proof fn lemma_occurrences_in_distinct(names: Seq<Seq<char>>, v: Seq<char>)
    requires
        forall|i: int, j: int| 0 <= i < j < names.len() ==> names[i] != names[j],
    ensures
        count_where(names, view_eq_pred(v)) == if names.contains(v) {
            1int
        } else {
            0int
        },
    decreases names.len(),
{
    if names.len() > 0 {
        let rest = names.drop_last();
        assert(forall|i: int| 0 <= i < rest.len() ==> rest[i] == names[i]);
        lemma_occurrences_in_distinct(rest, v);
        if names.last() == v {
            assert(!rest.contains(v)) by {
                if rest.contains(v) {
                    let w = choose|i: int| 0 <= i < rest.len() && rest[i] == v;
                    assert(names[w] == names[names.len() - 1]);
                }
            }
        } else {
            if rest.contains(v) {
                let w = choose|i: int| 0 <= i < rest.len() && rest[i] == v;
                assert(names[w] == v);
            }
            if names.contains(v) {
                let w = choose|i: int| 0 <= i < names.len() && names[i] == v;
                assert(rest[w] == v);
            }
        }
    }
}

/// Appending one string raises the summed counts by how often its content
/// stands among the first `k` names.
proof fn lemma_counts_sum_append(s: Seq<String>, x: String, names: Seq<Seq<char>>, k: int)
    requires
        0 <= k <= names.len(),
    ensures
        counts_sum(s.push(x), names, k) == counts_sum(s, names, k) + count_where(
            names.take(k),
            view_eq_pred(x@),
        ),
    decreases k,
{
    if k <= 0 {
        assert(names.take(0) =~= Seq::<Seq<char>>::empty());
    } else {
        lemma_counts_sum_append(s, x, names, k - 1);
        assert(s.push(x).drop_last() =~= s);
        assert(s.push(x).last() == x);
        lemma_count_where_step(names, view_eq_pred(x@), k - 1);
    }
}

/// The summed counts only read the first `k` names.
proof fn lemma_counts_sum_congruent(
    s: Seq<String>,
    names1: Seq<Seq<char>>,
    names2: Seq<Seq<char>>,
    k: int,
)
    requires
        forall|i: int| 0 <= i < k ==> names1[i] == names2[i],
    ensures
        counts_sum(s, names1, k) == counts_sum(s, names2, k),
    decreases k,
{
    if k > 0 {
        lemma_counts_sum_congruent(s, names1, names2, k - 1);
    }
}

/// The histogram partitions the list: the per-language counts sum to its
/// length. The rendered shares therefore sum to the whole, up to the
/// floor taken in each share.
pub proof fn lemma_language_counts_partition(s: Seq<String>)
    ensures
        counts_sum(s, distinct_strings(s), distinct_strings(s).len() as int) == s.len(),
    decreases s.len(),
{
    if s.len() > 0 {
        let rest = s.drop_last();
        let x = s.last();
        let d_rest = distinct_strings(rest);
        let d = distinct_strings(s);
        lemma_language_counts_partition(rest);
        lemma_distinct_strings_no_dup(rest);
        assert(rest.push(x) =~= s);
        if d_rest.contains(x@) {
            assert(d == d_rest);
            lemma_counts_sum_append(rest, x, d_rest, d_rest.len() as int);
            assert(d_rest.take(d_rest.len() as int) =~= d_rest);
            lemma_occurrences_in_distinct(d_rest, x@);
        } else {
            assert(d == d_rest.push(x@));
            assert(counts_sum(s, d, d.len() as int) == counts_sum(s, d, d_rest.len() as int)
                + count_where(s, name_eq_pred(d[d_rest.len() as int])));
            assert(d[d_rest.len() as int] == x@);
            assert(forall|i: int| 0 <= i < d_rest.len() ==> d[i] == d_rest[i]);
            lemma_counts_sum_congruent(s, d, d_rest, d_rest.len() as int);
            lemma_counts_sum_append(rest, x, d_rest, d_rest.len() as int);
            assert(d_rest.take(d_rest.len() as int) =~= d_rest);
            lemma_occurrences_in_distinct(d_rest, x@);
            lemma_distinct_strings_complete(rest, x@);
            assert(forall|i: int|
                0 <= i < rest.len() ==> !name_eq_pred(x@)(#[trigger] rest[i]));
            lemma_count_where_zero(rest, name_eq_pred(x@));
            assert(count_where(s, name_eq_pred(x@)) == count_where(rest, name_eq_pred(x@)) + 1)
                by {
                assert(s.drop_last() =~= rest);
                assert(name_eq_pred(x@)(s.last()));
            }
        }
    }
}

/// The share of `count` in `total`, in thousandths of a percent: the
/// histogram is rendered as percentages with three decimals. An empty
/// total yields zero shares throughout.
pub fn percent_milli(count: u64, total: u64) -> (r: u64)
    requires
        count <= total,
    ensures
        r == if total == 0 {
            0int
        } else {
            100000 * count / total as int
        },
        r <= 100000,
{
    if total == 0 {
        0
    } else {
        proof {
            vstd::arithmetic::mul::lemma_mul_upper_bound(
                100000,
                100000,
                count as int,
                u64::MAX as int,
            );
            vstd::arithmetic::div_mod::lemma_div_pos_is_pos(100000 * (count as int), total as int);
            vstd::arithmetic::mul::lemma_mul_inequality(count as int, total as int, 100000);
            assert(100000 * (count as int) == (count as int) * 100000);
            assert(100000 * (total as int) == (total as int) * 100000);
            vstd::arithmetic::div_mod::lemma_div_is_ordered(
                100000 * (count as int),
                100000 * (total as int),
                total as int,
            );
            vstd::arithmetic::div_mod::lemma_div_multiples_vanish(100000, total as int);
            assert(100000 * (total as int) == (total as int) * 100000);
        }
        ((100000u128 * (count as u128)) / (total as u128)) as u64
    }
}

} // verus!
