use github_score::scoring::{Event, GitHubUser, Repo, Repository, User};
use github_score::stats::{
    activity_counts, activity_trend, language_counts, percent_milli, user_stats,
};

const DAY: i64 = 86400;
const NOW: i64 = 1_700_000_000;

fn event(kind: &str, created_at: i64) -> Event {
    Event {
        event_type: kind.to_string(),
        created_at,
        repo: Some(Repo {
            name: "somewhere".to_string(),
        }),
        payload: None,
    }
}

fn repository(stars: u32, forks: u32) -> Repository {
    Repository {
        name: "r".to_string(),
        full_name: "o/r".to_string(),
        stargazers_count: stars,
        forks_count: forks,
        updated_at: NOW,
        owner: User {
            login: "o".to_string(),
        },
        description: None,
    }
}

#[test]
fn totals_sum_stars_and_forks() {
    let user = GitHubUser {
        login: "o".to_string(),
        repositories: vec![repository(10, 3), repository(25, 7), repository(0, 0)],
        events: vec![event("PushEvent", NOW), event("WatchEvent", NOW)],
        pull_requests: vec![],
    };
    let stats = user_stats(&user);
    assert_eq!(stats.total_repositories, 3);
    assert_eq!(stats.total_stars, 35);
    assert_eq!(stats.total_forks, 10);
    assert_eq!(stats.total_contributions, 2);
}

#[test]
fn activity_counts_by_kind() {
    let events = vec![
        event("PushEvent", NOW),
        event("PushEvent", NOW - DAY),
        event("PullRequestEvent", NOW),
        event("IssuesEvent", NOW),
        event("ReleaseEvent", NOW),
    ];
    let counts = activity_counts(&events);
    assert_eq!(counts.commits, 2);
    assert_eq!(counts.pull_requests, 1);
    assert_eq!(counts.issues, 1);
}

#[test]
fn trend_covers_seven_days_today_first() {
    let events = vec![
        event("PushEvent", NOW),
        event("PushEvent", NOW - 2 * DAY),
        event("IssuesEvent", NOW - 2 * DAY),
        event("PullRequestEvent", NOW - 10 * DAY),
    ];
    let trend = activity_trend(&events, NOW);
    assert_eq!(trend.len(), 7);
    assert_eq!(trend[0].day_index, NOW / DAY);
    assert_eq!(trend[0].commits, 1);
    assert_eq!(trend[0].issues, 0);
    assert_eq!(trend[2].commits, 1);
    assert_eq!(trend[2].issues, 1);
    // The event ten days back falls outside every bucket.
    let prs: u64 = trend.iter().map(|p| p.pull_requests).sum();
    assert_eq!(prs, 0);
}

#[test]
fn language_histogram_counts_first_appearance_first() {
    let langs = vec![
        "Rust".to_string(),
        "Go".to_string(),
        "Rust".to_string(),
        "Python".to_string(),
        "Rust".to_string(),
    ];
    let counts = language_counts(&langs);
    assert_eq!(
        counts,
        vec![
            ("Rust".to_string(), 3),
            ("Go".to_string(), 1),
            ("Python".to_string(), 1),
        ]
    );
}

#[test]
fn language_counts_partition_the_list() {
    let langs = vec![
        "Rust".to_string(),
        "Go".to_string(),
        "Rust".to_string(),
        "Python".to_string(),
        "Go".to_string(),
        "Rust".to_string(),
    ];
    let counts = language_counts(&langs);
    let total: u64 = counts.iter().map(|(_, c)| c).sum();
    assert_eq!(total as usize, langs.len());
}

#[test]
fn percent_shares_are_thousandths_of_a_percent() {
    assert_eq!(percent_milli(2, 3), 66_666);
    assert_eq!(percent_milli(1, 1), 100_000);
    assert_eq!(percent_milli(0, 5), 0);
    assert_eq!(percent_milli(0, 0), 0);
}
