use github_score::scoring::{
    Event, EventPayload, GitHubScorer, GitHubUser, PullRequest, Repo, Repository, User,
};
use github_score::SCALE;

const DAY: i64 = 86400;
const NOW: i64 = 1_700_000_000;

fn empty_user(login: &str) -> GitHubUser {
    GitHubUser {
        login: login.to_string(),
        repositories: vec![],
        events: vec![],
        pull_requests: vec![],
    }
}

fn event(kind: &str, created_at: i64) -> Event {
    Event {
        event_type: kind.to_string(),
        created_at,
        repo: None,
        payload: None,
    }
}

fn event_in_repo(kind: &str, created_at: i64, repo: &str) -> Event {
    Event {
        event_type: kind.to_string(),
        created_at,
        repo: Some(Repo {
            name: repo.to_string(),
        }),
        payload: None,
    }
}

fn issues_event(created_at: i64, action: &str) -> Event {
    Event {
        event_type: "IssuesEvent".to_string(),
        created_at,
        repo: None,
        payload: Some(EventPayload {
            action: Some(action.to_string()),
        }),
    }
}

fn repository(name: &str, owner: &str, stars: u32, forks: u32, updated_at: i64) -> Repository {
    Repository {
        name: name.to_string(),
        full_name: format!("{}/{}", owner, name),
        stargazers_count: stars,
        forks_count: forks,
        updated_at,
        owner: User {
            login: owner.to_string(),
        },
        description: None,
    }
}

#[test]
fn test_score_rating() {
    let scorer = GitHubScorer::new();
    assert_eq!(scorer.rate_score(950_000), "Outstanding Contributor");
    assert_eq!(scorer.rate_score(850_000), "Exceptional Developer");
    assert_eq!(scorer.rate_score(750_000), "Excellent Developer");
    assert_eq!(scorer.rate_score(150_000), "Beginner");
}

#[test]
fn test_empty_user_score() {
    let scorer = GitHubScorer::new();
    let empty = empty_user("test");
    let score = scorer.calculate_score(&empty, NOW).unwrap();
    assert!(score.final_score < 100_000);
}

#[test]
fn rating_boundaries_are_exact() {
    let scorer = GitHubScorer::new();
    assert_eq!(scorer.rate_score(900_000), "Outstanding Contributor");
    assert_eq!(scorer.rate_score(899_990), "Exceptional Developer");
    assert_eq!(scorer.rate_score(800_000), "Exceptional Developer");
    assert_eq!(scorer.rate_score(700_000), "Excellent Developer");
    assert_eq!(scorer.rate_score(600_000), "Very Good Developer");
    assert_eq!(scorer.rate_score(500_000), "Strong Developer");
    assert_eq!(scorer.rate_score(400_000), "Good Developer");
    assert_eq!(scorer.rate_score(300_000), "Promising Developer");
    assert_eq!(scorer.rate_score(200_000), "Developing Contributor");
    assert_eq!(scorer.rate_score(199_999), "Beginner");
    assert_eq!(scorer.rate_score(0), "Beginner");
}

#[test]
fn empty_user_scores_exactly_the_placeholder_share() {
    // Only the fixed commit-quality factor survives an empty record:
    // 0.2 * (0.4 * 0.7) = 0.056 of the unit.
    let scorer = GitHubScorer::new();
    let score = scorer.calculate_score(&empty_user("nobody"), NOW).unwrap();
    assert_eq!(score.final_score, 56_000);
    assert_eq!(score.component_scores.contribution_weight, 0);
    assert_eq!(score.component_scores.repo_significance, 0);
    assert_eq!(score.component_scores.code_quality, 280_000);
    assert_eq!(score.component_scores.community_engagement, 0);
}

#[test]
fn aggregator_is_idempotent() {
    let mut user = empty_user("ada");
    user.repositories.push(repository("calc", "ada", 120, 30, NOW - 5 * DAY));
    user.events.push(event("PushEvent", NOW - 2 * DAY));
    user.events.push(issues_event(NOW - 3 * DAY, "closed"));
    user.pull_requests.push(PullRequest {
        merged_at: Some(NOW - 4 * DAY),
    });
    let scorer = GitHubScorer::new();
    let first = scorer.calculate_score(&user, NOW).unwrap();
    let second = scorer.calculate_score(&user, NOW).unwrap();
    assert_eq!(first, second);
}

#[test]
fn all_scores_stay_inside_the_unit_interval() {
    let mut user = empty_user("grace");
    for i in 0..250 {
        user.events.push(event("PushEvent", NOW - (i % 170) * DAY));
        user.events.push(event_in_repo("IssueCommentEvent", NOW - DAY, "r"));
        user.pull_requests.push(PullRequest {
            merged_at: Some(NOW),
        });
    }
    for i in 0..40 {
        let mut r = repository(&format!("repo{}", i), "grace", u32::MAX, u32::MAX, NOW);
        r.description = Some("a".repeat(80));
        user.repositories.push(r);
    }
    let scorer = GitHubScorer::new();
    let score = scorer.calculate_score(&user, NOW).unwrap();
    assert!(score.final_score <= SCALE);
    assert!(score.component_scores.contribution_weight <= SCALE);
    assert!(score.component_scores.repo_significance <= SCALE);
    assert!(score.component_scores.code_quality <= SCALE);
    assert!(score.component_scores.community_engagement <= SCALE);
    for (_, factors) in &score.detailed_components {
        for (_, points) in factors {
            assert!(*points <= SCALE);
        }
    }
}

#[test]
fn three_repository_scenario() {
    // Three repositories with 2000, 500 and 0 stars; one updated 10 days
    // ago, two 400 days ago; no events or pull requests.
    let mut user = empty_user("sam");
    user.repositories.push(repository("a", "other", 2000, 0, NOW - 10 * DAY));
    user.repositories.push(repository("b", "other", 500, 0, NOW - 400 * DAY));
    user.repositories.push(repository("c", "other", 0, 0, NOW - 400 * DAY));
    let scorer = GitHubScorer::new();
    let score = scorer.calculate_score(&user, NOW).unwrap();

    let repo_factors: &Vec<(String, u64)> = &score.detailed_components[1].1;
    assert_eq!(repo_factors[0].0, "stars");
    // 2500 total stars lie past the reference of 1000: clamped to one.
    assert_eq!(repo_factors[0].1, SCALE);
    assert_eq!(repo_factors[2].0, "repo_activity");
    // One active repository in three.
    assert_eq!(repo_factors[2].1, 333_333);
    assert_eq!(repo_factors[3].0, "ecosystem_impact");
    // The mean of the clamped factors: stars at one, forks at zero.
    assert_eq!(repo_factors[3].1, 500_000);

    assert_eq!(score.component_scores.contribution_weight, 0);
    assert_eq!(score.component_scores.community_engagement, 0);

    let quality_factors: &Vec<(String, u64)> = &score.detailed_components[2].1;
    assert_eq!(quality_factors[2].0, "commit_quality");
    assert_eq!(quality_factors[2].1, 700_000);
}

#[test]
fn contribution_factors_follow_the_documented_curves() {
    let mut user = empty_user("joan");
    user.events.push(event("PushEvent", NOW - 10 * DAY));
    user.events.push(event("PushEvent", NOW - 20 * DAY));
    user.events.push(issues_event(NOW - DAY, "closed"));
    user.events.push(issues_event(NOW - DAY, "opened"));
    user.pull_requests.push(PullRequest {
        merged_at: Some(NOW - DAY),
    });
    user.pull_requests.push(PullRequest { merged_at: None });
    let scorer = GitHubScorer::new();
    let (weighted, factors) = scorer.score_contribution_weight(&user, NOW).unwrap();
    assert_eq!(factors[0], ("commit_frequency".to_string(), 20_000));
    // Mean age 15 days of 180: 1 - 30/360 of the unit, floored.
    assert_eq!(factors[1], ("commit_recency".to_string(), 916_667));
    assert_eq!(factors[2], ("issue_resolution".to_string(), 500_000));
    assert_eq!(factors[3], ("pr_acceptance".to_string(), 500_000));
    let expected = (350 * 20_000 + 250 * 916_667 + 200 * 500_000 + 200 * 500_000) / 1000;
    assert_eq!(weighted, expected);
}

#[test]
fn community_factors_follow_the_documented_curves() {
    let mut user = empty_user("meg");
    user.events.push(event_in_repo("IssueCommentEvent", NOW - DAY, "one"));
    user.events.push(event_in_repo("PushEvent", NOW - DAY, "two"));
    user.events.push(event_in_repo("PushEvent", NOW - DAY, "one"));
    user.repositories.push(repository("one", "meg", 0, 0, NOW));
    user.repositories.push(repository("two", "nota", 0, 0, NOW));
    let scorer = GitHubScorer::new();
    let (weighted, factors) = scorer.score_community_engagement(&user).unwrap();
    assert_eq!(factors[0], ("discussions".to_string(), 20_000));
    assert_eq!(factors[1], ("project_diversity".to_string(), 200_000));
    assert_eq!(factors[2], ("maintainer_roles".to_string(), 200_000));
    let expected = (300 * 20_000 + 400 * 200_000 + 300 * 200_000) / 1000;
    assert_eq!(weighted, expected);
}

#[test]
fn code_quality_counts_reviews_and_documentation() {
    let mut user = empty_user("liz");
    user.events.push(event("PullRequestReviewEvent", NOW - DAY));
    let mut documented = repository("big", "liz", 0, 0, NOW);
    documented.description = Some("x".repeat(60));
    user.repositories.push(documented);
    let mut terse = repository("small", "liz", 0, 0, NOW);
    terse.description = Some("short".to_string());
    user.repositories.push(terse);
    let scorer = GitHubScorer::new();
    let (weighted, factors) = scorer.score_code_quality(&user).unwrap();
    assert_eq!(factors[0], ("code_review_participation".to_string(), 20_000));
    assert_eq!(factors[1], ("documentation".to_string(), 500_000));
    assert_eq!(factors[2], ("commit_quality".to_string(), 700_000));
    let expected = (300 * 20_000 + 300 * 500_000 + 400 * 700_000) / 1000;
    assert_eq!(weighted, expected);
}

#[test]
fn repo_significance_empty_breakdown_without_repositories() {
    let scorer = GitHubScorer::new();
    let (weighted, factors) = scorer
        .score_repo_significance(&empty_user("kay"), NOW)
        .unwrap();
    assert_eq!(weighted, 0);
    assert!(factors.is_empty());
}

#[test]
fn unrecognized_event_types_are_inert() {
    let mut user = empty_user("pat");
    user.events.push(event("WatchEvent", NOW - DAY));
    user.events.push(event("ForkEvent", NOW - DAY));
    let scorer = GitHubScorer::new();
    let with_noise = scorer.calculate_score(&user, NOW).unwrap();
    let without = scorer.calculate_score(&empty_user("pat"), NOW).unwrap();
    assert_eq!(
        with_noise.component_scores.contribution_weight,
        without.component_scores.contribution_weight
    );
    assert_eq!(with_noise.final_score, without.final_score);
}

#[test]
fn with_token_keeps_the_token() {
    let scorer = GitHubScorer::with_token("token-for-tests".to_string());
    assert_eq!(scorer.token.as_deref(), Some("token-for-tests"));
    let plain = GitHubScorer::new();
    assert!(plain.token.is_none());
}
