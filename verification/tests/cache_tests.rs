use github_score::cache::{
    fresh_cutoff_rfc3339, is_fresh_i64, last_updated_rfc3339, parse_last_updated, text_is_fresh,
    CachedScore, CachedUser, Database,
};
use github_score::scoring::ScoringError;

const HOUR: i64 = 3600;
const NOW: i64 = 1_704_153_600; // 2024-01-02T00:00:00+00:00

fn user_record(username: &str, last_updated: i64) -> CachedUser {
    CachedUser {
        username: username.to_string(),
        user_data: "{\"login\":\"x\"}".to_string(),
        repositories: "[]".to_string(),
        events: "[]".to_string(),
        pull_requests: "[]".to_string(),
        last_updated,
    }
}

fn score_record(username: &str, last_updated: i64) -> CachedScore {
    CachedScore {
        username: username.to_string(),
        score: "{\"final_score\":56000}".to_string(),
        rating: "Beginner".to_string(),
        stats: "{}".to_string(),
        activity: "{}".to_string(),
        languages: "{}".to_string(),
        last_updated,
    }
}

#[test]
fn user_round_trip_returns_the_stored_record() {
    let mut db = Database::new();
    let rec = user_record("ada", NOW - HOUR);
    db.cache_user(rec.clone());
    assert_eq!(db.get_cached_user("ada", NOW), Some(rec));
}

#[test]
fn score_round_trip_returns_the_stored_record() {
    let mut db = Database::new();
    let rec = score_record("ada", NOW - HOUR);
    db.cache_score(rec.clone());
    assert_eq!(db.get_cached_score("ada", NOW), Some(rec));
}

#[test]
fn missing_key_reads_as_absent() {
    let db = Database::new();
    assert_eq!(db.get_cached_user("nobody", NOW), None);
    assert_eq!(db.get_cached_score("nobody", NOW), None);
}

#[test]
fn record_twenty_five_hours_old_reads_as_absent() {
    let mut db = Database::new();
    db.cache_user(user_record("ada", NOW - 25 * HOUR));
    db.cache_score(score_record("ada", NOW - 25 * HOUR));
    // The rows still exist in storage, yet both reads treat them as absent.
    assert_eq!(db.get_cached_user("ada", NOW), None);
    assert_eq!(db.get_cached_score("ada", NOW), None);
    // A read the day before would still have seen them.
    assert!(db.get_cached_user("ada", NOW - 2 * HOUR).is_some());
}

#[test]
fn freshness_boundary_is_strict() {
    // Exactly 24 hours old is already stale; a second newer is fresh.
    assert!(!is_fresh_i64(NOW - 24 * HOUR, NOW));
    assert!(is_fresh_i64(NOW - 24 * HOUR + 1, NOW));
}

#[test]
fn upsert_replaces_the_whole_record() {
    let mut db = Database::new();
    db.cache_user(user_record("ada", NOW - 20 * HOUR));
    let newer = user_record("ada", NOW - HOUR);
    db.cache_user(newer.clone());
    assert_eq!(db.get_cached_user("ada", NOW), Some(newer));
}

#[test]
fn tables_are_independent() {
    let mut db = Database::new();
    db.cache_user(user_record("ada", NOW - HOUR));
    assert_eq!(db.get_cached_score("ada", NOW), None);
    db.cache_score(score_record("bob", NOW - HOUR));
    assert_eq!(db.get_cached_user("bob", NOW), None);
}

#[test]
fn different_keys_keep_their_own_records() {
    let mut db = Database::new();
    let a = user_record("ada", NOW - HOUR);
    let b = user_record("bob", NOW - 2 * HOUR);
    db.cache_user(a.clone());
    db.cache_user(b.clone());
    assert_eq!(db.get_cached_user("ada", NOW), Some(a));
    assert_eq!(db.get_cached_user("bob", NOW), Some(b));
}

#[test]
fn rfc3339_text_parses_to_the_epoch_seconds() {
    assert_eq!(
        parse_last_updated("2024-01-01T00:00:00+00:00"),
        Ok(1_704_067_200)
    );
    assert_eq!(
        parse_last_updated("1970-01-01T00:00:00+00:00"),
        Ok(0)
    );
}

#[test]
fn malformed_last_updated_surfaces_invalid_data() {
    match parse_last_updated("yesterday, more or less") {
        Err(ScoringError::InvalidData(_)) => {}
        other => panic!("expected InvalidData, got {:?}", other),
    }
    match text_is_fresh("not a timestamp", NOW) {
        Err(ScoringError::InvalidData(_)) => {}
        other => panic!("expected InvalidData, got {:?}", other),
    }
}

#[test]
fn text_freshness_follows_the_window() {
    // 2024-01-01T00:00:00+00:00 is exactly 24 hours before NOW: stale.
    assert_eq!(text_is_fresh("2024-01-01T00:00:00+00:00", NOW), Ok(false));
    assert_eq!(text_is_fresh("2024-01-01T12:00:00+00:00", NOW), Ok(true));
    assert_eq!(text_is_fresh("2023-12-30T00:00:00+00:00", NOW), Ok(false));
}

#[test]
fn cutoff_text_names_the_window_start() {
    let cutoff = fresh_cutoff_rfc3339(NOW);
    assert_eq!(cutoff, "2024-01-01T00:00:00+00:00");
    assert_eq!(parse_last_updated(&cutoff), Ok(NOW - 24 * HOUR));
}

#[test]
fn last_updated_text_round_trips() {
    let text = last_updated_rfc3339(NOW).unwrap();
    assert_eq!(text, "2024-01-02T00:00:00+00:00");
    assert_eq!(parse_last_updated(&text), Ok(NOW));
    assert!(last_updated_rfc3339(-1).is_err());
}
