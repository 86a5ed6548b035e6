//! The two-tier cache: two independent key-value tables keyed by username,
//! one for raw user snapshots and one for computed scores, each behind the
//! same freshness window.
//!
//! The store itself is an in-memory table with upsert (full replace on the
//! key) and freshness-gated reads: an expired record is treated exactly
//! like an absent one, and is never returned nor implicitly deleted. A
//! storage layer that keeps rows elsewhere reuses the same rules through
//! `is_fresh_i64`, `parse_last_updated` and `fresh_cutoff_rfc3339`.
//! Structured fields ride along as serialized text blobs; `last_updated`
//! is seconds since the Unix epoch, rendered as RFC 3339 text at the
//! storage boundary.

use vstd::prelude::*;

use crate::scoring::ScoringError;
use vstd::pervasive::VecAdditionalExecFns;

verus! {

/// The freshness window: 24 hours, in seconds.
pub const FRESHNESS_WINDOW_SECONDS: u64 = 24 * 3600;

/// A record written at `last_updated` is fresh at `now` iff it is strictly
/// newer than the start of the freshness window.
pub open spec fn is_fresh(last_updated: int, now: int) -> bool {
    last_updated > now - FRESHNESS_WINDOW_SECONDS
}

/// Tests `is_fresh` exactly, through 128-bit intermediates.
pub fn is_fresh_i64(last_updated: i64, now: i64) -> (r: bool)
    ensures
        r == is_fresh(last_updated as int, now as int),
{
    (last_updated as i128) > (now as i128) - (FRESHNESS_WINDOW_SECONDS as i128)
}

/// A record a full day old or older is never fresh: it is treated as
/// absent by every read, though the row itself still exists in storage.
pub proof fn lemma_expired_record_treated_absent(last_updated: int, now: int)
    requires
        last_updated <= now - FRESHNESS_WINDOW_SECONDS,
    ensures
        !is_fresh(last_updated, now),
{
}

/// One raw snapshot of a user's upstream data, as fetched: the structured
/// fields are opaque serialized text blobs.
#[derive(Debug, PartialEq, Eq)]
pub struct CachedUser {
    pub username: String,
    pub user_data: String,
    pub repositories: String,
    pub events: String,
    pub pull_requests: String,
    pub last_updated: i64,
}

impl Clone for CachedUser {
    fn clone(&self) -> (r: Self)
        ensures
            r == *self,
    {
        CachedUser {
            username: self.username.clone(),
            user_data: self.user_data.clone(),
            repositories: self.repositories.clone(),
            events: self.events.clone(),
            pull_requests: self.pull_requests.clone(),
            last_updated: self.last_updated,
        }
    }
}

/// One computed score record, with its rating and the derived blobs.
#[derive(Debug, PartialEq, Eq)]
pub struct CachedScore {
    pub username: String,
    pub score: String,
    pub rating: String,
    pub stats: String,
    pub activity: String,
    pub languages: String,
    pub last_updated: i64,
}

impl Clone for CachedScore {
    fn clone(&self) -> (r: Self)
        ensures
            r == *self,
    {
        CachedScore {
            username: self.username.clone(),
            score: self.score.clone(),
            rating: self.rating.clone(),
            stats: self.stats.clone(),
            activity: self.activity.clone(),
            languages: self.languages.clone(),
            last_updated: self.last_updated,
        }
    }
}

/// No two rows of the table share a key.
pub open spec fn unique_keys<R>(s: Seq<R>, key: spec_fn(R) -> Seq<char>) -> bool {
    forall|i: int, j: int| 0 <= i < j < s.len() ==> key(#[trigger] s[i]) != key(#[trigger] s[j])
}

/// The table as a map from key to row; later rows win, though under
/// `unique_keys` no key ever repeats.
pub open spec fn table_map<R>(s: Seq<R>, key: spec_fn(R) -> Seq<char>) -> Map<Seq<char>, R>
    decreases s.len(),
{
    if s.len() == 0 {
        Map::empty()
    } else {
        table_map(s.drop_last(), key).insert(key(s.last()), s.last())
    }
}

/// With unique keys, the map holds exactly the rows of the table: a key is
/// present iff some row carries it, and then maps to that row.
pub proof fn lemma_table_map_contains<R>(s: Seq<R>, key: spec_fn(R) -> Seq<char>)
    requires
        unique_keys(s, key),
    ensures
        forall|k: Seq<char>| #[trigger]
            table_map(s, key).contains_key(k) ==> exists|i: int|
                0 <= i < s.len() && key(#[trigger] s[i]) == k,
        forall|i: int|
            0 <= i < s.len() ==> table_map(s, key).contains_key(key(#[trigger] s[i]))
                && table_map(s, key)[key(s[i])] == s[i],
    decreases s.len(),
{
    if s.len() > 0 {
        let rest = s.drop_last();
        assert(unique_keys(rest, key)) by {
            assert(forall|i: int, j: int|
                0 <= i < j < rest.len() ==> key(#[trigger] rest[i]) != key(#[trigger] rest[j]))
                by {
                assert(forall|i: int| 0 <= i < rest.len() ==> rest[i] == s[i]);
            }
        }
        lemma_table_map_contains(rest, key);
        assert forall|i: int|
            0 <= i < s.len() implies table_map(s, key).contains_key(key(#[trigger] s[i]))
            && table_map(s, key)[key(s[i])] == s[i] by {
            if i < s.len() - 1 {
                assert(rest[i] == s[i]);
                assert(key(s[i]) != key(s[s.len() - 1]));
            }
        }
        assert forall|k: Seq<char>| #[trigger]
            table_map(s, key).contains_key(k) implies exists|i: int|
            0 <= i < s.len() && key(#[trigger] s[i]) == k by {
            if k == key(s.last()) {
                assert(key(s[s.len() - 1]) == k);
            } else {
                assert(table_map(rest, key).contains_key(k));
                let w = choose|i: int| 0 <= i < rest.len() && key(#[trigger] rest[i]) == k;
                assert(key(s[w]) == k);
            }
        }
    }
}

/// Replacing the row that carries a key updates the map at that key alone.
pub proof fn lemma_table_map_update<R>(s: Seq<R>, key: spec_fn(R) -> Seq<char>, i: int, r: R)
    requires
        unique_keys(s, key),
        0 <= i < s.len(),
        key(s[i]) == key(r),
    ensures
        table_map(s.update(i, r), key) =~= table_map(s, key).insert(key(r), r),
        unique_keys(s.update(i, r), key),
    decreases s.len(),
{
    let t = s.update(i, r);
    assert(unique_keys(t, key)) by {
        assert(forall|q: int|
            0 <= q < s.len() ==> key(#[trigger] t[q]) == if q == i {
                key(r)
            } else {
                key(s[q])
            });
    }
    if i == s.len() - 1 {
        assert(t.drop_last() =~= s.drop_last());
        assert(t.last() == r);
    } else {
        let rest = s.drop_last();
        assert(unique_keys(rest, key)) by {
            assert(forall|q: int| 0 <= q < rest.len() ==> rest[q] == s[q]);
        }
        assert(rest[i] == s[i]);
        lemma_table_map_update(rest, key, i, r);
        assert(t.drop_last() =~= rest.update(i, r));
        assert(t.last() == s.last());
        // the two inserts commute because the keys differ
        assert(key(s.last()) != key(r));
    }
}

/// Appending a row with a new key extends the map at that key alone.
pub proof fn lemma_table_map_push<R>(s: Seq<R>, key: spec_fn(R) -> Seq<char>, r: R)
    requires
        unique_keys(s, key),
        forall|q: int| 0 <= q < s.len() ==> key(#[trigger] s[q]) != key(r),
    ensures
        table_map(s.push(r), key) == table_map(s, key).insert(key(r), r),
        unique_keys(s.push(r), key),
{
    let t = s.push(r);
    assert(t.drop_last() =~= s);
    assert(t.last() == r);
    assert(unique_keys(t, key)) by {
        assert(forall|q: int| 0 <= q < s.len() ==> t[q] == s[q]);
        assert(t[s.len() as int] == r);
    }
}

pub open spec fn user_key() -> spec_fn(CachedUser) -> Seq<char> {
    |r: CachedUser| r.username@
}

pub open spec fn score_key() -> spec_fn(CachedScore) -> Seq<char> {
    |r: CachedScore| r.username@
}

/// The cache store: two independent tables keyed by username. Reads are
/// freshness-gated; writes replace the whole row for the key.
pub struct Database {
    users: Vec<CachedUser>,
    scores: Vec<CachedScore>,
}

impl Database {
    /// Both tables keep their keys unique.
    pub closed spec fn wf(self) -> bool {
        &&& unique_keys(self.users@, user_key())
        &&& unique_keys(self.scores@, score_key())
    }

    /// The raw-snapshot table as a map from username to record.
    pub closed spec fn users_map(self) -> Map<Seq<char>, CachedUser> {
        table_map(self.users@, user_key())
    }

    /// The score table as a map from username to record.
    pub closed spec fn scores_map(self) -> Map<Seq<char>, CachedScore> {
        table_map(self.scores@, score_key())
    }

    /// An empty store.
    pub fn new() -> (r: Database)
        ensures
            r.wf(),
            r.users_map() == Map::<Seq<char>, CachedUser>::empty(),
            r.scores_map() == Map::<Seq<char>, CachedScore>::empty(),
    {
        Database { users: Vec::new(), scores: Vec::new() }
    }

    /// Upsert into the raw-snapshot table: the record replaces any earlier
    /// record under the same username and touches nothing else.
    pub fn cache_user(&mut self, user: CachedUser)
        requires
            old(self).wf(),
        ensures
            final(self).wf(),
            final(self).users_map() == old(self).users_map().insert(user.username@, user),
            final(self).scores_map() == old(self).scores_map(),
    {
        let ghost s0: Seq<CachedUser> = self.users@;
        let ghost sc0: Seq<CachedScore> = self.scores@;
        let mut i: usize = 0;
        while i < self.users.len()
            invariant
                self.users@ == s0,
                self.scores@ == sc0,
                s0 == old(self).users@,
                sc0 == old(self).scores@,
                unique_keys(s0, user_key()),
                unique_keys(sc0, score_key()),
                i <= s0.len(),
                forall|q: int| 0 <= q < i ==> (#[trigger] s0[q]).username@ != user.username@,
            decreases s0.len() - i,
        {
            if str_eq_local(self.users[i].username.as_str(), user.username.as_str()) {
                proof {
                    lemma_table_map_update(s0, user_key(), i as int, user);
                }
                self.users.set(i, user);
                return ;
            }
            i = i + 1;
        }
        proof {
            lemma_table_map_push(s0, user_key(), user);
        }
        self.users.push(user);
    }

    /// Freshness-gated read of the raw-snapshot table: the record under the
    /// username, and only if it is fresh at `now`; a stale or missing
    /// record reads as `None`.
    pub fn get_cached_user(&self, username: &str, now: i64) -> (r: Option<CachedUser>)
        requires
            self.wf(),
        ensures
            r == if self.users_map().contains_key(username@) && is_fresh(
                self.users_map()[username@].last_updated as int,
                now as int,
            ) {
                Some(self.users_map()[username@])
            } else {
                None::<CachedUser>
            },
    {
        proof {
            lemma_table_map_contains(self.users@, user_key());
        }
        let mut i: usize = 0;
        while i < self.users.len()
            invariant
                self.wf(),
                i <= self.users@.len(),
                forall|q: int|
                    0 <= q < i ==> (#[trigger] self.users@[q]).username@ != username@,
            decreases self.users@.len() - i,
        {
            if str_eq_local(self.users[i].username.as_str(), username) {
                proof {
                    lemma_table_map_contains(self.users@, user_key());
                }
                if is_fresh_i64(self.users[i].last_updated, now) {
                    return Some(self.users[i].clone());
                } else {
                    return None;
                }
            }
            i = i + 1;
        }
        proof {
            lemma_table_map_contains(self.users@, user_key());
            if self.users_map().contains_key(username@) {
                let w = choose|q: int|
                    0 <= q < self.users@.len() && user_key()(self.users@[q]) == username@;
                assert((#[trigger] self.users@[w]).username@ == username@);
                assert(false);
            }
        }
        None
    }

    /// Upsert into the score table: the record replaces any earlier record
    /// under the same username and touches nothing else.
    pub fn cache_score(&mut self, score: CachedScore)
        requires
            old(self).wf(),
        ensures
            final(self).wf(),
            final(self).scores_map() == old(self).scores_map().insert(score.username@, score),
            final(self).users_map() == old(self).users_map(),
    {
        let ghost s0: Seq<CachedScore> = self.scores@;
        let ghost su0: Seq<CachedUser> = self.users@;
        let mut i: usize = 0;
        while i < self.scores.len()
            invariant
                self.scores@ == s0,
                self.users@ == su0,
                s0 == old(self).scores@,
                su0 == old(self).users@,
                unique_keys(s0, score_key()),
                unique_keys(su0, user_key()),
                i <= s0.len(),
                forall|q: int| 0 <= q < i ==> (#[trigger] s0[q]).username@ != score.username@,
            decreases s0.len() - i,
        {
            if str_eq_local(self.scores[i].username.as_str(), score.username.as_str()) {
                proof {
                    lemma_table_map_update(s0, score_key(), i as int, score);
                }
                self.scores.set(i, score);
                return ;
            }
            i = i + 1;
        }
        proof {
            lemma_table_map_push(s0, score_key(), score);
        }
        self.scores.push(score);
    }

    /// Freshness-gated read of the score table, under the same rules as
    /// the raw-snapshot table.
    pub fn get_cached_score(&self, username: &str, now: i64) -> (r: Option<CachedScore>)
        requires
            self.wf(),
        ensures
            r == if self.scores_map().contains_key(username@) && is_fresh(
                self.scores_map()[username@].last_updated as int,
                now as int,
            ) {
                Some(self.scores_map()[username@])
            } else {
                None::<CachedScore>
            },
    {
        proof {
            lemma_table_map_contains(self.scores@, score_key());
        }
        let mut i: usize = 0;
        while i < self.scores.len()
            invariant
                self.wf(),
                i <= self.scores@.len(),
                forall|q: int|
                    0 <= q < i ==> (#[trigger] self.scores@[q]).username@ != username@,
            decreases self.scores@.len() - i,
        {
            if str_eq_local(self.scores[i].username.as_str(), username) {
                proof {
                    lemma_table_map_contains(self.scores@, score_key());
                }
                if is_fresh_i64(self.scores[i].last_updated, now) {
                    return Some(self.scores[i].clone());
                } else {
                    return None;
                }
            }
            i = i + 1;
        }
        proof {
            lemma_table_map_contains(self.scores@, score_key());
            if self.scores_map().contains_key(username@) {
                let w = choose|q: int|
                    0 <= q < self.scores@.len() && score_key()(self.scores@[q]) == username@;
                assert((#[trigger] self.scores@[w]).username@ == username@);
                assert(false);
            }
        }
        None
    }
}

/// Compares two string slices by content.
fn str_eq_local(a: &str, b: &str) -> (r: bool)
    ensures
        r == (a@ == b@),
{
    crate::scoring::str_eq(a, b)
}

/// Cache round trip, over the table model: after an upsert, the key maps
/// to exactly the record stored, so an immediate fresh read returns it.
pub proof fn lemma_cache_round_trip<R>(m: Map<Seq<char>, R>, k: Seq<char>, rec: R)
    ensures
        m.insert(k, rec).contains_key(k),
        m.insert(k, rec)[k] == rec,
{
}

/// The instant an RFC 3339 text names, in seconds since the Unix epoch, or
/// nothing for text that is not a valid RFC 3339 date-and-time. Parsing is
/// a function of the text alone.
pub uninterp spec fn rfc3339_seconds(s: Seq<char>) -> Option<int>;

/// Relies on chrono's `DateTime::parse_from_rfc3339`, which parses RFC 3339
/// date-and-time text, and `DateTime::timestamp`, which returns the parsed
/// instant in seconds since the Unix epoch. Both depend on the text alone.
#[verifier::external_body]
fn parse_rfc3339(s: &str) -> (r: Option<i64>)
    ensures
        r is Some <==> rfc3339_seconds(s@) is Some,
        r matches Some(t) ==> rfc3339_seconds(s@) == Some(t as int),
{
    match chrono::DateTime::parse_from_rfc3339(s) {
        Ok(dt) => Some(dt.timestamp()),
        Err(_) => None,
    }
}

/// The latest timestamp the RFC 3339 rendering below supports: the end of
/// year 9999, well inside chrono's range.
pub const MAX_RFC3339_SECONDS: u64 = 253402300799;

/// The RFC 3339 rendering of a timestamp at UTC. A function of the
/// timestamp alone.
pub uninterp spec fn rfc3339_of(ts: int) -> Seq<char>;

/// Relies on chrono's `DateTime::from_timestamp`, which is `Some` for every
/// timestamp in the supported range, and `DateTime::to_rfc3339`, which
/// renders the instant as RFC 3339 text. Both depend on the timestamp alone.
#[verifier::external_body]
fn format_rfc3339(ts: i64) -> (r: String)
    requires
        0 <= ts <= MAX_RFC3339_SECONDS,
    ensures
        r@ == rfc3339_of(ts as int),
{
    match chrono::DateTime::from_timestamp(ts, 0) {
        Some(dt) => dt.to_rfc3339(),
        None => String::new(),
    }
}

/// Reads a stored `last_updated` text back into a timestamp. Text that does
/// not parse is a data-integrity fault and surfaces as `InvalidData`, never
/// as a silent cache miss.
pub fn parse_last_updated(s: &str) -> (r: Result<i64, ScoringError>)
    ensures
        r matches Ok(t) ==> rfc3339_seconds(s@) == Some(t as int),
        r is Ok <==> rfc3339_seconds(s@) is Some,
        r matches Err(e) ==> e is InvalidData,
{
    match parse_rfc3339(s) {
        Some(t) => Ok(t),
        None => Err(ScoringError::InvalidData("unparseable last_updated timestamp".to_owned())),
    }
}

/// Whether a row whose `last_updated` column holds the given RFC 3339 text
/// is fresh at `now`: the freshness rule a storage layer applies to rows it
/// keeps as text.
pub fn text_is_fresh(last_updated: &str, now: i64) -> (r: Result<bool, ScoringError>)
    ensures
        match rfc3339_seconds(last_updated@) {
            Some(t) => r == Ok::<bool, ScoringError>(is_fresh(t, now as int)),
            None => r matches Err(e) && e is InvalidData,
        },
{
    match parse_last_updated(last_updated) {
        Ok(t) => Ok(is_fresh_i64(t, now)),
        Err(e) => Err(e),
    }
}

/// The window-start bound a storage layer compares `last_updated` text
/// against: the RFC 3339 rendering of `now` less the freshness window.
pub fn fresh_cutoff_rfc3339(now: i64) -> (r: String)
    requires
        FRESHNESS_WINDOW_SECONDS <= now <= MAX_RFC3339_SECONDS,
    ensures
        r@ == rfc3339_of(now as int - FRESHNESS_WINDOW_SECONDS as int),
{
    format_rfc3339(now - (FRESHNESS_WINDOW_SECONDS as i64))
}

/// The RFC 3339 text a storage layer writes into a `last_updated` column.
pub fn last_updated_rfc3339(ts: i64) -> (r: Result<String, ScoringError>)
    ensures
        0 <= ts <= MAX_RFC3339_SECONDS ==> (r matches Ok(s) && s@ == rfc3339_of(ts as int)),
        r is Err <==> !(0 <= ts <= MAX_RFC3339_SECONDS),
        r matches Err(e) ==> e is InvalidData,
{
    if 0 <= ts && ts <= (MAX_RFC3339_SECONDS as i64) {
        Ok(format_rfc3339(ts))
    } else {
        Err(ScoringError::InvalidData("timestamp out of the RFC 3339 range".to_owned()))
    }
}

} // verus!
