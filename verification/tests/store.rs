use nichy::analysis::{analyze, finish, AnalyzeRequest, Begun};
use nichy::cache::{AnalysisCache, CacheKey, CacheOp, SQL_CACHE_LEN};
use nichy::db::migrate;
use nichy::hash::content_hash;
use nichy::layout::TypeLayout;
use nichy::site::{kept, looked_up};
use nichy::snippets::{
    is_valid_id, FoundRow, PutStep, Snippet, SnippetStore, ID_MIN_LEN, SQL_SNIPPETS_LEN,
    SQL_SNIPPET_ADD, SQL_SNIPPET_FIND,
};
use nichy::stats::{
    apply_counter, bump_after_count, bump_after_update, BumpStep, Counter, Outcome, Recorded, Stats,
    StatsSnapshot, Update, MAX_TARGETS, SQL_COUNTERS, SQL_COUNTER_ABS, SQL_COUNTER_ONCE,
    SQL_TARGETS, SQL_TARGET_ADD, SQL_TARGET_BUMP, SQL_TARGET_LEN,
};
use nichy::status::{Failure, Status};
use rusqlite::{Connection, OptionalExtension};

// ── the database ───────────────────────────────────────────

fn migrate_db(conn: &Connection) {
    let current: i32 = conn
        .query_row("PRAGMA user_version", [], |r| r.get(0))
        .unwrap();
    if let Some(m) = migrate(current) {
        conn.execute_batch(m.batch).unwrap();
        conn.pragma_update(None, "user_version", m.version).unwrap();
    }
}

fn open_in_memory() -> Connection {
    let conn = Connection::open_in_memory().expect("open in-memory");
    migrate_db(&conn);
    conn
}

fn count(conn: &Connection, sql: &str) -> Option<i64> {
    conn.query_row(sql, [], |r| r.get::<_, i64>(0)).ok()
}

#[test]
fn migrate_is_idempotent() {
    let conn = Connection::open_in_memory().unwrap();
    migrate_db(&conn);
    let v1: i32 = conn
        .query_row("PRAGMA user_version", [], |r| r.get(0))
        .unwrap();
    migrate_db(&conn);
    let v2: i32 = conn
        .query_row("PRAGMA user_version", [], |r| r.get(0))
        .unwrap();
    assert_eq!(v1, v2);
    assert_eq!(v1, 1);
}

// ── the cache ──────────────────────────────────────────────

struct Cache {
    conn: Connection,
    rules: AnalysisCache,
}

fn cache(capacity: usize) -> Cache {
    Cache {
        conn: open_in_memory(),
        rules: AnalysisCache::new(capacity),
    }
}

fn run(conn: &Connection, op: CacheOp) -> Option<Vec<u8>> {
    let sql = op.sql();
    match op {
        CacheOp::Touch { key, last_used } => conn
            .query_row(sql, (key, last_used), |r| r.get::<_, Vec<u8>>(0))
            .optional()
            .unwrap(),
        CacheOp::Store {
            key,
            types_json,
            last_used,
        } => {
            conn.execute(sql, (key, types_json, last_used)).unwrap();
            None
        }
        CacheOp::Trim { keep } => {
            conn.execute(sql, (keep,)).unwrap();
            None
        }
    }
}

impl Cache {
    fn get(&self, key: &CacheKey) -> Option<Vec<u8>> {
        run(&self.conn, self.rules.get(key))
    }

    fn put(&self, key: CacheKey, json: &[u8]) {
        let (store, trim) = self.rules.put(key, json.to_vec());
        run(&self.conn, store);
        run(&self.conn, trim);
    }

    fn put_at(&self, key: CacheKey, json: &[u8], now: u64) {
        let (store, trim) = self.rules.put_at(key, json.to_vec(), now);
        run(&self.conn, store);
        run(&self.conn, trim);
    }

    fn get_at(&self, key: &CacheKey, now: u64) -> Option<Vec<u8>> {
        run(&self.conn, self.rules.get_at(key, now))
    }

    fn len(&self) -> usize {
        self.rules.len(count(&self.conn, SQL_CACHE_LEN))
    }
}

#[test]
fn get_returns_none_for_missing_key() {
    let cache = cache(4);
    assert!(cache.get(&CacheKey::new(false, "x", None)).is_none());
}

#[test]
fn cache_put_then_get_round_trips() {
    let cache = cache(4);
    let key = CacheKey::new(false, "struct X;", None);
    cache.put(key.clone(), b"[]");
    assert_eq!(cache.get(&key), Some(b"[]".to_vec()));
    assert_eq!(cache.len(), 1);
}

#[test]
fn lru_evicts_oldest_at_capacity() {
    let cache = cache(2);
    let k1 = CacheKey::new(false, "1", None);
    let k2 = CacheKey::new(false, "2", None);
    let k3 = CacheKey::new(false, "3", None);
    cache.put_at(k1.clone(), b"[1]", 100);
    cache.put_at(k2.clone(), b"[2]", 101);
    cache.put_at(k3.clone(), b"[3]", 102);
    assert!(cache.get(&k1).is_none(), "oldest entry should be evicted");
    assert!(cache.get(&k2).is_some());
    assert!(cache.get(&k3).is_some());
    assert_eq!(cache.len(), 2);
}

#[test]
fn cache_get_makes_an_entry_young_again() {
    let cache = cache(2);
    let k1 = CacheKey::new(false, "1", None);
    let k2 = CacheKey::new(false, "2", None);
    let k3 = CacheKey::new(false, "3", None);
    cache.put_at(k1.clone(), b"[1]", 100);
    cache.put_at(k2.clone(), b"[2]", 101);
    assert_eq!(cache.get_at(&k1, 102), Some(b"[1]".to_vec()));
    cache.put_at(k3.clone(), b"[3]", 103);
    assert!(cache.get_at(&k1, 104).is_some());
    assert!(cache.get_at(&k2, 104).is_none());
}

#[test]
fn cache_put_replaces_a_value() {
    let cache = cache(2);
    let key = CacheKey::new(false, "1", None);
    cache.put_at(key.clone(), b"[1]", 100);
    cache.put_at(key.clone(), b"[2]", 101);
    assert_eq!(cache.get_at(&key, 102), Some(b"[2]".to_vec()));
    assert_eq!(cache.len(), 1);
}

#[test]
fn key_differs_by_target() {
    let cache = cache(4);
    let k_default = CacheKey::new(false, "code", None);
    let k_wasm = CacheKey::new(false, "code", Some("wasm32-unknown-unknown"));
    cache.put(k_default.clone(), b"[]");
    assert!(cache.get(&k_default).is_some());
    assert!(cache.get(&k_wasm).is_none());
}

#[test]
fn key_differs_by_input_kind() {
    let cache = cache(4);
    let code = CacheKey::new(false, "Option<u8>", None);
    let typ = CacheKey::new(true, "Option<u8>", None);
    cache.put(code.clone(), b"[]");
    assert!(cache.get(&code).is_some());
    assert!(cache.get(&typ).is_none());
}

// ── snippets ───────────────────────────────────────────────

fn find(conn: &Connection, id: &str) -> Option<FoundRow> {
    conn.query_row(SQL_SNIPPET_FIND, (id,), |r| {
        Ok(FoundRow {
            is_type: r.get(0)?,
            content: r.get(1)?,
            target: r.get(2)?,
        })
    })
    .optional()
    .unwrap()
}

fn put(conn: &Connection, is_type_expr: bool, content: &str, target: &str) -> Option<String> {
    let mut putting = SnippetStore {}.put(is_type_expr, content, target);
    loop {
        let id = putting.id()?;
        match putting.answer(find(conn, &id)) {
            PutStep::Stored(id) => return Some(id),
            PutStep::Taken(next) => putting = next,
            PutStep::Free(row) => {
                conn.execute(
                    SQL_SNIPPET_ADD,
                    (
                        &row.id,
                        row.is_type,
                        &row.content,
                        &row.target,
                        row.created_at,
                    ),
                )
                .unwrap();
                return Some(row.id);
            }
        }
    }
}

fn get(conn: &Connection, id: &str) -> Option<Snippet> {
    SnippetStore {}.get(id, find(conn, id))
}

#[test]
fn snippets_put_then_get_round_trips() {
    let store = open_in_memory();
    let id = put(&store, false, "struct X;", "").expect("put");
    let s = get(&store, &id).expect("get");
    assert_eq!(s.content, "struct X;");
    assert_eq!(s.target, "");
    assert!(!s.is_type_expr);
    assert!(s.id.len() >= ID_MIN_LEN);
}

#[test]
fn put_is_idempotent() {
    let store = open_in_memory();
    let id1 = put(&store, true, "Option<u8>", "").expect("first");
    let id2 = put(&store, true, "Option<u8>", "").expect("second");
    assert_eq!(id1, id2);
    assert_eq!(SnippetStore {}.len(count(&store, SQL_SNIPPETS_LEN)), 1);
}

#[test]
fn ids_are_kept_however_many_are_stored_since() {
    let conn = open_in_memory();
    let id = put(&conn, false, "struct A;", "").unwrap();
    let others: Vec<String> = (0..20)
        .map(|i| put(&conn, i % 2 == 0, &format!("struct B{i};"), "").unwrap())
        .collect();
    assert!(!others.contains(&id));
    assert_eq!(put(&conn, false, "struct A;", ""), Some(id.clone()));
    assert_eq!(get(&conn, &id).unwrap().content, "struct A;");
    assert_eq!(count(&conn, SQL_SNIPPETS_LEN), Some(21));
}

#[test]
fn different_content_yields_different_id() {
    let store = open_in_memory();
    let id1 = put(&store, false, "struct A;", "").expect("a");
    let id2 = put(&store, false, "struct B;", "").expect("b");
    assert_ne!(id1, id2);
}

#[test]
fn get_returns_none_for_unknown_id() {
    let store = open_in_memory();
    assert!(get(&store, "aaaaaaaa").is_none());
}

#[test]
fn is_valid_id_rejects_bad_chars() {
    assert!(!is_valid_id(""));
    assert!(!is_valid_id("ABCDEFGH")); // uppercase outside alphabet
    assert!(!is_valid_id("ab1defgh")); // '1' is not in the base32 alphabet
    assert!(!is_valid_id("ab/defgh"));
    assert!(is_valid_id("abcdefgh"));
    assert!(is_valid_id("abc23456"));
}

#[test]
fn put_grows_id_on_prefix_collision() {
    let store = open_in_memory();
    let real_hash = content_hash(false, "real content", "");
    let collision_id = &real_hash[..ID_MIN_LEN];
    store
        .execute(
            "INSERT INTO snippets (id, is_type, content, target, created_at) \
             VALUES (?1, 0, 'other content', '', 0)",
            (collision_id,),
        )
        .expect("inject collision row");
    let id = put(&store, false, "real content", "").expect("put");
    assert!(
        id.len() > ID_MIN_LEN,
        "should grow past collision; got id {id}"
    );
    assert!(
        real_hash.starts_with(&id),
        "grown id must be a prefix of the real hash: {id} vs {real_hash}",
    );
}

#[test]
fn put_gives_up_when_every_prefix_is_taken() {
    let store = open_in_memory();
    let hash = content_hash(true, "u8", "");
    for len in ID_MIN_LEN..=hash.len() {
        store
            .execute(
                SQL_SNIPPET_ADD,
                (&hash[..len], 0i64, "other", "", 0i64),
            )
            .unwrap();
    }
    assert_eq!(put(&store, true, "u8", ""), None);
    assert!(is_valid_id(&hash));
}

#[test]
fn snippets_keep_kind_and_target() {
    let store = open_in_memory();
    let code = put(&store, false, "u8", "").unwrap();
    let typ = put(&store, true, "u8", "").unwrap();
    let wasm = put(&store, true, "u8", "wasm32-unknown-unknown").unwrap();
    assert!(!get(&store, &code).unwrap().is_type_expr);
    assert!(get(&store, &typ).unwrap().is_type_expr);
    let s = get(&store, &wasm).unwrap();
    assert_eq!(s.target, "wasm32-unknown-unknown");
    assert_eq!(s.id, wasm);
    assert_eq!(SnippetStore {}.len(count(&store, SQL_SNIPPETS_LEN)), 3);
    assert_eq!(SnippetStore {}.len(None), 0);
}

// ── statistics ─────────────────────────────────────────────

struct Site {
    conn: Connection,
    stats: Stats,
}

fn apply(conn: &Connection, u: Update) {
    conn.execute(apply_counter(u.counter), (u.counter.key(), u.value))
        .unwrap();
}

fn write(conn: &Connection, r: Recorded) {
    for u in r.updates {
        apply(conn, u);
    }
    if let Some(target) = r.bump_target {
        let updated = conn.execute(SQL_TARGET_BUMP, (&target,)).unwrap();
        if bump_after_update(updated) == BumpStep::CountTargets {
            let total = count(conn, SQL_TARGET_LEN).unwrap_or(0);
            if bump_after_count(total) == BumpStep::Add {
                conn.execute(SQL_TARGET_ADD, (&target,)).unwrap();
            }
        }
    }
}

fn start(conn: &Connection, now: Option<u64>) -> Stats {
    let (stats, first) = match now {
        Some(now) => Stats::new_at(now),
        None => Stats::new(),
    };
    conn.execute(SQL_COUNTER_ONCE, (first.counter.key(), first.value))
        .unwrap();
    stats
}

fn site() -> Site {
    let conn = open_in_memory();
    let stats = start(&conn, None);
    Site { conn, stats }
}

fn rows(conn: &Connection, sql: &str) -> Vec<(String, i64)> {
    let mut stmt = conn.prepare(sql).unwrap();
    let rows = stmt
        .query_map([], |r| Ok((r.get::<_, String>(0)?, r.get::<_, i64>(1)?)))
        .unwrap();
    rows.map(|r| r.unwrap()).collect()
}

impl Site {
    fn record(&self, outcome: Outcome<'_>) {
        write(&self.conn, self.stats.record(outcome));
    }

    fn snapshot(&self) -> StatsSnapshot {
        self.stats.snapshot(
            &rows(&self.conn, SQL_COUNTERS),
            &rows(&self.conn, SQL_TARGETS),
            0,
            0,
            0,
        )
    }
}

#[test]
fn first_seen_is_persisted_once() {
    let conn = open_in_memory();
    let s1 = start(&conn, Some(1_000));
    let first1 = s1
        .snapshot(&rows(&conn, SQL_COUNTERS), &Vec::new(), 0, 0, 0)
        .data
        .first_seen_unix;
    let s2 = start(&conn, Some(1_002));
    let snap2 = s2.snapshot(&rows(&conn, SQL_COUNTERS), &Vec::new(), 0, 0, 0);
    assert_eq!(
        first1, snap2.data.first_seen_unix,
        "first_seen should not advance across restarts"
    );
    assert_eq!(first1, Some(1_000));
    assert_eq!(snap2.session_started_unix, 1_002);
}

#[test]
fn success_records_counters_and_target() {
    let site = site();
    site.record(Outcome::Success {
        types_count: 3,
        target: Some("x86_64-unknown-linux-gnu"),
        is_type_expr: false,
    });
    let snap = site.snapshot();
    assert_eq!(snap.data.total_requests, 1);
    assert_eq!(snap.data.successful_requests, 1);
    assert_eq!(snap.data.code_requests, 1);
    assert_eq!(snap.data.total_types_analyzed, 3);
    assert_eq!(
        snap.data.by_target.get("x86_64-unknown-linux-gnu"),
        Some(1)
    );
}

#[test]
fn failure_paths_increment_specific_buckets() {
    let site = site();
    site.record(Outcome::Timeout { is_type_expr: true });
    site.record(Outcome::Forbidden {
        is_type_expr: false,
    });
    let snap = site.snapshot();
    assert_eq!(snap.data.failed_requests, 2);
    assert_eq!(snap.data.timeouts, 1);
    assert_eq!(snap.data.forbidden, 1);
    assert_eq!(snap.data.type_requests, 1);
    assert_eq!(snap.data.code_requests, 1);
}

#[test]
fn every_failure_has_its_bucket() {
    let site = site();
    site.record(Outcome::BadRequest);
    site.record(Outcome::AnalysisError { is_type_expr: true });
    site.record(Outcome::InternalError {
        is_type_expr: false,
    });
    let data = site.snapshot().data;
    assert_eq!(data.total_requests, 3);
    assert_eq!(data.failed_requests, 3);
    assert_eq!(data.bad_requests, 1);
    assert_eq!(data.analysis_errors, 1);
    assert_eq!(data.internal_errors, 1);
    assert_eq!(data.type_requests, 1);
    assert_eq!(data.code_requests, 1);
    assert!(data.last_request_unix.unwrap() > 1_600_000_000);
}

#[test]
fn cache_counters_are_independent() {
    let site = site();
    apply(&site.conn, site.stats.record_cache_hit());
    apply(&site.conn, site.stats.record_cache_hit());
    apply(&site.conn, site.stats.record_cache_miss());
    let snap = site.snapshot();
    assert_eq!(snap.data.cache_hits, 2);
    assert_eq!(snap.data.cache_misses, 1);
    // Cache counters must not bump total_requests.
    assert_eq!(snap.data.total_requests, 0);
}

#[test]
fn shortlink_counters_are_independent() {
    let site = site();
    apply(&site.conn, site.stats.record_shortlink_created());
    apply(&site.conn, site.stats.record_shortlink_loaded());
    apply(&site.conn, site.stats.record_shortlink_loaded());
    let data = site.snapshot().data;
    assert_eq!(data.shortlinks_created, 1);
    assert_eq!(data.shortlinks_loaded, 2);
    assert_eq!(data.total_requests, 0);
    assert_eq!(data.last_request_unix, None);
}

#[test]
fn by_target_stops_growing_at_cap() {
    let site = site();
    for i in 0..(MAX_TARGETS + 5) {
        let t = format!("t{i:04}");
        site.record(Outcome::Success {
            types_count: 0,
            target: Some(&t),
            is_type_expr: false,
        });
    }
    let snap = site.snapshot();
    assert_eq!(snap.data.by_target.len(), MAX_TARGETS);
    // First MAX_TARGETS targets won; later ones were dropped.
    assert!(snap.data.by_target.get("t0000").is_some());
    assert!(snap
        .data
        .by_target
        .get(&format!("t{:04}", MAX_TARGETS + 4))
        .is_none());
}

#[test]
fn unfit_targets_are_not_counted() {
    let site = site();
    let long = "a".repeat(97);
    for t in ["", "a b", "../etc/passwd", "é", long.as_str()] {
        site.record(Outcome::Success {
            types_count: 1,
            target: Some(t),
            is_type_expr: true,
        });
    }
    let fit = "a".repeat(96);
    site.record(Outcome::Success {
        types_count: 1,
        target: Some(&fit),
        is_type_expr: true,
    });
    site.record(Outcome::Success {
        types_count: 1,
        target: Some("A-z_0.9"),
        is_type_expr: true,
    });
    site.record(Outcome::Success {
        types_count: 1,
        target: None,
        is_type_expr: true,
    });
    let data = site.snapshot().data;
    assert_eq!(data.by_target.len(), 2);
    assert_eq!(data.by_target.get(&fit), Some(1));
    assert_eq!(data.total_types_analyzed, 8);
    assert_eq!(data.successful_requests, 8);
}

#[test]
fn times_are_set_and_not_added_up() {
    let site = site();
    assert_eq!(apply_counter(Counter::FirstSeenUnix), SQL_COUNTER_ABS);
    assert_eq!(apply_counter(Counter::LastRequestUnix), SQL_COUNTER_ABS);
    for value in [100, 200] {
        apply(&site.conn, Update { counter: Counter::FirstSeenUnix, value });
        apply(&site.conn, Update { counter: Counter::LastRequestUnix, value });
    }
    let data = site.snapshot().data;
    assert_eq!(data.first_seen_unix, Some(200));
    assert_eq!(data.last_request_unix, Some(200));
}

#[test]
fn cache_get_of_an_absent_key_changes_nothing() {
    let cache = cache(2);
    let key = CacheKey::new(false, "1", None);
    let absent = CacheKey::new(false, "2", None);
    cache.put_at(key.clone(), b"[1]", 100);
    assert_eq!(cache.get_at(&absent, 101), None);
    assert_eq!(cache.len(), 1);
    assert_eq!(cache.get_at(&key, 102), Some(b"[1]".to_vec()));
    assert_eq!(cache.get_at(&key, 103), Some(b"[1]".to_vec()));
    assert_eq!(cache.len(), 1);
}

#[test]
fn key_without_a_target_is_that_of_the_empty_target() {
    let none = CacheKey::new(false, "code", None);
    assert_eq!(none.hash, CacheKey::new(false, "code", Some("")).hash);
    assert_eq!(none.hash, content_hash(false, "code", ""));
    assert_ne!(none.hash, CacheKey::new(false, "cod", Some("e")).hash);
}

// ── requests, one after the other ──────────────────────────

/// Handles a request as the site does, with the given result of an analysis.  An analysis is kept
/// as the count of its layouts.  Tells whether it was answered from the cache, and how many
/// layouts it was answered with.
fn visit(
    site: &Site,
    cache: &Cache,
    req: AnalyzeRequest,
    ran: Result<Vec<TypeLayout>, Failure>,
) -> Result<(bool, usize), Status> {
    let q = match analyze(&req) {
        Begun::Asked(q) => q,
        Begun::Refused(f, outcome) => {
            site.record(outcome);
            return Err(f.status);
        }
    };
    let cached = cache.get(&q.key).map(|json| layouts(json[0] as usize));
    let (update, found) = looked_up(&site.stats, &q, cached);
    apply(&site.conn, update);
    if let Some((response, outcome)) = found {
        site.record(outcome);
        return Ok((response.cached, response.types.len()));
    }
    let (answer, outcome) = finish(&q, ran);
    site.record(outcome);
    let key = kept(&q, &answer);
    match answer {
        Ok(response) => {
            cache.put(key.unwrap(), &[response.types.len() as u8]);
            Ok((response.cached, response.types.len()))
        }
        Err(f) => {
            assert!(key.is_none());
            Err(f.status)
        }
    }
}

fn layouts(n: usize) -> Vec<TypeLayout> {
    (0..n)
        .map(|i| TypeLayout {
            name: format!("T{i}"),
            size: 0,
            alignment: 1,
            hover_info: None,
            largest_niche: None,
            kind: nichy::layout::TypeLayoutKind::Opaque,
        })
        .collect()
}

fn asking(code: Option<&str>, type_expr: Option<&str>, target: Option<&str>) -> AnalyzeRequest {
    AnalyzeRequest {
        code: code.map(String::from),
        type_expr: type_expr.map(String::from),
        target: target.map(String::from),
    }
}

fn failing() -> Result<Vec<TypeLayout>, Failure> {
    Err(Failure {
        status: Status::GatewayTimeout,
        error: "late".into(),
    })
}

#[test]
fn equal_requests_are_answered_from_the_cache() {
    let (site, cache) = (site(), cache(4));
    let first = asking(Some("struct A;"), Some("u8 "), None);
    assert_eq!(visit(&site, &cache, first, Ok(layouts(2))), Ok((false, 2)));
    let second = asking(None, Some("u8"), Some(" x86_64-unknown-linux-gnu"));
    assert_eq!(visit(&site, &cache, second, failing()), Ok((true, 2)));
    let third = asking(None, Some("u8\t"), None);
    assert_eq!(visit(&site, &cache, third, failing()), Ok((true, 2)));
    let code = asking(Some("u8"), None, None);
    assert_eq!(visit(&site, &cache, code, Ok(layouts(3))), Ok((false, 3)));
    assert_eq!(cache.len(), 2);
}

#[test]
fn failures_are_not_kept() {
    let (site, cache) = (site(), cache(4));
    let req = || asking(None, Some("u8"), None);
    assert_eq!(visit(&site, &cache, req(), failing()), Err(Status::GatewayTimeout));
    assert_eq!(cache.len(), 0);
    assert_eq!(visit(&site, &cache, req(), Ok(layouts(1))), Ok((false, 1)));
    assert_eq!(cache.len(), 1);
}

#[test]
fn every_visit_is_counted_once() {
    let (site, cache) = (site(), cache(4));
    let _ = visit(&site, &cache, asking(None, None, None), failing());
    let _ = visit(&site, &cache, asking(Some("env!()"), None, None), failing());
    let _ = visit(&site, &cache, asking(Some("u8"), None, Some("bad")), failing());
    let _ = visit(&site, &cache, asking(Some("struct A;"), None, None), failing());
    let _ = visit(&site, &cache, asking(Some("struct A;"), None, None), Ok(layouts(1)));
    let _ = visit(&site, &cache, asking(Some("struct A;"), None, None), failing());
    let data = site.snapshot().data;
    assert_eq!(data.total_requests, 6);
    assert_eq!((data.cache_hits, data.cache_misses), (1, 2));
    assert_eq!((data.successful_requests, data.failed_requests), (2, 4));
    assert_eq!((data.bad_requests, data.forbidden, data.timeouts), (2, 1, 1));
    let counted: u64 = data.by_target.entries().iter().map(|(_, n)| *n).sum();
    assert_eq!(counted, data.successful_requests);
}
