//! The site's statistics: what each event counts, and what the counters show.
use vstd::prelude::*;

use crate::db::{clock_may_show, unix_now};
use crate::targets::TargetCounts;
use crate::text::{chars_of, opt_view, same_str, str_opt_view};

verus! {

/// How many targets are counted at most.
pub const MAX_TARGETS: usize = 256;

/// How long the name of a counted target is at most.
pub const MAX_TARGET_LEN: usize = 96;

// ── counters ───────────────────────────────────────────────

/// A counter of the site.
#[derive(Clone, Copy, Debug, PartialEq, Eq, Structural)]
pub enum Counter {
    TotalRequests,
    SuccessfulRequests,
    FailedRequests,
    CodeRequests,
    TypeRequests,
    Forbidden,
    Timeouts,
    AnalysisErrors,
    BadRequests,
    InternalErrors,
    TotalTypesAnalyzed,
    CacheHits,
    CacheMisses,
    ShortlinksCreated,
    ShortlinksLoaded,
    FirstSeenUnix,
    LastRequestUnix,
}

/// The name under which a counter is kept.
pub open spec fn key_of(c: Counter) -> Seq<char> {
    match c {
        Counter::TotalRequests => "total_requests"@,
        Counter::SuccessfulRequests => "successful_requests"@,
        Counter::FailedRequests => "failed_requests"@,
        Counter::CodeRequests => "code_requests"@,
        Counter::TypeRequests => "type_requests"@,
        Counter::Forbidden => "forbidden"@,
        Counter::Timeouts => "timeouts"@,
        Counter::AnalysisErrors => "analysis_errors"@,
        Counter::BadRequests => "bad_requests"@,
        Counter::InternalErrors => "internal_errors"@,
        Counter::TotalTypesAnalyzed => "total_types_analyzed"@,
        Counter::CacheHits => "cache_hits"@,
        Counter::CacheMisses => "cache_misses"@,
        Counter::ShortlinksCreated => "shortlinks_created"@,
        Counter::ShortlinksLoaded => "shortlinks_loaded"@,
        Counter::FirstSeenUnix => "first_seen_unix"@,
        Counter::LastRequestUnix => "last_request_unix"@,
    }
}

impl Counter {
    /// The name under which the counter is kept.
    pub fn key(self) -> (r: &'static str)
        ensures
            r@ == key_of(self),
    {
        match self {
            Counter::TotalRequests => "total_requests",
            Counter::SuccessfulRequests => "successful_requests",
            Counter::FailedRequests => "failed_requests",
            Counter::CodeRequests => "code_requests",
            Counter::TypeRequests => "type_requests",
            Counter::Forbidden => "forbidden",
            Counter::Timeouts => "timeouts",
            Counter::AnalysisErrors => "analysis_errors",
            Counter::BadRequests => "bad_requests",
            Counter::InternalErrors => "internal_errors",
            Counter::TotalTypesAnalyzed => "total_types_analyzed",
            Counter::CacheHits => "cache_hits",
            Counter::CacheMisses => "cache_misses",
            Counter::ShortlinksCreated => "shortlinks_created",
            Counter::ShortlinksLoaded => "shortlinks_loaded",
            Counter::FirstSeenUnix => "first_seen_unix",
            Counter::LastRequestUnix => "last_request_unix",
        }
    }
}

/// No two counters are kept under one name.
pub proof fn law_keys_tell_counters_apart(a: Counter, b: Counter)
    requires
        key_of(a) == key_of(b),
    ensures
        a == b,
{
    reveal_strlit("total_requests");
    reveal_strlit("successful_requests");
    reveal_strlit("failed_requests");
    reveal_strlit("code_requests");
    reveal_strlit("type_requests");
    reveal_strlit("forbidden");
    reveal_strlit("timeouts");
    reveal_strlit("analysis_errors");
    reveal_strlit("bad_requests");
    reveal_strlit("internal_errors");
    reveal_strlit("total_types_analyzed");
    reveal_strlit("cache_hits");
    reveal_strlit("cache_misses");
    reveal_strlit("shortlinks_created");
    reveal_strlit("shortlinks_loaded");
    reveal_strlit("first_seen_unix");
    reveal_strlit("last_request_unix");
    let x = key_of(a);
    let y = key_of(b);
    assert(x.len() == y.len() && x[0] == y[0] && x[1] == y[1]);
}

// ── events ─────────────────────────────────────────────────

/// How a request ended.
pub enum Outcome<'a> {
    Success { types_count: u64, target: Option<&'a str>, is_type_expr: bool },
    Forbidden { is_type_expr: bool },
    Timeout { is_type_expr: bool },
    AnalysisError { is_type_expr: bool },
    BadRequest,
    InternalError { is_type_expr: bool },
}

/// What an [`Outcome`] says.
pub enum OutcomeView {
    Success { types_count: u64, target: Option<Seq<char>>, is_type_expr: bool },
    Forbidden { is_type_expr: bool },
    Timeout { is_type_expr: bool },
    AnalysisError { is_type_expr: bool },
    BadRequest,
    InternalError { is_type_expr: bool },
}

impl<'a> View for Outcome<'a> {
    type V = OutcomeView;

    open spec fn view(&self) -> OutcomeView {
        match self {
            Outcome::Success { types_count, target, is_type_expr } => OutcomeView::Success {
                types_count: *types_count,
                target: str_opt_view(*target),
                is_type_expr: *is_type_expr,
            },
            Outcome::Forbidden { is_type_expr } => OutcomeView::Forbidden {
                is_type_expr: *is_type_expr,
            },
            Outcome::Timeout { is_type_expr } => OutcomeView::Timeout {
                is_type_expr: *is_type_expr,
            },
            Outcome::AnalysisError { is_type_expr } => OutcomeView::AnalysisError {
                is_type_expr: *is_type_expr,
            },
            Outcome::BadRequest => OutcomeView::BadRequest,
            Outcome::InternalError { is_type_expr } => OutcomeView::InternalError {
                is_type_expr: *is_type_expr,
            },
        }
    }
}

/// A change of a counter: what is added to it or, where it is a time, what it becomes.
#[derive(Clone, Copy, Debug, PartialEq, Eq, Structural)]
pub struct Update {
    pub counter: Counter,
    pub value: i64,
}

/// One more of what the counter counts.
pub open spec fn one_more(counter: Counter) -> Update {
    Update { counter, value: 1 }
}

/// What a request counts by the way it ended.
pub open spec fn ending(outcome: OutcomeView) -> Seq<Update> {
    match outcome {
        OutcomeView::Success { types_count, .. } => seq![
            one_more(Counter::SuccessfulRequests),
            Update { counter: Counter::TotalTypesAnalyzed, value: types_count as i64 },
        ],
        OutcomeView::Forbidden { .. } => seq![
            one_more(Counter::FailedRequests),
            one_more(Counter::Forbidden),
        ],
        OutcomeView::Timeout { .. } => seq![
            one_more(Counter::FailedRequests),
            one_more(Counter::Timeouts),
        ],
        OutcomeView::AnalysisError { .. } => seq![
            one_more(Counter::FailedRequests),
            one_more(Counter::AnalysisErrors),
        ],
        OutcomeView::InternalError { .. } => seq![
            one_more(Counter::FailedRequests),
            one_more(Counter::InternalErrors),
        ],
        OutcomeView::BadRequest => seq![
            one_more(Counter::FailedRequests),
            one_more(Counter::BadRequests),
        ],
    }
}

/// Whether a request was for a type, where that is known.
pub open spec fn mode_of(outcome: OutcomeView) -> Option<bool> {
    match outcome {
        OutcomeView::Success { is_type_expr, .. } => Some(is_type_expr),
        OutcomeView::Forbidden { is_type_expr } => Some(is_type_expr),
        OutcomeView::Timeout { is_type_expr } => Some(is_type_expr),
        OutcomeView::AnalysisError { is_type_expr } => Some(is_type_expr),
        OutcomeView::InternalError { is_type_expr } => Some(is_type_expr),
        OutcomeView::BadRequest => None,
    }
}

/// What a request counts by what it was for.
pub open spec fn asking(outcome: OutcomeView) -> Seq<Update> {
    match mode_of(outcome) {
        Some(true) => seq![one_more(Counter::TypeRequests)],
        Some(false) => seq![one_more(Counter::CodeRequests)],
        None => Seq::empty(),
    }
}

/// What a request counts.
pub open spec fn updates_of(outcome: OutcomeView, now: u64) -> Seq<Update> {
    seq![
        one_more(Counter::TotalRequests),
        Update { counter: Counter::LastRequestUnix, value: now as i64 },
    ] + ending(outcome) + asking(outcome)
}

/// The character may stand in the name of a counted target.
pub open spec fn target_char(c: char) -> bool {
    'a' <= c <= 'z' || 'A' <= c <= 'Z' || '0' <= c <= '9' || c == '-' || c == '_' || c == '.'
}

/// The name is fit to be counted: short and plain.
pub open spec fn countable(t: Seq<char>) -> bool {
    0 < t.len() <= MAX_TARGET_LEN && forall|i: int| 0 <= i < t.len() ==> target_char(#[trigger] t[i])
}

/// The target that a request counts.
pub open spec fn counted_target(outcome: OutcomeView) -> Option<Seq<char>> {
    match outcome {
        OutcomeView::Success { target: Some(t), .. } if countable(t) => Some(t),
        _ => None,
    }
}

/// Passes on a target that is fit to be counted.
pub fn sanitize_target(t: &str) -> (r: Option<String>)
    ensures
        match r {
            Some(s) => countable(t@) && s@ == t@,
            None => !countable(t@),
        },
{
    let chars = chars_of(t);
    if chars.len() == 0 || chars.len() > MAX_TARGET_LEN {
        return None;
    }
    for i in 0..chars.len()
        invariant
            chars@ == t@,
            forall|j: int| 0 <= j < i ==> target_char(#[trigger] t@[j]),
    {
        let c = chars[i];
        if !(('a' <= c && c <= 'z') || ('A' <= c && c <= 'Z') || ('0' <= c && c <= '9') || c == '-'
            || c == '_' || c == '.') {
            assert(!target_char(t@[i as int]));
            return None;
        }
    }
    Some(t.to_owned())
}

/// What is to be written for a request.
pub struct Recorded {
    pub updates: Vec<Update>,
    pub bump_target: Option<String>,
}

/// What is to be written for a request that ended at the given time.
pub open spec fn records(r: Recorded, outcome: OutcomeView, now: u64) -> bool {
    &&& r.updates@ == updates_of(outcome, now)
    &&& opt_view(r.bump_target) == counted_target(outcome)
}

fn push_mode(updates: &mut Vec<Update>, is_type_expr: bool)
    ensures
        final(updates)@ == old(updates)@ + (if is_type_expr {
            seq![one_more(Counter::TypeRequests)]
        } else {
            seq![one_more(Counter::CodeRequests)]
        }),
{
    if is_type_expr {
        updates.push(Update { counter: Counter::TypeRequests, value: 1 });
    } else {
        updates.push(Update { counter: Counter::CodeRequests, value: 1 });
    }
}

fn push_failure(updates: &mut Vec<Update>, counter: Counter)
    ensures
        final(updates)@ == old(updates)@ + seq![one_more(Counter::FailedRequests), one_more(counter)],
{
    updates.push(Update { counter: Counter::FailedRequests, value: 1 });
    updates.push(Update { counter, value: 1 });
}

/// Says what a request counts that ended at the given time.
pub fn record_at(outcome: Outcome<'_>, now: u64) -> (r: Recorded)
    ensures
        records(r, outcome@, now),
{
    let mut updates: Vec<Update> = Vec::new();
    updates.push(Update { counter: Counter::TotalRequests, value: 1 });
    updates.push(Update { counter: Counter::LastRequestUnix, value: now as i64 });
    let ghost start = seq![
        one_more(Counter::TotalRequests),
        Update { counter: Counter::LastRequestUnix, value: now as i64 },
    ];
    assert(updates@ =~= start);
    let mut bump_target: Option<String> = None;
    let mode = match outcome {
        Outcome::Success { types_count, target, is_type_expr } => {
            updates.push(Update { counter: Counter::SuccessfulRequests, value: 1 });
            updates.push(
                Update { counter: Counter::TotalTypesAnalyzed, value: types_count as i64 },
            );
            bump_target =
            match target {
                Some(t) => sanitize_target(t),
                None => None,
            };
            Some(is_type_expr)
        },
        Outcome::Forbidden { is_type_expr } => {
            push_failure(&mut updates, Counter::Forbidden);
            Some(is_type_expr)
        },
        Outcome::Timeout { is_type_expr } => {
            push_failure(&mut updates, Counter::Timeouts);
            Some(is_type_expr)
        },
        Outcome::AnalysisError { is_type_expr } => {
            push_failure(&mut updates, Counter::AnalysisErrors);
            Some(is_type_expr)
        },
        Outcome::InternalError { is_type_expr } => {
            push_failure(&mut updates, Counter::InternalErrors);
            Some(is_type_expr)
        },
        Outcome::BadRequest => {
            push_failure(&mut updates, Counter::BadRequests);
            None
        },
    };
    assert(updates@ =~= start + ending(outcome@));
    match mode {
        Some(is_type_expr) => push_mode(&mut updates, is_type_expr),
        None => {
            assert(updates@ + Seq::<Update>::empty() =~= updates@);
        },
    }
    assert(updates@ =~= updates_of(outcome@, now));
    Recorded { updates, bump_target }
}

// ── statements ─────────────────────────────────────────────

/// Sets a counter.
pub const SQL_COUNTER_ABS: &'static str = "INSERT INTO stats_counter (key, value) VALUES (?1, ?2) ON CONFLICT(key) DO UPDATE SET value = excluded.value";

/// Adds to a counter.
pub const SQL_COUNTER_DELTA: &'static str = "INSERT INTO stats_counter (key, value) VALUES (?1, ?2) ON CONFLICT(key) DO UPDATE SET value = stats_counter.value + excluded.value";

/// Sets a counter that has no row yet.
pub const SQL_COUNTER_ONCE: &'static str = "INSERT INTO stats_counter (key, value) VALUES (?1, ?2) ON CONFLICT(key) DO NOTHING";

/// Lists the counters.
pub const SQL_COUNTERS: &'static str = "SELECT key, value FROM stats_counter";

/// Raises the count of a target by one.
pub const SQL_TARGET_BUMP: &'static str = "UPDATE stats_by_target SET count = count + 1 WHERE target = ?1";

/// Counts the targets.
pub const SQL_TARGET_LEN: &'static str = "SELECT COUNT(*) FROM stats_by_target";

/// Adds a target.
pub const SQL_TARGET_ADD: &'static str = "INSERT INTO stats_by_target (target, count) VALUES (?1, 1)";

/// Lists the targets.
pub const SQL_TARGETS: &'static str = "SELECT target, count FROM stats_by_target";

/// The counter holds a time and is set, not added to.
pub open spec fn is_absolute(counter: Counter) -> bool {
    counter == Counter::LastRequestUnix || counter == Counter::FirstSeenUnix
}

/// The statement that applies an update of the counter.
pub fn apply_counter(counter: Counter) -> (r: &'static str)
    ensures
        r@ == (if is_absolute(counter) {
            SQL_COUNTER_ABS@
        } else {
            SQL_COUNTER_DELTA@
        }),
{
    match counter {
        Counter::LastRequestUnix | Counter::FirstSeenUnix => SQL_COUNTER_ABS,
        _ => SQL_COUNTER_DELTA,
    }
}

/// What is to be done next to count a target.
#[derive(Clone, Copy, Debug, PartialEq, Eq, Structural)]
pub enum BumpStep {
    /// The count is settled.
    Done,
    /// The targets are to be counted.
    CountTargets,
    /// The target is to be added.
    Add,
}

/// There is room for one more target.
pub open spec fn has_room(total: int) -> bool {
    0 <= total < MAX_TARGETS
}

/// What is to be done once so many rows of the target were raised by one.
pub fn bump_after_update(updated: usize) -> (r: BumpStep)
    ensures
        r == (if updated > 0 {
            BumpStep::Done
        } else {
            BumpStep::CountTargets
        }),
{
    if updated > 0 {
        BumpStep::Done
    } else {
        BumpStep::CountTargets
    }
}

/// What is to be done once the targets were counted.
pub fn bump_after_count(total: i64) -> (r: BumpStep)
    ensures
        r == (if has_room(total as int) {
            BumpStep::Add
        } else {
            BumpStep::Done
        }),
{
    if total < 0 || total >= MAX_TARGETS as i64 {
        BumpStep::Done
    } else {
        BumpStep::Add
    }
}

/// The site's statistics since the process started.
pub struct Stats {
    session_started_unix: u64,
}

impl Stats {
    /// When the process started.
    pub closed spec fn started(self) -> u64 {
        self.session_started_unix
    }

    /// Starts at the given time.  The update is for [`SQL_COUNTER_ONCE`]: only the first start
    /// ever counts.
    pub fn new_at(now: u64) -> (r: (Self, Update))
        ensures
            r.0.started() == now,
            r.1 == (Update { counter: Counter::FirstSeenUnix, value: now as i64 }),
    {
        (
            Stats { session_started_unix: now },
            Update { counter: Counter::FirstSeenUnix, value: now as i64 },
        )
    }

    /// Starts now.
    pub fn new() -> (r: (Self, Update))
        ensures
            clock_may_show(r.0.started()),
            r.1 == (Update { counter: Counter::FirstSeenUnix, value: r.0.started() as i64 }),
    {
        Self::new_at(unix_now())
    }

    /// Says what a request counts.
    pub fn record(&self, outcome: Outcome<'_>) -> (r: Recorded)
        ensures
            exists|now: u64| clock_may_show(now) && #[trigger] records(r, outcome@, now),
    {
        let now = unix_now();
        record_at(outcome, now)
    }

    /// Says what an analysis counts that was found in the cache.
    pub fn record_cache_hit(&self) -> (r: Update)
        ensures
            r == one_more(Counter::CacheHits),
    {
        Update { counter: Counter::CacheHits, value: 1 }
    }

    /// Says what an analysis counts that was not found in the cache.
    pub fn record_cache_miss(&self) -> (r: Update)
        ensures
            r == one_more(Counter::CacheMisses),
    {
        Update { counter: Counter::CacheMisses, value: 1 }
    }

    /// Says what a new short link counts.
    pub fn record_shortlink_created(&self) -> (r: Update)
        ensures
            r == one_more(Counter::ShortlinksCreated),
    {
        Update { counter: Counter::ShortlinksCreated, value: 1 }
    }

    /// Says what a followed short link counts.
    pub fn record_shortlink_loaded(&self) -> (r: Update)
        ensures
            r == one_more(Counter::ShortlinksLoaded),
    {
        Update { counter: Counter::ShortlinksLoaded, value: 1 }
    }

    /// What the statistics show at the given time.
    pub fn snapshot_at(
        &self,
        counters: &Vec<(String, i64)>,
        targets: &Vec<(String, i64)>,
        cache_size: usize,
        cache_capacity: usize,
        snippets_total: usize,
        now: u64,
    ) -> (r: StatsSnapshot)
        ensures
            shows(r.data, row_views(counters@), row_views(targets@)),
            r.session_started_unix == self.started(),
            r.now_unix == now,
            r.cache_size == cache_size,
            r.cache_capacity == cache_capacity,
            r.snippets_total == snippets_total,
    {
        StatsSnapshot {
            data: StatsData::from_rows(counters, targets),
            session_started_unix: self.session_started_unix,
            now_unix: now,
            cache_size,
            cache_capacity,
            snippets_total,
        }
    }

    /// What the statistics show now.
    pub fn snapshot(
        &self,
        counters: &Vec<(String, i64)>,
        targets: &Vec<(String, i64)>,
        cache_size: usize,
        cache_capacity: usize,
        snippets_total: usize,
    ) -> (r: StatsSnapshot)
        ensures
            shows(r.data, row_views(counters@), row_views(targets@)),
            r.session_started_unix == self.started(),
            clock_may_show(r.now_unix),
            r.cache_size == cache_size,
            r.cache_capacity == cache_capacity,
            r.snippets_total == snippets_total,
    {
        let now = unix_now();
        self.snapshot_at(counters, targets, cache_size, cache_capacity, snippets_total, now)
    }
}

// ── what is shown ──────────────────────────────────────────

/// The statistics.
pub struct StatsData {
    pub total_requests: u64,
    pub successful_requests: u64,
    pub failed_requests: u64,
    pub code_requests: u64,
    pub type_requests: u64,
    pub forbidden: u64,
    pub timeouts: u64,
    pub analysis_errors: u64,
    pub bad_requests: u64,
    pub internal_errors: u64,
    pub total_types_analyzed: u64,
    pub by_target: TargetCounts,
    pub first_seen_unix: Option<u64>,
    pub last_request_unix: Option<u64>,
    pub cache_hits: u64,
    pub cache_misses: u64,
    pub shortlinks_created: u64,
    pub shortlinks_loaded: u64,
}

/// The statistics, with what is known of the running process.
pub struct StatsSnapshot {
    pub data: StatsData,
    pub session_started_unix: u64,
    pub now_unix: u64,
    pub cache_size: usize,
    pub cache_capacity: usize,
    pub snippets_total: usize,
}

/// The rows as texts and numbers.
pub open spec fn row_views(rows: Seq<(String, i64)>) -> Seq<(Seq<char>, i64)> {
    rows.map_values(|row: (String, i64)| (row.0@, row.1))
}

/// A count of the database; one below zero shows as zero.
pub open spec fn at_least_zero(v: i64) -> u64 {
    if v > 0 {
        v as u64
    } else {
        0
    }
}

/// What the rows say of a key: the last of its rows counts.
pub open spec fn row_value(rows: Seq<(Seq<char>, i64)>, key: Seq<char>) -> Option<u64>
    decreases rows.len(),
{
    if rows.len() == 0 {
        None
    } else if rows.last().0 == key {
        Some(at_least_zero(rows.last().1))
    } else {
        row_value(rows.drop_last(), key)
    }
}

/// What the statistics say of a counter.
pub open spec fn field(data: StatsData, counter: Counter) -> Option<u64> {
    match counter {
        Counter::TotalRequests => Some(data.total_requests),
        Counter::SuccessfulRequests => Some(data.successful_requests),
        Counter::FailedRequests => Some(data.failed_requests),
        Counter::CodeRequests => Some(data.code_requests),
        Counter::TypeRequests => Some(data.type_requests),
        Counter::Forbidden => Some(data.forbidden),
        Counter::Timeouts => Some(data.timeouts),
        Counter::AnalysisErrors => Some(data.analysis_errors),
        Counter::BadRequests => Some(data.bad_requests),
        Counter::InternalErrors => Some(data.internal_errors),
        Counter::TotalTypesAnalyzed => Some(data.total_types_analyzed),
        Counter::CacheHits => Some(data.cache_hits),
        Counter::CacheMisses => Some(data.cache_misses),
        Counter::ShortlinksCreated => Some(data.shortlinks_created),
        Counter::ShortlinksLoaded => Some(data.shortlinks_loaded),
        Counter::FirstSeenUnix => data.first_seen_unix,
        Counter::LastRequestUnix => data.last_request_unix,
    }
}

/// What is shown of a counter that has the given row: a count without one is zero, a time
/// without one is unknown.
pub open spec fn shown(value: Option<u64>, counter: Counter) -> Option<u64> {
    match (value, counter) {
        (Some(v), _) => Some(v),
        (None, Counter::FirstSeenUnix) => None,
        (None, Counter::LastRequestUnix) => None,
        (None, _) => Some(0),
    }
}

/// The counts by target that the rows say.
pub open spec fn target_map(rows: Seq<(Seq<char>, i64)>) -> Map<Seq<char>, u64>
    decreases rows.len(),
{
    if rows.len() == 0 {
        Map::empty()
    } else {
        target_map(rows.drop_last()).insert(rows.last().0, at_least_zero(rows.last().1))
    }
}

/// The statistics are what the rows say.
pub open spec fn shows(
    data: StatsData,
    counters: Seq<(Seq<char>, i64)>,
    targets: Seq<(Seq<char>, i64)>,
) -> bool {
    &&& forall|c: Counter| #[trigger] field(data, c) == shown(row_value(counters, key_of(c)), c)
    &&& data.by_target@ == target_map(targets)
}

impl Default for StatsData {
    fn default() -> (r: Self)
        ensures
            forall|c: Counter| #[trigger] field(r, c) == shown(None, c),
            r.by_target@ == Map::<Seq<char>, u64>::empty(),
    {
        StatsData {
            total_requests: 0,
            successful_requests: 0,
            failed_requests: 0,
            code_requests: 0,
            type_requests: 0,
            forbidden: 0,
            timeouts: 0,
            analysis_errors: 0,
            bad_requests: 0,
            internal_errors: 0,
            total_types_analyzed: 0,
            by_target: TargetCounts::new(),
            first_seen_unix: None,
            last_request_unix: None,
            cache_hits: 0,
            cache_misses: 0,
            shortlinks_created: 0,
            shortlinks_loaded: 0,
        }
    }
}

fn clamp(v: i64) -> (r: u64)
    ensures
        r == at_least_zero(v),
{
    if v > 0 {
        v as u64
    } else {
        0
    }
}

/// The counter that is kept under a name.
pub fn counter_named(key: &str) -> (r: Option<Counter>)
    ensures
        match r {
            Some(c) => key_of(c) == key@,
            None => forall|c: Counter| #[trigger] key_of(c) != key@,
        },
{
    let all = [
        Counter::TotalRequests,
        Counter::SuccessfulRequests,
        Counter::FailedRequests,
        Counter::CodeRequests,
        Counter::TypeRequests,
        Counter::Forbidden,
        Counter::Timeouts,
        Counter::AnalysisErrors,
        Counter::BadRequests,
        Counter::InternalErrors,
        Counter::TotalTypesAnalyzed,
        Counter::CacheHits,
        Counter::CacheMisses,
        Counter::ShortlinksCreated,
        Counter::ShortlinksLoaded,
        Counter::FirstSeenUnix,
        Counter::LastRequestUnix,
    ];
    assert(all@.len() == 17);
    for i in 0..all.len()
        invariant
            all@.len() == 17,
            forall|j: int| 0 <= j < i ==> key_of(#[trigger] all@[j]) != key@,
    {
        if same_str(all[i].key(), key) {
            return Some(all[i]);
        }
    }
    proof {
        assert forall|c: Counter| #[trigger] key_of(c) != key@ by {
            assert(all@.contains(c)) by {
                assert(all@[0] == Counter::TotalRequests);
                assert(all@[1] == Counter::SuccessfulRequests);
                assert(all@[2] == Counter::FailedRequests);
                assert(all@[3] == Counter::CodeRequests);
                assert(all@[4] == Counter::TypeRequests);
                assert(all@[5] == Counter::Forbidden);
                assert(all@[6] == Counter::Timeouts);
                assert(all@[7] == Counter::AnalysisErrors);
                assert(all@[8] == Counter::BadRequests);
                assert(all@[9] == Counter::InternalErrors);
                assert(all@[10] == Counter::TotalTypesAnalyzed);
                assert(all@[11] == Counter::CacheHits);
                assert(all@[12] == Counter::CacheMisses);
                assert(all@[13] == Counter::ShortlinksCreated);
                assert(all@[14] == Counter::ShortlinksLoaded);
                assert(all@[15] == Counter::FirstSeenUnix);
                assert(all@[16] == Counter::LastRequestUnix);
            }
        }
    }
    None
}

impl StatsData {
    fn set(&mut self, counter: Counter, v: u64)
        ensures
            forall|c: Counter| #[trigger] field(*final(self), c) == (if c == counter {
                Some(v)
            } else {
                field(*old(self), c)
            }),
            final(self).by_target@ == old(self).by_target@,
    {
        match counter {
            Counter::TotalRequests => self.total_requests = v,
            Counter::SuccessfulRequests => self.successful_requests = v,
            Counter::FailedRequests => self.failed_requests = v,
            Counter::CodeRequests => self.code_requests = v,
            Counter::TypeRequests => self.type_requests = v,
            Counter::Forbidden => self.forbidden = v,
            Counter::Timeouts => self.timeouts = v,
            Counter::AnalysisErrors => self.analysis_errors = v,
            Counter::BadRequests => self.bad_requests = v,
            Counter::InternalErrors => self.internal_errors = v,
            Counter::TotalTypesAnalyzed => self.total_types_analyzed = v,
            Counter::CacheHits => self.cache_hits = v,
            Counter::CacheMisses => self.cache_misses = v,
            Counter::ShortlinksCreated => self.shortlinks_created = v,
            Counter::ShortlinksLoaded => self.shortlinks_loaded = v,
            Counter::FirstSeenUnix => self.first_seen_unix = Some(v),
            Counter::LastRequestUnix => self.last_request_unix = Some(v),
        }
    }

    /// What the rows of the database say.
    pub fn from_rows(counters: &Vec<(String, i64)>, targets: &Vec<(String, i64)>) -> (r: Self)
        ensures
            shows(r, row_views(counters@), row_views(targets@)),
    {
        let mut data = StatsData::default();
        let ghost rows = row_views(counters@);
        assert(rows.take(0) =~= Seq::empty());
        for i in 0..counters.len()
            invariant
                rows == row_views(counters@),
                rows.len() == counters@.len(),
                data.by_target@ == Map::<Seq<char>, u64>::empty(),
                forall|c: Counter| #[trigger]
                    field(data, c) == shown(row_value(rows.take(i as int), key_of(c)), c),
        {
            let ghost before = data;
            assert(rows.take(i + 1).drop_last() =~= rows.take(i as int));
            assert(rows.take(i + 1).last() == (counters@[i as int].0@, counters@[i as int].1));
            match counter_named(counters[i].0.as_str()) {
                Some(c) => {
                    data.set(c, clamp(counters[i].1));
                    proof {
                        assert forall|d: Counter| #[trigger]
                            field(data, d) == shown(row_value(rows.take(i + 1), key_of(d)), d) by {
                            if d != c {
                                assert(field(before, d) == shown(
                                    row_value(rows.take(i as int), key_of(d)),
                                    d,
                                ));
                                if key_of(d) == key_of(c) {
                                    law_keys_tell_counters_apart(d, c);
                                }
                            }
                        }
                    }
                },
                None => {
                    proof {
                        assert forall|d: Counter| #[trigger]
                            field(data, d) == shown(row_value(rows.take(i + 1), key_of(d)), d) by {
                            assert(key_of(d) != counters@[i as int].0@);
                        }
                    }
                },
            }
        }
        assert(rows.take(rows.len() as int) =~= rows);
        let mut by_target = TargetCounts::new();
        let ghost marks = row_views(targets@);
        assert(marks.take(0) =~= Seq::empty());
        for i in 0..targets.len()
            invariant
                marks == row_views(targets@),
                by_target@ == target_map(marks.take(i as int)),
        {
            assert(marks.take(i + 1).drop_last() =~= marks.take(i as int));
            by_target = by_target.with(targets[i].0.clone(), clamp(targets[i].1));
        }
        assert(marks.take(marks.len() as int) =~= marks);
        let ghost counted = data;
        data.by_target = by_target;
        proof {
            assert forall|c: Counter| #[trigger]
                field(data, c) == shown(row_value(rows, key_of(c)), c) by {
                assert(field(counted, c) == shown(row_value(rows, key_of(c)), c));
            }
        }
        data
    }
}

// ── what the database does with it ─────────────────────────

/// The counters that have a row, with their values.
pub type Counters = Map<Counter, int>;

/// The value of a counter; one without a row is zero.
pub open spec fn value(counters: Counters, counter: Counter) -> int {
    if counters.dom().contains(counter) {
        counters[counter]
    } else {
        0
    }
}

/// The counters after the statement that [`apply_counter`] picks.
pub open spec fn applied(counters: Counters, u: Update) -> Counters {
    counters.insert(
        u.counter,
        if is_absolute(u.counter) {
            u.value as int
        } else {
            value(counters, u.counter) + u.value
        },
    )
}

/// The counters after several updates, one after the other.
pub open spec fn applied_all(counters: Counters, updates: Seq<Update>) -> Counters
    decreases updates.len(),
{
    if updates.len() == 0 {
        counters
    } else {
        applied(applied_all(counters, updates.drop_last()), updates.last())
    }
}

/// The counters after the statement [`SQL_COUNTER_ONCE`].
pub open spec fn applied_once(counters: Counters, u: Update) -> Counters {
    if counters.dom().contains(u.counter) {
        counters
    } else {
        counters.insert(u.counter, u.value as int)
    }
}

/// The counts by target after one target was counted: one that is there is raised, another is
/// added where there is room.
pub open spec fn bumped(counts: Map<Seq<char>, int>, target: Seq<char>) -> Map<Seq<char>, int> {
    if counts.dom().contains(target) {
        counts.insert(target, counts[target] + 1)
    } else if has_room(counts.dom().len() as int) {
        counts.insert(target, 1)
    } else {
        counts
    }
}

// ── laws ───────────────────────────────────────────────────

/// Every request ended well or badly, every one that ended badly has one reason, and every
/// one that was not refused at once was for code or for a type.
pub open spec fn balanced(m: Counters) -> bool {
    &&& value(m, Counter::TotalRequests) == value(m, Counter::SuccessfulRequests) + value(
        m,
        Counter::FailedRequests,
    )
    &&& value(m, Counter::FailedRequests) == value(m, Counter::Forbidden) + value(
        m,
        Counter::Timeouts,
    ) + value(m, Counter::AnalysisErrors) + value(m, Counter::BadRequests) + value(
        m,
        Counter::InternalErrors,
    )
    &&& value(m, Counter::TotalRequests) == value(m, Counter::CodeRequests) + value(
        m,
        Counter::TypeRequests,
    ) + value(m, Counter::BadRequests)
}

proof fn lemma_recorded(m: Counters, outcome: OutcomeView, now: u64)
    ensures
        forall|c: Counter| #[trigger]
            value(applied_all(m, updates_of(outcome, now)), c) == (if c == Counter::LastRequestUnix {
                (now as i64) as int
            } else {
                value(m, c) + added(outcome, c)
            }),
{
    let us = updates_of(outcome, now);
    let n = us.len() as int;
    reveal_with_fuel(applied_all, 6);
    assert(us.drop_last() =~= us.take(n - 1));
    assert(us.take(n - 1).drop_last() =~= us.take(n - 2));
    assert(us.take(n - 2).drop_last() =~= us.take(n - 3));
    assert(us.take(n - 3).drop_last() =~= us.take(n - 4));
    if n == 5 {
        assert(us.take(1).drop_last() =~= us.take(0));
    }
    assert(applied_all(m, us.take(0)) == m);
    assert(us[0] == one_more(Counter::TotalRequests));
    assert(us[1] == (Update { counter: Counter::LastRequestUnix, value: now as i64 }));
    assert(us[2] == ending(outcome)[0]);
    assert(us[3] == ending(outcome)[1]);
    if n == 5 {
        assert(us[4] == asking(outcome)[0]);
    }
}

/// What a request adds to a counter.
pub open spec fn added(outcome: OutcomeView, counter: Counter) -> int {
    let failed = !(outcome is Success);
    match counter {
        Counter::TotalRequests => 1,
        Counter::SuccessfulRequests => if failed {
            0
        } else {
            1
        },
        Counter::FailedRequests => if failed {
            1
        } else {
            0
        },
        Counter::TotalTypesAnalyzed => match outcome {
            OutcomeView::Success { types_count, .. } => (types_count as i64) as int,
            _ => 0,
        },
        Counter::Forbidden => if outcome is Forbidden {
            1
        } else {
            0
        },
        Counter::Timeouts => if outcome is Timeout {
            1
        } else {
            0
        },
        Counter::AnalysisErrors => if outcome is AnalysisError {
            1
        } else {
            0
        },
        Counter::InternalErrors => if outcome is InternalError {
            1
        } else {
            0
        },
        Counter::BadRequests => if outcome is BadRequest {
            1
        } else {
            0
        },
        Counter::TypeRequests => if mode_of(outcome) == Some(true) {
            1
        } else {
            0
        },
        Counter::CodeRequests => if mode_of(outcome) == Some(false) {
            1
        } else {
            0
        },
        _ => 0,
    }
}

/// A request adds to every counter what [`added`] says, and sets the time of the last request.
pub proof fn law_request_counts(m: Counters, outcome: OutcomeView, now: u64, counter: Counter)
    ensures
        value(applied_all(m, updates_of(outcome, now)), counter) == (if counter
            == Counter::LastRequestUnix {
            (now as i64) as int
        } else {
            value(m, counter) + added(outcome, counter)
        }),
{
    lemma_recorded(m, outcome, now);
}

/// Requests keep the counters balanced.
pub proof fn law_requests_keep_balance(m: Counters, outcome: OutcomeView, now: u64)
    requires
        balanced(m),
    ensures
        balanced(applied_all(m, updates_of(outcome, now))),
{
    lemma_recorded(m, outcome, now);
}

/// Hits and misses of the cache and the use of short links change no counter of requests.
pub proof fn law_side_counters_are_independent(m: Counters, side: Counter, other: Counter)
    requires
        side == Counter::CacheHits || side == Counter::CacheMisses || side
            == Counter::ShortlinksCreated || side == Counter::ShortlinksLoaded,
        other != side,
    ensures
        value(applied(m, one_more(side)), side) == value(m, side) + 1,
        value(applied(m, one_more(side)), other) == value(m, other),
        balanced(m) ==> balanced(applied(m, one_more(side))),
{
    assert forall|c: Counter| c != side implies value(applied(m, one_more(side)), c) == #[trigger] value(
        m,
        c,
    ) by {}
}

/// The first start counts, later ones do not.
pub proof fn law_first_seen_is_kept(m: Counters, first: u64, later: u64)
    ensures
        ({
            let once = applied_once(
                m,
                Update { counter: Counter::FirstSeenUnix, value: first as i64 },
            );
            applied_once(once, Update { counter: Counter::FirstSeenUnix, value: later as i64 })
                == once
        }),
{
}

/// There are never more targets than the limit, none that was there is lost, and one is
/// counted that was there or found room.
pub proof fn law_targets_stay_within_limit(
    counts: Map<Seq<char>, int>,
    target: Seq<char>,
    other: Seq<char>,
)
    requires
        counts.dom().finite(),
        counts.dom().len() <= MAX_TARGETS,
    ensures
        bumped(counts, target).dom().finite(),
        bumped(counts, target).dom().len() <= MAX_TARGETS,
        counts.dom().subset_of(bumped(counts, target).dom()),
        other != target && counts.dom().contains(other) ==> bumped(counts, target)[other]
            == counts[other],
        counts.dom().contains(target) ==> bumped(counts, target)[target] == counts[target] + 1,
        !counts.dom().contains(target) && counts.dom().len() < MAX_TARGETS ==> bumped(
            counts,
            target,
        )[target] == 1,
        !counts.dom().contains(target) && counts.dom().len() == MAX_TARGETS ==> bumped(
            counts,
            target,
        ) == counts,
{
    assert(counts.insert(target, 1).dom() =~= counts.dom().insert(target));
    if counts.dom().contains(target) {
        assert(counts.insert(target, counts[target] + 1).dom() =~= counts.dom());
    }
}

/// What was written last under a key is what is shown of it.
pub proof fn law_rows_show_last_value(rows: Seq<(Seq<char>, i64)>, counter: Counter, v: i64)
    requires
        v >= 0,
    ensures
        shown(row_value(rows.push((key_of(counter), v)), key_of(counter)), counter) == Some(
            v as u64,
        ),
{
    assert(rows.push((key_of(counter), v)).last() == (key_of(counter), v));
}

// ── any number of requests ─────────────────────────────────

/// The statistics in the database: the counters, and the counts by target.
pub struct Tally {
    pub counters: Counters,
    pub targets: Map<Seq<char>, int>,
}

/// The statistics after what [`record_at`] says was written.
pub open spec fn recorded(t: Tally, outcome: OutcomeView, now: u64) -> Tally {
    Tally {
        counters: applied_all(t.counters, updates_of(outcome, now)),
        targets: match counted_target(outcome) {
            Some(target) => bumped(t.targets, target),
            None => t.targets,
        },
    }
}

/// The statistics after several requests, each with the time at which it ended.
pub open spec fn recorded_all(t: Tally, outcomes: Seq<(OutcomeView, u64)>) -> Tally
    decreases outcomes.len(),
{
    if outcomes.len() == 0 {
        t
    } else {
        recorded(
            recorded_all(t, outcomes.drop_last()),
            outcomes.last().0,
            outcomes.last().1,
        )
    }
}

/// The statistics before the first request ever.
pub open spec fn fresh(first_seen: u64) -> Tally {
    Tally {
        counters: applied_once(
            Map::empty(),
            Update { counter: Counter::FirstSeenUnix, value: first_seen as i64 },
        ),
        targets: Map::empty(),
    }
}

/// The sum of counts.
pub open spec fn total_count(counts: Map<Seq<char>, int>) -> int
    decreases counts.dom().len(),
    when counts.dom().finite()
{
    if counts.dom().len() == 0 {
        0
    } else {
        let k = counts.dom().choose();
        counts[k] + total_count(counts.remove(k))
    }
}

/// The sum can be taken apart at any key.
proof fn lemma_total_count(counts: Map<Seq<char>, int>, k: Seq<char>)
    requires
        counts.dom().finite(),
        counts.dom().contains(k),
    ensures
        total_count(counts) == counts[k] + total_count(counts.remove(k)),
    decreases counts.dom().len(),
{
    let c = counts.dom().choose();
    assert(counts.dom().len() > 0);
    assert(counts.dom().contains(c));
    if c != k {
        lemma_total_count(counts.remove(c), k);
        lemma_total_count(counts.remove(k), c);
        assert(counts.remove(c).remove(k) =~= counts.remove(k).remove(c));
    }
}

proof fn lemma_bumped_total(counts: Map<Seq<char>, int>, target: Seq<char>)
    requires
        counts.dom().finite(),
    ensures
        bumped(counts, target).dom().finite(),
        total_count(counts) <= total_count(bumped(counts, target)) <= total_count(counts) + 1,
{
    let after = bumped(counts, target);
    if counts.dom().contains(target) {
        assert(after.dom() =~= counts.dom());
        lemma_total_count(counts, target);
        lemma_total_count(after, target);
        assert(after.remove(target) =~= counts.remove(target));
    } else if has_room(counts.dom().len() as int) {
        assert(after.dom() =~= counts.dom().insert(target));
        lemma_total_count(after, target);
        assert(after.remove(target) =~= counts);
    }
}

/// The counters are balanced, there are not too many targets, and no more of them were
/// counted than requests succeeded.
pub open spec fn sound(t: Tally) -> bool {
    &&& balanced(t.counters)
    &&& t.targets.dom().finite()
    &&& t.targets.dom().len() <= MAX_TARGETS
    &&& total_count(t.targets) <= value(t.counters, Counter::SuccessfulRequests)
}

/// A request keeps the statistics sound.
pub proof fn law_request_keeps_tally_sound(t: Tally, outcome: OutcomeView, now: u64)
    requires
        sound(t),
    ensures
        sound(recorded(t, outcome, now)),
{
    law_requests_keep_balance(t.counters, outcome, now);
    law_request_counts(t.counters, outcome, now, Counter::SuccessfulRequests);
    match counted_target(outcome) {
        Some(target) => {
            law_targets_stay_within_limit(t.targets, target, target);
            lemma_bumped_total(t.targets, target);
        },
        None => {},
    }
}

/// Before the first request the statistics are sound, whenever the site was first seen, and
/// nothing is counted.
pub proof fn law_fresh_tally_is_sound(first_seen: u64)
    ensures
        sound(fresh(first_seen)),
        forall|c: Counter|
            c != Counter::FirstSeenUnix ==> #[trigger] value(fresh(first_seen).counters, c) == 0,
{
    assert(fresh(first_seen).targets.dom() =~= Set::empty());
}

/// After any requests the statistics are sound, and each of the requests is counted once.
pub proof fn law_any_requests_keep_tally_sound(first_seen: u64, outcomes: Seq<(OutcomeView, u64)>)
    ensures
        sound(recorded_all(fresh(first_seen), outcomes)),
        value(recorded_all(fresh(first_seen), outcomes).counters, Counter::TotalRequests)
            == outcomes.len(),
    decreases outcomes.len(),
{
    if outcomes.len() == 0 {
        law_fresh_tally_is_sound(first_seen);
    } else {
        let before = recorded_all(fresh(first_seen), outcomes.drop_last());
        law_any_requests_keep_tally_sound(first_seen, outcomes.drop_last());
        law_request_keeps_tally_sound(before, outcomes.last().0, outcomes.last().1);
        law_request_counts(
            before.counters,
            outcomes.last().0,
            outcomes.last().1,
            Counter::TotalRequests,
        );
    }
}

// ── what the rows say, name by name ────────────────────────

/// Row `i` is the last with this name.
pub open spec fn is_last_row(rows: Seq<(Seq<char>, i64)>, name: Seq<char>, i: int) -> bool {
    &&& 0 <= i < rows.len()
    &&& rows[i].0 == name
    &&& forall|k: int| i < k < rows.len() ==> (#[trigger] rows[k]).0 != name
}

/// The last row with this name says this, with zero for what is below; where there is none,
/// `without` is shown.
pub open spec fn says(
    rows: Seq<(Seq<char>, i64)>,
    name: Seq<char>,
    v: Option<u64>,
    without: Option<u64>,
) -> bool {
    &&& forall|i: int| #[trigger]
        is_last_row(rows, name, i) ==> v is Some && (rows[i].1 >= 0 ==> v->0 == rows[i].1) && (
        rows[i].1 < 0 ==> v->0 == 0)
    &&& (forall|i: int| 0 <= i < rows.len() ==> (#[trigger] rows[i]).0 != name) ==> v == without
}

proof fn lemma_says(rows: Seq<(Seq<char>, i64)>, name: Seq<char>)
    ensures
        says(rows, name, row_value(rows, name), None),
        row_value(rows, name) is None ==> forall|i: int|
            0 <= i < rows.len() ==> (#[trigger] rows[i]).0 != name,
    decreases rows.len(),
{
    if rows.len() > 0 {
        let t = rows.drop_last();
        let n = rows.len() - 1;
        lemma_says(t, name);
        assert(rows[n] == rows.last());
        assert forall|i: int| #[trigger] is_last_row(rows, name, i) implies row_value(rows, name)
            is Some && (rows[i].1 >= 0 ==> row_value(rows, name)->0 == rows[i].1) && (rows[i].1 < 0
            ==> row_value(rows, name)->0 == 0) by {
            if rows.last().0 == name {
                if i < n {
                    assert(rows[n].0 != name);
                }
            } else {
                assert(i < n);
                assert(t[i] == rows[i]);
                assert forall|k: int| i < k < t.len() implies (#[trigger] t[k]).0 != name by {
                    assert(t[k] == rows[k]);
                }
                assert(is_last_row(t, name, i));
            }
        }
        if forall|i: int| 0 <= i < rows.len() ==> (#[trigger] rows[i]).0 != name {
            assert forall|i: int| 0 <= i < t.len() implies (#[trigger] t[i]).0 != name by {
                assert(t[i] == rows[i]);
            }
            assert(rows[n].0 != name);
        }
        if row_value(rows, name) is None {
            assert forall|i: int| 0 <= i < rows.len() implies (#[trigger] rows[i]).0 != name by {
                if i < n {
                    assert(t[i] == rows[i]);
                }
            }
        }
    }
}

/// Whoever reads the statistics gets under each name what the last row of that name says: a count
/// without a row is zero, a time without one is unknown.
pub proof fn law_statistics_are_read_by_name(
    counters: &Vec<(String, i64)>,
    targets: &Vec<(String, i64)>,
    rows: Seq<(Seq<char>, i64)>,
    r: StatsData,
)
    requires
        rows == row_views(counters@),
        call_ensures(StatsData::from_rows, (counters, targets), r),
    ensures
        says(rows, "total_requests"@, Some(r.total_requests), Some(0)),
        says(rows, "successful_requests"@, Some(r.successful_requests), Some(0)),
        says(rows, "failed_requests"@, Some(r.failed_requests), Some(0)),
        says(rows, "code_requests"@, Some(r.code_requests), Some(0)),
        says(rows, "type_requests"@, Some(r.type_requests), Some(0)),
        says(rows, "forbidden"@, Some(r.forbidden), Some(0)),
        says(rows, "timeouts"@, Some(r.timeouts), Some(0)),
        says(rows, "analysis_errors"@, Some(r.analysis_errors), Some(0)),
        says(rows, "bad_requests"@, Some(r.bad_requests), Some(0)),
        says(rows, "internal_errors"@, Some(r.internal_errors), Some(0)),
        says(rows, "total_types_analyzed"@, Some(r.total_types_analyzed), Some(0)),
        says(rows, "cache_hits"@, Some(r.cache_hits), Some(0)),
        says(rows, "cache_misses"@, Some(r.cache_misses), Some(0)),
        says(rows, "shortlinks_created"@, Some(r.shortlinks_created), Some(0)),
        says(rows, "shortlinks_loaded"@, Some(r.shortlinks_loaded), Some(0)),
        says(rows, "first_seen_unix"@, r.first_seen_unix, None),
        says(rows, "last_request_unix"@, r.last_request_unix, None),
{
    lemma_says(rows, "total_requests"@);
    assert(field(r, Counter::TotalRequests) == shown(row_value(rows, "total_requests"@), Counter::TotalRequests));
    lemma_says(rows, "successful_requests"@);
    assert(field(r, Counter::SuccessfulRequests) == shown(row_value(rows, "successful_requests"@), Counter::SuccessfulRequests));
    lemma_says(rows, "failed_requests"@);
    assert(field(r, Counter::FailedRequests) == shown(row_value(rows, "failed_requests"@), Counter::FailedRequests));
    lemma_says(rows, "code_requests"@);
    assert(field(r, Counter::CodeRequests) == shown(row_value(rows, "code_requests"@), Counter::CodeRequests));
    lemma_says(rows, "type_requests"@);
    assert(field(r, Counter::TypeRequests) == shown(row_value(rows, "type_requests"@), Counter::TypeRequests));
    lemma_says(rows, "forbidden"@);
    assert(field(r, Counter::Forbidden) == shown(row_value(rows, "forbidden"@), Counter::Forbidden));
    lemma_says(rows, "timeouts"@);
    assert(field(r, Counter::Timeouts) == shown(row_value(rows, "timeouts"@), Counter::Timeouts));
    lemma_says(rows, "analysis_errors"@);
    assert(field(r, Counter::AnalysisErrors) == shown(row_value(rows, "analysis_errors"@), Counter::AnalysisErrors));
    lemma_says(rows, "bad_requests"@);
    assert(field(r, Counter::BadRequests) == shown(row_value(rows, "bad_requests"@), Counter::BadRequests));
    lemma_says(rows, "internal_errors"@);
    assert(field(r, Counter::InternalErrors) == shown(row_value(rows, "internal_errors"@), Counter::InternalErrors));
    lemma_says(rows, "total_types_analyzed"@);
    assert(field(r, Counter::TotalTypesAnalyzed) == shown(row_value(rows, "total_types_analyzed"@), Counter::TotalTypesAnalyzed));
    lemma_says(rows, "cache_hits"@);
    assert(field(r, Counter::CacheHits) == shown(row_value(rows, "cache_hits"@), Counter::CacheHits));
    lemma_says(rows, "cache_misses"@);
    assert(field(r, Counter::CacheMisses) == shown(row_value(rows, "cache_misses"@), Counter::CacheMisses));
    lemma_says(rows, "shortlinks_created"@);
    assert(field(r, Counter::ShortlinksCreated) == shown(row_value(rows, "shortlinks_created"@), Counter::ShortlinksCreated));
    lemma_says(rows, "shortlinks_loaded"@);
    assert(field(r, Counter::ShortlinksLoaded) == shown(row_value(rows, "shortlinks_loaded"@), Counter::ShortlinksLoaded));
    lemma_says(rows, "first_seen_unix"@);
    assert(field(r, Counter::FirstSeenUnix) == shown(row_value(rows, "first_seen_unix"@), Counter::FirstSeenUnix));
    lemma_says(rows, "last_request_unix"@);
    assert(field(r, Counter::LastRequestUnix) == shown(row_value(rows, "last_request_unix"@), Counter::LastRequestUnix));
}

proof fn lemma_target_map(rows: Seq<(Seq<char>, i64)>, name: Seq<char>)
    ensures
        target_map(rows).dom().contains(name) == (row_value(rows, name) is Some),
        row_value(rows, name) matches Some(v) ==> target_map(rows)[name] == v,
    decreases rows.len(),
{
    if rows.len() > 0 {
        lemma_target_map(rows.drop_last(), name);
    }
}

/// Whoever reads the counts by target gets for each target what its last row says, and nothing for
/// others.
pub proof fn law_targets_are_read_by_name(
    counters: &Vec<(String, i64)>,
    targets: &Vec<(String, i64)>,
    rows: Seq<(Seq<char>, i64)>,
    name: Seq<char>,
    r: StatsData,
)
    requires
        rows == row_views(targets@),
        call_ensures(StatsData::from_rows, (counters, targets), r),
    ensures
        says(
            rows,
            name,
            if r.by_target@.dom().contains(name) {
                Some(r.by_target@[name])
            } else {
                None
            },
            None,
        ),
{
    lemma_says(rows, name);
    lemma_target_map(rows, name);
}

/// Times are set, counts are added to.
pub proof fn law_times_are_set_and_counts_are_added_to(m: Counters, u: Update, v: Update)
    requires
        u.counter == v.counter,
    ensures
        u.counter is FirstSeenUnix || u.counter is LastRequestUnix ==> value(
            applied(applied(m, u), v),
            u.counter,
        ) == v.value,
        !(u.counter is FirstSeenUnix || u.counter is LastRequestUnix) ==> value(
            applied(applied(m, u), v),
            u.counter,
        ) == value(m, u.counter) + u.value + v.value,
{
}

/// There are 256 targets at most, and a name of one is plain and not longer than 96 characters.
pub proof fn law_limits_of_targets(counts: Map<Seq<char>, int>, target: Seq<char>)
    requires
        counts.dom().finite(),
    ensures
        bumped(counts, target).dom().contains(target) <==> counts.dom().contains(target)
            || counts.dom().len() < 256,
        countable(target) ==> 1 <= target.len() <= 96,
        1 <= target.len() <= 96 && (forall|i: int|
            0 <= i < target.len() ==> ('a' <= #[trigger] target[i] <= 'z' || '0' <= target[i] <= '9'
                || target[i] == '-' || target[i] == '_')) ==> countable(target),
{
}

/// Each of the four events besides requests counts one more of its own counter, and no two of them
/// one counter.
pub proof fn law_events_have_their_counters(
    stats: &Stats,
    m: Counters,
    hit: Update,
    miss: Update,
    created: Update,
    loaded: Update,
)
    requires
        call_ensures(Stats::record_cache_hit, (stats,), hit),
        call_ensures(Stats::record_cache_miss, (stats,), miss),
        call_ensures(Stats::record_shortlink_created, (stats,), created),
        call_ensures(Stats::record_shortlink_loaded, (stats,), loaded),
    ensures
        value(applied(m, hit), Counter::CacheHits) == value(m, Counter::CacheHits) + 1,
        value(applied(m, miss), Counter::CacheMisses) == value(m, Counter::CacheMisses) + 1,
        value(applied(m, created), Counter::ShortlinksCreated) == value(
            m,
            Counter::ShortlinksCreated,
        ) + 1,
        value(applied(m, loaded), Counter::ShortlinksLoaded) == value(m, Counter::ShortlinksLoaded)
            + 1,
        hit.counter != miss.counter && created.counter != loaded.counter && hit.counter
            != created.counter && miss.counter != loaded.counter,
{
}

/// Whoever records a request writes what it adds to every counter, sets the time of the last
/// request, and counts its target where it succeeded for one that is fit.
pub proof fn law_record_at(
    outcome: Outcome<'_>,
    now: u64,
    r: Recorded,
    m: Counters,
    counter: Counter,
)
    requires
        call_ensures(record_at, (outcome, now), r),
    ensures
        value(applied_all(m, r.updates@), counter) == (if counter == Counter::LastRequestUnix {
            (now as i64) as int
        } else {
            value(m, counter) + added(outcome@, counter)
        }),
        r.bump_target matches Some(t) ==> {
            &&& outcome@ matches OutcomeView::Success { target, .. } && target == Some(t@)
            &&& 1 <= t@.len() <= 96
        },
        outcome@ matches OutcomeView::Success { target: Some(t), .. } ==> countable(t)
            ==> r.bump_target is Some,
{
    lemma_recorded(m, outcome@, now);
}

/// A snapshot shows the sizes and the times that it is given, each in its place.
pub proof fn law_snapshots_show_what_they_are_given(
    stats: &Stats,
    counters: &Vec<(String, i64)>,
    targets: &Vec<(String, i64)>,
    cache_size: usize,
    cache_capacity: usize,
    snippets_total: usize,
    now: u64,
    r: StatsSnapshot,
    started: (Stats, Update),
    first: u64,
)
    requires
        call_ensures(
            Stats::snapshot_at,
            (stats, counters, targets, cache_size, cache_capacity, snippets_total, now),
            r,
        ),
        call_ensures(Stats::new_at, (first,), started),
        *stats == started.0,
    ensures
        r.cache_size == cache_size,
        r.cache_capacity == cache_capacity,
        r.snippets_total == snippets_total,
        r.now_unix == now,
        r.session_started_unix == first,
        started.1.counter == Counter::FirstSeenUnix && started.1.value == first as i64,
{
}

/// A target is counted under its own name or not at all, and only one of the allowed characters.
pub proof fn law_sanitize_target(t: &str, r: Option<String>)
    requires
        call_ensures(sanitize_target, (t,), r),
    ensures
        r matches Some(s) ==> s@ == t@,
        t@.len() == 0 || t@.len() > 96 ==> r is None,
        r is Some ==> forall|i: int|
            0 <= i < t@.len() ==> ('a' <= #[trigger] t@[i] <= 'z' || 'A' <= t@[i] <= 'Z' || '0'
                <= t@[i] <= '9' || t@[i] == '-' || t@[i] == '_' || t@[i] == '.'),
        1 <= t@.len() <= 96 && (forall|i: int|
            0 <= i < t@.len() ==> ('a' <= #[trigger] t@[i] <= 'z' || 'A' <= t@[i] <= 'Z' || '0'
                <= t@[i] <= '9' || t@[i] == '-' || t@[i] == '_' || t@[i] == '.')) ==> r is Some,
{
}

/// A target that has a row is counted in it; one that has none gets a row while there are fewer than
/// 256, and is left out else.
pub proof fn law_targets_get_rows(updated: usize, total: i64, a: BumpStep, b: BumpStep)
    requires
        call_ensures(bump_after_update, (updated,), a),
        call_ensures(bump_after_count, (total,), b),
    ensures
        updated > 0 <==> a == BumpStep::Done,
        updated == 0 <==> a == BumpStep::CountTargets,
        0 <= total < 256 <==> b == BumpStep::Add,
        total >= 256 ==> b == BumpStep::Done,
{
}

} // verus!
