//! The site over many requests: what is looked up and kept, and what the counters and the cache
//! come to.
use vstd::prelude::*;

use crate::analysis::{
    begun, failed, from_cache, rejection, text_to_store, AnalyzeResponse, BegunView, Question,
    QuestionView, RequestView,
};
use crate::cache::{fetched, leaves, stored, touched, CacheKey, CacheOpView, CacheRow, CacheTable};
use crate::hash::hash_of;
use crate::input::target_of;
use crate::layout::TypeLayout;
use crate::stats::{
    applied, fresh, law_fresh_tally_is_sound, law_request_counts, law_request_keeps_tally_sound,
    law_side_counters_are_independent, one_more, recorded, sound, value, Counter, Outcome, OutcomeView, Stats, Tally, Update,
};
use crate::status::{Failure, FailureView, Status};

verus! {

// ── the cache on the way of a request ──────────────────────

/// What a lookup in the cache counts.
pub open spec fn lookup_counts(found: bool) -> Update {
    one_more(
        if found {
            Counter::CacheHits
        } else {
            Counter::CacheMisses
        },
    )
}

/// What a success counts as.
pub open spec fn succeeded(q: QuestionView, types_count: u64) -> OutcomeView {
    OutcomeView::Success { types_count, target: Some(q.target), is_type_expr: q.is_type_expr }
}

/// Says what a lookup in the cache counts and, where an analysis was found, what is answered;
/// elsewhere the question is to be analyzed.
pub fn looked_up(stats: &Stats, q: &Question, cached: Option<Vec<TypeLayout>>) -> (r: (
    Update,
    Option<(AnalyzeResponse, Outcome<'static>)>,
))
    ensures
        r.0 == lookup_counts(cached is Some),
        match (cached, r.1) {
            (Some(types), Some((response, outcome))) => response == (AnalyzeResponse {
                types,
                cached: true,
            }) && outcome@ == succeeded(q@, types@.len() as u64),
            (None, None) => true,
            _ => false,
        },
{
    match cached {
        Some(types) => (stats.record_cache_hit(), Some(from_cache(q, types))),
        None => (stats.record_cache_miss(), None),
    }
}

/// Where an answer is to be kept: under the key of its question if it has layouts, else nowhere.
pub fn kept(q: &Question, answer: &Result<AnalyzeResponse, Failure>) -> (r: Option<CacheKey>)
    ensures
        match (answer, r) {
            (Ok(_), Some(key)) => key.hash@ == q.key.hash@,
            (Err(_), None) => true,
            _ => false,
        },
{
    match answer {
        Ok(_) => Some(q.key.clone()),
        Err(_) => None,
    }
}

// ── requests, one after the other ──────────────────────────

/// What an analysis comes to, where one is run.
pub enum Ran {
    /// Layouts, as they are kept.
    Layouts { types_count: u64, types_json: Seq<u8> },
    Failed(Status),
}

/// A request, with what happens to it from outside.
pub struct Visit {
    /// What it comes to.
    pub begun: BegunView,
    /// The key of its question, if it asks one.
    pub key: Seq<char>,
    /// How many layouts the row of its key holds, where there is one and it can be read.
    pub read: Option<u64>,
    /// What an analysis of its question comes to.
    pub ran: Ran,
    /// When the cache was asked, when the end was recorded, and when the layouts were kept.
    pub asked_at: u64,
    pub ended_at: u64,
    pub kept_at: u64,
}

/// The statistics and the cache.
pub struct SiteState {
    pub tally: Tally,
    pub cache: CacheTable,
}

/// The row of a question in the cache.
pub open spec fn row_of(q: QuestionView) -> Seq<char> {
    hash_of(q.is_type_expr, q.input, q.target)
}

/// The visit is one with this request.
pub open spec fn is_visit_with(v: Visit, req: RequestView) -> bool {
    &&& v.begun == begun(req, rejection(req))
    &&& match v.begun {
        BegunView::Asked(q) => v.key == row_of(q),
        BegunView::Refused(_, _) => true,
    }
}

/// How a visit is answered.
pub enum Answer {
    Refused(FailureView),
    /// With what the cache holds.  Nothing is analyzed.
    FromCache(Seq<u8>),
    /// With what an analysis found.
    Fresh(Seq<u8>),
    Failed(Status),
}

/// How a visit is answered in a state of the site.
pub open spec fn answered(site: SiteState, v: Visit) -> Answer {
    match v.begun {
        BegunView::Refused(failure, _) => Answer::Refused(failure),
        BegunView::Asked(_) => match (fetched(site.cache, v.key), v.read, v.ran) {
            (Some(types_json), Some(_), _) => Answer::FromCache(types_json),
            (_, _, Ran::Layouts { types_json, .. }) => Answer::Fresh(types_json),
            (_, _, Ran::Failed(status)) => Answer::Failed(status),
        },
    }
}

/// The answer has these layouts, whether they were analyzed for it or kept.
pub open spec fn answers_with(answer: Answer, types_json: Seq<u8>) -> bool {
    answer == Answer::Fresh(types_json) || answer == Answer::FromCache(types_json)
}

/// What a visit that is answered so counts as.
pub open spec fn ended(v: Visit, answer: Answer) -> OutcomeView {
    match (v.begun, answer, v.read, v.ran) {
        (BegunView::Refused(_, outcome), _, _, _) => outcome,
        (BegunView::Asked(q), Answer::FromCache(_), Some(n), _) => succeeded(q, n),
        (BegunView::Asked(q), _, _, Ran::Layouts { types_count, .. }) => succeeded(q, types_count),
        (BegunView::Asked(q), _, _, Ran::Failed(status)) => failed(status, q.is_type_expr),
    }
}

/// The statistics after the lookup in the cache, where there is one.
pub open spec fn lookup_counted(t: Tally, v: Visit, answer: Answer) -> Tally {
    match v.begun {
        BegunView::Refused(_, _) => t,
        BegunView::Asked(_) => Tally {
            counters: applied(t.counters, lookup_counts(answer is FromCache)),
            targets: t.targets,
        },
    }
}

/// The rows of the cache after the lookup, where there is one.
pub open spec fn lookup_touched(cache: CacheTable, v: Visit) -> CacheTable {
    match v.begun {
        BegunView::Refused(_, _) => cache,
        BegunView::Asked(_) => touched(cache, v.key, v.asked_at as i64),
    }
}

/// A visit may leave the site in this state.  The cache keeps so many rows as `keep` says.
pub open spec fn handled(before: SiteState, v: Visit, keep: i64, after: SiteState) -> bool {
    let answer = answered(before, v);
    let looked = lookup_touched(before.cache, v);
    &&& after.tally == recorded(
        lookup_counted(before.tally, v, answer),
        ended(v, answer),
        v.ended_at,
    )
    &&& match answer {
        Answer::Fresh(types_json) => stored(
            looked,
            v.key,
            types_json,
            v.kept_at as i64,
            keep,
            after.cache,
        ),
        _ => after.cache == looked,
    }
}

/// The states before, between and after visits.
pub open spec fn is_run(states: Seq<SiteState>, visits: Seq<Visit>, keep: i64) -> bool {
    &&& states.len() == visits.len() + 1
    &&& forall|i: int|
        0 <= i < visits.len() ==> handled(states[i], #[trigger] visits[i], keep, states[i + 1])
}

/// How many of the visits ask a question.
pub open spec fn asking_visits(visits: Seq<Visit>) -> int
    decreases visits.len(),
{
    if visits.len() == 0 {
        0
    } else {
        asking_visits(visits.drop_last()) + (if visits.last().begun is Asked {
            1int
        } else {
            0
        })
    }
}

/// How many lookups in the cache were counted.
pub open spec fn lookups(t: Tally) -> int {
    value(t.counters, Counter::CacheHits) + value(t.counters, Counter::CacheMisses)
}

// ── laws ───────────────────────────────────────────────────

/// A request asks a question if and only if its target is allowed, its texts are not rejected
/// and there is one of them.
pub proof fn law_answerable_requests_ask(req: RequestView, rejected: Option<Seq<char>>)
    ensures
        begun(req, rejected) is Asked <==> target_of(req.target) is Some && rejected is None && (
        req.code is Some || req.type_expr is Some),
{
}

proof fn lemma_visit_counts(before: SiteState, v: Visit, keep: i64, after: SiteState)
    requires
        handled(before, v, keep, after),
    ensures
        value(after.tally.counters, Counter::TotalRequests) == value(
            before.tally.counters,
            Counter::TotalRequests,
        ) + 1,
        lookups(after.tally) == lookups(before.tally) + (if v.begun is Asked {
            1int
        } else {
            0
        }),
        sound(before.tally) ==> sound(after.tally),
{
    let answer = answered(before, v);
    let t = before.tally;
    let mid = lookup_counted(t, v, answer);
    let outcome = ended(v, answer);
    law_request_counts(mid.counters, outcome, v.ended_at, Counter::TotalRequests);
    law_request_counts(mid.counters, outcome, v.ended_at, Counter::CacheHits);
    law_request_counts(mid.counters, outcome, v.ended_at, Counter::CacheMisses);
    let side = lookup_counts(answer is FromCache).counter;
    let other = if side == Counter::CacheHits {
        Counter::CacheMisses
    } else {
        Counter::CacheHits
    };
    law_side_counters_are_independent(t.counters, side, other);
    law_side_counters_are_independent(t.counters, side, Counter::TotalRequests);
    law_side_counters_are_independent(t.counters, side, Counter::SuccessfulRequests);
    if sound(t) {
        law_request_keeps_tally_sound(mid, outcome, v.ended_at);
    }
}

/// Every visit is counted as one request, and every one that asks a question as one hit or one
/// miss of the cache.  The statistics stay sound.  From fresh statistics on, the counters show
/// just these visits.
pub proof fn law_visits_are_counted(states: Seq<SiteState>, visits: Seq<Visit>, keep: i64)
    requires
        is_run(states, visits, keep),
    ensures
        value(states.last().tally.counters, Counter::TotalRequests) == value(
            states[0].tally.counters,
            Counter::TotalRequests,
        ) + visits.len(),
        lookups(states.last().tally) == lookups(states[0].tally) + asking_visits(visits),
        sound(states[0].tally) ==> sound(states.last().tally),
        forall|first_seen: u64|
            states[0].tally == #[trigger] fresh(first_seen) ==> value(
                states.last().tally.counters,
                Counter::TotalRequests,
            ) == visits.len() && lookups(states.last().tally) == asking_visits(visits),
    decreases visits.len(),
{
    assert forall|first_seen: u64| states[0].tally == #[trigger] fresh(first_seen) implies value(
        states[0].tally.counters,
        Counter::TotalRequests,
    ) == 0 && lookups(states[0].tally) == 0 by {
        law_fresh_tally_is_sound(first_seen);
    }
    if visits.len() > 0 {
        let n = visits.len() - 1;
        let ss = states.drop_last();
        let vs = visits.drop_last();
        assert forall|i: int| 0 <= i < vs.len() implies handled(
            ss[i],
            #[trigger] vs[i],
            keep,
            ss[i + 1],
        ) by {
            assert(vs[i] == visits[i]);
        }
        law_visits_are_counted(ss, vs, keep);
        assert(handled(states[n], visits[n], keep, states[n + 1]));
        lemma_visit_counts(states[n], visits[n], keep, states[n + 1]);
    }
}

/// A visit counts as a hit if and only if it is answered from the cache.
pub proof fn law_hits_are_answered_from_the_cache(
    before: SiteState,
    v: Visit,
    keep: i64,
    after: SiteState,
)
    requires
        handled(before, v, keep, after),
    ensures
        value(after.tally.counters, Counter::CacheHits) == value(
            before.tally.counters,
            Counter::CacheHits,
        ) + (if answered(before, v) is FromCache {
            1int
        } else {
            0
        }),
{
    let answer = answered(before, v);
    let mid = lookup_counted(before.tally, v, answer);
    law_request_counts(mid.counters, ended(v, answer), v.ended_at, Counter::CacheHits);
}

/// A visit that is refused leaves the cache as it is.  One that fails leaves every value of the
/// cache as it is, and the whole cache where its key has no row.
pub proof fn law_failures_are_not_kept(before: SiteState, v: Visit, keep: i64, after: SiteState)
    requires
        handled(before, v, keep, after),
        answered(before, v) is Refused || answered(before, v) is Failed,
    ensures
        answered(before, v) is Refused ==> after.cache == before.cache,
        fetched(before.cache, v.key) is None ==> after.cache == before.cache,
        forall|k: Seq<char>| #[trigger] fetched(after.cache, k) == fetched(before.cache, k),
{
}

/// A visit that stores nothing under a key leaves the value there, as long as the row is there.
proof fn lemma_visit_keeps_value(
    before: SiteState,
    v: Visit,
    keep: i64,
    after: SiteState,
    key: Seq<char>,
)
    requires
        handled(before, v, keep, after),
        v.key == key ==> answered(before, v) !is Fresh,
        after.cache.dom().contains(key),
    ensures
        fetched(after.cache, key) == fetched(before.cache, key),
{
    match answered(before, v) {
        Answer::Fresh(types_json) => {
            let looked = lookup_touched(before.cache, v);
            let last_used = v.kept_at as i64;
            let between = looked.insert(v.key, CacheRow { types_json, last_used });
            assert(leaves(between, CacheOpView::Trim { keep }, after.cache));
            assert(between.dom().contains(key));
            assert(after.cache[key] == between[key]);
        },
        _ => {},
    }
}

proof fn lemma_value_is_kept(
    states: Seq<SiteState>,
    visits: Seq<Visit>,
    keep: i64,
    i: int,
    j: int,
    types_json: Seq<u8>,
)
    requires
        is_run(states, visits, keep),
        0 <= i < j <= visits.len(),
        answers_with(answered(states[i], visits[i]), types_json),
        forall|m: int|
            i < m <= j ==> (#[trigger] states[m]).cache.dom().contains(visits[i].key),
        forall|m: int|
            i < m < j && (#[trigger] visits[m]).begun is Asked && visits[m].key == visits[i].key
                ==> visits[m].read is Some,
    ensures
        fetched(states[j].cache, visits[i].key) == Some(types_json),
    decreases j,
{
    let key = visits[i].key;
    if j == i + 1 {
        assert(handled(states[i], visits[i], keep, states[i + 1]));
        let after = states[j].cache;
        assert(after.dom().contains(key));
        if answered(states[i], visits[i]) is Fresh {
            let looked = lookup_touched(states[i].cache, visits[i]);
            let last_used = visits[i].kept_at as i64;
            let between = looked.insert(key, CacheRow { types_json, last_used });
            assert(leaves(between, CacheOpView::Trim { keep }, after));
            assert(between.dom().contains(key));
            assert(after[key] == between[key]);
        } else {
            lemma_visit_keeps_value(states[i], visits[i], keep, states[j], key);
        }
    } else {
        lemma_value_is_kept(states, visits, keep, i, j - 1, types_json);
        let v = visits[j - 1];
        assert(handled(states[j - 1], v, keep, states[j - 1 + 1]));
        assert(states[j].cache.dom().contains(key));
        lemma_visit_keeps_value(states[j - 1], v, keep, states[j], key);
    }
}

/// Requests for one text of one kind and one target ask one question, and have one row in the
/// cache.
pub proof fn law_equal_requests_share_a_row(a: RequestView, b: RequestView)
    requires
        text_to_store(a) == text_to_store(b),
        a.type_expr is Some == b.type_expr is Some,
        target_of(a.target) == target_of(b.target),
    ensures
        match (begun(a, rejection(a)), begun(b, rejection(b))) {
            (BegunView::Asked(p), BegunView::Asked(q)) => p == q && row_of(p) == row_of(q),
            _ => true,
        },
{
}

/// What a request was answered with, analyzed for it or kept, a later, equal one is answered with
/// too, and nothing is analyzed again, as long as the row is not dropped and can be read.
pub proof fn law_equal_requests_are_answered_from_the_cache(
    states: Seq<SiteState>,
    visits: Seq<Visit>,
    keep: i64,
    i: int,
    j: int,
    a: RequestView,
    b: RequestView,
    types_json: Seq<u8>,
)
    requires
        is_run(states, visits, keep),
        0 <= i < j < visits.len(),
        text_to_store(a) == text_to_store(b),
        a.type_expr is Some == b.type_expr is Some,
        target_of(a.target) == target_of(b.target),
        answers_with(answered(states[i], visits[i]), types_json),
        visits[j].begun is Asked,
        forall|m: int|
            i < m <= j ==> (#[trigger] states[m]).cache.dom().contains(visits[i].key),
        forall|m: int|
            i < m <= j && (#[trigger] visits[m]).begun is Asked && visits[m].key == visits[i].key
                ==> visits[m].read is Some,
    ensures
        is_visit_with(visits[i], a) && is_visit_with(visits[j], b) ==> answered(
            states[j],
            visits[j],
        ) == Answer::FromCache(types_json),
{
    if is_visit_with(visits[i], a) && is_visit_with(visits[j], b) {
        law_equal_requests_share_a_row(a, b);
        assert(visits[j].key == visits[i].key);
        lemma_value_is_kept(states, visits, keep, i, j, types_json);
    }
}

/// A lookup that found an analysis is answered with it, as one that was kept, and counts as a hit and
/// a success; any other counts as a miss and is not answered.
pub proof fn law_lookups_are_answered(
    stats: &Stats,
    q: &Question,
    cached: Option<Vec<TypeLayout>>,
    r: (Update, Option<(AnalyzeResponse, Outcome<'static>)>),
)
    requires
        call_ensures(looked_up, (stats, q, cached), r),
    ensures
        r.0.value == 1,
        r.0.counter == Counter::CacheHits <==> cached is Some,
        r.0.counter == Counter::CacheMisses <==> cached is None,
        r.1 is Some <==> cached is Some,
        r.1 matches Some((answer, outcome)) ==> {
            &&& answer.cached
            &&& answer.types == cached->0
            &&& outcome@ matches OutcomeView::Success { types_count, target, is_type_expr }
                && types_count == cached->0@.len() && target == Some(q.target@) && is_type_expr
                == q.is_type_expr
        },
{
    match cached {
        Some(types) => assert(types.len() == types@.len()),
        None => {},
    }
}

/// An analysis is kept under the key of its question if it has layouts, and not at all if it failed.
pub proof fn law_only_findings_are_kept(
    q: &Question,
    answer: &Result<AnalyzeResponse, Failure>,
    r: Option<CacheKey>,
)
    requires
        call_ensures(kept, (q, answer), r),
    ensures
        r is Some <==> answer is Ok,
        r matches Some(key) ==> key.hash@ == q.key.hash@,
{
}

} // verus!
