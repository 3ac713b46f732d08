//! The cache of analyses: its keys, and what is asked of the database for it.
use vstd::prelude::*;
use vstd::set_lib::lemma_subset_equality;
use vstd::utf8::encode_utf8;

use crate::db::{clock_may_show, row_count, unix_now};
use crate::hash::{
    content_hash, hash_of, law_hashes_tell_digests_apart, law_messages_tell_inputs_apart, message,
    sha256,
};
use crate::text::str_opt_view;

verus! {

// ── keys ───────────────────────────────────────────────────

/// The key of an analysis.
pub struct CacheKey {
    pub hash: String,
}

impl Clone for CacheKey {
    fn clone(&self) -> (r: Self)
        ensures
            r.hash@ == self.hash@,
    {
        CacheKey { hash: self.hash.clone() }
    }
}

/// The target, empty where there is none.
pub open spec fn target_or_empty(target: Option<Seq<char>>) -> Seq<char> {
    match target {
        Some(t) => t,
        None => Seq::empty(),
    }
}

impl CacheKey {
    /// The key of the analysis of an input for a target.
    pub fn new(is_type_expr: bool, input: &str, target: Option<&str>) -> (r: Self)
        ensures
            r.hash@ == hash_of(is_type_expr, input@, target_or_empty(str_opt_view(target))),
            r.hash@.len() == 52,
    {
        let none = String::new();
        let target = match target {
            Some(t) => t,
            None => none.as_str(),
        };
        CacheKey { hash: content_hash(is_type_expr, input, target) }
    }
}

// ── what is asked of the database ──────────────────────────

/// One statement to the database, with its parameters in order.
pub enum CacheOp {
    /// Marks the row as used and returns its value.
    Touch { key: String, last_used: i64 },
    /// Stores a value, in place of one that was there.
    Store { key: String, types_json: Vec<u8>, last_used: i64 },
    /// Drops all but the rows used last.
    Trim { keep: i64 },
}

/// What a [`CacheOp`] asks.
pub enum CacheOpView {
    Touch { key: Seq<char>, last_used: i64 },
    Store { key: Seq<char>, types_json: Seq<u8>, last_used: i64 },
    Trim { keep: i64 },
}

impl View for CacheOp {
    type V = CacheOpView;

    open spec fn view(&self) -> CacheOpView {
        match self {
            CacheOp::Touch { key, last_used } => CacheOpView::Touch {
                key: key@,
                last_used: *last_used,
            },
            CacheOp::Store { key, types_json, last_used } => CacheOpView::Store {
                key: key@,
                types_json: types_json@,
                last_used: *last_used,
            },
            CacheOp::Trim { keep } => CacheOpView::Trim { keep: *keep },
        }
    }
}

/// Marks a row as used and returns its value.
pub const SQL_CACHE_TOUCH: &'static str = "UPDATE cache SET last_used = ?2 WHERE key_hash = ?1 RETURNING types_json";

/// Stores a value.
pub const SQL_CACHE_STORE: &'static str = "INSERT INTO cache (key_hash, types_json, last_used) VALUES (?1, ?2, ?3) ON CONFLICT(key_hash) DO UPDATE SET types_json = excluded.types_json, last_used = excluded.last_used";

/// Drops all but the rows used last.
pub const SQL_CACHE_TRIM: &'static str = "DELETE FROM cache WHERE key_hash IN (SELECT key_hash FROM cache ORDER BY last_used DESC LIMIT -1 OFFSET ?1)";

/// Counts the rows.
pub const SQL_CACHE_LEN: &'static str = "SELECT COUNT(*) FROM cache";

impl CacheOp {
    /// The statement's text.
    pub fn sql(&self) -> (r: &'static str)
        ensures
            r@ == (match self@ {
                CacheOpView::Touch { .. } => SQL_CACHE_TOUCH@,
                CacheOpView::Store { .. } => SQL_CACHE_STORE@,
                CacheOpView::Trim { .. } => SQL_CACHE_TRIM@,
            }),
    {
        match self {
            CacheOp::Touch { .. } => SQL_CACHE_TOUCH,
            CacheOp::Store { .. } => SQL_CACHE_STORE,
            CacheOp::Trim { .. } => SQL_CACHE_TRIM,
        }
    }
}

/// Asking for the value of a key at a given time.
pub open spec fn touching(key: Seq<char>, now: u64) -> CacheOpView {
    CacheOpView::Touch { key, last_used: now as i64 }
}

/// Storing a value at a given time.
pub open spec fn storing(key: Seq<char>, types_json: Seq<u8>, now: u64) -> CacheOpView {
    CacheOpView::Store { key, types_json, last_used: now as i64 }
}

/// The cache of analyses.  It keeps so many as its capacity says, those used last.
pub struct AnalysisCache {
    pub capacity: usize,
}

impl AnalysisCache {
    /// A cache of the given capacity.
    pub fn new(capacity: usize) -> (r: Self)
        requires
            capacity > 0,
        ensures
            r.capacity == capacity,
    {
        AnalysisCache { capacity }
    }

    /// Asks for an analysis at a given time.
    pub fn get_at(&self, key: &CacheKey, now: u64) -> (r: CacheOp)
        ensures
            r@ == touching(key.hash@, now),
    {
        CacheOp::Touch { key: key.hash.clone(), last_used: now as i64 }
    }

    /// Asks for an analysis.
    pub fn get(&self, key: &CacheKey) -> (r: CacheOp)
        ensures
            exists|now: u64| clock_may_show(now) && r@ == #[trigger] touching(key.hash@, now),
    {
        self.get_at(key, unix_now())
    }

    /// Stores an analysis at a given time, and drops what is over capacity.
    pub fn put_at(&self, key: CacheKey, types_json: Vec<u8>, now: u64) -> (r: (CacheOp, CacheOp))
        ensures
            r.0@ == storing(key.hash@, types_json@, now),
            r.1@ == (CacheOpView::Trim { keep: self.capacity as i64 }),
    {
        (
            CacheOp::Store { key: key.hash, types_json, last_used: now as i64 },
            CacheOp::Trim { keep: self.capacity as i64 },
        )
    }

    /// Stores an analysis, and drops what is over capacity.
    pub fn put(&self, key: CacheKey, types_json: Vec<u8>) -> (r: (CacheOp, CacheOp))
        ensures
            exists|now: u64|
                clock_may_show(now) && r.0@ == #[trigger] storing(key.hash@, types_json@, now),
            r.1@ == (CacheOpView::Trim { keep: self.capacity as i64 }),
    {
        let now = unix_now();
        self.put_at(key, types_json, now)
    }

    /// How many analyses there are, given what their count showed.
    pub fn len(&self, shown: Option<i64>) -> (r: usize)
        ensures
            match shown {
                Some(n) => r == n as usize && (0 <= n <= usize::MAX ==> r == n),
                None => r == 0,
            },
    {
        row_count(shown)
    }
}

// ── what the database does with it ─────────────────────────

/// A row: the value, and when it was used.
pub struct CacheRow {
    pub types_json: Seq<u8>,
    pub last_used: i64,
}

/// The rows by their keys.
pub type CacheTable = Map<Seq<char>, CacheRow>;

/// The rows after one was marked as used, if it is there.
pub open spec fn touched(before: CacheTable, key: Seq<char>, last_used: i64) -> CacheTable {
    if before.dom().contains(key) {
        before.insert(key, CacheRow { types_json: before[key].types_json, last_used })
    } else {
        before
    }
}

/// The rows that a statement may leave.  Trimming drops the rows used longest ago; among
/// rows used at one time any may go.
pub open spec fn leaves(before: CacheTable, op: CacheOpView, after: CacheTable) -> bool {
    match op {
        CacheOpView::Touch { key, last_used } => after == touched(before, key, last_used),
        CacheOpView::Store { key, types_json, last_used } => after == before.insert(
            key,
            CacheRow { types_json, last_used },
        ),
        CacheOpView::Trim { keep } => {
            let room: int = if keep > 0 {
                keep as int
            } else {
                0
            };
            &&& after.submap_of(before)
            &&& after.dom().finite()
            &&& after.dom().len() == (if before.dom().len() <= room {
                before.dom().len() as int
            } else {
                room
            })
            &&& forall|kept: Seq<char>, gone: Seq<char>|
                #![trigger after.dom().contains(kept), before.dom().contains(gone)]
                after.dom().contains(kept) && before.dom().contains(gone)
                    && !after.dom().contains(gone) ==> before[kept].last_used
                    >= before[gone].last_used
        },
    }
}

/// The value that a [`CacheOpView::Touch`] of `key` returns.
pub open spec fn fetched(table: CacheTable, key: Seq<char>) -> Option<Seq<u8>> {
    if table.dom().contains(key) {
        Some(table[key].types_json)
    } else {
        None
    }
}

/// The rows that storing a value and trimming may leave.
pub open spec fn stored(
    before: CacheTable,
    key: Seq<char>,
    types_json: Seq<u8>,
    now: i64,
    keep: i64,
    after: CacheTable,
) -> bool {
    exists|between: CacheTable| #[trigger]
        leaves(before, CacheOpView::Store { key, types_json, last_used: now }, between) && leaves(
            between,
            CacheOpView::Trim { keep },
            after,
        )
}

// ── laws ───────────────────────────────────────────────────

/// The cache never holds more than its capacity.
pub proof fn law_cache_stays_within_capacity(
    before: CacheTable,
    key: Seq<char>,
    types_json: Seq<u8>,
    now: i64,
    keep: i64,
    after: CacheTable,
)
    requires
        keep > 0,
        stored(before, key, types_json, now, keep, after),
    ensures
        after.dom().finite(),
        after.dom().len() <= keep,
{
}

/// What was put is got back, where there is room for it or where it is the newest.
pub proof fn law_cache_put_then_get(
    before: CacheTable,
    key: Seq<char>,
    types_json: Seq<u8>,
    now: i64,
    keep: i64,
    after: CacheTable,
)
    requires
        before.dom().finite(),
        keep > 0,
        stored(before, key, types_json, now, keep, after),
        before.dom().insert(key).len() <= keep || forall|k: Seq<char>| #[trigger]
            before.dom().contains(k) && k != key ==> before[k].last_used < now,
    ensures
        fetched(after, key) == Some(types_json),
{
    let between = before.insert(key, CacheRow { types_json, last_used: now });
    assert(between.dom() =~= before.dom().insert(key));
    assert(leaves(between, CacheOpView::Trim { keep }, after));
    if between.dom().len() <= keep {
        lemma_subset_equality(after.dom(), between.dom());
    } else if !after.dom().contains(key) {
        assert(after.dom().len() > 0);
        let kept = after.dom().choose();
        assert(after.dom().contains(kept));
        assert(between.dom().contains(kept));
        assert(between.dom().contains(key));
        assert(before.dom().contains(kept) && kept != key);
        assert(between[kept].last_used >= between[key].last_used);
    }
    assert(after.dom().contains(key));
    assert(between.dom().contains(key));
    assert(after[key] == between[key]);
}

/// Room is made by dropping rows used longest ago, and no row changes its value.
pub proof fn law_cache_drops_the_oldest(
    before: CacheTable,
    key: Seq<char>,
    types_json: Seq<u8>,
    now: i64,
    keep: i64,
    after: CacheTable,
    kept: Seq<char>,
    gone: Seq<char>,
)
    requires
        keep > 0,
        stored(before, key, types_json, now, keep, after),
        kept != key,
        gone != key,
        after.dom().contains(kept),
        before.dom().contains(gone),
        !after.dom().contains(gone),
    ensures
        before.dom().contains(kept),
        fetched(after, kept) == fetched(before, kept),
        before[kept].last_used >= before[gone].last_used,
{
    let between = before.insert(key, CacheRow { types_json, last_used: now });
    assert(leaves(between, CacheOpView::Trim { keep }, after));
    assert(between.dom().contains(gone));
    assert(between.dom().contains(kept));
}

/// Getting changes no value, adds no row and drops none.
pub proof fn law_cache_get_keeps_values(
    before: CacheTable,
    key: Seq<char>,
    now: i64,
    k: Seq<char>,
    after: CacheTable,
)
    requires
        leaves(before, CacheOpView::Touch { key, last_used: now }, after),
    ensures
        fetched(after, k) == fetched(before, k),
        after.dom() == before.dom(),
{
    assert(after.dom() =~= before.dom());
}

/// The row is the one used last.
pub open spec fn is_newest(table: CacheTable, key: Seq<char>) -> bool {
    &&& table.dom().contains(key)
    &&& forall|k: Seq<char>| #[trigger]
        table.dom().contains(k) ==> table[k].last_used <= table[key].last_used
}

/// A get of what is there makes it the row used last, if the clock did not go back; a get of
/// what is not there changes nothing.
pub proof fn law_cache_get_makes_newest(
    before: CacheTable,
    key: Seq<char>,
    now: i64,
    after: CacheTable,
)
    requires
        leaves(before, CacheOpView::Touch { key, last_used: now }, after),
    ensures
        before.dom().contains(key) ==> after[key].last_used == now,
        before.dom().contains(key) && (forall|k: Seq<char>| #[trigger]
            before.dom().contains(k) ==> before[k].last_used <= now) ==> is_newest(after, key),
        !before.dom().contains(key) ==> fetched(before, key) is None && after == before,
{
    if before.dom().contains(key) && forall|k: Seq<char>| #[trigger]
        before.dom().contains(k) ==> before[k].last_used <= now {
        assert forall|k: Seq<char>| #[trigger] after.dom().contains(k) implies after[k].last_used
            <= after[key].last_used by {
            assert(before.dom().contains(k));
        }
    }
}

/// The rows before, between and after statements.
pub open spec fn is_trace(tables: Seq<CacheTable>, ops: Seq<CacheOpView>) -> bool {
    &&& tables.len() == ops.len() + 1
    &&& forall|i: int|
        0 <= i < ops.len() ==> leaves(tables[i], #[trigger] ops[i], tables[i + 1])
}

/// The statement stores a value under the key.
pub open spec fn stores(op: CacheOpView, key: Seq<char>) -> bool {
    match op {
        CacheOpView::Store { key: k, .. } => k == key,
        _ => false,
    }
}

proof fn lemma_value_stays(before: CacheTable, op: CacheOpView, after: CacheTable, key: Seq<char>)
    requires
        leaves(before, op, after),
        !stores(op, key),
    ensures
        after.dom().contains(key) ==> fetched(after, key) == fetched(before, key),
        fetched(before, key) is None ==> fetched(after, key) is None,
{
    if op is Trim && after.dom().contains(key) {
        assert(before.dom().contains(key));
    }
}

/// A value is got until it is evicted or replaced, whatever else is got, put or dropped.  What
/// was never put is never got.
pub proof fn law_cache_keeps_values_until_evicted(
    tables: Seq<CacheTable>,
    ops: Seq<CacheOpView>,
    key: Seq<char>,
)
    requires
        is_trace(tables, ops),
        forall|i: int| 0 <= i < ops.len() ==> !stores(#[trigger] ops[i], key),
    ensures
        (forall|i: int| 0 <= i < tables.len() ==> (#[trigger] tables[i]).dom().contains(key))
            ==> fetched(tables.last(), key) == fetched(tables[0], key),
        fetched(tables[0], key) is None ==> fetched(tables.last(), key) is None,
    decreases ops.len(),
{
    if ops.len() > 0 {
        let n = ops.len() - 1;
        let ts = tables.drop_last();
        let os = ops.drop_last();
        assert forall|i: int| 0 <= i < os.len() implies leaves(ts[i], #[trigger] os[i], ts[i + 1]) by {
            assert(os[i] == ops[i]);
        }
        assert forall|i: int| 0 <= i < os.len() implies !stores(#[trigger] os[i], key) by {
            assert(os[i] == ops[i]);
        }
        law_cache_keeps_values_until_evicted(ts, os, key);
        assert(leaves(tables[n], ops[n], tables[n + 1]));
        lemma_value_stays(tables[n], ops[n], tables[n + 1], key);
        if forall|i: int| 0 <= i < tables.len() ==> (#[trigger] tables[i]).dom().contains(key) {
            assert forall|i: int| 0 <= i < ts.len() implies (#[trigger] ts[i]).dom().contains(key) by {
                assert(ts[i] == tables[i]);
            }
            assert(tables[n + 1].dom().contains(key));
        }
    }
}

/// What was put last under a key is got, unless it was evicted at once.
pub proof fn law_cache_gets_the_last_put(
    before: CacheTable,
    key: Seq<char>,
    types_json: Seq<u8>,
    now: i64,
    keep: i64,
    after: CacheTable,
)
    requires
        stored(before, key, types_json, now, keep, after),
    ensures
        after.dom().contains(key) ==> fetched(after, key) == Some(types_json),
{
    let between = before.insert(key, CacheRow { types_json, last_used: now });
    assert(leaves(between, CacheOpView::Trim { keep }, after));
    if after.dom().contains(key) {
        assert(between.dom().contains(key));
        assert(after[key] == between[key]);
    }
}

/// A key without a target is that of the empty target, and keys are told apart by kind, input
/// and target as far as digests are: what is digested differs wherever one of the three does.
/// Targets whose lengths differ by a multiple of four gigabytes are left out.
pub proof fn law_keys_tell_inputs_apart(
    type1: bool,
    input1: Seq<char>,
    target1: Option<Seq<char>>,
    type2: bool,
    input2: Seq<char>,
    target2: Option<Seq<char>>,
)
    requires
        encode_utf8(target_or_empty(target1)).len() == encode_utf8(target_or_empty(target2)).len()
            || encode_utf8(target_or_empty(target1)).len() % 4294967296 != encode_utf8(
            target_or_empty(target2),
        ).len() % 4294967296,
    ensures
        target_or_empty(None) == target_or_empty(Some(""@)),
        (type1, input1, target_or_empty(target1)) != (type2, input2, target_or_empty(target2))
            ==> message(type1, input1, target_or_empty(target1)) != message(
            type2,
            input2,
            target_or_empty(target2),
        ),
        hash_of(type1, input1, target_or_empty(target1)) == hash_of(
            type2,
            input2,
            target_or_empty(target2),
        ) <==> sha256(message(type1, input1, target_or_empty(target1))) == sha256(
            message(type2, input2, target_or_empty(target2)),
        ),
{
    let t1 = target_or_empty(target1);
    let t2 = target_or_empty(target2);
    reveal_strlit("");
    assert(""@ =~= Seq::<char>::empty());
    if message(type1, input1, t1) == message(type2, input2, t2) {
        law_messages_tell_inputs_apart(type1, input1, t1, type2, input2, t2);
    }
    law_hashes_tell_digests_apart(type1, input1, t1, type2, input2, t2);
}

// ── what callers get ───────────────────────────────────────

/// Whoever puts an analysis and gets it again gets what was put, where there is room for it or it is
/// the newest.  Never are there more analyses than the capacity says, and as many as there are room
/// for are kept.
pub proof fn law_put_and_get(
    cache: &AnalysisCache,
    key: CacheKey,
    types_json: Vec<u8>,
    now: u64,
    put: (CacheOp, CacheOp),
    again: &CacheKey,
    later: u64,
    get: CacheOp,
    before: CacheTable,
    between: CacheTable,
    after: CacheTable,
)
    requires
        0 < cache.capacity <= i64::MAX,
        before.dom().finite(),
        call_ensures(AnalysisCache::put_at, (cache, key, types_json, now), put),
        call_ensures(AnalysisCache::get_at, (cache, again, later), get),
        again.hash@ == key.hash@,
        leaves(before, put.0@, between),
        leaves(between, put.1@, after),
    ensures
        after.dom().len() <= cache.capacity,
        before.dom().insert(key.hash@).len() <= cache.capacity ==> after == between,
        match get@ {
            CacheOpView::Touch { key: k, .. } => {
                let newest = forall|o: Seq<char>| #[trigger]
                    before.dom().contains(o) && o != key.hash@ ==> before[o].last_used < now as i64;
                before.dom().insert(key.hash@).len() <= cache.capacity || newest ==> fetched(
                    after,
                    k,
                ) == Some(types_json@)
            },
            _ => false,
        },
{
    let keep = cache.capacity as i64;
    assert(stored(before, key.hash@, types_json@, now as i64, keep, after));
    law_cache_stays_within_capacity(before, key.hash@, types_json@, now as i64, keep, after);
    let newest = forall|o: Seq<char>| #[trigger]
        before.dom().contains(o) && o != key.hash@ ==> before[o].last_used < now as i64;
    if before.dom().insert(key.hash@).len() <= cache.capacity || newest {
        law_cache_put_then_get(before, key.hash@, types_json@, now as i64, keep, after);
    }
    if before.dom().insert(key.hash@).len() <= cache.capacity {
        assert(between.dom() =~= before.dom().insert(key.hash@));
        lemma_subset_equality(after.dom(), between.dom());
        assert forall|k: Seq<char>| after.dom().contains(k) implies after[k] == between[k] by {
            assert(between.dom().contains(k));
        }
        assert(after =~= between);
    }
}

/// Two puts or gets at different times are told apart by their times, so that the later one is the
/// one used last.
pub proof fn law_uses_are_told_by_their_times(
    cache: &AnalysisCache,
    key: &CacheKey,
    early: u64,
    late: u64,
    a: CacheOp,
    b: CacheOp,
)
    requires
        early < late <= i64::MAX,
        call_ensures(AnalysisCache::get_at, (cache, key, early), a),
        call_ensures(AnalysisCache::get_at, (cache, key, late), b),
    ensures
        match (a@, b@) {
            (
                CacheOpView::Touch { key: k, last_used: t },
                CacheOpView::Touch { key: l, last_used: u },
            ) => k == key.hash@ && l == key.hash@ && t < u,
            _ => false,
        },
{
}

} // verus!
