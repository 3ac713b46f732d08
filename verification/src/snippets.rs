//! Shortened snippets: their ids, and what is asked of the database for them.
use vstd::prelude::*;
use vstd::slice::slice_subrange;

use crate::db::{clock_may_show, row_count, unix_now};
use crate::hash::{content_hash, hash_of, ALPHABET};
use crate::text::{chars_of, same_str, string_of};

verus! {

/// The length of the shortest id.
pub const ID_MIN_LEN: usize = 8;

/// The length of the longest id, that of a hash.
pub const ID_MAX_LEN: usize = 52;

/// A stored snippet.
#[derive(Clone, Debug, PartialEq, Eq)]
pub struct Snippet {
    pub id: String,
    pub is_type_expr: bool,
    pub content: String,
    pub target: String,
}

impl View for Snippet {
    type V = Submitted;

    open spec fn view(&self) -> Submitted {
        Submitted {
            is_type_expr: self.is_type_expr,
            content: self.content@,
            target: self.target@,
        }
    }
}

// ── ids ────────────────────────────────────────────────────

/// The character may stand in an id.
pub open spec fn id_char(c: char) -> bool {
    'a' <= c <= 'z' || '2' <= c <= '7'
}

/// The text may be an id.
pub open spec fn valid_id(id: Seq<char>) -> bool {
    0 < id.len() <= ID_MAX_LEN && forall|i: int| 0 <= i < id.len() ==> id_char(#[trigger] id[i])
}

/// Tells whether a text may be an id.
pub fn is_valid_id(id: &str) -> (r: bool)
    ensures
        r == valid_id(id@),
{
    let chars = chars_of(id);
    if chars.len() == 0 || chars.len() > ID_MAX_LEN {
        return false;
    }
    for i in 0..chars.len()
        invariant
            chars@ == id@,
            forall|j: int| 0 <= j < i ==> id_char(#[trigger] id@[j]),
    {
        let c = chars[i];
        if !(('a' <= c && c <= 'z') || ('2' <= c && c <= '7')) {
            assert(!id_char(id@[i as int]));
            return false;
        }
    }
    true
}

// ── statements ─────────────────────────────────────────────

/// Looks up an id.
pub const SQL_SNIPPET_FIND: &'static str = "SELECT is_type, content, target FROM snippets WHERE id = ?1";

/// Adds a row.
pub const SQL_SNIPPET_ADD: &'static str = "INSERT INTO snippets (id, is_type, content, target, created_at) VALUES (?1, ?2, ?3, ?4, ?5)";

/// Counts the rows.
pub const SQL_SNIPPETS_LEN: &'static str = "SELECT COUNT(*) FROM snippets";

/// What was submitted.
pub struct Submitted {
    pub is_type_expr: bool,
    pub content: Seq<char>,
    pub target: Seq<char>,
}

/// A row that was found under an id.
pub struct FoundRow {
    pub is_type: i64,
    pub content: String,
    pub target: String,
}

impl View for FoundRow {
    type V = Submitted;

    open spec fn view(&self) -> Submitted {
        Submitted {
            is_type_expr: self.is_type != 0,
            content: self.content@,
            target: self.target@,
        }
    }
}

/// A row to be added.
pub struct NewRow {
    pub id: String,
    pub is_type: i64,
    pub content: String,
    pub target: String,
    pub created_at: i64,
}

impl View for NewRow {
    type V = Submitted;

    open spec fn view(&self) -> Submitted {
        Submitted {
            is_type_expr: self.is_type != 0,
            content: self.content@,
            target: self.target@,
        }
    }
}

/// A snippet on its way into the database: ever longer prefixes of its hash are tried as its
/// id.
pub struct Putting {
    hash: String,
    is_type_expr: bool,
    content: String,
    target: String,
    len: usize,
}

/// What a [`Putting`] is.
pub struct PuttingView {
    pub hash: Seq<char>,
    pub mine: Submitted,
    pub len: nat,
}

impl View for Putting {
    type V = PuttingView;

    closed spec fn view(&self) -> PuttingView {
        PuttingView {
            hash: self.hash@,
            mine: Submitted {
                is_type_expr: self.is_type_expr,
                content: self.content@,
                target: self.target@,
            },
            len: self.len as nat,
        }
    }
}

/// What comes after an id was looked up.
pub enum PutStep {
    /// The snippet is stored under this id.
    Stored(String),
    /// Another snippet is stored under the id: the next one is to be looked up.
    Taken(Putting),
    /// The id is free: the row is to be added, and the snippet is stored under it.
    Free(NewRow),
}

/// What a [`PutStep`] says.
pub enum PutStepView {
    Stored(Seq<char>),
    Taken(PuttingView),
    Free(Seq<char>, Submitted),
}

impl View for PutStep {
    type V = PutStepView;

    open spec fn view(&self) -> PutStepView {
        match self {
            PutStep::Stored(id) => PutStepView::Stored(id@),
            PutStep::Taken(p) => PutStepView::Taken(p@),
            PutStep::Free(row) => PutStepView::Free(row.id@, row@),
        }
    }
}

/// The start: the shortest prefix is tried first.
pub open spec fn started(mine: Submitted) -> PuttingView {
    PuttingView {
        hash: hash_of(mine.is_type_expr, mine.content, mine.target),
        mine,
        len: ID_MIN_LEN as nat,
    }
}

/// The id that is tried; none where the whole hash was tried.
pub open spec fn tried(p: PuttingView) -> Option<Seq<char>> {
    if p.len <= p.hash.len() {
        Some(p.hash.take(p.len as int))
    } else {
        None
    }
}

/// What comes after the id that is tried was looked up.
pub open spec fn stepped(p: PuttingView, found: Option<Submitted>) -> PutStepView {
    let id = p.hash.take(p.len as int);
    match found {
        Some(row) => if row == p.mine {
            PutStepView::Stored(id)
        } else {
            PutStepView::Taken(PuttingView { len: p.len + 1, ..p })
        },
        None => PutStepView::Free(id, p.mine),
    }
}

/// What the database said of an id.
pub open spec fn found_view(found: Option<FoundRow>) -> Option<Submitted> {
    match found {
        Some(row) => Some(row@),
        None => None,
    }
}

impl Putting {
    #[verifier::type_invariant]
    spec fn well_formed(self) -> bool {
        &&& self.hash@.len() == ID_MAX_LEN
        &&& forall|i: int| 0 <= i < self.hash@.len() ==> ALPHABET@.contains(#[trigger] self.hash@[i])
        &&& ID_MIN_LEN <= self.len <= ID_MAX_LEN + 1
    }

    /// Starts with the shortest prefix.
    fn new(is_type_expr: bool, content: &str, target: &str) -> (r: Self)
        ensures
            r@ == started(Submitted { is_type_expr, content: content@, target: target@ }),
            r@.hash.len() == ID_MAX_LEN,
    {
        Putting {
            hash: content_hash(is_type_expr, content, target),
            is_type_expr,
            content: content.to_owned(),
            target: target.to_owned(),
            len: ID_MIN_LEN,
        }
    }

    fn prefix(&self) -> (r: String)
        requires
            self@.len <= self@.hash.len(),
        ensures
            r@ == self@.hash.take(self@.len as int),
    {
        let chars = chars_of(self.hash.as_str());
        assert(chars@.subrange(0, self.len as int) =~= chars@.take(self.len as int));
        string_of(slice_subrange(&chars, 0, self.len))
    }

    /// The id to be looked up, a valid one; none where every id is taken.
    pub fn id(&self) -> (r: Option<String>)
        ensures
            match r {
                Some(id) => tried(self@) == Some(id@) && valid_id(id@),
                None => tried(self@) is None,
            },
    {
        proof {
            use_type_invariant(self);
        }
        if self.len > ID_MAX_LEN {
            None
        } else {
            proof {
                law_prefixes_are_valid_ids(self.hash@, self.len as int);
            }
            Some(self.prefix())
        }
    }

    /// What comes after the id was looked up.  A row is added with the given time.
    pub fn answer_at(self, found: Option<FoundRow>, now: u64) -> (r: PutStep)
        requires
            tried(self@) is Some,
        ensures
            r@ == stepped(self@, found_view(found)),
            match r {
                PutStep::Free(row) => row.created_at == now as i64 && (row.is_type == 0
                    || row.is_type == 1),
                _ => true,
            },
    {
        proof {
            use_type_invariant(&self);
        }
        let id = self.prefix();
        match found {
            Some(row) => {
                if (row.is_type != 0) == self.is_type_expr && same_str(
                    row.content.as_str(),
                    self.content.as_str(),
                ) && same_str(row.target.as_str(), self.target.as_str()) {
                    PutStep::Stored(id)
                } else {
                    let len: usize = self.len + 1;
                    PutStep::Taken(
                        Putting {
                            hash: self.hash,
                            is_type_expr: self.is_type_expr,
                            content: self.content,
                            target: self.target,
                            len,
                        },
                    )
                }
            },
            None => {
                let is_type: i64 = if self.is_type_expr {
                    1
                } else {
                    0
                };
                PutStep::Free(
                    NewRow {
                        id,
                        is_type,
                        content: self.content,
                        target: self.target,
                        created_at: now as i64,
                    },
                )
            },
        }
    }

    /// What comes after the id was looked up.
    pub fn answer(self, found: Option<FoundRow>) -> (r: PutStep)
        requires
            tried(self@) is Some,
        ensures
            r@ == stepped(self@, found_view(found)),
            r matches PutStep::Free(row) ==> (row.is_type == 0 || row.is_type == 1) && exists|
                now: u64,
            | #[trigger]
                clock_may_show(now) && row.created_at == now as i64,
    {
        let now = unix_now();
        self.answer_at(found, now)
    }
}

/// The stored snippets.
pub struct SnippetStore {}

impl SnippetStore {
    /// Starts to store a snippet.
    pub fn put(&self, is_type_expr: bool, content: &str, target: &str) -> (r: Putting)
        ensures
            r@ == started(Submitted { is_type_expr, content: content@, target: target@ }),
            r@.hash.len() == ID_MAX_LEN,
    {
        Putting::new(is_type_expr, content, target)
    }

    /// The snippet that was found under an id.
    pub fn get(&self, id: &str, found: Option<FoundRow>) -> (r: Option<Snippet>)
        ensures
            match (r, found) {
                (Some(s), Some(row)) => s.id@ == id@ && s.is_type_expr == (row.is_type != 0)
                    && s.content@ == row.content@ && s.target@ == row.target@,
                (None, None) => true,
                _ => false,
            },
    {
        match found {
            Some(row) => Some(
                Snippet {
                    id: id.to_owned(),
                    is_type_expr: row.is_type != 0,
                    content: row.content,
                    target: row.target,
                },
            ),
            None => None,
        }
    }

    /// How many snippets there are, given what their count showed.
    pub fn len(&self, shown: Option<i64>) -> (r: usize)
        ensures
            match shown {
                Some(n) => r == n as usize && (0 <= n <= usize::MAX ==> r == n),
                None => r == 0,
            },
    {
        row_count(shown)
    }
}

// ── what the database does with it ─────────────────────────

/// The snippets by their ids.
pub type SnippetTable = Map<Seq<char>, Submitted>;

/// What is found under an id.
pub open spec fn lookup(table: SnippetTable, id: Seq<char>) -> Option<Submitted> {
    if table.dom().contains(id) {
        Some(table[id])
    } else {
        None
    }
}

/// The id under which a snippet comes to be stored, and the snippets there are then.
pub open spec fn put_from(table: SnippetTable, p: PuttingView) -> (Option<Seq<char>>, SnippetTable)
    decreases p.hash.len() + 1 - p.len,
{
    match tried(p) {
        None => (None, table),
        Some(id) => match stepped(p, lookup(table, id)) {
            PutStepView::Stored(id) => (Some(id), table),
            PutStepView::Free(id, mine) => (Some(id), table.insert(id, mine)),
            PutStepView::Taken(_) => put_from(table, PuttingView { len: p.len + 1, ..p }),
        },
    }
}

/// Storing a snippet from the start.
pub open spec fn put(table: SnippetTable, mine: Submitted) -> (Option<Seq<char>>, SnippetTable) {
    put_from(table, started(mine))
}

/// The snippets after several were stored, one after the other.
pub open spec fn put_all(table: SnippetTable, snippets: Seq<Submitted>) -> SnippetTable
    decreases snippets.len(),
{
    if snippets.len() == 0 {
        table
    } else {
        put(put_all(table, snippets.drop_last()), snippets.last()).1
    }
}

// ── laws ───────────────────────────────────────────────────

proof fn lemma_put_from(table: SnippetTable, p: PuttingView)
    ensures
        match put_from(table, p).0 {
            Some(id) => {
                &&& p.len <= id.len() <= p.hash.len()
                &&& id == p.hash.take(id.len() as int)
                &&& lookup(put_from(table, p).1, id) == Some(p.mine)
                &&& put_from(put_from(table, p).1, p) == (Some(id), put_from(table, p).1)
                &&& put_from(table, p).1 == table.insert(id, p.mine)
            },
            None => {
                &&& put_from(table, p).1 == table
                &&& forall|n: int|
                    p.len <= n <= p.hash.len() ==> #[trigger] table.dom().contains(p.hash.take(n))
            },
        },
        forall|k: Seq<char>| #[trigger]
            table.dom().contains(k) ==> lookup(put_from(table, p).1, k) == lookup(table, k),
    decreases p.hash.len() + 1 - p.len,
{
    if let Some(id) = tried(p) {
        match stepped(p, lookup(table, id)) {
            PutStepView::Stored(_) => {
                assert(table.insert(id, p.mine) =~= table);
            },
            PutStepView::Free(_, _) => {},
            PutStepView::Taken(_) => {
                let next = PuttingView { len: p.len + 1, ..p };
                lemma_put_from(table, next);
                let after = put_from(table, next).1;
                assert(lookup(after, id) == lookup(table, id));
            },
        }
    }
}

/// A snippet that was stored is found again under its id.
pub proof fn law_put_then_get(table: SnippetTable, mine: Submitted)
    ensures
        match put(table, mine) {
            (Some(id), after) => lookup(after, id) == Some(mine),
            (None, after) => after == table,
        },
{
    lemma_put_from(table, started(mine));
}

/// Storing a snippet again gives the id that it has, and changes nothing.
pub proof fn law_put_is_idempotent(table: SnippetTable, mine: Submitted)
    ensures
        put(put(table, mine).1, mine) == put(table, mine),
{
    lemma_put_from(table, started(mine));
}

/// What was tried once comes to the same later, where nothing was dropped or changed since.
proof fn lemma_put_later(table: SnippetTable, later: SnippetTable, p: PuttingView)
    requires
        forall|k: Seq<char>| #[trigger]
            put_from(table, p).1.dom().contains(k) ==> lookup(later, k) == lookup(
                put_from(table, p).1,
                k,
            ),
    ensures
        put_from(later, p) == (put_from(table, p).0, later),
    decreases p.hash.len() + 1 - p.len,
{
    lemma_put_from(table, p);
    if let Some(id) = tried(p) {
        match stepped(p, lookup(table, id)) {
            PutStepView::Taken(_) => {
                let next = PuttingView { len: p.len + 1, ..p };
                assert(put_from(table, p) == put_from(table, next));
                assert(lookup(put_from(table, p).1, id) == lookup(table, id));
                assert(put_from(table, p).1.dom().contains(id));
                lemma_put_later(table, later, next);
            },
            _ => {
                assert(put_from(table, p).1.dom().contains(id));
            },
        }
    }
}

proof fn lemma_put_all_keeps(table: SnippetTable, snippets: Seq<Submitted>)
    ensures
        forall|k: Seq<char>| #[trigger]
            table.dom().contains(k) ==> lookup(put_all(table, snippets), k) == lookup(table, k),
    decreases snippets.len(),
{
    if snippets.len() > 0 {
        let before = put_all(table, snippets.drop_last());
        lemma_put_all_keeps(table, snippets.drop_last());
        lemma_put_from(before, started(snippets.last()));
        assert forall|k: Seq<char>| #[trigger] table.dom().contains(k) implies lookup(
            put_all(table, snippets),
            k,
        ) == lookup(table, k) by {
            assert(lookup(before, k) == lookup(table, k));
            assert(before.dom().contains(k));
        }
    }
}

/// However many others were stored since, a snippet is found under its id, and storing it again
/// gives the id that it has and changes nothing.  One that got no id gets none later.
pub proof fn law_ids_are_kept(table: SnippetTable, mine: Submitted, others: Seq<Submitted>)
    ensures
        ({
            let id = put(table, mine).0;
            let later = put_all(put(table, mine).1, others);
            &&& id is Some ==> lookup(later, id->0) == Some(mine)
            &&& put(later, mine) == (id, later)
        }),
{
    lemma_put_from(table, started(mine));
    lemma_put_all_keeps(put(table, mine).1, others);
    lemma_put_later(table, put_all(put(table, mine).1, others), started(mine));
}

/// Storing a snippet changes no other.
pub proof fn law_put_keeps_others(table: SnippetTable, mine: Submitted, id: Seq<char>)
    requires
        table.dom().contains(id),
    ensures
        lookup(put(table, mine).1, id) == lookup(table, id),
{
    lemma_put_from(table, started(mine));
}

/// Two different snippets never get one id, however many were stored between them.
pub proof fn law_different_snippets_get_different_ids(
    table: SnippetTable,
    a: Submitted,
    others: Seq<Submitted>,
    b: Submitted,
)
    requires
        a != b,
    ensures
        match (put(table, a).0, put(put_all(put(table, a).1, others), b).0) {
            (Some(id_a), Some(id_b)) => id_a != id_b,
            _ => true,
        },
{
    let later = put_all(put(table, a).1, others);
    law_ids_are_kept(table, a, others);
    lemma_put_from(later, started(b));
    match put(table, a).0 {
        Some(id_a) => assert(later.dom().contains(id_a)),
        None => {},
    }
}

/// An id is a prefix of the hash, not shorter than the shortest id.  It is longer where that
/// prefix is taken by another snippet, and only where every prefix is taken there is none.
pub proof fn law_id_is_prefix(table: SnippetTable, mine: Submitted)
    ensures
        match put(table, mine).0 {
            Some(id) => {
                let hash = started(mine).hash;
                let shortest = hash.take(ID_MIN_LEN as int);
                &&& ID_MIN_LEN <= id.len() <= hash.len()
                &&& id == hash.take(id.len() as int)
                &&& (table.dom().contains(shortest) && table[shortest] != mine ==> id.len()
                    > ID_MIN_LEN)
            },
            None => forall|n: int|
                ID_MIN_LEN <= n <= started(mine).hash.len() ==> #[trigger] table.dom().contains(
                    started(mine).hash.take(n),
                ),
        },
{
    let p = started(mine);
    lemma_put_from(table, p);
    lemma_put_from(table, PuttingView { len: p.len + 1, ..p });
}

/// Every prefix of a hash that is as long as an id may be is a valid id.
pub proof fn law_prefixes_are_valid_ids(hash: Seq<char>, n: int)
    requires
        hash.len() == ID_MAX_LEN,
        forall|i: int| 0 <= i < hash.len() ==> ALPHABET@.contains(#[trigger] hash[i]),
        0 < n <= ID_MAX_LEN,
    ensures
        valid_id(hash.take(n)),
{
    reveal_strlit("abcdefghijklmnopqrstuvwxyz234567");
    assert forall|i: int| 0 <= i < n implies id_char(#[trigger] hash.take(n)[i]) by {
        assert(hash.take(n)[i] == hash[i]);
        let k = ALPHABET@.index_of(hash[i]);
        assert(ALPHABET@[k] == hash[i]);
    }
}

/// The first id that is tried has eight letters of the hash, the next one more, and the last all 52;
/// behind it none is tried.
pub proof fn law_ids_grow_letter_by_letter(p: PuttingView, other: Submitted)
    requires
        p.hash.len() == 52,
        other != p.mine,
    ensures
        tried(PuttingView { len: 8, ..p }) == Some(p.hash.take(8)),
        started(p.mine).len == 8,
        p.len <= 52 ==> match stepped(p, Some(other)) {
            PutStepView::Taken(next) => next == (PuttingView { len: p.len + 1, ..p }),
            _ => false,
        },
        p.len > 52 ==> tried(p) is None,
        stepped(p, Some(p.mine)) == PutStepView::Stored(p.hash.take(p.len as int)),
        stepped(p, None) == PutStepView::Free(p.hash.take(p.len as int), p.mine),
{
}

/// A snippet that is loaded under an id has this id and what the row says, and there is none where
/// there is no row.
pub proof fn law_rows_are_loaded(
    store: &SnippetStore,
    id: &str,
    found: Option<FoundRow>,
    r: Option<Snippet>,
)
    requires
        call_ensures(SnippetStore::get, (store, id, found), r),
    ensures
        r is Some <==> found is Some,
        r matches Some(s) ==> {
            &&& s.id@ == id@
            &&& s.content@ == found->0.content@
            &&& s.target@ == found->0.target@
            &&& s.is_type_expr <==> found->0.is_type != 0
        },
{
}

/// A row that is added holds the snippet under the id that was free, with one for a type and zero for
/// code, and the time: read again it is the snippet.
pub proof fn law_rows_hold_the_snippet(p: Putting, now: u64, r: PutStep)
    requires
        tried(p@) is Some,
        call_ensures(Putting::answer_at, (p, None::<FoundRow>, now), r),
    ensures
        match r {
            PutStep::Free(row) => {
                &&& Some(row.id@) == tried(p@)
                &&& row.content@ == p@.mine.content
                &&& row.target@ == p@.mine.target
                &&& row.is_type == (if p@.mine.is_type_expr {
                    1int
                } else {
                    0
                })
                &&& row.created_at == now as i64
            },
            _ => false,
        },
{
    assert(found_view(None::<FoundRow>) is None);
    match r {
        PutStep::Free(row) => assert(row@ == p@.mine),
        _ => {},
    }
}

/// Whoever asks whether a text is an id is told so of one to 52 letters and digits of the alphabet,
/// and of nothing else.
pub proof fn law_is_valid_id(id: &str, r: bool)
    requires
        call_ensures(is_valid_id, (id,), r),
    ensures
        id@.len() == 0 ==> !r,
        id@.len() > 52 ==> !r,
        r ==> forall|i: int|
            0 <= i < id@.len() ==> 'a' <= #[trigger] id@[i] <= 'z' || '2' <= id@[i] <= '7',
        1 <= id@.len() <= 52 && (forall|i: int|
            0 <= i < id@.len() ==> 'a' <= #[trigger] id@[i] <= 'z' || '2' <= id@[i] <= '7') ==> r,
{
}

} // verus!
