//! What the site does with its requests: analyzing, shortening, and loading again.
use vstd::prelude::*;

use crate::cache::CacheKey;
use crate::guard::{judged, lexed, reject_forbidden_macros};
use crate::hash::{hash_of, law_letters_are_of_the_alphabet, message, sha256};
use crate::input::{
    law_normalizing_is_idempotent, law_target_is_settled, lemma_allowed_is_trimmed,
    normalize_content, normalize_target, normalized, target_of,
};
use crate::layout::TypeLayout;
use crate::runner::{clean_rustc_error, cleaned, Job};
use crate::snippets::{
    is_valid_id, law_id_is_prefix, law_ids_are_kept, law_prefixes_are_valid_ids, law_put_then_get,
    lookup, put, put_all, started, valid_id, Snippet, SnippetTable, Submitted, ID_MAX_LEN,
};
use crate::source::{count_inner_attr_lines, inner_attrs};
use crate::stats::{
    applied, counted_target, one_more, target_char, value, Counter, Counters, Outcome, OutcomeView,
    Stats, Update,
};
use crate::status::{Failure, FailureView, Status};
use crate::text::{opt_view, str_opt_view};

verus! {

// ── requests ───────────────────────────────────────────────

/// A request for an analysis.
pub struct AnalyzeRequest {
    pub code: Option<String>,
    pub type_expr: Option<String>,
    pub target: Option<String>,
}

/// What a request brings.
pub struct RequestView {
    pub code: Option<Seq<char>>,
    pub type_expr: Option<Seq<char>>,
    pub target: Option<Seq<char>>,
}

impl View for AnalyzeRequest {
    type V = RequestView;

    open spec fn view(&self) -> RequestView {
        RequestView {
            code: opt_view(self.code),
            type_expr: opt_view(self.type_expr),
            target: opt_view(self.target),
        }
    }
}

/// A request to store a snippet.
pub struct ShortenRequest {
    pub code: Option<String>,
    pub type_expr: Option<String>,
    pub target: Option<String>,
}

impl View for ShortenRequest {
    type V = RequestView;

    open spec fn view(&self) -> RequestView {
        RequestView {
            code: opt_view(self.code),
            type_expr: opt_view(self.type_expr),
            target: opt_view(self.target),
        }
    }
}

/// Optional content in its normal form.
pub open spec fn opt_normalized(s: Option<Seq<char>>) -> Option<Seq<char>> {
    match s {
        Some(s) => Some(normalized(s)),
        None => None,
    }
}

fn normalize_opt(s: &Option<String>) -> (r: Option<String>)
    ensures
        opt_view(r) == opt_normalized(opt_view(*s)),
{
    match s {
        Some(s) => Some(normalize_content(s.as_str())),
        None => None,
    }
}

fn as_str_opt<'a>(s: &'a Option<String>) -> (r: Option<&'a str>)
    ensures
        str_opt_view(r) == opt_view(*s),
{
    match s {
        Some(s) => Some(s.as_str()),
        None => None,
    }
}

// ── analyzing: what is asked ───────────────────────────────

/// What is to be analyzed.
pub struct Question {
    pub is_type_expr: bool,
    pub input: String,
    pub target: &'static str,
    /// Where the analysis is kept.
    pub key: CacheKey,
    /// How many lines of the input stay above the preamble.
    pub inner_attr_lines: usize,
}

/// What a [`Question`] asks.
pub struct QuestionView {
    pub is_type_expr: bool,
    pub input: Seq<char>,
    pub target: Seq<char>,
}

impl View for Question {
    type V = QuestionView;

    open spec fn view(&self) -> QuestionView {
        QuestionView {
            is_type_expr: self.is_type_expr,
            input: self.input@,
            target: self.target@,
        }
    }
}

/// The key and the count of a question are those of its input.
pub open spec fn consistent(q: Question) -> bool {
    &&& q.key.hash@ == hash_of(q.is_type_expr, q.input@, q.target@)
    &&& q.inner_attr_lines == (if q.is_type_expr {
        0
    } else {
        inner_attrs(q.input@).len()
    })
}

impl Question {
    /// The question as a job.
    pub fn job<'a>(&'a self) -> (r: Job<'a>)
        ensures
            match r {
                Job::TypeExpr(s) => self.is_type_expr && s@ == self.input@,
                Job::Snippet(s) => !self.is_type_expr && s@ == self.input@,
            },
    {
        if self.is_type_expr {
            Job::TypeExpr(self.input.as_str())
        } else {
            Job::Snippet(self.input.as_str())
        }
    }
}

/// What a request for an analysis comes to.
pub enum Begun {
    /// It is refused.
    Refused(Failure, Outcome<'static>),
    /// It is to be answered.
    Asked(Question),
}

/// What a [`Begun`] says.
pub enum BegunView {
    Refused(FailureView, OutcomeView),
    Asked(QuestionView),
}

impl View for Begun {
    type V = BegunView;

    open spec fn view(&self) -> BegunView {
        match self {
            Begun::Refused(failure, outcome) => BegunView::Refused(failure@, outcome@),
            Begun::Asked(q) => BegunView::Asked(q@),
        }
    }
}

/// What is said of two texts, the first one that is rejected first.
pub open spec fn first_rejection(
    a: Option<Result<(), Seq<char>>>,
    b: Option<Result<(), Seq<char>>>,
) -> Option<Seq<char>> {
    match (a, b) {
        (Some(Err(e)), _) => Some(e),
        (_, Some(Err(e))) => Some(e),
        _ => None,
    }
}

/// What is said of a text that is there.
pub open spec fn opt_judged(s: Option<Seq<char>>) -> Option<Result<(), Seq<char>>> {
    match s {
        Some(s) => Some(judged(lexed(s))),
        None => None,
    }
}

/// What texts in their normal form and a settled target come to, given why the texts are
/// rejected, if they are.  The target is looked at first.  Where there is a type, the request
/// is for it, whether or not there is code too.
pub open spec fn begun_from(
    target: Option<Seq<char>>,
    code: Option<Seq<char>>,
    type_expr: Option<Seq<char>>,
    rejected: Option<Seq<char>>,
) -> BegunView {
    let is_type_expr = type_expr is Some;
    match (target, rejected, type_expr, code) {
        (None, _, _, _) => BegunView::Refused(
            FailureView { status: Status::UnprocessableEntity, error: "invalid target"@ },
            OutcomeView::BadRequest,
        ),
        (Some(_), Some(e), _, _) => BegunView::Refused(
            FailureView { status: Status::Forbidden, error: e },
            OutcomeView::Forbidden { is_type_expr },
        ),
        (Some(target), None, Some(input), _) => BegunView::Asked(
            QuestionView { is_type_expr, input, target },
        ),
        (Some(target), None, None, Some(input)) => BegunView::Asked(
            QuestionView { is_type_expr, input, target },
        ),
        (Some(_), None, None, None) => BegunView::Refused(
            FailureView {
                status: Status::UnprocessableEntity,
                error: "request must include `code` or `type`"@,
            },
            OutcomeView::BadRequest,
        ),
    }
}

/// What a request comes to, given why its texts are rejected, if they are.
pub open spec fn begun(req: RequestView, rejected: Option<Seq<char>>) -> BegunView {
    begun_from(
        target_of(req.target),
        opt_normalized(req.code),
        opt_normalized(req.type_expr),
        rejected,
    )
}

fn reject(s: &Option<String>) -> (r: Option<String>)
    ensures
        match opt_judged(opt_view(*s)) {
            Some(Err(e)) => r matches Some(x) && x@ == e,
            _ => r is None,
        },
{
    match s {
        Some(s) => match reject_forbidden_macros(s.as_str()) {
            Ok(_) => None,
            Err(e) => Some(e),
        },
        None => None,
    }
}

/// Says what a request comes to, given its settled target, if it has one, its texts in their
/// normal form, and why they are rejected, if they are.
pub fn decide(
    target: Option<&'static str>,
    code: Option<String>,
    type_expr: Option<String>,
    rejected: Option<String>,
) -> (r: Begun)
    ensures
        r@ == begun_from(
            str_opt_view(target),
            opt_view(code),
            opt_view(type_expr),
            opt_view(rejected),
        ),
        match r {
            Begun::Asked(q) => consistent(q),
            Begun::Refused(_, _) => true,
        },
{
    let is_type_expr = type_expr.is_some();
    let target = match target {
        Some(t) => t,
        None => {
            return Begun::Refused(
                Failure::new(Status::UnprocessableEntity, "invalid target"),
                Outcome::BadRequest,
            );
        },
    };
    match rejected {
        Some(error) => {
            return Begun::Refused(
                Failure { status: Status::Forbidden, error },
                Outcome::Forbidden { is_type_expr },
            );
        },
        None => {},
    }
    match (type_expr, code) {
        (Some(input), _) => {
            let key = CacheKey::new(true, input.as_str(), Some(target));
            Begun::Asked(Question { is_type_expr, input, target, key, inner_attr_lines: 0 })
        },
        (None, Some(input)) => {
            let key = CacheKey::new(false, input.as_str(), Some(target));
            let inner_attr_lines = count_inner_attr_lines(input.as_str());
            Begun::Asked(Question { is_type_expr, input, target, key, inner_attr_lines })
        },
        (None, None) => Begun::Refused(
            Failure::new(Status::UnprocessableEntity, "request must include `code` or `type`"),
            Outcome::BadRequest,
        ),
    }
}

/// Why a request's texts are rejected, if they are.
pub open spec fn rejection(req: RequestView) -> Option<Seq<char>> {
    first_rejection(
        opt_judged(opt_normalized(req.code)),
        opt_judged(opt_normalized(req.type_expr)),
    )
}

/// Begins an analysis.
pub fn analyze(req: &AnalyzeRequest) -> (r: Begun)
    ensures
        r@ == begun(req@, rejection(req@)),
        match r {
            Begun::Asked(q) => consistent(q),
            Begun::Refused(_, _) => true,
        },
{
    let target = match normalize_target(as_str_opt(&req.target)) {
        Ok(t) => Some(t),
        Err(_) => None,
    };
    let code = normalize_opt(&req.code);
    let type_expr = normalize_opt(&req.type_expr);
    let rejected = match reject(&code) {
        Some(e) => Some(e),
        None => reject(&type_expr),
    };
    assert(opt_view(rejected) == rejection(req@));
    decide(target, code, type_expr, rejected)
}

// ── analyzing: what is answered ────────────────────────────

/// An answer with layouts.
pub struct AnalyzeResponse {
    pub types: Vec<TypeLayout>,
    pub cached: bool,
}

/// Answers from the cache.
pub fn from_cache(q: &Question, cached: Vec<TypeLayout>) -> (r: (
    AnalyzeResponse,
    Outcome<'static>,
))
    ensures
        r.0 == (AnalyzeResponse { types: cached, cached: true }),
        r.1@ == (OutcomeView::Success {
            types_count: cached@.len() as u64,
            target: Some(q.target@),
            is_type_expr: q.is_type_expr,
        }),
{
    let types_count = cached.len() as u64;
    (
        AnalyzeResponse { types: cached, cached: true },
        Outcome::Success { types_count, target: Some(q.target), is_type_expr: q.is_type_expr },
    )
}

/// A failure as it is shown: errors of the compiler are put in the user's terms.
pub open spec fn presented(f: FailureView, inner_attr_lines: int) -> FailureView {
    if f.status == Status::UnprocessableEntity {
        FailureView { status: f.status, error: cleaned(f.error, inner_attr_lines) }
    } else {
        f
    }
}

/// What a failed analysis counts as.
pub open spec fn failed(status: Status, is_type_expr: bool) -> OutcomeView {
    match status {
        Status::GatewayTimeout => OutcomeView::Timeout { is_type_expr },
        Status::UnprocessableEntity => OutcomeView::AnalysisError { is_type_expr },
        _ => OutcomeView::InternalError { is_type_expr },
    }
}

/// Answers with the result of an analysis whose errors are in the user's terms.  Layouts are to
/// be kept in the cache.
pub fn conclude(q: &Question, result: Result<Vec<TypeLayout>, Failure>) -> (r: (
    Result<AnalyzeResponse, Failure>,
    Outcome<'static>,
))
    ensures
        match result {
            Ok(types) => {
                &&& r.0 == Ok::<AnalyzeResponse, Failure>(AnalyzeResponse { types, cached: false })
                &&& r.1@ == (OutcomeView::Success {
                    types_count: types@.len() as u64,
                    target: Some(q.target@),
                    is_type_expr: q.is_type_expr,
                })
            },
            Err(f) => {
                &&& r.0 == Err::<AnalyzeResponse, Failure>(f)
                &&& r.1@ == failed(f.status, q.is_type_expr)
            },
        },
{
    let is_type_expr = q.is_type_expr;
    match result {
        Ok(types) => {
            let types_count = types.len() as u64;
            (
                Ok(AnalyzeResponse { types, cached: false }),
                Outcome::Success { types_count, target: Some(q.target), is_type_expr },
            )
        },
        Err(f) => {
            let outcome = match f.status {
                Status::GatewayTimeout => Outcome::Timeout { is_type_expr },
                Status::UnprocessableEntity => Outcome::AnalysisError { is_type_expr },
                _ => Outcome::InternalError { is_type_expr },
            };
            (Err(f), outcome)
        },
    }
}

/// Answers with the result of an analysis whose errors are as the compiler wrote them.  Layouts
/// are to be kept in the cache.
pub fn finish(q: &Question, result: Result<Vec<TypeLayout>, Failure>) -> (r: (
    Result<AnalyzeResponse, Failure>,
    Outcome<'static>,
))
    ensures
        match result {
            Ok(types) => {
                &&& r.0 == Ok::<AnalyzeResponse, Failure>(AnalyzeResponse { types, cached: false })
                &&& r.1@ == (OutcomeView::Success {
                    types_count: types@.len() as u64,
                    target: Some(q.target@),
                    is_type_expr: q.is_type_expr,
                })
            },
            Err(f) => {
                &&& r.0 matches Err(shown)
                &&& shown@ == presented(f@, q.inner_attr_lines as int)
                &&& r.1@ == failed(f.status, q.is_type_expr)
            },
        },
{
    match result {
        Ok(types) => conclude(q, Ok(types)),
        Err(f) => {
            let status = f.status;
            let error = match status {
                Status::UnprocessableEntity => clean_rustc_error(
                    f.error.as_str(),
                    q.inner_attr_lines,
                ),
                _ => f.error,
            };
            conclude(q, Err(Failure { status, error }))
        },
    }
}

// ── shortening ─────────────────────────────────────────────

/// A snippet that is fit to be stored.
pub struct ToStore {
    pub is_type_expr: bool,
    pub content: String,
    pub target: &'static str,
}

impl View for ToStore {
    type V = Submitted;

    open spec fn view(&self) -> Submitted {
        Submitted {
            is_type_expr: self.is_type_expr,
            content: self.content@,
            target: self.target@,
        }
    }
}

/// The text to be stored, in its normal form: the type where there is one, else the code.
pub open spec fn text_to_store(req: RequestView) -> Option<Seq<char>> {
    match (req.type_expr, req.code) {
        (Some(t), _) => Some(normalized(t)),
        (None, Some(c)) => Some(normalized(c)),
        (None, None) => None,
    }
}

/// What a request to store a snippet comes to, given what is said of its text.
pub open spec fn accepted(req: RequestView, verdict: Result<(), Seq<char>>) -> Result<
    Submitted,
    FailureView,
> {
    match text_to_store(req) {
        None => Err(
            FailureView {
                status: Status::UnprocessableEntity,
                error: "request must include `code` or `type`"@,
            },
        ),
        Some(content) => if content.len() == 0 {
            Err(FailureView { status: Status::UnprocessableEntity, error: "snippet is empty"@ })
        } else {
            match (verdict, target_of(req.target)) {
                (Err(e), _) => Err(FailureView { status: Status::Forbidden, error: e }),
                (Ok(_), None) => Err(
                    FailureView { status: Status::UnprocessableEntity, error: "invalid target"@ },
                ),
                (Ok(_), Some(target)) => Ok(
                    Submitted { is_type_expr: req.type_expr is Some, content, target },
                ),
            }
        },
    }
}

/// What is said of a request's text.
pub open spec fn text_verdict(req: RequestView) -> Result<(), Seq<char>> {
    match text_to_store(req) {
        Some(content) => judged(lexed(content)),
        None => Ok(()),
    }
}

/// The value of a result of the library.
pub open spec fn stored_view(r: Result<ToStore, Failure>) -> Result<Submitted, FailureView> {
    match r {
        Ok(s) => Ok(s@),
        Err(f) => Err(f@),
    }
}

/// What is said of a text.
pub open spec fn verdict_view(r: Result<(), String>) -> Result<(), Seq<char>> {
    match r {
        Ok(_) => Ok(()),
        Err(e) => Err(e@),
    }
}

fn text_of(req: &ShortenRequest) -> (r: Option<String>)
    ensures
        opt_view(r) == text_to_store(req@),
{
    match (&req.type_expr, &req.code) {
        (Some(t), _) => Some(normalize_content(t.as_str())),
        (None, Some(c)) => Some(normalize_content(c.as_str())),
        (None, None) => None,
    }
}

/// Says what a request to store a snippet comes to, given what is said of its text.
pub fn accept(req: &ShortenRequest, verdict: Result<(), String>) -> (r: Result<ToStore, Failure>)
    ensures
        stored_view(r) == accepted(req@, verdict_view(verdict)),
{
    let content = match text_of(req) {
        Some(s) => s,
        None => {
            return Err(
                Failure::new(Status::UnprocessableEntity, "request must include `code` or `type`"),
            );
        },
    };
    if content.as_str().is_empty() {
        return Err(Failure::new(Status::UnprocessableEntity, "snippet is empty"));
    }
    match verdict {
        Err(error) => {
            return Err(Failure { status: Status::Forbidden, error });
        },
        Ok(_) => {},
    }
    match normalize_target(as_str_opt(&req.target)) {
        Ok(target) => Ok(ToStore { is_type_expr: req.type_expr.is_some(), content, target }),
        Err(e) => Err(Failure::new(Status::UnprocessableEntity, e)),
    }
}

/// Begins to store a snippet.
pub fn shorten(req: &ShortenRequest) -> (r: Result<ToStore, Failure>)
    ensures
        stored_view(r) == accepted(req@, text_verdict(req@)),
{
    let verdict = match text_of(req) {
        Some(s) => reject_forbidden_macros(s.as_str()),
        None => Ok(()),
    };
    proof {
        match text_verdict(req@) {
            Ok(u) => assert(u == ()),
            Err(_) => {},
        }
    }
    accept(req, verdict)
}

/// Answers with the id under which a snippet was stored, if it was, and says what that counts.
pub fn shortened(stats: &Stats, id: Option<String>) -> (r: (
    Result<String, Failure>,
    Option<Update>,
))
    ensures
        match (id, r.0) {
            (Some(id), Ok(s)) => s@ == id@ && r.1 == Some(one_more(Counter::ShortlinksCreated)),
            (None, Err(f)) => f@ == (FailureView {
                status: Status::InternalServerError,
                error: "failed to store snippet"@,
            }) && r.1 is None,
            _ => false,
        },
{
    match id {
        Some(id) => (Ok(id), Some(stats.record_shortlink_created())),
        None => (
            Err(Failure::new(Status::InternalServerError, "failed to store snippet")),
            None,
        ),
    }
}

// ── loading ────────────────────────────────────────────────

/// A stored snippet as it is answered.
pub struct SnippetResponse {
    pub type_expr: Option<String>,
    pub code: Option<String>,
    pub target: Option<String>,
}

impl View for SnippetResponse {
    type V = RequestView;

    open spec fn view(&self) -> RequestView {
        RequestView {
            code: opt_view(self.code),
            type_expr: opt_view(self.type_expr),
            target: opt_view(self.target),
        }
    }
}

/// A stored snippet as a request would bring it.
pub open spec fn loaded(s: Submitted) -> RequestView {
    RequestView {
        code: if s.is_type_expr {
            None
        } else {
            Some(s.content)
        },
        type_expr: if s.is_type_expr {
            Some(s.content)
        } else {
            None
        },
        target: if s.target.len() == 0 {
            None
        } else {
            Some(s.target)
        },
    }
}

/// Answers with a stored snippet, if there is one.
pub fn load(found: Option<Snippet>) -> (r: Result<SnippetResponse, Status>)
    ensures
        match (found, r) {
            (Some(s), Ok(response)) => response@ == loaded(s@),
            (None, Err(status)) => status == Status::NotFound,
            _ => false,
        },
{
    match found {
        None => Err(Status::NotFound),
        Some(s) => {
            let target = if s.target.as_str().is_empty() {
                None
            } else {
                Some(s.target)
            };
            if s.is_type_expr {
                Ok(SnippetResponse { type_expr: Some(s.content), code: None, target })
            } else {
                Ok(SnippetResponse { type_expr: None, code: Some(s.content), target })
            }
        },
    }
}

/// What is answered under an id and what that counts, given the snippet that is stored under it,
/// if there is one.
pub open spec fn snippet_answer(id: Seq<char>, found: Option<Submitted>) -> (
    Result<RequestView, Status>,
    Option<Update>,
) {
    match found {
        Some(s) => if valid_id(id) {
            (Ok(loaded(s)), Some(one_more(Counter::ShortlinksLoaded)))
        } else {
            (Err(Status::NotFound), None)
        },
        None => (Err(Status::NotFound), None),
    }
}

/// What a [`SnippetResponse`] brings, where there is one.
pub open spec fn response_view(r: Result<SnippetResponse, Status>) -> Result<RequestView, Status> {
    match r {
        Ok(response) => Ok(response@),
        Err(status) => Err(status),
    }
}

/// The snippet that was found, if there is one.
pub open spec fn snippet_view(found: Option<Snippet>) -> Option<Submitted> {
    match found {
        Some(s) => Some(s@),
        None => None,
    }
}

/// Answers a request for the snippet of an id, and says what that counts.
pub fn snippet(stats: &Stats, id: &str, found: Option<Snippet>) -> (r: (
    Result<SnippetResponse, Status>,
    Option<Update>,
))
    ensures
        (response_view(r.0), r.1) == snippet_answer(id@, snippet_view(found)),
{
    if !is_valid_id(id) {
        return (Err(Status::NotFound), None);
    }
    match load(found) {
        Ok(response) => (Ok(response), Some(stats.record_shortlink_loaded())),
        Err(status) => (Err(status), None),
    }
}

// ── laws ───────────────────────────────────────────────────

/// An error of the compiler is shown alike, whether it was handed on as it was, as workers do, or
/// put in the user's terms before, as [`parse_output`](crate::runner::parse_output) does.
pub proof fn law_errors_are_shown_alike(raw: Seq<char>, inner_attr_lines: int)
    ensures
        presented(
            FailureView { status: Status::UnprocessableEntity, error: raw },
            inner_attr_lines,
        ) == (FailureView {
            status: Status::UnprocessableEntity,
            error: cleaned(raw, inner_attr_lines),
        }),
{
}

/// A request whose texts are rejected is refused, and not analyzed.
pub proof fn law_rejected_code_is_not_analyzed(req: RequestView, rejected: Seq<char>)
    ensures
        begun(req, Some(rejected)) is Refused,
{
}

/// Requests that differ in the blanks at the ends of lines, or in the way in which they name
/// their target, ask the same.
pub proof fn law_equal_forms_ask_the_same(a: RequestView, b: RequestView)
    requires
        opt_normalized(a.code) == opt_normalized(b.code),
        opt_normalized(a.type_expr) == opt_normalized(b.type_expr),
        target_of(a.target) == target_of(b.target),
    ensures
        begun(a, rejection(a)) == begun(b, rejection(b)),
{
}

/// A stored snippet is analyzed as it was stored: its kind, its text and its target are those
/// that it was accepted with.
pub proof fn law_stored_is_analyzed_alike(req: RequestView)
    ensures
        match accepted(req, text_verdict(req)) {
            Ok(s) => begun(loaded(s), rejection(loaded(s))) == BegunView::Asked(
                QuestionView { is_type_expr: s.is_type_expr, input: s.content, target: s.target },
            ),
            Err(_) => true,
        },
{
    match accepted(req, text_verdict(req)) {
        Ok(s) => {
            law_target_is_settled(req.target);
            lemma_allowed_is_trimmed(s.target);
            match (req.type_expr, req.code) {
                (Some(t), _) => law_normalizing_is_idempotent(t),
                (None, Some(c)) => law_normalizing_is_idempotent(c),
                (None, None) => {},
            }
        },
        Err(_) => {},
    }
}

/// A snippet that was accepted and stored is found again under its id, as it was accepted, however
/// many were stored since.
pub proof fn law_stored_is_loaded_alike(
    table: SnippetTable,
    req: RequestView,
    others: Seq<Submitted>,
)
    ensures
        match accepted(req, text_verdict(req)) {
            Ok(s) => match put(table, s) {
                (Some(id), after) => lookup(put_all(after, others), id) == Some(s),
                (None, after) => after == table,
            },
            Err(_) => true,
        },
{
    match accepted(req, text_verdict(req)) {
        Ok(s) => {
            law_put_then_get(table, s);
            law_ids_are_kept(table, s, others);
        },
        Err(_) => {},
    }
}

/// A stored snippet is accepted again as the same snippet, so it keeps its id.
pub proof fn law_loaded_is_accepted_alike(req: RequestView)
    ensures
        match accepted(req, text_verdict(req)) {
            Ok(s) => accepted(loaded(s), text_verdict(loaded(s))) == Ok::<Submitted, FailureView>(s),
            Err(_) => true,
        },
{
    match accepted(req, text_verdict(req)) {
        Ok(s) => {
            law_target_is_settled(req.target);
            lemma_allowed_is_trimmed(s.target);
            match (req.type_expr, req.code) {
                (Some(t), _) => law_normalizing_is_idempotent(t),
                (None, Some(c)) => law_normalizing_is_idempotent(c),
                (None, None) => {},
            }
        },
        Err(_) => {},
    }
}

/// Every analysis that succeeds counts its target: no allowed target is left uncounted.
pub proof fn law_success_counts_its_target(
    req: RequestView,
    rejected: Option<Seq<char>>,
    types_count: u64,
)
    ensures
        match begun(req, rejected) {
            BegunView::Asked(q) => counted_target(
                OutcomeView::Success {
                    types_count,
                    target: Some(q.target),
                    is_type_expr: q.is_type_expr,
                },
            ) == Some(q.target),
            BegunView::Refused(_, _) => true,
        },
{
    match begun(req, rejected) {
        BegunView::Asked(q) => {
            law_target_is_settled(req.target);
            lemma_allowed_is_trimmed(q.target);
            assert forall|i: int| 0 <= i < q.target.len() implies target_char(
                #[trigger] q.target[i],
            ) by {}
        },
        BegunView::Refused(_, _) => {},
    }
}

/// The counters after an update, if there is one.
pub open spec fn counted(counters: Counters, update: Option<Update>) -> Counters {
    match update {
        Some(u) => applied(counters, u),
        None => counters,
    }
}

/// Whoever follows a short link gets what was stored, however many snippets were stored since: the
/// type or the code in its normal form, for the target that was settled, and nothing else.  That
/// counts one short link more, and nothing else.  The hashes that are stored under are as long as
/// the longest id.
pub proof fn law_short_links_lead_back(
    table: SnippetTable,
    req: RequestView,
    others: Seq<Submitted>,
    counters: Counters,
    other: Counter,
)
    ensures
        match accepted(req, text_verdict(req)) {
            Ok(s) => match put(table, s) {
                (Some(id), after) => started(s).hash.len() == ID_MAX_LEN ==> {
                    let answer = snippet_answer(id, lookup(put_all(after, others), id));
                    let counters_after = counted(counters, answer.1);
                    &&& valid_id(id)
                    &&& answer.0 == Ok::<RequestView, Status>(
                        RequestView {
                            code: if req.type_expr is Some {
                                None
                            } else {
                                opt_normalized(req.code)
                            },
                            type_expr: opt_normalized(req.type_expr),
                            target: target_of(req.target),
                        },
                    )
                    &&& value(counters_after, Counter::ShortlinksLoaded) == value(
                        counters,
                        Counter::ShortlinksLoaded,
                    ) + 1
                    &&& other != Counter::ShortlinksLoaded ==> value(counters_after, other) == value(
                        counters,
                        other,
                    )
                },
                (None, after) => after == table,
            },
            Err(_) => true,
        },
{
    match accepted(req, text_verdict(req)) {
        Ok(s) => {
            law_put_then_get(table, s);
            law_ids_are_kept(table, s, others);
            law_id_is_prefix(table, s);
            law_target_is_settled(req.target);
            lemma_allowed_is_trimmed(s.target);
            match put(table, s).0 {
                Some(id) => if started(s).hash.len() == ID_MAX_LEN {
                    law_letters_are_of_the_alphabet(
                        sha256(message(s.is_type_expr, s.content, s.target)),
                    );
                    law_prefixes_are_valid_ids(started(s).hash, id.len() as int);
                },
                None => {},
            }
        },
        Err(_) => {},
    }
}

/// Under a text that is no id, and under an id that has no snippet, nothing is found and nothing
/// is counted, whatever is stored.
pub proof fn law_unknown_short_links_are_not_found(
    table: SnippetTable,
    id: Seq<char>,
    counters: Counters,
)
    requires
        !valid_id(id) || !table.dom().contains(id),
    ensures
        snippet_answer(id, lookup(table, id)).0 == Err::<RequestView, Status>(Status::NotFound),
        counted(counters, snippet_answer(id, lookup(table, id)).1) == counters,
{
}

/// The target is looked at first, then the texts, the code before the type, then whether there is
/// one.  A request that passes asks for its type where it has one and else for its code, in its
/// normal form, for the target that it means.
pub proof fn law_requests_come_to_what_they_ask(req: RequestView, rejected: Option<Seq<char>>)
    ensures
        match begun(req, rejected) {
            BegunView::Refused(f, outcome) => {
                if target_of(req.target) is None {
                    f.status == Status::UnprocessableEntity && f.error == "invalid target"@
                        && outcome == OutcomeView::BadRequest
                } else if rejected is Some {
                    f.status == Status::Forbidden && f.error == rejected->0 && outcome == (
                    OutcomeView::Forbidden { is_type_expr: req.type_expr is Some })
                } else {
                    req.code is None && req.type_expr is None && f.status
                        == Status::UnprocessableEntity && f.error
                        == "request must include `code` or `type`"@ && outcome
                        == OutcomeView::BadRequest
                }
            },
            BegunView::Asked(q) => {
                &&& target_of(req.target) == Some(q.target)
                &&& rejected is None
                &&& q.is_type_expr == (req.type_expr is Some)
                &&& req.type_expr matches Some(t) ==> q.input == normalized(t)
                &&& req.type_expr is None ==> req.code is Some && q.input == normalized(
                    req.code->0,
                )
            },
        },
{
}

/// Both texts are looked at, the code first.
pub proof fn law_both_texts_are_looked_at(req: RequestView)
    ensures
        match rejection(req) {
            Some(e) => {
                ||| req.code is Some && judged(lexed(normalized(req.code->0))) == Err::<(), Seq<char>>(e)
                ||| (req.code matches Some(c) ==> judged(lexed(normalized(c))) is Ok)
                    && req.type_expr is Some && judged(lexed(normalized(req.type_expr->0))) == Err::<
                    (),
                    Seq<char>,
                >(e)
            },
            None => {
                &&& req.code matches Some(c) ==> judged(lexed(normalized(c))) is Ok
                &&& req.type_expr matches Some(t) ==> judged(lexed(normalized(t))) is Ok
            },
        },
{
}

/// A failed analysis counts as what its status says: as too slow, as an error in what was asked, or
/// as a fault of the site.  Only the second is put in the user's terms; else the text stays.
pub proof fn law_failures_are_told_as_they_are(
    q: &Question,
    result: Result<Vec<TypeLayout>, Failure>,
    r: (Result<AnalyzeResponse, Failure>, Outcome<'static>),
)
    requires
        result is Err,
        call_ensures(finish, (q, result), r),
    ensures
        match (result, r.0) {
            (Err(f), Err(shown)) => {
                &&& shown.status == f.status
                &&& f.status == Status::GatewayTimeout ==> r.1@ == (OutcomeView::Timeout {
                    is_type_expr: q.is_type_expr,
                })
                &&& f.status == Status::UnprocessableEntity ==> r.1@ == (
                OutcomeView::AnalysisError { is_type_expr: q.is_type_expr }) && shown.error@
                    == cleaned(f.error@, q.inner_attr_lines as int)
                &&& f.status != Status::UnprocessableEntity ==> shown.error@ == f.error@
                &&& f.status != Status::GatewayTimeout && f.status != Status::UnprocessableEntity
                    ==> r.1@ == (OutcomeView::InternalError { is_type_expr: q.is_type_expr })
            },
            _ => false,
        },
{
}

/// An analysis that found layouts is answered with these, as a new one, and counts as many types as
/// it found, for the target of the question.
pub proof fn law_findings_are_answered(
    q: &Question,
    result: Result<Vec<TypeLayout>, Failure>,
    r: (Result<AnalyzeResponse, Failure>, Outcome<'static>),
)
    requires
        result is Ok,
        call_ensures(finish, (q, result), r) || call_ensures(conclude, (q, result), r),
    ensures
        match (result, r.0, r.1@) {
            (
                Ok(types),
                Ok(answer),
                OutcomeView::Success { types_count, target, is_type_expr },
            ) => {
                &&& answer.types == types
                &&& !answer.cached
                &&& types_count == types@.len()
                &&& target == Some(q.target@)
                &&& is_type_expr == q.is_type_expr
            },
            _ => false,
        },
{
    match result {
        Ok(types) => assert(types.len() == types@.len()),
        Err(_) => {},
    }
}

/// A snippet is accepted if and only if it has a text that is not empty in its normal form and not
/// rejected, and a target that is allowed.  Else the first of these that fails is told, in this
/// order.
pub proof fn law_snippets_are_accepted_in_order(
    req: RequestView,
    verdict: Result<(), Seq<char>>,
)
    ensures
        ({
            let text = if req.type_expr is Some {
                opt_normalized(req.type_expr)
            } else {
                opt_normalized(req.code)
            };
            match accepted(req, verdict) {
                Ok(s) => {
                    &&& text == Some(s.content)
                    &&& s.content.len() > 0
                    &&& verdict is Ok
                    &&& target_of(req.target) == Some(s.target)
                    &&& s.is_type_expr == (req.type_expr is Some)
                },
                Err(f) => if text is None {
                    f.status == Status::UnprocessableEntity && f.error
                        == "request must include `code` or `type`"@
                } else if text->0.len() == 0 {
                    f.status == Status::UnprocessableEntity && f.error == "snippet is empty"@
                } else if verdict is Err {
                    f.status == Status::Forbidden && f.error == verdict->Err_0
                } else {
                    target_of(req.target) is None && f.status == Status::UnprocessableEntity
                        && f.error == "invalid target"@
                },
            }
        }),
{
}

/// A question is a job for a type or for code as it says, with its input.
pub proof fn law_questions_are_jobs<'a>(q: &'a Question, r: Job<'a>)
    requires
        call_ensures(Question::job, (q,), r),
    ensures
        r is TypeExpr <==> q.is_type_expr,
        match r {
            Job::TypeExpr(s) => s@ == q.input@,
            Job::Snippet(s) => s@ == q.input@,
        },
{
}

/// What was stored is answered with its id and counted; what could not be is told so and not
/// counted.
pub proof fn law_stored_ids_are_answered(
    stats: &Stats,
    id: Option<String>,
    r: (Result<String, Failure>, Option<Update>),
)
    requires
        call_ensures(shortened, (stats, id), r),
    ensures
        r.0 is Ok <==> id is Some,
        r.1 is Some <==> id is Some,
        r.0 matches Ok(s) ==> s@ == id->0@,
        r.0 matches Err(f) ==> f.status == Status::InternalServerError,
        r.1 matches Some(u) ==> u.counter == Counter::ShortlinksCreated && u.value == 1,
{
}

/// A stored snippet is answered as a type or as code, as it was stored, with its text, and with its
/// target where it has one.
pub proof fn law_loaded_snippets_are_answered(
    found: Option<Snippet>,
    r: Result<SnippetResponse, Status>,
)
    requires
        call_ensures(load, (found,), r),
    ensures
        r is Ok <==> found is Some,
        r matches Err(status) ==> status == Status::NotFound,
        r matches Ok(a) ==> {
            let s = found->0;
            &&& a.type_expr is Some <==> s.is_type_expr
            &&& a.code is Some <==> !s.is_type_expr
            &&& a.type_expr matches Some(t) ==> t@ == s.content@
            &&& a.code matches Some(c) ==> c@ == s.content@
            &&& a.target is Some <==> s.target@.len() > 0
            &&& a.target matches Some(t) ==> t@ == s.target@
        },
{
    match (found, r) {
        (Some(s), Ok(a)) => {
            assert(a@ == loaded(s@));
            assert(opt_view(a.type_expr) == loaded(s@).type_expr);
            assert(opt_view(a.code) == loaded(s@).code);
            assert(opt_view(a.target) == loaded(s@).target);
        },
        _ => {},
    }
}

} // verus!
