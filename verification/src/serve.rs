//! A worker's side of the analysis service: requests line by line, and their answers.
use vstd::prelude::*;
use vstd::slice::slice_subrange;

use crate::layout::TypeLayout;
use crate::text::{begins, chars_of, contains, occurs, string_of, trim, trimmed};

verus! {

/// Why a worker, rather than what was asked of it, is at fault.
#[derive(Clone, Copy, Debug, PartialEq, Eq, Structural)]
pub enum InfraReason {
    MetadataStub,
    RmetaMmapFailed,
    InvalidMetadata,
    MissingStd,
    MissingCore,
    MissingAlloc,
    Ice,
}

/// What a request asks to analyze.
#[derive(Clone, Copy, Debug, PartialEq, Eq, Structural)]
pub enum JobKind {
    Type,
    Snippet,
    File,
}

/// A request to a worker.
pub struct WorkerRequest {
    pub kind: JobKind,
    pub input: String,
    pub target: Option<String>,
}

/// A worker's answer.
pub enum WorkerResponse {
    Analyzed { layouts: Vec<TypeLayout> },
    UserError { message: String },
    InfraError { message: String, reason: InfraReason },
}

// ── requests ───────────────────────────────────────────────

/// `s` without the line feeds and carriage returns at its end.
pub open spec fn trim_line_end(s: Seq<char>) -> Seq<char>
    decreases s.len(),
{
    if s.len() > 0 && (s.last() == '\n' || s.last() == '\r') {
        trim_line_end(s.drop_last())
    } else {
        s
    }
}

/// The request that a line holds.  A blank line holds none.
pub fn request_line(line: &str) -> (r: Option<String>)
    ensures
        match r {
            Some(s) => s@ == trim_line_end(line@) && s@.len() > 0,
            None => trim_line_end(line@).len() == 0,
        },
{
    let chars = chars_of(line);
    let mut i: usize = chars.len();
    assert(line@.take(line@.len() as int) =~= line@);
    while i > 0 && (chars[i - 1] == '\n' || chars[i - 1] == '\r')
        invariant
            chars@ == line@,
            i <= line@.len(),
            trim_line_end(line@) == trim_line_end(line@.take(i as int)),
        decreases i,
    {
        assert(line@.take(i as int).drop_last() =~= line@.take(i - 1));
        i = i - 1;
    }
    if i == 0 {
        None
    } else {
        assert(line@.subrange(0, i as int) =~= line@.take(i as int));
        Some(string_of(slice_subrange(&chars, 0, i)))
    }
}

// ── answers ────────────────────────────────────────────────

/// Texts that show a broken worker rather than bad input, with what each stands for.
pub const INFRA_PATTERNS: [(&'static str, InfraReason); 10] = [
    ("only metadata stub found for", InfraReason::MetadataStub),
    ("failed to mmap rmeta metadata", InfraReason::RmetaMmapFailed),
    ("found invalid metadata files", InfraReason::InvalidMetadata),
    ("E0786", InfraReason::InvalidMetadata),
    ("can't find crate for `std`", InfraReason::MissingStd),
    ("can't find crate for `core`", InfraReason::MissingCore),
    ("can't find crate for `alloc`", InfraReason::MissingAlloc),
    ("the compiler unexpectedly panicked", InfraReason::Ice),
    ("internal compiler error:", InfraReason::Ice),
    ("'rustc' panicked at", InfraReason::Ice),
];

/// What the first of the patterns from `i` on that stands in the text says.
pub open spec fn infra_from(text: Seq<char>, i: int) -> Option<InfraReason>
    decreases INFRA_PATTERNS@.len() - i,
{
    if i >= INFRA_PATTERNS@.len() {
        None
    } else if occurs(text, INFRA_PATTERNS@[i].0@) {
        Some(INFRA_PATTERNS@[i].1)
    } else {
        infra_from(text, i + 1)
    }
}

/// Tells whether a message shows a broken worker.
pub fn classify_infra(text: &str) -> (r: Option<InfraReason>)
    ensures
        r == infra_from(text@, 0),
{
    let chars = chars_of(text);
    let patterns = INFRA_PATTERNS;
    for i in 0..patterns.len()
        invariant
            chars@ == text@,
            patterns == INFRA_PATTERNS,
            infra_from(text@, 0) == infra_from(text@, i as int),
    {
        if contains(&chars, patterns[i].0) {
            return Some(patterns[i].1);
        }
    }
    None
}

/// The answer that carries an error message: the worker is at fault where the message shows
/// it.
pub open spec fn carries(r: WorkerResponse, message: Seq<char>) -> bool {
    match r {
        WorkerResponse::Analyzed { .. } => false,
        WorkerResponse::UserError { message: m } => m@ == message && infra_from(message, 0) is None,
        WorkerResponse::InfraError { message: m, reason } => m@ == message && infra_from(message, 0)
            == Some(reason),
    }
}

/// Wraps an error message.
pub fn classify(message: String) -> (r: WorkerResponse)
    ensures
        carries(r, message@),
{
    match classify_infra(message.as_str()) {
        Some(reason) => WorkerResponse::InfraError { message, reason },
        None => WorkerResponse::UserError { message },
    }
}

/// What is told of a request that could not be read.
pub fn bad_request(error: &str) -> (r: WorkerResponse)
    ensures
        match r {
            WorkerResponse::UserError { message } => message@ == "bad request: "@ + error@,
            _ => false,
        },
{
    let mut message = "bad request: ".to_owned();
    message.append(error);
    WorkerResponse::UserError { message }
}

/// Answers a request, given how its analysis ended and what the compiler said meanwhile.
pub fn respond(result: Result<Vec<TypeLayout>, String>, captured: String) -> (r: WorkerResponse)
    ensures
        match result {
            Ok(layouts) if layouts@.len() > 0 => r == (WorkerResponse::Analyzed { layouts }),
            Ok(_) => carries(
                r,
                if trim(captured@).len() == 0 {
                    "no types analyzed"@
                } else {
                    captured@
                },
            ),
            Err(e) => carries(
                r,
                if trim(captured@).len() == 0 {
                    e@
                } else {
                    captured@
                },
            ),
        },
{
    let fallback = match result {
        Ok(layouts) => {
            if layouts.len() > 0 {
                return WorkerResponse::Analyzed { layouts };
            }
            "no types analyzed".to_owned()
        },
        Err(e) => e,
    };
    let chars = chars_of(captured.as_str());
    if trimmed(&chars).len() == 0 {
        classify(fallback)
    } else {
        classify(captured)
    }
}

// ── laws ───────────────────────────────────────────────────

/// The worker is at fault exactly where some pattern stands in the message.
pub proof fn law_infra_is_some_pattern(text: Seq<char>)
    ensures
        infra_from(text, 0) is Some <==> exists|i: int|
            0 <= i < INFRA_PATTERNS@.len() && occurs(text, #[trigger] INFRA_PATTERNS@[i].0@),
{
    lemma_infra_from(text, 0);
}

proof fn lemma_infra_from(text: Seq<char>, from: int)
    requires
        0 <= from <= INFRA_PATTERNS@.len(),
    ensures
        infra_from(text, from) is Some <==> exists|i: int|
            from <= i < INFRA_PATTERNS@.len() && occurs(text, #[trigger] INFRA_PATTERNS@[i].0@),
    decreases INFRA_PATTERNS@.len() - from,
{
    if from < INFRA_PATTERNS@.len() {
        lemma_infra_from(text, from + 1);
        assert(INFRA_PATTERNS@[from].0@ == INFRA_PATTERNS@[from].0@);
    }
}

/// A line ends at its last character that is neither a line feed nor a carriage return: what comes
/// behind it is taken off, and nothing else.
pub proof fn law_line_ends_are_taken_off(s: Seq<char>)
    ensures
        ({
            let r = trim_line_end(s);
            &&& r.len() <= s.len()
            &&& r == s.take(r.len() as int)
            &&& forall|i: int|
                r.len() <= i < s.len() ==> #[trigger] s[i] == '\n' || s[i] == '\r'
            &&& r.len() > 0 ==> r.last() != '\n' && r.last() != '\r'
        }),
    decreases s.len(),
{
    if s.len() > 0 && (s.last() == '\n' || s.last() == '\r') {
        let t = s.drop_last();
        law_line_ends_are_taken_off(t);
        let r = trim_line_end(s);
        assert(t.take(r.len() as int) =~= s.take(r.len() as int));
        assert forall|i: int| r.len() <= i < s.len() implies #[trigger] s[i] == '\n' || s[i]
            == '\r' by {
            if i < t.len() {
                assert(t[i] == s[i]);
            }
        }
    } else {
        assert(s.take(s.len() as int) =~= s);
    }
}

/// A text that says this shows this fault of a worker.
pub open spec fn shows(text: Seq<char>, reason: InfraReason) -> bool {
    match reason {
        InfraReason::MetadataStub => occurs(text, "only metadata stub found for"@),
        InfraReason::RmetaMmapFailed => occurs(text, "failed to mmap rmeta metadata"@),
        InfraReason::InvalidMetadata => occurs(text, "found invalid metadata files"@) || occurs(
            text,
            "E0786"@,
        ),
        InfraReason::MissingStd => occurs(text, "can't find crate for `std`"@),
        InfraReason::MissingCore => occurs(text, "can't find crate for `core`"@),
        InfraReason::MissingAlloc => occurs(text, "can't find crate for `alloc`"@),
        InfraReason::Ice => occurs(text, "the compiler unexpectedly panicked"@) || occurs(
            text,
            "internal compiler error:"@,
        ) || occurs(text, "'rustc' panicked at"@),
    }
}

/// A message is blamed on the worker for a fault that it shows, and on nobody's input where it
/// shows none; where it shows one fault alone, for that one.
pub proof fn law_faults_are_the_shown_ones(text: Seq<char>, reason: InfraReason)
    ensures
        match infra_from(text, 0) {
            Some(r) => shows(text, r),
            None => !shows(text, reason),
        },
        shows(text, reason) && (forall|other: InfraReason| #[trigger]
            shows(text, other) ==> other == reason) ==> infra_from(text, 0) == Some(reason),
{
    reveal_with_fuel(infra_from, 11);
    assert(INFRA_PATTERNS@[0].0@ == "only metadata stub found for"@);
    assert(INFRA_PATTERNS@[1].0@ == "failed to mmap rmeta metadata"@);
    assert(INFRA_PATTERNS@[2].0@ == "found invalid metadata files"@);
    assert(INFRA_PATTERNS@[3].0@ == "E0786"@);
    assert(INFRA_PATTERNS@[4].0@ == "can't find crate for `std`"@);
    assert(INFRA_PATTERNS@[5].0@ == "can't find crate for `core`"@);
    assert(INFRA_PATTERNS@[6].0@ == "can't find crate for `alloc`"@);
    assert(INFRA_PATTERNS@[7].0@ == "the compiler unexpectedly panicked"@);
    assert(INFRA_PATTERNS@[8].0@ == "internal compiler error:"@);
    assert(INFRA_PATTERNS@[9].0@ == "'rustc' panicked at"@);
    match infra_from(text, 0) {
        Some(r) => assert(shows(text, r)),
        None => {},
    }
}

/// An analysis that found types is answered with them.  Any other is answered with what the
/// compiler said, where it said something, and else with the error of the analysis; the worker is
/// blamed where this text shows a fault of it, and only there.
pub proof fn law_answers_of_a_worker(
    result: Result<Vec<TypeLayout>, String>,
    captured: String,
    r: WorkerResponse,
)
    requires
        call_ensures(respond, (result, captured), r),
    ensures
        match r {
            WorkerResponse::Analyzed { layouts } => result == Ok::<Vec<TypeLayout>, String>(layouts)
                && layouts@.len() > 0,
            WorkerResponse::UserError { message } => {
                &&& result matches Ok(layouts) ==> layouts@.len() == 0
                &&& trim(captured@).len() > 0 ==> message@ == captured@
                &&& trim(captured@).len() == 0 && result is Err ==> message@ == result->Err_0@
                &&& forall|reason: InfraReason| !(#[trigger] shows(message@, reason))
            },
            WorkerResponse::InfraError { message, reason } => {
                &&& result matches Ok(layouts) ==> layouts@.len() == 0
                &&& trim(captured@).len() > 0 ==> message@ == captured@
                &&& trim(captured@).len() == 0 && result is Err ==> message@ == result->Err_0@
                &&& shows(message@, reason)
            },
        },
{
    match r {
        WorkerResponse::Analyzed { .. } => {},
        WorkerResponse::UserError { message } => {
            assert forall|reason: InfraReason| !(#[trigger] shows(message@, reason)) by {
                law_faults_are_the_shown_ones(message@, reason);
            }
        },
        WorkerResponse::InfraError { message, reason } => law_faults_are_the_shown_ones(
            message@,
            reason,
        ),
    }
}

/// A line holds a request if and only if something stands before its end, and holds that.
pub proof fn law_lines_hold_requests(line: &str, r: Option<String>)
    requires
        call_ensures(request_line, (line,), r),
    ensures
        r is None <==> forall|i: int|
            0 <= i < line@.len() ==> #[trigger] line@[i] == '\n' || line@[i] == '\r',
        r matches Some(s) ==> s@.len() > 0 && begins(line@, s@) && s@.last() != '\n' && s@.last()
            != '\r',
{
    law_line_ends_are_taken_off(line@);
    let t = trim_line_end(line@);
    match r {
        Some(s) => {
            assert(line@[t.len() - 1] == t.last());
        },
        None => {},
    }
}

/// A message is carried whole, whatever kind of answer carries it, and a request that cannot be read
/// is the user's fault and says so.
pub proof fn law_messages_are_carried(message: String, r: WorkerResponse, error: &str, b: WorkerResponse)
    requires
        call_ensures(classify, (message,), r),
        call_ensures(bad_request, (error,), b),
    ensures
        match r {
            WorkerResponse::UserError { message: m } => m@ == message@,
            WorkerResponse::InfraError { message: m, .. } => m@ == message@,
            WorkerResponse::Analyzed { .. } => false,
        },
        b matches WorkerResponse::UserError { message: m } && m@ == "bad request: "@ + error@,
{
}

} // verus!
