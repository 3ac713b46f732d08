//! The pool of workers: what becomes of a job, and of the worker that did it.
use vstd::prelude::*;

use crate::layout::TypeLayout;
use crate::runner::{timeout_error, timeout_text, Job};
use crate::status::{Failure, FailureView, Status};

verus! {

/// The configuration of a pool.
pub struct PoolConfig {
    pub bin: String,
    pub workers: usize,
    pub max_jobs_per_worker: usize,
}

/// The kind and the input of a job as a worker reads them.
pub fn request_of<'a>(job: Job<'a>) -> (r: (&'static str, &'a str))
    ensures
        match job {
            Job::TypeExpr(s) => r.0@ == "type"@ && r.1@ == s@,
            Job::Snippet(s) => r.0@ == "snippet"@ && r.1@ == s@,
        },
{
    match job {
        Job::TypeExpr(s) => ("type", s),
        Job::Snippet(s) => ("snippet", s),
    }
}

/// Answers with a job that could not be written down for a worker.
pub fn encode_failure(error: &str) -> (r: Failure)
    ensures
        r@ == (FailureView { status: Status::InternalServerError, error: "encode: "@ + error@ }),
{
    let mut text = "encode: ".to_owned();
    text.append(error);
    Failure { status: Status::InternalServerError, error: text }
}

/// What came of a job that was handed to a worker.
pub enum Reply {
    /// The worker answered.
    Answered { layouts: Option<Vec<TypeLayout>>, error: Option<String> },
    /// The worker could not be reached.
    IoError(String),
    /// The worker did not answer in the given number of seconds.
    TimedOut(String),
}

/// What a job ends in, and what becomes of the worker.
pub struct Settled {
    pub result: Result<Vec<TypeLayout>, Failure>,
    pub jobs_done: usize,
    pub recycle: bool,
}

/// The failure that a reply without layouts is.
pub open spec fn failure_of(reply: Reply) -> FailureView {
    match reply {
        Reply::Answered { error, .. } => FailureView {
            status: Status::UnprocessableEntity,
            error: match error {
                Some(e) => e@,
                None => "unknown error"@,
            },
        },
        Reply::IoError(e) => FailureView {
            status: Status::BadGateway,
            error: "worker io error: "@ + e@,
        },
        Reply::TimedOut(seconds) => FailureView {
            status: Status::GatewayTimeout,
            error: timeout_error(seconds@),
        },
    }
}

/// The layouts of a reply, where it has any.
pub open spec fn layouts_of(reply: Reply) -> Option<Vec<TypeLayout>> {
    match reply {
        Reply::Answered { layouts: Some(layouts), .. } if layouts@.len() > 0 => Some(layouts),
        _ => None,
    }
}

/// Settles a job.  A worker that answered has done one more; it is replaced when it has done
/// enough, and so is one that did not answer.
pub fn settle(reply: Reply, jobs_done: usize, max_jobs_per_worker: usize) -> (r: Settled)
    requires
        jobs_done < usize::MAX,
    ensures
        match layouts_of(reply) {
            Some(layouts) => r.result == Ok::<Vec<TypeLayout>, Failure>(layouts),
            None => r.result matches Err(f) && f@ == failure_of(reply),
        },
        r.jobs_done == (if reply is Answered {
            jobs_done + 1
        } else {
            jobs_done as int
        }),
        r.recycle == (!(reply is Answered) || jobs_done + 1 >= max_jobs_per_worker),
{
    match reply {
        Reply::Answered { layouts, error } => {
            let done: usize = jobs_done + 1;
            let recycle = done >= max_jobs_per_worker;
            match layouts {
                Some(layouts) => {
                    if layouts.len() > 0 {
                        return Settled { result: Ok(layouts), jobs_done: done, recycle };
                    }
                },
                None => {},
            }
            let raw = match error {
                Some(e) => e,
                None => "unknown error".to_owned(),
            };
            Settled {
                result: Err(Failure { status: Status::UnprocessableEntity, error: raw }),
                jobs_done: done,
                recycle,
            }
        },
        Reply::IoError(e) => {
            let mut error = "worker io error: ".to_owned();
            error.append(e.as_str());
            Settled {
                result: Err(Failure { status: Status::BadGateway, error }),
                jobs_done,
                recycle: true,
            }
        },
        Reply::TimedOut(seconds) => Settled {
            result: Err(
                Failure { status: Status::GatewayTimeout, error: timeout_text(seconds.as_str()) },
            ),
            jobs_done,
            recycle: true,
        },
    }
}

/// A worker goes back to the free ones, and its permit with it: the one that did the job, or
/// a new one in its place.  Where none could be started the pool shrinks by one.
pub open spec fn comes_back(recycle: bool, respawned: bool) -> bool {
    !recycle || respawned
}

/// Tells whether a worker and its permit go back to the pool.
pub fn returns_worker(recycle: bool, respawned: bool) -> (r: bool)
    ensures
        r == comes_back(recycle, respawned),
{
    !recycle || respawned
}

// ── laws ───────────────────────────────────────────────────

/// A pool: the free workers, those at work, and the permits to take one.
pub struct PoolState {
    pub free: int,
    pub busy: int,
    pub permits: int,
}

/// There is a free worker for every permit.
pub open spec fn sound(p: PoolState) -> bool {
    0 <= p.busy && 0 <= p.free && p.permits == p.free
}

/// The pool after a permit was taken, and a worker with it.
pub open spec fn taken(p: PoolState) -> PoolState {
    PoolState { free: p.free - 1, busy: p.busy + 1, permits: p.permits - 1 }
}

/// The pool after a job was settled.
pub open spec fn settled(p: PoolState, recycle: bool, respawned: bool) -> PoolState {
    if comes_back(recycle, respawned) {
        PoolState { free: p.free + 1, busy: p.busy - 1, permits: p.permits + 1 }
    } else {
        PoolState { busy: p.busy - 1, ..p }
    }
}

/// Who has a permit finds a free worker, and that stays so.
pub proof fn law_permits_match_workers(p: PoolState, recycle: bool, respawned: bool)
    requires
        sound(p),
    ensures
        p.permits > 0 ==> p.free > 0 && sound(taken(p)),
        p.busy > 0 ==> sound(settled(p, recycle, respawned)),
        p.busy > 0 ==> settled(p, recycle, respawned).free + settled(p, recycle, respawned).busy
            == p.free + p.busy - (if comes_back(recycle, respawned) {
            0int
        } else {
            1int
        }),
{
}

/// A worker that is kept answered, has done one job more than before, and fewer than it may do.
/// One that did not answer, or has done enough, is replaced.
pub proof fn law_workers_are_replaced_in_time(
    reply: Reply,
    jobs_done: usize,
    max_jobs_per_worker: usize,
    r: Settled,
)
    requires
        jobs_done < usize::MAX,
        call_ensures(settle, (reply, jobs_done, max_jobs_per_worker), r),
    ensures
        !r.recycle <==> reply is Answered && r.jobs_done < max_jobs_per_worker,
        reply is Answered ==> r.jobs_done == jobs_done + 1,
        !(reply is Answered) ==> r.jobs_done == jobs_done,
{
}

/// A job succeeds if and only if the worker answered with layouts, and with these.  Else it fails:
/// by what was asked where the worker said so, with its words; by the worker where it could not be
/// reached, with the reason; and by the time where it did not answer.
pub proof fn law_jobs_end_as_their_workers_say(
    reply: Reply,
    jobs_done: usize,
    max_jobs_per_worker: usize,
    r: Settled,
)
    requires
        jobs_done < usize::MAX,
        call_ensures(settle, (reply, jobs_done, max_jobs_per_worker), r),
    ensures
        match (reply, r.result) {
            (Reply::Answered { layouts, .. }, Ok(found)) => layouts == Some(found) && found@.len()
                > 0,
            (Reply::Answered { layouts, error }, Err(f)) => {
                &&& layouts matches Some(found) ==> found@.len() == 0
                &&& f.status == Status::UnprocessableEntity
                &&& error matches Some(e) ==> f.error@ == e@
                &&& error is None ==> f.error@ == "unknown error"@
            },
            (Reply::IoError(e), Err(f)) => f.status == Status::BadGateway && f.error@
                == "worker io error: "@ + e@,
            (Reply::TimedOut(seconds), Err(f)) => f.status == Status::GatewayTimeout && f.error@
                == "analysis exceeded "@ + seconds@ + "s timeout"@,
            _ => false,
        },
{
}

/// A pool loses a worker only where one had to be replaced and none could be started.
pub proof fn law_pools_shrink_only_without_a_replacement(
    p: PoolState,
    recycle: bool,
    respawned: bool,
)
    ensures
        settled(p, recycle, respawned).free + settled(p, recycle, respawned).busy < p.free + p.busy
            <==> recycle && !respawned,
{
}

/// A worker is told what a job is for by a word, and reads its text.
pub proof fn law_jobs_are_told_by_a_word<'a>(job: Job<'a>, r: (&'static str, &'a str))
    requires
        call_ensures(request_of, (job,), r),
    ensures
        r.0@ == "type"@ <==> job is TypeExpr,
        r.0@ == "snippet"@ <==> job is Snippet,
        match job {
            Job::TypeExpr(s) => r.1@ == s@,
            Job::Snippet(s) => r.1@ == s@,
        },
{
    reveal_strlit("type");
    reveal_strlit("snippet");
    assert("type"@.len() != "snippet"@.len());
}

/// Whether a worker goes back: it does unless it is to be replaced and could not be.
pub proof fn law_workers_go_back(recycle: bool, respawned: bool, r: bool)
    requires
        call_ensures(returns_worker, (recycle, respawned), r),
    ensures
        !r <==> recycle && !respawned,
{
}

/// A job that could not be written down is answered with a fault of the server that tells why.
pub proof fn law_encode_failure(error: &str, r: Failure)
    requires
        call_ensures(encode_failure, (error,), r),
    ensures
        r.status == Status::InternalServerError,
        r.error@ == "encode: "@ + error@,
{
}

} // verus!
