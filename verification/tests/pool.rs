use nichy::layout::{TypeLayout, TypeLayoutKind};
use nichy::pool::{encode_failure, request_of, returns_worker, settle, Reply};
use nichy::runner::Job;
use nichy::status::Status;

fn layout(name: &str) -> TypeLayout {
    TypeLayout {
        name: name.into(),
        size: 1,
        alignment: 1,
        hover_info: None,
        largest_niche: None,
        kind: TypeLayoutKind::Opaque,
    }
}

#[test]
fn jobs_are_named_for_the_worker() {
    assert_eq!(request_of(Job::TypeExpr("u8")), ("type", "u8"));
    assert_eq!(request_of(Job::Snippet("struct X;")), ("snippet", "struct X;"));
}

#[test]
fn an_answer_with_layouts_succeeds() {
    let reply = Reply::Answered {
        layouts: Some(vec![layout("X")]),
        error: Some("ignored".into()),
    };
    let s = settle(reply, 3, 5);
    assert_eq!(s.result.ok().unwrap()[0].name, "X");
    assert_eq!(s.jobs_done, 4);
    assert!(!s.recycle);
}

#[test]
fn an_answer_without_layouts_fails() {
    for layouts in [None, Some(vec![])] {
        let s = settle(Reply::Answered { layouts, error: Some("bad".into()) }, 4, 5);
        let f = s.result.err().unwrap();
        assert_eq!(f.status, Status::UnprocessableEntity);
        assert_eq!(f.error, "bad");
        assert!(s.recycle);
    }
    let s = settle(Reply::Answered { layouts: None, error: None }, 0, 5);
    assert_eq!(s.result.err().unwrap().error, "unknown error");
}

#[test]
fn a_worker_that_does_not_answer_is_replaced() {
    let s = settle(Reply::IoError("gone".into()), 1, 5);
    let f = s.result.err().unwrap();
    assert_eq!((f.status, f.error.as_str()), (Status::BadGateway, "worker io error: gone"));
    assert!(s.recycle);
    assert_eq!(s.jobs_done, 1);
    let s = settle(Reply::TimedOut("2.5".into()), 1, 5);
    let f = s.result.err().unwrap();
    assert_eq!(f.status, Status::GatewayTimeout);
    assert_eq!(f.error, "analysis exceeded 2.5s timeout");
    assert!(s.recycle);
}

#[test]
fn the_pool_shrinks_only_when_no_worker_starts() {
    assert!(returns_worker(false, false));
    assert!(returns_worker(true, true));
    assert!(!returns_worker(true, false));
}

#[test]
fn statuses_have_their_codes() {
    let codes: Vec<u16> = [
        Status::Forbidden,
        Status::NotFound,
        Status::UnprocessableEntity,
        Status::InternalServerError,
        Status::BadGateway,
        Status::GatewayTimeout,
    ]
    .into_iter()
    .map(|s| s.code())
    .collect();
    assert_eq!(codes, [403, 404, 422, 500, 502, 504]);
}

#[test]
fn jobs_that_cannot_be_written_down() {
    let f = encode_failure("bad");
    assert_eq!((f.status, f.error.as_str()), (Status::InternalServerError, "encode: bad"));
}
