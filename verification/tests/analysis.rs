use nichy::analysis::{
    accept, analyze, conclude, decide, finish, from_cache, load, shorten, shortened, snippet,
    AnalyzeRequest, Begun, Question, ShortenRequest,
};
use nichy::hash::content_hash;
use nichy::layout::{TypeLayout, TypeLayoutKind};
use nichy::runner::{parse_output, Job};
use nichy::snippets::{FoundRow, PutStep, Snippet, SnippetStore};
use nichy::source::PREAMBLE;
use nichy::site::{kept, looked_up};
use nichy::stats::{Counter, Outcome, Stats, Update};
use nichy::status::{Failure, Status};

const LINUX: &str = "x86_64-unknown-linux-gnu";

fn request(code: Option<&str>, type_expr: Option<&str>, target: Option<&str>) -> AnalyzeRequest {
    AnalyzeRequest {
        code: code.map(String::from),
        type_expr: type_expr.map(String::from),
        target: target.map(String::from),
    }
}

fn asked(b: Begun) -> Question {
    match b {
        Begun::Asked(q) => q,
        Begun::Refused(f, _) => panic!("refused: {}", f.error),
    }
}

fn refused(b: Begun) -> (Status, String, Outcome<'static>) {
    match b {
        Begun::Refused(f, o) => (f.status, f.error, o),
        Begun::Asked(_) => panic!("asked"),
    }
}

#[test]
fn a_type_goes_before_code() {
    let q = asked(analyze(&request(Some("struct X;"), Some("u8 "), None)));
    assert!(q.is_type_expr);
    assert_eq!(q.input, "u8");
    assert_eq!(q.target, LINUX);
    assert_eq!(q.key.hash, content_hash(true, "u8", LINUX));
    assert_eq!(q.inner_attr_lines, 0);
    assert!(matches!(q.job(), Job::TypeExpr("u8")));
}

#[test]
fn code_is_normalized() {
    let q = asked(analyze(&request(
        Some("#![a]  \nstruct X;\t"),
        None,
        Some(" wasm32-unknown-unknown "),
    )));
    assert!(!q.is_type_expr);
    assert_eq!(q.input, "#![a]\nstruct X;");
    assert_eq!(q.target, "wasm32-unknown-unknown");
    assert_eq!(q.inner_attr_lines, 1);
    assert_eq!(
        q.key.hash,
        content_hash(false, "#![a]\nstruct X;", "wasm32-unknown-unknown")
    );
    assert!(matches!(q.job(), Job::Snippet("#![a]\nstruct X;")));
}

#[test]
fn requests_in_equal_forms_share_a_key() {
    let a = asked(analyze(&request(Some("struct X; \n"), None, None)));
    let b = asked(analyze(&request(Some("struct X;\n"), None, Some(LINUX))));
    assert_eq!(a.key.hash, b.key.hash);
}

#[test]
fn bad_requests_are_refused() {
    let (status, error, outcome) = refused(analyze(&request(Some("env!()"), None, Some("x86"))));
    assert_eq!((status, error.as_str()), (Status::UnprocessableEntity, "invalid target"));
    assert!(matches!(outcome, Outcome::BadRequest));
    let (status, error, outcome) = refused(analyze(&request(None, None, None)));
    assert_eq!(status, Status::UnprocessableEntity);
    assert_eq!(error, "request must include `code` or `type`");
    assert!(matches!(outcome, Outcome::BadRequest));
}

#[test]
fn forbidden_requests_are_refused() {
    let (status, error, outcome) =
        refused(analyze(&request(Some("env!(\"A\")"), Some("[u8; asm!()]"), None)));
    assert_eq!((status, error.as_str()), (Status::Forbidden, "macro `env!` is not allowed"));
    assert!(matches!(outcome, Outcome::Forbidden { is_type_expr: true }));
    let (_, error, _) = refused(analyze(&request(Some("struct X;"), Some("[u8; asm!()]"), None)));
    assert_eq!(error, "macro `asm!` is not allowed");
    let (_, _, outcome) = refused(analyze(&request(Some("\""), None, None)));
    assert!(matches!(outcome, Outcome::Forbidden { is_type_expr: false }));
}

#[test]
fn decisions_follow_what_is_rejected() {
    let b = decide(Some(LINUX), Some("c".into()), None, Some("why".into()));
    let (status, error, _) = refused(b);
    assert_eq!((status, error.as_str()), (Status::Forbidden, "why"));
    let q = asked(decide(Some(LINUX), Some("c".into()), None, None));
    assert_eq!(q.input, "c");
    let (_, error, _) = refused(decide(None, Some("c".into()), None, Some("why".into())));
    assert_eq!(error, "invalid target");
}

fn layout(name: &str) -> TypeLayout {
    TypeLayout {
        name: name.into(),
        size: 1,
        alignment: 1,
        hover_info: None,
        largest_niche: None,
        kind: TypeLayoutKind::Opaque,
    }
}

#[test]
fn answers_say_whether_they_were_kept() {
    let q = asked(analyze(&request(None, Some("u8"), None)));
    let (response, outcome) = from_cache(&q, vec![layout("a"), layout("b")]);
    assert!(response.cached);
    assert_eq!(response.types[1].name, "b");
    assert!(matches!(
        outcome,
        Outcome::Success { types_count: 2, target: Some(LINUX), is_type_expr: true }
    ));
    let (response, outcome) = finish(&q, Ok(vec![layout("a")]));
    assert!(!response.ok().unwrap().cached);
    assert!(matches!(outcome, Outcome::Success { types_count: 1, .. }));
}

#[test]
fn failed_analyses_are_presented_and_counted() {
    let q = asked(analyze(&request(Some("struct X"), None, None)));
    let raw = format!("error: x\n --> probe.rs:{}:1\n", PREAMBLE.lines().count() + 1);
    let (r, o) = finish(&q, Err(Failure { status: Status::UnprocessableEntity, error: raw.clone() }));
    assert_eq!(r.err().unwrap().error, "error: x\n--> line 1:1");
    assert!(matches!(o, Outcome::AnalysisError { is_type_expr: false }));
    let (r, o) = finish(&q, Err(Failure { status: Status::GatewayTimeout, error: raw.clone() }));
    let f = r.err().unwrap();
    assert_eq!((f.status, f.error), (Status::GatewayTimeout, raw));
    assert!(matches!(o, Outcome::Timeout { is_type_expr: false }));
    let (_, o) = finish(&q, Err(Failure { status: Status::BadGateway, error: "io".into() }));
    assert!(matches!(o, Outcome::InternalError { is_type_expr: false }));
}

fn to_shorten(code: Option<&str>, type_expr: Option<&str>, target: Option<&str>) -> ShortenRequest {
    ShortenRequest {
        code: code.map(String::from),
        type_expr: type_expr.map(String::from),
        target: target.map(String::from),
    }
}

#[test]
fn snippets_are_accepted_in_their_normal_form() {
    let s = shorten(&to_shorten(Some("struct X; \n"), None, None)).ok().unwrap();
    assert!(!s.is_type_expr);
    assert_eq!(s.content, "struct X;\n");
    assert_eq!(s.target, LINUX);
    let s = shorten(&to_shorten(Some("struct X;"), Some("u8"), Some(LINUX))).ok().unwrap();
    assert!(s.is_type_expr);
    assert_eq!(s.content, "u8");
}

#[test]
fn snippets_are_refused_in_order() {
    let fail = |r: ShortenRequest| {
        let f = shorten(&r).err().unwrap();
        (f.status, f.error)
    };
    assert_eq!(
        fail(to_shorten(None, None, Some("bad"))),
        (Status::UnprocessableEntity, "request must include `code` or `type`".into())
    );
    assert_eq!(
        fail(to_shorten(Some(" \t"), None, Some("bad"))),
        (Status::UnprocessableEntity, "snippet is empty".into())
    );
    assert_eq!(
        fail(to_shorten(Some("env!()"), None, Some("bad"))),
        (Status::Forbidden, "macro `env!` is not allowed".into())
    );
    assert_eq!(
        fail(to_shorten(Some("u8"), None, Some("bad"))),
        (Status::UnprocessableEntity, "invalid target".into())
    );
    let f = accept(&to_shorten(Some("u8"), None, None), Err("no".into())).err().unwrap();
    assert_eq!((f.status, f.error.as_str()), (Status::Forbidden, "no"));
}

#[test]
fn stored_snippets_are_answered() {
    let stats = Stats::new_at(0).0;
    let (r, update) = shortened(&stats, Some("abc".into()));
    assert_eq!(r.ok(), Some("abc".to_string()));
    assert_eq!(update, Some(Update { counter: Counter::ShortlinksCreated, value: 1 }));
    let (r, update) = shortened(&stats, None);
    assert_eq!(update, None);
    let f = r.err().unwrap();
    assert_eq!(
        (f.status, f.error.as_str()),
        (Status::InternalServerError, "failed to store snippet")
    );
    let snippet = |is_type_expr: bool, target: &str| Snippet {
        id: "abcdefgh".into(),
        is_type_expr,
        content: "u8".into(),
        target: target.into(),
    };
    let r = load(Some(snippet(true, ""))).ok().unwrap();
    assert_eq!((r.type_expr, r.code, r.target), (Some("u8".into()), None, None));
    let r = load(Some(snippet(false, LINUX))).ok().unwrap();
    assert_eq!(
        (r.type_expr, r.code, r.target),
        (None, Some("u8".into()), Some(LINUX.into()))
    );
    assert_eq!(load(None).err(), Some(Status::NotFound));
}

#[test]
fn a_stored_snippet_is_analyzed_as_it_was_stored() {
    let s = shorten(&to_shorten(Some("struct X;  "), None, None)).ok().unwrap();
    let r = load(Some(Snippet {
        id: "abcdefgh".into(),
        is_type_expr: s.is_type_expr,
        content: s.content.clone(),
        target: s.target.into(),
    }))
    .ok()
    .unwrap();
    let again = AnalyzeRequest { code: r.code, type_expr: r.type_expr, target: r.target };
    let q = asked(analyze(&again));
    assert_eq!(q.is_type_expr, s.is_type_expr);
    assert_eq!(q.input, s.content);
    assert_eq!(q.target, s.target);
}

#[test]
fn short_links_lead_back_to_what_was_stored() {
    let stats = Stats::new_at(0).0;
    let store = SnippetStore {};
    let s = shorten(&to_shorten(Some("struct Y;"), Some("Option<u8> \n"), None)).ok().unwrap();
    let row = match store.put(s.is_type_expr, &s.content, s.target).answer_at(None, 9) {
        PutStep::Free(row) => row,
        _ => panic!("the id is free"),
    };
    let found = FoundRow { is_type: row.is_type, content: row.content, target: row.target };
    let (r, update) = snippet(&stats, &row.id, store.get(&row.id, Some(found)));
    let r = r.ok().unwrap();
    assert_eq!(
        (r.type_expr, r.code, r.target),
        (Some("Option<u8>\n".into()), None, Some(LINUX.into()))
    );
    assert_eq!(update, Some(Update { counter: Counter::ShortlinksLoaded, value: 1 }));
}

#[test]
fn unknown_short_links_are_not_found() {
    let stats = Stats::new_at(0).0;
    let (r, update) = snippet(&stats, "abcdefgh", None);
    assert_eq!((r.err(), update), (Some(Status::NotFound), None));
    let found = Snippet {
        id: "ABC".into(),
        is_type_expr: true,
        content: "u8".into(),
        target: LINUX.into(),
    };
    let (r, update) = snippet(&stats, "ABC", Some(found));
    assert_eq!((r.err(), update), (Some(Status::NotFound), None));
}

#[test]
fn lookups_are_counted_as_hits_or_misses() {
    let stats = Stats::new_at(0).0;
    let q = asked(analyze(&request(None, Some("u8"), None)));
    let (update, found) = looked_up(&stats, &q, Some(vec![layout("a")]));
    assert_eq!(update, Update { counter: Counter::CacheHits, value: 1 });
    let (response, outcome) = found.unwrap();
    assert!(response.cached);
    assert_eq!(response.types[0].name, "a");
    assert!(matches!(
        outcome,
        Outcome::Success { types_count: 1, target: Some(LINUX), is_type_expr: true }
    ));
    let (update, found) = looked_up(&stats, &q, None);
    assert_eq!(update, Update { counter: Counter::CacheMisses, value: 1 });
    assert!(found.is_none());
}

#[test]
fn only_layouts_are_kept() {
    let q = asked(analyze(&request(None, Some("u8"), None)));
    let (answer, _) = finish(&q, Ok(vec![layout("a")]));
    assert_eq!(kept(&q, &answer).unwrap().hash, content_hash(true, "u8", LINUX));
    let failure = Failure { status: Status::GatewayTimeout, error: "late".into() };
    let (answer, _) = finish(&q, Err(failure));
    assert!(kept(&q, &answer).is_none());
}

#[test]
fn errors_are_put_in_the_users_terms_once() {
    let q = asked(analyze(&request(Some("#![a]\nstruct X"), None, None)));
    let pre = PREAMBLE.lines().count();
    let raw = format!("error: x\n --> probe.rs:{0}:1\n  |\n{0} | struct X\n", pre + 2);
    let shown = "error: x\n --> line 2:1\n  |\n2 | struct X";
    let failure = Failure { status: Status::UnprocessableEntity, error: raw.clone() };
    let (of_worker, o) = finish(&q, Err(failure));
    assert_eq!(of_worker.err().unwrap().error, shown);
    assert!(matches!(o, Outcome::AnalysisError { is_type_expr: false }));
    let result = parse_output(false, &raw, Err("eof".into()), q.inner_attr_lines);
    let (of_process, o) = conclude(&q, result);
    assert_eq!(of_process.err().unwrap().error, shown);
    assert!(matches!(o, Outcome::AnalysisError { is_type_expr: false }));
    let (answer, _) = conclude(&q, Ok(vec![layout("a")]));
    assert!(!answer.ok().unwrap().cached);
}
