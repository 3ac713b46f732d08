use nichy::layout::{TypeLayout, TypeLayoutKind};
use nichy::serve::{
    bad_request, classify, classify_infra, request_line, respond, InfraReason, WorkerResponse,
};

#[test]
fn classify_metadata_stub_is_infra() {
    let s = "error: only metadata stub found for `rlib` dependency `core` please provide path to the corresponding .rmeta file";
    assert_eq!(classify_infra(s), Some(InfraReason::MetadataStub));
}

#[test]
fn classify_missing_std_is_infra() {
    let s = "error[E0463]: can't find crate for `std`";
    assert_eq!(classify_infra(s), Some(InfraReason::MissingStd));
}

#[test]
fn classify_rmeta_mmap_is_infra() {
    let s = "error: failed to mmap rmeta metadata: '/path/libstd.rmeta'";
    assert_eq!(classify_infra(s), Some(InfraReason::RmetaMmapFailed));
}

#[test]
fn classify_e0786_is_infra() {
    let s = "error[E0786]: found invalid metadata files for crate `std`";
    assert_eq!(classify_infra(s), Some(InfraReason::InvalidMetadata));
}

#[test]
fn classify_ice_is_infra() {
    let s = "error: internal compiler error: query stack is empty";
    assert_eq!(classify_infra(s), Some(InfraReason::Ice));
}

#[test]
fn classify_user_syntax_error_is_not_infra() {
    let s = "error: expected one of `,`, `:`, or `}`, found `;`";
    assert_eq!(classify_infra(s), None);
}

#[test]
fn classify_unknown_ident_is_not_infra() {
    let s = "error[E0412]: cannot find type `NotAType` in this scope";
    assert_eq!(classify_infra(s), None);
}

#[test]
fn classify_helper_wraps_into_response() {
    match classify("error: only metadata stub found for blah".into()) {
        WorkerResponse::InfraError { reason, .. } => {
            assert_eq!(reason, InfraReason::MetadataStub);
        }
        _ => panic!("expected InfraError"),
    }
    match classify("error: expected `;`".into()) {
        WorkerResponse::UserError { .. } => {}
        _ => panic!("expected UserError"),
    }
}

#[test]
fn every_reason_has_a_pattern() {
    assert_eq!(classify_infra("found invalid metadata files"), Some(InfraReason::InvalidMetadata));
    assert_eq!(classify_infra("can't find crate for `core`"), Some(InfraReason::MissingCore));
    assert_eq!(classify_infra("can't find crate for `alloc`"), Some(InfraReason::MissingAlloc));
    assert_eq!(classify_infra("thread 'rustc' panicked at x"), Some(InfraReason::Ice));
    assert_eq!(classify_infra("the compiler unexpectedly panicked"), Some(InfraReason::Ice));
    // The first pattern in the list decides.
    assert_eq!(
        classify_infra("internal compiler error: can't find crate for `std`"),
        Some(InfraReason::MissingStd)
    );
    assert_eq!(classify_infra(""), None);
}

#[test]
fn request_lines_are_trimmed_and_blank_ones_skipped() {
    assert_eq!(request_line("{}\r\n"), Some("{}".into()));
    assert_eq!(request_line(" x \n\n"), Some(" x ".into()));
    assert_eq!(request_line("\n"), None);
    assert_eq!(request_line(""), None);
    assert_eq!(request_line(" "), Some(" ".into()));
}

fn message(r: WorkerResponse) -> String {
    match r {
        WorkerResponse::UserError { message } => message,
        _ => panic!("expected UserError"),
    }
}

#[test]
fn respond_prefers_what_the_compiler_said() {
    assert_eq!(
        message(respond(Ok(vec![]), " \n".into())),
        "no types analyzed"
    );
    assert_eq!(message(respond(Ok(vec![]), "said".into())), "said");
    assert_eq!(message(respond(Err("failed".into()), "".into())), "failed");
    assert_eq!(message(respond(Err("failed".into()), "said".into())), "said");
    match respond(Err("failed".into()), "error: internal compiler error: x".into()) {
        WorkerResponse::InfraError { reason, message } => {
            assert_eq!(reason, InfraReason::Ice);
            assert_eq!(message, "error: internal compiler error: x");
        }
        _ => panic!("expected InfraError"),
    }
    let layout = TypeLayout {
        name: "X".into(),
        size: 1,
        alignment: 1,
        hover_info: None,
        largest_niche: None,
        kind: TypeLayoutKind::Opaque,
    };
    match respond(Ok(vec![layout]), "warning".into()) {
        WorkerResponse::Analyzed { layouts } => assert_eq!(layouts[0].name, "X"),
        _ => panic!("expected layouts"),
    }
    assert_eq!(message(bad_request("eof")), "bad request: eof");
}
