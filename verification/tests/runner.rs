use nichy::runner::{
    adjust_line_num, adjust_location, clean_rustc_error, job_args, parse_gutter_line, parse_output,
    parse_source_line, run_args, run_failure, Job, RunFault,
};
use nichy::source::{analyze_snippet, count_inner_attr_lines, PREAMBLE};
use nichy::status::Status;

#[test]
fn adjust_subtracts_preamble_from_user_line() {
    // Preamble is 10 lines; an error on line 15 of the wrapped file
    // is line 5 of the user's input.
    assert_eq!(
        adjust_location("probe.rs:15:5: error", 10, 0),
        "line 5:5: error",
    );
}

#[test]
fn adjust_keeps_inner_attr_lines_unchanged() {
    // Inner attrs stay above the preamble in the wrapper, so their
    // line numbers match the user's input directly.
    assert_eq!(
        adjust_location("probe.rs:2:1: error", 10, 3),
        "line 2:1: error",
    );
}

#[test]
fn adjust_saturates_when_line_below_preamble() {
    // Shouldn't underflow on degenerate input.
    assert_eq!(
        adjust_location("probe.rs:3:1: error", 10, 0),
        "line 0:1: error",
    );
}

#[test]
fn adjust_returns_input_when_no_rs_suffix() {
    assert_eq!(adjust_location("not a location", 10, 0), "not a location",);
}

#[test]
fn adjust_returns_input_when_line_unparseable() {
    assert_eq!(
        adjust_location("probe.rs:abc:1: error", 10, 0),
        "probe.rs:abc:1: error",
    );
}

#[test]
fn clean_drops_aborting_and_for_more_info() {
    let raw = "error[E0001]: real problem\n  --> probe.rs:15:5\nerror: aborting due to 1 previous error\nFor more information about this error, try `rustc --explain E0001`.\n";
    let cleaned = clean_rustc_error(raw, 0);
    assert!(cleaned.contains("real problem"));
    assert!(!cleaned.contains("aborting"));
    assert!(!cleaned.contains("For more information"));
}

#[test]
fn clean_rewrites_location_pointer() {
    let preamble = PREAMBLE.lines().count();
    let raw = format!("error[E0001]: oops\n  --> probe.rs:{}:5\n", preamble + 3);
    let cleaned = clean_rustc_error(&raw, 0);
    assert!(cleaned.contains("--> line 3:5"), "got: {cleaned}");
}

#[test]
fn clean_rewrites_source_context_line_numbers() {
    let preamble = PREAMBLE.lines().count();
    let raw = format!(
        "error: oops\n  --> probe.rs:{user_line}:1\n   |\n{wrapped_a} | z\n   |  - unexpected\n{wrapped_b} | type Ref;\n   | ^^^^ unexpected\n",
        user_line = preamble + 7,
        wrapped_a = preamble + 6,
        wrapped_b = preamble + 7,
    );
    let cleaned = clean_rustc_error(&raw, 0);
    assert!(cleaned.contains("6 | z"), "got: {cleaned}");
    assert!(cleaned.contains("7 | type Ref;"), "got: {cleaned}");
    assert!(
        !cleaned.contains(&format!("{} | z", preamble + 6)),
        "wrapped line number leaked through: {cleaned}",
    );
}

#[test]
fn clean_drops_rustc_analysis_failed_marker() {
    let raw =
        "error: rustc analysis failed (compilation errors?)\nerror[E0001]: real problem\n";
    let cleaned = clean_rustc_error(raw, 0);
    assert!(cleaned.contains("real problem"));
    assert!(!cleaned.contains("rustc analysis failed"));
}

#[test]
fn clean_is_exact() {
    let pre = PREAMBLE.lines().count();
    let raw = format!(
        "\n\nerror: oops\n  --> probe.rs:{}:1\n   |\n{} | a\n...\n{} | b\n   | ^\n\n\n= note\nerror: aborting due to 1 previous error\n\n",
        pre + 3,
        pre + 3,
        pre + 12,
    );
    assert_eq!(
        clean_rustc_error(&raw, 0),
        "error: oops\n  --> line 3:1\n   |\n 3 | a\n...\n12 | b\n   | ^\n\n= note"
    );
}

#[test]
fn clean_keeps_numbers_of_attribute_lines() {
    assert_eq!(
        clean_rustc_error("error: x\n --> probe.rs:1:4\n  |\n1 | #![a]\n", 1),
        "error: x\n --> line 1:4\n  |\n1 | #![a]"
    );
}

#[test]
fn clean_leaves_other_lines_alone() {
    assert_eq!(clean_rustc_error("", 0), "");
    assert_eq!(clean_rustc_error("12 monkeys | x", 0), "12 monkeys | x");
    assert_eq!(
        clean_rustc_error("99999999999999999999999 | x", 0),
        "99999999999999999999999 | x"
    );
}

#[test]
fn line_numbers_lead_back_to_the_snippet() {
    let code = "#![a]\n#![b]\nstruct X;\n\nstruct Y;";
    let source = analyze_snippet(code);
    let wrapped: Vec<&str> = source.lines().collect();
    let attrs = count_inner_attr_lines(code);
    let pre = PREAMBLE.lines().count();
    for (i, line) in code.lines().enumerate() {
        let n = i + 1;
        let at = if n <= attrs { n } else { n + pre };
        assert_eq!(wrapped[at - 1], line);
        assert_eq!(adjust_line_num(at, pre, attrs), n);
    }
}

#[test]
fn source_lines_are_taken_apart() {
    let line: Vec<char> = "  12  | fn x() |".chars().collect();
    let (num, rest) = parse_source_line(&line).unwrap();
    assert_eq!(num.iter().collect::<String>(), "12");
    assert_eq!(rest.iter().collect::<String>(), " fn x() |");
    let gutter: Vec<char> = "   | ^^".chars().collect();
    assert!(parse_source_line(&gutter).is_none());
    let rest = parse_gutter_line(&gutter).unwrap();
    assert_eq!(rest.iter().collect::<String>(), " ^^");
    assert!(parse_gutter_line(&line).is_none());
    assert!(parse_source_line(&['1', '|']).is_none());
}

#[test]
fn arguments_of_a_run() {
    assert_eq!(
        run_args(&vec!["-t".into(), "u8".into()], Some("wasm"), "2"),
        ["--json", "--no-color", "--timeout", "2", "-t", "u8", "--target", "wasm"]
    );
    assert_eq!(
        run_args(&vec![], None, "0.5"),
        ["--json", "--no-color", "--timeout", "0.5"]
    );
}

#[test]
fn output_of_a_run() {
    let raw = format!(
        "error: x\n --> probe.rs:{}:1\nerror: aborting due to 1 previous error\n",
        PREAMBLE.lines().count() + 2
    );
    let failed = parse_output(false, &raw, Ok(vec![]), 0).err().unwrap();
    assert_eq!(
        (failed.status, failed.error.as_str()),
        (Status::UnprocessableEntity, "error: x\n--> line 2:1")
    );
    let attr = "error: x\n --> probe.rs:1:4\n  |\n1 | #![a]\n";
    let failed = parse_output(false, attr, Err("eof".into()), 1).err().unwrap();
    assert_eq!(failed.error, "error: x\n --> line 1:4\n  |\n1 | #![a]");
    let unread = parse_output(true, "raw", Err("eof".into()), 0).err().unwrap();
    assert_eq!(
        (unread.status, unread.error.as_str()),
        (Status::BadGateway, "parse nichy output: eof")
    );
    assert!(parse_output(true, "raw", Ok(vec![]), 0).ok().unwrap().is_empty());
}

#[test]
fn faults_of_a_run() {
    let says = |f: RunFault| {
        let f = run_failure(f);
        (f.status, f.error)
    };
    assert_eq!(
        says(RunFault::Spawn { bin: "nichy".into(), error: "gone".into() }),
        (Status::BadGateway, "failed to spawn nichy (nichy): gone".into())
    );
    assert_eq!(says(RunFault::Stdin("x".into())), (Status::BadGateway, "write stdin: x".into()));
    assert_eq!(says(RunFault::Wait("x".into())), (Status::BadGateway, "wait: x".into()));
    assert_eq!(
        says(RunFault::TimedOut("2".into())),
        (Status::GatewayTimeout, "analysis exceeded 2s timeout".into())
    );
}

#[test]
fn jobs_have_arguments_or_input() {
    assert_eq!(job_args(Job::TypeExpr("u8")), (vec!["-t".to_string(), "u8".to_string()], None));
    assert_eq!(job_args(Job::Snippet("struct X;")), (vec![], Some("struct X;")));
}
