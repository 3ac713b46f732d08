use nichy::cli::{
    has_explicit_color, parse_args, report, use_color, version_line, Command, InputSource, Options,
    EXAMPLES, HELP,
};
use nichy::layout::{TypeLayout, TypeLayoutKind};
use nichy::render::{render_footer, render_type_layout, Ctx};

fn strings(args: &[&str]) -> Vec<String> {
    args.iter().map(|a| a.to_string()).collect()
}

fn parse(args: &[&str]) -> Command {
    let mut all = vec!["nichy"];
    all.extend_from_slice(args);
    let seconds: Vec<bool> = all
        .iter()
        .map(|a| a.parse::<f64>().is_ok_and(|s| s > 0.0 && s.is_finite()))
        .collect();
    parse_args(&strings(&all), &seconds)
}

fn options(args: &[&str]) -> Options {
    match parse(args) {
        Command::Run(o) => o,
        _ => panic!("expected a run"),
    }
}

fn error(args: &[&str]) -> String {
    match parse(args) {
        Command::Fail(e) => e,
        _ => panic!("expected an error"),
    }
}

#[test]
fn arguments_are_read() {
    let o = options(&[]);
    assert!(!o.color && !o.json_output && o.show_footer && !o.verbose);
    assert!(o.input_source.is_none() && o.sysroot.is_none() && o.target.is_none());
    let o = options(&[
        "--color", "--json", "--no-footer", "-v", "--timeout", "1.5", "--sysroot", "/s",
        "--target", "t", "file.rs",
    ]);
    assert!(o.color && o.json_output && !o.show_footer && o.verbose);
    assert_eq!(o.timeout, Some("1.5".into()));
    assert_eq!(o.sysroot, Some("/s".into()));
    assert_eq!(o.target, Some("t".into()));
    assert!(matches!(o.input_source, Some(InputSource::File(f)) if f == "file.rs"));
    let o = options(&["file.rs", "-t", "--color", "--verbose"]);
    assert!(matches!(o.input_source, Some(InputSource::Inline(t)) if t == "--color"));
    assert!(!o.color && o.verbose);
    assert!(!options(&["--color", "--no-color"]).color);
}

#[test]
fn arguments_that_stop() {
    assert!(matches!(parse(&["--serve", "--bad"]), Command::Serve));
    assert!(matches!(parse(&["-V"]), Command::Version));
    assert!(matches!(parse(&["--version"]), Command::Version));
    assert!(matches!(parse(&["-h"]), Command::Help));
    assert!(matches!(parse(&["--json", "--help", "--bad"]), Command::Help));
}

#[test]
fn arguments_that_are_wrong() {
    assert_eq!(error(&["--timeout"]), "error: --timeout requires a number of seconds");
    for bad in ["0", "-1", "x", "inf", "nan"] {
        assert_eq!(
            error(&["--timeout", bad, "--help"]),
            "error: --timeout requires a positive number of seconds"
        );
    }
    assert_eq!(error(&["--sysroot"]), "error: --sysroot requires a path");
    assert_eq!(error(&["--target"]), "error: --target requires a triple");
    assert_eq!(error(&["-t"]), "error: -t requires a type expression");
    assert_eq!(error(&["--type"]), "error: -t requires a type expression");
    assert_eq!(error(&["--bad"]), "unknown argument: --bad");
    assert_eq!(error(&["-"]), "unknown argument: -");
}

#[test]
fn color_is_explicit_wherever_it_stands() {
    assert!(has_explicit_color(&strings(&["nichy", "-t", "--color"])));
    assert!(has_explicit_color(&strings(&["nichy", "--no-color"])));
    assert!(!has_explicit_color(&strings(&["nichy", "--colors"])));
    assert!(use_color(true, true, false));
    assert!(!use_color(false, true, true));
    assert!(use_color(false, false, true));
}

#[test]
fn versions_and_help() {
    assert_eq!(version_line("rustc 1", ""), "nichy 0.1.0 · rustc 1");
    assert_eq!(version_line("rustc 1", "ab"), "nichy 0.1.0 · rustc 1 (ab)");
    assert!(HELP.starts_with("nichy — Rust type layout"));
    assert!(HELP.contains("echo 'struct Foo { x: u32, y: bool }' | nichy\n"));
    assert!(EXAMPLES.starts_with("\nEXAMPLES:\n"));
}

#[test]
fn reports_are_renderings_and_a_footer() {
    let tl = |name: &str| TypeLayout {
        name: name.into(),
        size: 0,
        alignment: 1,
        hover_info: None,
        largest_niche: None,
        kind: TypeLayoutKind::Opaque,
    };
    let ctx = Ctx::new(false, false);
    let both = vec![tl("A"), tl("B")];
    let text = format!(
        "{}{}",
        render_type_layout(&both[0], &ctx),
        render_type_layout(&both[1], &ctx)
    );
    assert_eq!(report(&both, false, "r", "", &ctx), text);
    assert_eq!(
        report(&both, true, "r", "h", &ctx),
        format!("{text}{}", render_footer("r", "h", &ctx))
    );
}
