use nichy::source::{
    add_static_lifetime, analyze_file, analyze_snippet, analyze_type_expr, count_inner_attr_lines,
    split_inner_attrs, PREAMBLE,
};

#[test]
fn bare_ref() {
    assert_eq!(add_static_lifetime("&u64"), "&'static u64");
}

#[test]
fn bare_ref_mut() {
    assert_eq!(add_static_lifetime("&mut u64"), "&'static mut u64");
}

#[test]
fn already_static() {
    assert_eq!(add_static_lifetime("&'static u64"), "&'static u64");
}

#[test]
fn already_named_lifetime() {
    assert_eq!(add_static_lifetime("&'a u64"), "&'a u64");
}

#[test]
fn nested_refs() {
    assert_eq!(add_static_lifetime("Option<&u64>"), "Option<&'static u64>",);
}

#[test]
fn multiple_refs() {
    assert_eq!(
        add_static_lifetime("(&u32, &str)"),
        "(&'static u32, &'static str)",
    );
}

#[test]
fn ref_with_space() {
    assert_eq!(add_static_lifetime("& u64"), "&'static u64");
}

#[test]
fn no_refs() {
    assert_eq!(add_static_lifetime("u64"), "u64");
}

#[test]
fn mixed_lifetimes() {
    assert_eq!(
        add_static_lifetime("(&'a u32, &u64)"),
        "(&'a u32, &'static u64)",
    );
}

#[test]
fn split_extracts_feature() {
    let code = "#![feature(never_type)]\n\nstruct Foo;\n";
    let (attrs, body) = split_inner_attrs(code);
    assert_eq!(attrs, "#![feature(never_type)]\n");
    assert_eq!(body, "\nstruct Foo;\n");
}

#[test]
fn split_multiple_attrs() {
    let code = "#![feature(never_type)]\n#![feature(generic_const_exprs)]\n\nstruct Foo;\n";
    let (attrs, body) = split_inner_attrs(code);
    assert_eq!(
        attrs,
        "#![feature(never_type)]\n#![feature(generic_const_exprs)]\n"
    );
    assert_eq!(body, "\nstruct Foo;\n");
}

#[test]
fn split_no_attrs() {
    let code = "struct Foo;\n";
    let (attrs, body) = split_inner_attrs(code);
    assert_eq!(attrs, "");
    assert_eq!(body, "struct Foo;\n");
}

#[test]
fn split_comment_between_attrs() {
    let code = "#![feature(never_type)]\n// a comment\n#![allow(unused)]\nstruct Foo;\n";
    let (attrs, body) = split_inner_attrs(code);
    assert_eq!(attrs, "#![feature(never_type)]\n#![allow(unused)]\n");
    assert_eq!(body, "// a comment\nstruct Foo;\n");
}

#[test]
fn split_stops_at_item() {
    let code = "#![feature(never_type)]\nstruct Foo;\n#![allow(unused)]\n";
    let (attrs, body) = split_inner_attrs(code);
    assert_eq!(attrs, "#![feature(never_type)]\n");
    assert_eq!(body, "struct Foo;\n#![allow(unused)]\n");
}

#[test]
fn count_matches_split() {
    let cases = [
        "#![feature(never_type)]\n\nstruct Foo;\n",
        "#![a]\n#![b]\n\nstruct Foo;\n",
        "struct Foo;\n",
        "#![a]\n// c\n#![b]\nstruct Foo;\n",
        "#![a]\nstruct Foo;\n#![b]\n",
    ];
    for code in cases {
        let (attrs, _) = split_inner_attrs(code);
        assert_eq!(
            count_inner_attr_lines(code),
            attrs.lines().count(),
            "case: {code:?}"
        );
    }
}

#[test]
fn snippet_source_keeps_attributes_on_top() {
    assert_eq!(
        analyze_snippet("#![a]\n// c\nstruct X;"),
        format!("#![a]\n{PREAMBLE}// c\nstruct X;\n\n")
    );
    assert_eq!(PREAMBLE.lines().count(), 10);
}

#[test]
fn type_expressions_become_probes() {
    assert_eq!(
        analyze_type_expr("Option<&u64>"),
        format!("{PREAMBLE}struct _Probe(Option<&'static u64>);\n\n")
    );
}

#[test]
fn compiler_arguments() {
    let base = [
        "nichy-rustc",
        "probe.rs",
        "--edition=2024",
        "--crate-type=lib",
        "-Awarnings",
    ];
    assert_eq!(analyze_file("probe.rs", None, None, None), base);
    let all = analyze_file("probe.rs", Some("/a"), Some("/b"), Some("t"));
    assert_eq!(all[5..], ["--target", "t", "--sysroot", "/a"]);
    let env = analyze_file("probe.rs", None, Some("/b"), None);
    assert_eq!(env[5..], ["--sysroot", "/b"]);
}

#[test]
fn lifetimes_are_added_once() {
    for ty in ["&u8", "& & u8", "&'a &mut [&str]", "&&'static u8", "&"] {
        let once = add_static_lifetime(ty);
        assert_eq!(add_static_lifetime(&once), once);
    }
    assert_eq!(add_static_lifetime("&"), "&'static ");
    assert_eq!(add_static_lifetime("&&u8"), "&'static &'static u8");
}

#[test]
fn split_handles_carriage_returns() {
    let (attrs, body) = split_inner_attrs("#![a]\r\nstruct X;\r\n");
    assert_eq!(attrs, "#![a]\n");
    assert_eq!(body, "struct X;\n");
    let (attrs, body) = split_inner_attrs("  #![a]");
    assert_eq!(attrs, "  #![a]\n");
    assert_eq!(body, "");
}
