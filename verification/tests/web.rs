use nichy::config::SiteConfig;
use nichy::guard::{judge, reject_forbidden_macros, scan_tokens, Token};
use nichy::input::{normalize_content, normalize_target, ALLOWED_TARGETS, DEFAULT_TARGET};
use nichy::page::{footer_html, html_escape, render_page};

const RUSTC: &str = "rustc 1.90.0";
const HASH: &str = "abc1234";

#[test]
fn forbidden_rejects_bare_include() {
    assert!(reject_forbidden_macros("include!(\"x\")").is_err());
}

#[test]
fn forbidden_rejects_with_whitespace_before_bang() {
    assert!(reject_forbidden_macros("include !(\"x\")").is_err());
    assert!(reject_forbidden_macros("global_asm ! (\"\")").is_err());
}

#[test]
fn forbidden_rejects_each_macro() {
    for name in [
        "include",
        "include_str",
        "include_bytes",
        "env",
        "option_env",
        "asm",
        "global_asm",
        "naked_asm",
        "concat_idents",
    ] {
        let code = format!("{name}!()");
        assert!(
            reject_forbidden_macros(&code).is_err(),
            "expected `{code}` to be rejected",
        );
    }
}

#[test]
fn forbidden_allows_ident_with_same_name() {
    // No `!` after the identifier -> not a macro invocation.
    assert!(reject_forbidden_macros("let include = 1;").is_ok());
    assert!(reject_forbidden_macros("fn env(x: u8) {}").is_ok());
    assert!(reject_forbidden_macros("struct Asm;").is_ok());
}

#[test]
fn forbidden_ignores_line_comments() {
    assert!(reject_forbidden_macros("// include!(\"x\")\n").is_ok());
}

#[test]
fn forbidden_ignores_block_comments() {
    assert!(reject_forbidden_macros("/* include!(\"x\") */").is_ok());
}

#[test]
fn forbidden_ignores_nested_block_comments() {
    assert!(reject_forbidden_macros("/* /* include!(\"x\") */ still in */").is_ok());
}

#[test]
fn forbidden_ignores_inside_string_literal() {
    assert!(reject_forbidden_macros("let s = \"include!(\\\"x\\\")\";").is_ok());
}

#[test]
fn forbidden_allows_safe_code() {
    let code = "
        struct Foo { x: u32 }
        enum Bar { A, B }
        fn add(a: u32, b: u32) -> u32 { a + b }
    ";
    assert!(reject_forbidden_macros(code).is_ok());
}

#[test]
fn forbidden_rejects_through_raw_string() {
    let code = "let _ = r#\"a\"b\"#;\ninclude!(\"x\");";
    assert!(reject_forbidden_macros(code).is_err());
}

#[test]
fn forbidden_rejects_through_char_literal_quote() {
    let code = "let _ = '\"';\ninclude!(\"x\");";
    assert!(reject_forbidden_macros(code).is_err());
}

#[test]
fn forbidden_rejects_through_byte_string() {
    let code = "let _ = b\"a\\\"b\";\nasm!(\"\");";
    assert!(reject_forbidden_macros(code).is_err());
}

#[test]
fn forbidden_rejects_use_as_alias() {
    assert!(reject_forbidden_macros("use std::include as foo;").is_err());
    assert!(reject_forbidden_macros("use core::env as e;").is_err());
}

#[test]
fn forbidden_rejects_in_use_tree() {
    assert!(reject_forbidden_macros("use std::{include};").is_err());
    assert!(
        reject_forbidden_macros("use std::{collections::HashMap, include_str, sync::Arc};")
            .is_err()
    );
}

#[test]
fn forbidden_rejects_inside_macro_rules_body() {
    let code = "macro_rules! sneak { () => { include!(\"/etc/passwd\") } }";
    assert!(reject_forbidden_macros(code).is_err());
}

#[test]
fn forbidden_allows_normal_use_statements() {
    assert!(reject_forbidden_macros("use std::collections::HashMap;").is_ok());
    assert!(reject_forbidden_macros("use std::sync::{Arc, Mutex};").is_ok());
}

#[test]
fn forbidden_allows_method_or_field_named_like_macro() {
    assert!(reject_forbidden_macros("fn main() { let x = S; x.include(1); }").is_ok());
}

#[test]
fn forbidden_rejects_unparseable_input() {
    assert!(reject_forbidden_macros("let x = \"unterminated").is_err());
}

#[test]
fn html_escape_replaces_all_entities() {
    assert_eq!(html_escape("&<>\"'"), "&amp;&lt;&gt;&quot;&#x27;");
}

#[test]
fn html_escape_passes_through_plain_text() {
    assert_eq!(html_escape("hello world"), "hello world");
    assert_eq!(html_escape(""), "");
}

#[test]
fn html_escape_handles_mixed() {
    assert_eq!(
        html_escape("<a href=\"x\">it's & ok</a>"),
        "&lt;a href=&quot;x&quot;&gt;it&#x27;s &amp; ok&lt;/a&gt;",
    );
}

#[test]
fn html_escape_goes_piece_by_piece_and_can_be_undone() {
    for (a, b) in [("<&", "amp;>"), ("&lt;", "'"), ("é\"", ""), ("", "&&#x27;")] {
        let whole = format!("{a}{b}");
        let escaped = html_escape(&whole);
        assert_eq!(escaped, html_escape(a) + &html_escape(b));
        let undone = escaped
            .replace("&lt;", "<")
            .replace("&gt;", ">")
            .replace("&quot;", "\"")
            .replace("&#x27;", "'")
            .replace("&amp;", "&");
        assert_eq!(undone, whole);
    }
}

#[test]
fn footer_html_links_nichy_to_crates_io() {
    let cfg = SiteConfig::default();
    let footer = footer_html(&cfg, RUSTC, HASH);
    assert!(footer.contains("<a href=\"https://crates.io/crates/nichy\">nichy</a>"));
}

#[test]
fn footer_html_links_rustc_hash_to_github_when_present() {
    let cfg = SiteConfig::default();
    let footer = footer_html(&cfg, RUSTC, HASH);
    let hash = HASH;
    if !hash.is_empty() {
        assert!(footer.contains(&format!(
            "<a href=\"https://github.com/rust-lang/rust/tree/{hash}\">{hash}</a>"
        )));
    }
}

#[test]
fn footer_html_includes_author_when_set() {
    let cfg = SiteConfig {
        author: Some("alice".into()),
        ..Default::default()
    };
    let footer = footer_html(&cfg, RUSTC, HASH);
    assert!(footer.contains("by alice"));
}

#[test]
fn footer_html_omits_author_when_unset() {
    let cfg = SiteConfig::default();
    let footer = footer_html(&cfg, RUSTC, HASH);
    assert!(!footer.contains(" by "));
}

#[test]
fn footer_html_links_author_when_author_url_set() {
    let cfg = SiteConfig {
        author: Some("alice".into()),
        author_url: Some("https://example.com/alice".into()),
        ..Default::default()
    };
    let footer = footer_html(&cfg, RUSTC, HASH);
    assert!(footer.contains("by <a href=\"https://example.com/alice\">alice</a>"));
}

#[test]
fn footer_html_escapes_author_url() {
    let cfg = SiteConfig {
        author: Some("alice".into()),
        author_url: Some("https://example.com/?q=\"x\"".into()),
        ..Default::default()
    };
    let footer = footer_html(&cfg, RUSTC, HASH);
    assert!(footer.contains("href=\"https://example.com/?q=&quot;x&quot;\""));
}

#[test]
fn normalize_target_defaults_when_empty_or_missing() {
    assert_eq!(normalize_target(None), Ok(DEFAULT_TARGET));
    assert_eq!(normalize_target(Some("")), Ok(DEFAULT_TARGET));
    assert_eq!(normalize_target(Some("   ")), Ok(DEFAULT_TARGET));
}

#[test]
fn normalize_target_accepts_each_allowed_triple() {
    for t in ALLOWED_TARGETS.iter() {
        assert_eq!(normalize_target(Some(t)), Ok(*t));
    }
}

#[test]
fn normalize_target_rejects_unknown() {
    assert!(normalize_target(Some("x86_64-apple-darwin")).is_err());
    assert!(normalize_target(Some("../etc/passwd")).is_err());
    assert!(normalize_target(Some("x86")).is_err());
}

#[test]
fn normalize_content_strips_trailing_horizontal_whitespace() {
    assert_eq!(normalize_content("a  \nb\t \nc"), "a\nb\nc");
    assert_eq!(normalize_content("a"), "a");
    assert_eq!(normalize_content("a\n"), "a\n");
    assert_eq!(normalize_content(""), "");
}

#[test]
fn normalize_content_preserves_leading_indent_and_blank_lines() {
    assert_eq!(
        normalize_content("    fn x() {  \n        y();  \n    }  "),
        "    fn x() {\n        y();\n    }",
    );
    assert_eq!(normalize_content("a\n\nb"), "a\n\nb");
    assert_eq!(normalize_content("\n  \n  a"), "\n\n  a");
}

#[test]
fn forbidden_errors_say_what_is_wrong() {
    assert_eq!(
        reject_forbidden_macros("fn f() { env!(\"X\"); }"),
        Err("macro `env!` is not allowed".into())
    );
    assert_eq!(
        reject_forbidden_macros("use std::{asm};"),
        Err("identifier `asm` is not allowed in a `use` statement".into())
    );
    assert_eq!(
        reject_forbidden_macros("}"),
        Err("could not tokenize input: cannot parse string into token stream".into())
    );
    assert_eq!(reject_forbidden_macros("struct X;"), Ok(()));
}

#[test]
fn forbidden_use_lasts_to_the_semicolon() {
    // The `use` ends at its semicolon, inside a group or not.
    assert!(reject_forbidden_macros("use a::b; fn env() {}").is_ok());
    assert!(reject_forbidden_macros("mod m { use a::b } fn env() {}").is_err());
    assert!(reject_forbidden_macros("mod m { use a::b; } fn env() {}").is_ok());
    assert!(reject_forbidden_macros("fn f() { x.env != (1) }").is_ok());
    assert!(reject_forbidden_macros("env ! x").is_ok());
}

#[test]
fn scanning_tokens_finds_the_first_offence() {
    let tokens = vec![
        Token::Ident("use".into()),
        Token::Ident("env".into()),
        Token::Punct(';'),
    ];
    assert_eq!(
        scan_tokens(&tokens, false),
        Err("identifier `env` is not allowed in a `use` statement".into())
    );
    let tokens = vec![
        Token::Open,
        Token::Ident("asm".into()),
        Token::Punct('!'),
        Token::Open,
        Token::Literal,
        Token::Close,
        Token::Close,
    ];
    assert_eq!(
        scan_tokens(&tokens, false),
        Err("macro `asm!` is not allowed".into())
    );
    assert_eq!(scan_tokens(&vec![Token::Literal], true), Ok(true));
    assert_eq!(scan_tokens(&vec![Token::Punct(';')], true), Ok(false));
    assert_eq!(
        judge(Err("broken".into())),
        Err("could not tokenize input: broken".into())
    );
}

#[test]
fn html_escape_keeps_texts_apart() {
    assert_ne!(html_escape("&lt;"), html_escape("<"));
    assert_eq!(html_escape("&lt;"), "&amp;lt;");
}

#[test]
fn footer_html_is_exact() {
    let cfg = SiteConfig {
        author: Some("<bob>".into()),
        ..Default::default()
    };
    assert_eq!(
        footer_html(&cfg, "rustc 1", ""),
        "<a href=\"https://crates.io/crates/nichy\">nichy</a> 0.1.0 · rustc 1 · by &lt;bob&gt;"
    );
}

#[test]
fn render_page_fills_every_place() {
    let cfg = SiteConfig {
        site_name: Some("a & b".into()),
        ..Default::default()
    };
    assert_eq!(
        render_page("<{{SITE_NAME}}|{{SITE_NAME}}>", &cfg, RUSTC, HASH),
        "<a &amp; b|a &amp; b>"
    );
    assert_eq!(
        render_page("{{SITE_NAME}}", &SiteConfig::default(), RUSTC, HASH),
        "nichy"
    );
    assert_eq!(
        render_page("[{{FOOTER}}]", &cfg, RUSTC, HASH),
        format!("[{}]", footer_html(&cfg, RUSTC, HASH))
    );
    assert_eq!(render_page("{{OTHER}} {{SITE", &cfg, RUSTC, HASH), "{{OTHER}} {{SITE");
}

#[test]
fn default_configuration() {
    let cfg = SiteConfig::default();
    assert_eq!(cfg.listen, vec!["127.0.0.1:3873".to_string()]);
    assert_eq!(cfg.db_path, "nichy-web.db");
    assert_eq!(cfg.service_workers, 4);
    assert_eq!(cfg.max_jobs_per_worker, 500);
    assert_eq!(cfg.cache_capacity, 4096);
}

#[test]
fn normalize_target_trims_and_settles() {
    assert_eq!(
        normalize_target(Some(" wasm32-unknown-unknown\n")),
        Ok("wasm32-unknown-unknown")
    );
    assert_eq!(normalize_target(Some("x86")), Err("invalid target"));
}

#[test]
fn normalize_content_is_idempotent() {
    for s in ["a  \n\t b \t\n\n", "  ", "\r \n", "a\u{a0} "] {
        let once = normalize_content(s);
        assert_eq!(normalize_content(&once), once);
        assert_eq!(once.split('\n').count(), s.split('\n').count());
    }
    assert_eq!(normalize_content("a\u{a0} "), "a\u{a0}");
}
