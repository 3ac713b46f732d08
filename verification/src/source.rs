//! The source that the compiler is given for a snippet or a type expression, and the
//! arguments it is called with.
use vstd::prelude::*;

use crate::text::{
    all_white, append_chars, begins, chars_of, concat_assoc, is_white_space,
    law_trimming_takes_white_space_off, lemma_first_index_is, lemma_lines_are_single,
    lemma_lines_concat, lemma_lines_unlines, lemma_unlines_ends, lines, one_line, split_lines,
    starts_with, str_opt_view, string_views, strip_cr, texts, trim, trimmed, unlines,
};

verus! {

/// What every snippet can use without saying so.
pub const PREAMBLE: &'static str = "#![allow(dead_code, unused_imports)]\nuse std::num::*;\nuse std::ptr::NonNull;\nuse std::cell::{Cell, RefCell, UnsafeCell};\nuse std::sync::{Arc, Mutex, RwLock};\nuse std::rc::Rc;\nuse std::collections::*;\nuse std::ffi::{CStr, CString, OsStr, OsString};\nuse std::path::{Path, PathBuf};\n\n";

// ── inner attributes ───────────────────────────────────────

/// The line is an inner attribute, `#![...]`.
pub open spec fn is_attr(line: Seq<char>) -> bool {
    begins(trim(line), "#!["@)
}

/// The line may stand between inner attributes: it is blank or a comment.
pub open spec fn is_filler(line: Seq<char>) -> bool {
    trim(line).len() == 0 || begins(trim(line), "//"@)
}

/// How many lines there are before the first item.
pub open spec fn header_len(ls: Seq<Seq<char>>) -> nat
    decreases ls.len(),
{
    if ls.len() > 0 && (is_attr(ls[0]) || is_filler(ls[0])) {
        1 + header_len(ls.drop_first())
    } else {
        0
    }
}

/// Those of the lines that are inner attributes.
pub open spec fn attrs_among(ls: Seq<Seq<char>>) -> Seq<Seq<char>>
    decreases ls.len(),
{
    if ls.len() == 0 {
        Seq::empty()
    } else if is_attr(ls.last()) {
        attrs_among(ls.drop_last()).push(ls.last())
    } else {
        attrs_among(ls.drop_last())
    }
}

/// Those of the lines that are not inner attributes.
pub open spec fn others_among(ls: Seq<Seq<char>>) -> Seq<Seq<char>>
    decreases ls.len(),
{
    if ls.len() == 0 {
        Seq::empty()
    } else if is_attr(ls.last()) {
        others_among(ls.drop_last())
    } else {
        others_among(ls.drop_last()).push(ls.last())
    }
}

/// The lines before the first item.
pub open spec fn header_lines(code: Seq<char>) -> Seq<Seq<char>> {
    lines(code).take(header_len(lines(code)) as int)
}

/// The inner attributes of a source.  Inner attributes must precede all items, so a line
/// after the first item is none.
pub open spec fn inner_attrs(code: Seq<char>) -> Seq<Seq<char>> {
    attrs_among(header_lines(code))
}

/// The lines of a source without its inner attributes.
pub open spec fn body_lines(code: Seq<char>) -> Seq<Seq<char>> {
    others_among(header_lines(code)) + lines(code).skip(header_len(lines(code)) as int)
}

proof fn lemma_header_len(ls: Seq<Seq<char>>)
    ensures
        header_len(ls) <= ls.len(),
        forall|j: int|
            0 <= j < header_len(ls) ==> is_attr(#[trigger] ls[j]) || is_filler(ls[j]),
    decreases ls.len(),
{
    if ls.len() > 0 && (is_attr(ls[0]) || is_filler(ls[0])) {
        let t = ls.drop_first();
        lemma_header_len(t);
        assert forall|j: int| 0 <= j < header_len(ls) implies is_attr(#[trigger] ls[j])
            || is_filler(ls[j]) by {
            if j > 0 {
                assert(t[j - 1] == ls[j]);
            }
        }
    }
}

/// Splits leading inner attributes (`#![...]`) from the rest of a source file, so that they
/// can be put above an injected preamble.
#[verifier::loop_isolation(false)]
pub fn split_inner_attrs(code: &str) -> (r: (String, String))
    ensures
        r.0@ == unlines(inner_attrs(code@)),
        r.1@ == unlines(body_lines(code@)),
{
    let chars = chars_of(code);
    let all = split_lines(&chars);
    let ghost ls = lines(code@);
    let ghost k = header_len(ls) as int;
    proof {
        lemma_header_len(ls);
        assert(ls.skip(0) =~= ls);
        assert(ls.take(0) =~= Seq::empty());
    }
    let mut attrs = String::new();
    let mut body = String::new();
    let mut scanning = true;
    for i in 0..all.len()
        invariant
            scanning ==> k == i + header_len(ls.skip(i as int)) && attrs@ == unlines(
                attrs_among(ls.take(i as int)),
            ) && body@ == unlines(others_among(ls.take(i as int))),
            !scanning ==> k <= i && attrs@ == unlines(attrs_among(ls.take(k))) && body@ == unlines(
                others_among(ls.take(k)) + ls.subrange(k, i as int),
            ),
    {
        let line = all[i];
        assert(line@ == texts(all@)[i as int]);
        let mut is_attribute = false;
        proof {
            let rest = ls.skip(i as int);
            assert(rest[0] == line@);
            assert(rest.drop_first() =~= ls.skip(i + 1));
            assert(ls.take(i + 1).drop_last() =~= ls.take(i as int));
        }
        if scanning {
            let t = trimmed(line);
            if starts_with(t, "#![") {
                is_attribute = true;
            } else if t.len() != 0 && !starts_with(t, "//") {
                scanning = false;
                assert(ls.subrange(k, k) =~= Seq::empty());
                assert(others_among(ls.take(k)) + ls.subrange(k, k) =~= others_among(ls.take(k)));
            }
        }
        if is_attribute {
            append_line(&mut attrs, line);
            proof {
                lemma_unlines_push(attrs_among(ls.take(i as int)), line@);
            }
        } else {
            append_line(&mut body, line);
            proof {
                if scanning {
                    lemma_unlines_push(others_among(ls.take(i as int)), line@);
                } else {
                    let so_far = others_among(ls.take(k)) + ls.subrange(k, i as int);
                    lemma_unlines_push(so_far, line@);
                    assert(so_far.push(line@) =~= others_among(ls.take(k)) + ls.subrange(k, i + 1));
                }
            }
        }
    }
    proof {
        if scanning {
            assert(ls.skip(ls.len() as int) =~= Seq::empty());
            assert(k == ls.len());
            assert(body_lines(code@) =~= others_among(ls.take(k)));
        } else {
            assert(ls.subrange(k, ls.len() as int) =~= ls.skip(k));
        }
    }
    (attrs, body)
}

fn append_line(out: &mut String, line: &[char])
    ensures
        final(out)@ == old(out)@ + line@.push('\n'),
{
    append_chars(out, line);
    out.push('\n');
    assert((old(out)@ + line@).push('\n') =~= old(out)@ + line@.push('\n'));
}

proof fn lemma_unlines_push(ls: Seq<Seq<char>>, l: Seq<char>)
    ensures
        unlines(ls.push(l)) == unlines(ls) + l.push('\n'),
{
    assert(ls.push(l).drop_last() =~= ls);
}

/// Counts the leading inner-attribute lines.
#[verifier::loop_isolation(false)]
pub fn count_inner_attr_lines(code: &str) -> (r: usize)
    ensures
        r == inner_attrs(code@).len(),
{
    let chars = chars_of(code);
    let all = split_lines(&chars);
    let ghost ls = lines(code@);
    let ghost k = header_len(ls) as int;
    proof {
        lemma_header_len(ls);
        assert(ls.skip(0) =~= ls);
        assert(ls.take(0) =~= Seq::empty());
    }
    let mut count: usize = 0;
    for i in 0..all.len()
        invariant
            k == i + header_len(ls.skip(i as int)),
            count <= i,
            count == attrs_among(ls.take(i as int)).len(),
    {
        let line = all[i];
        assert(line@ == texts(all@)[i as int]);
        proof {
            let rest = ls.skip(i as int);
            assert(rest[0] == line@);
            assert(rest.drop_first() =~= ls.skip(i + 1));
            assert(ls.take(i + 1).drop_last() =~= ls.take(i as int));
        }
        let t = trimmed(line);
        if starts_with(t, "#![") {
            count = count + 1;
        } else if t.len() != 0 && !starts_with(t, "//") {
            return count;
        }
    }
    assert(ls.skip(ls.len() as int) =~= Seq::empty());
    count
}

// ── what is compiled ───────────────────────────────────────

/// The source that is compiled for a snippet: its inner attributes, the preamble and the
/// rest of it.
pub open spec fn snippet_source(code: Seq<char>) -> Seq<char> {
    unlines(inner_attrs(code)) + PREAMBLE@ + unlines(body_lines(code)) + "\n"@
}

/// Writes the source that is compiled for a snippet.
pub fn analyze_snippet(code: &str) -> (r: String)
    ensures
        r@ == snippet_source(code@),
{
    let (user_attrs, user_body) = split_inner_attrs(code);
    let mut full = user_attrs;
    full.append(PREAMBLE);
    full.append(user_body.as_str());
    full.append("\n");
    full
}

/// `s` without the spaces at its start.
pub open spec fn skip_spaces(s: Seq<char>) -> Seq<char>
    decreases s.len(),
{
    if s.len() > 0 && s[0] == ' ' {
        skip_spaces(s.drop_first())
    } else {
        s
    }
}

/// Dropping spaces makes nothing longer.
pub proof fn lemma_skip_spaces(s: Seq<char>)
    ensures
        skip_spaces(s).len() <= s.len(),
    decreases s.len(),
{
    if s.len() > 0 && s[0] == ' ' {
        lemma_skip_spaces(s.drop_first());
    }
}

/// The type expression with a lifetime on every reference.  Behind an ampersand spaces are
/// dropped, and `'static` goes in where no lifetime follows.
pub open spec fn with_lifetimes(ty: Seq<char>) -> Seq<char>
    decreases ty.len(),
{
    if ty.len() == 0 {
        Seq::empty()
    } else if ty[0] == '&' {
        proof {
            lemma_skip_spaces(ty.drop_first());
        }
        let rest = skip_spaces(ty.drop_first());
        if rest.len() > 0 && rest[0] == '\'' {
            "&"@ + with_lifetimes(rest)
        } else {
            "&'static "@ + with_lifetimes(rest)
        }
    } else {
        seq![ty[0]] + with_lifetimes(ty.drop_first())
    }
}

/// Puts `'static` on every reference without a lifetime.
pub fn add_static_lifetime(ty: &str) -> (r: String)
    ensures
        r@ == with_lifetimes(ty@),
{
    broadcast use concat_assoc;

    let chars = chars_of(ty);
    let mut out = String::new();
    let mut i: usize = 0;
    assert(chars@.skip(0) =~= chars@);
    assert(out@ + with_lifetimes(ty@) =~= with_lifetimes(ty@));
    while i < chars.len()
        invariant
            i <= chars@.len(),
            with_lifetimes(ty@) == out@ + with_lifetimes(chars@.skip(i as int)),
        decreases chars@.len() - i,
    {
        let ghost rest = chars@.skip(i as int);
        assert(rest[0] == chars@[i as int]);
        assert(rest.drop_first() =~= chars@.skip(i + 1));
        if chars[i] == '&' {
            let mut j: usize = i + 1;
            while j < chars.len() && chars[j] == ' '
                invariant
                    i < j <= chars@.len(),
                    skip_spaces(chars@.skip(i + 1)) == skip_spaces(chars@.skip(j as int)),
                decreases chars@.len() - j,
            {
                assert(chars@.skip(j as int)[0] == chars@[j as int]);
                assert(chars@.skip(j as int).drop_first() =~= chars@.skip(j + 1));
                j = j + 1;
            }
            assert(j < chars@.len() ==> chars@.skip(j as int)[0] == chars@[j as int]);
            assert(skip_spaces(chars@.skip(j as int)) == chars@.skip(j as int));
            if j < chars.len() && chars[j] == '\'' {
                out.append("&");
            } else {
                out.append("&'static ");
            }
            i = j;
        } else {
            let ghost before = out@;
            out.push(chars[i]);
            assert(out@ =~= before + seq![chars@[i as int]]);
            i = i + 1;
        }
    }
    assert(chars@.skip(i as int) =~= Seq::empty());
    assert(out@ + with_lifetimes(chars@.skip(i as int)) =~= out@);
    out
}

/// The snippet whose probe has the type expression as its field.
pub open spec fn probe_code(expr: Seq<char>) -> Seq<char> {
    "struct _Probe("@ + with_lifetimes(expr) + ");"@
}

/// Writes the source that is compiled for a type expression.
pub fn analyze_type_expr(expr: &str) -> (r: String)
    ensures
        r@ == snippet_source(probe_code(expr@)),
{
    let sanitized = add_static_lifetime(expr);
    let mut code = "struct _Probe(".to_owned();
    code.append(sanitized.as_str());
    code.append(");");
    analyze_snippet(code.as_str())
}

/// The arguments of the compiler for a file.  A sysroot that is given goes before the one of
/// the environment.
pub open spec fn compiler_args(
    file: Seq<char>,
    sysroot: Option<Seq<char>>,
    env_sysroot: Option<Seq<char>>,
    target: Option<Seq<char>>,
) -> Seq<Seq<char>> {
    seq!["nichy-rustc"@, file, "--edition=2024"@, "--crate-type=lib"@, "-Awarnings"@] + (
    match target {
        Some(t) => seq!["--target"@, t],
        None => Seq::empty(),
    }) + (match (sysroot, env_sysroot) {
        (Some(s), _) => seq!["--sysroot"@, s],
        (None, Some(s)) => seq!["--sysroot"@, s],
        (None, None) => Seq::empty(),
    })
}

/// Lists the arguments of the compiler for a file.
pub fn analyze_file(
    file_path: &str,
    sysroot: Option<&str>,
    env_sysroot: Option<&str>,
    target: Option<&str>,
) -> (r: Vec<String>)
    ensures
        string_views(r@) == compiler_args(
            file_path@,
            str_opt_view(sysroot),
            str_opt_view(env_sysroot),
            str_opt_view(target),
        ),
{
    let mut args: Vec<String> = Vec::new();
    args.push("nichy-rustc".to_owned());
    args.push(file_path.to_owned());
    args.push("--edition=2024".to_owned());
    args.push("--crate-type=lib".to_owned());
    args.push("-Awarnings".to_owned());
    if let Some(triple) = target {
        args.push("--target".to_owned());
        args.push(triple.to_owned());
    }
    if let Some(path) = sysroot {
        args.push("--sysroot".to_owned());
        args.push(path.to_owned());
    } else if let Some(path) = env_sysroot {
        args.push("--sysroot".to_owned());
        args.push(path.to_owned());
    }
    assert(string_views(args@) =~= compiler_args(
        file_path@,
        str_opt_view(sysroot),
        str_opt_view(env_sysroot),
        str_opt_view(target),
    ));
    args
}

// ── laws ───────────────────────────────────────────────────

proof fn lemma_attrs_are_lines(ls: Seq<Seq<char>>)
    requires
        forall|i: int| 0 <= i < ls.len() ==> one_line(#[trigger] ls[i]),
    ensures
        forall|i: int|
            0 <= i < attrs_among(ls).len() ==> one_line(#[trigger] attrs_among(ls)[i]),
        forall|i: int|
            0 <= i < others_among(ls).len() ==> one_line(#[trigger] others_among(ls)[i]),
        attrs_among(ls).len() + others_among(ls).len() == ls.len(),
    decreases ls.len(),
{
    if ls.len() > 0 {
        let t = ls.drop_last();
        assert forall|i: int| 0 <= i < t.len() implies one_line(#[trigger] t[i]) by {
            assert(t[i] == ls[i]);
        }
        lemma_attrs_are_lines(t);
        assert(one_line(ls[ls.len() - 1]));
        assert forall|i: int| 0 <= i < attrs_among(ls).len() implies one_line(
            #[trigger] attrs_among(ls)[i],
        ) by {
            if i < attrs_among(t).len() {
                assert(attrs_among(ls)[i] == attrs_among(t)[i]);
            }
        }
        assert forall|i: int| 0 <= i < others_among(ls).len() implies one_line(
            #[trigger] others_among(ls)[i],
        ) by {
            if i < others_among(t).len() {
                assert(others_among(ls)[i] == others_among(t)[i]);
            }
        }
    }
}

/// The attributes and the other lines are single lines, and the header is made of both.
pub proof fn lemma_parts_are_lines(code: Seq<char>)
    ensures
        forall|i: int|
            0 <= i < inner_attrs(code).len() ==> one_line(#[trigger] inner_attrs(code)[i]),
        forall|i: int|
            0 <= i < body_lines(code).len() ==> one_line(#[trigger] body_lines(code)[i]),
        header_len(lines(code)) <= lines(code).len(),
        inner_attrs(code).len() + others_among(header_lines(code)).len() == header_len(lines(code)),
{
    let ls = lines(code);
    let h = header_lines(code);
    lemma_lines_are_single(code);
    lemma_header_len(ls);
    assert forall|i: int| 0 <= i < h.len() implies one_line(#[trigger] h[i]) by {
        assert(h[i] == ls[i]);
    }
    lemma_attrs_are_lines(h);
    assert forall|i: int| 0 <= i < body_lines(code).len() implies one_line(
        #[trigger] body_lines(code)[i],
    ) by {
        let o = others_among(h);
        if i < o.len() {
            assert(body_lines(code)[i] == o[i]);
        } else {
            assert(body_lines(code)[i] == ls[i - o.len() + header_len(ls)]);
        }
    }
}

/// The attributes that are counted are the lines of the attributes that are split off.
pub proof fn law_count_matches_split(code: Seq<char>)
    ensures
        inner_attrs(code).len() == lines(unlines(inner_attrs(code))).len(),
{
    lemma_parts_are_lines(code);
    lemma_lines_unlines(inner_attrs(code));
}

/// Splitting loses no line and adds none.
pub proof fn law_split_keeps_every_line(code: Seq<char>)
    ensures
        lines(unlines(inner_attrs(code))).len() + lines(unlines(body_lines(code))).len() == lines(
            code,
        ).len(),
{
    lemma_parts_are_lines(code);
    lemma_lines_unlines(inner_attrs(code));
    lemma_lines_unlines(body_lines(code));
}

/// The preamble is made of whole lines.
pub proof fn lemma_preamble_ends()
    ensures
        PREAMBLE@.len() > 0,
        PREAMBLE@.last() == '\n',
{
    reveal_strlit("#![allow(dead_code, unused_imports)]\nuse std::num::*;\nuse std::ptr::NonNull;\nuse std::cell::{Cell, RefCell, UnsafeCell};\nuse std::sync::{Arc, Mutex, RwLock};\nuse std::rc::Rc;\nuse std::collections::*;\nuse std::ffi::{CStr, CString, OsStr, OsString};\nuse std::path::{Path, PathBuf};\n\n");
}

/// The compiled source of a snippet is, line by line, its attributes, the preamble, its
/// body and one blank line.
pub proof fn law_source_lines(code: Seq<char>)
    ensures
        lines(snippet_source(code)) == inner_attrs(code).map_values(|l: Seq<char>| strip_cr(l))
            + lines(PREAMBLE@) + body_lines(code).map_values(|l: Seq<char>| strip_cr(l)) + seq![
            Seq::<char>::empty(),
        ],
{
    let a = unlines(inner_attrs(code));
    let b = unlines(body_lines(code));
    lemma_parts_are_lines(code);
    lemma_lines_unlines(inner_attrs(code));
    lemma_lines_unlines(body_lines(code));
    lemma_unlines_ends(inner_attrs(code));
    lemma_unlines_ends(body_lines(code));
    lemma_preamble_ends();
    lemma_lines_concat(a, PREAMBLE@);
    assert((a + PREAMBLE@).last() == '\n');
    lemma_lines_concat(a + PREAMBLE@, b);
    assert((a + PREAMBLE@ + b).last() == '\n');
    lemma_lines_concat(a + PREAMBLE@ + b, "\n"@);
    reveal_strlit("\n");
    lemma_first_index_is("\n"@, '\n', 0);
    assert("\n"@.take(0) =~= Seq::empty());
    assert("\n"@.skip(1) =~= Seq::empty());
    assert(lines("\n"@.skip(1)) == Seq::<Seq<char>>::empty());
    assert(lines("\n"@) =~= seq![Seq::<char>::empty()]);
}

/// In the result every ampersand has a lifetime right behind it.
pub proof fn law_references_have_lifetimes(ty: Seq<char>)
    ensures
        forall|i: int|
            0 <= i < with_lifetimes(ty).len() && #[trigger] with_lifetimes(ty)[i] == '&' ==> i + 1
                < with_lifetimes(ty).len() && with_lifetimes(ty)[i + 1] == '\'',
    decreases ty.len(),
{
    let w = with_lifetimes(ty);
    if ty.len() > 0 {
        if ty[0] == '&' {
            lemma_skip_spaces(ty.drop_first());
            let rest = skip_spaces(ty.drop_first());
            law_references_have_lifetimes(rest);
            let v = with_lifetimes(rest);
            reveal_strlit("&");
            reveal_strlit("&'static ");
            if rest.len() > 0 && rest[0] == '\'' {
                assert(v[0] == '\'');
                assert forall|i: int| 0 <= i < w.len() && #[trigger] w[i] == '&' implies i + 1
                    < w.len() && w[i + 1] == '\'' by {
                    if i > 0 {
                        assert(w[i] == v[i - 1]);
                        assert(w[i + 1] == v[i]);
                    } else {
                        assert(w[1] == v[0]);
                    }
                }
            } else {
                assert forall|i: int| 0 <= i < w.len() && #[trigger] w[i] == '&' implies i + 1
                    < w.len() && w[i + 1] == '\'' by {
                    if i >= 9 {
                        assert(w[i] == v[i - 9]);
                        assert(w[i + 1] == v[i - 8]);
                    }
                }
            }
        } else {
            law_references_have_lifetimes(ty.drop_first());
            let v = with_lifetimes(ty.drop_first());
            assert forall|i: int| 0 <= i < w.len() && #[trigger] w[i] == '&' implies i + 1 < w.len()
                && w[i + 1] == '\'' by {
                if i > 0 {
                    assert(w[i] == v[i - 1]);
                    assert(w[i + 1] == v[i]);
                }
            }
        }
    }
}

/// An expression in which every ampersand has a lifetime right behind it stays as it is.
pub proof fn law_lifetimes_stay(ty: Seq<char>)
    requires
        forall|i: int|
            0 <= i < ty.len() && #[trigger] ty[i] == '&' ==> i + 1 < ty.len() && ty[i + 1] == '\'',
    ensures
        with_lifetimes(ty) == ty,
    decreases ty.len(),
{
    if ty.len() > 0 {
        let t = ty.drop_first();
        assert forall|i: int| 0 <= i < t.len() && #[trigger] t[i] == '&' implies i + 1 < t.len()
            && t[i + 1] == '\'' by {
            assert(t[i] == ty[i + 1]);
            assert(t[i + 1] == ty[i + 2]);
        }
        law_lifetimes_stay(t);
        if ty[0] == '&' {
            assert(t[0] == ty[1]);
            assert(skip_spaces(t) == t);
            reveal_strlit("&");
            assert("&"@ + t =~= ty);
        } else {
            assert(seq![ty[0]] + t =~= ty);
        }
    }
}

/// Putting lifetimes in twice changes nothing more.
pub proof fn law_lifetimes_idempotent(ty: Seq<char>)
    ensures
        with_lifetimes(with_lifetimes(ty)) == with_lifetimes(ty),
{
    law_references_have_lifetimes(ty);
    law_lifetimes_stay(with_lifetimes(ty));
}

/// A text is behind an option: the option is some argument, and the text is the next.
pub open spec fn option_is(args: Seq<Seq<char>>, option: Seq<char>, text: Seq<char>) -> bool {
    exists|i: int|
        0 <= i && i + 1 < args.len() && #[trigger] args[i] == option && args[i + 1] == text
}

/// The compiler is given the file, a library of the newest edition without warnings, and the target
/// and the sysroot behind their options, where there are any; a sysroot that is given goes before
/// the one of the environment.  It is given nothing else.
pub proof fn law_compiler_arguments(
    file: Seq<char>,
    sysroot: Option<Seq<char>>,
    env_sysroot: Option<Seq<char>>,
    target: Option<Seq<char>>,
)
    ensures
        ({
            let args = compiler_args(file, sysroot, env_sysroot, target);
            let root = if sysroot is Some {
                sysroot
            } else {
                env_sysroot
            };
            &&& args[1] == file
            &&& args.contains("--edition=2024"@)
            &&& args.contains("--crate-type=lib"@)
            &&& args.contains("-Awarnings"@)
            &&& target matches Some(t) ==> option_is(args, "--target"@, t)
            &&& root matches Some(s) ==> option_is(args, "--sysroot"@, s)
            &&& args.len() == 5 + (if target is Some {
                2int
            } else {
                0
            }) + (if root is Some {
                2int
            } else {
                0
            })
        }),
{
    let args = compiler_args(file, sysroot, env_sysroot, target);
    assert(args[2] == "--edition=2024"@ && args[3] == "--crate-type=lib"@);
    assert(args[4] == "-Awarnings"@);
    match target {
        Some(t) => {
            assert(args[5] == "--target"@ && args[6] == t);
            assert(option_is(args, "--target"@, t));
        },
        None => {},
    }
    let at: int = if target is Some {
        7
    } else {
        5
    };
    if sysroot is Some || env_sysroot is Some {
        assert(args[at] == "--sysroot"@);
        let root = if sysroot is Some {
            sysroot->0
        } else {
            env_sysroot->0
        };
        assert(args[at + 1] == root);
        assert(option_is(args, "--sysroot"@, root));
    }
}

/// Without an ampersand a text stays as it is, and so does what stands before the first one.
pub proof fn law_text_before_references_stays(a: Seq<char>, b: Seq<char>)
    requires
        forall|i: int| 0 <= i < a.len() ==> #[trigger] a[i] != '&',
    ensures
        with_lifetimes(a + b) == a + with_lifetimes(b),
    decreases a.len(),
{
    if a.len() == 0 {
        assert(a + b =~= b);
        assert(a + with_lifetimes(b) =~= with_lifetimes(b));
    } else {
        let t = a.drop_first();
        assert forall|i: int| 0 <= i < t.len() implies #[trigger] t[i] != '&' by {
            assert(t[i] == a[i + 1]);
        }
        law_text_before_references_stays(t, b);
        assert((a + b).drop_first() =~= t + b);
        assert((a + b)[0] == a[0]);
        assert(seq![a[0]] + (t + with_lifetimes(b)) =~= a + with_lifetimes(b));
    }
}

proof fn lemma_skip_some_spaces(n: nat, s: Seq<char>)
    requires
        s.len() == 0 || s[0] != ' ',
    ensures
        skip_spaces(Seq::new(n, |i: int| ' ') + s) == s,
    decreases n,
{
    let t = Seq::new(n, |i: int| ' ') + s;
    if n > 0 {
        assert(t[0] == ' ');
        assert(t.drop_first() =~= Seq::new((n - 1) as nat, |i: int| ' ') + s);
        lemma_skip_some_spaces((n - 1) as nat, s);
    } else {
        assert(t =~= s);
    }
}

/// A reference without a lifetime lives as long as the program, one with a lifetime as long as it
/// says, however many spaces stand behind the ampersand; what is referred to is treated alike.
pub proof fn law_references_are_made_static(n: nat, s: Seq<char>)
    requires
        s.len() == 0 || s[0] != ' ',
    ensures
        ({
            let ty = seq!['&'] + (Seq::new(n, |i: int| ' ') + s);
            if s.len() > 0 && s[0] == '\'' {
                with_lifetimes(ty) == seq!['&'] + with_lifetimes(s)
            } else {
                with_lifetimes(ty) == seq!['&', '\'', 's', 't', 'a', 't', 'i', 'c', ' ']
                    + with_lifetimes(s)
            }
        }),
{
    let ty = seq!['&'] + (Seq::new(n, |i: int| ' ') + s);
    assert(ty[0] == '&');
    assert(ty.drop_first() =~= Seq::new(n, |i: int| ' ') + s);
    lemma_skip_some_spaces(n, s);
    reveal_strlit("&");
    reveal_strlit("&'static ");
    assert("&"@ =~= seq!['&']);
    assert("&'static "@ =~= seq!['&', '\'', 's', 't', 'a', 't', 'i', 'c', ' ']);
}

/// The line starts, behind white space, with what an inner attribute starts with.
pub open spec fn starts_attribute(line: Seq<char>) -> bool {
    exists|k: int|
        0 <= k && k + 3 <= line.len() && (forall|i: int|
            0 <= i < k ==> is_white_space(#[trigger] line[i])) && #[trigger] line[k] == '#' && line[k
            + 1] == '!' && line[k + 2] == '['
}

/// The line is of white space alone, or starts behind it with what a comment starts with.
pub open spec fn starts_nothing(line: Seq<char>) -> bool {
    ||| all_white(line)
    ||| exists|k: int|
        0 <= k && k + 2 <= line.len() && (forall|i: int|
            0 <= i < k ==> is_white_space(#[trigger] line[i])) && #[trigger] line[k] == '/' && line[k
            + 1] == '/'
}

/// An inner attribute is told by how its line starts, and so is what may stand between two of them.
pub proof fn law_attributes_are_told_by_their_start(line: Seq<char>)
    ensures
        is_attr(line) == starts_attribute(line),
        is_filler(line) == starts_nothing(line),
{
    law_trimming_takes_white_space_off(line);
    let t = trim(line);
    let (a, b) = choose|a: Seq<char>, b: Seq<char>| #[trigger]
        all_white(a) && #[trigger] all_white(b) && line == a + t + b;
    lemma_attr_start(line, a, t, b);
    lemma_filler_start(line, a, t, b);
}

/// White space, a text that starts with something else, and white space.
spec fn is_trimmed(line: Seq<char>, a: Seq<char>, t: Seq<char>, b: Seq<char>) -> bool {
    &&& line == a + t + b
    &&& all_white(a)
    &&& all_white(b)
    &&& t.len() > 0 ==> !is_white_space(t[0])
}

proof fn lemma_attr_start(line: Seq<char>, a: Seq<char>, t: Seq<char>, b: Seq<char>)
    requires
        is_trimmed(line, a, t, b),
    ensures
        begins(t, "#!["@) == starts_attribute(line),
{
    reveal_strlit("#![");
    let k = a.len() as int;
    if begins(t, "#!["@) {
        assert forall|i: int| 0 <= i < k implies is_white_space(#[trigger] line[i]) by {
            assert(line[i] == a[i]);
        }
        assert(t.take(3)[0] == t[0] && t.take(3)[1] == t[1] && t.take(3)[2] == t[2]);
        assert(line[k] == t[0] && line[k + 1] == t[1] && line[k + 2] == t[2]);
    }
    if starts_attribute(line) {
        let j = choose|j: int|
            0 <= j && j + 3 <= line.len() && (forall|i: int|
                0 <= i < j ==> is_white_space(#[trigger] line[i])) && #[trigger] line[j] == '#'
                && line[j + 1] == '!' && line[j + 2] == '[';
        lemma_same_start(line, a, t, b, j);
        lemma_inside(line, a, t, b, j, 3);
        assert(t[0] == line[j] && t[1] == line[j + 1] && t[2] == line[j + 2]);
        assert(t.take(3) =~= "#!["@);
    }
}

proof fn lemma_filler_start(line: Seq<char>, a: Seq<char>, t: Seq<char>, b: Seq<char>)
    requires
        is_trimmed(line, a, t, b),
    ensures
        (t.len() == 0 || begins(t, "//"@)) == starts_nothing(line),
{
    reveal_strlit("//");
    let k = a.len() as int;
    if t.len() == 0 {
        assert forall|i: int| 0 <= i < line.len() implies is_white_space(#[trigger] line[i]) by {
            if i >= k {
                assert(line[i] == b[i - k]);
            } else {
                assert(line[i] == a[i]);
            }
        }
    } else {
        assert(line[k] == t[0]);
        if begins(t, "//"@) {
            assert forall|i: int| 0 <= i < k implies is_white_space(#[trigger] line[i]) by {
                assert(line[i] == a[i]);
            }
            assert(t.take(2)[0] == t[0] && t.take(2)[1] == t[1]);
            assert(line[k + 1] == t[1]);
        } else if starts_nothing(line) {
            assert(!all_white(line)) by {
                assert(!is_white_space(line[k]));
            }
            let j = choose|j: int|
                0 <= j && j + 2 <= line.len() && (forall|i: int|
                    0 <= i < j ==> is_white_space(#[trigger] line[i])) && #[trigger] line[j] == '/'
                    && line[j + 1] == '/';
            lemma_same_start(line, a, t, b, j);
            lemma_inside(line, a, t, b, j, 2);
            assert(t[0] == line[j] && t[1] == line[j + 1]);
            assert(t.take(2) =~= "//"@);
        }
    }
}

/// The first character that is no white space is where the trimmed text starts.
proof fn lemma_same_start(line: Seq<char>, a: Seq<char>, t: Seq<char>, b: Seq<char>, j: int)
    requires
        line == a + t + b,
        all_white(a),
        all_white(b),
        t.len() > 0 ==> !is_white_space(t[0]),
        0 <= j < line.len(),
        !is_white_space(line[j]),
        forall|i: int| 0 <= i < j ==> is_white_space(#[trigger] line[i]),
    ensures
        j == a.len(),
        t.len() > 0,
{
    if j < a.len() {
        assert(line[j] == a[j]);
    }
    if t.len() == 0 {
        assert(line[j] == b[j - a.len()]);
    }
    if j > a.len() {
        assert(line[a.len() as int] == t[0]);
    }
}

/// Characters that are no white space at the start of what is behind `a` are those of the trimmed
/// text.
proof fn lemma_inside(line: Seq<char>, a: Seq<char>, t: Seq<char>, b: Seq<char>, j: int, n: int)
    requires
        line == a + t + b,
        all_white(b),
        j == a.len(),
        0 <= n,
        j + n <= line.len(),
        forall|i: int| j <= i < j + n ==> !is_white_space(#[trigger] line[i]),
    ensures
        n <= t.len(),
        forall|i: int| 0 <= i < n ==> #[trigger] t[i] == line[j + i],
{
    if n > t.len() {
        assert(!is_white_space(line[j + t.len()]));
        assert(line[j + t.len()] == b[0]);
    }
}

/// Line `i` is an inner attribute: it is one by its start, and so is every line before it, or blank
/// or a comment.
#[verifier::opaque]
pub open spec fn is_inner_attr_line(ls: Seq<Seq<char>>, i: int) -> bool {
    &&& starts_attribute(ls[i])
    &&& forall|k: int| 0 <= k < i ==> starts_attribute(#[trigger] ls[k]) || starts_nothing(ls[k])
}

/// How many of the first `i` lines are inner attributes.
pub open spec fn attrs_before(ls: Seq<Seq<char>>, i: int) -> int
    decreases i,
{
    if i <= 0 {
        0
    } else {
        attrs_before(ls, i - 1) + (if is_inner_attr_line(ls, i - 1) {
            1int
        } else {
            0
        })
    }
}

proof fn lemma_header_is(ls: Seq<Seq<char>>, i: int)
    requires
        0 <= i < ls.len(),
    ensures
        is_inner_attr_line(ls, i) == (i < header_len(ls) && is_attr(ls[i])),
{
    reveal(is_inner_attr_line);
    lemma_header_len(ls);
    lemma_header_ends(ls);
    assert forall|k: int| 0 <= k < ls.len() implies is_attr(#[trigger] ls[k]) == starts_attribute(
        ls[k],
    ) && is_filler(ls[k]) == starts_nothing(ls[k]) by {
        law_attributes_are_told_by_their_start(ls[k]);
    }
    let h = header_len(ls) as int;
    if is_inner_attr_line(ls, i) && i >= h {
        if h < i {
            assert(starts_attribute(ls[h]) || starts_nothing(ls[h]));
        }
        assert(is_attr(ls[h]) || is_filler(ls[h]));
    }
}

proof fn lemma_header_ends(ls: Seq<Seq<char>>)
    ensures
        header_len(ls) < ls.len() ==> !is_attr(ls[header_len(ls) as int]) && !is_filler(
            ls[header_len(ls) as int],
        ),
    decreases ls.len(),
{
    if ls.len() > 0 && (is_attr(ls[0]) || is_filler(ls[0])) {
        let t = ls.drop_first();
        lemma_header_ends(t);
        if header_len(ls) < ls.len() {
            assert(t[header_len(t) as int] == ls[header_len(ls) as int]);
        }
    }
}

proof fn lemma_split_step(ls: Seq<Seq<char>>, n: int)
    requires
        0 < n <= header_len(ls),
        header_len(ls) <= ls.len(),
    ensures
        is_inner_attr_line(ls, n - 1) ==> attrs_among(ls.take(n)) == attrs_among(
            ls.take(n - 1),
        ).push(ls[n - 1]) && others_among(ls.take(n)) == others_among(ls.take(n - 1)),
        !is_inner_attr_line(ls, n - 1) ==> attrs_among(ls.take(n)) == attrs_among(ls.take(n - 1))
            && others_among(ls.take(n)) == others_among(ls.take(n - 1)).push(ls[n - 1]),
{
    lemma_header_is(ls, n - 1);
    assert(ls.take(n).drop_last() =~= ls.take(n - 1));
    assert(ls.take(n).last() == ls[n - 1]);
}

proof fn lemma_split_lens(ls: Seq<Seq<char>>, n: int)
    requires
        0 <= n <= header_len(ls),
        header_len(ls) <= ls.len(),
    ensures
        attrs_among(ls.take(n)).len() == attrs_before(ls, n),
        others_among(ls.take(n)).len() == n - attrs_before(ls, n),
    decreases n,
{
    if n > 0 {
        lemma_split_lens(ls, n - 1);
        lemma_split_step(ls, n);
    } else {
        assert(ls.take(0) =~= Seq::empty());
    }
}

proof fn lemma_split_places(ls: Seq<Seq<char>>, n: int, i: int)
    requires
        0 <= i < n <= header_len(ls),
        header_len(ls) <= ls.len(),
    ensures
        is_inner_attr_line(ls, i) ==> 0 <= attrs_before(ls, i) < attrs_among(ls.take(n)).len()
            && attrs_among(ls.take(n))[attrs_before(ls, i)] == ls[i],
        !is_inner_attr_line(ls, i) ==> 0 <= i - attrs_before(ls, i) < others_among(ls.take(n)).len()
            && others_among(ls.take(n))[i - attrs_before(ls, i)] == ls[i],
    decreases n,
{
    lemma_split_step(ls, n);
    lemma_split_lens(ls, i);
    if i < n - 1 {
        lemma_split_places(ls, n - 1, i);
    }
}

proof fn lemma_attrs_end(ls: Seq<Seq<char>>, n: int)
    requires
        header_len(ls) <= n <= ls.len(),
    ensures
        attrs_before(ls, n) == attrs_before(ls, header_len(ls) as int),
    decreases n,
{
    if n > header_len(ls) {
        lemma_attrs_end(ls, n - 1);
        lemma_header_is(ls, n - 1);
    }
}

/// Every line of the code is either an inner attribute or in the body, in the order in which the
/// lines stand: a line that is an attribute is the one behind the attributes before it, any other
/// the one behind the other lines before it.  There are no other lines.
pub proof fn law_every_line_finds_its_place(code: Seq<char>, i: int)
    requires
        0 <= i < lines(code).len(),
    ensures
        inner_attrs(code).len() == attrs_before(lines(code), lines(code).len() as int),
        inner_attrs(code).len() + body_lines(code).len() == lines(code).len(),
        is_inner_attr_line(lines(code), i) ==> 0 <= attrs_before(lines(code), i) < inner_attrs(
            code,
        ).len() && inner_attrs(code)[attrs_before(lines(code), i)] == lines(code)[i],
        !is_inner_attr_line(lines(code), i) ==> 0 <= i - attrs_before(lines(code), i)
            < body_lines(code).len() && body_lines(code)[i - attrs_before(lines(code), i)] == lines(
            code,
        )[i],
{
    let ls = lines(code);
    let h = header_len(ls) as int;
    lemma_header_len(ls);
    lemma_split_lens(ls, h);
    lemma_attrs_end(ls, ls.len() as int);
    lemma_header_is(ls, i);
    if i >= h {
        lemma_attrs_end(ls, i);
        assert(body_lines(code)[i - attrs_before(ls, i)] == ls.skip(h)[i - h]);
    } else {
        lemma_split_places(ls, h, i);
        if !is_inner_attr_line(ls, i) {
            assert(body_lines(code)[i - attrs_before(ls, i)] == others_among(ls.take(h))[i
                - attrs_before(ls, i)]);
        }
    }
}

/// A type expression is compiled as the only field of a struct that is called as the probe is,
/// whatever the expression is.
pub proof fn law_types_are_probed(expr: Seq<char>)
    ensures
        begins(probe_code(expr), "struct _Probe("@),
        probe_code(expr).len() == 14 + with_lifetimes(expr).len() + 2,
        probe_code(expr).subrange(14, 14 + with_lifetimes(expr).len() as int) == with_lifetimes(expr),
        probe_code(expr).skip(14 + with_lifetimes(expr).len() as int) == seq![')', ';'],
{
    reveal_strlit("struct _Probe(");
    reveal_strlit(");");
    let w = with_lifetimes(expr);
    assert(probe_code(expr).take(14) =~= "struct _Probe("@);
    assert(probe_code(expr).subrange(14, 14 + w.len() as int) =~= w);
    assert(probe_code(expr).skip(14 + w.len() as int) =~= seq![')', ';']);
}

/// Whoever has a source built for a snippet gets the attributes, the preamble and the body of the
/// snippet, line by line, and one line more; and whoever counts the attributes counts these.
pub proof fn law_analyze_snippet(code: &str, r: String, n: usize)
    requires
        call_ensures(analyze_snippet, (code,), r),
        call_ensures(count_inner_attr_lines, (code,), n),
    ensures
        lines(r@).len() == lines(code@).len() + lines(PREAMBLE@).len() + 1,
        n == attrs_before(lines(code@), lines(code@).len() as int),
        lines(r@).subrange(n as int, n + lines(PREAMBLE@).len()) == lines(PREAMBLE@),
{
    law_source_lines(code@);
    lemma_parts_are_lines(code@);
    let ls = lines(code@);
    let h = header_len(ls) as int;
    lemma_header_len(ls);
    lemma_split_lens(ls, h);
    lemma_attrs_end(ls, ls.len() as int);
    assert(lines(r@).subrange(n as int, n + lines(PREAMBLE@).len()) =~= lines(PREAMBLE@));
}

/// Whoever splits the attributes off gets every line of the code on one side.
pub proof fn law_split_inner_attrs(code: &str, r: (String, String), i: int)
    requires
        0 <= i < lines(code@).len(),
        call_ensures(split_inner_attrs, (code,), r),
    ensures
        ({
            let ls = lines(code@);
            let k = attrs_before(ls, i);
            let side = if is_inner_attr_line(ls, i) {
                lines(r.0@)[k]
            } else {
                lines(r.1@)[i - k]
            };
            side == strip_cr(ls[i])
        }),
        lines(r.0@).len() + lines(r.1@).len() == lines(code@).len(),
{
    law_every_line_finds_its_place(code@, i);
    lemma_parts_are_lines(code@);
    lemma_lines_unlines(inner_attrs(code@));
    lemma_lines_unlines(body_lines(code@));
}

/// Whoever has the source of a type built gets that of a snippet with the probe of the type alone.
pub proof fn law_analyze_type_expr(expr: &str, r: String, lifetimes: String)
    requires
        call_ensures(analyze_type_expr, (expr,), r),
        call_ensures(add_static_lifetime, (expr,), lifetimes),
    ensures
        r@ == snippet_source("struct _Probe("@ + lifetimes@ + ");"@),
        with_lifetimes(lifetimes@) == lifetimes@,
{
    law_lifetimes_idempotent(expr@);
}

} // verus!
