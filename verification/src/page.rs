//! The site's pages.
use vstd::prelude::*;
use vstd::slice::slice_subrange;

use crate::config::SiteConfig;
use crate::render::VERSION;
use crate::text::{
    append_chars, begins, chars_of, concat_assoc, find, first_occurrence, lemma_first_occurrence,
    occurs, occurs_at, opt_view,
};

verus! {

// ── escaping ───────────────────────────────────────────────

/// A character as it is written in a page.
pub open spec fn entity(c: char) -> Seq<char> {
    if c == '&' {
        "&amp;"@
    } else if c == '<' {
        "&lt;"@
    } else if c == '>' {
        "&gt;"@
    } else if c == '"' {
        "&quot;"@
    } else if c == '\'' {
        "&#x27;"@
    } else {
        seq![c]
    }
}

/// A text as it is written in a page.
pub open spec fn escaped(s: Seq<char>) -> Seq<char>
    decreases s.len(),
{
    if s.len() == 0 {
        Seq::empty()
    } else {
        escaped(s.drop_last()) + entity(s.last())
    }
}

fn append_entity(out: &mut String, c: char)
    ensures
        final(out)@ == old(out)@ + entity(c),
{
    match c {
        '&' => out.append("&amp;"),
        '<' => out.append("&lt;"),
        '>' => out.append("&gt;"),
        '"' => out.append("&quot;"),
        '\'' => out.append("&#x27;"),
        _ => {
            out.push(c);
            assert(out@ =~= old(out)@ + seq![c]);
        },
    }
}

/// Writes a text for a page.
pub fn html_escape(s: &str) -> (r: String)
    ensures
        r@ == escaped(s@),
{
    let chars = chars_of(s);
    let mut out = String::new();
    for i in 0..chars.len()
        invariant
            chars@ == s@,
            out@ == escaped(s@.take(i as int)),
    {
        assert(s@.take(i + 1).drop_last() =~= s@.take(i as int));
        append_entity(&mut out, chars[i]);
    }
    assert(s@.take(s@.len() as int) =~= s@);
    out
}

// ── the footer ─────────────────────────────────────────────

/// The compiler's version, with a link to its source where that is known.
pub open spec fn compiler_part(rustc_version: Seq<char>, rustc_hash: Seq<char>) -> Seq<char> {
    if rustc_hash.len() == 0 {
        escaped(rustc_version)
    } else {
        escaped(rustc_version) + " (<a href=\"https://github.com/rust-lang/rust/tree/"@ + escaped(
            rustc_hash,
        ) + "\">"@ + escaped(rustc_hash) + "</a>)"@
    }
}

/// The author, with a link where one is known.
pub open spec fn author_part(author: Seq<char>, author_url: Option<Seq<char>>) -> Seq<char> {
    match author_url {
        Some(url) => "<a href=\""@ + escaped(url) + "\">"@ + escaped(author) + "</a>"@,
        None => escaped(author),
    }
}

/// The footer of the site's pages.
pub open spec fn footer(
    author: Option<Seq<char>>,
    author_url: Option<Seq<char>>,
    rustc_version: Seq<char>,
    rustc_hash: Seq<char>,
) -> Seq<char> {
    let versions = "<a href=\"https://crates.io/crates/nichy\">nichy</a> "@ + escaped(VERSION@)
        + " · "@ + compiler_part(rustc_version, rustc_hash);
    match author {
        Some(name) => versions + " · by "@ + author_part(name, author_url),
        None => versions,
    }
}

/// Writes the footer of the site's pages.
pub fn footer_html(cfg: &SiteConfig, rustc_version: &str, rustc_hash: &str) -> (r: String)
    ensures
        r@ == footer(
            opt_view(cfg.author),
            opt_view(cfg.author_url),
            rustc_version@,
            rustc_hash@,
        ),
{
    broadcast use concat_assoc;

    let mut out = "<a href=\"https://crates.io/crates/nichy\">nichy</a> ".to_owned();
    out.append(html_escape(VERSION).as_str());
    out.append(" · ");
    out.append(html_escape(rustc_version).as_str());
    if !rustc_hash.is_empty() {
        let h = html_escape(rustc_hash);
        out.append(" (<a href=\"https://github.com/rust-lang/rust/tree/");
        out.append(h.as_str());
        out.append("\">");
        out.append(h.as_str());
        out.append("</a>)");
    }
    match &cfg.author {
        Some(author) => {
            out.append(" · by ");
            let name = html_escape(author.as_str());
            match &cfg.author_url {
                Some(url) => {
                    out.append("<a href=\"");
                    out.append(html_escape(url.as_str()).as_str());
                    out.append("\">");
                    out.append(name.as_str());
                    out.append("</a>");
                },
                None => {
                    out.append(name.as_str());
                },
            }
        },
        None => {},
    }
    out
}

// ── pages ──────────────────────────────────────────────────

/// `s` with `with` in place of every `pat`, from left to right.
pub open spec fn replaced(s: Seq<char>, pat: Seq<char>, with: Seq<char>) -> Seq<char>
    decreases s.len(),
{
    match first_occurrence(s, pat) {
        Some(k) if 0 <= k && pat.len() > 0 && k + pat.len() <= s.len() => s.take(k) + with
            + replaced(s.skip(k + pat.len()), pat, with),
        _ => s,
    }
}

fn replace(s: &[char], pat: &str, with: &str) -> (r: String)
    requires
        pat@.len() > 0,
    ensures
        r@ == replaced(s@, pat@, with@),
{
    let n = chars_of(pat).len();
    let mut out = String::new();
    let mut pos: usize = 0;
    assert(s@.skip(0) =~= s@);
    assert(out@ + replaced(s@, pat@, with@) =~= replaced(s@, pat@, with@));
    loop
        invariant
            n == pat@.len(),
            n > 0,
            pos <= s@.len(),
            replaced(s@, pat@, with@) == out@ + replaced(s@.skip(pos as int), pat@, with@),
        decreases s@.len() - pos,
    {
        let rest = slice_subrange(s, pos, s.len());
        assert(rest@ =~= s@.skip(pos as int));
        let ghost before = out@;
        match find(rest, pat) {
            Some(k) => {
                append_chars(&mut out, slice_subrange(rest, 0, k));
                out.append(with);
                proof {
                    assert(rest@.subrange(0, k as int) =~= rest@.take(k as int));
                    assert(rest@.skip(k + n) =~= s@.skip(pos + k + n));
                    let tail = replaced(s@.skip(pos + k + n), pat@, with@);
                    concat_assoc(before, rest@.take(k as int) + with@, tail);
                    concat_assoc(before, rest@.take(k as int), with@);
                }
                pos = pos + k + n;
            },
            None => {
                append_chars(&mut out, rest);
                return out;
            },
        }
    }
}

/// A page: the template with the site's name and its footer in their places.
pub open spec fn page(
    template: Seq<char>,
    site_name: Option<Seq<char>>,
    footer: Seq<char>,
) -> Seq<char> {
    let name = match site_name {
        Some(name) => name,
        None => "nichy"@,
    };
    replaced(replaced(template, "{{SITE_NAME}}"@, escaped(name)), "{{FOOTER}}"@, footer)
}

/// Fills a template.
pub fn render_page(template: &str, cfg: &SiteConfig, rustc_version: &str, rustc_hash: &str) -> (r:
    String)
    ensures
        r@ == page(
            template@,
            opt_view(cfg.site_name),
            footer(opt_view(cfg.author), opt_view(cfg.author_url), rustc_version@, rustc_hash@),
        ),
{
    proof {
        reveal_strlit("{{SITE_NAME}}");
        reveal_strlit("{{FOOTER}}");
    }
    let site_name = match &cfg.site_name {
        Some(name) => html_escape(name.as_str()),
        None => html_escape("nichy"),
    };
    let footer = footer_html(cfg, rustc_version, rustc_hash);
    let named = replace(&chars_of(template), "{{SITE_NAME}}", site_name.as_str());
    replace(&chars_of(named.as_str()), "{{FOOTER}}", footer.as_str())
}

// ── laws ───────────────────────────────────────────────────

/// Nothing in an escaped text opens or closes a tag or a quoted attribute.
pub proof fn law_escaped_is_inert(s: Seq<char>)
    ensures
        forall|i: int|
            0 <= i < escaped(s).len() ==> {
                let c = #[trigger] escaped(s)[i];
                c != '<' && c != '>' && c != '"' && c != '\''
            },
    decreases s.len(),
{
    reveal_strlit("&amp;");
    reveal_strlit("&lt;");
    reveal_strlit("&gt;");
    reveal_strlit("&quot;");
    reveal_strlit("&#x27;");
    if s.len() > 0 {
        let before = escaped(s.drop_last());
        law_escaped_is_inert(s.drop_last());
        assert forall|i: int| 0 <= i < escaped(s).len() implies {
            let c = #[trigger] escaped(s)[i];
            c != '<' && c != '>' && c != '"' && c != '\''
        } by {
            if i >= before.len() {
                assert(escaped(s)[i] == entity(s.last())[i - before.len()]);
            }
        }
    }
}

/// Texts without a special character are written as they are.
pub proof fn law_plain_text_passes_through(s: Seq<char>)
    requires
        forall|i: int|
            0 <= i < s.len() ==> {
                let c = #[trigger] s[i];
                c != '&' && c != '<' && c != '>' && c != '"' && c != '\''
            },
    ensures
        escaped(s) == s,
    decreases s.len(),
{
    if s.len() > 0 {
        assert(s.last() == s[s.len() - 1]);
        assert forall|i: int| 0 <= i < s.drop_last().len() implies {
            let c = #[trigger] s.drop_last()[i];
            c != '&' && c != '<' && c != '>' && c != '"' && c != '\''
        } by {
            assert(s.drop_last()[i] == s[i]);
        }
        law_plain_text_passes_through(s.drop_last());
        assert(s =~= s.drop_last() + seq![s.last()]);
    }
}

proof fn lemma_escaped_front(s: Seq<char>)
    requires
        s.len() > 0,
    ensures
        escaped(s) == entity(s[0]) + escaped(s.drop_first()),
    decreases s.len(),
{
    if s.len() == 1 {
        assert(s.drop_last() =~= Seq::empty());
        assert(s.drop_first() =~= Seq::empty());
        assert(Seq::<char>::empty() + entity(s[0]) =~= entity(s[0]) + Seq::<char>::empty());
    } else {
        lemma_escaped_front(s.drop_last());
        assert(s.drop_last().drop_first() =~= s.drop_first().drop_last());
        assert(s.drop_last()[0] == s[0]);
        concat_assoc(entity(s[0]), escaped(s.drop_first().drop_last()), entity(s.last()));
    }
}

/// Different texts are written differently: nothing is lost.
pub proof fn law_escaping_tells_texts_apart(a: Seq<char>, b: Seq<char>)
    requires
        escaped(a) == escaped(b),
    ensures
        a == b,
    decreases a.len(),
{
    reveal_strlit("&amp;");
    reveal_strlit("&lt;");
    reveal_strlit("&gt;");
    reveal_strlit("&quot;");
    reveal_strlit("&#x27;");
    if a.len() > 0 {
        lemma_escaped_front(a);
        assert(entity(a[0]).len() > 0);
    }
    if b.len() > 0 {
        lemma_escaped_front(b);
        assert(entity(b[0]).len() > 0);
    }
    if a.len() > 0 && b.len() > 0 {
        let x = entity(a[0]);
        let y = entity(b[0]);
        assert(escaped(a)[0] == x[0]);
        assert(escaped(b)[0] == y[0]);
        if x.len() > 1 {
            assert(escaped(a)[1] == x[1]);
        }
        if y.len() > 1 {
            assert(escaped(b)[1] == y[1]);
        }
        assert(a[0] == b[0]);
        assert(escaped(a).skip(x.len() as int) =~= escaped(a.drop_first()));
        assert(escaped(b).skip(y.len() as int) =~= escaped(b.drop_first()));
        law_escaping_tells_texts_apart(a.drop_first(), b.drop_first());
        assert(a =~= seq![a[0]] + a.drop_first());
        assert(b =~= seq![b[0]] + b.drop_first());
    } else {
        assert(a =~= b);
    }
}

/// Texts are escaped piece by piece.
pub proof fn law_escaping_goes_piece_by_piece(a: Seq<char>, b: Seq<char>)
    ensures
        escaped(a + b) == escaped(a) + escaped(b),
    decreases b.len(),
{
    if b.len() == 0 {
        assert(a + b =~= a);
        assert(escaped(a) + escaped(b) =~= escaped(a));
    } else {
        law_escaping_goes_piece_by_piece(a, b.drop_last());
        assert((a + b).drop_last() =~= a + b.drop_last());
        assert((a + b).last() == b.last());
        concat_assoc(escaped(a), escaped(b.drop_last()), entity(b.last()));
    }
}

/// The character whose entity stands at the start of the text, if one does.
pub open spec fn entity_at_start(s: Seq<char>) -> Option<char> {
    if begins(s, "&amp;"@) {
        Some('&')
    } else if begins(s, "&lt;"@) {
        Some('<')
    } else if begins(s, "&gt;"@) {
        Some('>')
    } else if begins(s, "&quot;"@) {
        Some('"')
    } else if begins(s, "&#x27;"@) {
        Some('\'')
    } else {
        None
    }
}

/// The text with the characters in place of their entities, in one pass.
pub open spec fn unescaped(s: Seq<char>) -> Seq<char>
    decreases s.len(),
{
    if s.len() == 0 {
        Seq::empty()
    } else {
        match entity_at_start(s) {
            Some(c) if 0 < entity(c).len() <= s.len() => seq![c] + unescaped(
                s.skip(entity(c).len() as int),
            ),
            _ => seq![s[0]] + unescaped(s.drop_first()),
        }
    }
}

/// An entity in front of any text is recognized, and so is a character that needs none.
proof fn lemma_entity_at_start(c: char, rest: Seq<char>)
    ensures
        entity(c).len() > 0,
        entity(c).len() > 1 ==> entity(c)[0] == '&' && entity_at_start(entity(c) + rest) == Some(c),
        entity(c).len() == 1 ==> c != '&' && entity(c)[0] == c && entity_at_start(entity(c) + rest)
            is None,
        forall|i: int| 0 < i < entity(c).len() ==> #[trigger] entity(c)[i] != '&',
{
    reveal_strlit("&amp;");
    reveal_strlit("&lt;");
    reveal_strlit("&gt;");
    reveal_strlit("&quot;");
    reveal_strlit("&#x27;");
    let e = entity(c);
    let s = e + rest;
    assert(s.take(e.len() as int) =~= e);
    assert(s[0] == e[0]);
    if e.len() > 1 {
        assert(s[1] == e[1]);
    }
    assert(begins(s, "&amp;"@) ==> s.take(5)[0] == s[0] && s.take(5)[1] == s[1]);
    assert(begins(s, "&lt;"@) ==> s.take(4)[0] == s[0] && s.take(4)[1] == s[1]);
    assert(begins(s, "&gt;"@) ==> s.take(4)[0] == s[0] && s.take(4)[1] == s[1]);
    assert(begins(s, "&quot;"@) ==> s.take(6)[0] == s[0] && s.take(6)[1] == s[1]);
    assert(begins(s, "&#x27;"@) ==> s.take(6)[0] == s[0] && s.take(6)[1] == s[1]);
}

/// Putting the characters back in place of their entities gives the text.
pub proof fn law_escaping_can_be_undone(s: Seq<char>)
    ensures
        unescaped(escaped(s)) == s,
    decreases s.len(),
{
    if s.len() > 0 {
        let e = entity(s[0]);
        let rest = escaped(s.drop_first());
        lemma_escaped_front(s);
        lemma_entity_at_start(s[0], rest);
        law_escaping_can_be_undone(s.drop_first());
        assert(escaped(s).skip(e.len() as int) =~= rest);
        assert(escaped(s).drop_first() =~= escaped(s).skip(1));
        assert(escaped(s)[0] == e[0]);
        assert(seq![s[0]] + s.drop_first() =~= s);
    }
}

/// Every ampersand of an escaped text starts an entity.
pub proof fn law_ampersands_start_entities(s: Seq<char>, i: int)
    requires
        0 <= i < escaped(s).len(),
        escaped(s)[i] == '&',
    ensures
        entity_at_start(escaped(s).skip(i)) is Some,
    decreases s.len(),
{
    let e = entity(s[0]);
    let rest = escaped(s.drop_first());
    lemma_escaped_front(s);
    lemma_entity_at_start(s[0], rest);
    if i < e.len() {
        assert(escaped(s)[i] == e[i]);
        assert(escaped(s).skip(0) =~= escaped(s));
    } else {
        assert(rest[i - e.len()] == escaped(s)[i]);
        law_ampersands_start_entities(s.drop_first(), i - e.len());
        assert(escaped(s).skip(i) =~= rest.skip(i - e.len()));
    }
}

/// A text in which a mark does not stand is left as it is.  Where it stands, what is before its first
/// place stays, the other text comes in its place, and what is behind is treated alike.
pub proof fn law_marks_are_replaced(s: Seq<char>, pat: Seq<char>, with: Seq<char>)
    requires
        pat.len() > 0,
    ensures
        !occurs(s, pat) ==> replaced(s, pat, with) == s,
        occurs(s, pat) ==> exists|k: int| #[trigger]
            occurs_at(s, pat, k) && (forall|j: int| 0 <= j < k ==> !(#[trigger] occurs_at(s, pat, j)))
                && replaced(s, pat, with) == s.take(k) + with + replaced(
                s.skip(k + pat.len()),
                pat,
                with,
            ),
{
    lemma_first_occurrence(s, pat);
}

/// A page has the name of the site in place of its mark, `nichy` where it has no name, and then the
/// footer in place of its own; a template without marks is the page.
pub proof fn law_pages_are_filled(
    template: Seq<char>,
    site_name: Option<Seq<char>>,
    footer: Seq<char>,
)
    ensures
        !occurs(template, "{{SITE_NAME}}"@) && !occurs(template, "{{FOOTER}}"@) ==> page(
            template,
            site_name,
            footer,
        ) == template,
        !occurs(template, "{{SITE_NAME}}"@) ==> page(template, site_name, footer) == replaced(
            template,
            "{{FOOTER}}"@,
            footer,
        ),
        site_name matches Some(name) ==> !occurs(
            replaced(template, "{{SITE_NAME}}"@, escaped(name)),
            "{{FOOTER}}"@,
        ) ==> page(template, site_name, footer) == replaced(
            template,
            "{{SITE_NAME}}"@,
            escaped(name),
        ),
        site_name is None ==> page(template, site_name, footer) == page(
            template,
            Some("nichy"@),
            footer,
        ),
{
    reveal_strlit("{{SITE_NAME}}");
    reveal_strlit("{{FOOTER}}");
    let name = match site_name {
        Some(name) => name,
        None => "nichy"@,
    };
    law_marks_are_replaced(template, "{{SITE_NAME}}"@, escaped(name));
    let named = replaced(template, "{{SITE_NAME}}"@, escaped(name));
    law_marks_are_replaced(named, "{{FOOTER}}"@, footer);
}

/// The footer says the compiler's version, with a link to its commit where that is known, and behind
/// it the author, with a link where there is one; an address without an author is not shown.  Every
/// text is escaped.
pub proof fn law_footers_say_who_and_what(
    author: Option<Seq<char>>,
    author_url: Option<Seq<char>>,
    version: Seq<char>,
    hash: Seq<char>,
)
    ensures
        author is None ==> footer(author, author_url, version, hash) == footer(
            None,
            None,
            version,
            hash,
        ),
        author matches Some(name) ==> {
            let before = footer(None, None, version, hash) + " · by "@;
            let whole = footer(author, author_url, version, hash);
            &&& author_url is None ==> whole == before + escaped(name)
            &&& author_url matches Some(url) ==> whole == before + ("<a href=\""@ + escaped(url)
                + "\">"@ + escaped(name) + "</a>"@)
        },
        hash.len() > 0 ==> footer(None, None, version, hash) == footer(None, None, version, Seq::empty())
            + (" (<a href=\"https://github.com/rust-lang/rust/tree/"@ + escaped(hash) + "\">"@
            + escaped(hash) + "</a>)"@),
        footer(None, None, version, Seq::empty())
            == "<a href=\"https://crates.io/crates/nichy\">nichy</a> "@ + escaped(VERSION@) + " · "@
            + escaped(version),
{
    broadcast use concat_assoc;

}

/// Whoever escapes a text gets one in which nothing opens a tag or ends an attribute, and from which
/// the text is read back.
pub proof fn law_html_escape(s: &str, r: String)
    requires
        call_ensures(html_escape, (s,), r),
    ensures
        unescaped(r@) == s@,
        forall|i: int|
            0 <= i < r@.len() ==> #[trigger] r@[i] != '<' && r@[i] != '>' && r@[i] != '"' && r@[i]
                != '\'',
{
    law_escaped_is_inert(s@);
    law_escaping_can_be_undone(s@);
    assert forall|i: int| 0 <= i < r@.len() implies #[trigger] r@[i] != '<' && r@[i] != '>' && r@[i]
        != '"' && r@[i] != '\'' by {
        assert(escaped(s@)[i] == r@[i]);
    }
}

/// Whoever fills a template gets it with the name of the site and the footer of the site.
pub proof fn law_render_page(
    template: &str,
    cfg: &SiteConfig,
    rustc_version: &str,
    rustc_hash: &str,
    footer: String,
    r: String,
)
    requires
        call_ensures(footer_html, (cfg, rustc_version, rustc_hash), footer),
        call_ensures(render_page, (template, cfg, rustc_version, rustc_hash), r),
    ensures
        !occurs(template@, "{{SITE_NAME}}"@) && !occurs(template@, "{{FOOTER}}"@) ==> r@
            == template@,
        !occurs(template@, "{{SITE_NAME}}"@) ==> r@ == replaced(
            template@,
            "{{FOOTER}}"@,
            footer@,
        ),
{
    law_pages_are_filled(template@, opt_view(cfg.site_name), footer@);
}

} // verus!
