//! What a request brings, in the form in which it is used.
use vstd::prelude::*;
use vstd::slice::slice_subrange;

use crate::text::{
    append_chars, chars_of, first_index, join, lemma_first_index, lemma_first_index_is, one_line,
    same, split, split_at_char, str_opt_view, texts, trim, trimmed,
};

verus! {

// ── targets ────────────────────────────────────────────────

/// The target of a request that names none.
pub const DEFAULT_TARGET: &'static str = "x86_64-unknown-linux-gnu";

/// The targets that a request may name.
pub const ALLOWED_TARGETS: [&'static str; 4] = [
    "x86_64-unknown-linux-gnu",
    "aarch64-unknown-linux-gnu",
    "i686-unknown-linux-gnu",
    "wasm32-unknown-unknown",
];

/// The text is an allowed target.
pub open spec fn allowed_target(t: Seq<char>) -> bool {
    exists|i: int| 0 <= i < ALLOWED_TARGETS@.len() && #[trigger] ALLOWED_TARGETS@[i]@ == t
}

/// The target that a request means: the default where it names none, none where it names one
/// that is not allowed.
pub open spec fn target_of(t: Option<Seq<char>>) -> Option<Seq<char>> {
    let s = match t {
        Some(s) => trim(s),
        None => Seq::empty(),
    };
    if s.len() == 0 {
        Some(DEFAULT_TARGET@)
    } else if allowed_target(s) {
        Some(s)
    } else {
        None
    }
}

/// Brings the `target` field of a request in its one form: missing or empty means the
/// default, anything else has to be an allowed target.
pub fn normalize_target(t: Option<&str>) -> (r: Result<&'static str, &'static str>)
    ensures
        match r {
            Ok(s) => target_of(str_opt_view(t)) == Some(s@),
            Err(e) => target_of(str_opt_view(t)) is None && e@ == "invalid target"@,
        },
{
    let chars = match t {
        Some(s) => chars_of(s),
        None => Vec::new(),
    };
    let s = trimmed(&chars);
    proof {
        if t is None {
            assert(chars@ =~= Seq::<char>::empty());
            assert(trim(Seq::<char>::empty()) == Seq::<char>::empty());
        }
    }
    if s.len() == 0 {
        return Ok(DEFAULT_TARGET);
    }
    let targets = ALLOWED_TARGETS;
    for i in 0..targets.len()
        invariant
            targets == ALLOWED_TARGETS,
            s@.len() > 0,
            target_of(str_opt_view(t)) == (if allowed_target(s@) {
                Some(s@)
            } else {
                None
            }),
            forall|j: int| 0 <= j < i ==> #[trigger] ALLOWED_TARGETS@[j]@ != s@,
    {
        if same(&chars_of(targets[i]), s) {
            assert(ALLOWED_TARGETS@[i as int]@ == s@);
            return Ok(targets[i]);
        }
    }
    Err("invalid target")
}

// ── content ────────────────────────────────────────────────

/// The line without the spaces and tabs at its end.
pub open spec fn trim_blanks(s: Seq<char>) -> Seq<char>
    decreases s.len(),
{
    if s.len() > 0 && (s.last() == ' ' || s.last() == '\t') {
        trim_blanks(s.drop_last())
    } else {
        s
    }
}

/// The content without spaces and tabs at the ends of its lines.
pub open spec fn normalized(s: Seq<char>) -> Seq<char> {
    join(split(s, '\n').map_values(|line: Seq<char>| trim_blanks(line)), "\n"@)
}

fn trimmed_blanks<'a>(s: &'a [char]) -> (r: &'a [char])
    ensures
        r@ == trim_blanks(s@),
{
    let mut i: usize = s.len();
    assert(s@.take(s@.len() as int) =~= s@);
    while i > 0 && (s[i - 1] == ' ' || s[i - 1] == '\t')
        invariant
            i <= s@.len(),
            trim_blanks(s@) == trim_blanks(s@.take(i as int)),
        decreases i,
    {
        assert(s@.take(i as int).drop_last() =~= s@.take(i - 1));
        i = i - 1;
    }
    assert(s@.subrange(0, i as int) =~= s@.take(i as int));
    slice_subrange(s, 0, i)
}

/// Strips trailing horizontal white space from each line.  Line feeds and leading white space
/// are kept.
pub fn normalize_content(s: &str) -> (r: String)
    ensures
        r@ == normalized(s@),
{
    let chars = chars_of(s);
    let ls = split_at_char(&chars, '\n');
    let ghost trimmed = split(s@, '\n').map_values(|line: Seq<char>| trim_blanks(line));
    let mut out = String::new();
    assert(trimmed.len() == ls@.len());
    for i in 0..ls.len()
        invariant
            texts(ls@) == split(s@, '\n'),
            trimmed == split(s@, '\n').map_values(|line: Seq<char>| trim_blanks(line)),
            trimmed.len() == ls@.len(),
            out@ == join(trimmed.take(i as int), "\n"@),
    {
        let ghost done = trimmed.take(i as int);
        let ghost next = trimmed.take(i + 1);
        assert(next.drop_last() =~= done);
        assert(texts(ls@)[i as int] == ls@[i as int]@);
        if i > 0 {
            out.append("\n");
        }
        append_chars(&mut out, trimmed_blanks(ls[i]));
        assert(next.last() == trim_blanks(ls@[i as int]@));
        if i == 0 {
            assert(Seq::<char>::empty() + next.last() =~= next.last());
            assert(next[0] == next.last());
        }
    }
    assert(trimmed.take(trimmed.len() as int) =~= trimmed);
    out
}

// ── laws ───────────────────────────────────────────────────

/// A target in its one form is an allowed one, and stays what it is.
pub proof fn law_target_is_settled(t: Option<Seq<char>>)
    requires
        target_of(t) is Some,
    ensures
        allowed_target(target_of(t)->0),
        target_of(Some(target_of(t)->0)) == target_of(t),
{
    let s = target_of(t)->0;
    assert(ALLOWED_TARGETS@[0]@ == DEFAULT_TARGET@);
    assert(allowed_target(s));
    lemma_allowed_is_trimmed(s);
}

/// The allowed targets are plain ASCII words without white space.
pub proof fn lemma_allowed_is_trimmed(s: Seq<char>)
    requires
        allowed_target(s),
    ensures
        trim(s) == s,
        0 < s.len() <= 96,
        forall|i: int|
            0 <= i < s.len() ==> ('a' <= #[trigger] s[i] <= 'z' || '0' <= s[i] <= '9' || s[i] == '-'
                || s[i] == '_'),
{
    reveal_strlit("x86_64-unknown-linux-gnu");
    reveal_strlit("aarch64-unknown-linux-gnu");
    reveal_strlit("i686-unknown-linux-gnu");
    reveal_strlit("wasm32-unknown-unknown");
    let i = choose|i: int|
        0 <= i < ALLOWED_TARGETS@.len() && #[trigger] ALLOWED_TARGETS@[i]@ == s;
    assert(i == 0 || i == 1 || i == 2 || i == 3);
}

proof fn lemma_trim_blanks(s: Seq<char>)
    ensures
        trim_blanks(trim_blanks(s)) == trim_blanks(s),
        trim_blanks(s).len() <= s.len(),
        trim_blanks(s) == s.take(trim_blanks(s).len() as int),
    decreases s.len(),
{
    if s.len() > 0 && (s.last() == ' ' || s.last() == '\t') {
        lemma_trim_blanks(s.drop_last());
        let n = trim_blanks(s).len() as int;
        assert(s.drop_last().take(n) =~= s.take(n));
    } else {
        assert(s.take(s.len() as int) =~= s);
    }
}

proof fn lemma_split_lines_are_single(s: Seq<char>)
    ensures
        split(s, '\n').len() > 0,
        forall|i: int| 0 <= i < split(s, '\n').len() ==> one_line(#[trigger] split(s, '\n')[i]),
    decreases s.len(),
{
    lemma_first_index(s, '\n');
    let k = first_index(s, '\n');
    if k < s.len() {
        let rest = s.skip(k + 1);
        lemma_split_lines_are_single(rest);
        assert forall|i: int| 0 <= i < split(s, '\n').len() implies one_line(
            #[trigger] split(s, '\n')[i],
        ) by {
            if i > 0 {
                assert(split(s, '\n')[i] == split(rest, '\n')[i - 1]);
            }
        }
    }
}

proof fn lemma_join_front(parts: Seq<Seq<char>>, sep: Seq<char>)
    requires
        parts.len() > 1,
    ensures
        join(parts, sep) == parts[0] + sep + join(parts.drop_first(), sep),
    decreases parts.len(),
{
    let rest = parts.drop_first();
    let init = parts.drop_last();
    assert(join(parts, sep) == join(init, sep) + sep + parts.last());
    if parts.len() == 2 {
        assert(join(init, sep) == parts[0]);
        assert(join(rest, sep) == parts.last());
    } else {
        lemma_join_front(init, sep);
        assert(init.drop_first() =~= rest.drop_last());
        assert(init[0] == parts[0]);
        assert(rest.last() == parts.last());
        let middle = join(rest.drop_last(), sep);
        assert(join(rest, sep) == middle + sep + parts.last());
        assert(parts[0] + sep + middle + sep + parts.last() =~= parts[0] + sep + (middle + sep
            + parts.last()));
    }
}

/// Joining lines and splitting the result gives the lines back.
pub proof fn lemma_split_join(parts: Seq<Seq<char>>)
    requires
        parts.len() > 0,
        forall|i: int| 0 <= i < parts.len() ==> one_line(#[trigger] parts[i]),
    ensures
        split(join(parts, "\n"@), '\n') == parts,
    decreases parts.len(),
{
    reveal_strlit("\n");
    let s = join(parts, "\n"@);
    assert(one_line(parts[0]));
    if parts.len() == 1 {
        lemma_first_index_is(s, '\n', s.len() as int);
        assert(split(s, '\n') =~= parts);
    } else {
        let rest = parts.drop_first();
        lemma_join_front(parts, "\n"@);
        let k = parts[0].len() as int;
        lemma_first_index_is(s, '\n', k);
        assert(s.take(k) =~= parts[0]);
        assert(s.skip(k + 1) =~= join(rest, "\n"@));
        assert forall|i: int| 0 <= i < rest.len() implies one_line(#[trigger] rest[i]) by {
            assert(rest[i] == parts[i + 1]);
        }
        lemma_split_join(rest);
        assert(seq![parts[0]] + rest =~= parts);
    }
}

/// Normal content stays what it is.
pub proof fn law_normalizing_is_idempotent(s: Seq<char>)
    ensures
        normalized(normalized(s)) == normalized(s),
{
    let strip = |line: Seq<char>| trim_blanks(line);
    let parts = split(s, '\n');
    let trimmed = parts.map_values(strip);
    lemma_split_lines_are_single(s);
    assert forall|i: int| 0 <= i < trimmed.len() implies one_line(#[trigger] trimmed[i]) by {
        lemma_trim_blanks(parts[i]);
        assert(one_line(parts[i]));
        assert(trimmed[i] == parts[i].take(trimmed[i].len() as int));
        assert forall|j: int| 0 <= j < trimmed[i].len() implies #[trigger] trimmed[i][j] != '\n' by {
            assert(trimmed[i][j] == parts[i][j]);
        }
    }
    lemma_split_join(trimmed);
    assert forall|i: int| 0 <= i < trimmed.len() implies trim_blanks(#[trigger] trimmed[i])
        == trimmed[i] by {
        lemma_trim_blanks(parts[i]);
    }
    assert(trimmed.map_values(strip) =~= trimmed);
}

/// Content keeps its lines: as many as there were, each without the blanks at its end.
pub proof fn law_normalizing_keeps_lines(s: Seq<char>)
    ensures
        split(normalized(s), '\n') == split(s, '\n').map_values(
            |line: Seq<char>| trim_blanks(line),
        ),
{
    let strip = |line: Seq<char>| trim_blanks(line);
    let parts = split(s, '\n');
    let trimmed = parts.map_values(strip);
    lemma_split_lines_are_single(s);
    assert forall|i: int| 0 <= i < trimmed.len() implies one_line(#[trigger] trimmed[i]) by {
        lemma_trim_blanks(parts[i]);
        assert(one_line(parts[i]));
        assert forall|j: int| 0 <= j < trimmed[i].len() implies #[trigger] trimmed[i][j] != '\n' by {
            assert(trimmed[i][j] == parts[i][j]);
        }
    }
    lemma_split_join(trimmed);
}

/// No target, one of white space alone and the first allowed one mean the same, and every allowed
/// target means itself, with any white space around it.  Nothing else is a target.
pub proof fn law_targets_are_the_allowed_ones(t: Option<Seq<char>>)
    ensures
        target_of(None) == Some("x86_64-unknown-linux-gnu"@),
        match t {
            None => true,
            Some(s) => match target_of(t) {
                Some(x) => {
                    ||| trim(s).len() == 0 && x == "x86_64-unknown-linux-gnu"@
                    ||| trim(s) == x && is_known(x)
                },
                None => trim(s).len() > 0 && !is_known(trim(s)),
            },
        },
{
    reveal_strlit("x86_64-unknown-linux-gnu");
    reveal_strlit("aarch64-unknown-linux-gnu");
    reveal_strlit("i686-unknown-linux-gnu");
    reveal_strlit("wasm32-unknown-unknown");
    match t {
        Some(s) => {
            let x = trim(s);
            assert(ALLOWED_TARGETS@[0]@ == "x86_64-unknown-linux-gnu"@);
            assert(ALLOWED_TARGETS@[1]@ == "aarch64-unknown-linux-gnu"@);
            assert(ALLOWED_TARGETS@[2]@ == "i686-unknown-linux-gnu"@);
            assert(ALLOWED_TARGETS@[3]@ == "wasm32-unknown-unknown"@);
            if allowed_target(x) {
                let i = choose|i: int|
                    0 <= i < ALLOWED_TARGETS@.len() && #[trigger] ALLOWED_TARGETS@[i]@ == x;
                assert(i == 0 || i == 1 || i == 2 || i == 3);
            }
        },
        None => {},
    }
}

/// The targets that the site knows.
pub open spec fn is_known(t: Seq<char>) -> bool {
    ||| t == "x86_64-unknown-linux-gnu"@
    ||| t == "aarch64-unknown-linux-gnu"@
    ||| t == "i686-unknown-linux-gnu"@
    ||| t == "wasm32-unknown-unknown"@
}

/// A space or a tab.
pub open spec fn is_blank_char(c: char) -> bool {
    c == ' ' || c == '\t'
}

proof fn lemma_trim_blanks_is(s: Seq<char>)
    ensures
        ({
            let r = trim_blanks(s);
            &&& r.len() <= s.len()
            &&& r == s.take(r.len() as int)
            &&& forall|i: int| r.len() <= i < s.len() ==> is_blank_char(#[trigger] s[i])
            &&& r.len() > 0 ==> !is_blank_char(r.last())
        }),
    decreases s.len(),
{
    if s.len() > 0 && (s.last() == ' ' || s.last() == '\t') {
        let t = s.drop_last();
        lemma_trim_blanks_is(t);
        let r = trim_blanks(s);
        assert(t.take(r.len() as int) =~= s.take(r.len() as int));
        assert forall|i: int| r.len() <= i < s.len() implies is_blank_char(#[trigger] s[i]) by {
            if i < t.len() {
                assert(t[i] == s[i]);
            }
        }
    } else {
        assert(s.take(s.len() as int) =~= s);
    }
}

/// Content has as many lines as before.  Each is what the line was up to some character, what it
/// lost is spaces and tabs alone, and none is left at its end.
pub proof fn law_lines_lose_only_blanks(s: Seq<char>, i: int)
    requires
        0 <= i < split(s, '\n').len(),
    ensures
        split(normalized(s), '\n').len() == split(s, '\n').len(),
        ({
            let before = split(s, '\n')[i];
            let after = split(normalized(s), '\n')[i];
            &&& after.len() <= before.len()
            &&& after == before.take(after.len() as int)
            &&& forall|k: int|
                after.len() <= k < before.len() ==> is_blank_char(#[trigger] before[k])
            &&& after.len() > 0 ==> !is_blank_char(after.last())
        }),
{
    law_normalizing_keeps_lines(s);
    lemma_trim_blanks_is(split(s, '\n')[i]);
}

/// Lines that a text was split in make up the text.
pub proof fn law_splitting_can_be_undone(s: Seq<char>)
    ensures
        join(split(s, '\n'), "\n"@) == s,
        forall|i: int| 0 <= i < split(s, '\n').len() ==> one_line(#[trigger] split(s, '\n')[i]),
    decreases s.len(),
{
    reveal_strlit("\n");
    lemma_split_lines_are_single(s);
    lemma_first_index(s, '\n');
    let k = first_index(s, '\n');
    if k < s.len() {
        let rest = s.skip(k + 1);
        law_splitting_can_be_undone(rest);
        let parts = split(s, '\n');
        lemma_split_lines_are_single(rest);
        assert(parts.drop_first() =~= split(rest, '\n'));
        lemma_join_front(parts, "\n"@);
        assert(s.take(k) + "\n"@ + rest =~= s);
    }
}

/// Content without spaces and tabs before line feeds and at its end stays as it is.
pub proof fn law_normal_content_stays(s: Seq<char>)
    requires
        forall|i: int|
            0 <= i < split(s, '\n').len() && (#[trigger] split(s, '\n')[i]).len() > 0
                ==> !is_blank_char(split(s, '\n')[i].last()),
    ensures
        normalized(s) == s,
{
    let parts = split(s, '\n');
    assert forall|i: int| 0 <= i < parts.len() implies trim_blanks(#[trigger] parts[i]) == parts[i] by {}
    assert(parts.map_values(|line: Seq<char>| trim_blanks(line)) =~= parts);
    law_splitting_can_be_undone(s);
}

/// Whoever brings a target in its form gets one of the known targets or is told that it is none, and
/// the form stays what it is.
pub proof fn law_normalize_target(t: Option<&str>, r: Result<&'static str, &'static str>)
    requires
        call_ensures(normalize_target, (t,), r),
    ensures
        t is None ==> (r matches Ok(s) && s@ == "x86_64-unknown-linux-gnu"@),
        r matches Ok(s) ==> is_known(s@),
        t matches Some(x) ==> match r {
            Ok(s) => trim(x@) == s@ || (trim(x@).len() == 0 && s@ == "x86_64-unknown-linux-gnu"@),
            Err(e) => e@ == "invalid target"@ && trim(x@).len() > 0 && !is_known(trim(x@)),
        },
{
    law_targets_are_the_allowed_ones(str_opt_view(t));
}

/// Whoever brings content in its form gets as many lines, each without blanks at its end and else as
/// it was, and the form stays what it is.
pub proof fn law_normalize_content(s: &str, r: String, i: int)
    requires
        0 <= i < split(s@, '\n').len(),
        call_ensures(normalize_content, (s,), r),
    ensures
        split(r@, '\n').len() == split(s@, '\n').len(),
        split(r@, '\n')[i].len() <= split(s@, '\n')[i].len(),
        split(r@, '\n')[i] == split(s@, '\n')[i].take(split(r@, '\n')[i].len() as int),
        forall|k: int|
            split(r@, '\n')[i].len() <= k < split(s@, '\n')[i].len() ==> is_blank_char(
                #[trigger] split(s@, '\n')[i][k],
            ),
        split(r@, '\n')[i].len() > 0 ==> !is_blank_char(split(r@, '\n')[i].last()),
{
    law_lines_lose_only_blanks(s@, i);
}

} // verus!
