//! Running the analysis: the arguments it gets, and its errors as a user can read them.
use vstd::prelude::*;
use vstd::slice::{slice_subrange, slice_to_vec};

use crate::layout::TypeLayout;
use crate::source::{
    attrs_among, body_lines, header_len, header_lines, inner_attrs, is_attr, law_source_lines,
    lemma_parts_are_lines, others_among, snippet_source, PREAMBLE,
};
use crate::status::{Failure, FailureView, Status};
use crate::text::{
    all_digits, all_white, append_chars, begins, chars_of, dec, find, find_char, first_index,
    first_occurrence, is_digit, is_white_space, law_numerals_are_read_back, lemma_dec,
    lemma_first_index_is, lemma_trim_start, lines, occurs, occurs_at, pad_left, padded, parse_word,
    split_lines, starts_with, str_opt_view, string_of, string_views, strip_cr, texts, to_dec, trim, trim_start, trimmed,
    trimmed_start, unlines, word_value,
};

verus! {

// ── jobs ───────────────────────────────────────────────────

/// What is to be analyzed.
#[derive(Clone, Copy)]
pub enum Job<'a> {
    TypeExpr(&'a str),
    Snippet(&'a str),
}

/// What a job adds to the arguments of a process, and what the process reads.
pub fn job_args<'a>(job: Job<'a>) -> (r: (Vec<String>, Option<&'a str>))
    ensures
        match job {
            Job::TypeExpr(s) => string_views(r.0@) == seq!["-t"@, s@] && r.1 is None,
            Job::Snippet(c) => r.0@.len() == 0 && str_opt_view(r.1) == Some(c@),
        },
{
    match job {
        Job::TypeExpr(expr) => {
            let mut args: Vec<String> = Vec::new();
            args.push("-t".to_owned());
            args.push(expr.to_owned());
            assert(string_views(args@) =~= seq!["-t"@, expr@]);
            (args, None)
        },
        Job::Snippet(code) => (Vec::new(), Some(code)),
    }
}

/// The arguments that an analysis in a process of its own gets.
pub open spec fn nichy_args(
    extra_args: Seq<Seq<char>>,
    target: Option<Seq<char>>,
    timeout: Seq<char>,
) -> Seq<Seq<char>> {
    seq!["--json"@, "--no-color"@, "--timeout"@, timeout] + extra_args + match target {
        Some(triple) => seq!["--target"@, triple],
        None => Seq::empty(),
    }
}

/// Lists the arguments that an analysis in a process of its own gets.
pub fn run_args(extra_args: &Vec<String>, target: Option<&str>, timeout: &str) -> (r: Vec<String>)
    ensures
        string_views(r@) == nichy_args(string_views(extra_args@), str_opt_view(target), timeout@),
{
    let mut args: Vec<String> = Vec::new();
    args.push("--json".to_owned());
    args.push("--no-color".to_owned());
    args.push("--timeout".to_owned());
    args.push(timeout.to_owned());
    let ghost start = seq!["--json"@, "--no-color"@, "--timeout"@, timeout@];
    let ghost extra = string_views(extra_args@);
    assert(string_views(args@) =~= start + extra.take(0));
    for i in 0..extra_args.len()
        invariant
            extra == string_views(extra_args@),
            string_views(args@) == start + extra.take(i as int),
    {
        let ghost before = string_views(args@);
        args.push(extra_args[i].clone());
        assert(string_views(args@) =~= before.push(extra[i as int]));
        assert(start + extra.take(i + 1) =~= before.push(extra[i as int]));
    }
    assert(extra.take(extra.len() as int) =~= extra);
    match target {
        Some(triple) => {
            let ghost before = string_views(args@);
            args.push("--target".to_owned());
            args.push(triple.to_owned());
            assert(string_views(args@) =~= before + seq!["--target"@, triple@]);
        },
        None => {
            assert(string_views(args@) + Seq::<Seq<char>>::empty() =~= string_views(args@));
        },
    }
    args
}

/// Why an analysis in a process of its own has no output.
pub enum RunFault {
    /// The process could not be started.
    Spawn { bin: String, error: String },
    /// The process did not take its input.
    Stdin(String),
    /// The process could not be waited for.
    Wait(String),
    /// The process took longer than so many seconds.
    TimedOut(String),
}

/// The failure that a fault is.
pub open spec fn fault_of(fault: RunFault) -> FailureView {
    match fault {
        RunFault::Spawn { bin, error } => FailureView {
            status: Status::BadGateway,
            error: "failed to spawn nichy ("@ + bin@ + "): "@ + error@,
        },
        RunFault::Stdin(e) => FailureView {
            status: Status::BadGateway,
            error: "write stdin: "@ + e@,
        },
        RunFault::Wait(e) => FailureView { status: Status::BadGateway, error: "wait: "@ + e@ },
        RunFault::TimedOut(seconds) => FailureView {
            status: Status::GatewayTimeout,
            error: timeout_error(seconds@),
        },
    }
}

/// The text of an analysis that took too long.
pub open spec fn timeout_error(seconds: Seq<char>) -> Seq<char> {
    "analysis exceeded "@ + seconds + "s timeout"@
}

/// Writes the text of an analysis that took too long.
pub fn timeout_text(seconds: &str) -> (r: String)
    ensures
        r@ == timeout_error(seconds@),
{
    let mut out = "analysis exceeded ".to_owned();
    out.append(seconds);
    out.append("s timeout");
    out
}

/// Answers with a fault.
pub fn run_failure(fault: RunFault) -> (r: Failure)
    ensures
        r@ == fault_of(fault),
{
    match fault {
        RunFault::Spawn { bin, error } => {
            let mut text = "failed to spawn nichy (".to_owned();
            text.append(bin.as_str());
            text.append("): ");
            text.append(error.as_str());
            Failure { status: Status::BadGateway, error: text }
        },
        RunFault::Stdin(e) => {
            let mut text = "write stdin: ".to_owned();
            text.append(e.as_str());
            Failure { status: Status::BadGateway, error: text }
        },
        RunFault::Wait(e) => {
            let mut text = "wait: ".to_owned();
            text.append(e.as_str());
            Failure { status: Status::BadGateway, error: text }
        },
        RunFault::TimedOut(seconds) => Failure {
            status: Status::GatewayTimeout,
            error: timeout_text(seconds.as_str()),
        },
    }
}

/// The outcome of an analysis in a process of its own: its errors in the user's terms where it
/// failed, else the layouts that it wrote, where they can be read.
pub fn parse_output(
    success: bool,
    stderr: &str,
    parsed: Result<Vec<TypeLayout>, String>,
    inner_attr_lines: usize,
) -> (r: Result<Vec<TypeLayout>, Failure>)
    ensures
        match (success, parsed) {
            (false, _) => r matches Err(f) && f@ == (FailureView {
                status: Status::UnprocessableEntity,
                error: cleaned(stderr@, inner_attr_lines as int),
            }),
            (true, Ok(layouts)) => r == Ok::<Vec<TypeLayout>, Failure>(layouts),
            (true, Err(e)) => r matches Err(f) && f@ == (FailureView {
                status: Status::BadGateway,
                error: "parse nichy output: "@ + e@,
            }),
        },
{
    if !success {
        let error = clean_rustc_error(stderr, inner_attr_lines);
        return Err(Failure { status: Status::UnprocessableEntity, error });
    }
    match parsed {
        Ok(layouts) => Ok(layouts),
        Err(e) => {
            let mut error = "parse nichy output: ".to_owned();
            error.append(e.as_str());
            Err(Failure { status: Status::BadGateway, error })
        },
    }
}

// ── line numbers ───────────────────────────────────────────

/// The line of the user's input that stands at the given line of the compiled source.
pub open spec fn user_line(line: int, preamble_lines: int, inner_attr_lines: int) -> int {
    if line <= inner_attr_lines {
        line
    } else if line >= preamble_lines {
        line - preamble_lines
    } else {
        0
    }
}

/// Turns a line number of the compiled source into one of the user's input.
pub fn adjust_line_num(line: usize, preamble_lines: usize, inner_attr_lines: usize) -> (r: usize)
    ensures
        r == user_line(line as int, preamble_lines as int, inner_attr_lines as int),
{
    if line <= inner_attr_lines {
        line
    } else {
        line.saturating_sub(preamble_lines)
    }
}

/// The location `file.rs:line:rest` in the user's terms, `line n:rest`.  What has not this
/// form stays as it is.
pub open spec fn user_location(
    loc: Seq<char>,
    preamble_lines: int,
    inner_attr_lines: int,
) -> Seq<char> {
    match first_occurrence(loc, ".rs:"@) {
        None => loc,
        Some(at) => {
            let after = loc.skip(at + 4);
            let colon = first_index(after, ':');
            if colon >= after.len() {
                loc
            } else {
                match word_value(after.take(colon)) {
                    None => loc,
                    Some(line) => "line "@ + dec(
                        user_line(line as int, preamble_lines, inner_attr_lines) as nat,
                    ) + ":"@ + after.skip(colon + 1),
                }
            }
        },
    }
}

fn locate(loc: &[char], preamble_lines: usize, inner_attr_lines: usize) -> (r: String)
    ensures
        r@ == user_location(loc@, preamble_lines as int, inner_attr_lines as int),
{
    proof {
        reveal_strlit(".rs:");
    }
    let end = loc.len();
    match find(loc, ".rs:") {
        Some(at) => {
            let after = slice_subrange(loc, at + 4, end);
            assert(after@ =~= loc@.skip(at + 4));
            let colon = find_char(after, 0, ':');
            assert(after@.skip(0) =~= after@);
            if colon < after.len() {
                let line_str = slice_subrange(after, 0, colon);
                assert(line_str@ =~= after@.take(colon as int));
                match parse_word(line_str) {
                    Some(line) => {
                        let adjusted = adjust_line_num(line, preamble_lines, inner_attr_lines);
                        let mut out = "line ".to_owned();
                        append_chars(&mut out, &to_dec(adjusted as u128));
                        out.append(":");
                        let rest = slice_subrange(after, colon + 1, after.len());
                        assert(rest@ =~= after@.skip(colon + 1));
                        append_chars(&mut out, rest);
                        return out;
                    },
                    None => {},
                }
            }
        },
        None => {},
    }
    string_of(loc)
}

/// Rewrites a location in the user's terms.
pub fn adjust_location(loc: &str, preamble_lines: usize, inner_attr_lines: usize) -> (r: String)
    ensures
        r@ == user_location(loc@, preamble_lines as int, inner_attr_lines as int),
{
    let chars = chars_of(loc);
    locate(&chars, preamble_lines, inner_attr_lines)
}

// ── the lines of a diagnostic ──────────────────────────────

/// How many digits `s` starts with.
pub open spec fn digits_at_start(s: Seq<char>) -> int
    decreases s.len(),
{
    if s.len() > 0 && is_digit(s[0]) {
        1 + digits_at_start(s.drop_first())
    } else {
        0
    }
}

/// How many spaces `s` starts with.
pub open spec fn spaces_at_start(s: Seq<char>) -> int
    decreases s.len(),
{
    if s.len() > 0 && s[0] == ' ' {
        1 + spaces_at_start(s.drop_first())
    } else {
        0
    }
}

/// The number and the text of a line of the form `12 | text`.
pub open spec fn source_parts(line: Seq<char>) -> Option<(Seq<char>, Seq<char>)> {
    let t = trim_start(line);
    let digits = digits_at_start(t);
    let after = t.skip(digits);
    let spaces = spaces_at_start(after);
    let bar = after.skip(spaces);
    if digits > 0 && spaces > 0 && bar.len() > 0 && bar[0] == '|' {
        Some((t.take(digits), bar.skip(1)))
    } else {
        None
    }
}

/// The text of a line of the form `| text`.
pub open spec fn gutter_rest(line: Seq<char>) -> Option<Seq<char>> {
    let t = trim_start(line);
    if t.len() > 0 && t[0] == '|' {
        Some(t.skip(1))
    } else {
        None
    }
}

fn count_digits(s: &[char]) -> (r: usize)
    ensures
        r == digits_at_start(s@),
        r <= s@.len(),
{
    let mut i: usize = 0;
    assert(s@.skip(0) =~= s@);
    while i < s.len() && '0' <= s[i] && s[i] <= '9'
        invariant
            i <= s@.len(),
            digits_at_start(s@) == i + digits_at_start(s@.skip(i as int)),
        decreases s@.len() - i,
    {
        assert(s@.skip(i as int)[0] == s@[i as int]);
        assert(s@.skip(i as int).drop_first() =~= s@.skip(i + 1));
        i = i + 1;
    }
    assert(i < s@.len() ==> s@.skip(i as int)[0] == s@[i as int]);
    i
}

fn count_spaces(s: &[char]) -> (r: usize)
    ensures
        r == spaces_at_start(s@),
        r <= s@.len(),
{
    let mut i: usize = 0;
    assert(s@.skip(0) =~= s@);
    while i < s.len() && s[i] == ' '
        invariant
            i <= s@.len(),
            spaces_at_start(s@) == i + spaces_at_start(s@.skip(i as int)),
        decreases s@.len() - i,
    {
        assert(s@.skip(i as int)[0] == s@[i as int]);
        assert(s@.skip(i as int).drop_first() =~= s@.skip(i + 1));
        i = i + 1;
    }
    assert(i < s@.len() ==> s@.skip(i as int)[0] == s@[i as int]);
    i
}

/// Takes a line of source apart.
pub fn parse_source_line<'a>(line: &'a [char]) -> (r: Option<(&'a [char], &'a [char])>)
    ensures
        match r {
            Some((num, rest)) => source_parts(line@) == Some((num@, rest@)),
            None => source_parts(line@) is None,
        },
{
    let t = trimmed_start(line);
    let digits = count_digits(t);
    if digits == 0 {
        return None;
    }
    let after = slice_subrange(t, digits, t.len());
    assert(after@ =~= t@.skip(digits as int));
    let spaces = count_spaces(after);
    if spaces == 0 {
        return None;
    }
    let bar = slice_subrange(after, spaces, after.len());
    assert(bar@ =~= after@.skip(spaces as int));
    if bar.len() == 0 || bar[0] != '|' {
        return None;
    }
    let num = slice_subrange(t, 0, digits);
    let rest = slice_subrange(bar, 1, bar.len());
    assert(num@ =~= t@.take(digits as int));
    assert(rest@ =~= bar@.skip(1));
    Some((num, rest))
}

/// Takes a gutter line apart.
pub fn parse_gutter_line<'a>(line: &'a [char]) -> (r: Option<&'a [char]>)
    ensures
        match r {
            Some(rest) => gutter_rest(line@) == Some(rest@),
            None => gutter_rest(line@) is None,
        },
{
    let t = trimmed_start(line);
    if t.len() == 0 || t[0] != '|' {
        return None;
    }
    let rest = slice_subrange(t, 1, t.len());
    assert(rest@ =~= t@.skip(1));
    Some(rest)
}

/// One line of a diagnostic, taken apart.
enum Row {
    Plain(Vec<char>),
    Arrow(String),
    Source { num: Vec<char>, rest: Vec<char> },
    Gutter(Vec<char>),
}

/// What a line of a diagnostic is: a pointer to a location, a numbered line of source, a line
/// beside the source, or another line.
pub enum RowView {
    Plain(Seq<char>),
    Arrow(Seq<char>),
    Source { num: Seq<char>, rest: Seq<char> },
    Gutter(Seq<char>),
}

impl View for Row {
    type V = RowView;

    closed spec fn view(&self) -> RowView {
        match self {
            Row::Plain(s) => RowView::Plain(s@),
            Row::Arrow(s) => RowView::Arrow(s@),
            Row::Source { num, rest } => RowView::Source { num: num@, rest: rest@ },
            Row::Gutter(s) => RowView::Gutter(s@),
        }
    }
}

/// The lines that say nothing of the user's code.
pub open spec fn is_boilerplate(line: Seq<char>) -> bool {
    ||| begins(line, "error: aborting due to"@)
    ||| begins(line, "For more information about"@)
    ||| begins(line, "error: rustc analysis failed"@)
}

/// A line of a diagnostic in the user's terms.
pub open spec fn user_row(line: Seq<char>, preamble_lines: int, inner_attr_lines: int) -> RowView {
    let t = trim_start(line);
    if begins(t, "--> "@) {
        RowView::Arrow(user_location(t.skip(4), preamble_lines, inner_attr_lines))
    } else {
        match (source_parts(line), gutter_rest(line)) {
            (Some((num, rest)), _) if word_value(num) is Some => RowView::Source {
                num: dec(
                    user_line(
                        word_value(num)->0 as int,
                        preamble_lines,
                        inner_attr_lines,
                    ) as nat,
                ),
                rest,
            },
            (_, Some(rest)) => RowView::Gutter(rest),
            _ => RowView::Plain(line),
        }
    }
}

/// The lines of a diagnostic in the user's terms, without boilerplate.
pub open spec fn user_rows(
    ls: Seq<Seq<char>>,
    preamble_lines: int,
    inner_attr_lines: int,
) -> Seq<RowView>
    decreases ls.len(),
{
    if ls.len() == 0 {
        Seq::empty()
    } else if is_boilerplate(ls.last()) {
        user_rows(ls.drop_last(), preamble_lines, inner_attr_lines)
    } else {
        user_rows(ls.drop_last(), preamble_lines, inner_attr_lines).push(
            user_row(ls.last(), preamble_lines, inner_attr_lines),
        )
    }
}

/// The width of the widest line number.
pub open spec fn number_width(rows: Seq<RowView>) -> nat
    decreases rows.len(),
{
    if rows.len() == 0 {
        0
    } else {
        let rest = number_width(rows.drop_last());
        match rows.last() {
            RowView::Source { num, .. } if num.len() > rest => num.len(),
            _ => rest,
        }
    }
}

/// A line with its number, or the place of one, in `width` columns.
pub open spec fn row_text(row: RowView, width: nat) -> Seq<char> {
    match row {
        RowView::Plain(s) => s,
        RowView::Arrow(s) => pad_left(Seq::empty(), width, ' ') + "--> "@ + s,
        RowView::Source { num, rest } => pad_left(num, width, ' ') + " |"@ + rest,
        RowView::Gutter(s) => pad_left(Seq::empty(), width, ' ') + " |"@ + s,
    }
}

/// Nothing but white space.
pub open spec fn is_blank(s: Seq<char>) -> bool {
    trim(s).len() == 0
}

/// The lines without those blank ones that are first or follow a blank line.
pub open spec fn squeezed(ls: Seq<Seq<char>>) -> Seq<Seq<char>>
    decreases ls.len(),
{
    if ls.len() == 0 {
        Seq::empty()
    } else {
        let before = ls.drop_last();
        if is_blank(ls.last()) && (before.len() == 0 || is_blank(before.last())) {
            squeezed(before)
        } else {
            squeezed(before).push(ls.last())
        }
    }
}

/// A diagnostic of the compiler in the user's terms.
pub open spec fn cleaned(raw: Seq<char>, inner_attr_lines: int) -> Seq<char> {
    let rows = user_rows(lines(raw), lines(PREAMBLE@).len() as int, inner_attr_lines);
    let width = number_width(rows);
    trim(unlines(squeezed(rows.map_values(|row: RowView| row_text(row, width)))))
}

fn classify_line(line: &[char], preamble_lines: usize, inner_attr_lines: usize) -> (r: Option<Row>)
    ensures
        match r {
            Some(row) => !is_boilerplate(line@) && row@ == user_row(
                line@,
                preamble_lines as int,
                inner_attr_lines as int,
            ),
            None => is_boilerplate(line@),
        },
{
    if starts_with(line, "error: aborting due to") || starts_with(
        line,
        "For more information about",
    ) || starts_with(line, "error: rustc analysis failed") {
        return None;
    }
    let t = trimmed_start(line);
    if starts_with(t, "--> ") {
        proof {
            reveal_strlit("--> ");
        }
        let rest = slice_subrange(t, 4, t.len());
        assert(rest@ =~= t@.skip(4));
        return Some(Row::Arrow(locate(rest, preamble_lines, inner_attr_lines)));
    }
    match parse_source_line(line) {
        Some((num_str, rest)) => {
            match parse_word(num_str) {
                Some(num) => {
                    let adj = adjust_line_num(num, preamble_lines, inner_attr_lines);
                    return Some(
                        Row::Source { num: to_dec(adj as u128), rest: slice_to_vec(rest) },
                    );
                },
                None => {},
            }
        },
        None => {},
    }
    match parse_gutter_line(line) {
        Some(rest) => Some(Row::Gutter(slice_to_vec(rest))),
        None => Some(Row::Plain(slice_to_vec(line))),
    }
}

/// What the rows are.
closed spec fn row_views(rows: Seq<Row>) -> Seq<RowView> {
    rows.map_values(|row: Row| row@)
}

fn render_row(row: &Row, width: usize) -> (r: String)
    ensures
        r@ == row_text(row@, width as nat),
{
    let none: Vec<char> = Vec::new();
    assert(none@ =~= Seq::<char>::empty());
    match row {
        Row::Plain(s) => string_of(s),
        Row::Arrow(text) => {
            let mut out = string_of(&padded(&none, width, ' '));
            out.append("--> ");
            out.append(text.as_str());
            out
        },
        Row::Source { num, rest } => {
            let mut out = string_of(&padded(num, width, ' '));
            out.append(" |");
            append_chars(&mut out, rest);
            out
        },
        Row::Gutter(rest) => {
            let mut out = string_of(&padded(&none, width, ' '));
            out.append(" |");
            append_chars(&mut out, rest);
            out
        },
    }
}

fn blank(s: &str) -> (r: bool)
    ensures
        r == is_blank(s@),
{
    let chars = chars_of(s);
    trimmed(&chars).len() == 0
}

fn classify_lines(ls: &Vec<&[char]>, preamble_lines: usize, inner_attr_lines: usize) -> (r: Vec<Row>)
    ensures
        row_views(r@) == user_rows(texts(ls@), preamble_lines as int, inner_attr_lines as int),
{
    let mut rows: Vec<Row> = Vec::new();
    assert(row_views(rows@) =~= user_rows(
        texts(ls@.take(0)),
        preamble_lines as int,
        inner_attr_lines as int,
    ));
    for i in 0..ls.len()
        invariant
            row_views(rows@) == user_rows(
                texts(ls@.take(i as int)),
                preamble_lines as int,
                inner_attr_lines as int,
            ),
    {
        let ghost before = rows@;
        assert(texts(ls@.take(i + 1)).drop_last() =~= texts(ls@.take(i as int)));
        assert(texts(ls@.take(i + 1)).last() == ls@[i as int]@);
        match classify_line(ls[i], preamble_lines, inner_attr_lines) {
            Some(row) => {
                rows.push(row);
                assert(row_views(rows@) =~= row_views(before).push(row@));
            },
            None => {},
        }
    }
    assert(ls@.take(ls@.len() as int) =~= ls@);
    rows
}

fn widest_number(rows: &Vec<Row>) -> (r: usize)
    ensures
        r == number_width(row_views(rows@)),
{
    let mut width: usize = 0;
    assert(row_views(rows@.take(0)) =~= Seq::<RowView>::empty());
    for i in 0..rows.len()
        invariant
            width == number_width(row_views(rows@.take(i as int))),
    {
        assert(row_views(rows@.take(i + 1)).drop_last() =~= row_views(rows@.take(i as int)));
        assert(row_views(rows@.take(i + 1)).last() == rows@[i as int]@);
        match &rows[i] {
            Row::Source { num, .. } => {
                if num.len() > width {
                    width = num.len();
                }
            },
            _ => {},
        }
    }
    assert(rows@.take(rows@.len() as int) =~= rows@);
    width
}

/// The rows as text lines.
closed spec fn row_texts(rows: Seq<Row>, width: nat) -> Seq<Seq<char>> {
    row_views(rows).map_values(|row: RowView| row_text(row, width))
}

fn write_rows(rows: &Vec<Row>, width: usize) -> (out: String)
    ensures
        out@ == unlines(squeezed(row_texts(rows@, width as nat))),
{
    let mut out = String::new();
    let mut prev_blank = true;
    assert(row_texts(rows@.take(0), width as nat) =~= Seq::<Seq<char>>::empty());
    for i in 0..rows.len()
        invariant
            out@ == unlines(squeezed(row_texts(rows@.take(i as int), width as nat))),
            prev_blank == (i == 0 || is_blank(row_text(rows@[i - 1]@, width as nat))),
    {
        let ghost done = row_texts(rows@.take(i as int), width as nat);
        let ghost next = row_texts(rows@.take(i + 1), width as nat);
        let rendered = render_row(&rows[i], width);
        let is_blank = blank(rendered.as_str());
        proof {
            assert(next.drop_last() =~= done);
            assert(next.last() == rendered@);
            assert(i > 0 ==> done.last() == row_text(rows@[i - 1]@, width as nat));
            assert(squeezed(done).push(rendered@).drop_last() =~= squeezed(done));
        }
        if !(is_blank && prev_blank) {
            out.append(rendered.as_str());
            out.push('\n');
            assert(out@ =~= unlines(squeezed(next)));
        }
        prev_blank = is_blank;
    }
    assert(rows@.take(rows@.len() as int) =~= rows@);
    out
}

/// Rewrites a diagnostic of the compiler in the user's terms.
pub fn clean_rustc_error(raw: &str, inner_attr_lines: usize) -> (r: String)
    ensures
        r@ == cleaned(raw@, inner_attr_lines as int),
{
    let preamble = chars_of(PREAMBLE);
    let preamble_lines = split_lines(&preamble).len();
    let chars = chars_of(raw);
    let ls = split_lines(&chars);
    let rows = classify_lines(&ls, preamble_lines, inner_attr_lines);
    let width = widest_number(&rows);
    let out = write_rows(&rows, width);
    let text = chars_of(out.as_str());
    string_of(trimmed(&text))
}

// ── laws ───────────────────────────────────────────────────

proof fn lemma_attrs_prefix(ls: Seq<Seq<char>>, n: int)
    requires
        0 <= n <= ls.len(),
        forall|i: int| 0 <= i < n ==> is_attr(#[trigger] ls[i]),
    ensures
        attrs_among(ls).len() >= n,
        attrs_among(ls).take(n) == ls.take(n),
    decreases ls.len(),
{
    if ls.len() > n {
        lemma_attrs_prefix(ls.drop_last(), n);
        assert(ls.drop_last().take(n) =~= ls.take(n));
        let rest = attrs_among(ls.drop_last());
        assert(attrs_among(ls).take(n) =~= rest.take(n));
    } else if n > 0 {
        lemma_attrs_prefix(ls.drop_last(), n - 1);
        assert(ls.drop_last().take(n - 1) =~= ls.drop_last());
        let rest = attrs_among(ls.drop_last());
        lemma_attrs_at_most(ls.drop_last());
        assert(rest =~= rest.take(n - 1));
        assert(attrs_among(ls) =~= rest.push(ls.last()));
        assert(attrs_among(ls).take(n) =~= ls.take(n));
    } else {
        assert(attrs_among(ls).take(0) =~= ls.take(0));
    }
}

proof fn lemma_attrs_at_most(ls: Seq<Seq<char>>)
    ensures
        attrs_among(ls).len() <= ls.len(),
        attrs_among(ls).len() + others_among(ls).len() == ls.len(),
    decreases ls.len(),
{
    if ls.len() > 0 {
        lemma_attrs_at_most(ls.drop_last());
    }
}

proof fn lemma_others_suffix(ls: Seq<Seq<char>>, m: int)
    requires
        0 <= m <= ls.len(),
        forall|i: int| m <= i < ls.len() ==> !is_attr(#[trigger] ls[i]),
    ensures
        attrs_among(ls).len() <= m,
        attrs_among(ls).len() + others_among(ls).len() == ls.len(),
        forall|i: int|
            m <= i < ls.len() ==> others_among(ls)[i - attrs_among(ls).len()] == #[trigger] ls[i],
    decreases ls.len(),
{
    lemma_attrs_at_most(ls);
    if ls.len() > m {
        let t = ls.drop_last();
        assert(ls.last() == ls[ls.len() - 1]);
        assert forall|i: int| m <= i < t.len() implies !is_attr(#[trigger] t[i]) by {
            assert(t[i] == ls[i]);
        }
        lemma_others_suffix(t, m);
        assert forall|i: int| m <= i < ls.len() implies others_among(ls)[i - attrs_among(ls).len()]
            == #[trigger] ls[i] by {
            if i < t.len() {
                assert(t[i] == ls[i]);
            }
        }
    }
}

proof fn lemma_header_covers(ls: Seq<Seq<char>>, n: int)
    requires
        0 <= n <= ls.len(),
        forall|i: int| 0 <= i < n ==> is_attr(#[trigger] ls[i]),
    ensures
        header_len(ls) >= n,
    decreases n,
{
    if n > 0 {
        let t = ls.drop_first();
        assert(is_attr(ls[0]));
        assert forall|i: int| 0 <= i < n - 1 implies is_attr(#[trigger] t[i]) by {
            assert(t[i] == ls[i + 1]);
        }
        lemma_header_covers(t, n - 1);
    }
}

/// The line numbers of the compiled source lead back to the user's lines, counted from one.
/// An attribute with nothing but attributes above it keeps its number.  A line with no
/// attribute at or below it in the header stands below the preamble, and what is said of it
/// there is said of its own number.  So when the attributes are the first lines of the code,
/// every line is found again.
pub proof fn law_line_numbers_lead_back(code: Seq<char>, n: int)
    requires
        1 <= n <= lines(code).len(),
    ensures
        (forall|i: int| 0 <= i < n ==> is_attr(#[trigger] lines(code)[i])) ==> {
            &&& lines(snippet_source(code))[n - 1] == strip_cr(lines(code)[n - 1])
            &&& user_line(n, lines(PREAMBLE@).len() as int, inner_attrs(code).len() as int) == n
        },
        (forall|i: int|
            n - 1 <= i < header_len(lines(code)) ==> !is_attr(#[trigger] lines(code)[i])) ==> {
            &&& lines(snippet_source(code))[n - 1 + lines(PREAMBLE@).len()] == strip_cr(
                lines(code)[n - 1],
            )
            &&& user_line(
                n + lines(PREAMBLE@).len(),
                lines(PREAMBLE@).len() as int,
                inner_attrs(code).len() as int,
            ) == n
        },
{
    let ls = lines(code);
    let h = header_lines(code);
    let a = inner_attrs(code);
    let pre = lines(PREAMBLE@);
    let b = body_lines(code);
    lemma_parts_are_lines(code);
    law_source_lines(code);
    let strip = |l: Seq<char>| strip_cr(l);
    let src = lines(snippet_source(code));
    if forall|i: int| 0 <= i < n ==> is_attr(#[trigger] ls[i]) {
        lemma_header_covers(ls, n);
        assert forall|i: int| 0 <= i < n implies is_attr(#[trigger] h[i]) by {
            assert(h[i] == ls[i]);
        }
        lemma_attrs_prefix(h, n);
        assert(a.take(n)[n - 1] == h.take(n)[n - 1]);
        assert(a.map_values(strip)[n - 1] == strip_cr(ls[n - 1]));
        assert(src[n - 1] == a.map_values(strip)[n - 1]);
    }
    if forall|i: int| n - 1 <= i < header_len(ls) ==> !is_attr(#[trigger] ls[i]) {
        let m = if n - 1 <= h.len() {
            n - 1
        } else {
            h.len() as int
        };
        assert forall|i: int| m <= i < h.len() implies !is_attr(#[trigger] h[i]) by {
            assert(h[i] == ls[i]);
        }
        lemma_others_suffix(h, m);
        let o = others_among(h);
        let at = n - 1 - a.len();
        if n - 1 < h.len() {
            assert(o[at] == h[n - 1]);
            assert(b[at] == o[at]);
        } else {
            assert(b[at] == ls.skip(h.len() as int)[n - 1 - h.len()]);
        }
        assert(b[at] == ls[n - 1]);
        assert(b.map_values(strip)[at] == strip_cr(ls[n - 1]));
        assert(src[a.len() + pre.len() + at] == b.map_values(strip)[at]);
    }
}

/// No blank line is first or follows a blank line.
pub proof fn law_no_blank_runs(ls: Seq<Seq<char>>)
    ensures
        squeezed(ls).len() > 0 ==> !is_blank(squeezed(ls)[0]),
        forall|i: int|
            0 < i < squeezed(ls).len() ==> !(is_blank(squeezed(ls)[i - 1]) && is_blank(
                #[trigger] squeezed(ls)[i],
            )),
        (squeezed(ls).len() == 0 || is_blank(squeezed(ls).last())) == (ls.len() == 0 || is_blank(
            ls.last(),
        )),
    decreases ls.len(),
{
    if ls.len() > 0 {
        law_no_blank_runs(ls.drop_last());
    }
}

/// A location in a file of the compiler is rewritten with the user's line, whatever stands
/// behind it.
pub proof fn law_locations_are_rewritten(
    file: Seq<char>,
    line: usize,
    rest: Seq<char>,
    preamble_lines: int,
    inner_attr_lines: int,
)
    requires
        first_occurrence(file + ".rs:"@ + dec(line as nat) + ":"@ + rest, ".rs:"@) == Some(
            file.len() as int,
        ),
    ensures
        user_location(
            file + ".rs:"@ + dec(line as nat) + ":"@ + rest,
            preamble_lines,
            inner_attr_lines,
        ) == "line "@ + dec(user_line(line as int, preamble_lines, inner_attr_lines) as nat) + ":"@
            + rest,
{
    reveal_strlit(".rs:");
    reveal_strlit(":");
    let num = dec(line as nat);
    let loc = file + ".rs:"@ + num + ":"@ + rest;
    lemma_dec(line as nat);
    law_numerals_are_read_back(line as u128);
    let after = loc.skip(file.len() as int + 4);
    assert(after =~= num + ":"@ + rest);
    assert forall|j: int| 0 <= j < num.len() implies after[j] != ':' by {
        assert(is_digit(num[j]));
    }
    lemma_first_index_is(after, ':', num.len() as int);
    assert(after.take(num.len() as int) =~= num);
    assert(after.skip(num.len() as int + 1) =~= rest);
}

proof fn lemma_digits_at_start(a: Seq<char>, b: Seq<char>)
    requires
        all_digits(a),
        b.len() > 0,
        !is_digit(b[0]),
    ensures
        digits_at_start(a + b) == a.len(),
    decreases a.len(),
{
    if a.len() > 0 {
        assert(is_digit(a[0]));
        assert((a + b).drop_first() =~= a.drop_first() + b);
        assert forall|i: int| 0 <= i < a.drop_first().len() implies is_digit(
            #[trigger] a.drop_first()[i],
        ) by {
            assert(a.drop_first()[i] == a[i + 1]);
        }
        lemma_digits_at_start(a.drop_first(), b);
    } else {
        assert(a + b =~= b);
    }
}

proof fn lemma_trim_spaces(n: nat, s: Seq<char>)
    requires
        s.len() > 0,
        !is_white_space(s[0]),
    ensures
        trim_start(Seq::new(n, |i: int| ' ') + s) == s,
    decreases n,
{
    let t = Seq::new(n, |i: int| ' ') + s;
    if n > 0 {
        assert(t.drop_first() =~= Seq::new((n - 1) as nat, |i: int| ' ') + s);
        lemma_trim_spaces((n - 1) as nat, s);
    } else {
        assert(t =~= s);
    }
}

/// A numbered line of source keeps its text and gets the user's number, however far it is
/// indented.
pub proof fn law_source_lines_are_rewritten(
    indent: nat,
    line: usize,
    rest: Seq<char>,
    preamble_lines: int,
    inner_attr_lines: int,
)
    ensures
        user_row(
            Seq::new(indent, |i: int| ' ') + (dec(line as nat) + " |"@ + rest),
            preamble_lines,
            inner_attr_lines,
        ) == (RowView::Source {
            num: dec(user_line(line as int, preamble_lines, inner_attr_lines) as nat),
            rest,
        }),
{
    reveal_strlit(" |");
    reveal_strlit("--> ");
    let num = dec(line as nat);
    let t = num + " |"@ + rest;
    lemma_dec(line as nat);
    law_numerals_are_read_back(line as u128);
    assert(is_digit(num[0]));
    assert(t[0] == num[0]);
    lemma_trim_spaces(indent, t);
    let after = " |"@ + rest;
    assert(t =~= num + after);
    lemma_digits_at_start(num, after);
    assert(t.skip(num.len() as int) =~= after);
    assert(after.drop_first()[0] == '|');
    assert(spaces_at_start(after.drop_first()) == 0);
    assert(spaces_at_start(after) == 1);
    assert(after.skip(1).skip(1) =~= rest);
    assert(t.take(num.len() as int) =~= num);
    if begins(t, "--> "@) {
        assert(t.take(4)[0] == t[0]);
    }
}

/// Lines are rewritten one by one, in their order.
pub proof fn law_rows_are_independent(
    a: Seq<Seq<char>>,
    b: Seq<Seq<char>>,
    preamble_lines: int,
    inner_attr_lines: int,
)
    ensures
        user_rows(a + b, preamble_lines, inner_attr_lines) == user_rows(
            a,
            preamble_lines,
            inner_attr_lines,
        ) + user_rows(b, preamble_lines, inner_attr_lines),
    decreases b.len(),
{
    let before = user_rows(a, preamble_lines, inner_attr_lines);
    if b.len() == 0 {
        assert(a + b =~= a);
        assert(before + user_rows(b, preamble_lines, inner_attr_lines) =~= before);
    } else {
        law_rows_are_independent(a, b.drop_last(), preamble_lines, inner_attr_lines);
        assert((a + b).drop_last() =~= a + b.drop_last());
        assert((a + b).last() == b.last());
        let middle = user_rows(b.drop_last(), preamble_lines, inner_attr_lines);
        let row = user_row(b.last(), preamble_lines, inner_attr_lines);
        assert((before + middle).push(row) =~= before + middle.push(row));
    }
}

/// A line that says nothing of the user's code leaves no trace.
pub proof fn law_boilerplate_is_dropped(
    a: Seq<Seq<char>>,
    line: Seq<char>,
    b: Seq<Seq<char>>,
    preamble_lines: int,
    inner_attr_lines: int,
)
    requires
        is_boilerplate(line),
    ensures
        user_rows(a.push(line) + b, preamble_lines, inner_attr_lines) == user_rows(
            a + b,
            preamble_lines,
            inner_attr_lines,
        ),
{
    law_rows_are_independent(a, b, preamble_lines, inner_attr_lines);
    law_rows_are_independent(a.push(line), b, preamble_lines, inner_attr_lines);
    assert(a.push(line).drop_last() =~= a);
}

// ── what a process is told, and what it tells ──────────────

/// A process writes JSON without color and stops in time.  It gets the arguments of the job in their
/// order behind that, and at last the target behind its option, where there is one.
pub proof fn law_arguments_of_a_process(
    extra_args: Seq<Seq<char>>,
    target: Option<Seq<char>>,
    timeout: Seq<char>,
    i: int,
)
    requires
        0 <= i < extra_args.len(),
    ensures
        ({
            let args = nichy_args(extra_args, target, timeout);
            let n = extra_args.len() as int;
            &&& args.take(4) == seq!["--json"@, "--no-color"@, "--timeout"@, timeout]
            &&& args[4 + i] == extra_args[i]
            &&& target is None ==> args.len() == 4 + n
            &&& target matches Some(t) ==> args.len() == 4 + n + 2 && args[4 + n] == "--target"@
                && args[5 + n] == t
        }),
{
    let args = nichy_args(extra_args, target, timeout);
    assert(args.take(4) =~= seq!["--json"@, "--no-color"@, "--timeout"@, timeout]);
}

/// A job for a type is told by its option and reads nothing; one for code is read.
pub proof fn law_jobs_are_told_or_read<'a>(job: Job<'a>, r: (Vec<String>, Option<&'a str>))
    requires
        call_ensures(job_args, (job,), r),
    ensures
        match job {
            Job::TypeExpr(s) => {
                &&& r.0@.len() == 2 && r.0@[0]@ == "-t"@ && r.0@[1]@ == s@
                &&& r.1 is None
            },
            Job::Snippet(c) => r.0@.len() == 0 && r.1 is Some && r.1->0@ == c@,
        },
{
    match job {
        Job::TypeExpr(s) => {
            let v = string_views(r.0@);
            assert(v == seq!["-t"@, s@]);
            assert(v.len() == r.0@.len());
            assert(v[0] == r.0@[0]@);
            assert(v[1] == r.0@[1]@);
        },
        Job::Snippet(_) => {},
    }
}

/// A process that took too long is told so, with the time; every other fault is one between the site
/// and the process, and the text of the fault stands at the end.
pub proof fn law_faults_are_told(fault: RunFault)
    ensures
        ({
            let f = fault_of(fault);
            &&& f.status == Status::GatewayTimeout <==> fault is TimedOut
            &&& f.status == Status::BadGateway <==> !(fault is TimedOut)
            &&& match fault {
                RunFault::Spawn { bin, error } => exists|a: Seq<char>| #[trigger]
                    ends(f.error, a, error@) && occurs(a, bin@),
                RunFault::Stdin(e) => exists|a: Seq<char>| #[trigger] ends(f.error, a, e@) && a
                    == "write stdin: "@,
                RunFault::Wait(e) => exists|a: Seq<char>| #[trigger] ends(f.error, a, e@) && a
                    == "wait: "@,
                RunFault::TimedOut(s) => occurs(f.error, s@),
            }
        }),
{
    let f = fault_of(fault);
    match fault {
        RunFault::Spawn { bin, error } => {
            let a = "failed to spawn nichy ("@ + bin@ + "): "@;
            assert(ends(f.error, a, error@));
            let k = "failed to spawn nichy ("@.len() as int;
            assert(a.subrange(k, k + bin@.len()) =~= bin@);
            assert(occurs_at(a, bin@, k));
        },
        RunFault::Stdin(e) => assert(ends(f.error, "write stdin: "@, e@)),
        RunFault::Wait(e) => assert(ends(f.error, "wait: "@, e@)),
        RunFault::TimedOut(s) => {
            let k = "analysis exceeded "@.len() as int;
            assert(f.error.subrange(k, k + s@.len()) =~= s@);
            assert(occurs_at(f.error, s@, k));
        },
    }
}

/// The text is `a` and `b`, one behind the other.
pub open spec fn ends(s: Seq<char>, a: Seq<char>, b: Seq<char>) -> bool {
    s == a + b
}

/// A process that succeeded is answered with the layouts that it wrote, or fails where they cannot
/// be read.  One that failed is told by what it said, in the user's terms, and by
/// nothing that it wrote.
pub proof fn law_processes_are_answered_by_their_success(
    success: bool,
    stderr: &str,
    parsed: Result<Vec<TypeLayout>, String>,
    inner_attr_lines: usize,
    r: Result<Vec<TypeLayout>, Failure>,
)
    requires
        call_ensures(parse_output, (success, stderr, parsed, inner_attr_lines), r),
    ensures
        r is Ok <==> success && parsed is Ok,
        r matches Ok(layouts) ==> parsed->Ok_0 == layouts,
        r matches Err(f) ==> {
            &&& f.status == Status::UnprocessableEntity <==> !success
            &&& f.status == Status::BadGateway <==> success
            &&& !success ==> f.error@ == cleaned(stderr@, inner_attr_lines as int)
            &&& success ==> f.error@ == "parse nichy output: "@ + parsed->Err_0@
        },
{
}

/// A line is dropped if and only if it starts with one of three phrases; any other line has a row.
pub proof fn law_only_boilerplate_is_dropped(
    line: Seq<char>,
    preamble_lines: int,
    inner_attr_lines: int,
)
    ensures
        user_rows(seq![line], preamble_lines, inner_attr_lines).len() <= 1,
        user_rows(seq![line], preamble_lines, inner_attr_lines).len() == 0 <==> {
            ||| begins(line, "error: aborting due to"@)
            ||| begins(line, "For more information about"@)
            ||| begins(line, "error: rustc analysis failed"@)
        },
{
    let one = seq![line];
    assert(one.drop_last() =~= Seq::empty());
    assert(one.last() == line);
    assert(user_rows(one.drop_last(), preamble_lines, inner_attr_lines).len() == 0);
}

/// A line beside the source keeps its text, however far it is indented, and so does a line that is
/// neither a pointer, nor numbered, nor beside the source.
pub proof fn law_other_lines_keep_their_text(
    indent: nat,
    rest: Seq<char>,
    line: Seq<char>,
    preamble_lines: int,
    inner_attr_lines: int,
)
    ensures
        user_row(
            Seq::new(indent, |i: int| ' ') + (seq!['|'] + rest),
            preamble_lines,
            inner_attr_lines,
        ) == RowView::Gutter(rest),
        ({
            let t = trim_start(line);
            t.len() == 0 || (t[0] != '|' && t[0] != '-' && !is_digit(t[0]))
        }) ==> user_row(line, preamble_lines, inner_attr_lines) == RowView::Plain(line),
{
    reveal_strlit("--> ");
    let t = seq!['|'] + rest;
    lemma_trim_spaces(indent, t);
    assert(t.skip(1) =~= rest);
    let whole = Seq::new(indent, |i: int| ' ') + t;
    assert(trim_start(whole) == t);
    assert(!is_digit(t[0]));
    assert(digits_at_start(t) == 0);
    if begins(t, "--> "@) {
        assert(t.take(4)[0] == t[0]);
    }
    let u = trim_start(line);
    if u.len() == 0 || (u[0] != '|' && u[0] != '-' && !is_digit(u[0])) {
        assert(digits_at_start(u) == 0);
        if begins(u, "--> "@) {
            assert(u.take(4)[0] == u[0]);
        }
    }
}

proof fn lemma_number_width(rows: Seq<RowView>)
    ensures
        forall|i: int|
            0 <= i < rows.len() ==> (#[trigger] rows[i] matches RowView::Source { num, .. }
                ==> num.len() <= number_width(rows)),
        number_width(rows) > 0 ==> exists|i: int|
            0 <= i < rows.len() && (#[trigger] rows[i] matches RowView::Source { num, .. }
                && num.len() == number_width(rows)),
    decreases rows.len(),
{
    if rows.len() > 0 {
        let t = rows.drop_last();
        let n = rows.len() - 1;
        lemma_number_width(t);
        assert(rows[n] == rows.last());
        assert forall|i: int| 0 <= i < rows.len() implies (#[trigger] rows[i] matches
            RowView::Source { num, .. } ==> num.len() <= number_width(rows)) by {
            if i < n {
                assert(t[i] == rows[i]);
            }
        }
        if number_width(rows) > 0 {
            if number_width(rows) == number_width(t) {
                let i = choose|i: int|
                    0 <= i < t.len() && (#[trigger] t[i] matches RowView::Source { num, .. }
                        && num.len() == number_width(t));
                assert(rows[i] == t[i]);
            } else {
                assert(rows[n] is Source);
            }
        }
    }
}

/// The numbers stand right-aligned in a column that is as wide as the widest of them, and pointers
/// and lines beside the source are as far to the right; what is behind stays as it is.
pub proof fn law_numbers_are_aligned(rows: Seq<RowView>, i: int)
    requires
        0 <= i < rows.len(),
    ensures
        ({
            let width = number_width(rows) as int;
            let text = row_text(rows[i], width as nat);
            &&& match rows[i] {
                RowView::Plain(s) => text == s,
                RowView::Source { num, rest } => {
                    &&& num.len() <= width
                    &&& text.len() == width + 2 + rest.len()
                    &&& forall|k: int| 0 <= k < width - num.len() ==> #[trigger] text[k] == ' '
                    &&& text.subrange(width - num.len(), width) == num
                    &&& text.subrange(width, width + 2) == seq![' ', '|']
                    &&& text.skip(width + 2) == rest
                },
                RowView::Gutter(s) => {
                    &&& text.len() == width + 2 + s.len()
                    &&& forall|k: int| 0 <= k < width ==> #[trigger] text[k] == ' '
                    &&& text.subrange(width, width + 2) == seq![' ', '|']
                    &&& text.skip(width + 2) == s
                },
                RowView::Arrow(s) => {
                    &&& text.len() == width + 4 + s.len()
                    &&& forall|k: int| 0 <= k < width ==> #[trigger] text[k] == ' '
                    &&& text.subrange(width, width + 4) == seq!['-', '-', '>', ' ']
                    &&& text.skip(width + 4) == s
                },
            }
        }),
        number_width(rows) > 0 ==> exists|k: int|
            0 <= k < rows.len() && (#[trigger] rows[k] matches RowView::Source { num, .. }
                && num.len() == number_width(rows)),
{
    lemma_number_width(rows);
    reveal_strlit(" |");
    reveal_strlit("--> ");
    let width = number_width(rows) as int;
    let text = row_text(rows[i], width as nat);
    match rows[i] {
        RowView::Plain(_) => {},
        RowView::Source { num, rest } => {
            assert(pad_left(num, width as nat, ' ').len() == width);
            assert(text.subrange(width - num.len(), width) =~= num);
            assert(text.subrange(width, width + 2) =~= seq![' ', '|']);
            assert(text.skip(width + 2) =~= rest);
        },
        RowView::Gutter(s) => {
            assert(text.subrange(width, width + 2) =~= seq![' ', '|']);
            assert(text.skip(width + 2) =~= s);
        },
        RowView::Arrow(s) => {
            assert(text.subrange(width, width + 4) =~= seq!['-', '-', '>', ' ']);
            assert(text.skip(width + 4) =~= s);
        },
    }
}

/// The lines that are not blank.
pub open spec fn words_of(ls: Seq<Seq<char>>) -> Seq<Seq<char>>
    decreases ls.len(),
{
    if ls.len() == 0 {
        Seq::empty()
    } else if is_blank(ls.last()) {
        words_of(ls.drop_last())
    } else {
        words_of(ls.drop_last()).push(ls.last())
    }
}

/// No line with words in it is lost or moved where runs of blank lines are shortened.
pub proof fn law_words_are_kept(ls: Seq<Seq<char>>)
    ensures
        words_of(squeezed(ls)) == words_of(ls),
    decreases ls.len(),
{
    if ls.len() > 0 {
        let t = ls.drop_last();
        law_words_are_kept(t);
        assert(squeezed(t).push(ls.last()).drop_last() =~= squeezed(t));
        assert(squeezed(t).push(ls.last()).last() == ls.last());
    }
}

/// A location that names no file of the compiler stays as it is.
pub proof fn law_other_locations_stay(
    loc: Seq<char>,
    preamble_lines: int,
    inner_attr_lines: int,
)
    requires
        first_occurrence(loc, ".rs:"@) is None,
    ensures
        user_location(loc, preamble_lines, inner_attr_lines) == loc,
{
}

/// Spaces and nothing else.
pub open spec fn all_spaces(s: Seq<char>) -> bool {
    forall|i: int| 0 <= i < s.len() ==> #[trigger] s[i] == ' '
}

proof fn lemma_counted_at_start(s: Seq<char>)
    ensures
        0 <= digits_at_start(s) <= s.len(),
        all_digits(s.take(digits_at_start(s))),
        0 <= spaces_at_start(s) <= s.len(),
        all_spaces(s.take(spaces_at_start(s))),
    decreases s.len(),
{
    if s.len() > 0 {
        let t = s.drop_first();
        lemma_counted_at_start(t);
        let d = digits_at_start(s);
        let n = spaces_at_start(s);
        assert forall|i: int| 0 <= i < d implies '0' <= #[trigger] s.take(d)[i] <= '9' by {
            if i > 0 {
                assert(t.take(digits_at_start(t))[i - 1] == s[i]);
            }
        }
        assert forall|i: int| 0 <= i < n implies #[trigger] s.take(n)[i] == ' ' by {
            if i > 0 {
                assert(t.take(spaces_at_start(t))[i - 1] == s[i]);
            }
        }
    }
}

/// A line that is taken for one of the source has a number, a space and a bar, in this order, and
/// one that is taken for one beside the source begins with a bar; what is told of them stands in the
/// line as it is told, with nothing but white space before it.
pub proof fn law_lines_are_taken_apart(line: Seq<char>)
    ensures
        source_parts(line) matches Some(parts) ==> {
            &&& parts.0.len() > 0
            &&& all_digits(parts.0)
            &&& exists|indent: Seq<char>, gap: Seq<char>| #[trigger]
                all_white(indent) && #[trigger] all_spaces(gap) && gap.len() > 0 && line == indent
                    + parts.0 + gap + seq!['|'] + parts.1
        },
        gutter_rest(line) matches Some(rest) ==> exists|indent: Seq<char>| #[trigger]
            all_white(indent) && line == indent + seq!['|'] + rest,
{
    lemma_trim_start(line);
    let t = trim_start(line);
    let indent = line.take(line.len() - t.len());
    assert(line =~= indent + t);
    assert(all_white(indent));
    if let Some(parts) = source_parts(line) {
        lemma_counted_at_start(t);
        let digits = digits_at_start(t);
        let after = t.skip(digits);
        lemma_counted_at_start(after);
        let spaces = spaces_at_start(after);
        let gap = after.take(spaces);
        let bar = after.skip(spaces);
        assert(bar =~= seq!['|'] + parts.1);
        assert(after =~= gap + bar);
        assert(t =~= parts.0 + after);
        assert(line =~= indent + parts.0 + gap + seq!['|'] + parts.1);
        assert(all_white(indent) && all_spaces(gap));
    }
    if let Some(rest) = gutter_rest(line) {
        assert(t =~= seq!['|'] + rest);
        assert(line =~= indent + seq!['|'] + rest);
        assert(all_white(indent));
    }
}

/// Whoever takes a line apart is told of a number only where it has one.
pub proof fn law_parse_source_line<'a>(
    line: &'a [char],
    r: Option<(&'a [char], &'a [char])>,
    indent: Seq<char>,
    num: Seq<char>,
    gap: Seq<char>,
    rest: Seq<char>,
)
    requires
        call_ensures(parse_source_line, (line,), r),
        all_spaces(indent),
        all_digits(num),
        all_spaces(gap),
        line@ == indent + (num + (gap + (seq!['|'] + rest))),
    ensures
        num.len() > 0 && gap.len() > 0 ==> (r matches Some(parts) && parts.0@ == num && parts.1@
            == rest),
        num.len() == 0 || gap.len() == 0 ==> r is None,
{
    let bar = seq!['|'] + rest;
    let after = gap + bar;
    let t = num + after;
    assert(indent =~= Seq::new(indent.len(), |i: int| ' '));
    if t.len() > 0 && num.len() > 0 {
        lemma_trim_spaces(indent.len(), t);
        lemma_digits_at_start(num, after);
        lemma_spaces_at_start(gap, bar);
        assert(t.skip(num.len() as int) =~= after);
        assert(after.skip(gap.len() as int) =~= bar);
        assert(bar.skip(1) =~= rest);
        assert(t.take(num.len() as int) =~= num);
    } else {
        let all = indent + gap;
        assert(all =~= Seq::new(all.len(), |i: int| ' '));
        assert(line@ =~= all + bar);
        lemma_trim_spaces(all.len(), bar);
        assert(!is_digit(bar[0]));
        assert(digits_at_start(bar) == 0);
    }
}

proof fn lemma_spaces_at_start(a: Seq<char>, b: Seq<char>)
    requires
        all_spaces(a),
        b.len() == 0 || b[0] != ' ',
    ensures
        spaces_at_start(a + b) == a.len(),
    decreases a.len(),
{
    if a.len() == 0 {
        assert(a + b =~= b);
    } else {
        assert((a + b)[0] == a[0]);
        assert((a + b).drop_first() =~= a.drop_first() + b);
        assert forall|i: int| 0 <= i < a.drop_first().len() implies #[trigger] a.drop_first()[i]
            == ' ' by {
            assert(a.drop_first()[i] == a[i + 1]);
        }
        lemma_spaces_at_start(a.drop_first(), b);
    }
}

} // verus!
