//! The macros that submitted code may not use.
use proc_macro2::{TokenStream, TokenTree};
use vstd::prelude::*;

use crate::text::same_str;

verus! {

/// Macros that read files, the environment or the machine.
pub const FORBIDDEN_MACROS: [&'static str; 9] = [
    "include",
    "include_str",
    "include_bytes",
    "env",
    "option_env",
    "asm",
    "global_asm",
    "naked_asm",
    "concat_idents",
];

// ── tokens ─────────────────────────────────────────────────

/// A token of Rust code.  A delimited group is `Open`, its tokens, `Close`.
pub enum Token {
    Ident(String),
    Punct(char),
    Literal,
    Open,
    Close,
}

/// What a [`Token`] is.
pub enum TokenView {
    Ident(Seq<char>),
    Punct(char),
    Literal,
    Open,
    Close,
}

impl View for Token {
    type V = TokenView;

    open spec fn view(&self) -> TokenView {
        match self {
            Token::Ident(s) => TokenView::Ident(s@),
            Token::Punct(c) => TokenView::Punct(*c),
            Token::Literal => TokenView::Literal,
            Token::Open => TokenView::Open,
            Token::Close => TokenView::Close,
        }
    }
}

/// What the tokens are.
pub open spec fn token_views(tokens: Seq<Token>) -> Seq<TokenView> {
    tokens.map_values(|t: Token| t@)
}

/// The tokens of a text or, where it has none, the reason.
pub uninterp spec fn lexed(code: Seq<char>) -> Result<Seq<TokenView>, Seq<char>>;

/// Calls `proc_macro2::TokenStream::from_str`, whose result depends on the text alone.  The
/// token trees are written one after the other, each group and at last the whole closed by
/// `Close`; an error is given by its message.
#[verifier::external_body]
fn lex(code: &str) -> (r: Result<Vec<Token>, String>)
    ensures
        match r {
            Ok(tokens) => lexed(code@) == Ok::<Seq<TokenView>, Seq<char>>(token_views(tokens@)),
            Err(e) => lexed(code@) == Err::<Seq<TokenView>, Seq<char>>(e@),
        },
{
    let stream: TokenStream = code.parse().map_err(|e: proc_macro2::LexError| e.to_string())?;
    let (mut stack, mut out) = (vec![stream.into_iter()], Vec::new());
    while let Some(trees) = stack.last_mut() {
        out.push(match trees.next() {
            Some(TokenTree::Ident(id)) => Token::Ident(id.to_string()),
            Some(TokenTree::Punct(p)) => Token::Punct(p.as_char()),
            Some(TokenTree::Literal(_)) => Token::Literal,
            Some(TokenTree::Group(g)) => {
                stack.push(g.stream().into_iter());
                Token::Open
            },
            None => { stack.pop(); Token::Close },
        });
    }
    Ok(out)
}

// ── the scan ───────────────────────────────────────────────

/// The name is that of a forbidden macro.
pub open spec fn forbidden(name: Seq<char>) -> bool {
    exists|i: int| 0 <= i < FORBIDDEN_MACROS@.len() && #[trigger] FORBIDDEN_MACROS@[i]@ == name
}

/// Token `i` stands behind a `use` with no semicolon between them.  `in_use` says so of the
/// first token.
pub open spec fn within_use(ts: Seq<TokenView>, i: int, in_use: bool) -> bool
    decreases i,
{
    if i <= 0 {
        in_use
    } else if ts[i - 1] == TokenView::Ident("use"@) {
        true
    } else if ts[i - 1] == TokenView::Punct(';') {
        false
    } else {
        within_use(ts, i - 1, in_use)
    }
}

/// A group in delimiters stands behind token `i` and an exclamation mark.
pub open spec fn invoked(ts: Seq<TokenView>, i: int) -> bool {
    i + 2 < ts.len() && ts[i + 1] == TokenView::Punct('!') && ts[i + 2] is Open
}

/// What is said of a forbidden name in a `use`.
pub open spec fn use_error(name: Seq<char>) -> Seq<char> {
    "identifier `"@ + name + "` is not allowed in a `use` statement"@
}

/// What is said of a call of a forbidden macro.
pub open spec fn macro_error(name: Seq<char>) -> Seq<char> {
    "macro `"@ + name + "!` is not allowed"@
}

/// What is wrong with token `i`: it is a forbidden name in a `use`, or a forbidden macro is
/// called there.
pub open spec fn offence(ts: Seq<TokenView>, i: int, in_use: bool) -> Option<Seq<char>> {
    match ts[i] {
        TokenView::Ident(name) if forbidden(name) => if within_use(ts, i, in_use) {
            Some(use_error(name))
        } else if invoked(ts, i) {
            Some(macro_error(name))
        } else {
            None
        },
        _ => None,
    }
}

/// The first thing that is wrong with the tokens from `i` on.  Where nothing is, it is said
/// whether a token behind them would stand in a `use`.
pub open spec fn scanned(ts: Seq<TokenView>, i: int, in_use: bool) -> Result<bool, Seq<char>>
    decreases ts.len() - i,
{
    if i >= ts.len() {
        Ok(within_use(ts, i, in_use))
    } else {
        match offence(ts, i, in_use) {
            Some(e) => Err(e),
            None => scanned(ts, i + 1, in_use),
        }
    }
}

fn is_forbidden(name: &str) -> (r: bool)
    ensures
        r == forbidden(name@),
{
    let names = FORBIDDEN_MACROS;
    for i in 0..names.len()
        invariant
            names == FORBIDDEN_MACROS,
            forall|j: int| 0 <= j < i ==> #[trigger] FORBIDDEN_MACROS@[j]@ != name@,
    {
        if same_str(names[i], name) {
            assert(FORBIDDEN_MACROS@[i as int]@ == name@);
            return true;
        }
    }
    false
}

fn quoted(before: &str, name: &str, after: &str) -> (r: String)
    ensures
        r@ == before@ + name@ + after@,
{
    let mut out = before.to_owned();
    out.append(name);
    out.append(after);
    out
}

proof fn lemma_use_is_allowed()
    ensures
        !forbidden("use"@),
{
    reveal_strlit("use");
    reveal_strlit("include");
    reveal_strlit("include_str");
    reveal_strlit("include_bytes");
    reveal_strlit("env");
    reveal_strlit("option_env");
    reveal_strlit("asm");
    reveal_strlit("global_asm");
    reveal_strlit("naked_asm");
    reveal_strlit("concat_idents");
    assert("use"@[0] == 'u');
    assert("env"@[0] == 'e');
    assert("asm"@[0] == 'a');
}

/// Scans tokens for forbidden macros.
pub fn scan_tokens(tokens: &Vec<Token>, in_use: bool) -> (r: Result<bool, String>)
    ensures
        match r {
            Ok(b) => scanned(token_views(tokens@), 0, in_use) == Ok::<bool, Seq<char>>(b),
            Err(e) => scanned(token_views(tokens@), 0, in_use) == Err::<bool, Seq<char>>(e@),
        },
{
    let ghost ts = token_views(tokens@);
    let mut within = in_use;
    for i in 0..tokens.len()
        invariant
            ts == token_views(tokens@),
            within == within_use(ts, i as int, in_use),
            scanned(ts, 0, in_use) == scanned(ts, i as int, in_use),
    {
        proof {
            lemma_use_is_allowed();
        }
        match &tokens[i] {
            Token::Ident(name) => {
                if same_str(name.as_str(), "use") {
                    within = true;
                } else if is_forbidden(name.as_str()) {
                    if within {
                        return Err(
                            quoted(
                                "identifier `",
                                name.as_str(),
                                "` is not allowed in a `use` statement",
                            ),
                        );
                    }
                    if tokens.len() - i > 2 {
                        match (&tokens[i + 1], &tokens[i + 2]) {
                            (Token::Punct('!'), Token::Open) => {
                                return Err(quoted("macro `", name.as_str(), "!` is not allowed"));
                            },
                            _ => {},
                        }
                    }
                }
            },
            Token::Punct(c) => {
                if *c == ';' {
                    within = false;
                }
            },
            _ => {},
        }
    }
    Ok(within)
}

/// What is said of code with the given tokens.
pub open spec fn judged(lexed: Result<Seq<TokenView>, Seq<char>>) -> Result<(), Seq<char>> {
    match lexed {
        Ok(ts) => match scanned(ts, 0, false) {
            Ok(_) => Ok(()),
            Err(e) => Err(e),
        },
        Err(e) => Err("could not tokenize input: "@ + e),
    }
}

/// Accepts or rejects code by its tokens.
pub fn judge(lexed: Result<Vec<Token>, String>) -> (r: Result<(), String>)
    ensures
        match (lexed, r) {
            (Ok(tokens), Ok(_)) => judged(Ok(token_views(tokens@))) is Ok,
            (Ok(tokens), Err(e)) => judged(Ok(token_views(tokens@))) == Err::<(), Seq<char>>(e@),
            (Err(_), Ok(_)) => false,
            (Err(l), Err(e)) => judged(Err(l@)) == Err::<(), Seq<char>>(e@),
        },
{
    match lexed {
        Ok(tokens) => match scan_tokens(&tokens, false) {
            Ok(_) => Ok(()),
            Err(e) => Err(e),
        },
        Err(e) => {
            let mut out = "could not tokenize input: ".to_owned();
            out.append(e.as_str());
            Err(out)
        },
    }
}

/// Rejects code that calls a forbidden macro, or names one in a `use`, or is no Rust code.
pub fn reject_forbidden_macros(code: &str) -> (r: Result<(), String>)
    ensures
        match r {
            Ok(_) => judged(lexed(code@)) is Ok,
            Err(e) => judged(lexed(code@)) == Err::<(), Seq<char>>(e@),
        },
{
    judge(lex(code))
}

// ── laws ───────────────────────────────────────────────────

/// Code is accepted exactly where nothing is wrong with any of its tokens.
pub proof fn law_accepts_exactly_harmless_tokens(ts: Seq<TokenView>, in_use: bool)
    ensures
        scanned(ts, 0, in_use) is Ok <==> forall|i: int|
            0 <= i < ts.len() ==> (#[trigger] offence(ts, i, in_use)) is None,
{
    lemma_scanned(ts, 0, in_use);
}

proof fn lemma_scanned(ts: Seq<TokenView>, from: int, in_use: bool)
    requires
        0 <= from <= ts.len(),
    ensures
        scanned(ts, from, in_use) is Ok <==> forall|i: int|
            from <= i < ts.len() ==> (#[trigger] offence(ts, i, in_use)) is None,
    decreases ts.len() - from,
{
    if from < ts.len() {
        lemma_scanned(ts, from + 1, in_use);
    }
}

/// No accepted code calls a forbidden macro, however deep in groups.
pub proof fn law_no_forbidden_call(ts: Seq<TokenView>, i: int, name: Seq<char>)
    requires
        0 <= i < ts.len(),
        ts[i] == TokenView::Ident(name),
        forbidden(name),
        invoked(ts, i),
    ensures
        judged(Ok(ts)) is Err,
{
    law_accepts_exactly_harmless_tokens(ts, false);
    assert(offence(ts, i, false) is Some);
}

/// No accepted code names a forbidden macro in a `use`.
pub proof fn law_no_forbidden_import(ts: Seq<TokenView>, i: int, name: Seq<char>)
    requires
        0 <= i < ts.len(),
        ts[i] == TokenView::Ident(name),
        forbidden(name),
        within_use(ts, i, false),
    ensures
        judged(Ok(ts)) is Err,
{
    law_accepts_exactly_harmless_tokens(ts, false);
    assert(offence(ts, i, false) is Some);
}

// ── what is accepted, in the words of the tokens ───────────

/// Some `use` stands before token `i`, and no semicolon between them.
pub open spec fn behind_use(ts: Seq<TokenView>, i: int) -> bool {
    exists|j: int|
        0 <= j < i && #[trigger] ts[j] == TokenView::Ident("use"@) && forall|k: int|
            j < k < i ==> #[trigger] ts[k] != TokenView::Punct(';')
}

/// Token `i` names a macro that reads files, the environment or the machine.
pub open spec fn names_forbidden(ts: Seq<TokenView>, i: int) -> bool {
    ts[i] matches TokenView::Ident(name) && {
        ||| name == "include"@
        ||| name == "include_str"@
        ||| name == "include_bytes"@
        ||| name == "env"@
        ||| name == "option_env"@
        ||| name == "asm"@
        ||| name == "global_asm"@
        ||| name == "naked_asm"@
        ||| name == "concat_idents"@
    }
}

/// An exclamation mark and a group stand right behind token `i`.
pub open spec fn called(ts: Seq<TokenView>, i: int) -> bool {
    &&& i + 2 < ts.len()
    &&& ts[i + 1] == TokenView::Punct('!')
    &&& ts[i + 2] == TokenView::Open
}

/// Token `i` is not to be accepted.
pub open spec fn offends(ts: Seq<TokenView>, i: int) -> bool {
    names_forbidden(ts, i) && (behind_use(ts, i) || called(ts, i))
}

proof fn lemma_forbidden(name: Seq<char>)
    ensures
        forbidden(name) == names_forbidden(seq![TokenView::Ident(name)], 0),
{
    assert(FORBIDDEN_MACROS@[0]@ == "include"@);
    assert(FORBIDDEN_MACROS@[1]@ == "include_str"@);
    assert(FORBIDDEN_MACROS@[2]@ == "include_bytes"@);
    assert(FORBIDDEN_MACROS@[3]@ == "env"@);
    assert(FORBIDDEN_MACROS@[4]@ == "option_env"@);
    assert(FORBIDDEN_MACROS@[5]@ == "asm"@);
    assert(FORBIDDEN_MACROS@[6]@ == "global_asm"@);
    assert(FORBIDDEN_MACROS@[7]@ == "naked_asm"@);
    assert(FORBIDDEN_MACROS@[8]@ == "concat_idents"@);
    if forbidden(name) {
        let i = choose|i: int|
            0 <= i < FORBIDDEN_MACROS@.len() && #[trigger] FORBIDDEN_MACROS@[i]@ == name;
        assert(i == 0 || i == 1 || i == 2 || i == 3 || i == 4 || i == 5 || i == 6 || i == 7 || i
            == 8);
    }
}

proof fn lemma_within_use(ts: Seq<TokenView>, i: int)
    requires
        0 <= i <= ts.len(),
    ensures
        within_use(ts, i, false) == behind_use(ts, i),
    decreases i,
{
    if i > 0 {
        lemma_within_use(ts, i - 1);
        if ts[i - 1] == TokenView::Ident("use"@) {
            assert(behind_use(ts, i));
        } else if ts[i - 1] == TokenView::Punct(';') {
            if behind_use(ts, i) {
                let j = choose|j: int|
                    0 <= j < i && #[trigger] ts[j] == TokenView::Ident("use"@) && forall|k: int|
                        j < k < i ==> #[trigger] ts[k] != TokenView::Punct(';');
                assert(j < i - 1);
                assert(false);
            }
        } else {
            if behind_use(ts, i - 1) {
                let j = choose|j: int|
                    0 <= j < i - 1 && #[trigger] ts[j] == TokenView::Ident("use"@) && forall|k: int|
                        j < k < i - 1 ==> #[trigger] ts[k] != TokenView::Punct(';');
                assert(ts[j] == TokenView::Ident("use"@));
                assert forall|k: int| j < k < i implies #[trigger] ts[k] != TokenView::Punct(
                    ';',
                ) by {}
            }
            if behind_use(ts, i) {
                let j = choose|j: int|
                    0 <= j < i && #[trigger] ts[j] == TokenView::Ident("use"@) && forall|k: int|
                        j < k < i ==> #[trigger] ts[k] != TokenView::Punct(';');
                assert(j < i - 1);
                assert(ts[j] == TokenView::Ident("use"@));
            }
        }
    }
}

proof fn lemma_offends(ts: Seq<TokenView>, i: int)
    requires
        0 <= i < ts.len(),
    ensures
        offence(ts, i, false) is Some == offends(ts, i),
{
    lemma_within_use(ts, i);
    match ts[i] {
        TokenView::Ident(name) => {
            lemma_forbidden(name);
            assert(seq![TokenView::Ident(name)][0] == ts[i]);
        },
        _ => {},
    }
}

/// Code is accepted if and only if it has tokens and none of them names a forbidden macro in a
/// `use`, or calls one.
pub proof fn law_accepted_code_is_harmless(ts: Seq<TokenView>, e: Seq<char>)
    ensures
        judged(Ok(ts)) is Ok <==> forall|i: int| 0 <= i < ts.len() ==> !(#[trigger] offends(ts, i)),
        judged(Err(e)) == Err::<(), Seq<char>>("could not tokenize input: "@ + e),
{
    law_accepts_exactly_harmless_tokens(ts, false);
    assert forall|i: int| 0 <= i < ts.len() implies (#[trigger] offence(ts, i, false)) is Some
        == offends(ts, i) by {
        lemma_offends(ts, i);
    }
    if judged(Ok(ts)) is Ok {
        assert forall|i: int| 0 <= i < ts.len() implies !(#[trigger] offends(ts, i)) by {
            assert(offence(ts, i, false) is None);
        }
    }
    if forall|i: int| 0 <= i < ts.len() ==> !(#[trigger] offends(ts, i)) {
        assert forall|i: int| 0 <= i < ts.len() implies (#[trigger] offence(ts, i, false))
            is None by {
            assert(!offends(ts, i));
        }
    }
}

proof fn lemma_first_offence(ts: Seq<TokenView>, from: int, i: int)
    requires
        0 <= from <= i < ts.len(),
        offends(ts, i),
        forall|k: int| from <= k < i ==> !(#[trigger] offends(ts, k)),
    ensures
        scanned(ts, from, false) == Err::<bool, Seq<char>>(offence(ts, i, false)->0),
    decreases i - from,
{
    lemma_offends(ts, from);
    if from < i {
        assert(!offends(ts, from));
        lemma_first_offence(ts, from + 1, i);
    }
}

/// Rejected code is told of the first token that offends, by its name, and whether it stands in a
/// `use` or is called.
pub proof fn law_the_first_offence_is_named(ts: Seq<TokenView>, i: int, name: Seq<char>)
    requires
        0 <= i < ts.len(),
        ts[i] == TokenView::Ident(name),
        offends(ts, i),
        forall|k: int| 0 <= k < i ==> !(#[trigger] offends(ts, k)),
    ensures
        judged(Ok(ts)) == Err::<(), Seq<char>>(
            if behind_use(ts, i) {
                "identifier `"@ + name + "` is not allowed in a `use` statement"@
            } else {
                "macro `"@ + name + "!` is not allowed"@
            },
        ),
{
    lemma_first_offence(ts, 0, i);
    lemma_offends(ts, i);
    lemma_within_use(ts, i);
}

} // verus!
