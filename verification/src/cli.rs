//! The command line.
use vstd::prelude::*;

use crate::layout::TypeLayout;
use crate::render::{
    footer_text, palette_for, render_footer, render_type_layout, renderable, rendered, rustc_text,
    Ctx, VERSION,
};
use crate::text::{begins, chars_of, concat_assoc, opt_view, same_str, starts_with, string_views};

verus! {

// ── arguments ──────────────────────────────────────────────

/// What is to be analyzed.
pub enum InputSource {
    /// A type expression.
    Inline(String),
    /// A file.
    File(String),
}

/// What an [`InputSource`] is.
pub enum InputView {
    Inline(Seq<char>),
    File(Seq<char>),
}

/// What the arguments ask for.
pub struct Options {
    pub color: bool,
    pub input_source: Option<InputSource>,
    pub sysroot: Option<String>,
    pub target: Option<String>,
    pub json_output: bool,
    pub show_footer: bool,
    pub verbose: bool,
    /// A number of seconds, as it was written.
    pub timeout: Option<String>,
}

/// What [`Options`] say.
pub struct OptionsView {
    pub color: bool,
    pub input_source: Option<InputView>,
    pub sysroot: Option<Seq<char>>,
    pub target: Option<Seq<char>>,
    pub json_output: bool,
    pub show_footer: bool,
    pub verbose: bool,
    pub timeout: Option<Seq<char>>,
}

/// What an optional input is.
pub open spec fn input_view(input: Option<InputSource>) -> Option<InputView> {
    match input {
        Some(InputSource::Inline(s)) => Some(InputView::Inline(s@)),
        Some(InputSource::File(s)) => Some(InputView::File(s@)),
        None => None,
    }
}

impl View for Options {
    type V = OptionsView;

    open spec fn view(&self) -> OptionsView {
        OptionsView {
            color: self.color,
            input_source: input_view(self.input_source),
            sysroot: opt_view(self.sysroot),
            target: opt_view(self.target),
            json_output: self.json_output,
            show_footer: self.show_footer,
            verbose: self.verbose,
            timeout: opt_view(self.timeout),
        }
    }
}

/// What the program is to do.
pub enum Command {
    Run(Options),
    Serve,
    Version,
    Help,
    /// Say what is wrong with the arguments, and fail.
    Fail(String),
}

/// What a [`Command`] says.
pub enum CommandView {
    Run(OptionsView),
    Serve,
    Version,
    Help,
    Fail(Seq<char>),
}

impl View for Command {
    type V = CommandView;

    open spec fn view(&self) -> CommandView {
        match self {
            Command::Run(options) => CommandView::Run(options@),
            Command::Serve => CommandView::Serve,
            Command::Version => CommandView::Version,
            Command::Help => CommandView::Help,
            Command::Fail(e) => CommandView::Fail(e@),
        }
    }
}

/// What is asked for where there are no arguments.
pub open spec fn no_options() -> OptionsView {
    OptionsView {
        color: false,
        input_source: None,
        sysroot: None,
        target: None,
        json_output: false,
        show_footer: true,
        verbose: false,
        timeout: None,
    }
}

/// What the arguments from `i` on come to, behind those that came to `o`.  `seconds` tells of
/// each argument whether it is a positive number.
pub open spec fn parsed_from(
    args: Seq<Seq<char>>,
    seconds: Seq<bool>,
    i: int,
    o: OptionsView,
) -> CommandView
    decreases args.len() - i,
{
    if i >= args.len() {
        CommandView::Run(o)
    } else {
        let arg = args[i];
        let more = i + 1 < args.len();
        if arg == "--no-color"@ {
            parsed_from(args, seconds, i + 1, OptionsView { color: false, ..o })
        } else if arg == "--color"@ {
            parsed_from(args, seconds, i + 1, OptionsView { color: true, ..o })
        } else if arg == "--json"@ {
            parsed_from(args, seconds, i + 1, OptionsView { json_output: true, ..o })
        } else if arg == "--no-footer"@ {
            parsed_from(args, seconds, i + 1, OptionsView { show_footer: false, ..o })
        } else if arg == "-v"@ || arg == "--verbose"@ {
            parsed_from(args, seconds, i + 1, OptionsView { verbose: true, ..o })
        } else if arg == "--serve"@ {
            CommandView::Serve
        } else if arg == "--timeout"@ {
            if !more {
                CommandView::Fail("error: --timeout requires a number of seconds"@)
            } else if !seconds[i + 1] {
                CommandView::Fail("error: --timeout requires a positive number of seconds"@)
            } else {
                parsed_from(args, seconds, i + 2, OptionsView { timeout: Some(args[i + 1]), ..o })
            }
        } else if arg == "-V"@ || arg == "--version"@ {
            CommandView::Version
        } else if arg == "--sysroot"@ {
            if !more {
                CommandView::Fail("error: --sysroot requires a path"@)
            } else {
                parsed_from(args, seconds, i + 2, OptionsView { sysroot: Some(args[i + 1]), ..o })
            }
        } else if arg == "--target"@ {
            if !more {
                CommandView::Fail("error: --target requires a triple"@)
            } else {
                parsed_from(args, seconds, i + 2, OptionsView { target: Some(args[i + 1]), ..o })
            }
        } else if arg == "-t"@ || arg == "--type"@ {
            if !more {
                CommandView::Fail("error: -t requires a type expression"@)
            } else {
                parsed_from(
                    args,
                    seconds,
                    i + 2,
                    OptionsView { input_source: Some(InputView::Inline(args[i + 1])), ..o },
                )
            }
        } else if arg == "-h"@ || arg == "--help"@ {
            CommandView::Help
        } else if !begins(arg, "-"@) {
            parsed_from(
                args,
                seconds,
                i + 1,
                OptionsView { input_source: Some(InputView::File(arg)), ..o },
            )
        } else {
            CommandView::Fail("unknown argument: "@ + arg)
        }
    }
}

/// What comes of one argument.
enum Step {
    /// Go on, so many arguments further.
    On(usize),
    Stop(Command),
}

fn value_of(args: &Vec<String>, i: usize) -> (r: Option<String>)
    requires
        i < args@.len(),
    ensures
        match r {
            Some(s) => i + 1 < args@.len() && s@ == string_views(args@)[i + 1],
            None => i + 1 >= args@.len(),
        },
{
    if i < args.len() - 1 {
        Some(args[i + 1].clone())
    } else {
        None
    }
}

fn fail(message: &str) -> (r: Step)
    ensures
        r matches Step::Stop(c) && c@ == CommandView::Fail(message@),
{
    Step::Stop(Command::Fail(message.to_owned()))
}

fn step(args: &Vec<String>, seconds: &Vec<bool>, i: usize, o: &mut Options) -> (r: Step)
    requires
        i < args@.len(),
        args@.len() == seconds@.len(),
    ensures
        match r {
            Step::On(n) => n <= 2 && i + n <= args@.len() && n > 0 && parsed_from(
                string_views(args@),
                seconds@,
                i as int,
                old(o)@,
            ) == parsed_from(string_views(args@), seconds@, i + n, final(o)@),
            Step::Stop(c) => parsed_from(string_views(args@), seconds@, i as int, old(o)@) == c@,
        },
{
    let ghost views = string_views(args@);
    let arg = args[i].as_str();
    assert(arg@ == views[i as int]);
    if same_str(arg, "--no-color") {
        o.color = false;
        return Step::On(1);
    }
    if same_str(arg, "--color") {
        o.color = true;
        return Step::On(1);
    }
    if same_str(arg, "--json") {
        o.json_output = true;
        return Step::On(1);
    }
    if same_str(arg, "--no-footer") {
        o.show_footer = false;
        return Step::On(1);
    }
    if same_str(arg, "-v") || same_str(arg, "--verbose") {
        o.verbose = true;
        return Step::On(1);
    }
    if same_str(arg, "--serve") {
        return Step::Stop(Command::Serve);
    }
    if same_str(arg, "--timeout") {
        return match value_of(args, i) {
            Some(value) => {
                if i < args.len() - 1 && seconds[i + 1] {
                    o.timeout = Some(value);
                    Step::On(2)
                } else {
                    fail("error: --timeout requires a positive number of seconds")
                }
            },
            None => fail("error: --timeout requires a number of seconds"),
        };
    }
    if same_str(arg, "-V") || same_str(arg, "--version") {
        return Step::Stop(Command::Version);
    }
    if same_str(arg, "--sysroot") {
        return match value_of(args, i) {
            Some(value) => {
                o.sysroot = Some(value);
                Step::On(2)
            },
            None => fail("error: --sysroot requires a path"),
        };
    }
    if same_str(arg, "--target") {
        return match value_of(args, i) {
            Some(value) => {
                o.target = Some(value);
                Step::On(2)
            },
            None => fail("error: --target requires a triple"),
        };
    }
    if same_str(arg, "-t") || same_str(arg, "--type") {
        return match value_of(args, i) {
            Some(value) => {
                o.input_source = Some(InputSource::Inline(value));
                Step::On(2)
            },
            None => fail("error: -t requires a type expression"),
        };
    }
    if same_str(arg, "-h") || same_str(arg, "--help") {
        return Step::Stop(Command::Help);
    }
    if !starts_with(&chars_of(arg), "-") {
        o.input_source = Some(InputSource::File(arg.to_owned()));
        return Step::On(1);
    }
    let mut message = "unknown argument: ".to_owned();
    message.append(arg);
    Step::Stop(Command::Fail(message))
}

/// Reads the arguments, of which the first is the program's name.
pub fn parse_args(args: &Vec<String>, seconds: &Vec<bool>) -> (r: Command)
    requires
        args@.len() == seconds@.len(),
    ensures
        r@ == parsed_from(string_views(args@), seconds@, 1, no_options()),
{
    let mut o = Options {
        color: false,
        input_source: None,
        sysroot: None,
        target: None,
        json_output: false,
        show_footer: true,
        verbose: false,
        timeout: None,
    };
    assert(o@ == no_options());
    let mut i: usize = 1;
    while i < args.len()
        invariant
            args@.len() == seconds@.len(),
            i <= args@.len() || i == 1,
            parsed_from(string_views(args@), seconds@, 1, no_options()) == parsed_from(
                string_views(args@),
                seconds@,
                i as int,
                o@,
            ),
        decreases args@.len() - i,
    {
        match step(args, seconds, i, &mut o) {
            Step::On(n) => {
                i = i + n;
            },
            Step::Stop(command) => {
                return command;
            },
        }
    }
    Command::Run(o)
}

/// Some argument says whether to use color.
pub open spec fn color_is_explicit(args: Seq<Seq<char>>) -> bool {
    exists|i: int|
        0 <= i < args.len() && (#[trigger] args[i] == "--color"@ || args[i] == "--no-color"@)
}

/// Tells whether some argument says whether to use color.
pub fn has_explicit_color(args: &Vec<String>) -> (r: bool)
    ensures
        r == color_is_explicit(string_views(args@)),
{
    let ghost views = string_views(args@);
    for i in 0..args.len()
        invariant
            views == string_views(args@),
            forall|j: int|
                0 <= j < i ==> #[trigger] views[j] != "--color"@ && views[j] != "--no-color"@,
    {
        assert(views[i as int] == args@[i as int]@);
        if same_str(args[i].as_str(), "--color") || same_str(args[i].as_str(), "--no-color") {
            return true;
        }
    }
    false
}

/// Tells whether to use color: as the arguments say, else where a terminal is written to.
pub fn use_color(color: bool, explicit: bool, terminal: bool) -> (r: bool)
    ensures
        r == (if explicit {
            color
        } else {
            terminal
        }),
{
    if explicit {
        color
    } else {
        terminal
    }
}

// ── output ─────────────────────────────────────────────────

/// The line on the program's version.
pub fn version_line(rustc_version: &str, rustc_hash: &str) -> (r: String)
    ensures
        r@ == "nichy "@ + VERSION@ + " · "@ + rustc_text(rustc_version@, rustc_hash@),
{
    broadcast use concat_assoc;

    let mut out = "nichy ".to_owned();
    out.append(VERSION);
    out.append(" · ");
    out.append(rustc_version);
    if !rustc_hash.is_empty() {
        out.append(" (");
        out.append(rustc_hash);
        out.append(")");
    }
    out
}

/// The renderings of layouts, one after the other.
pub open spec fn rendered_all(color: bool, layouts: Seq<TypeLayout>) -> Seq<char>
    decreases layouts.len(),
{
    if layouts.len() == 0 {
        Seq::empty()
    } else {
        rendered_all(color, layouts.drop_last()) + rendered(color, layouts.last())
    }
}

/// What is printed of layouts.
pub fn report(
    layouts: &Vec<TypeLayout>,
    show_footer: bool,
    rustc_version: &str,
    rustc_hash: &str,
    ctx: &Ctx,
) -> (r: String)
    requires
        forall|i: int| 0 <= i < layouts@.len() ==> renderable(#[trigger] layouts@[i]),
    ensures
        r@ == rendered_all(ctx.colored(), layouts@) + (if show_footer {
            footer_text(palette_for(ctx.colored()), rustc_version@, rustc_hash@)
        } else {
            Seq::empty()
        }),
{
    let mut out = String::new();
    for i in 0..layouts.len()
        invariant
            forall|j: int| 0 <= j < layouts@.len() ==> renderable(#[trigger] layouts@[j]),
            out@ == rendered_all(ctx.colored(), layouts@.take(i as int)),
    {
        assert(layouts@.take(i + 1).drop_last() =~= layouts@.take(i as int));
        out.append(render_type_layout(&layouts[i], ctx).as_str());
    }
    assert(layouts@.take(layouts@.len() as int) =~= layouts@);
    if show_footer {
        out.append(render_footer(rustc_version, rustc_hash, ctx).as_str());
    } else {
        assert(out@ + Seq::<char>::empty() =~= out@);
    }
    out
}

/// What `--help` prints.
pub const HELP: &'static str = "nichy — Rust type layout & niche optimization visualizer
        powered by rustc

USAGE:
    nichy [OPTIONS] [FILE]
    nichy -t \"Option<&u64>\"
    echo 'struct Foo { x: u32, y: bool }' | nichy

OPTIONS:
    -t, --type TYPE         Analyze a single type expression
    --target TRIPLE         Target triple (e.g. aarch64-unknown-linux-gnu)
    --sysroot PATH          Sysroot for rustc (default: $NICHY_SYSROOT)
    --color / --no-color    Force color on/off
    --no-footer             Hide version footer
    --timeout SECS          Abort if analysis exceeds SECS wall-clock seconds
    -V, --version           Print version info
    -h, --help              Show this help

ENVIRONMENT:
    NICHY_SYSROOT    Sysroot path (stage1 compiler)";

/// What is printed behind the help where there is nothing to analyze.
pub const EXAMPLES: &'static str = "\nEXAMPLES:
    nichy -t \"Option<&u64>\"
    nichy -t \"Result<u32, bool>\"

    echo '
    struct Padded {
        a: u8,
        b: u64,
        c: u8,
    }
    ' | nichy

    echo '
    enum Shape {
        Circle(f64),
        Rectangle { w: f64, h: f64 },
        Point,
    }
    ' | nichy

    nichy src/types.rs";

// ── laws ───────────────────────────────────────────────────

/// The command that arguments come to, of which the first is the program's name.
pub open spec fn command_of(args: Seq<Seq<char>>, seconds: Seq<bool>) -> CommandView {
    parsed_from(args, seconds, 1, no_options())
}

/// The argument is an option that has its value behind it.
pub open spec fn takes_value(arg: Seq<char>) -> bool {
    ||| arg == "--timeout"@
    ||| arg == "--sysroot"@
    ||| arg == "--target"@
    ||| arg == "-t"@
    ||| arg == "--type"@
}

/// Argument `k` is in the place of an option, not in that of a value, where the one at `from` is.
pub open spec fn is_place(args: Seq<Seq<char>>, from: int, k: int) -> bool
    decreases args.len() - from,
{
    if from >= args.len() {
        false
    } else if from == k {
        true
    } else if takes_value(args[from]) && from + 1 < args.len() {
        is_place(args, from + 2, k)
    } else {
        is_place(args, from + 1, k)
    }
}

/// Both are forms of one option.
pub open spec fn same_option(a: Seq<char>, b: Seq<char>) -> bool {
    ||| (a == "-t"@ || a == "--type"@) && (b == "-t"@ || b == "--type"@)
    ||| (a == "-v"@ || a == "--verbose"@) && (b == "-v"@ || b == "--verbose"@)
    ||| (a == "-V"@ || a == "--version"@) && (b == "-V"@ || b == "--version"@)
    ||| (a == "-h"@ || a == "--help"@) && (b == "-h"@ || b == "--help"@)
}

/// By these characters the options are told apart.
proof fn lemma_options_differ()
    ensures
        "--no-color"@.len() == 10 && "--no-color"@[0] == '-' && "--no-color"@[2] == 'n' && "--no-color"@[5] == 'c',
        "--color"@.len() == 7 && "--color"@[0] == '-' && "--color"@[2] == 'c' && "--color"@[5] == 'o',
        "--json"@.len() == 6 && "--json"@[0] == '-' && "--json"@[2] == 'j' && "--json"@[5] == 'n',
        "--no-footer"@.len() == 11 && "--no-footer"@[0] == '-' && "--no-footer"@[2] == 'n' && "--no-footer"@[5] == 'f',
        "-v"@.len() == 2 && "-v"@[0] == '-' && "-v"@[1] == 'v',
        "--verbose"@.len() == 9 && "--verbose"@[0] == '-' && "--verbose"@[2] == 'v' && "--verbose"@[5] == 'b',
        "--serve"@.len() == 7 && "--serve"@[0] == '-' && "--serve"@[2] == 's' && "--serve"@[5] == 'v',
        "--timeout"@.len() == 9 && "--timeout"@[0] == '-' && "--timeout"@[2] == 't' && "--timeout"@[5] == 'e',
        "-V"@.len() == 2 && "-V"@[0] == '-' && "-V"@[1] == 'V',
        "--version"@.len() == 9 && "--version"@[0] == '-' && "--version"@[2] == 'v' && "--version"@[5] == 's',
        "--sysroot"@.len() == 9 && "--sysroot"@[0] == '-' && "--sysroot"@[2] == 's' && "--sysroot"@[5] == 'r',
        "--target"@.len() == 8 && "--target"@[0] == '-' && "--target"@[2] == 't' && "--target"@[5] == 'g',
        "-t"@.len() == 2 && "-t"@[0] == '-' && "-t"@[1] == 't',
        "--type"@.len() == 6 && "--type"@[0] == '-' && "--type"@[2] == 't' && "--type"@[5] == 'e',
        "-h"@.len() == 2 && "-h"@[0] == '-' && "-h"@[1] == 'h',
        "--help"@.len() == 6 && "--help"@[0] == '-' && "--help"@[2] == 'h' && "--help"@[5] == 'p',
{
    reveal_strlit("--no-color");
    reveal_strlit("--color");
    reveal_strlit("--json");
    reveal_strlit("--no-footer");
    reveal_strlit("-v");
    reveal_strlit("--verbose");
    reveal_strlit("--serve");
    reveal_strlit("--timeout");
    reveal_strlit("-V");
    reveal_strlit("--version");
    reveal_strlit("--sysroot");
    reveal_strlit("--target");
    reveal_strlit("-t");
    reveal_strlit("--type");
    reveal_strlit("-h");
    reveal_strlit("--help");
}

proof fn lemma_begins_dash(s: Seq<char>)
    ensures
        begins(s, "-"@) == (s.len() > 0 && s[0] == '-'),
{
    reveal_strlit("-");
    if s.len() > 0 {
        assert(s.take(1) =~= seq![s[0]]);
        if s[0] == '-' {
            assert(s.take(1) =~= "-"@);
        } else {
            assert(s.take(1)[0] == s[0]);
        }
    }
}

proof fn lemma_places_ahead(args: Seq<Seq<char>>, from: int, k: int)
    requires
        is_place(args, from, k),
    ensures
        from <= k < args.len(),
    decreases args.len() - from,
{
    if from != k {
        if takes_value(args[from]) && from + 1 < args.len() {
            lemma_places_ahead(args, from + 2, k);
        } else {
            lemma_places_ahead(args, from + 1, k);
        }
    }
}

/// Behind the argument in question nothing changes.
proof fn lemma_behind(
    args: Seq<Seq<char>>,
    seconds: Seq<bool>,
    i: int,
    o: OptionsView,
    k: int,
    other: Seq<char>,
)
    requires
        0 <= k < i,
        k < args.len(),
    ensures
        parsed_from(args, seconds, i, o) == parsed_from(args.update(k, other), seconds, i, o),
    decreases args.len() - i,
{
    let b = args.update(k, other);
    if i < args.len() {
        assert(b[i] == args[i]);
        assert(i + 1 < args.len() ==> b[i + 1] == args[i + 1]);
        lemma_one_argument(args, seconds, i, o);
        lemma_one_argument(b, seconds, i, o);
        if stopped_by(args, seconds, i) is None {
            assert(after_one(b, i, o) == after_one(args, i, o));
            lemma_behind(args, seconds, next_place(args, i), after_one(args, i, o), k, other);
        }
    }
}

proof fn lemma_forms_agree(
    args: Seq<Seq<char>>,
    seconds: Seq<bool>,
    i: int,
    o: OptionsView,
    k: int,
    other: Seq<char>,
)
    requires
        0 <= i,
        is_place(args, i, k),
        same_option(args[k], other),
    ensures
        parsed_from(args, seconds, i, o) == parsed_from(args.update(k, other), seconds, i, o),
    decreases args.len() - i,
{
    let b = args.update(k, other);
    lemma_places_ahead(args, i, k);
    lemma_options_differ();
    lemma_one_argument(args, seconds, i, o);
    lemma_one_argument(b, seconds, i, o);
    assert(i + 1 < args.len() && i + 1 != k ==> b[i + 1] == args[i + 1]);
    let n = next_place(args, i);
    if i == k {
        assert(b[i] == other);
        if stopped_by(args, seconds, i) is None {
            assert(after_one(b, i, o) == after_one(args, i, o));
            lemma_behind(args, seconds, n, after_one(args, i, o), k, other);
        }
    } else {
        assert(b[i] == args[i]);
        assert(is_place(args, n, k));
        lemma_places_ahead(args, n, k);
        if stopped_by(args, seconds, i) is None {
            assert(after_one(b, i, o) == after_one(args, i, o));
            lemma_forms_agree(args, seconds, n, after_one(args, i, o), k, other);
        }
    }
}

/// The short and the long form of an option mean the same: where one stands for the other in the
/// place of an option, the arguments come to the same command.
pub proof fn law_forms_of_an_option_mean_the_same(
    args: Seq<Seq<char>>,
    seconds: Seq<bool>,
    k: int,
    other: Seq<char>,
)
    requires
        is_place(args, 1, k),
        same_option(args[k], other),
    ensures
        command_of(args, seconds) == command_of(args.update(k, other), seconds),
{
    lemma_forms_agree(args, seconds, 1, no_options(), k, other);
}

/// Without arguments a text is read from elsewhere and rendered with a footer, and nothing else is
/// asked for.
pub proof fn law_without_arguments(args: Seq<Seq<char>>, seconds: Seq<bool>)
    requires
        args.len() <= 1,
    ensures
        match command_of(args, seconds) {
            CommandView::Run(o) => {
                &&& o.input_source is None
                &&& o.show_footer
                &&& !o.color && !o.json_output && !o.verbose
                &&& o.sysroot is None && o.target is None && o.timeout is None
            },
            _ => false,
        },
{
}

/// With `-t` or `--type` and a text, the text is what is analyzed, as a type, whatever it is; all
/// else is as without arguments.
pub proof fn law_types_are_given_by_option(
    program: Seq<char>,
    option: Seq<char>,
    text: Seq<char>,
    seconds: Seq<bool>,
)
    requires
        option == "-t"@ || option == "--type"@,
    ensures
        match (
            command_of(seq![program], seconds),
            command_of(seq![program, option, text], seconds),
        ) {
            (CommandView::Run(none), CommandView::Run(o)) => {
                &&& o.input_source == Some(InputView::Inline(text))
                &&& o == (OptionsView { input_source: o.input_source, ..none })
            },
            _ => false,
        },
{
    lemma_options_differ();
    let args = seq![program, option, text];
    assert(args[1] == option && args[2] == text);
    reveal_with_fuel(parsed_from, 3);
}

// ── the options, each on its own ───────────────────────────

/// The last place of an option among those from `from` on that fulfil `p`.
pub open spec fn is_last_place(
    args: Seq<Seq<char>>,
    from: int,
    p: spec_fn(Seq<char>) -> bool,
    k: int,
) -> bool {
    &&& is_place(args, from, k)
    &&& p(args[k])
    &&& forall|m: int| k < m && #[trigger] is_place(args, from, m) ==> !p(args[m])
}

/// Some place of an option fulfils `p`.
pub open spec fn some_place(
    args: Seq<Seq<char>>,
    from: int,
    p: spec_fn(Seq<char>) -> bool,
) -> bool {
    exists|k: int| #[trigger] is_place(args, from, k) && p(args[k])
}

/// The arguments of a run set a value to that of the last option in question: what this option
/// says, and to the value it had where there is none.
pub open spec fn last_says<T>(
    args: Seq<Seq<char>>,
    from: int,
    p: spec_fn(Seq<char>) -> bool,
    says: spec_fn(int) -> T,
    before: T,
    after: T,
) -> bool {
    &&& forall|k: int| #[trigger] is_last_place(args, from, p, k) ==> after == says(k)
    &&& !some_place(args, from, p) ==> after == before
}

/// One argument further.
pub open spec fn next_place(args: Seq<Seq<char>>, i: int) -> int {
    if takes_value(args[i]) && i + 1 < args.len() {
        i + 2
    } else {
        i + 1
    }
}

proof fn lemma_last_says<T>(
    args: Seq<Seq<char>>,
    i: int,
    p: spec_fn(Seq<char>) -> bool,
    says: spec_fn(int) -> T,
    before: T,
    between: T,
    after: T,
)
    requires
        0 <= i < args.len(),
        last_says(args, next_place(args, i), p, says, between, after),
        between == (if p(args[i]) {
            says(i)
        } else {
            before
        }),
    ensures
        last_says(args, i, p, says, before, after),
{
    let n = next_place(args, i);
    assert(is_place(args, i, i));
    assert forall|m: int| #[trigger] is_place(args, i, m) implies m == i || is_place(args, n, m) by {}
    assert forall|m: int| #[trigger] is_place(args, n, m) implies m > i && is_place(args, i, m) by {
        lemma_places_ahead(args, n, m);
    }
    assert forall|k: int| #[trigger] is_last_place(args, i, p, k) implies after == says(k) by {
        if k == i {
            if some_place(args, n, p) {
                let m = choose|m: int| #[trigger] is_place(args, n, m) && p(args[m]);
                assert(is_place(args, i, m));
                assert(false);
            }
        } else {
            assert(is_place(args, n, k));
            assert forall|m: int| k < m && #[trigger] is_place(args, n, m) implies !p(args[m]) by {
                assert(is_place(args, i, m));
            }
            assert(is_last_place(args, n, p, k));
        }
    }
    if !some_place(args, i, p) {
        if some_place(args, n, p) {
            let m = choose|m: int| #[trigger] is_place(args, n, m) && p(args[m]);
            assert(is_place(args, i, m));
        }
    }
}

proof fn lemma_last_says_end<T>(
    args: Seq<Seq<char>>,
    i: int,
    p: spec_fn(Seq<char>) -> bool,
    says: spec_fn(int) -> T,
    v: T,
)
    requires
        i >= args.len(),
    ensures
        last_says(args, i, p, says, v, v),
{
}

/// Every option of a run is what its last argument says, each on its own.
pub open spec fn options_say(
    args: Seq<Seq<char>>,
    from: int,
    o: OptionsView,
    r: OptionsView,
) -> bool {
    &&& last_says(
        args,
        from,
        |a: Seq<char>| a == "--color"@ || a == "--no-color"@,
        |k: int| args[k] == "--color"@,
        o.color,
        r.color,
    )
    &&& last_says(args, from, |a: Seq<char>| a == "--json"@, |k: int| true, o.json_output, r.json_output)
    &&& last_says(
        args,
        from,
        |a: Seq<char>| a == "-v"@ || a == "--verbose"@,
        |k: int| true,
        o.verbose,
        r.verbose,
    )
    &&& last_says(
        args,
        from,
        |a: Seq<char>| a == "--no-footer"@,
        |k: int| false,
        o.show_footer,
        r.show_footer,
    )
    &&& last_says(
        args,
        from,
        |a: Seq<char>| a == "--timeout"@,
        |k: int| Some(args[k + 1]),
        o.timeout,
        r.timeout,
    )
    &&& last_says(
        args,
        from,
        |a: Seq<char>| a == "--sysroot"@,
        |k: int| Some(args[k + 1]),
        o.sysroot,
        r.sysroot,
    )
    &&& last_says(
        args,
        from,
        |a: Seq<char>| a == "--target"@,
        |k: int| Some(args[k + 1]),
        o.target,
        r.target,
    )
    &&& last_says(
        args,
        from,
        |a: Seq<char>| a == "-t"@ || a == "--type"@ || !(a.len() > 0 && a[0] == '-'),
        |k: int|
            Some(
                if args[k].len() > 0 && args[k][0] == '-' {
                    InputView::Inline(args[k + 1])
                } else {
                    InputView::File(args[k])
                },
            ),
        o.input_source,
        r.input_source,
    )
}

proof fn lemma_options_say_step(
    args: Seq<Seq<char>>,
    i: int,
    o: OptionsView,
    mid: OptionsView,
    r: OptionsView,
)
    requires
        0 <= i < args.len(),
        options_say(args, next_place(args, i), mid, r),
        mid == after_one(args, i, o),
    ensures
        options_say(args, i, o, r),
{
    lemma_options_differ();
    lemma_last_says(
        args,
        i,
        |a: Seq<char>| a == "--color"@ || a == "--no-color"@,
        |k: int| args[k] == "--color"@,
        o.color,
        mid.color,
        r.color,
    );
    lemma_last_says(
        args,
        i,
        |a: Seq<char>| a == "--json"@,
        |k: int| true,
        o.json_output,
        mid.json_output,
        r.json_output,
    );
    lemma_last_says(
        args,
        i,
        |a: Seq<char>| a == "-v"@ || a == "--verbose"@,
        |k: int| true,
        o.verbose,
        mid.verbose,
        r.verbose,
    );
    lemma_last_says(
        args,
        i,
        |a: Seq<char>| a == "--no-footer"@,
        |k: int| false,
        o.show_footer,
        mid.show_footer,
        r.show_footer,
    );
    lemma_last_says(
        args,
        i,
        |a: Seq<char>| a == "--timeout"@,
        |k: int| Some(args[k + 1]),
        o.timeout,
        mid.timeout,
        r.timeout,
    );
    lemma_last_says(
        args,
        i,
        |a: Seq<char>| a == "--sysroot"@,
        |k: int| Some(args[k + 1]),
        o.sysroot,
        mid.sysroot,
        r.sysroot,
    );
    lemma_last_says(
        args,
        i,
        |a: Seq<char>| a == "--target"@,
        |k: int| Some(args[k + 1]),
        o.target,
        mid.target,
        r.target,
    );
    lemma_last_says(
        args,
        i,
        |a: Seq<char>| a == "-t"@ || a == "--type"@ || !(a.len() > 0 && a[0] == '-'),
        |k: int|
            Some(
                if args[k].len() > 0 && args[k][0] == '-' {
                    InputView::Inline(args[k + 1])
                } else {
                    InputView::File(args[k])
                },
            ),
        o.input_source,
        mid.input_source,
        r.input_source,
    );
}

/// The options after one argument of a run, by which it goes on.
pub open spec fn after_one(args: Seq<Seq<char>>, i: int, o: OptionsView) -> OptionsView {
    OptionsView {
        color: if args[i] == "--color"@ {
            true
        } else if args[i] == "--no-color"@ {
            false
        } else {
            o.color
        },
        json_output: args[i] == "--json"@ || o.json_output,
        verbose: args[i] == "-v"@ || args[i] == "--verbose"@ || o.verbose,
        show_footer: args[i] != "--no-footer"@ && o.show_footer,
        timeout: if args[i] == "--timeout"@ {
            Some(args[i + 1])
        } else {
            o.timeout
        },
        sysroot: if args[i] == "--sysroot"@ {
            Some(args[i + 1])
        } else {
            o.sysroot
        },
        target: if args[i] == "--target"@ {
            Some(args[i + 1])
        } else {
            o.target
        },
        input_source: if args[i] == "-t"@ || args[i] == "--type"@ {
            Some(InputView::Inline(args[i + 1]))
        } else if args[i].len() > 0 && args[i][0] == '-' {
            o.input_source
        } else {
            Some(InputView::File(args[i]))
        },
    }
}

/// What stops the reading of arguments, if anything does: what is asked for in place of a run, or
/// what is wrong with an argument.
pub open spec fn stopped_by(args: Seq<Seq<char>>, seconds: Seq<bool>, k: int) -> Option<
    CommandView,
> {
    let arg = args[k];
    let last = k + 1 >= args.len();
    if arg == "--serve"@ {
        Some(CommandView::Serve)
    } else if arg == "-V"@ || arg == "--version"@ {
        Some(CommandView::Version)
    } else if arg == "-h"@ || arg == "--help"@ {
        Some(CommandView::Help)
    } else if takes_value(arg) && last {
        Some(
            CommandView::Fail(
                if arg == "--timeout"@ {
                    "error: --timeout requires a number of seconds"@
                } else if arg == "--sysroot"@ {
                    "error: --sysroot requires a path"@
                } else if arg == "--target"@ {
                    "error: --target requires a triple"@
                } else {
                    "error: -t requires a type expression"@
                },
            ),
        )
    } else if arg == "--timeout"@ && !seconds[k + 1] {
        Some(CommandView::Fail("error: --timeout requires a positive number of seconds"@))
    } else if arg.len() > 0 && arg[0] == '-' && !takes_value(arg) && arg != "--no-color"@ && arg
        != "--color"@ && arg != "--json"@ && arg != "--no-footer"@ && arg != "-v"@ && arg
        != "--verbose"@ {
        Some(CommandView::Fail("unknown argument: "@ + arg))
    } else {
        None
    }
}

/// One argument either stops the reading or changes the options that it is about.
proof fn lemma_one_argument(args: Seq<Seq<char>>, seconds: Seq<bool>, i: int, o: OptionsView)
    requires
        0 <= i < args.len(),
    ensures
        parsed_from(args, seconds, i, o) == (match stopped_by(args, seconds, i) {
            Some(c) => c,
            None => parsed_from(args, seconds, next_place(args, i), after_one(args, i, o)),
        }),
{
    lemma_options_differ();
    lemma_begins_dash(args[i]);
}

proof fn lemma_run_says(
    args: Seq<Seq<char>>,
    seconds: Seq<bool>,
    i: int,
    o: OptionsView,
    r: OptionsView,
)
    requires
        0 <= i,
        parsed_from(args, seconds, i, o) == CommandView::Run(r),
    ensures
        options_say(args, i, o, r),
        forall|k: int| #[trigger] is_place(args, i, k) ==> stopped_by(args, seconds, k) is None,
    decreases args.len() - i,
{
    if i < args.len() {
        lemma_one_argument(args, seconds, i, o);
        let n = next_place(args, i);
        lemma_run_says(args, seconds, n, after_one(args, i, o), r);
        lemma_options_say_step(args, i, o, after_one(args, i, o), r);
        assert forall|k: int| #[trigger] is_place(args, i, k) implies stopped_by(args, seconds, k)
            is None by {
            if k != i {
                assert(is_place(args, n, k));
            }
        }
    }
}

/// In a run every option is what the last of the arguments about it says, each on its own, and as
/// without arguments where there is none.  An argument that is no option is a file, the one behind
/// `-t` or `--type` a type.
pub proof fn law_the_last_option_counts(
    args: Seq<Seq<char>>,
    seconds: Seq<bool>,
    r: OptionsView,
)
    requires
        command_of(args, seconds) == CommandView::Run(r),
    ensures
        options_say(
            args,
            1,
            OptionsView {
                color: false,
                input_source: None,
                sysroot: None,
                target: None,
                json_output: false,
                show_footer: true,
                verbose: false,
                timeout: None,
            },
            r,
        ),
{
    lemma_run_says(args, seconds, 1, no_options(), r);
}

proof fn lemma_first_stop(
    args: Seq<Seq<char>>,
    seconds: Seq<bool>,
    i: int,
    o: OptionsView,
    k: int,
)
    requires
        0 <= i,
        is_place(args, i, k),
        stopped_by(args, seconds, k) is Some,
        forall|m: int|
            m < k && #[trigger] is_place(args, i, m) ==> stopped_by(args, seconds, m) is None,
    ensures
        parsed_from(args, seconds, i, o) == stopped_by(args, seconds, k)->0,
    decreases args.len() - i,
{
    lemma_places_ahead(args, i, k);
    lemma_one_argument(args, seconds, i, o);
    if i != k {
        assert(is_place(args, i, i));
        let n = next_place(args, i);
        assert(is_place(args, n, k));
        assert forall|m: int| m < k && #[trigger] is_place(args, n, m) implies stopped_by(
            args,
            seconds,
            m,
        ) is None by {
            lemma_places_ahead(args, n, m);
            assert(is_place(args, i, m));
        }
        lemma_first_stop(args, seconds, n, after_one(args, i, o), k);
    }
}

/// The first argument that stops the reading decides, whatever stands behind it: to serve, to say
/// the version, to help, or to say what is wrong.
pub proof fn law_the_first_stop_decides(args: Seq<Seq<char>>, seconds: Seq<bool>, k: int)
    requires
        is_place(args, 1, k),
        stopped_by(args, seconds, k) is Some,
        forall|m: int|
            m < k && #[trigger] is_place(args, 1, m) ==> stopped_by(args, seconds, m) is None,
    ensures
        command_of(args, seconds) == stopped_by(args, seconds, k)->0,
{
    lemma_first_stop(args, seconds, 1, no_options(), k);
}

proof fn lemma_no_stop(args: Seq<Seq<char>>, seconds: Seq<bool>, i: int, o: OptionsView)
    requires
        0 <= i,
        forall|m: int| #[trigger] is_place(args, i, m) ==> stopped_by(args, seconds, m) is None,
    ensures
        parsed_from(args, seconds, i, o) is Run,
    decreases args.len() - i,
{
    if i < args.len() {
        assert(is_place(args, i, i));
        lemma_one_argument(args, seconds, i, o);
        let n = next_place(args, i);
        assert forall|m: int| #[trigger] is_place(args, n, m) implies stopped_by(args, seconds, m)
            is None by {
            lemma_places_ahead(args, n, m);
            assert(is_place(args, i, m));
        }
        lemma_no_stop(args, seconds, n, after_one(args, i, o));
    }
}

/// Where no argument stops the reading, there is a run, and only there.
pub proof fn law_arguments_without_a_stop_run(args: Seq<Seq<char>>, seconds: Seq<bool>)
    ensures
        command_of(args, seconds) is Run <==> forall|m: int| #[trigger]
            is_place(args, 1, m) ==> stopped_by(args, seconds, m) is None,
{
    match command_of(args, seconds) {
        CommandView::Run(r) => lemma_run_says(args, seconds, 1, no_options(), r),
        _ => {
            if forall|m: int| #[trigger]
                is_place(args, 1, m) ==> stopped_by(args, seconds, m) is None {
                lemma_no_stop(args, seconds, 1, no_options());
            }
        },
    }
}

/// Whoever reads arguments gets the command that they come to, with the short and the long form of
/// an option alike: with `-t` or `--type`, a run on that type.
pub proof fn law_parse_args(args: &Vec<String>, seconds: &Vec<bool>, r: Command)
    requires
        args@.len() == 3,
        seconds@.len() == 3,
        args@[1]@ == "-t"@ || args@[1]@ == "--type"@,
        call_ensures(parse_args, (args, seconds), r),
    ensures
        match r {
            Command::Run(o) => {
                &&& o.input_source matches Some(InputSource::Inline(t)) && t@ == args@[2]@
                &&& o.show_footer && !o.color && !o.json_output && !o.verbose
                &&& o.sysroot is None && o.target is None && o.timeout is None
            },
            _ => false,
        },
{
    let views = string_views(args@);
    assert(views =~= seq![args@[0]@, args@[1]@, args@[2]@]);
    law_types_are_given_by_option(args@[0]@, args@[1]@, args@[2]@, seconds@);
    law_without_arguments(seq![args@[0]@], seconds@);
}

/// Reports stand one behind the other, in the order of the layouts, and a footer only changes what
/// stands behind them.
pub proof fn law_reports_are_in_order(color: bool, a: Seq<TypeLayout>, b: Seq<TypeLayout>)
    ensures
        rendered_all(color, a + b) == rendered_all(color, a) + rendered_all(color, b),
        a.len() == 1 ==> rendered_all(color, a) == rendered(color, a[0]),
    decreases b.len(),
{
    if b.len() == 0 {
        assert(a + b =~= a);
        assert(rendered_all(color, a) + rendered_all(color, b) =~= rendered_all(color, a));
    } else {
        law_reports_are_in_order(color, a, b.drop_last());
        assert((a + b).drop_last() =~= a + b.drop_last());
        assert((a + b).last() == b.last());
        concat_assoc(
            rendered_all(color, a),
            rendered_all(color, b.drop_last()),
            rendered(color, b.last()),
        );
    }
    if a.len() == 1 {
        let t = a.drop_last();
        assert(t.len() == 0);
        assert(rendered_all(color, t) == Seq::<char>::empty());
        assert(Seq::<char>::empty() + rendered(color, a.last()) =~= rendered(color, a[0]));
    }
}

/// Of two reports of the same layouts, one with a footer and one without, the one with it is the
/// other with the footer behind it.
pub proof fn law_footers_stand_at_the_end(
    layouts: &Vec<TypeLayout>,
    rustc_version: &str,
    rustc_hash: &str,
    ctx: &Ctx,
    with_footer: String,
    without: String,
    footer: String,
)
    requires
        call_ensures(report, (layouts, true, rustc_version, rustc_hash, ctx), with_footer),
        call_ensures(report, (layouts, false, rustc_version, rustc_hash, ctx), without),
        call_ensures(render_footer, (rustc_version, rustc_hash, ctx), footer),
    ensures
        with_footer@ == without@ + footer@,
{
    let all = rendered_all(ctx.colored(), layouts@);
    assert(all + Seq::<char>::empty() =~= all);
}

/// What the arguments say of color counts where they say something of it, and else whether a
/// terminal is written to.
pub proof fn law_color_is_used_as_asked(
    args: &Vec<String>,
    color: bool,
    terminal: bool,
    explicit: bool,
    r: bool,
)
    requires
        call_ensures(has_explicit_color, (args,), explicit),
        call_ensures(use_color, (color, explicit, terminal), r),
    ensures
        (exists|i: int|
            0 <= i < args@.len() && ((#[trigger] args@[i])@ == "--color"@ || args@[i]@
                == "--no-color"@)) ==> r == color,
        (forall|i: int|
            0 <= i < args@.len() ==> (#[trigger] args@[i])@ != "--color"@ && args@[i]@
                != "--no-color"@) ==> r == terminal,
{
    let views = string_views(args@);
    assert(views.len() == args@.len());
    if exists|i: int|
        0 <= i < args@.len() && ((#[trigger] args@[i])@ == "--color"@ || args@[i]@
            == "--no-color"@) {
        let i = choose|i: int|
            0 <= i < args@.len() && ((#[trigger] args@[i])@ == "--color"@ || args@[i]@
                == "--no-color"@);
        assert(views[i] == args@[i]@);
    }
    if forall|i: int|
        0 <= i < args@.len() ==> (#[trigger] args@[i])@ != "--color"@ && args@[i]@
            != "--no-color"@ {
        assert forall|i: int| 0 <= i < views.len() implies #[trigger] views[i] != "--color"@
            && views[i] != "--no-color"@ by {
            assert(views[i] == args@[i]@);
        }
    }
}

/// The line on the version names the program, its version and the compiler, as the footer does.
pub proof fn law_version_line(rustc_version: &str, rustc_hash: &str, r: String)
    requires
        call_ensures(version_line, (rustc_version, rustc_hash), r),
    ensures
        rustc_hash@.len() == 0 ==> r@ == "nichy "@ + VERSION@ + " · "@ + rustc_version@,
        rustc_hash@.len() > 0 ==> r@ == "nichy "@ + VERSION@ + " · "@ + (rustc_version@ + " ("@
            + rustc_hash@ + ")"@),
{
}

} // verus!
