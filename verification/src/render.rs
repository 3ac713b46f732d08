//! Layouts as text for a terminal.
use vstd::prelude::*;

use crate::layout::{
    DiscriminantInfo, EnumLayout, EnumStrategy, FieldLayout, NicheInfo, StructLayout, TypeLayout,
    TypeLayoutKind, VariantLayout,
};
use crate::text::{
    append_chars, chars_of, concat_assoc, dec, hex, opt_view, pad_left, padded, same_str, string_of,
    to_dec, to_hex,
};

verus! {

/// The version that footers show.
pub const VERSION: &'static str = "0.1.0";

/// What `char::is_alphanumeric` answers.
pub uninterp spec fn alphanumeric(c: char) -> bool;

/// `char::is_alphanumeric`: whether the character is a letter or a number, by the tables of
/// Unicode.  The answer depends on the character alone.
pub assume_specification[ char::is_alphanumeric ](c: char) -> (r: bool)
    ensures
        r == alphanumeric(c),
;

// ── colors ─────────────────────────────────────────────────

/// The escape sequences that a rendering uses.
pub struct Palette {
    pub reset: &'static str,
    pub bold: &'static str,
    pub dim: &'static str,
    pub cyan: &'static str,
    pub magenta: &'static str,
    pub green: &'static str,
    pub underline: &'static str,
    pub field_colors: &'static [&'static str],
}

/// What a [`Palette`] shows.
pub struct PaletteView {
    pub reset: Seq<char>,
    pub bold: Seq<char>,
    pub dim: Seq<char>,
    pub cyan: Seq<char>,
    pub magenta: Seq<char>,
    pub green: Seq<char>,
    pub underline: Seq<char>,
    pub field_colors: Seq<Seq<char>>,
}

impl View for Palette {
    type V = PaletteView;

    open spec fn view(&self) -> PaletteView {
        PaletteView {
            reset: self.reset@,
            bold: self.bold@,
            dim: self.dim@,
            cyan: self.cyan@,
            magenta: self.magenta@,
            green: self.green@,
            underline: self.underline@,
            field_colors: self.field_colors@.map_values(|c: &'static str| c@),
        }
    }
}

/// The palette of a terminal with colors.
pub open spec fn ansi() -> PaletteView {
    PaletteView {
        reset: "\x1b[0m"@,
        bold: "\x1b[1m"@,
        dim: "\x1b[2m"@,
        cyan: "\x1b[36m"@,
        magenta: "\x1b[35m"@,
        green: "\x1b[32m"@,
        underline: "═"@,
        field_colors: seq![
            "\x1b[38;5;75m"@,
            "\x1b[38;5;114m"@,
            "\x1b[38;5;216m"@,
            "\x1b[38;5;183m"@,
            "\x1b[38;5;222m"@,
            "\x1b[38;5;117m"@,
            "\x1b[38;5;151m"@,
            "\x1b[38;5;210m"@,
        ],
    }
}

/// The palette of plain text.
pub open spec fn plain() -> PaletteView {
    PaletteView {
        reset: ""@,
        bold: ""@,
        dim: ""@,
        cyan: ""@,
        magenta: ""@,
        green: ""@,
        underline: "="@,
        field_colors: seq![""@, ""@, ""@, ""@, ""@, ""@, ""@, ""@],
    }
}

/// The palette for output with or without colors.
pub open spec fn palette_for(color: bool) -> PaletteView {
    if color {
        ansi()
    } else {
        plain()
    }
}

impl Palette {
    fn choose_for(color: bool) -> (r: Palette)
        ensures
            r@ == palette_for(color),
    {
        if color {
            let p = Palette {
                reset: "\x1b[0m",
                bold: "\x1b[1m",
                dim: "\x1b[2m",
                cyan: "\x1b[36m",
                magenta: "\x1b[35m",
                green: "\x1b[32m",
                underline: "═",
                field_colors: &[
                    "\x1b[38;5;75m",
                    "\x1b[38;5;114m",
                    "\x1b[38;5;216m",
                    "\x1b[38;5;183m",
                    "\x1b[38;5;222m",
                    "\x1b[38;5;117m",
                    "\x1b[38;5;151m",
                    "\x1b[38;5;210m",
                ],
            };
            assert(p@.field_colors =~= ansi().field_colors);
            p
        } else {
            let p = Palette {
                reset: "",
                bold: "",
                dim: "",
                cyan: "",
                magenta: "",
                green: "",
                underline: "=",
                field_colors: &["", "", "", "", "", "", "", ""],
            };
            assert(p@.field_colors =~= plain().field_colors);
            p
        }
    }
}

/// How to render.
pub struct Ctx {
    color: bool,
    #[allow(dead_code)]
    verbose: bool,
    palette: Palette,
}

impl Ctx {
    #[verifier::type_invariant]
    spec fn consistent(self) -> bool {
        self.palette@ == palette_for(self.color)
    }

    /// Whether colors are used.
    pub closed spec fn colored(self) -> bool {
        self.color
    }

    /// Whether more detail was asked for.
    pub closed spec fn is_verbose(self) -> bool {
        self.verbose
    }

    /// A way to render, with or without colors.
    pub fn new(color: bool, verbose: bool) -> (r: Self)
        ensures
            r.colored() == color,
            r.is_verbose() == verbose,
    {
        Ctx { color, verbose, palette: Palette::choose_for(color) }
    }

    /// The color of the field or variant of index `i`; the colors take turns.
    fn fc(&self, i: usize) -> (r: &'static str)
        ensures
            r@ == field_color(palette_for(self.colored()), i as int),
    {
        proof {
            use_type_invariant(self);
        }
        let fcs = self.palette.field_colors;
        assert(fcs@.len() == self.palette@.field_colors.len() == 8);
        assert(self.palette@.field_colors[(i as int) % 8] == fcs@[(i as int) % 8]@);
        fcs[i % fcs.len()]
    }

    /// Writes the head of a rendering.
    fn header(&self, out: &mut String, name: &str, size: u64, align: u64)
        ensures
            final(out)@ == old(out)@ + header_text(
                palette_for(self.colored()),
                name@,
                size as nat,
                align as nat,
            ),
    {
        proof {
            use_type_invariant(self);
        }
        broadcast use concat_assoc;

        let p = &self.palette;
        out.append("\n");
        out.append(p.bold);
        out.append(p.cyan);
        out.append(name);
        out.append(p.reset);
        out.append("\n");
        out.append(p.dim);
        append_repeated(out, p.underline, 60);
        out.append(p.reset);
        out.append("\n  size: ");
        out.append(p.bold);
        append_dec(out, size as u128);
        out.append(p.reset);
        out.append(" bytes, align: ");
        append_dec(out, align as u128);
        out.append(" bytes\n");
    }
}

/// The color of the field or variant of index `i`.
pub open spec fn field_color(p: PaletteView, i: int) -> Seq<char> {
    p.field_colors[i % p.field_colors.len() as int]
}

// ── pieces ─────────────────────────────────────────────────

/// `n` copies of `s`.
pub open spec fn repeated(s: Seq<char>, n: nat) -> Seq<char>
    decreases n,
{
    if n == 0 {
        Seq::empty()
    } else {
        repeated(s, (n - 1) as nat) + s
    }
}

fn append_repeated(out: &mut String, s: &str, n: usize)
    ensures
        final(out)@ == old(out)@ + repeated(s@, n as nat),
{
    broadcast use concat_assoc;

    assert(out@ =~= out@ + repeated(s@, 0));
    for i in 0..n
        invariant
            out@ == old(out)@ + repeated(s@, i as nat),
    {
        out.append(s);
    }
}

fn append_dec(out: &mut String, n: u128)
    ensures
        final(out)@ == old(out)@ + dec(n as nat),
{
    append_chars(out, &to_dec(n));
}

fn append_hex(out: &mut String, n: u128)
    ensures
        final(out)@ == old(out)@ + hex(n as nat),
{
    append_chars(out, &to_hex(n));
}

/// A decimal numeral, aligned right in four columns.
pub open spec fn column(n: nat) -> Seq<char> {
    pad_left(dec(n), 4, ' ')
}

/// A hexadecimal numeral of at least `width` digits.
pub open spec fn hex_wide(n: nat, width: nat) -> Seq<char> {
    pad_left(hex(n), width, '0')
}

fn append_column(out: &mut String, n: u64)
    ensures
        final(out)@ == old(out)@ + column(n as nat),
{
    append_chars(out, &padded(&to_dec(n as u128), 4, ' '));
}

fn append_hex_wide(out: &mut String, n: u64, width: usize)
    ensures
        final(out)@ == old(out)@ + hex_wide(n as nat, width as nat),
{
    append_chars(out, &padded(&to_hex(n as u128), width, '0'));
}

/// A count of niches: the number, or "a lot" from 2^60 on.
pub open spec fn count_text(n: u128) -> Seq<char> {
    if n >= 0x1000_0000_0000_0000 {
        "a lot"@
    } else {
        dec(n as nat)
    }
}

/// Writes a count of niches.
pub fn format_count(n: u128) -> (r: String)
    ensures
        r@ == count_text(n),
{
    if n >= 0x1000_0000_0000_0000 {
        "a lot".to_owned()
    } else {
        string_of(&to_dec(n))
    }
}

/// The head of a rendering.
pub open spec fn header_text(p: PaletteView, name: Seq<char>, size: nat, align: nat) -> Seq<char> {
    "\n"@ + p.bold + p.cyan + name + p.reset + "\n"@ + p.dim + repeated(p.underline, 60) + p.reset
        + "\n  size: "@ + p.bold + dec(size) + p.reset + " bytes, align: "@ + dec(align)
        + " bytes\n"@
}

/// The name of the field that holds a niche.
pub open spec fn niche_field(n: NicheInfo) -> Seq<char> {
    match n.field_name {
        Some(f) => f@,
        None => "?"@,
    }
}

// ── types ──────────────────────────────────────────────────

/// The rendering of a type that is neither a struct nor an enum.
pub open spec fn opaque_text(p: PaletteView, size: u64) -> Seq<char> {
    if size > 0 {
        "\n  "@ + p.dim + "scalar / opaque ("@ + dec(size as nat) + " bytes)"@ + p.reset + "\n"@
    } else {
        "\n  "@ + p.dim + "zero-sized type"@ + p.reset + "\n"@
    }
}

/// The body of a rendering.
pub open spec fn kind_text(color: bool, tl: TypeLayout) -> Seq<char> {
    match tl.kind {
        TypeLayoutKind::Struct(sl) => struct_text(color, sl.fields@, tl.size),
        TypeLayoutKind::Enum(el) => enum_text(palette_for(color), el),
        TypeLayoutKind::Opaque => opaque_text(palette_for(color), tl.size),
    }
}

/// The line on the largest niche of a type that is no enum.
pub open spec fn type_niche_text(p: PaletteView, tl: TypeLayout) -> Seq<char> {
    match tl.largest_niche {
        Some(n) if !(tl.kind is Enum) => "\n  "@ + p.dim + "niche: `"@ + niche_field(n) + "` ("@
            + n.value_type@ + ") at +0x"@ + hex_wide(n.offset as nat, 4) + ", "@ + dec(
            n.available as nat,
        ) + " available"@ + p.reset + "\n"@,
        _ => Seq::empty(),
    }
}

/// The line that the analysis added to a type.
pub open spec fn hover_text(p: PaletteView, tl: TypeLayout) -> Seq<char> {
    match tl.hover_info {
        Some(info) => "\n  "@ + p.dim + info@ + p.reset + "\n"@,
        None => Seq::empty(),
    }
}

/// The rendering of a layout.
pub open spec fn rendered(color: bool, tl: TypeLayout) -> Seq<char> {
    header_text(palette_for(color), tl.name@, tl.size as nat, tl.alignment as nat) + kind_text(
        color,
        tl,
    ) + type_niche_text(palette_for(color), tl) + hover_text(palette_for(color), tl) + "\n"@
}

/// The end of every field can be counted.
pub open spec fn ends_fit(fields: Seq<FieldLayout>) -> bool {
    forall|i: int|
        0 <= i < fields.len() ==> (#[trigger] fields[i]).offset + fields[i].size <= u64::MAX
}

/// The layout can be rendered: where it is a struct, the end of every field can be counted.
pub open spec fn renderable(tl: TypeLayout) -> bool {
    tl.kind matches TypeLayoutKind::Struct(sl) ==> ends_fit(sl.fields@)
}

fn ends_countable(fields: &Vec<FieldLayout>) -> (r: bool)
    ensures
        r == ends_fit(fields@),
{
    for i in 0..fields.len()
        invariant
            forall|j: int|
                0 <= j < i ==> (#[trigger] fields@[j]).offset + fields@[j].size <= u64::MAX,
    {
        if fields[i].size > u64::MAX - fields[i].offset {
            assert(fields@[i as int].offset + fields@[i as int].size > u64::MAX);
            return false;
        }
    }
    true
}

/// Tells whether a layout can be rendered.
pub fn is_renderable(tl: &TypeLayout) -> (r: bool)
    ensures
        r == renderable(*tl),
{
    match &tl.kind {
        TypeLayoutKind::Struct(sl) => ends_countable(&sl.fields),
        _ => true,
    }
}

/// Renders a layout.
pub fn render_type_layout(tl: &TypeLayout, ctx: &Ctx) -> (r: String)
    requires
        renderable(*tl),
    ensures
        r@ == rendered(ctx.colored(), *tl),
{
    proof {
        use_type_invariant(ctx);
    }
    broadcast use concat_assoc;

    let p = &ctx.palette;
    let mut out = String::new();
    ctx.header(&mut out, tl.name.as_str(), tl.size, tl.alignment);
    assert(out@ =~= header_text(p@, tl.name@, tl.size as nat, tl.alignment as nat));
    let ghost so_far = out@;
    match &tl.kind {
        TypeLayoutKind::Struct(sl) => render_struct(&mut out, tl, sl, ctx),
        TypeLayoutKind::Enum(el) => render_enum(&mut out, el, ctx),
        TypeLayoutKind::Opaque => {
            if tl.size > 0 {
                out.append("\n  ");
                out.append(p.dim);
                out.append("scalar / opaque (");
                append_dec(&mut out, tl.size as u128);
                out.append(" bytes)");
                out.append(p.reset);
                out.append("\n");
            } else {
                out.append("\n  ");
                out.append(p.dim);
                out.append("zero-sized type");
                out.append(p.reset);
                out.append("\n");
            }
        },
    }
    assert(out@ == so_far + kind_text(ctx.colored(), *tl));
    let is_enum = match &tl.kind {
        TypeLayoutKind::Enum(_) => true,
        _ => false,
    };
    let ghost so_far = out@;
    match &tl.largest_niche {
        Some(niche) => {
            if !is_enum {
                out.append("\n  ");
                out.append(p.dim);
                out.append("niche: `");
                append_niche_field(&mut out, niche);
                out.append("` (");
                out.append(niche.value_type.as_str());
                out.append(") at +0x");
                append_hex_wide(&mut out, niche.offset, 4);
                out.append(", ");
                append_dec(&mut out, niche.available);
                out.append(" available");
                out.append(p.reset);
                out.append("\n");
            }
        },
        None => {},
    }
    assert(so_far + Seq::<char>::empty() =~= so_far);
    assert(out@ == so_far + type_niche_text(p@, *tl));
    let ghost so_far = out@;
    match &tl.hover_info {
        Some(info) => {
            out.append("\n  ");
            out.append(p.dim);
            out.append(info.as_str());
            out.append(p.reset);
            out.append("\n");
        },
        None => {},
    }
    assert(so_far + Seq::<char>::empty() =~= so_far);
    assert(out@ == so_far + hover_text(p@, *tl));
    out.append("\n");
    out
}

fn append_niche_field(out: &mut String, n: &NicheInfo)
    ensures
        final(out)@ == old(out)@ + niche_field(*n),
{
    match &n.field_name {
        Some(f) => out.append(f.as_str()),
        None => out.append("?"),
    }
}

/// The compiler as a footer names it.
pub open spec fn rustc_text(version: Seq<char>, hash: Seq<char>) -> Seq<char> {
    if hash.len() == 0 {
        version
    } else {
        version + " ("@ + hash + ")"@
    }
}

/// The footer of a rendering.
pub open spec fn footer_text(
    p: PaletteView,
    rustc_version: Seq<char>,
    rustc_hash: Seq<char>,
) -> Seq<char> {
    p.dim + "nichy "@ + VERSION@ + " · "@ + rustc_text(rustc_version, rustc_hash) + p.reset + "\n"@
}

/// Renders the footer.
pub fn render_footer(rustc_version: &str, rustc_hash: &str, ctx: &Ctx) -> (r: String)
    ensures
        r@ == footer_text(palette_for(ctx.colored()), rustc_version@, rustc_hash@),
{
    proof {
        use_type_invariant(ctx);
    }
    broadcast use concat_assoc;

    let p = &ctx.palette;
    let mut out = p.dim.to_owned();
    out.append("nichy ");
    out.append(VERSION);
    out.append(" · ");
    out.append(rustc_version);
    if !rustc_hash.is_empty() {
        out.append(" (");
        out.append(rustc_hash);
        out.append(")");
    }
    out.append(p.reset);
    out.append("\n");
    out
}

// ── structs ────────────────────────────────────────────────

/// The end of the last field, or zero where there is none.
pub open spec fn end_of(fields: Seq<FieldLayout>) -> int {
    if fields.len() == 0 {
        0
    } else {
        fields.last().offset + fields.last().size
    }
}

/// How many bytes there are from one position to another.
pub open spec fn gap(from: int, to: int) -> nat {
    if to > from {
        (to - from) as nat
    } else {
        0
    }
}

/// The row on the bytes between two positions, where there are any.
pub open spec fn padding_row(p: PaletteView, from: int, to: int) -> Seq<char> {
    if gap(from, to) > 0 {
        "  "@ + p.dim + "0x"@ + hex_wide(from as nat, 6) + "  "@ + column(gap(from, to))
            + "  ░░░ padding"@ + p.reset + "\n"@
    } else {
        Seq::empty()
    }
}

/// The row of the field of index `i`.
pub open spec fn field_row(p: PaletteView, f: FieldLayout, i: int) -> Seq<char> {
    "  "@ + p.dim + "0x"@ + hex_wide(f.offset as nat, 6) + p.reset + "  "@ + column(f.size as nat)
        + "  "@ + field_color(p, i) + f.name@ + ": "@ + f.typename@ + p.reset + "\n"@
}

/// The row on the niche of a field, where it has one.
pub open spec fn field_niche_row(p: PaletteView, f: FieldLayout) -> Seq<char> {
    match f.largest_niche {
        Some(n) => "  "@ + p.dim + "                  └─ "@ + count_text(n.available) + " niche"@ + (
        if n.available == 1 {
            ""@
        } else {
            "s"@
        }) + " available ("@ + n.value_type@ + ", valid 0x"@ + hex(n.valid_range_start as nat)
            + "..=0x"@ + hex(n.valid_range_end as nat) + ")"@ + p.reset + "\n"@,
        None => Seq::empty(),
    }
}

/// The rows on the field of index `i`: the gap after the field before it, the field itself
/// and its niche.
pub open spec fn field_group(p: PaletteView, prev: int, f: FieldLayout, i: int) -> Seq<char> {
    padding_row(p, prev, f.offset as int) + field_row(p, f, i) + field_niche_row(p, f)
}

/// The rows of the fields.
pub open spec fn field_rows(p: PaletteView, fields: Seq<FieldLayout>) -> Seq<char>
    decreases fields.len(),
{
    if fields.len() == 0 {
        Seq::empty()
    } else {
        let rest = fields.drop_last();
        field_rows(p, rest) + field_group(p, end_of(rest), fields.last(), rest.len() as int)
    }
}

/// The table of the fields of a struct of `total` bytes.
pub open spec fn field_table(p: PaletteView, fields: Seq<FieldLayout>, total: u64) -> Seq<char> {
    "\n  "@ + p.dim + "Offset    Size  Field"@ + p.reset + "\n  "@ + p.dim
        + "────────  ────  ──────────────────────────────────"@ + p.reset + "\n"@ + field_rows(
        p,
        fields,
    ) + padding_row(p, end_of(fields), total as int) + "  "@ + p.dim
        + "────────  ────  ──────────────────────────────────"@ + p.reset + "\n  "@ + p.dim
        + "          "@ + column(total as nat) + "  total"@ + p.reset + "\n"@
}

/// The character that stands for a field: the first letter or number of its name.
pub open spec fn glyph(name: Seq<char>) -> char
    decreases name.len(),
{
    if name.len() == 0 {
        '?'
    } else if alphanumeric(name[0]) {
        name[0]
    } else {
        glyph(name.drop_first())
    }
}

/// The last field that covers byte `b`.
pub open spec fn owner(fields: Seq<FieldLayout>, b: int) -> Option<int>
    decreases fields.len(),
{
    if fields.len() == 0 {
        None
    } else {
        let f = fields.last();
        if f.offset <= b < f.offset + f.size {
            Some(fields.len() - 1)
        } else {
            owner(fields.drop_last(), b)
        }
    }
}

/// The cell of byte `b` in the byte map, where `glyphs` holds the character of each field.
pub open spec fn byte_cell(
    p: PaletteView,
    fields: Seq<FieldLayout>,
    glyphs: Seq<char>,
    b: int,
) -> Seq<char> {
    match owner(fields, b) {
        Some(i) if glyphs[i] != '.' => field_color(p, i) + p.bold + seq![glyphs[i]] + seq![
            glyphs[i],
        ] + p.reset + " "@,
        _ => p.dim + "░░"@ + p.reset + " "@,
    }
}

/// The cell of byte `b` in rows of `width`, with the ends of its row where it is at one.
pub open spec fn byte_text(
    p: PaletteView,
    fields: Seq<FieldLayout>,
    glyphs: Seq<char>,
    total: int,
    width: int,
    b: int,
) -> Seq<char> {
    (if b % width == 0 {
        "  "@
    } else {
        ""@
    }) + byte_cell(p, fields, glyphs, b) + (if (b + 1) % width == 0 || b + 1 == total {
        "\n"@
    } else {
        ""@
    })
}

/// The first `n` cells of the byte map of a struct of `total` bytes, in rows of `width`.
pub open spec fn byte_rows(
    p: PaletteView,
    fields: Seq<FieldLayout>,
    glyphs: Seq<char>,
    total: int,
    width: int,
    n: nat,
) -> Seq<char>
    decreases n,
{
    if n == 0 {
        Seq::empty()
    } else {
        byte_rows(p, fields, glyphs, total, width, (n - 1) as nat) + byte_text(
            p,
            fields,
            glyphs,
            total,
            width,
            n - 1,
        )
    }
}

/// The byte map of a struct.  There is one for a struct of up to 64 bytes, in color.
pub open spec fn byte_map(
    color: bool,
    fields: Seq<FieldLayout>,
    glyphs: Seq<char>,
    total: u64,
) -> Seq<char> {
    if total == 0 || total > 64 || !color {
        Seq::empty()
    } else {
        let p = palette_for(color);
        let width: int = if total <= 8 {
            8
        } else {
            16
        };
        "\n  "@ + p.bold + "Byte map:"@ + p.reset + "\n"@ + byte_rows(
            p,
            fields,
            glyphs,
            total as int,
            width,
            total as nat,
        )
    }
}

/// The characters that stand for the fields.
pub open spec fn glyphs_of(fields: Seq<FieldLayout>) -> Seq<char> {
    fields.map_values(|f: FieldLayout| glyph(f.name@))
}

/// The body of the rendering of a struct.
pub open spec fn struct_text(color: bool, fields: Seq<FieldLayout>, total: u64) -> Seq<char> {
    field_table(palette_for(color), fields, total) + byte_map(
        color,
        fields,
        glyphs_of(fields),
        total,
    )
}

fn render_struct(out: &mut String, tl: &TypeLayout, sl: &StructLayout, ctx: &Ctx)
    requires
        ends_fit(sl.fields@),
    ensures
        final(out)@ == old(out)@ + struct_text(ctx.colored(), sl.fields@, tl.size),
{
    broadcast use concat_assoc;

    render_field_table(out, &sl.fields, tl.size, ctx);
    let ghost table = out@;
    if tl.size <= 64 {
        let glyphs = field_glyphs(&sl.fields);
        render_byte_map(out, &sl.fields, &glyphs, tl.size, ctx);
    } else {
        assert(table + Seq::<char>::empty() =~= table);
    }
}

fn append_padding_row(out: &mut String, from: u64, to: u64, p: &Palette)
    ensures
        final(out)@ == old(out)@ + padding_row(p@, from as int, to as int),
{
    broadcast use concat_assoc;

    if to > from {
        out.append("  ");
        out.append(p.dim);
        out.append("0x");
        append_hex_wide(out, from, 6);
        out.append("  ");
        append_column(out, to - from);
        out.append("  ░░░ padding");
        out.append(p.reset);
        out.append("\n");
    } else {
        assert(out@ + Seq::<char>::empty() =~= out@);
    }
}

fn append_field_row(out: &mut String, f: &FieldLayout, i: usize, ctx: &Ctx)
    ensures
        final(out)@ == old(out)@ + field_row(palette_for(ctx.colored()), *f, i as int),
{
    proof {
        use_type_invariant(ctx);
    }
    broadcast use concat_assoc;

    let p = &ctx.palette;
    out.append("  ");
    out.append(p.dim);
    out.append("0x");
    append_hex_wide(out, f.offset, 6);
    out.append(p.reset);
    out.append("  ");
    append_column(out, f.size);
    out.append("  ");
    out.append(ctx.fc(i));
    out.append(f.name.as_str());
    out.append(": ");
    out.append(f.typename.as_str());
    out.append(p.reset);
    out.append("\n");
}

fn append_field_niche_row(out: &mut String, f: &FieldLayout, p: &Palette)
    ensures
        final(out)@ == old(out)@ + field_niche_row(p@, *f),
{
    broadcast use concat_assoc;

    match &f.largest_niche {
        Some(n) => {
            out.append("  ");
            out.append(p.dim);
            out.append("                  └─ ");
            out.append(format_count(n.available).as_str());
            out.append(" niche");
            out.append(
                if n.available == 1 {
                    ""
                } else {
                    "s"
                },
            );
            out.append(" available (");
            out.append(n.value_type.as_str());
            out.append(", valid 0x");
            append_hex(out, n.valid_range_start);
            out.append("..=0x");
            append_hex(out, n.valid_range_end);
            out.append(")");
            out.append(p.reset);
            out.append("\n");
        },
        None => {
            assert(out@ + Seq::<char>::empty() =~= out@);
        },
    }
}

fn append_field_group(out: &mut String, prev: u64, f: &FieldLayout, i: usize, ctx: &Ctx)
    ensures
        final(out)@ == old(out)@ + field_group(
            palette_for(ctx.colored()),
            prev as int,
            *f,
            i as int,
        ),
{
    proof {
        use_type_invariant(ctx);
        let p = palette_for(ctx.colored());
        let gap = padding_row(p, prev as int, f.offset as int);
        let row = field_row(p, *f, i as int);
        concat_assoc(out@, gap, row);
        concat_assoc(out@, gap + row, field_niche_row(p, *f));
    }
    append_padding_row(out, prev, f.offset, &ctx.palette);
    append_field_row(out, f, i, ctx);
    append_field_niche_row(out, f, &ctx.palette);
}

fn append_field_rows(out: &mut String, fields: &Vec<FieldLayout>, ctx: &Ctx) -> (end: u64)
    requires
        ends_fit(fields@),
    ensures
        final(out)@ == old(out)@ + field_rows(palette_for(ctx.colored()), fields@),
        end == end_of(fields@),
{
    let ghost head = out@;
    let ghost p = palette_for(ctx.colored());
    assert(head =~= head + field_rows(p, fields@.take(0)));
    let mut prev: u64 = 0;
    for i in 0..fields.len()
        invariant
            ends_fit(fields@),
            p == palette_for(ctx.colored()),
            prev == end_of(fields@.take(i as int)),
            out@ == head + field_rows(p, fields@.take(i as int)),
    {
        let f = &fields[i];
        proof {
            assert(fields@.take(i + 1).drop_last() =~= fields@.take(i as int));
            concat_assoc(
                head,
                field_rows(p, fields@.take(i as int)),
                field_group(p, prev as int, *f, i as int),
            );
        }
        append_field_group(out, prev, f, i, ctx);
        prev = f.offset + f.size;
    }
    assert(fields@.take(fields@.len() as int) =~= fields@);
    prev
}

fn render_field_table(out: &mut String, fields: &Vec<FieldLayout>, total: u64, ctx: &Ctx)
    requires
        ends_fit(fields@),
    ensures
        final(out)@ == old(out)@ + field_table(palette_for(ctx.colored()), fields@, total),
{
    proof {
        use_type_invariant(ctx);
    }
    broadcast use concat_assoc;

    let p = &ctx.palette;
    out.append("\n  ");
    out.append(p.dim);
    out.append("Offset    Size  Field");
    out.append(p.reset);
    out.append("\n  ");
    out.append(p.dim);
    out.append("────────  ────  ──────────────────────────────────");
    out.append(p.reset);
    out.append("\n");
    let prev = append_field_rows(out, fields, ctx);
    append_padding_row(out, prev, total, p);
    out.append("  ");
    out.append(p.dim);
    out.append("────────  ────  ──────────────────────────────────");
    out.append(p.reset);
    out.append("\n  ");
    out.append(p.dim);
    out.append("          ");
    append_column(out, total);
    out.append("  total");
    out.append(p.reset);
    out.append("\n");
}

/// Finds the character that stands for a field.
pub fn field_glyph(name: &str) -> (r: char)
    ensures
        r == glyph(name@),
{
    let chars = chars_of(name);
    assert(chars@.skip(0) =~= chars@);
    for i in 0..chars.len()
        invariant
            chars@ == name@,
            glyph(name@) == glyph(chars@.skip(i as int)),
    {
        assert(chars@.skip(i as int)[0] == chars@[i as int]);
        assert(chars@.skip(i as int).drop_first() =~= chars@.skip(i + 1));
        if chars[i].is_alphanumeric() {
            return chars[i];
        }
    }
    '?'
}

fn field_glyphs(fields: &Vec<FieldLayout>) -> (r: Vec<char>)
    ensures
        r@ == glyphs_of(fields@),
{
    let mut out: Vec<char> = Vec::new();
    for i in 0..fields.len()
        invariant
            out@ == glyphs_of(fields@.take(i as int)),
    {
        out.push(field_glyph(fields[i].name.as_str()));
        assert(out@ =~= glyphs_of(fields@.take(i + 1)));
    }
    assert(fields@.take(fields@.len() as int) =~= fields@);
    out
}

fn find_owner(fields: &Vec<FieldLayout>, b: u64) -> (r: Option<usize>)
    requires
        ends_fit(fields@),
    ensures
        match r {
            Some(i) => i < fields@.len() && owner(fields@, b as int) == Some(i as int),
            None => owner(fields@, b as int) is None,
        },
{
    let mut n: usize = fields.len();
    assert(fields@.take(n as int) =~= fields@);
    while n > 0
        invariant
            n <= fields@.len(),
            ends_fit(fields@),
            owner(fields@, b as int) == owner(fields@.take(n as int), b as int),
        decreases n,
    {
        let f = &fields[n - 1];
        assert(fields@.take(n as int).last() == *f);
        assert(fields@.take(n as int).drop_last() =~= fields@.take(n - 1));
        if f.offset <= b && b < f.offset + f.size {
            return Some(n - 1);
        }
        n = n - 1;
    }
    None
}

fn append_byte_cell(
    out: &mut String,
    fields: &Vec<FieldLayout>,
    glyphs: &Vec<char>,
    b: u64,
    ctx: &Ctx,
)
    requires
        ends_fit(fields@),
        glyphs@.len() == fields@.len(),
    ensures
        final(out)@ == old(out)@ + byte_cell(
            palette_for(ctx.colored()),
            fields@,
            glyphs@,
            b as int,
        ),
{
    proof {
        use_type_invariant(ctx);
    }
    broadcast use concat_assoc;

    let p = &ctx.palette;
    let found = find_owner(fields, b);
    match found {
        Some(i) => {
            let ch = glyphs[i];
            if ch != '.' {
                out.append(ctx.fc(i));
                out.append(p.bold);
                let ghost a = out@;
                out.push(ch);
                out.push(ch);
                proof {
                    assert(a.push(ch) =~= a + seq![ch]);
                    assert((a + seq![ch]).push(ch) =~= a + seq![ch] + seq![ch]);
                }
                out.append(p.reset);
                out.append(" ");
                return;
            }
        },
        None => {},
    }
    out.append(p.dim);
    out.append("░░");
    out.append(p.reset);
    out.append(" ");
}

fn append_byte(
    out: &mut String,
    fields: &Vec<FieldLayout>,
    glyphs: &Vec<char>,
    total: u64,
    width: u64,
    b: u64,
    ctx: &Ctx,
)
    requires
        ends_fit(fields@),
        glyphs@.len() == fields@.len(),
        width > 0,
        b < total <= 64,
    ensures
        final(out)@ == old(out)@ + byte_text(
            palette_for(ctx.colored()),
            fields@,
            glyphs@,
            total as int,
            width as int,
            b as int,
        ),
{
    broadcast use concat_assoc;

    out.append(
        if b % width == 0 {
            "  "
        } else {
            ""
        },
    );
    append_byte_cell(out, fields, glyphs, b, ctx);
    out.append(
        if (b + 1) % width == 0 || b + 1 == total {
            "\n"
        } else {
            ""
        },
    );
}

/// Writes the byte map of a struct, where `glyphs` holds the character of each field.
pub fn render_byte_map(
    out: &mut String,
    fields: &Vec<FieldLayout>,
    glyphs: &Vec<char>,
    total: u64,
    ctx: &Ctx,
)
    requires
        ends_fit(fields@),
        glyphs@.len() == fields@.len(),
    ensures
        final(out)@ == old(out)@ + byte_map(ctx.colored(), fields@, glyphs@, total),
{
    proof {
        use_type_invariant(ctx);
    }
    broadcast use concat_assoc;

    if total == 0 || total > 64 || !ctx.color {
        assert(out@ + Seq::<char>::empty() =~= out@);
        return;
    }
    let p = &ctx.palette;
    let width: u64 = if total <= 8 {
        8
    } else {
        16
    };
    out.append("\n  ");
    out.append(p.bold);
    out.append("Byte map:");
    out.append(p.reset);
    out.append("\n");
    let ghost head = out@;
    assert(head =~= head + byte_rows(p@, fields@, glyphs@, total as int, width as int, 0));
    for b in 0..total
        invariant
            ends_fit(fields@),
            glyphs@.len() == fields@.len(),
            p@ == palette_for(ctx.colored()),
            width == 8 || width == 16,
            total <= 64,
            out@ == head + byte_rows(
                p@,
                fields@,
                glyphs@,
                total as int,
                width as int,
                b as nat,
            ),
    {
        append_byte(out, fields, glyphs, total, width, b, ctx);
    }
}

// ── enums ──────────────────────────────────────────────────

/// The lines on the strategy of an enum.
pub open spec fn strategy_text(p: PaletteView, el: EnumLayout) -> Seq<char> {
    match el.strategy {
        EnumStrategy::Single => Seq::empty(),
        EnumStrategy::NicheOptimized { .. } => "\n  "@ + p.green + p.bold + "niche optimized"@
            + p.reset + "\n"@ + (match el.remaining_niches {
            Some(n) => "  "@ + p.dim + "remaining niches: "@ + count_text(n) + p.reset + "\n"@,
            None => Seq::empty(),
        }),
        EnumStrategy::Tagged { discriminant_size } => "\n  "@ + p.magenta + "tagged enum"@ + p.reset
            + " ("@ + p.dim + "discriminant: "@ + dec(discriminant_size as nat) + " byte"@ + (
        if discriminant_size == 1 {
            ""@
        } else {
            "s"@
        }) + p.reset + ")\n"@,
    }
}

/// The line on where an enum stores its variant.
pub open spec fn discriminant_text(p: PaletteView, el: EnumLayout) -> Seq<char> {
    match el.discriminant {
        None => Seq::empty(),
        Some(DiscriminantInfo::Direct { tag_offset, tag_size, .. }) => "  "@ + p.dim
            + "discriminant at +0x"@ + hex_wide(tag_offset as nat, 4) + ", "@ + dec(tag_size as nat)
            + " byte(s)"@ + p.reset + "\n"@,
        Some(DiscriminantInfo::Niche { tag_offset, untagged_variant, niche_start, .. }) => "  "@
            + p.dim + "niche discriminant at +0x"@ + hex_wide(tag_offset as nat, 4)
            + ", untagged: "@ + untagged_variant@ + ", niche_start: "@ + dec(niche_start as nat)
            + p.reset + "\n"@,
    }
}

/// The line on the niche that an enum is encoded in.
pub open spec fn niche_detail_text(p: PaletteView, el: EnumLayout) -> Seq<char> {
    match el.niche {
        None => Seq::empty(),
        Some(n) => "  "@ + p.dim + "niche in `"@ + niche_field(n) + "` ("@ + n.value_type@
            + ") at +0x"@ + hex_wide(n.offset as nat, 4) + ", valid: 0x"@ + hex(
            n.valid_range_start as nat,
        ) + "..=0x"@ + hex(n.valid_range_end as nat) + p.reset + "\n"@,
    }
}

/// How the variant of index `idx` is told from the others: by its tag value, as the variant
/// without a tag, or by a value of the niche.
pub open spec fn tag_suffix(idx: int, v: VariantLayout, el: EnumLayout) -> Option<Seq<char>> {
    match el.discriminant {
        Some(DiscriminantInfo::Direct { .. }) => match v.discr_value {
            Some(d) => Some("tag = 0x"@ + hex(d as nat)),
            None => None,
        },
        Some(
            DiscriminantInfo::Niche {
                untagged_variant,
                niche_start,
                niche_variants_start,
                niche_variants_end,
                ..
            },
        ) => if v.name@ == untagged_variant@ {
            Some("untagged"@)
        } else if niche_variants_start <= idx <= niche_variants_end {
            Some(
                "niche = 0x"@ + hex(
                    ((niche_start + (idx - niche_variants_start)) % (u128::MAX + 1)) as nat,
                ),
            )
        } else {
            None
        },
        None => None,
    }
}

/// [`tag_suffix`] as a variant shows it.
pub open spec fn tag_text(p: PaletteView, idx: int, v: VariantLayout, el: EnumLayout) -> Seq<char> {
    match tag_suffix(idx, v, el) {
        Some(s) => " "@ + p.dim + "["@ + s + "]"@ + p.reset,
        None => Seq::empty(),
    }
}

/// The row of a field of a variant in color `fc`.
pub open spec fn variant_row(p: PaletteView, fc: Seq<char>, f: FieldLayout) -> Seq<char> {
    "    "@ + p.dim + "+0x"@ + hex_wide(f.offset as nat, 4) + p.reset + "  "@ + column(
        f.size as nat,
    ) + "  "@ + fc + f.name@ + ": "@ + f.typename@ + p.reset + "\n"@
}

/// The rows of the fields of a variant in color `fc`.
pub open spec fn variant_rows(p: PaletteView, fc: Seq<char>, fields: Seq<FieldLayout>) -> Seq<char>
    decreases fields.len(),
{
    if fields.len() == 0 {
        Seq::empty()
    } else {
        variant_rows(p, fc, fields.drop_last()) + variant_row(p, fc, fields.last())
    }
}

/// The rendering of the variant of index `idx`.
pub open spec fn variant_text(p: PaletteView, idx: int, v: VariantLayout, el: EnumLayout) -> Seq<
    char,
> {
    let fc = field_color(p, idx);
    let tag = tag_text(p, idx, v, el);
    if v.fields@.len() > 0 {
        "\n  "@ + fc + p.bold + v.name@ + p.reset + ": "@ + p.dim + dec(v.size as nat) + " bytes"@
            + p.reset + tag + "\n"@ + variant_rows(p, fc, v.fields@)
    } else if v.size > 0 {
        "\n  "@ + fc + p.bold + v.name@ + p.reset + ": "@ + p.dim + dec(v.size as nat)
            + " bytes, opaque"@ + p.reset + tag + "\n"@
    } else {
        "\n  "@ + fc + p.bold + v.name@ + p.reset + " "@ + p.dim + "(unit)"@ + p.reset + tag + "\n"@
    }
}

/// The renderings of the first `n` variants.
pub open spec fn variants_text(p: PaletteView, el: EnumLayout, n: nat) -> Seq<char>
    decreases n,
{
    if n == 0 {
        Seq::empty()
    } else {
        variants_text(p, el, (n - 1) as nat) + variant_text(p, n - 1, el.variants@[n - 1], el)
    }
}

/// The body of the rendering of an enum.
pub open spec fn enum_text(p: PaletteView, el: EnumLayout) -> Seq<char> {
    strategy_text(p, el) + discriminant_text(p, el) + niche_detail_text(p, el) + variants_text(
        p,
        el,
        el.variants@.len(),
    )
}

fn render_strategy(out: &mut String, el: &EnumLayout, ctx: &Ctx)
    ensures
        final(out)@ == old(out)@ + strategy_text(palette_for(ctx.colored()), *el),
{
    proof {
        use_type_invariant(ctx);
    }
    broadcast use concat_assoc;

    let p = &ctx.palette;
    match &el.strategy {
        EnumStrategy::Single => {
            assert(out@ + Seq::<char>::empty() =~= out@);
        },
        EnumStrategy::NicheOptimized { .. } => {
            out.append("\n  ");
            out.append(p.green);
            out.append(p.bold);
            out.append("niche optimized");
            out.append(p.reset);
            out.append("\n");
            match el.remaining_niches {
                Some(n) => {
                    out.append("  ");
                    out.append(p.dim);
                    out.append("remaining niches: ");
                    out.append(format_count(n).as_str());
                    out.append(p.reset);
                    out.append("\n");
                },
                None => {
                    assert(out@ + Seq::<char>::empty() =~= out@);
                },
            }
        },
        EnumStrategy::Tagged { discriminant_size } => {
            out.append("\n  ");
            out.append(p.magenta);
            out.append("tagged enum");
            out.append(p.reset);
            out.append(" (");
            out.append(p.dim);
            out.append("discriminant: ");
            append_dec(out, *discriminant_size as u128);
            out.append(" byte");
            out.append(
                if *discriminant_size == 1 {
                    ""
                } else {
                    "s"
                },
            );
            out.append(p.reset);
            out.append(")\n");
        },
    }
}

fn render_enum(out: &mut String, el: &EnumLayout, ctx: &Ctx)
    ensures
        final(out)@ == old(out)@ + enum_text(palette_for(ctx.colored()), *el),
{
    broadcast use concat_assoc;

    render_strategy(out, el, ctx);
    render_discriminant_info(out, el, ctx);
    render_niche_detail(out, el, ctx);
    let ghost head = out@;
    let ghost p = palette_for(ctx.colored());
    assert(head =~= head + variants_text(p, *el, 0));
    for i in 0..el.variants.len()
        invariant
            p == palette_for(ctx.colored()),
            out@ == head + variants_text(p, *el, i as nat),
    {
        render_variant(out, &el.variants[i], i, el, ctx);
    }
}

/// Says how a variant is told from the others.
pub fn variant_tag_suffix(idx: usize, v: &VariantLayout, el: &EnumLayout) -> (r: Option<String>)
    ensures
        opt_view(r) == tag_suffix(idx as int, *v, *el),
{
    match &el.discriminant {
        Some(DiscriminantInfo::Direct { .. }) => match v.discr_value {
            Some(d) => {
                let mut s = "tag = 0x".to_owned();
                append_hex(&mut s, d);
                Some(s)
            },
            None => None,
        },
        Some(
            DiscriminantInfo::Niche {
                untagged_variant,
                niche_start,
                niche_variants_start,
                niche_variants_end,
                ..
            },
        ) => {
            if same_str(v.name.as_str(), untagged_variant.as_str()) {
                Some("untagged".to_owned())
            } else if idx >= *niche_variants_start && idx <= *niche_variants_end {
                let nv = niche_start.wrapping_add((idx - *niche_variants_start) as u128);
                let mut s = "niche = 0x".to_owned();
                append_hex(&mut s, nv);
                Some(s)
            } else {
                None
            }
        },
        None => None,
    }
}

fn render_discriminant_info(out: &mut String, el: &EnumLayout, ctx: &Ctx)
    ensures
        final(out)@ == old(out)@ + discriminant_text(palette_for(ctx.colored()), *el),
{
    proof {
        use_type_invariant(ctx);
    }
    broadcast use concat_assoc;

    let p = &ctx.palette;
    match &el.discriminant {
        None => {
            assert(out@ + Seq::<char>::empty() =~= out@);
        },
        Some(DiscriminantInfo::Direct { tag_offset, tag_size, .. }) => {
            out.append("  ");
            out.append(p.dim);
            out.append("discriminant at +0x");
            append_hex_wide(out, *tag_offset, 4);
            out.append(", ");
            append_dec(out, *tag_size as u128);
            out.append(" byte(s)");
            out.append(p.reset);
            out.append("\n");
        },
        Some(DiscriminantInfo::Niche { tag_offset, untagged_variant, niche_start, .. }) => {
            out.append("  ");
            out.append(p.dim);
            out.append("niche discriminant at +0x");
            append_hex_wide(out, *tag_offset, 4);
            out.append(", untagged: ");
            out.append(untagged_variant.as_str());
            out.append(", niche_start: ");
            append_dec(out, *niche_start);
            out.append(p.reset);
            out.append("\n");
        },
    }
}

fn render_niche_detail(out: &mut String, el: &EnumLayout, ctx: &Ctx)
    ensures
        final(out)@ == old(out)@ + niche_detail_text(palette_for(ctx.colored()), *el),
{
    proof {
        use_type_invariant(ctx);
    }
    broadcast use concat_assoc;

    let p = &ctx.palette;
    match &el.niche {
        None => {
            assert(out@ + Seq::<char>::empty() =~= out@);
        },
        Some(niche) => {
            out.append("  ");
            out.append(p.dim);
            out.append("niche in `");
            append_niche_field(out, niche);
            out.append("` (");
            out.append(niche.value_type.as_str());
            out.append(") at +0x");
            append_hex_wide(out, niche.offset, 4);
            out.append(", valid: 0x");
            append_hex(out, niche.valid_range_start);
            out.append("..=0x");
            append_hex(out, niche.valid_range_end);
            out.append(p.reset);
            out.append("\n");
        },
    }
}

fn append_tag(out: &mut String, v: &VariantLayout, idx: usize, el: &EnumLayout, p: &Palette)
    ensures
        final(out)@ == old(out)@ + tag_text(p@, idx as int, *v, *el),
{
    broadcast use concat_assoc;

    match variant_tag_suffix(idx, v, el) {
        Some(s) => {
            out.append(" ");
            out.append(p.dim);
            out.append("[");
            out.append(s.as_str());
            out.append("]");
            out.append(p.reset);
        },
        None => {
            assert(out@ + Seq::<char>::empty() =~= out@);
        },
    }
}

fn append_variant_row(out: &mut String, f: &FieldLayout, fc: &str, p: &Palette)
    ensures
        final(out)@ == old(out)@ + variant_row(p@, fc@, *f),
{
    broadcast use concat_assoc;

    out.append("    ");
    out.append(p.dim);
    out.append("+0x");
    append_hex_wide(out, f.offset, 4);
    out.append(p.reset);
    out.append("  ");
    append_column(out, f.size);
    out.append("  ");
    out.append(fc);
    out.append(f.name.as_str());
    out.append(": ");
    out.append(f.typename.as_str());
    out.append(p.reset);
    out.append("\n");
}

fn append_variant_rows(out: &mut String, fields: &Vec<FieldLayout>, fc: &str, p: &Palette)
    ensures
        final(out)@ == old(out)@ + variant_rows(p@, fc@, fields@),
{
    broadcast use concat_assoc;

    let ghost head = out@;
    assert(head =~= head + variant_rows(p@, fc@, fields@.take(0)));
    for i in 0..fields.len()
        invariant
            out@ == head + variant_rows(p@, fc@, fields@.take(i as int)),
    {
        append_variant_row(out, &fields[i], fc, p);
        assert(fields@.take(i + 1).drop_last() =~= fields@.take(i as int));
    }
    assert(fields@.take(fields@.len() as int) =~= fields@);
}

fn render_variant(out: &mut String, v: &VariantLayout, idx: usize, el: &EnumLayout, ctx: &Ctx)
    ensures
        final(out)@ == old(out)@ + variant_text(palette_for(ctx.colored()), idx as int, *v, *el),
{
    proof {
        use_type_invariant(ctx);
    }
    broadcast use concat_assoc;

    let p = &ctx.palette;
    let fc = ctx.fc(idx);
    out.append("\n  ");
    out.append(fc);
    out.append(p.bold);
    out.append(v.name.as_str());
    out.append(p.reset);
    if v.fields.len() > 0 {
        out.append(": ");
        out.append(p.dim);
        append_dec(out, v.size as u128);
        out.append(" bytes");
        out.append(p.reset);
        append_tag(out, v, idx, el, p);
        out.append("\n");
        append_variant_rows(out, &v.fields, fc, p);
    } else if v.size > 0 {
        out.append(": ");
        out.append(p.dim);
        append_dec(out, v.size as u128);
        out.append(" bytes, opaque");
        out.append(p.reset);
        append_tag(out, v, idx, el, p);
        out.append("\n");
    } else {
        out.append(" ");
        out.append(p.dim);
        out.append("(unit)");
        out.append(p.reset);
        append_tag(out, v, idx, el, p);
        out.append("\n");
    }
}

// ── laws ───────────────────────────────────────────────────

/// The bytes in the rows on padding between the fields.
pub open spec fn gaps_between(fields: Seq<FieldLayout>) -> nat
    decreases fields.len(),
{
    if fields.len() == 0 {
        0
    } else {
        gaps_between(fields.drop_last()) + gap(
            end_of(fields.drop_last()),
            fields.last().offset as int,
        )
    }
}

/// The bytes in the rows of the fields.
pub open spec fn bytes_of(fields: Seq<FieldLayout>) -> nat
    decreases fields.len(),
{
    if fields.len() == 0 {
        0
    } else {
        bytes_of(fields.drop_last()) + fields.last().size as nat
    }
}

/// No field starts before the end of the one before it.
pub open spec fn apart(fields: Seq<FieldLayout>) -> bool {
    forall|i: int|
        0 < i < fields.len() ==> fields[i - 1].offset + fields[i - 1].size <= (
        #[trigger] fields[i]).offset
}

proof fn lemma_table_so_far(fields: Seq<FieldLayout>)
    requires
        apart(fields),
    ensures
        gaps_between(fields) + bytes_of(fields) == end_of(fields),
    decreases fields.len(),
{
    if fields.len() > 0 {
        let rest = fields.drop_last();
        assert forall|i: int| 0 < i < rest.len() implies rest[i - 1].offset + rest[i - 1].size <= (
        #[trigger] rest[i]).offset by {
            assert(rest[i] == fields[i] && rest[i - 1] == fields[i - 1]);
        }
        lemma_table_so_far(rest);
        let n = fields.len() - 1;
        assert(fields[n] == fields.last());
        if n > 0 {
            assert(rest.last() == fields[n - 1]);
        }
    }
}

/// The table of a struct accounts for every byte: the rows of its fields and those on padding
/// add up to its size, where the fields lie one behind the other inside it.
pub proof fn law_table_accounts_for_every_byte(fields: Seq<FieldLayout>, total: u64)
    requires
        apart(fields),
        end_of(fields) <= total,
    ensures
        gaps_between(fields) + gap(end_of(fields), total as int) + bytes_of(fields) == total,
{
    lemma_table_so_far(fields);
}

} // verus!
