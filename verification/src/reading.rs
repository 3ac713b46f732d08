//! What a reader finds in a rendering: every number is read back as the one that was meant, in the
//! place where it belongs.
use vstd::prelude::*;

use crate::layout::{
    DiscriminantInfo, EnumLayout, EnumStrategy, FieldLayout, NicheInfo, TypeLayout, TypeLayoutKind,
    VariantLayout,
};
use crate::plain::{free, free_layout, law_plain_rendering_is_free_of_escapes};
use crate::render::{
    alphanumeric, byte_cell, byte_map, byte_rows, byte_text, column, count_text,
    discriminant_text, end_of, enum_text, field_color, field_group, field_niche_row, field_row,
    field_rows, field_table, footer_text, format_count, gap, glyph, glyphs_of, header_text, hex_wide, hover_text,
    kind_text, niche_detail_text, niche_field, owner, padding_row, palette_for, plain,
    render_type_layout, renderable, rendered, repeated, strategy_text, struct_text, tag_suffix, tag_text,
    type_niche_text, variant_row, variant_rows, variant_text, variants_text, Ctx, PaletteView, VERSION,
};
use crate::text::{all_digits, dec, dec_value, digit, hex, is_digit, lemma_dec, numeral, pad_left};

verus! {

// ── numerals ───────────────────────────────────────────────

/// The value of a hexadecimal digit in lower case.
pub open spec fn hex_digit(c: char) -> Option<int> {
    if '0' <= c <= '9' {
        Some(c as int - '0' as int)
    } else if 'a' <= c <= 'f' {
        Some(c as int - 'a' as int + 10)
    } else {
        None
    }
}

/// Every character is a hexadecimal digit in lower case.
pub open spec fn all_hex(s: Seq<char>) -> bool {
    forall|i: int| 0 <= i < s.len() ==> hex_digit(#[trigger] s[i]) is Some
}

/// The number that hexadecimal digits spell.
pub open spec fn hex_value(s: Seq<char>) -> int
    decreases s.len(),
{
    if s.len() == 0 {
        0
    } else {
        hex_value(s.drop_last()) * 16 + hex_digit(s.last())->0
    }
}

/// The text is the decimal numeral of the number, without zeros in front.
pub open spec fn reads_dec(s: Seq<char>, n: int) -> bool {
    &&& s.len() > 0
    &&& all_digits(s)
    &&& dec_value(s) == n
    &&& s.len() > 1 ==> s[0] != '0'
}

/// The text is the hexadecimal numeral of the number, with zeros in front only up to `width`
/// digits.
pub open spec fn reads_hex(s: Seq<char>, n: int, width: int) -> bool {
    &&& s.len() > 0
    &&& s.len() >= width
    &&& all_hex(s)
    &&& hex_value(s) == n
    &&& s.len() > 1 && s.len() > width ==> s[0] != '0'
}

/// The text is the decimal numeral of the number, with blanks in front up to four characters.
pub open spec fn reads_column(s: Seq<char>, n: int) -> bool {
    exists|k: int|
        0 <= k < s.len() && (k > 0 ==> s.len() == 4) && s.len() >= 4 && (forall|i: int|
            0 <= i < k ==> #[trigger] s[i] == ' ') && reads_dec(#[trigger] s.skip(k), n)
}

/// The text is a count of niches: its numeral or, from 2^60 on, "a lot".
pub open spec fn reads_count(s: Seq<char>, n: u128) -> bool {
    if n < 0x1000_0000_0000_0000 {
        reads_dec(s, n as int)
    } else {
        s == "a lot"@
    }
}

proof fn lemma_reads_dec(n: nat)
    ensures
        reads_dec(dec(n), n as int),
        n > 0 ==> dec(n)[0] != '0',
    decreases n,
{
    lemma_dec(n);
    if n >= 10 {
        lemma_reads_dec(n / 10);
        assert(dec(n) =~= dec(n / 10).push(digit((n % 10) as int)));
        assert(dec(n)[0] == dec(n / 10)[0]);
    } else {
        assert(dec(n) =~= seq![digit(n as int)]);
    }
}

proof fn lemma_hex(n: nat)
    ensures
        hex(n).len() > 0,
        all_hex(hex(n)),
        hex_value(hex(n)) == n,
        n > 0 ==> hex(n)[0] != '0',
        n == 0 ==> hex(n).len() == 1,
    decreases n,
{
    if n < 16 {
        let d = seq![digit(n as int)];
        assert(hex(n) =~= d);
        assert(d.drop_last() =~= Seq::empty());
        assert(hex_value(d.drop_last()) == 0);
    } else {
        let t = hex(n / 16);
        lemma_hex(n / 16);
        assert(hex(n) =~= t.push(digit((n % 16) as int)));
        assert(hex(n).drop_last() =~= t);
        assert(hex(n)[0] == t[0]);
        assert forall|i: int| 0 <= i < hex(n).len() implies hex_digit(#[trigger] hex(n)[i])
            is Some by {
            if i < t.len() {
                assert(hex(n)[i] == t[i]);
            }
        }
    }
}

/// Zeros in front change no number.
proof fn lemma_zeros_in_front(k: nat, s: Seq<char>)
    requires
        all_hex(s),
    ensures
        all_hex(Seq::new(k, |i: int| '0') + s),
        hex_value(Seq::new(k, |i: int| '0') + s) == hex_value(s),
    decreases k + s.len(),
{
    let z = Seq::new(k, |i: int| '0');
    let all = z + s;
    assert forall|i: int| 0 <= i < all.len() implies hex_digit(#[trigger] all[i]) is Some by {
        if i >= k {
            assert(all[i] == s[i - k]);
        }
    }
    if s.len() > 0 {
        assert(all.drop_last() =~= z + s.drop_last());
        assert(all.last() == s.last());
        assert forall|i: int| 0 <= i < s.drop_last().len() implies hex_digit(
            #[trigger] s.drop_last()[i],
        ) is Some by {
            assert(s.drop_last()[i] == s[i]);
        }
        lemma_zeros_in_front(k, s.drop_last());
    } else if k > 0 {
        let y = Seq::new((k - 1) as nat, |i: int| '0');
        assert(all.drop_last() =~= y + s);
        assert(all.last() == '0');
        lemma_zeros_in_front((k - 1) as nat, s);
    } else {
        assert(all =~= s);
    }
}

proof fn lemma_reads_hex(n: nat, width: nat)
    ensures
        reads_hex(hex_wide(n, width), n as int, width as int),
        reads_hex(hex(n), n as int, 1),
{
    lemma_hex(n);
    let s = hex(n);
    if s.len() < width {
        let k = (width - s.len()) as nat;
        lemma_zeros_in_front(k, s);
        assert(hex_wide(n, width) =~= Seq::new(k, |i: int| '0') + s);
    }
}

proof fn lemma_reads_column(n: nat)
    ensures
        reads_column(column(n), n as int),
{
    lemma_reads_dec(n);
    let d = dec(n);
    let s = column(n);
    if d.len() >= 4 {
        assert(s.skip(0) =~= d);
    } else {
        let k = 4 - d.len();
        assert(s.skip(k) =~= d);
        assert forall|i: int| 0 <= i < k implies #[trigger] s[i] == ' ' by {}
    }
}

proof fn lemma_reads_count(n: u128)
    ensures
        reads_count(count_text(n), n),
{
    lemma_reads_dec(n as nat);
}

/// A number is read back from its numeral, so that two numbers never have one numeral.
pub proof fn law_hexadecimal_numerals_are_read_back(n: nat, m: nat, width: nat)
    ensures
        reads_hex(hex_wide(n, width), n as int, width as int),
        hex_wide(n, width) == hex_wide(m, width) ==> n == m,
        column(n) == column(m) ==> n == m,
{
    lemma_reads_hex(n, width);
    lemma_reads_hex(m, width);
    lemma_reads_column(n);
    lemma_reads_column(m);
    if column(n) == column(m) {
        lemma_reads_dec(n);
        lemma_reads_dec(m);
        lemma_unpadded(dec(n));
        lemma_unpadded(dec(m));
    }
}

/// The text without the blanks in front.
pub open spec fn without_blanks(s: Seq<char>) -> Seq<char>
    decreases s.len(),
{
    if s.len() > 0 && s[0] == ' ' {
        without_blanks(s.drop_first())
    } else {
        s
    }
}

proof fn lemma_unpadded_by(k: nat, d: Seq<char>)
    requires
        d.len() > 0,
        d[0] != ' ',
    ensures
        without_blanks(Seq::new(k, |i: int| ' ') + d) == d,
    decreases k,
{
    let s = Seq::new(k, |i: int| ' ') + d;
    if k > 0 {
        assert(s[0] == ' ');
        assert(s.drop_first() =~= Seq::new((k - 1) as nat, |i: int| ' ') + d);
        lemma_unpadded_by((k - 1) as nat, d);
    } else {
        assert(s =~= d);
    }
}

proof fn lemma_unpadded(d: Seq<char>)
    requires
        d.len() > 0,
        all_digits(d),
    ensures
        without_blanks(pad_left(d, 4, ' ')) == d,
{
    assert(is_digit(d[0]));
    if d.len() < 4 {
        lemma_unpadded_by((4 - d.len()) as nat, d);
    } else {
        lemma_unpadded_by(0, d);
        assert(Seq::new(0, |i: int| ' ') + d =~= d);
    }
}

// ── the head, and types without parts ──────────────────────

/// The text is a line of `n` copies of a character.
pub open spec fn is_rule(s: Seq<char>, c: Seq<char>, n: int) -> bool {
    s.len() == n && forall|i: int| 0 <= i < n ==> seq![#[trigger] s[i]] == c
}

/// The head names the type, and says its size and its alignment, in this order.
pub open spec fn reads_head(
    text: Seq<char>,
    p: PaletteView,
    name: Seq<char>,
    size: int,
    align: int,
) -> bool {
    exists|rule: Seq<char>, s: Seq<char>, a: Seq<char>|
        #![trigger is_rule(rule, p.underline, 60), reads_dec(s, size), reads_dec(a, align)]
        is_rule(rule, p.underline, 60) && reads_dec(s, size) && reads_dec(a, align) && text
            == "\n"@ + p.bold + p.cyan + name + p.reset + "\n"@ + p.dim + rule + p.reset
            + "\n  size: "@ + p.bold + s + p.reset + " bytes, align: "@ + a + " bytes\n"@
}

/// A type without parts is told by its size, or as one without any.
pub open spec fn reads_opaque(text: Seq<char>, p: PaletteView, size: int) -> bool {
    if size > 0 {
        exists|s: Seq<char>| #[trigger]
            reads_dec(s, size) && text == "\n  "@ + p.dim + "scalar / opaque ("@ + s + " bytes)"@
                + p.reset + "\n"@
    } else {
        text == "\n  "@ + p.dim + "zero-sized type"@ + p.reset + "\n"@
    }
}

/// The field is named, or a question mark stands for it.
pub open spec fn names_field(s: Seq<char>, field: Option<String>) -> bool {
    match field {
        Some(f) => s == f@,
        None => s == "?"@,
    }
}

/// The largest niche of a type that is no enum: its field, its representation, its offset and how
/// many values it leaves.
pub open spec fn reads_niche(text: Seq<char>, p: PaletteView, n: NicheInfo) -> bool {
    exists|f: Seq<char>, at: Seq<char>, left: Seq<char>|
        #![trigger names_field(f, n.field_name), reads_hex(at, n.offset as int, 4), reads_dec(left, n.available as int)]
        names_field(f, n.field_name) && reads_hex(at, n.offset as int, 4) && reads_dec(
            left,
            n.available as int,
        ) && text == "\n  "@ + p.dim + "niche: `"@ + f + "` ("@ + n.value_type@ + ") at +0x"@ + at
            + ", "@ + left + " available"@ + p.reset + "\n"@
}

// ── tables ─────────────────────────────────────────────────

/// Pieces of text, one behind the other.
pub open spec fn joined(pieces: Seq<Seq<char>>) -> Seq<char>
    decreases pieces.len(),
{
    if pieces.len() == 0 {
        Seq::empty()
    } else {
        joined(pieces.drop_last()) + pieces.last()
    }
}

/// A row on bytes that no field covers: where they start, and how many they are.
pub open spec fn reads_gap(text: Seq<char>, p: PaletteView, from: int, bytes: int) -> bool {
    if bytes > 0 {
        exists|at: Seq<char>, n: Seq<char>| #[trigger]
            reads_hex(at, from, 6) && #[trigger] reads_column(n, bytes) && text == "  "@ + p.dim
                + "0x"@ + at + "  "@ + n + "  ░░░ padding"@ + p.reset + "\n"@
    } else {
        text.len() == 0
    }
}

/// A row on a field: where it starts, how many bytes it has, its name and its type.
pub open spec fn reads_row(
    text: Seq<char>,
    p: PaletteView,
    color: Seq<char>,
    f: FieldLayout,
) -> bool {
    exists|at: Seq<char>, n: Seq<char>| #[trigger]
        reads_hex(at, f.offset as int, 6) && #[trigger] reads_column(n, f.size as int) && text
            == "  "@ + p.dim + "0x"@ + at + p.reset + "  "@ + n + "  "@ + color + f.name@ + ": "@
            + f.typename@ + p.reset + "\n"@
}

/// A row on the niche of a field: how many values it leaves, its representation, and which values
/// are valid, from the first to the last.
pub open spec fn reads_row_niche(text: Seq<char>, p: PaletteView, n: NicheInfo) -> bool {
    exists|left: Seq<char>, a: Seq<char>, b: Seq<char>|
        #![trigger reads_count(left, n.available), reads_hex(a, n.valid_range_start as int, 1), reads_hex(b, n.valid_range_end as int, 1)]
        reads_count(left, n.available) && reads_hex(a, n.valid_range_start as int, 1) && reads_hex(
            b,
            n.valid_range_end as int,
            1,
        ) && text == "  "@ + p.dim + "                  └─ "@ + left + " niche"@ + (
        if n.available == 1 {
            ""@
        } else {
            "s"@
        }) + " available ("@ + n.value_type@ + ", valid 0x"@ + a + "..=0x"@ + b + ")"@ + p.reset
            + "\n"@
}

/// The row on the niche of a field, where it has one.
pub open spec fn reads_row_niche_opt(text: Seq<char>, p: PaletteView, n: Option<NicheInfo>) -> bool {
    match n {
        Some(n) => reads_row_niche(text, p, n),
        None => text.len() == 0,
    }
}

/// Where the field before ends, and the last one where `i` is behind them.
pub open spec fn end_before(fields: Seq<FieldLayout>, i: int) -> int {
    if i == 0 {
        0
    } else {
        fields[i - 1].offset + fields[i - 1].size
    }
}

/// The rows on a field: the bytes between it and the one before, the field, and its niche.
pub open spec fn reads_group(
    text: Seq<char>,
    p: PaletteView,
    fields: Seq<FieldLayout>,
    i: int,
) -> bool {
    let from = end_before(fields, i);
    let f = fields[i];
    exists|pad: Seq<char>, row: Seq<char>, niche: Seq<char>|
        #![trigger reads_gap(pad, p, from, f.offset - from), reads_row(row, p, field_color(p, i), f), reads_row_niche_opt(niche, p, f.largest_niche)]
        reads_gap(pad, p, from, f.offset - from) && reads_row(row, p, field_color(p, i), f)
            && reads_row_niche_opt(niche, p, f.largest_niche) && text == pad + row + niche
}

/// The rows on the fields, in order, and on nothing else.
pub open spec fn reads_rows(text: Seq<char>, p: PaletteView, fields: Seq<FieldLayout>) -> bool {
    exists|groups: Seq<Seq<char>>|
        #![trigger joined(groups)]
        text == joined(groups) && groups.len() == fields.len() && forall|i: int|
            0 <= i < fields.len() ==> reads_group(#[trigger] groups[i], p, fields, i)
}

/// The table of a struct: its rows, the bytes behind the last field, and its size as the total.
pub open spec fn reads_table(
    text: Seq<char>,
    p: PaletteView,
    fields: Seq<FieldLayout>,
    total: int,
) -> bool {
    exists|rows: Seq<char>, pad: Seq<char>, n: Seq<char>|
        #![trigger reads_rows(rows, p, fields), reads_gap(pad, p, end_before(fields, fields.len() as int), total - end_before(fields, fields.len() as int)), reads_column(n, total)]
        reads_rows(rows, p, fields) && reads_gap(
            pad,
            p,
            end_before(fields, fields.len() as int),
            total - end_before(fields, fields.len() as int),
        ) && reads_column(n, total) && text == "\n  "@ + p.dim + "Offset    Size  Field"@ + p.reset
            + "\n  "@ + p.dim + "────────  ────  ──────────────────────────────────"@ + p.reset
            + "\n"@ + rows + pad + "  "@ + p.dim
            + "────────  ────  ──────────────────────────────────"@ + p.reset + "\n  "@ + p.dim
            + "          "@ + n + "  total"@ + p.reset + "\n"@
}

// ── byte maps ──────────────────────────────────────────────

/// The field covers the byte.
pub open spec fn covers(f: FieldLayout, b: int) -> bool {
    f.offset <= b < f.offset + f.size
}

/// The field is the last that covers the byte.
pub open spec fn is_last_cover(fields: Seq<FieldLayout>, b: int, i: int) -> bool {
    &&& 0 <= i < fields.len()
    &&& covers(fields[i], b)
    &&& forall|k: int| i < k < fields.len() ==> !covers(#[trigger] fields[k], b)
}

/// The character is the first letter or number of the name, or a question mark where it has none.
pub open spec fn is_sign_of(c: char, name: Seq<char>) -> bool {
    ||| exists|i: int|
        0 <= i < name.len() && #[trigger] name[i] == c && alphanumeric(c) && forall|k: int|
            0 <= k < i ==> !alphanumeric(#[trigger] name[k])
    ||| c == '?' && forall|k: int| 0 <= k < name.len() ==> !alphanumeric(#[trigger] name[k])
}

/// The cell of a byte that no field covers.
pub open spec fn empty_cell(p: PaletteView) -> Seq<char> {
    p.dim + "░░"@ + p.reset + " "@
}

/// A cell shows, twice and in the color of the field, the character of the field that covers the
/// byte, and shading where there is none.
pub open spec fn reads_cell(
    text: Seq<char>,
    p: PaletteView,
    fields: Seq<FieldLayout>,
    b: int,
) -> bool {
    &&& forall|i: int| #[trigger]
        is_last_cover(fields, b, i) ==> exists|c: char| #[trigger]
            is_sign_of(c, fields[i].name@) && text == (if c == '.' {
                empty_cell(p)
            } else {
                field_color(p, i) + p.bold + seq![c] + seq![c] + p.reset + " "@
            })
    &&& (forall|i: int| 0 <= i < fields.len() ==> !covers(#[trigger] fields[i], b)) ==> text
        == empty_cell(p)
}

/// A cell with what stands around it: blanks before the first of a row of `width`, and the end of
/// the line behind the last.
pub open spec fn reads_place(
    text: Seq<char>,
    p: PaletteView,
    fields: Seq<FieldLayout>,
    total: int,
    width: int,
    b: int,
) -> bool {
    exists|cell: Seq<char>| #[trigger]
        reads_cell(cell, p, fields, b) && text == (if b % width == 0 {
            "  "@
        } else {
            ""@
        }) + cell + (if b % width == width - 1 || b == total - 1 {
            "\n"@
        } else {
            ""@
        })
}

/// The cells of all bytes, in order.
pub open spec fn reads_cells(
    text: Seq<char>,
    p: PaletteView,
    fields: Seq<FieldLayout>,
    total: int,
    width: int,
) -> bool {
    exists|cells: Seq<Seq<char>>|
        #![trigger joined(cells)]
        text == joined(cells) && cells.len() == total && forall|b: int|
            0 <= b < total ==> reads_place(#[trigger] cells[b], p, fields, total, width, b)
}

/// How many cells a row of a map has.
pub open spec fn cells_to_the_row(total: int) -> int {
    if total <= 8 {
        8
    } else {
        16
    }
}

/// In color a struct of one to 64 bytes has a map with a cell for every byte, eight to the row up to
/// eight bytes and else sixteen.
pub open spec fn reads_map(
    text: Seq<char>,
    color: bool,
    fields: Seq<FieldLayout>,
    total: int,
) -> bool {
    let p = palette_for(color);
    let width = cells_to_the_row(total);
    if color && 1 <= total <= 64 {
        exists|cells: Seq<char>| #[trigger]
            reads_cells(cells, p, fields, total, width) && text == "\n  "@ + p.bold
                + "Byte map:"@ + p.reset + "\n"@ + cells
    } else {
        text.len() == 0
    }
}

// ── enums ──────────────────────────────────────────────────

/// How an enum is encoded: in a niche, with the niches that remain, or by a tag of so many bytes.
pub open spec fn reads_strategy(text: Seq<char>, p: PaletteView, el: EnumLayout) -> bool {
    match el.strategy {
        EnumStrategy::Single => text.len() == 0,
        EnumStrategy::NicheOptimized { .. } => exists|left: Seq<char>| #[trigger]
            reads_left(left, p, el.remaining_niches) && text == "\n  "@ + p.green + p.bold
                + "niche optimized"@ + p.reset + "\n"@ + left,
        EnumStrategy::Tagged { discriminant_size } => exists|n: Seq<char>| #[trigger]
            reads_dec(n, discriminant_size as int) && text == "\n  "@ + p.magenta + "tagged enum"@
                + p.reset + " ("@ + p.dim + "discriminant: "@ + n + " byte"@ + (
            if discriminant_size == 1 {
                ""@
            } else {
                "s"@
            }) + p.reset + ")\n"@,
    }
}

/// The line on the niches that remain, where they are known.
pub open spec fn reads_left(text: Seq<char>, p: PaletteView, left: Option<u128>) -> bool {
    match left {
        Some(n) => exists|c: Seq<char>| #[trigger]
            reads_count(c, n) && text == "  "@ + p.dim + "remaining niches: "@ + c + p.reset
                + "\n"@,
        None => text.len() == 0,
    }
}

/// Where an enum stores its variant.
pub open spec fn reads_discriminant(text: Seq<char>, p: PaletteView, el: EnumLayout) -> bool {
    match el.discriminant {
        None => text.len() == 0,
        Some(DiscriminantInfo::Direct { tag_offset, tag_size, .. }) => exists|
            at: Seq<char>,
            n: Seq<char>,
        | #[trigger]
            reads_hex(at, tag_offset as int, 4) && #[trigger] reads_dec(n, tag_size as int) && text
                == "  "@ + p.dim + "discriminant at +0x"@ + at + ", "@ + n + " byte(s)"@ + p.reset
                + "\n"@,
        Some(DiscriminantInfo::Niche { tag_offset, untagged_variant, niche_start, .. }) => exists|
            at: Seq<char>,
            n: Seq<char>,
        | #[trigger]
            reads_hex(at, tag_offset as int, 4) && #[trigger] reads_dec(n, niche_start as int)
                && text == "  "@ + p.dim + "niche discriminant at +0x"@ + at + ", untagged: "@
                + untagged_variant@ + ", niche_start: "@ + n + p.reset + "\n"@,
    }
}

/// The niche that an enum is encoded in.
pub open spec fn reads_enum_niche(text: Seq<char>, p: PaletteView, n: Option<NicheInfo>) -> bool {
    match n {
        None => text.len() == 0,
        Some(n) => exists|f: Seq<char>, at: Seq<char>, a: Seq<char>, b: Seq<char>|
            #![trigger names_field(f, n.field_name), reads_hex(at, n.offset as int, 4), reads_hex(a, n.valid_range_start as int, 1), reads_hex(b, n.valid_range_end as int, 1)]
            names_field(f, n.field_name) && reads_hex(at, n.offset as int, 4) && reads_hex(
                a,
                n.valid_range_start as int,
                1,
            ) && reads_hex(b, n.valid_range_end as int, 1) && text == "  "@ + p.dim + "niche in `"@
                + f + "` ("@ + n.value_type@ + ") at +0x"@ + at + ", valid: 0x"@ + a + "..=0x"@ + b
                + p.reset + "\n"@,
    }
}

/// A variant is told by its tag value, as the one without a tag, or by its value of the niche: the
/// first value, and one more for every variant behind the first, in 128 bits.
pub open spec fn reads_tag(
    tag: Option<Seq<char>>,
    idx: int,
    v: VariantLayout,
    el: EnumLayout,
) -> bool {
    match el.discriminant {
        None => tag is None,
        Some(DiscriminantInfo::Direct { .. }) => match v.discr_value {
            None => tag is None,
            Some(d) => tag matches Some(t) && exists|n: Seq<char>| #[trigger]
                reads_hex(n, d as int, 1) && t == "tag = 0x"@ + n,
        },
        Some(
            DiscriminantInfo::Niche {
                untagged_variant,
                niche_start,
                niche_variants_start,
                niche_variants_end,
                ..
            },
        ) => if v.name@ == untagged_variant@ {
            tag == Some("untagged"@)
        } else if idx < niche_variants_start || idx > niche_variants_end {
            tag is None
        } else {
            let sum = niche_start + (idx - niche_variants_start);
            tag matches Some(t) && exists|n: Seq<char>, value: int| #[trigger]
                reads_hex(n, value, 1) && (value == sum || value == sum - u128::MAX - 1) && 0
                <= value <= u128::MAX && t == "niche = 0x"@ + n
        },
    }
}

/// The tag of a variant in brackets, where it has one.
pub open spec fn reads_tag_text(
    text: Seq<char>,
    p: PaletteView,
    idx: int,
    v: VariantLayout,
    el: EnumLayout,
) -> bool {
    exists|tag: Option<Seq<char>>| #[trigger]
        reads_tag(tag, idx, v, el) && match tag {
            Some(t) => text == " "@ + p.dim + "["@ + t + "]"@ + p.reset,
            None => text.len() == 0,
        }
}

/// A row on a field of a variant: where it starts, how many bytes it has, its name and its type.
pub open spec fn reads_variant_row(
    text: Seq<char>,
    p: PaletteView,
    color: Seq<char>,
    f: FieldLayout,
) -> bool {
    exists|at: Seq<char>, n: Seq<char>| #[trigger]
        reads_hex(at, f.offset as int, 4) && #[trigger] reads_column(n, f.size as int) && text
            == "    "@ + p.dim + "+0x"@ + at + p.reset + "  "@ + n + "  "@ + color + f.name@ + ": "@
            + f.typename@ + p.reset + "\n"@
}

/// The rows on the fields of a variant, in order, and on nothing else.
pub open spec fn reads_variant_rows(
    text: Seq<char>,
    p: PaletteView,
    color: Seq<char>,
    fields: Seq<FieldLayout>,
) -> bool {
    exists|rows: Seq<Seq<char>>|
        #![trigger joined(rows)]
        text == joined(rows) && rows.len() == fields.len() && forall|i: int|
            0 <= i < fields.len() ==> reads_variant_row(#[trigger] rows[i], p, color, fields[i])
}

/// A variant: its name, its size, how it is told, and its fields.
pub open spec fn reads_variant(
    text: Seq<char>,
    p: PaletteView,
    idx: int,
    v: VariantLayout,
    el: EnumLayout,
) -> bool {
    let color = field_color(p, idx);
    exists|n: Seq<char>, tag: Seq<char>, rows: Seq<char>|
        #![trigger reads_dec(n, v.size as int), reads_tag_text(tag, p, idx, v, el), reads_variant_rows(rows, p, color, v.fields@)]
        reads_dec(n, v.size as int) && reads_tag_text(tag, p, idx, v, el) && reads_variant_rows(
            rows,
            p,
            color,
            v.fields@,
        ) && text == (if v.fields@.len() > 0 {
            "\n  "@ + color + p.bold + v.name@ + p.reset + ": "@ + p.dim + n + " bytes"@ + p.reset
                + tag + "\n"@ + rows
        } else if v.size > 0 {
            "\n  "@ + color + p.bold + v.name@ + p.reset + ": "@ + p.dim + n + " bytes, opaque"@
                + p.reset + tag + "\n"@
        } else {
            "\n  "@ + color + p.bold + v.name@ + p.reset + " "@ + p.dim + "(unit)"@ + p.reset + tag
                + "\n"@
        })
}

/// The variants, in order, and nothing else.
pub open spec fn reads_variants(text: Seq<char>, p: PaletteView, el: EnumLayout) -> bool {
    exists|parts: Seq<Seq<char>>|
        #![trigger joined(parts)]
        text == joined(parts) && parts.len() == el.variants@.len() && forall|i: int|
            0 <= i < el.variants@.len() ==> reads_variant(
                #[trigger] parts[i],
                p,
                i,
                el.variants@[i],
                el,
            )
}

/// An enum: how it is encoded, where it stores its variant, in which niche, and its variants.
pub open spec fn reads_enum(text: Seq<char>, p: PaletteView, el: EnumLayout) -> bool {
    exists|a: Seq<char>, b: Seq<char>, c: Seq<char>, d: Seq<char>|
        #![trigger reads_strategy(a, p, el), reads_discriminant(b, p, el), reads_enum_niche(c, p, el.niche), reads_variants(d, p, el)]
        reads_strategy(a, p, el) && reads_discriminant(b, p, el) && reads_enum_niche(c, p, el.niche)
            && reads_variants(d, p, el) && text == a + b + c + d
}

// ── whole renderings ───────────────────────────────────────

/// A struct: its table and its map.
pub open spec fn reads_struct(
    text: Seq<char>,
    color: bool,
    fields: Seq<FieldLayout>,
    total: int,
) -> bool {
    exists|a: Seq<char>, b: Seq<char>| #[trigger]
        reads_table(a, palette_for(color), fields, total) && #[trigger] reads_map(
            b,
            color,
            fields,
            total,
        ) && text == a + b
}

/// The body: a struct, an enum, or a type without parts.
pub open spec fn reads_body(text: Seq<char>, color: bool, tl: TypeLayout) -> bool {
    match tl.kind {
        TypeLayoutKind::Struct(sl) => reads_struct(text, color, sl.fields@, tl.size as int),
        TypeLayoutKind::Enum(el) => reads_enum(text, palette_for(color), el),
        TypeLayoutKind::Opaque => reads_opaque(text, palette_for(color), tl.size as int),
    }
}

/// The line on the largest niche, for types that are no enums.
pub open spec fn reads_type_niche(text: Seq<char>, p: PaletteView, tl: TypeLayout) -> bool {
    match (tl.kind, tl.largest_niche) {
        (TypeLayoutKind::Enum(_), _) => text.len() == 0,
        (_, None) => text.len() == 0,
        (_, Some(n)) => reads_niche(text, p, n),
    }
}

/// The note on a type, where there is one.
pub open spec fn reads_note(text: Seq<char>, p: PaletteView, note: Option<String>) -> bool {
    match note {
        Some(info) => text == "\n  "@ + p.dim + info@ + p.reset + "\n"@,
        None => text.len() == 0,
    }
}

/// A rendering: the head, the body, the largest niche and the note, and a blank line.
pub open spec fn reads_layout(text: Seq<char>, color: bool, tl: TypeLayout) -> bool {
    let p = palette_for(color);
    exists|a: Seq<char>, b: Seq<char>, c: Seq<char>, d: Seq<char>|
        #![trigger reads_head(a, p, tl.name@, tl.size as int, tl.alignment as int), reads_body(b, color, tl), reads_type_niche(c, p, tl), reads_note(d, p, tl.hover_info)]
        reads_head(a, p, tl.name@, tl.size as int, tl.alignment as int) && reads_body(b, color, tl)
            && reads_type_niche(c, p, tl) && reads_note(d, p, tl.hover_info) && text == a + b + c
            + d + "\n"@
}

// ── laws ───────────────────────────────────────────────────

proof fn lemma_rule(c: Seq<char>, n: nat)
    requires
        c.len() == 1,
    ensures
        is_rule(repeated(c, n), c, n as int),
    decreases n,
{
    if n > 0 {
        lemma_rule(c, (n - 1) as nat);
        let s = repeated(c, n);
        let t = repeated(c, (n - 1) as nat);
        assert forall|i: int| 0 <= i < n implies seq![#[trigger] s[i]] == c by {
            if i < n - 1 {
                assert(s[i] == t[i]);
                assert(seq![t[i]] == c);
            } else {
                assert(s[i] == c[0]);
                assert(seq![s[i]] =~= c);
            }
        }
    }
}

proof fn lemma_underline(color: bool)
    ensures
        palette_for(color).underline.len() == 1,
{
    reveal_strlit("═");
    reveal_strlit("=");
}

proof fn lemma_reads_head(color: bool, name: Seq<char>, size: nat, align: nat)
    ensures
        reads_head(
            header_text(palette_for(color), name, size, align),
            palette_for(color),
            name,
            size as int,
            align as int,
        ),
{
    let p = palette_for(color);
    lemma_underline(color);
    lemma_rule(p.underline, 60);
    lemma_reads_dec(size);
    lemma_reads_dec(align);
    assert(is_rule(repeated(p.underline, 60), p.underline, 60));
}

proof fn lemma_reads_gap(p: PaletteView, from: int, to: int)
    requires
        0 <= from,
    ensures
        reads_gap(padding_row(p, from, to), p, from, to - from),
{
    lemma_reads_hex(from as nat, 6);
    lemma_reads_column(gap(from, to));
}

proof fn lemma_reads_row(p: PaletteView, f: FieldLayout, i: int)
    ensures
        reads_row(field_row(p, f, i), p, field_color(p, i), f),
        reads_row_niche_opt(field_niche_row(p, f), p, f.largest_niche),
{
    lemma_reads_hex(f.offset as nat, 6);
    lemma_reads_column(f.size as nat);
    match f.largest_niche {
        Some(n) => {
            lemma_reads_count(n.available);
            lemma_reads_hex(n.valid_range_start as nat, 1);
            lemma_reads_hex(n.valid_range_end as nat, 1);
            assert(reads_row_niche(field_niche_row(p, f), p, n));
        },
        None => {},
    }
}

/// The rows of [`field_rows`], field by field.
proof fn lemma_field_rows(p: PaletteView, fields: Seq<FieldLayout>, groups: Seq<Seq<char>>)
    requires
        groups.len() == fields.len(),
        forall|i: int|
            0 <= i < fields.len() ==> #[trigger] groups[i] == field_group(
                p,
                end_before(fields, i),
                fields[i],
                i,
            ),
    ensures
        field_rows(p, fields) == joined(groups),
    decreases fields.len(),
{
    if fields.len() > 0 {
        let n = fields.len() - 1;
        let t = fields.drop_last();
        let g = groups.drop_last();
        assert forall|i: int| 0 <= i < t.len() implies #[trigger] g[i] == field_group(
            p,
            end_before(t, i),
            t[i],
            i,
        ) by {
            assert(g[i] == groups[i]);
            assert(t[i] == fields[i]);
            if i > 0 {
                assert(t[i - 1] == fields[i - 1]);
            }
        }
        lemma_field_rows(p, t, g);
        assert(groups[n] == groups.last());
        if n > 0 {
            assert(t.last() == fields[n - 1]);
        }
        assert(end_of(t) == end_before(fields, n));
    }
}

proof fn lemma_reads_group(p: PaletteView, fields: Seq<FieldLayout>, i: int)
    requires
        0 <= i < fields.len(),
    ensures
        reads_group(
            field_group(p, end_before(fields, i), fields[i], i),
            p,
            fields,
            i,
        ),
{
    let f = fields[i];
    let from = end_before(fields, i);
    lemma_reads_row(p, f, i);
    lemma_reads_gap(p, from, f.offset as int);
    assert(field_group(p, from, f, i) == padding_row(p, from, f.offset as int) + field_row(p, f, i)
        + field_niche_row(p, f));
}

proof fn lemma_reads_rows(p: PaletteView, fields: Seq<FieldLayout>)
    ensures
        reads_rows(field_rows(p, fields), p, fields),
{
    let groups = Seq::new(
        fields.len(),
        |i: int| field_group(p, end_before(fields, i), fields[i], i),
    );
    lemma_field_rows(p, fields, groups);
    assert forall|i: int| 0 <= i < fields.len() implies reads_group(
        #[trigger] groups[i],
        p,
        fields,
        i,
    ) by {
        lemma_reads_group(p, fields, i);
    }
}

proof fn lemma_reads_table(p: PaletteView, fields: Seq<FieldLayout>, total: u64)
    ensures
        reads_table(field_table(p, fields, total), p, fields, total as int),
{
    lemma_reads_rows(p, fields);
    assert(end_of(fields) == end_before(fields, fields.len() as int));
    lemma_reads_gap(p, end_of(fields), total as int);
    lemma_reads_column(total as nat);
}

proof fn lemma_owner(fields: Seq<FieldLayout>, b: int)
    ensures
        match owner(fields, b) {
            Some(i) => is_last_cover(fields, b, i),
            None => forall|i: int| 0 <= i < fields.len() ==> !covers(#[trigger] fields[i], b),
        },
    decreases fields.len(),
{
    if fields.len() > 0 && !covers(fields.last(), b) {
        let t = fields.drop_last();
        lemma_owner(t, b);
        match owner(t, b) {
            Some(i) => {
                assert(t[i] == fields[i]);
                assert forall|k: int| i < k < fields.len() implies !covers(
                    #[trigger] fields[k],
                    b,
                ) by {
                    if k < t.len() {
                        assert(t[k] == fields[k]);
                    }
                }
            },
            None => {
                assert forall|k: int| 0 <= k < fields.len() implies !covers(
                    #[trigger] fields[k],
                    b,
                ) by {
                    if k < t.len() {
                        assert(t[k] == fields[k]);
                    }
                }
            },
        }
    }
}

proof fn lemma_glyph(name: Seq<char>)
    ensures
        is_sign_of(glyph(name), name),
    decreases name.len(),
{
    if name.len() > 0 {
        if alphanumeric(name[0]) {
            assert(name[0] == glyph(name));
        } else {
            let t = name.drop_first();
            lemma_glyph(t);
            let c = glyph(t);
            if exists|i: int|
                0 <= i < t.len() && #[trigger] t[i] == c && alphanumeric(c) && forall|k: int|
                    0 <= k < i ==> !alphanumeric(#[trigger] t[k]) {
                let i = choose|i: int|
                    0 <= i < t.len() && #[trigger] t[i] == c && alphanumeric(c) && forall|k: int|
                        0 <= k < i ==> !alphanumeric(#[trigger] t[k]);
                assert(name[i + 1] == c);
                assert forall|k: int| 0 <= k < i + 1 implies !alphanumeric(#[trigger] name[k]) by {
                    if k > 0 {
                        assert(name[k] == t[k - 1]);
                    }
                }
            } else {
                assert forall|k: int| 0 <= k < name.len() implies !alphanumeric(
                    #[trigger] name[k],
                ) by {
                    if k > 0 {
                        assert(name[k] == t[k - 1]);
                    }
                }
            }
        }
    }
}

proof fn lemma_reads_cell(p: PaletteView, fields: Seq<FieldLayout>, b: int)
    ensures
        reads_cell(byte_cell(p, fields, glyphs_of(fields), b), p, fields, b),
{
    let glyphs = glyphs_of(fields);
    let text = byte_cell(p, fields, glyphs, b);
    lemma_owner(fields, b);
    assert forall|i: int| #[trigger] is_last_cover(fields, b, i) implies exists|c: char| #[trigger]
        is_sign_of(c, fields[i].name@) && text == (if c == '.' {
            empty_cell(p)
        } else {
            field_color(p, i) + p.bold + seq![c] + seq![c] + p.reset + " "@
        }) by {
        assert(covers(fields[i], b));
        let at = owner(fields, b)->0;
        if at < i {
            assert(!covers(fields[i], b));
        }
        if i < at {
            assert(!covers(fields[at], b));
        }
        lemma_glyph(fields[i].name@);
        assert(glyphs[i] == glyph(fields[i].name@));
        assert(is_sign_of(glyphs[i], fields[i].name@));
    }
    if forall|i: int| 0 <= i < fields.len() ==> !covers(#[trigger] fields[i], b) {
        match owner(fields, b) {
            Some(i) => assert(covers(fields[i], b)),
            None => {},
        }
    }
}

proof fn lemma_byte_rows(
    p: PaletteView,
    fields: Seq<FieldLayout>,
    total: int,
    width: int,
    cells: Seq<Seq<char>>,
)
    requires
        forall|b: int|
            0 <= b < cells.len() ==> #[trigger] cells[b] == byte_text(
                p,
                fields,
                glyphs_of(fields),
                total,
                width,
                b,
            ),
    ensures
        byte_rows(p, fields, glyphs_of(fields), total, width, cells.len()) == joined(cells),
    decreases cells.len(),
{
    if cells.len() > 0 {
        let t = cells.drop_last();
        assert forall|b: int| 0 <= b < t.len() implies #[trigger] t[b] == byte_text(
            p,
            fields,
            glyphs_of(fields),
            total,
            width,
            b,
        ) by {
            assert(t[b] == cells[b]);
        }
        lemma_byte_rows(p, fields, total, width, t);
        assert(cells[cells.len() - 1] == cells.last());
    }
}

proof fn lemma_reads_map(color: bool, fields: Seq<FieldLayout>, total: u64)
    ensures
        reads_map(byte_map(color, fields, glyphs_of(fields), total), color, fields, total as int),
{
    let p = palette_for(color);
    let width = cells_to_the_row(total as int);
    let cells = Seq::new(
        total as nat,
        |b: int| byte_text(p, fields, glyphs_of(fields), total as int, width, b),
    );
    lemma_byte_rows(p, fields, total as int, width, cells);
    assert forall|b: int| 0 <= b < total implies reads_place(
        #[trigger] cells[b],
        p,
        fields,
        total as int,
        width,
        b,
    ) by {
        lemma_reads_cell(p, fields, b);
        assert((b + 1) % width == 0 <==> b % width == width - 1);
    }
    assert(reads_cells(joined(cells), p, fields, total as int, width));
}

proof fn lemma_reads_struct(color: bool, fields: Seq<FieldLayout>, total: u64)
    ensures
        reads_struct(struct_text(color, fields, total), color, fields, total as int),
{
    lemma_reads_table(palette_for(color), fields, total);
    lemma_reads_map(color, fields, total);
}

proof fn lemma_reads_strategy(p: PaletteView, el: EnumLayout)
    ensures
        reads_strategy(strategy_text(p, el), p, el),
{
    match el.strategy {
        EnumStrategy::Single => {},
        EnumStrategy::NicheOptimized { .. } => {
            let left = match el.remaining_niches {
                Some(n) => "  "@ + p.dim + "remaining niches: "@ + count_text(n) + p.reset + "\n"@,
                None => Seq::empty(),
            };
            match el.remaining_niches {
                Some(n) => lemma_reads_count(n),
                None => {},
            }
            assert(reads_left(left, p, el.remaining_niches));
        },
        EnumStrategy::Tagged { discriminant_size } => lemma_reads_dec(discriminant_size as nat),
    }
}

proof fn lemma_reads_discriminant(p: PaletteView, el: EnumLayout)
    ensures
        reads_discriminant(discriminant_text(p, el), p, el),
        reads_enum_niche(niche_detail_text(p, el), p, el.niche),
{
    match el.discriminant {
        None => {},
        Some(DiscriminantInfo::Direct { tag_offset, tag_size, .. }) => {
            lemma_reads_hex(tag_offset as nat, 4);
            lemma_reads_dec(tag_size as nat);
        },
        Some(DiscriminantInfo::Niche { tag_offset, niche_start, .. }) => {
            lemma_reads_hex(tag_offset as nat, 4);
            lemma_reads_dec(niche_start as nat);
        },
    }
    match el.niche {
        None => {},
        Some(n) => {
            lemma_reads_hex(n.offset as nat, 4);
            lemma_reads_hex(n.valid_range_start as nat, 1);
            lemma_reads_hex(n.valid_range_end as nat, 1);
            assert(names_field(niche_field(n), n.field_name));
        },
    }
}

proof fn lemma_reads_tag(p: PaletteView, idx: int, v: VariantLayout, el: EnumLayout)
    requires
        0 <= idx <= usize::MAX,
    ensures
        reads_tag_text(tag_text(p, idx, v, el), p, idx, v, el),
{
    match el.discriminant {
        Some(DiscriminantInfo::Direct { .. }) => match v.discr_value {
            Some(d) => lemma_reads_hex(d as nat, 1),
            None => {},
        },
        Some(DiscriminantInfo::Niche { niche_start, niche_variants_start, .. }) => {
            let sum = niche_start + (idx - niche_variants_start);
            if idx >= niche_variants_start {
                let value = sum % (u128::MAX + 1);
                lemma_reads_hex(value as nat, 1);
                assert(value == sum || value == sum - u128::MAX - 1);
                assert(reads_hex(hex(value as nat), value, 1));
            }
        },
        None => {},
    }
    assert(reads_tag(tag_suffix(idx, v, el), idx, v, el));
}

proof fn lemma_reads_variant_row(p: PaletteView, fc: Seq<char>, f: FieldLayout)
    ensures
        reads_variant_row(variant_row(p, fc, f), p, fc, f),
{
    lemma_reads_hex(f.offset as nat, 4);
    lemma_reads_column(f.size as nat);
}

proof fn lemma_variant_rows(
    p: PaletteView,
    fc: Seq<char>,
    fields: Seq<FieldLayout>,
    rows: Seq<Seq<char>>,
)
    requires
        rows.len() == fields.len(),
        forall|i: int|
            0 <= i < fields.len() ==> #[trigger] rows[i] == variant_row(p, fc, fields[i]),
    ensures
        variant_rows(p, fc, fields) == joined(rows),
    decreases fields.len(),
{
    if fields.len() > 0 {
        let t = fields.drop_last();
        let r = rows.drop_last();
        assert forall|i: int| 0 <= i < t.len() implies #[trigger] r[i] == variant_row(
            p,
            fc,
            t[i],
        ) by {
            assert(r[i] == rows[i]);
            assert(t[i] == fields[i]);
        }
        lemma_variant_rows(p, fc, t, r);
        assert(rows[fields.len() - 1] == rows.last());
    }
}

proof fn lemma_reads_variant_rows(p: PaletteView, fc: Seq<char>, fields: Seq<FieldLayout>)
    ensures
        reads_variant_rows(variant_rows(p, fc, fields), p, fc, fields),
{
    let rows = Seq::new(fields.len(), |i: int| variant_row(p, fc, fields[i]));
    lemma_variant_rows(p, fc, fields, rows);
    assert forall|i: int| 0 <= i < fields.len() implies reads_variant_row(
        #[trigger] rows[i],
        p,
        fc,
        fields[i],
    ) by {
        lemma_reads_variant_row(p, fc, fields[i]);
    }
}

proof fn lemma_reads_variant(p: PaletteView, idx: int, v: VariantLayout, el: EnumLayout)
    requires
        0 <= idx <= usize::MAX,
    ensures
        reads_variant(variant_text(p, idx, v, el), p, idx, v, el),
{
    lemma_reads_dec(v.size as nat);
    lemma_reads_tag(p, idx, v, el);
    lemma_reads_variant_rows(p, field_color(p, idx), v.fields@);
}

proof fn lemma_variants(p: PaletteView, el: EnumLayout, parts: Seq<Seq<char>>)
    requires
        forall|i: int|
            0 <= i < parts.len() ==> #[trigger] parts[i] == variant_text(
                p,
                i,
                el.variants@[i],
                el,
            ),
    ensures
        variants_text(p, el, parts.len()) == joined(parts),
    decreases parts.len(),
{
    if parts.len() > 0 {
        let t = parts.drop_last();
        assert forall|i: int| 0 <= i < t.len() implies #[trigger] t[i] == variant_text(
            p,
            i,
            el.variants@[i],
            el,
        ) by {
            assert(t[i] == parts[i]);
        }
        lemma_variants(p, el, t);
        assert(parts[parts.len() - 1] == parts.last());
    }
}

proof fn lemma_reads_variants(p: PaletteView, el: EnumLayout)
    ensures
        reads_variants(variants_text(p, el, el.variants@.len()), p, el),
{
    let n = el.variants@.len();
    assert(el.variants.len() == n);
    let parts = Seq::new(n, |i: int| variant_text(p, i, el.variants@[i], el));
    lemma_variants(p, el, parts);
    assert forall|i: int| 0 <= i < n implies reads_variant(
        #[trigger] parts[i],
        p,
        i,
        el.variants@[i],
        el,
    ) by {
        lemma_reads_variant(p, i, el.variants@[i], el);
    }
}

/// A rendering, with or without color, says what the layout is.  Every number in it, an offset, a
/// size, an alignment, a count or a tag, is read back as that of the layout; every name, type and
/// note is the one of the layout; and each stands where it belongs: the rows of the fields in their
/// order, with a row for the bytes between them, and the variants in theirs.
pub proof fn law_renderings_are_read_back(color: bool, tl: TypeLayout)
    ensures
        reads_layout(rendered(color, tl), color, tl),
{
    let p = palette_for(color);
    lemma_reads_head(color, tl.name@, tl.size as nat, tl.alignment as nat);
    match tl.kind {
        TypeLayoutKind::Struct(sl) => lemma_reads_struct(color, sl.fields@, tl.size),
        TypeLayoutKind::Enum(el) => {
            lemma_reads_strategy(p, el);
            lemma_reads_discriminant(p, el);
            lemma_reads_variants(p, el);
            assert(reads_enum(enum_text(p, el), p, el));
        },
        TypeLayoutKind::Opaque => {
            lemma_reads_dec(tl.size as nat);
        },
    }
    assert(reads_body(kind_text(color, tl), color, tl));
    match tl.largest_niche {
        Some(n) => {
            lemma_reads_hex(n.offset as nat, 4);
            lemma_reads_dec(n.available as nat);
            assert(names_field(niche_field(n), n.field_name));
        },
        None => {},
    }
    assert(reads_type_niche(type_niche_text(p, tl), p, tl));
    assert(reads_note(hover_text(p, tl), p, tl.hover_info));
}

/// Without color a rendering is made of words alone; with color every word of style is an escape
/// sequence, the one that ends it is not one that begins it, and no two of the eight colors of
/// fields are the same.  The colors take turns.
pub proof fn law_styles_are_escape_sequences(i: int, j: int)
    requires
        0 <= i,
        0 <= j,
    ensures
        ({
            let p = palette_for(false);
            &&& p.reset.len() == 0 && p.bold.len() == 0 && p.dim.len() == 0 && p.cyan.len() == 0
            &&& p.magenta.len() == 0 && p.green.len() == 0
            &&& field_color(p, i).len() == 0
        }),
        ({
            let p = palette_for(true);
            &&& is_sequence(p.reset) && is_sequence(p.bold) && is_sequence(p.dim)
            &&& is_sequence(p.cyan) && is_sequence(p.magenta) && is_sequence(p.green)
            &&& p.reset != p.bold && p.reset != p.dim && p.bold != p.dim
            &&& p.cyan != p.magenta && p.cyan != p.green && p.magenta != p.green
            &&& is_sequence(field_color(p, i))
            &&& field_color(p, i) == field_color(p, j) <==> i % 8 == j % 8
        }),
{
    reveal_strlit("");
    reveal_strlit("\x1b[0m");
    reveal_strlit("\x1b[1m");
    reveal_strlit("\x1b[2m");
    reveal_strlit("\x1b[36m");
    reveal_strlit("\x1b[35m");
    reveal_strlit("\x1b[32m");
    reveal_strlit("\x1b[38;5;75m");
    reveal_strlit("\x1b[38;5;114m");
    reveal_strlit("\x1b[38;5;216m");
    reveal_strlit("\x1b[38;5;183m");
    reveal_strlit("\x1b[38;5;222m");
    reveal_strlit("\x1b[38;5;117m");
    reveal_strlit("\x1b[38;5;151m");
    reveal_strlit("\x1b[38;5;210m");
    let p = palette_for(true);
    assert("\x1b[0m"@[2] != "\x1b[1m"@[2] && "\x1b[0m"@[2] != "\x1b[2m"@[2]);
    assert("\x1b[1m"@[2] != "\x1b[2m"@[2]);
    assert("\x1b[36m"@[3] != "\x1b[35m"@[3] && "\x1b[36m"@[3] != "\x1b[32m"@[3]);
    assert("\x1b[35m"@[3] != "\x1b[32m"@[3]);
    let (a, b) = (field_color(p, i), field_color(p, j));
    assert(a.len() == b.len() && a[7] == b[7] && a[8] == b[8] && a[9] == b[9] ==> i % 8 == j % 8);
}

/// The text is an escape sequence of a terminal that changes the style.
pub open spec fn is_sequence(s: Seq<char>) -> bool {
    &&& s.len() > 3
    &&& s[0] == '\u{1b}'
    &&& s[1] == '['
    &&& s.last() == 'm'
}

/// A footer names the program, its version and the compiler, with the commit of the compiler in
/// brackets where it is known.
pub proof fn law_footers_name_the_versions(color: bool, version: Seq<char>, hash: Seq<char>)
    ensures
        hash.len() == 0 ==> footer_text(palette_for(color), version, hash) == palette_for(color).dim
            + "nichy "@ + VERSION@ + " · "@ + version + palette_for(color).reset + "\n"@,
        hash.len() > 0 ==> footer_text(palette_for(color), version, hash) == palette_for(color).dim
            + "nichy "@ + VERSION@ + " · "@ + (version + " ("@ + hash + ")"@) + palette_for(
            color,
        ).reset + "\n"@,
{
}

/// The hexadecimal digits that a text starts with.
pub open spec fn leading_hex(s: Seq<char>) -> Seq<char>
    decreases s.len(),
{
    if s.len() > 0 && hex_digit(s[0]) is Some {
        seq![s[0]] + leading_hex(s.drop_first())
    } else {
        Seq::empty()
    }
}

proof fn lemma_leading_hex(h: Seq<char>, rest: Seq<char>)
    requires
        all_hex(h),
        rest.len() > 0,
        hex_digit(rest[0]) is None,
    ensures
        leading_hex(h + rest) == h,
    decreases h.len(),
{
    if h.len() > 0 {
        let t = h.drop_first();
        assert((h + rest).drop_first() =~= t + rest);
        assert forall|i: int| 0 <= i < t.len() implies hex_digit(#[trigger] t[i]) is Some by {
            assert(t[i] == h[i + 1]);
        }
        lemma_leading_hex(t, rest);
        assert(hex_digit(h[0]) is Some);
        assert(seq![h[0]] + t =~= h);
    } else {
        assert(h + rest =~= rest);
        assert(leading_hex(rest) =~= h);
    }
}

/// In plain text the number that is read behind `+0x` in the row of a field of a variant is the
/// offset of the field, so that fields at different offsets have different rows.
pub proof fn law_variant_rows_show_offsets(a: FieldLayout, b: FieldLayout, fc: Seq<char>)
    requires
        fc.len() == 0,
    ensures
        hex_value(leading_hex(variant_row(palette_for(false), fc, a).skip(7))) == a.offset,
        variant_row(palette_for(false), fc, a).take(7) == seq![' ', ' ', ' ', ' ', '+', '0', 'x'],
        a.offset != b.offset ==> variant_row(palette_for(false), fc, a) != variant_row(
            palette_for(false),
            fc,
            b,
        ),
{
    lemma_variant_row_offset(a, fc);
    lemma_variant_row_offset(b, fc);
}

proof fn lemma_variant_row_offset(f: FieldLayout, fc: Seq<char>)
    requires
        fc.len() == 0,
    ensures
        hex_value(leading_hex(variant_row(palette_for(false), fc, f).skip(7))) == f.offset,
        variant_row(palette_for(false), fc, f).take(7) == seq![' ', ' ', ' ', ' ', '+', '0', 'x'],
{
    reveal_strlit("");
    reveal_strlit("    ");
    reveal_strlit("+0x");
    reveal_strlit("  ");
    let row = variant_row(palette_for(false), fc, f);
    let h = hex_wide(f.offset as nat, 4);
    lemma_reads_hex(f.offset as nat, 4);
    let rest = "  "@ + column(f.size as nat) + "  "@ + fc + f.name@ + ": "@ + f.typename@ + ""@
        + "\n"@;
    assert(row.take(7) =~= seq![' ', ' ', ' ', ' ', '+', '0', 'x']);
    assert(row.skip(7) =~= h + rest);
    assert(rest[0] == ' ');
    lemma_leading_hex(h, rest);
}

/// In plain text the number that is read behind `0x` in the row of a field of a struct is the
/// offset of the field, so that fields at different offsets have different rows.
pub proof fn law_field_rows_show_offsets(a: FieldLayout, i: int, b: FieldLayout, j: int)
    requires
        0 <= i,
        0 <= j,
    ensures
        hex_value(leading_hex(field_row(palette_for(false), a, i).skip(4))) == a.offset,
        field_row(palette_for(false), a, i).take(4) == seq![' ', ' ', '0', 'x'],
        a.offset != b.offset ==> field_row(palette_for(false), a, i) != field_row(
            palette_for(false),
            b,
            j,
        ),
{
    lemma_field_row_offset(a, i);
    lemma_field_row_offset(b, j);
}

proof fn lemma_field_row_offset(f: FieldLayout, i: int)
    requires
        0 <= i,
    ensures
        hex_value(leading_hex(field_row(palette_for(false), f, i).skip(4))) == f.offset,
        field_row(palette_for(false), f, i).take(4) == seq![' ', ' ', '0', 'x'],
{
    reveal_strlit("");
    reveal_strlit("  ");
    reveal_strlit("0x");
    let p = palette_for(false);
    let row = field_row(p, f, i);
    let h = hex_wide(f.offset as nat, 6);
    lemma_reads_hex(f.offset as nat, 6);
    let rest = "  "@ + column(f.size as nat) + "  "@ + field_color(p, i) + f.name@ + ": "@
        + f.typename@ + ""@ + "\n"@;
    assert(row.take(4) =~= seq![' ', ' ', '0', 'x']);
    assert(row.skip(4) =~= h + rest);
    assert(rest[0] == ' ');
    lemma_leading_hex(h, rest);
}

/// Whoever renders a layout gets a text that says what the layout is.
pub proof fn law_render_type_layout(tl: &TypeLayout, ctx: &Ctx, r: String)
    requires
        renderable(*tl),
        call_ensures(render_type_layout, (tl, ctx), r),
    ensures
        reads_layout(r@, ctx.colored(), *tl),
{
    law_renderings_are_read_back(ctx.colored(), *tl);
}

/// Who asks for a rendering with or without color gets it so: without color there is no escape
/// character in what is rendered of a layout that has none.
pub proof fn law_color_is_as_asked(
    color: bool,
    verbose: bool,
    ctx: Ctx,
    tl: &TypeLayout,
    r: String,
)
    requires
        renderable(*tl),
        call_ensures(Ctx::new, (color, verbose), ctx),
        call_ensures(render_type_layout, (tl, &ctx), r),
    ensures
        reads_layout(r@, color, *tl),
        !color && free_layout(*tl) ==> free(r@),
{
    law_renderings_are_read_back(color, *tl);
    if !color && free_layout(*tl) {
        law_plain_rendering_is_free_of_escapes(*tl);
    }
}

/// A count below 2^60 is written as its numeral, any other as a lot.
pub proof fn law_format_count(n: u128, r: String)
    requires
        call_ensures(format_count, (n,), r),
    ensures
        reads_count(r@, n),
{
    lemma_reads_count(n);
}

} // verus!
