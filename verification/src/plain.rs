//! Without color a rendering is plain text.
use vstd::prelude::*;

use crate::layout::{
    DiscriminantInfo, EnumLayout, FieldLayout, NicheInfo, TypeLayout, TypeLayoutKind,
    VariantLayout,
};
use crate::render::{
    column, discriminant_text, end_of, field_color, field_niche_row, field_row, field_rows,
    field_table, footer_text, header_text, hex_wide, hover_text, kind_text, niche_detail_text,
    opaque_text, padding_row, plain, rendered, repeated, strategy_text, struct_text, tag_suffix,
    tag_text, type_niche_text, variant_row, variant_rows, variant_text, variants_text, VERSION,
};
use crate::text::{
    dec, digit, hex, numeral,
};

verus! {

/// The text has no escape character, with which every sequence for a terminal starts.
pub open spec fn free(s: Seq<char>) -> bool {
    forall|i: int| 0 <= i < s.len() ==> #[trigger] s[i] != '\u{1b}'
}

broadcast proof fn free_concat(a: Seq<char>, b: Seq<char>)
    ensures
        #[trigger] free(a + b) == (free(a) && free(b)),
{
    let s = a + b;
    if free(s) {
        assert forall|i: int| 0 <= i < a.len() implies #[trigger] a[i] != '\u{1b}' by {
            assert(s[i] == a[i]);
        }
        assert forall|i: int| 0 <= i < b.len() implies #[trigger] b[i] != '\u{1b}' by {
            assert(s[a.len() + i] == b[i]);
        }
    }
}

proof fn lemma_free_numeral(n: nat, base: nat)
    requires
        2 <= base <= 16,
    ensures
        free(numeral(n, base)),
    decreases n,
{
    if n >= base {
        assert(n / base < n) by (nonlinear_arith)
            requires
                n >= base,
                base >= 2,
        ;
        lemma_free_numeral(n / base, base);
        assert(0 <= n % base < base) by (nonlinear_arith)
            requires
                base >= 2,
        ;
        assert(digit((n % base) as int) != '\u{1b}');
    } else {
        assert(digit(n as int) != '\u{1b}');
    }
}

broadcast proof fn free_dec(n: nat)
    ensures
        #[trigger] free(dec(n)),
{
    lemma_free_numeral(n, 10);
}

broadcast proof fn free_hex(n: nat)
    ensures
        #[trigger] free(hex(n)),
{
    lemma_free_numeral(n, 16);
}

broadcast proof fn free_column(n: nat)
    ensures
        #[trigger] free(column(n)),
{
    lemma_free_numeral(n, 10);
}

broadcast proof fn free_hex_wide(n: nat, width: nat)
    ensures
        #[trigger] free(hex_wide(n, width)),
{
    lemma_free_numeral(n, 16);
}

broadcast group group_free {
    free_concat,
    free_dec,
    free_hex,
    free_column,
    free_hex_wide,
}

proof fn lemma_free_words_a()
    ensures
        free(""@),
        free("="@),
        free("a lot"@),
        free("\n"@),
        free("\n  size: "@),
        free(" bytes, align: "@),
        free(" bytes\n"@),
        free("?"@),
{
    reveal_strlit("");
    reveal_strlit("=");
    reveal_strlit("a lot");
    reveal_strlit("\n");
    reveal_strlit("\n  size: ");
    reveal_strlit(" bytes, align: ");
    reveal_strlit(" bytes\n");
    reveal_strlit("?");
}

proof fn lemma_free_words_b()
    ensures
        free("\n  "@),
        free("scalar / opaque ("@),
        free(" bytes)"@),
        free("zero-sized type"@),
        free("niche: `"@),
        free("` ("@),
        free(") at +0x"@),
        free(", "@),
{
    reveal_strlit("\n  ");
    reveal_strlit("scalar / opaque (");
    reveal_strlit(" bytes)");
    reveal_strlit("zero-sized type");
    reveal_strlit("niche: `");
    reveal_strlit("` (");
    reveal_strlit(") at +0x");
    reveal_strlit(", ");
}

proof fn lemma_free_words_c()
    ensures
        free(" available"@),
        free(" ("@),
        free(")"@),
        free("nichy "@),
        free(" · "@),
        free("  "@),
        free("0x"@),
        free("  ░░░ padding"@),
{
    reveal_strlit(" available");
    reveal_strlit(" (");
    reveal_strlit(")");
    reveal_strlit("nichy ");
    reveal_strlit(" · ");
    reveal_strlit("  ");
    reveal_strlit("0x");
    reveal_strlit("  ░░░ padding");
}

proof fn lemma_free_words_d()
    ensures
        free(": "@),
        free("                  └─ "@),
        free(" niche"@),
        free("s"@),
        free(" available ("@),
        free(", valid 0x"@),
        free("..=0x"@),
        free("Offset    Size  Field"@),
{
    reveal_strlit(": ");
    reveal_strlit("                  └─ ");
    reveal_strlit(" niche");
    reveal_strlit("s");
    reveal_strlit(" available (");
    reveal_strlit(", valid 0x");
    reveal_strlit("..=0x");
    reveal_strlit("Offset    Size  Field");
}

proof fn lemma_free_words_e()
    ensures
        free("────────  ────  ──────────────────────────────────"@),
        free("          "@),
        free("  total"@),
        free("niche optimized"@),
        free("remaining niches: "@),
        free("tagged enum"@),
        free("discriminant: "@),
        free(" byte"@),
{
    reveal_strlit("────────  ────  ──────────────────────────────────");
    reveal_strlit("          ");
    reveal_strlit("  total");
    reveal_strlit("niche optimized");
    reveal_strlit("remaining niches: ");
    reveal_strlit("tagged enum");
    reveal_strlit("discriminant: ");
    reveal_strlit(" byte");
}

proof fn lemma_free_words_f()
    ensures
        free(")\n"@),
        free("discriminant at +0x"@),
        free(" byte(s)"@),
        free("niche discriminant at +0x"@),
        free(", untagged: "@),
        free(", niche_start: "@),
        free("niche in `"@),
        free(", valid: 0x"@),
{
    reveal_strlit(")\n");
    reveal_strlit("discriminant at +0x");
    reveal_strlit(" byte(s)");
    reveal_strlit("niche discriminant at +0x");
    reveal_strlit(", untagged: ");
    reveal_strlit(", niche_start: ");
    reveal_strlit("niche in `");
    reveal_strlit(", valid: 0x");
}

proof fn lemma_free_words_g()
    ensures
        free("tag = 0x"@),
        free("untagged"@),
        free("niche = 0x"@),
        free(" "@),
        free("["@),
        free("]"@),
        free("    "@),
        free("+0x"@),
{
    reveal_strlit("tag = 0x");
    reveal_strlit("untagged");
    reveal_strlit("niche = 0x");
    reveal_strlit(" ");
    reveal_strlit("[");
    reveal_strlit("]");
    reveal_strlit("    ");
    reveal_strlit("+0x");
}

proof fn lemma_free_words_h()
    ensures
        free(" bytes"@),
        free(" bytes, opaque"@),
        free("(unit)"@),
{
    reveal_strlit(" bytes");
    reveal_strlit(" bytes, opaque");
    reveal_strlit("(unit)");
}

/// The words that renderings are made of.
proof fn lemma_free_words()
    ensures
        free(""@),
        free("="@),
        free("a lot"@),
        free("\n"@),
        free("\n  size: "@),
        free(" bytes, align: "@),
        free(" bytes\n"@),
        free("?"@),
        free("\n  "@),
        free("scalar / opaque ("@),
        free(" bytes)"@),
        free("zero-sized type"@),
        free("niche: `"@),
        free("` ("@),
        free(") at +0x"@),
        free(", "@),
        free(" available"@),
        free(" ("@),
        free(")"@),
        free("nichy "@),
        free(" · "@),
        free("  "@),
        free("0x"@),
        free("  ░░░ padding"@),
        free(": "@),
        free("                  └─ "@),
        free(" niche"@),
        free("s"@),
        free(" available ("@),
        free(", valid 0x"@),
        free("..=0x"@),
        free("Offset    Size  Field"@),
        free("────────  ────  ──────────────────────────────────"@),
        free("          "@),
        free("  total"@),
        free("niche optimized"@),
        free("remaining niches: "@),
        free("tagged enum"@),
        free("discriminant: "@),
        free(" byte"@),
        free(")\n"@),
        free("discriminant at +0x"@),
        free(" byte(s)"@),
        free("niche discriminant at +0x"@),
        free(", untagged: "@),
        free(", niche_start: "@),
        free("niche in `"@),
        free(", valid: 0x"@),
        free("tag = 0x"@),
        free("untagged"@),
        free("niche = 0x"@),
        free(" "@),
        free("["@),
        free("]"@),
        free("    "@),
        free("+0x"@),
        free(" bytes"@),
        free(" bytes, opaque"@),
        free("(unit)"@),
{
    lemma_free_words_a();
    lemma_free_words_b();
    lemma_free_words_c();
    lemma_free_words_d();
    lemma_free_words_e();
    lemma_free_words_f();
    lemma_free_words_g();
    lemma_free_words_h();
}

// ── what comes from outside ────────────────────────────────

/// The texts of a niche are free of escapes.
pub open spec fn free_niche(n: Option<NicheInfo>) -> bool {
    match n {
        Some(n) => free(n.value_type@) && (match n.field_name {
            Some(f) => free(f@),
            None => true,
        }),
        None => true,
    }
}

/// The texts of a field are free of escapes.
pub open spec fn free_field(f: FieldLayout) -> bool {
    free(f.name@) && free(f.typename@) && free_niche(f.largest_niche)
}

/// The texts of fields are free of escapes.
pub open spec fn free_fields(fields: Seq<FieldLayout>) -> bool {
    forall|i: int| 0 <= i < fields.len() ==> free_field(#[trigger] fields[i])
}

/// The texts of a variant are free of escapes.
pub open spec fn free_variant(v: VariantLayout) -> bool {
    free(v.name@) && free_fields(v.fields@)
}

/// The texts of an enum are free of escapes.
pub open spec fn free_enum(el: EnumLayout) -> bool {
    &&& forall|i: int| 0 <= i < el.variants@.len() ==> free_variant(#[trigger] el.variants@[i])
    &&& free_niche(el.niche)
    &&& match el.discriminant {
        Some(DiscriminantInfo::Niche { untagged_variant, .. }) => free(untagged_variant@),
        _ => true,
    }
}

/// The texts of a layout, which it has from the code that was analyzed, are free of escapes.
pub open spec fn free_layout(tl: TypeLayout) -> bool {
    &&& free(tl.name@)
    &&& free_niche(tl.largest_niche)
    &&& match tl.hover_info {
        Some(info) => free(info@),
        None => true,
    }
    &&& match tl.kind {
        TypeLayoutKind::Struct(sl) => free_fields(sl.fields@),
        TypeLayoutKind::Enum(el) => free_enum(el),
        TypeLayoutKind::Opaque => true,
    }
}

// ── piece by piece ─────────────────────────────────────────

proof fn lemma_free_repeated(s: Seq<char>, n: nat)
    requires
        free(s),
    ensures
        free(repeated(s, n)),
    decreases n,
{
    broadcast use group_free;

    if n > 0 {
        lemma_free_repeated(s, (n - 1) as nat);
    }
}

proof fn lemma_free_colors(i: int)
    requires
        0 <= i,
    ensures
        field_color(plain(), i) == ""@,
{
    let k = i % 8;
    assert(k == 0 || k == 1 || k == 2 || k == 3 || k == 4 || k == 5 || k == 6 || k == 7);
}

proof fn lemma_free_header(name: Seq<char>, size: nat, align: nat)
    requires
        free(name),
    ensures
        free(header_text(plain(), name, size, align)),
{
    broadcast use group_free;

    lemma_free_words();
    lemma_free_repeated("="@, 60);
}

proof fn lemma_free_padding_row(from: int, to: int)
    ensures
        free(padding_row(plain(), from, to)),
{
    broadcast use group_free;

    lemma_free_words();
}

proof fn lemma_free_field_row(f: FieldLayout, i: int)
    requires
        free_field(f),
        0 <= i,
    ensures
        free(field_row(plain(), f, i)),
        free(field_niche_row(plain(), f)),
{
    broadcast use group_free;

    lemma_free_words();
    lemma_free_colors(i);
}

proof fn lemma_free_field_rows(fields: Seq<FieldLayout>)
    requires
        free_fields(fields),
    ensures
        free(field_rows(plain(), fields)),
    decreases fields.len(),
{
    broadcast use group_free;

    if fields.len() > 0 {
        let rest = fields.drop_last();
        let n = rest.len() as int;
        assert(fields[n] == fields.last());
        assert forall|i: int| 0 <= i < rest.len() implies free_field(#[trigger] rest[i]) by {
            assert(rest[i] == fields[i]);
        }
        lemma_free_field_rows(rest);
        lemma_free_padding_row(end_of(rest), fields.last().offset as int);
        lemma_free_field_row(fields.last(), n);
    }
}

proof fn lemma_free_struct(fields: Seq<FieldLayout>, total: u64)
    requires
        free_fields(fields),
    ensures
        free(struct_text(false, fields, total)),
{
    broadcast use group_free;

    lemma_free_words();
    lemma_free_field_rows(fields);
    lemma_free_padding_row(end_of(fields), total as int);
    assert(free(field_table(plain(), fields, total)));
}

proof fn lemma_free_enum_head(el: EnumLayout)
    requires
        free_enum(el),
    ensures
        free(strategy_text(plain(), el)),
        free(discriminant_text(plain(), el)),
        free(niche_detail_text(plain(), el)),
{
    broadcast use group_free;

    lemma_free_words();
}

proof fn lemma_free_tag(idx: int, v: VariantLayout, el: EnumLayout)
    ensures
        free(tag_text(plain(), idx, v, el)),
{
    broadcast use group_free;

    lemma_free_words();
    if let Some(s) = tag_suffix(idx, v, el) {
        assert(free(s));
    }
}

proof fn lemma_free_variant_rows(fields: Seq<FieldLayout>)
    requires
        free_fields(fields),
    ensures
        free(variant_rows(plain(), ""@, fields)),
    decreases fields.len(),
{
    broadcast use group_free;

    lemma_free_words();
    if fields.len() > 0 {
        let rest = fields.drop_last();
        assert(fields[fields.len() - 1] == fields.last());
        assert forall|i: int| 0 <= i < rest.len() implies free_field(#[trigger] rest[i]) by {
            assert(rest[i] == fields[i]);
        }
        lemma_free_variant_rows(rest);
        assert(free(variant_row(plain(), ""@, fields.last())));
    }
}

proof fn lemma_free_variant(idx: int, v: VariantLayout, el: EnumLayout)
    requires
        free_variant(v),
        0 <= idx,
    ensures
        free(variant_text(plain(), idx, v, el)),
{
    broadcast use group_free;

    lemma_free_words();
    lemma_free_colors(idx);
    lemma_free_tag(idx, v, el);
    lemma_free_variant_rows(v.fields@);
}

proof fn lemma_free_variants(el: EnumLayout, n: nat)
    requires
        free_enum(el),
        n <= el.variants@.len(),
    ensures
        free(variants_text(plain(), el, n)),
    decreases n,
{
    broadcast use group_free;

    if n > 0 {
        lemma_free_variants(el, (n - 1) as nat);
        lemma_free_variant(n - 1, el.variants@[n - 1], el);
    }
}

proof fn lemma_free_rest(tl: TypeLayout)
    requires
        free_layout(tl),
    ensures
        free(opaque_text(plain(), tl.size)),
        free(type_niche_text(plain(), tl)),
        free(hover_text(plain(), tl)),
{
    broadcast use group_free;

    lemma_free_words();
}

// ── laws ───────────────────────────────────────────────────

/// Without color the rendering of a layout has no sequence for a terminal in it, unless the
/// analyzed code has one in its names.
pub proof fn law_plain_rendering_is_free_of_escapes(tl: TypeLayout)
    requires
        free_layout(tl),
    ensures
        free(rendered(false, tl)),
{
    broadcast use group_free;

    lemma_free_words();
    lemma_free_header(tl.name@, tl.size as nat, tl.alignment as nat);
    lemma_free_rest(tl);
    match tl.kind {
        TypeLayoutKind::Struct(sl) => lemma_free_struct(sl.fields@, tl.size),
        TypeLayoutKind::Enum(el) => {
            lemma_free_enum_head(el);
            lemma_free_variants(el, el.variants@.len());
        },
        TypeLayoutKind::Opaque => {},
    }
    assert(free(kind_text(false, tl)));
}

/// Without color the footer has no sequence for a terminal in it.
pub proof fn law_plain_footer_is_free_of_escapes(rustc_version: Seq<char>, rustc_hash: Seq<char>)
    requires
        free(rustc_version),
        free(rustc_hash),
    ensures
        free(footer_text(plain(), rustc_version, rustc_hash)),
{
    broadcast use group_free;

    lemma_free_words();
    reveal_strlit("0.1.0");
    assert(free(VERSION@));
}

} // verus!
