//! From what the compiler knows of a type to the layout that is reported.
//!
//! The types at the top hold, as plain values, what the conversion reads of the
//! compiler's own layout of a type.
use vstd::multiset::Multiset;
use vstd::prelude::*;

use crate::layout::{
    field_views, niche_opt_view, DiscriminantInfo, DiscriminantView, EnumLayout,
    EnumStrategy, EnumView, FieldLayout, FieldView, KindView, NicheInfo, NicheView, StructLayout,
    TypeLayout, TypeLayoutKind, TypeView, VariantLayout, VariantView,
};
use crate::text::{all_digits, dec_value, opt_view};

verus! {

// ── what the compiler reports ──────────────────────────────

/// The width of an integer.
#[derive(Debug, Clone, Copy)]
pub enum Integer {
    I8,
    I16,
    I32,
    I64,
    I128,
}

/// The width of a floating-point number.
#[derive(Debug, Clone, Copy)]
pub enum Float {
    F16,
    F32,
    F64,
    F128,
}

/// The machine representation of a scalar.  An integer is signed where the flag is set.
#[derive(Debug, Clone, Copy)]
pub enum Primitive {
    Int(Integer, bool),
    Float(Float),
    Pointer,
}

/// A range of values that may wrap around.
#[derive(Debug, Clone, Copy)]
pub struct WrappingRange {
    pub start: u128,
    pub end: u128,
}

/// A niche of a layout: where it is, of which representation and size in bytes, which
/// values are valid there, and how many are not.
#[derive(Debug, Clone, Copy)]
pub struct Niche {
    pub offset: u64,
    pub value: Primitive,
    pub value_size: u64,
    pub valid_range: WrappingRange,
    pub available: u128,
}

/// The scalar that tells the variants of an enum apart.  `available` counts the values
/// outside of the range at its side; where a scalar may be uninitialized, every value is
/// valid and `full_range` holds them all.
#[derive(Debug, Clone, Copy)]
pub enum Scalar {
    Initialized {
        value: Primitive,
        value_size: u64,
        valid_range: WrappingRange,
        available: u128,
    },
    Union { value: Primitive, value_size: u64, full_range: WrappingRange, available: u128 },
}

/// One field, in the order of declaration.
#[derive(Debug)]
pub struct Field {
    pub name: String,
    pub typename: String,
    pub offset: u64,
    pub size: u64,
    pub alignment: u64,
    pub largest_niche: Option<Niche>,
}

/// One variant of an enum, with its fields in the order of declaration.
#[derive(Debug)]
pub struct Variant {
    pub name: String,
    pub size: u64,
    pub alignment: u64,
    pub fields: Vec<Field>,
    pub discriminant: u128,
}

/// How the tag encodes the variant.
#[derive(Debug, Clone, Copy)]
pub enum TagEncoding {
    Direct,
    Niche {
        untagged_variant: usize,
        niche_variants_start: usize,
        niche_variants_end: usize,
        niche_start: u128,
    },
}

/// The variants of an enum.  `payload_sizes` are the sizes in bytes that the layout of the
/// whole enum records for its variants.
#[derive(Debug)]
pub enum Variants {
    Empty,
    Single { name: String, fields: Vec<Field> },
    Multiple {
        tag: Scalar,
        tag_encoding: TagEncoding,
        tag_field: usize,
        tag_offset: u64,
        payload_sizes: Vec<u64>,
        variants: Vec<Variant>,
    },
}

/// What is inside a type.
#[derive(Debug)]
pub enum Shape {
    Enum(Variants),
    Struct(Vec<Field>),
    Other,
}

/// The compiler's layout of one type.
#[derive(Debug)]
pub struct Layout {
    pub size: u64,
    pub alignment: u64,
    pub largest_niche: Option<Niche>,
    pub shape: Shape,
}

// ── niches ─────────────────────────────────────────────────

/// The name under which a representation is shown.
pub open spec fn primitive_name(p: Primitive) -> Seq<char> {
    match p {
        Primitive::Int(Integer::I8, true) => "i8"@,
        Primitive::Int(Integer::I16, true) => "i16"@,
        Primitive::Int(Integer::I32, true) => "i32"@,
        Primitive::Int(Integer::I64, true) => "i64"@,
        Primitive::Int(Integer::I128, true) => "i128"@,
        Primitive::Int(Integer::I8, false) => "u8"@,
        Primitive::Int(Integer::I16, false) => "u16"@,
        Primitive::Int(Integer::I32, false) => "u32"@,
        Primitive::Int(Integer::I64, false) => "u64"@,
        Primitive::Int(Integer::I128, false) => "u128"@,
        Primitive::Float(Float::F16) => "f16"@,
        Primitive::Float(Float::F32) => "f32"@,
        Primitive::Float(Float::F64) => "f64"@,
        Primitive::Float(Float::F128) => "f128"@,
        Primitive::Pointer => "ptr"@,
    }
}

/// Names a representation.
pub fn primitive_type_name(prim: Primitive) -> (r: String)
    ensures
        r@ == primitive_name(prim),
{
    let name = match prim {
        Primitive::Int(Integer::I8, true) => "i8",
        Primitive::Int(Integer::I16, true) => "i16",
        Primitive::Int(Integer::I32, true) => "i32",
        Primitive::Int(Integer::I64, true) => "i64",
        Primitive::Int(Integer::I128, true) => "i128",
        Primitive::Int(Integer::I8, false) => "u8",
        Primitive::Int(Integer::I16, false) => "u16",
        Primitive::Int(Integer::I32, false) => "u32",
        Primitive::Int(Integer::I64, false) => "u64",
        Primitive::Int(Integer::I128, false) => "u128",
        Primitive::Float(Float::F16) => "f16",
        Primitive::Float(Float::F32) => "f32",
        Primitive::Float(Float::F64) => "f64",
        Primitive::Float(Float::F128) => "f128",
        Primitive::Pointer => "ptr",
    };
    name.to_owned()
}

/// What is reported of a niche that is found in the named field.
pub open spec fn niche_of(n: Niche, field_name: Option<Seq<char>>) -> NicheView {
    NicheView {
        offset: n.offset,
        field_name,
        value_type: primitive_name(n.value),
        value_size: n.value_size,
        valid_range_start: n.valid_range.start,
        valid_range_end: n.valid_range.end,
        available: n.available,
    }
}

/// What is reported of a niche, where there is one.
pub open spec fn niche_of_opt(n: Option<Niche>, field_name: Option<Seq<char>>) -> Option<
    NicheView,
> {
    match n {
        Some(x) => Some(niche_of(x, field_name)),
        None => None,
    }
}

/// Puts a niche together from its parts.
pub fn build_niche_info(
    offset: u64,
    prim: Primitive,
    value_size: u64,
    valid_range: WrappingRange,
    available: u128,
    field_name: Option<String>,
) -> (r: NicheInfo)
    ensures
        r@ == niche_of(
            (Niche { offset, value: prim, value_size, valid_range, available }),
            opt_view(field_name),
        ),
{
    NicheInfo {
        offset,
        field_name,
        value_type: primitive_type_name(prim),
        value_size,
        valid_range_start: valid_range.start,
        valid_range_end: valid_range.end,
        available,
    }
}

/// Reports a niche.
pub fn convert_niche(niche: &Niche, field_name: Option<String>) -> (r: NicheInfo)
    ensures
        r@ == niche_of(*niche, opt_view(field_name)),
{
    build_niche_info(
        niche.offset,
        niche.value,
        niche.value_size,
        niche.valid_range,
        niche.available,
        field_name,
    )
}

impl Scalar {
    /// The size of the scalar in bytes.
    pub open spec fn bytes(self) -> u64 {
        match self {
            Scalar::Initialized { value_size, .. } => value_size,
            Scalar::Union { value_size, .. } => value_size,
        }
    }

    /// The scalar at a given offset, taken as a niche.
    pub open spec fn as_niche(self, offset: u64) -> Niche {
        match self {
            Scalar::Initialized { value, value_size, valid_range, available } => Niche {
                offset,
                value,
                value_size,
                valid_range,
                available,
            },
            Scalar::Union { value, value_size, full_range, available } => Niche {
                offset,
                value,
                value_size,
                valid_range: full_range,
                available,
            },
        }
    }

    /// The size of the scalar in bytes.
    pub fn size(&self) -> (r: u64)
        ensures
            r == self.bytes(),
    {
        match *self {
            Scalar::Initialized { value_size, .. } => value_size,
            Scalar::Union { value_size, .. } => value_size,
        }
    }
}

/// Reports the tag of an enum as a niche.
pub fn niche_info_from_tag(tag: &Scalar, tag_offset: u64, field_name: Option<String>) -> (r:
    NicheInfo)
    ensures
        r@ == niche_of(tag.as_niche(tag_offset), opt_view(field_name)),
{
    match *tag {
        Scalar::Initialized { value, value_size, valid_range, available } => build_niche_info(
            tag_offset,
            value,
            value_size,
            valid_range,
            available,
            field_name,
        ),
        Scalar::Union { value, value_size, full_range, available } => build_niche_info(
            tag_offset,
            value,
            value_size,
            full_range,
            available,
            field_name,
        ),
    }
}

// ── fields ─────────────────────────────────────────────────

/// What is reported of a field.
pub open spec fn field_of(f: Field) -> FieldView {
    FieldView {
        name: f.name@,
        typename: f.typename@,
        offset: f.offset,
        size: f.size,
        alignment: f.alignment,
        children: Seq::empty(),
        largest_niche: niche_of_opt(f.largest_niche, Some(f.name@)),
    }
}

/// `sorted` with `f` put behind every field that starts at or before it.
pub open spec fn insert_by_offset(sorted: Seq<FieldView>, f: FieldView) -> Seq<FieldView>
    decreases sorted.len(),
{
    if sorted.len() == 0 || sorted.last().offset <= f.offset {
        sorted.push(f)
    } else {
        insert_by_offset(sorted.drop_last(), f).push(sorted.last())
    }
}

/// What is reported of the fields of a variant: each of them, by offset, and fields at the
/// same offset in the order of declaration.
pub open spec fn fields_of(fields: Seq<Field>) -> Seq<FieldView>
    decreases fields.len(),
{
    if fields.len() == 0 {
        Seq::empty()
    } else {
        insert_by_offset(fields_of(fields.drop_last()), field_of(fields.last()))
    }
}

fn convert_field(f: &Field) -> (r: FieldLayout)
    ensures
        r@ == field_of(*f),
{
    let largest_niche = match &f.largest_niche {
        Some(n) => Some(convert_niche(n, Some(f.name.clone()))),
        None => None,
    };
    let r = FieldLayout {
        name: f.name.clone(),
        typename: f.typename.clone(),
        offset: f.offset,
        size: f.size,
        alignment: f.alignment,
        children: Vec::new(),
        largest_niche,
    };
    assert(r@.children =~= Seq::empty());
    r
}

/// Inserting from the position that the scan found.
proof fn lemma_insert_at(sorted: Seq<FieldView>, f: FieldView, k: int)
    requires
        0 <= k <= sorted.len(),
        k > 0 ==> sorted[k - 1].offset <= f.offset,
        forall|j: int| k <= j < sorted.len() ==> (#[trigger] sorted[j]).offset > f.offset,
    ensures
        insert_by_offset(sorted, f) == sorted.insert(k, f),
    decreases sorted.len(),
{
    if k == sorted.len() {
        assert(sorted.insert(k, f) =~= sorted.push(f));
    } else {
        let t = sorted.drop_last();
        assert(sorted[sorted.len() - 1].offset > f.offset);
        assert forall|j: int| k <= j < t.len() implies (#[trigger] t[j]).offset > f.offset by {
            assert(t[j] == sorted[j]);
        }
        lemma_insert_at(t, f, k);
        assert(t.insert(k, f).push(sorted.last()) =~= sorted.insert(k, f));
    }
}

/// Reports the fields of a variant, by offset.
pub fn variant_fields(fields: &Vec<Field>) -> (r: Vec<FieldLayout>)
    ensures
        field_views(r@) == fields_of(fields@),
{
    let mut out: Vec<FieldLayout> = Vec::new();
    assert(field_views(out@) =~= Seq::empty());
    for i in 0..fields.len()
        invariant
            field_views(out@) == fields_of(fields@.take(i as int)),
    {
        let f = convert_field(&fields[i]);
        let mut k: usize = out.len();
        let ghost sorted = field_views(out@);
        while k > 0 && out[k - 1].offset > f.offset
            invariant
                sorted == field_views(out@),
                k <= out@.len(),
                forall|j: int| k <= j < sorted.len() ==> (#[trigger] sorted[j]).offset > f.offset,
            decreases k,
        {
            assert(sorted[k - 1] == out@[k - 1]@);
            k = k - 1;
        }
        proof {
            if k > 0 {
                assert(sorted[k - 1] == out@[k - 1]@);
            }
            lemma_insert_at(sorted, f@, k as int);
            assert(fields@.take(i + 1).drop_last() =~= fields@.take(i as int));
            assert(field_views(out@.insert(k as int, f)) =~= sorted.insert(k as int, f@));
        }
        out.insert(k, f);
    }
    assert(fields@.take(fields@.len() as int) =~= fields@);
    out
}

// ── structs ────────────────────────────────────────────────

/// The number of bytes that the fields take together.
pub open spec fn total_size(fields: Seq<Field>) -> nat
    decreases fields.len(),
{
    if fields.len() == 0 {
        0
    } else {
        total_size(fields.drop_last()) + fields.last().size as nat
    }
}

/// `a - b`, or zero where that is negative.
pub open spec fn at_least_zero(a: int, b: int) -> u64 {
    if a >= b {
        (a - b) as u64
    } else {
        0
    }
}

/// What is reported of a struct.
pub open spec fn struct_of(fields: Seq<Field>, size: u64) -> KindView {
    KindView::Struct {
        fields: fields_of(fields),
        padding_bytes: at_least_zero(size as int, total_size(fields) as int),
    }
}

proof fn lemma_total_size_prefix(fields: Seq<Field>, i: int)
    requires
        0 <= i <= fields.len(),
    ensures
        total_size(fields.take(i)) <= total_size(fields),
    decreases fields.len() - i,
{
    if i < fields.len() {
        lemma_total_size_prefix(fields, i + 1);
        assert(fields.take(i + 1).drop_last() =~= fields.take(i));
    } else {
        assert(fields.take(i) =~= fields);
    }
}

/// Reports a struct.
pub fn convert_struct(
    name: &str,
    fields: &Vec<Field>,
    size: u64,
    alignment: u64,
    largest_niche: Option<NicheInfo>,
) -> (r: TypeLayout)
    requires
        total_size(fields@) <= u64::MAX,
    ensures
        r@ == (TypeView {
            name: name@,
            size,
            alignment,
            hover_info: None,
            largest_niche: niche_opt_view(largest_niche),
            kind: struct_of(fields@, size),
        }),
{
    let shown = variant_fields(fields);
    let mut used: u64 = 0;
    for i in 0..fields.len()
        invariant
            used == total_size(fields@.take(i as int)),
            total_size(fields@) <= u64::MAX,
    {
        proof {
            lemma_total_size_prefix(fields@, i + 1);
            assert(fields@.take(i + 1).drop_last() =~= fields@.take(i as int));
        }
        used = used + fields[i].size;
    }
    assert(fields@.take(fields@.len() as int) =~= fields@);
    TypeLayout {
        name: name.to_owned(),
        size,
        alignment,
        hover_info: None,
        largest_niche,
        kind: TypeLayoutKind::Struct(
            StructLayout { fields: shown, padding_bytes: size.saturating_sub(used) },
        ),
    }
}

// ── enums ──────────────────────────────────────────────────

/// The largest of the sizes, or zero where there is none.
pub open spec fn max_size(sizes: Seq<u64>) -> u64
    decreases sizes.len(),
{
    if sizes.len() == 0 {
        0
    } else if max_size(sizes.drop_last()) >= sizes.last() {
        max_size(sizes.drop_last())
    } else {
        sizes.last()
    }
}

/// The name of the first field at the given offset.
pub open spec fn field_name_at(fields: Seq<Field>, offset: u64) -> Option<Seq<char>>
    decreases fields.len(),
{
    if fields.len() == 0 {
        None
    } else if fields[0].offset == offset {
        Some(fields[0].name@)
    } else {
        field_name_at(fields.drop_first(), offset)
    }
}

/// What is reported of one of several variants.
pub open spec fn variant_of(v: Variant, direct: bool) -> VariantView {
    VariantView {
        name: v.name@,
        size: v.size,
        alignment: v.alignment,
        fields: fields_of(v.fields@),
        discr_value: if direct {
            Some(v.discriminant)
        } else {
            None
        },
    }
}

/// How many values a niche leaves.
pub open spec fn available_in(n: Option<NicheView>) -> Option<u128> {
    match n {
        Some(x) => Some(x.available),
        None => None,
    }
}

impl Variants {
    /// The untagged variant is one of the variants, and the largest payload with a tag
    /// beside it has a size.
    pub open spec fn fits(self) -> bool {
        match self {
            Variants::Multiple {
                tag,
                tag_encoding: TagEncoding::Niche { untagged_variant, .. },
                payload_sizes,
                variants,
                ..
            } => {
                &&& untagged_variant < variants@.len()
                &&& max_size(payload_sizes@) + tag.bytes() <= u64::MAX
            },
            _ => true,
        }
    }
}

/// The strategy of an enum of several variants.
pub open spec fn strategy_of(
    tag: Scalar,
    tag_encoding: TagEncoding,
    payload_sizes: Seq<u64>,
    size: u64,
) -> EnumStrategy {
    match tag_encoding {
        TagEncoding::Direct => EnumStrategy::Tagged { discriminant_size: tag.bytes() },
        TagEncoding::Niche { .. } => {
            let tagged_size = max_size(payload_sizes) + tag.bytes();
            EnumStrategy::NicheOptimized {
                savings: at_least_zero(tagged_size, size as int),
                tagged_size: tagged_size as u64,
            }
        },
    }
}

/// Where an enum of several variants stores which one it is.
pub open spec fn discriminant_of(
    tag: Scalar,
    tag_encoding: TagEncoding,
    tag_field: usize,
    tag_offset: u64,
    variants: Seq<Variant>,
) -> DiscriminantView {
    match tag_encoding {
        TagEncoding::Direct => DiscriminantView::Direct {
            tag_field_index: tag_field,
            tag_offset,
            tag_size: tag.bytes(),
        },
        TagEncoding::Niche {
            untagged_variant,
            niche_variants_start,
            niche_variants_end,
            niche_start,
        } => DiscriminantView::Niche {
            tag_field_index: tag_field,
            tag_offset,
            untagged_variant: variants[untagged_variant as int].name@,
            niche_start,
            niche_variants_start,
            niche_variants_end,
        },
    }
}

/// The niche that an enum of several variants is encoded in.
pub open spec fn encoding_niche(
    tag: Scalar,
    tag_encoding: TagEncoding,
    tag_offset: u64,
    variants: Seq<Variant>,
) -> Option<NicheView> {
    match tag_encoding {
        TagEncoding::Direct => None,
        TagEncoding::Niche { untagged_variant, .. } => Some(
            niche_of(
                tag.as_niche(tag_offset),
                field_name_at(variants[untagged_variant as int].fields@, tag_offset),
            ),
        ),
    }
}

/// What is reported of an enum of the given size and alignment, whose layout has the given
/// largest niche.
pub open spec fn enum_of(
    v: Variants,
    size: u64,
    alignment: u64,
    largest: Option<NicheView>,
) -> EnumView {
    match v {
        Variants::Empty => EnumView {
            strategy: EnumStrategy::Single,
            remaining_niches: available_in(largest),
            variants: Seq::empty(),
            niche: largest,
            discriminant: None,
        },
        Variants::Single { name, fields } => EnumView {
            strategy: EnumStrategy::Single,
            remaining_niches: available_in(largest),
            variants: seq![
                VariantView {
                    name: name@,
                    size,
                    alignment,
                    fields: fields_of(fields@),
                    discr_value: None,
                },
            ],
            niche: largest,
            discriminant: None,
        },
        Variants::Multiple {
            tag,
            tag_encoding,
            tag_field,
            tag_offset,
            payload_sizes,
            variants,
        } => EnumView {
            strategy: strategy_of(tag, tag_encoding, payload_sizes@, size),
            remaining_niches: match tag_encoding {
                TagEncoding::Direct => available_in(largest),
                TagEncoding::Niche { .. } => Some(tag.as_niche(tag_offset).available),
            },
            variants: variants@.map_values(
                |x: Variant| variant_of(x, tag_encoding == TagEncoding::Direct),
            ),
            niche: encoding_niche(tag, tag_encoding, tag_offset, variants@),
            discriminant: Some(
                discriminant_of(tag, tag_encoding, tag_field, tag_offset, variants@),
            ),
        },
    }
}

/// Finds the field of the untagged variant that holds the tag.
pub fn resolve_niche_field_name(fields: &Vec<Field>, tag_offset: u64) -> (r: Option<String>)
    ensures
        opt_view(r) == field_name_at(fields@, tag_offset),
{
    assert(fields@.skip(0) =~= fields@);
    for i in 0..fields.len()
        invariant
            field_name_at(fields@, tag_offset) == field_name_at(fields@.skip(i as int), tag_offset),
    {
        assert(fields@.skip(i as int)[0] == fields@[i as int]);
        assert(fields@.skip(i as int).drop_first() =~= fields@.skip(i + 1));
        if fields[i].offset == tag_offset {
            return Some(fields[i].name.clone());
        }
    }
    None
}

fn largest(sizes: &Vec<u64>) -> (r: u64)
    ensures
        r == max_size(sizes@),
{
    let mut m: u64 = 0;
    for i in 0..sizes.len()
        invariant
            m == max_size(sizes@.take(i as int)),
    {
        assert(sizes@.take(i + 1).drop_last() =~= sizes@.take(i as int));
        if sizes[i] > m {
            m = sizes[i];
        }
    }
    assert(sizes@.take(sizes@.len() as int) =~= sizes@);
    m
}

fn convert_variants(variants: &Vec<Variant>, direct: bool) -> (r: Vec<VariantLayout>)
    ensures
        r@.map_values(|v: VariantLayout| v@) == variants@.map_values(
            |x: Variant| variant_of(x, direct),
        ),
{
    let mut out: Vec<VariantLayout> = Vec::new();
    for i in 0..variants.len()
        invariant
            out@.len() == i,
            forall|j: int|
                0 <= j < i ==> (#[trigger] out@[j])@ == variant_of(variants@[j], direct),
    {
        let v = &variants[i];
        out.push(
            VariantLayout {
                name: v.name.clone(),
                size: v.size,
                alignment: v.alignment,
                fields: variant_fields(&v.fields),
                discr_value: if direct {
                    Some(v.discriminant)
                } else {
                    None
                },
            },
        );
    }
    assert(out@.map_values(|v: VariantLayout| v@) =~= variants@.map_values(
        |x: Variant| variant_of(x, direct),
    ));
    out
}

/// Reports an enum.
pub fn convert_enum(
    name: &str,
    layout_variants: &Variants,
    size: u64,
    alignment: u64,
    largest_niche: Option<NicheInfo>,
) -> (r: TypeLayout)
    requires
        layout_variants.fits(),
    ensures
        r@ == (TypeView {
            name: name@,
            size,
            alignment,
            hover_info: None,
            largest_niche: niche_opt_view(largest_niche),
            kind: KindView::Enum(
                enum_of(*layout_variants, size, alignment, niche_opt_view(largest_niche)),
            ),
        }),
{
    let remaining = match &largest_niche {
        Some(n) => Some(n.available),
        None => None,
    };
    let own_niche = match &largest_niche {
        Some(n) => Some(n.clone()),
        None => None,
    };
    let enum_layout = match layout_variants {
        Variants::Empty => {
            let e = EnumLayout {
                strategy: EnumStrategy::Single,
                remaining_niches: remaining,
                variants: Vec::new(),
                niche: own_niche,
                discriminant: None,
            };
            assert(e@.variants =~= Seq::empty());
            e
        },
        Variants::Single { name: variant_name, fields } => {
            let mut variants: Vec<VariantLayout> = Vec::new();
            variants.push(
                VariantLayout {
                    name: variant_name.clone(),
                    size,
                    alignment,
                    fields: variant_fields(fields),
                    discr_value: None,
                },
            );
            let e = EnumLayout {
                strategy: EnumStrategy::Single,
                remaining_niches: remaining,
                variants,
                niche: own_niche,
                discriminant: None,
            };
            assert(e@.variants =~= enum_of(
                *layout_variants,
                size,
                alignment,
                niche_opt_view(largest_niche),
            ).variants);
            e
        },
        Variants::Multiple {
            tag,
            tag_encoding,
            tag_field,
            tag_offset,
            payload_sizes,
            variants,
        } => {
            let tag_size = tag.size();
            match tag_encoding {
                TagEncoding::Direct => EnumLayout {
                    strategy: EnumStrategy::Tagged { discriminant_size: tag_size },
                    remaining_niches: remaining,
                    variants: convert_variants(variants, true),
                    niche: None,
                    discriminant: Some(
                        DiscriminantInfo::Direct {
                            tag_field_index: *tag_field,
                            tag_offset: *tag_offset,
                            tag_size,
                        },
                    ),
                },
                TagEncoding::Niche {
                    untagged_variant,
                    niche_variants_start,
                    niche_variants_end,
                    niche_start,
                } => {
                    let untagged = &variants[*untagged_variant];
                    let hypothetical_tagged: u64 = largest(payload_sizes) + tag_size;
                    let field_name = resolve_niche_field_name(&untagged.fields, *tag_offset);
                    let niche_info = niche_info_from_tag(tag, *tag_offset, field_name);
                    EnumLayout {
                        strategy: EnumStrategy::NicheOptimized {
                            savings: hypothetical_tagged.saturating_sub(size),
                            tagged_size: hypothetical_tagged,
                        },
                        remaining_niches: Some(niche_info.available),
                        variants: convert_variants(variants, false),
                        niche: Some(niche_info),
                        discriminant: Some(
                            DiscriminantInfo::Niche {
                                tag_field_index: *tag_field,
                                tag_offset: *tag_offset,
                                untagged_variant: untagged.name.clone(),
                                niche_start: *niche_start,
                                niche_variants_start: *niche_variants_start,
                                niche_variants_end: *niche_variants_end,
                            },
                        ),
                    }
                },
            }
        },
    };
    TypeLayout {
        name: name.to_owned(),
        size,
        alignment,
        hover_info: None,
        largest_niche,
        kind: TypeLayoutKind::Enum(enum_layout),
    }
}

// ── types ──────────────────────────────────────────────────

impl Layout {
    /// The sizes that the conversion adds up can be counted, and its indices point at
    /// something.
    pub open spec fn fits(self) -> bool {
        match self.shape {
            Shape::Enum(v) => v.fits(),
            Shape::Struct(fields) => total_size(fields@) <= u64::MAX,
            Shape::Other => true,
        }
    }
}

fn sizes_countable(fields: &Vec<Field>) -> (r: bool)
    ensures
        r == (total_size(fields@) <= u64::MAX),
{
    let mut used: u64 = 0;
    for i in 0..fields.len()
        invariant
            used == total_size(fields@.take(i as int)),
    {
        proof {
            assert(fields@.take(i + 1).drop_last() =~= fields@.take(i as int));
            lemma_total_size_prefix(fields@, i + 1);
        }
        if fields[i].size > u64::MAX - used {
            return false;
        }
        used = used + fields[i].size;
    }
    assert(fields@.take(fields@.len() as int) =~= fields@);
    true
}

impl Layout {
    /// Tells whether the layout can be converted.
    pub fn is_convertible(&self) -> (r: bool)
        ensures
            r == self.fits(),
    {
        match &self.shape {
            Shape::Enum(
                Variants::Multiple {
                    tag,
                    tag_encoding: TagEncoding::Niche { untagged_variant, .. },
                    payload_sizes,
                    variants,
                    ..
                },
            ) => {
                *untagged_variant < variants.len() && largest(payload_sizes) <= u64::MAX - tag.size()
            },
            Shape::Enum(_) => true,
            Shape::Struct(fields) => sizes_countable(fields),
            Shape::Other => true,
        }
    }
}

/// What is reported of a type.
pub open spec fn layout_of(name: Seq<char>, layout: Layout) -> TypeView {
    TypeView {
        name,
        size: layout.size,
        alignment: layout.alignment,
        hover_info: None,
        largest_niche: niche_of_opt(layout.largest_niche, None),
        kind: match layout.shape {
            Shape::Enum(v) => KindView::Enum(
                enum_of(
                    v,
                    layout.size,
                    layout.alignment,
                    niche_of_opt(layout.largest_niche, None),
                ),
            ),
            Shape::Struct(fields) => struct_of(fields@, layout.size),
            Shape::Other => KindView::Opaque,
        },
    }
}

/// Reports a type under the given name.
pub fn convert_layout(name: &str, layout: &Layout) -> (r: TypeLayout)
    requires
        layout.fits(),
    ensures
        r@ == layout_of(name@, *layout),
{
    let largest_niche = match &layout.largest_niche {
        Some(n) => Some(convert_niche(n, None)),
        None => None,
    };
    match &layout.shape {
        Shape::Enum(variants) => convert_enum(
            name,
            variants,
            layout.size,
            layout.alignment,
            largest_niche,
        ),
        Shape::Struct(fields) => convert_struct(
            name,
            fields,
            layout.size,
            layout.alignment,
            largest_niche,
        ),
        Shape::Other => TypeLayout {
            name: name.to_owned(),
            size: layout.size,
            alignment: layout.alignment,
            hover_info: None,
            largest_niche,
            kind: TypeLayoutKind::Opaque,
        },
    }
}

// ── laws ───────────────────────────────────────────────────

/// The fields come by their offsets.
pub open spec fn by_offset(fields: Seq<FieldView>) -> bool {
    forall|i: int, j: int|
        0 <= i <= j < fields.len() ==> (#[trigger] fields[i]).offset <= (#[trigger] fields[j]).offset
}

/// The fields at one offset, in their order.
pub open spec fn at_offset(fields: Seq<FieldView>, offset: u64) -> Seq<FieldView>
    decreases fields.len(),
{
    if fields.len() == 0 {
        Seq::empty()
    } else if fields.last().offset == offset {
        at_offset(fields.drop_last(), offset).push(fields.last())
    } else {
        at_offset(fields.drop_last(), offset)
    }
}

proof fn lemma_insert_by_offset(sorted: Seq<FieldView>, f: FieldView, offset: u64)
    requires
        by_offset(sorted),
    ensures
        by_offset(insert_by_offset(sorted, f)),
        insert_by_offset(sorted, f).len() == sorted.len() + 1,
        sorted.len() > 0 ==> insert_by_offset(sorted, f).last().offset == (if sorted.last().offset
            <= f.offset {
            f.offset
        } else {
            sorted.last().offset
        }),
        at_offset(insert_by_offset(sorted, f), offset) == (if f.offset == offset {
            at_offset(sorted, offset).push(f)
        } else {
            at_offset(sorted, offset)
        }),
    decreases sorted.len(),
{
    let r = insert_by_offset(sorted, f);
    if sorted.len() == 0 || sorted.last().offset <= f.offset {
        assert(sorted.push(f).drop_last() =~= sorted);
        assert forall|i: int, j: int| 0 <= i <= j < r.len() implies (#[trigger] r[i]).offset <= (
        #[trigger] r[j]).offset by {
            if j == sorted.len() && i < j {
                assert(sorted[i].offset <= sorted[sorted.len() - 1].offset);
            }
        }
    } else {
        let t = sorted.drop_last();
        assert forall|i: int, j: int| 0 <= i <= j < t.len() implies (#[trigger] t[i]).offset <= (
        #[trigger] t[j]).offset by {
            assert(t[i] == sorted[i] && t[j] == sorted[j]);
        }
        lemma_insert_by_offset(t, f, offset);
        let inner = insert_by_offset(t, f);
        assert(r.drop_last() =~= inner);
        assert(r.last() == sorted.last());
        if t.len() > 0 {
            assert(t.last() == sorted[sorted.len() - 2]);
            assert(sorted[sorted.len() - 2].offset <= sorted[sorted.len() - 1].offset);
        }
        assert forall|i: int, j: int| 0 <= i <= j < r.len() implies (#[trigger] r[i]).offset <= (
        #[trigger] r[j]).offset by {
            if j < inner.len() {
                assert(inner[i].offset <= inner[j].offset);
            } else if i < inner.len() {
                assert(inner[i].offset <= inner[inner.len() - 1].offset);
            }
        }
    }
}

/// The fields of a variant are reported by offset, none is lost or added, and those at one
/// offset keep the order of their declaration.
pub proof fn law_fields_are_sorted(fields: Seq<Field>, offset: u64)
    ensures
        by_offset(fields_of(fields)),
        fields_of(fields).len() == fields.len(),
        at_offset(fields_of(fields), offset) == at_offset(
            fields.map_values(|f: Field| field_of(f)),
            offset,
        ),
    decreases fields.len(),
{
    let shown = fields.map_values(|f: Field| field_of(f));
    if fields.len() > 0 {
        let t = fields.drop_last();
        law_fields_are_sorted(t, offset);
        lemma_insert_by_offset(fields_of(t), field_of(fields.last()), offset);
        assert(shown.drop_last() =~= t.map_values(|f: Field| field_of(f)));
    } else {
        assert(shown =~= Seq::empty());
    }
}

/// The bytes of a struct are those of its fields and its padding, where the fields fit in it.
pub proof fn law_padding_fills_the_struct(fields: Seq<Field>, size: u64)
    requires
        total_size(fields) <= size,
    ensures
        match struct_of(fields, size) {
            KindView::Struct { padding_bytes, .. } => padding_bytes + total_size(fields) == size,
            _ => false,
        },
{
}

// ── what the compiler said is what is shown ────────────────

/// The numbers of a niche, and the name of its representation.
pub struct NicheFacts {
    pub offset: u64,
    pub value_type: Seq<char>,
    pub value_size: u64,
    pub start: u128,
    pub end: u128,
    pub available: u128,
}

/// What the compiler said of a niche.
pub open spec fn given_niche(n: Niche) -> NicheFacts {
    NicheFacts {
        offset: n.offset,
        value_type: primitive_name(n.value),
        value_size: n.value_size,
        start: n.valid_range.start,
        end: n.valid_range.end,
        available: n.available,
    }
}

/// What is shown of a niche.
pub open spec fn shown_niche(n: NicheView) -> NicheFacts {
    NicheFacts {
        offset: n.offset,
        value_type: n.value_type,
        value_size: n.value_size,
        start: n.valid_range_start,
        end: n.valid_range_end,
        available: n.available,
    }
}

/// All that there is to say of a field.
pub struct FieldFacts {
    pub name: Seq<char>,
    pub typename: Seq<char>,
    pub offset: u64,
    pub size: u64,
    pub alignment: u64,
    pub niche: Option<NicheFacts>,
}

/// What the compiler said of a field.
pub open spec fn given_field(f: Field) -> FieldFacts {
    FieldFacts {
        name: f.name@,
        typename: f.typename@,
        offset: f.offset,
        size: f.size,
        alignment: f.alignment,
        niche: match f.largest_niche {
            Some(n) => Some(given_niche(n)),
            None => None,
        },
    }
}

/// What is shown of a field.
pub open spec fn shown_field(f: FieldView) -> FieldFacts {
    FieldFacts {
        name: f.name,
        typename: f.typename,
        offset: f.offset,
        size: f.size,
        alignment: f.alignment,
        niche: match f.largest_niche {
            Some(n) => Some(shown_niche(n)),
            None => None,
        },
    }
}

/// What the compiler said of fields.
pub open spec fn given_fields(fields: Seq<Field>) -> Multiset<FieldFacts> {
    fields.map_values(|f: Field| given_field(f)).to_multiset()
}

/// What is shown of fields.
pub open spec fn shown_fields(fields: Seq<FieldView>) -> Multiset<FieldFacts> {
    fields.map_values(|f: FieldView| shown_field(f)).to_multiset()
}

/// The sum of the sizes that are shown.
pub open spec fn shown_bytes(fields: Seq<FieldView>) -> nat
    decreases fields.len(),
{
    if fields.len() == 0 {
        0
    } else {
        shown_bytes(fields.drop_last()) + fields.last().size as nat
    }
}

/// The sum of the sizes that the compiler gave.
pub open spec fn given_bytes(fields: Seq<Field>) -> nat
    decreases fields.len(),
{
    if fields.len() == 0 {
        0
    } else {
        given_bytes(fields.drop_last()) + fields.last().size as nat
    }
}

/// Every niche of the fields is named after its field, and no field has fields inside.
pub open spec fn niches_named(fields: Seq<FieldView>) -> bool {
    forall|i: int|
        0 <= i < fields.len() ==> {
            &&& (#[trigger] fields[i]).children.len() == 0
            &&& fields[i].largest_niche matches Some(n) ==> n.field_name == Some(fields[i].name)
        }
}

proof fn lemma_shown_push(fields: Seq<FieldView>, f: FieldView)
    ensures
        shown_fields(fields.push(f)) == shown_fields(fields).insert(shown_field(f)),
        shown_bytes(fields.push(f)) == shown_bytes(fields) + f.size,
        niches_named(fields.push(f)) == (niches_named(fields) && niches_named(seq![f])),
{
    broadcast use vstd::seq_lib::group_to_multiset_ensures;

    let shown = |x: FieldView| shown_field(x);
    assert(fields.push(f).map_values(shown) =~= fields.map_values(shown).push(shown_field(f)));
    assert(fields.push(f).drop_last() =~= fields);
    let all = fields.push(f);
    if niches_named(all) {
        assert forall|i: int| 0 <= i < fields.len() implies {
            &&& (#[trigger] fields[i]).children.len() == 0
            &&& fields[i].largest_niche matches Some(n) ==> n.field_name == Some(fields[i].name)
        } by {
            assert(all[i] == fields[i]);
        }
        assert(all[fields.len() as int] == f);
    }
    if niches_named(fields) && niches_named(seq![f]) {
        assert(seq![f][0] == f);
    }
}

proof fn lemma_shown_insert(sorted: Seq<FieldView>, f: FieldView)
    ensures
        shown_fields(insert_by_offset(sorted, f)) == shown_fields(sorted).insert(shown_field(f)),
        shown_bytes(insert_by_offset(sorted, f)) == shown_bytes(sorted) + f.size,
        niches_named(sorted) && niches_named(seq![f]) ==> niches_named(insert_by_offset(sorted, f)),
    decreases sorted.len(),
{
    if sorted.len() == 0 || sorted.last().offset <= f.offset {
        lemma_shown_push(sorted, f);
    } else {
        let t = sorted.drop_last();
        lemma_shown_insert(t, f);
        lemma_shown_push(insert_by_offset(t, f), sorted.last());
        lemma_shown_push(t, sorted.last());
        assert(t.push(sorted.last()) =~= sorted);
        let (a, b) = (shown_field(f), shown_field(sorted.last()));
        let m = shown_fields(t);
        assert(m.insert(a).insert(b) =~= m.insert(b).insert(a));
    }
}

proof fn lemma_shown_fields(fields: Seq<Field>)
    ensures
        shown_fields(fields_of(fields)) == given_fields(fields),
        shown_bytes(fields_of(fields)) == given_bytes(fields),
        niches_named(fields_of(fields)),
    decreases fields.len(),
{
    broadcast use vstd::seq_lib::group_to_multiset_ensures;

    let given = |f: Field| given_field(f);
    if fields.len() > 0 {
        let t = fields.drop_last();
        lemma_shown_fields(t);
        lemma_shown_insert(fields_of(t), field_of(fields.last()));
        assert(fields.map_values(given) =~= t.map_values(given).push(given_field(fields.last())));
        assert(shown_field(field_of(fields.last())) == given_field(fields.last()));
    } else {
        assert(fields.map_values(given) =~= Seq::empty());
        assert(fields_of(fields).map_values(|f: FieldView| shown_field(f)) =~= Seq::empty());
    }
}

/// These fields are shown as the compiler gave them: each with its own name, type, offset, size,
/// alignment and niche, no other, and by offset.
pub open spec fn faithful(shown: Seq<FieldView>, given: Seq<Field>) -> bool {
    &&& shown_fields(shown) == given_fields(given)
    &&& shown_bytes(shown) == given_bytes(given)
    &&& shown.len() == given.len()
    &&& by_offset(shown)
    &&& niches_named(shown)
}

proof fn lemma_faithful(fields: Seq<Field>)
    ensures
        faithful(fields_of(fields), fields),
{
    lemma_shown_fields(fields);
    law_fields_are_sorted(fields, 0);
}

/// A layout is shown under the name that it is asked for, with the compiler's own size, alignment
/// and largest niche, as an enum, a struct or neither as the compiler has it, and without a note.
pub proof fn law_layouts_keep_their_measures(name: Seq<char>, l: Layout)
    ensures
        ({
            let t = layout_of(name, l);
            &&& t.name == name
            &&& t.size == l.size
            &&& t.alignment == l.alignment
            &&& t.hover_info is None
            &&& t.largest_niche is Some == l.largest_niche is Some
            &&& l.largest_niche matches Some(n) ==> shown_niche(t.largest_niche->0) == given_niche(n)
                && t.largest_niche->0.field_name is None
            &&& t.kind is Enum == l.shape is Enum
            &&& t.kind is Struct == l.shape is Struct
            &&& t.kind is Opaque == l.shape is Other
        }),
{
}

/// What is reported of a layout does not depend on the name that it is reported under.
pub proof fn law_names_change_nothing_else(a: Seq<char>, b: Seq<char>, l: Layout)
    ensures
        (TypeView { name: b, ..layout_of(a, l) }) == layout_of(b, l),
{
}

/// The fields of a struct are shown as the compiler gave them, and its bytes are those of the
/// fields that are shown and of its padding; where the fields are larger, there is no padding.
pub proof fn law_structs_show_their_fields(name: Seq<char>, l: Layout)
    requires
        l.shape is Struct,
    ensures
        match (l.shape, layout_of(name, l).kind) {
            (Shape::Struct(given), KindView::Struct { fields, padding_bytes }) => {
                &&& faithful(fields, given@)
                &&& shown_bytes(fields) <= l.size ==> shown_bytes(fields) + padding_bytes == l.size
                &&& shown_bytes(fields) > l.size ==> padding_bytes == 0
            },
            _ => false,
        },
{
    match l.shape {
        Shape::Struct(given) => {
            lemma_faithful(given@);
            lemma_totals(given@);
        },
        _ => {},
    }
}

proof fn lemma_totals(fields: Seq<Field>)
    ensures
        total_size(fields) == given_bytes(fields),
    decreases fields.len(),
{
    if fields.len() > 0 {
        lemma_totals(fields.drop_last());
    }
}

/// Every field that the compiler gave of a struct is among those that are shown.
pub proof fn law_every_field_is_shown(name: Seq<char>, l: Layout, i: int)
    requires
        l.shape matches Shape::Struct(given) && 0 <= i < given@.len(),
    ensures
        match (l.shape, layout_of(name, l).kind) {
            (Shape::Struct(given), KindView::Struct { fields, .. }) => exists|j: int|
                0 <= j < fields.len() && (#[trigger] fields[j]).name == given@[i].name@
                    && fields[j].typename == given@[i].typename@ && fields[j].offset
                    == given@[i].offset && fields[j].size == given@[i].size && fields[j].alignment
                    == given@[i].alignment,
            _ => false,
        },
{
    broadcast use vstd::seq_lib::group_to_multiset_ensures;

    match l.shape {
        Shape::Struct(given) => {
            let fields = fields_of(given@);
            lemma_faithful(given@);
            let facts = given@.map_values(|f: Field| given_field(f));
            let shown = fields.map_values(|f: FieldView| shown_field(f));
            assert(facts[i] == given_field(given@[i]));
            assert(facts.contains(facts[i]));
            assert(facts.to_multiset().contains(facts[i]));
            assert(shown.contains(facts[i]));
            let j = choose|j: int| 0 <= j < shown.len() && shown[j] == facts[i];
            assert(shown[j] == shown_field(fields[j]));
            assert(layout_of(name, l).kind->fields == fields);
            assert(fields[j].name == given@[i].name@ && fields[j].typename == given@[i].typename@);
            assert(fields[j].offset == given@[i].offset && fields[j].size == given@[i].size);
            assert(fields[j].alignment == given@[i].alignment);
        },
        _ => {},
    }
}

// ── how an enum is told ────────────────────────────────────

/// How many values the tag of an enum leaves.
pub open spec fn tag_leaves(tag: Scalar) -> u128 {
    match tag {
        Scalar::Initialized { available, .. } => available,
        Scalar::Union { available, .. } => available,
    }
}

/// Which values the tag of an enum takes.
pub open spec fn tag_takes(tag: Scalar) -> WrappingRange {
    match tag {
        Scalar::Initialized { valid_range, .. } => valid_range,
        Scalar::Union { full_range, .. } => full_range,
    }
}

/// How many bytes the tag of an enum has.
pub open spec fn tag_spans(tag: Scalar) -> u64 {
    match tag {
        Scalar::Initialized { value_size, .. } => value_size,
        Scalar::Union { value_size, .. } => value_size,
    }
}

/// How the tag of an enum is represented.
pub open spec fn tag_holds(tag: Scalar) -> Primitive {
    match tag {
        Scalar::Initialized { value, .. } => value,
        Scalar::Union { value, .. } => value,
    }
}

/// The variants are shown in their order, each with its own name, size, alignment and fields, and
/// with its tag value where tags are stored as they are.
pub open spec fn faithful_variants(
    shown: Seq<VariantView>,
    given: Seq<Variant>,
    direct: bool,
) -> bool {
    &&& shown.len() == given.len()
    &&& forall|i: int|
        0 <= i < given.len() ==> {
            &&& (#[trigger] shown[i]).name == given[i].name@
            &&& shown[i].size == given[i].size
            &&& shown[i].alignment == given[i].alignment
            &&& faithful(shown[i].fields, given[i].fields@)
            &&& direct ==> shown[i].discr_value == Some(given[i].discriminant)
            &&& !direct ==> shown[i].discr_value is None
        }
}

proof fn lemma_faithful_variants(given: Seq<Variant>, direct: bool)
    ensures
        faithful_variants(
            given.map_values(|x: Variant| variant_of(x, direct)),
            given,
            direct,
        ),
{
    let shown = given.map_values(|x: Variant| variant_of(x, direct));
    assert forall|i: int| 0 <= i < given.len() implies {
        &&& (#[trigger] shown[i]).name == given[i].name@
        &&& shown[i].size == given[i].size
        &&& shown[i].alignment == given[i].alignment
        &&& faithful(shown[i].fields, given[i].fields@)
        &&& direct ==> shown[i].discr_value == Some(given[i].discriminant)
        &&& !direct ==> shown[i].discr_value is None
    } by {
        lemma_faithful(given[i].fields@);
    }
}

proof fn lemma_max_size(sizes: Seq<u64>)
    ensures
        forall|i: int| 0 <= i < sizes.len() ==> #[trigger] sizes[i] <= max_size(sizes),
        sizes.len() > 0 ==> exists|i: int|
            0 <= i < sizes.len() && #[trigger] sizes[i] == max_size(sizes),
        sizes.len() == 0 ==> max_size(sizes) == 0,
    decreases sizes.len(),
{
    if sizes.len() > 0 {
        let t = sizes.drop_last();
        let n = sizes.len() - 1;
        lemma_max_size(t);
        assert(sizes[n] == sizes.last());
        assert forall|i: int| 0 <= i < sizes.len() implies #[trigger] sizes[i] <= max_size(sizes) by {
            if i < n {
                assert(t[i] == sizes[i]);
            }
        }
        if max_size(t) >= sizes.last() && t.len() > 0 {
            let i = choose|i: int| 0 <= i < t.len() && #[trigger] t[i] == max_size(t);
            assert(sizes[i] == max_size(sizes));
        }
    }
}

proof fn lemma_field_name_at(fields: Seq<Field>, offset: u64)
    ensures
        match field_name_at(fields, offset) {
            Some(name) => exists|i: int|
                0 <= i < fields.len() && (#[trigger] fields[i]).offset == offset && fields[i].name@
                    == name && forall|k: int| 0 <= k < i ==> (#[trigger] fields[k]).offset != offset,
            None => forall|i: int|
                0 <= i < fields.len() ==> (#[trigger] fields[i]).offset != offset,
        },
    decreases fields.len(),
{
    if fields.len() > 0 && fields[0].offset != offset {
        let t = fields.drop_first();
        lemma_field_name_at(t, offset);
        match field_name_at(t, offset) {
            Some(name) => {
                let i = choose|i: int|
                    0 <= i < t.len() && (#[trigger] t[i]).offset == offset && t[i].name@ == name
                        && forall|k: int| 0 <= k < i ==> (#[trigger] t[k]).offset != offset;
                assert(fields[i + 1] == t[i]);
                assert forall|k: int| 0 <= k < i + 1 implies (#[trigger] fields[k]).offset
                    != offset by {
                    if k > 0 {
                        assert(fields[k] == t[k - 1]);
                    }
                }
            },
            None => {
                assert forall|i: int| 0 <= i < fields.len() implies (#[trigger] fields[i]).offset
                    != offset by {
                    if i > 0 {
                        assert(fields[i] == t[i - 1]);
                    }
                }
            },
        }
    }
}

/// An enum that is encoded in a niche is shown as such.  The niches that remain are those that the
/// tag leaves, and so are those of the niche that is shown beside: the tag where it lies, under the
/// name of the first field of the untagged variant that starts there.  The size that a tag beside
/// the payload would give is that of the tag and the largest payload, and what is saved is the rest
/// over the size of the enum.
pub proof fn law_niche_encoding_is_told(name: Seq<char>, l: Layout)
    requires
        l.fits(),
        l.shape matches Shape::Enum(
            Variants::Multiple { tag_encoding: TagEncoding::Niche { .. }, .. },
        ),
    ensures
        match (l.shape, layout_of(name, l).kind) {
            (
                Shape::Enum(
                    Variants::Multiple {
                        tag,
                        tag_encoding: TagEncoding::Niche {
                            untagged_variant,
                            niche_variants_start,
                            niche_variants_end,
                            niche_start,
                        },
                        tag_field,
                        tag_offset,
                        payload_sizes,
                        variants,
                    },
                ),
                KindView::Enum(e),
            ) => {
                let untagged = variants@[untagged_variant as int];
                &&& e.remaining_niches == Some(tag_leaves(tag))
                &&& e.niche matches Some(n) && {
                    &&& n.available == tag_leaves(tag)
                    &&& n.offset == tag_offset
                    &&& n.value_size == tag_spans(tag)
                    &&& n.valid_range_start == tag_takes(tag).start
                    &&& n.valid_range_end == tag_takes(tag).end
                    &&& n.value_type == primitive_name(tag_holds(tag))
                    &&& match n.field_name {
                        Some(f) => exists|i: int|
                            0 <= i < untagged.fields@.len() && (
                            #[trigger] untagged.fields@[i]).offset == tag_offset
                                && untagged.fields@[i].name@ == f && forall|k: int|
                                0 <= k < i ==> (#[trigger] untagged.fields@[k]).offset
                                    != tag_offset,
                        None => forall|i: int|
                            0 <= i < untagged.fields@.len() ==> (
                            #[trigger] untagged.fields@[i]).offset != tag_offset,
                    }
                }
                &&& e.discriminant == Some(
                    DiscriminantView::Niche {
                        tag_field_index: tag_field,
                        tag_offset,
                        untagged_variant: untagged.name@,
                        niche_start,
                        niche_variants_start,
                        niche_variants_end,
                    },
                )
                &&& faithful_variants(e.variants, variants@, false)
                &&& e.strategy matches EnumStrategy::NicheOptimized { savings, tagged_size } && {
                    &&& forall|i: int|
                        0 <= i < payload_sizes@.len() ==> #[trigger] payload_sizes@[i] + tag_spans(
                            tag,
                        ) <= tagged_size
                    &&& payload_sizes@.len() > 0 ==> exists|i: int|
                        0 <= i < payload_sizes@.len() && #[trigger] payload_sizes@[i] + tag_spans(
                            tag,
                        ) == tagged_size
                    &&& payload_sizes@.len() == 0 ==> tagged_size == tag_spans(tag)
                    &&& tagged_size >= l.size ==> l.size + savings == tagged_size
                    &&& tagged_size < l.size ==> savings == 0
                }
            },
            _ => false,
        },
{
    match l.shape {
        Shape::Enum(
            Variants::Multiple {
                tag,
                tag_encoding: TagEncoding::Niche { untagged_variant, .. },
                tag_offset,
                payload_sizes,
                variants,
                ..
            },
        ) => {
            lemma_max_size(payload_sizes@);
            lemma_field_name_at(variants@[untagged_variant as int].fields@, tag_offset);
            lemma_faithful_variants(variants@, false);
            let e = layout_of(name, l).kind->Enum_0;
            assert(e.variants =~= variants@.map_values(|x: Variant| variant_of(x, false)));
            let m = max_size(payload_sizes@);
            if payload_sizes@.len() > 0 {
                let i = choose|i: int|
                    0 <= i < payload_sizes@.len() && #[trigger] payload_sizes@[i] == m;
                assert(payload_sizes@[i] + tag_spans(tag) == m + tag_spans(tag));
            }
        },
        _ => {},
    }
}

/// An enum with a tag of its own is shown as tagged, with the size and the place of the tag, with
/// the tag value of every variant, and with the niches that the whole enum has.
pub proof fn law_tags_are_told(name: Seq<char>, l: Layout)
    requires
        l.shape matches Shape::Enum(
            Variants::Multiple { tag_encoding: TagEncoding::Direct, .. },
        ),
    ensures
        match (l.shape, layout_of(name, l).kind) {
            (
                Shape::Enum(Variants::Multiple { tag, tag_field, tag_offset, variants, .. }),
                KindView::Enum(e),
            ) => {
                &&& e.strategy == (EnumStrategy::Tagged { discriminant_size: tag_spans(tag) })
                &&& e.discriminant == Some(
                    DiscriminantView::Direct {
                        tag_field_index: tag_field,
                        tag_offset,
                        tag_size: tag_spans(tag),
                    },
                )
                &&& e.niche is None
                &&& e.remaining_niches is Some == l.largest_niche is Some
                &&& l.largest_niche matches Some(n) ==> e.remaining_niches == Some(n.available)
                &&& faithful_variants(e.variants, variants@, true)
            },
            _ => false,
        },
{
    match l.shape {
        Shape::Enum(Variants::Multiple { variants, .. }) => {
            lemma_faithful_variants(variants@, true);
            let e = layout_of(name, l).kind->Enum_0;
            assert(e.variants =~= variants@.map_values(|x: Variant| variant_of(x, true)));
        },
        _ => {},
    }
}

/// An enum of one variant or of none has no discriminant.  It shows the largest niche that it has,
/// and as many niches remain as that one leaves.  The variant is as large as the enum.
pub proof fn law_single_variants_are_told(name: Seq<char>, l: Layout)
    requires
        l.shape matches Shape::Enum(v) && !(v is Multiple),
    ensures
        match (l.shape, layout_of(name, l).kind) {
            (Shape::Enum(v), KindView::Enum(e)) => {
                &&& e.strategy == EnumStrategy::Single
                &&& e.discriminant is None
                &&& e.niche is Some == l.largest_niche is Some
                &&& e.remaining_niches is Some == l.largest_niche is Some
                &&& l.largest_niche matches Some(n) ==> shown_niche(e.niche->0) == given_niche(n)
                    && e.remaining_niches == Some(n.available)
                &&& match v {
                    Variants::Single { name, fields } => {
                        &&& e.variants.len() == 1
                        &&& e.variants[0].name == name@
                        &&& e.variants[0].size == l.size
                        &&& e.variants[0].alignment == l.alignment
                        &&& e.variants[0].discr_value is None
                        &&& faithful(e.variants[0].fields, fields@)
                    },
                    _ => e.variants.len() == 0,
                }
            },
            _ => false,
        },
{
    match l.shape {
        Shape::Enum(Variants::Single { fields, .. }) => lemma_faithful(fields@),
        _ => {},
    }
}

/// The width of an integer in bits.
pub open spec fn int_bits(w: Integer) -> nat {
    match w {
        Integer::I8 => 8,
        Integer::I16 => 16,
        Integer::I32 => 32,
        Integer::I64 => 64,
        Integer::I128 => 128,
    }
}

/// The width of a floating-point number in bits.
pub open spec fn float_bits(w: Float) -> nat {
    match w {
        Float::F16 => 16,
        Float::F32 => 32,
        Float::F64 => 64,
        Float::F128 => 128,
    }
}

/// The name of a representation is a letter for what it is, signed, unsigned or floating, and a
/// numeral for its width in bits.  A pointer is named otherwise.
pub proof fn law_representations_are_named(p: Primitive)
    ensures
        ({
            let name = primitive_name(p);
            &&& match p {
                Primitive::Int(w, signed) => {
                    &&& name.len() > 1
                    &&& name[0] == (if signed {
                        'i'
                    } else {
                        'u'
                    })
                    &&& all_digits(name.skip(1))
                    &&& dec_value(name.skip(1)) == int_bits(w)
                },
                Primitive::Float(w) => {
                    &&& name.len() > 1
                    &&& name[0] == 'f'
                    &&& all_digits(name.skip(1))
                    &&& dec_value(name.skip(1)) == float_bits(w)
                },
                Primitive::Pointer => name == seq!['p', 't', 'r'],
            }
        }),
{
    reveal_strlit("i8");
    reveal_strlit("i16");
    reveal_strlit("i32");
    reveal_strlit("i64");
    reveal_strlit("i128");
    reveal_strlit("u8");
    reveal_strlit("u16");
    reveal_strlit("u32");
    reveal_strlit("u64");
    reveal_strlit("u128");
    reveal_strlit("f16");
    reveal_strlit("f32");
    reveal_strlit("f64");
    reveal_strlit("f128");
    reveal_strlit("ptr");
    let name = primitive_name(p);
    match p {
        Primitive::Pointer => assert(name =~= seq!['p', 't', 'r']),
        _ => {
            let d = name.skip(1);
            reveal_with_fuel(dec_value, 4);
            if d.len() >= 1 {
                assert(d.drop_last() =~= name.subrange(1, name.len() - 1));
            }
            if d.len() >= 2 {
                assert(d.drop_last().drop_last() =~= name.subrange(1, name.len() - 2));
            }
            if d.len() >= 3 {
                assert(d.drop_last().drop_last().drop_last() =~= name.subrange(
                    1,
                    name.len() - 3,
                ));
            }
        },
    }
}

// ── what callers get ───────────────────────────────────────

/// Whoever converts a layout gets the type under the name that was asked for, with the measures of
/// the layout: a struct with the fields that the compiler gave and the padding that is left, an
/// enum with the variants that the compiler gave and, where it is encoded in a niche, with as many
/// niches as the tag leaves.
pub proof fn law_convert_layout(name: &str, layout: &Layout, r: TypeLayout)
    requires
        layout.fits(),
        call_ensures(convert_layout, (name, layout), r),
    ensures
        r.name@ == name@,
        r.size == layout.size,
        r.alignment == layout.alignment,
        r.largest_niche is Some == layout.largest_niche is Some,
        layout.largest_niche matches Some(n) ==> shown_niche(r.largest_niche->0@) == given_niche(n),
        match (layout.shape, r.kind) {
            (Shape::Struct(given), TypeLayoutKind::Struct(sl)) => {
                &&& faithful(field_views(sl.fields@), given@)
                &&& given_bytes(given@) <= layout.size ==> given_bytes(given@) + sl.padding_bytes
                    == layout.size
            },
            (Shape::Enum(v), TypeLayoutKind::Enum(el)) => match v {
                Variants::Multiple { tag, tag_encoding: TagEncoding::Niche { .. }, variants, .. } => {
                    &&& el.strategy is NicheOptimized
                    &&& el.remaining_niches == Some(tag_leaves(tag))
                    &&& el.niche matches Some(n) && n.available == tag_leaves(tag)
                    &&& faithful_variants(el@.variants, variants@, false)
                },
                Variants::Multiple { tag, variants, .. } => {
                    &&& el.strategy == (EnumStrategy::Tagged { discriminant_size: tag_spans(tag) })
                    &&& faithful_variants(el@.variants, variants@, true)
                },
                _ => el.strategy == EnumStrategy::Single,
            },
            (Shape::Other, TypeLayoutKind::Opaque) => true,
            _ => false,
        },
{
    let t = layout_of(name@, *layout);
    assert(r@ == t);
    law_layouts_keep_their_measures(name@, *layout);
    match layout.shape {
        Shape::Struct(_) => law_structs_show_their_fields(name@, *layout),
        Shape::Enum(v) => match v {
            Variants::Multiple { tag_encoding: TagEncoding::Niche { .. }, .. } =>
                law_niche_encoding_is_told(name@, *layout),
            Variants::Multiple { .. } => law_tags_are_told(name@, *layout),
            _ => law_single_variants_are_told(name@, *layout),
        },
        Shape::Other => {},
    }
}

} // verus!
