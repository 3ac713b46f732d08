//! Memory layouts of Rust types: what an analysis reports, and the view of it that
//! contracts speak of.
use vstd::prelude::*;

use crate::text::{opt_clone, opt_view};

verus! {

// ── precise niche types ────────────────────────────────────

/// A range of bit patterns that a value never takes, open to encode something else.
#[derive(Debug)]
pub struct NicheInfo {
    pub offset: u64,
    pub field_name: Option<String>,
    pub value_type: String,
    pub value_size: u64,
    pub valid_range_start: u128,
    pub valid_range_end: u128,
    pub available: u128,
}

/// What a [`NicheInfo`] shows.
pub struct NicheView {
    pub offset: u64,
    pub field_name: Option<Seq<char>>,
    pub value_type: Seq<char>,
    pub value_size: u64,
    pub valid_range_start: u128,
    pub valid_range_end: u128,
    pub available: u128,
}

impl View for NicheInfo {
    type V = NicheView;

    open spec fn view(&self) -> NicheView {
        NicheView {
            offset: self.offset,
            field_name: opt_view(self.field_name),
            value_type: self.value_type@,
            value_size: self.value_size,
            valid_range_start: self.valid_range_start,
            valid_range_end: self.valid_range_end,
            available: self.available,
        }
    }
}

impl Clone for NicheInfo {
    fn clone(&self) -> (r: Self)
        ensures
            r@ == self@,
    {
        NicheInfo {
            offset: self.offset,
            field_name: opt_clone(&self.field_name),
            value_type: self.value_type.clone(),
            value_size: self.value_size,
            valid_range_start: self.valid_range_start,
            valid_range_end: self.valid_range_end,
            available: self.available,
        }
    }
}

/// What an optional niche shows.
pub open spec fn niche_opt_view(n: Option<NicheInfo>) -> Option<NicheView> {
    match n {
        Some(x) => Some(x@),
        None => None,
    }
}

/// Where and how an enum stores which variant it is.
#[derive(Debug, Clone)]
pub enum DiscriminantInfo {
    Direct { tag_field_index: usize, tag_offset: u64, tag_size: u64 },
    Niche {
        tag_field_index: usize,
        tag_offset: u64,
        untagged_variant: String,
        niche_start: u128,
        niche_variants_start: usize,
        niche_variants_end: usize,
    },
}

/// What a [`DiscriminantInfo`] shows.
pub enum DiscriminantView {
    Direct { tag_field_index: usize, tag_offset: u64, tag_size: u64 },
    Niche {
        tag_field_index: usize,
        tag_offset: u64,
        untagged_variant: Seq<char>,
        niche_start: u128,
        niche_variants_start: usize,
        niche_variants_end: usize,
    },
}

impl View for DiscriminantInfo {
    type V = DiscriminantView;

    open spec fn view(&self) -> DiscriminantView {
        match *self {
            DiscriminantInfo::Direct { tag_field_index, tag_offset, tag_size } =>
                DiscriminantView::Direct { tag_field_index, tag_offset, tag_size },
            DiscriminantInfo::Niche {
                tag_field_index,
                tag_offset,
                untagged_variant,
                niche_start,
                niche_variants_start,
                niche_variants_end,
            } => DiscriminantView::Niche {
                tag_field_index,
                tag_offset,
                untagged_variant: untagged_variant@,
                niche_start,
                niche_variants_start,
                niche_variants_end,
            },
        }
    }
}

// ── layout types ───────────────────────────────────────────

/// The layout of one type.
#[derive(Debug, Clone)]
pub struct TypeLayout {
    pub name: String,
    pub size: u64,
    pub alignment: u64,
    pub hover_info: Option<String>,
    pub largest_niche: Option<NicheInfo>,
    pub kind: TypeLayoutKind,
}

/// What kind of type a layout describes.
#[derive(Debug, Clone)]
pub enum TypeLayoutKind {
    Struct(StructLayout),
    Enum(EnumLayout),
    Opaque,
}

/// The fields of a struct, by offset, and the bytes that none of them covers.
#[derive(Debug, Clone)]
pub struct StructLayout {
    pub fields: Vec<FieldLayout>,
    pub padding_bytes: u64,
}

/// One field of a struct or of a variant.
#[derive(Debug)]
pub struct FieldLayout {
    pub name: String,
    pub typename: String,
    pub offset: u64,
    pub size: u64,
    pub alignment: u64,
    pub children: Vec<FieldLayout>,
    pub largest_niche: Option<NicheInfo>,
}

/// The layout of an enum.
#[derive(Debug, Clone)]
pub struct EnumLayout {
    pub strategy: EnumStrategy,
    pub remaining_niches: Option<u128>,
    pub variants: Vec<VariantLayout>,
    pub niche: Option<NicheInfo>,
    pub discriminant: Option<DiscriminantInfo>,
}

/// How the compiler encodes an enum.
#[derive(Debug, Clone, Copy, PartialEq, Eq, Structural)]
pub enum EnumStrategy {
    Single,
    NicheOptimized { savings: u64, tagged_size: u64 },
    Tagged { discriminant_size: u64 },
}

/// One variant of an enum.
#[derive(Debug, Clone)]
pub struct VariantLayout {
    pub name: String,
    pub size: u64,
    pub alignment: u64,
    pub fields: Vec<FieldLayout>,
    pub discr_value: Option<u128>,
}

/// What a [`FieldLayout`] shows.
pub struct FieldView {
    pub name: Seq<char>,
    pub typename: Seq<char>,
    pub offset: u64,
    pub size: u64,
    pub alignment: u64,
    pub children: Seq<FieldView>,
    pub largest_niche: Option<NicheView>,
}

impl FieldLayout {
    /// What the field and the fields inside of it show.
    pub open spec fn shown(self) -> FieldView
        decreases self,
    {
        FieldView {
            name: self.name@,
            typename: self.typename@,
            offset: self.offset,
            size: self.size,
            alignment: self.alignment,
            children: Seq::new(
                self.children@.len(),
                |i: int|
                    if 0 <= i < self.children@.len() {
                        self.children@[i].shown()
                    } else {
                        arbitrary()
                    },
            ),
            largest_niche: niche_opt_view(self.largest_niche),
        }
    }
}

impl View for FieldLayout {
    type V = FieldView;

    open spec fn view(&self) -> FieldView {
        self.shown()
    }
}

impl Clone for FieldLayout {
    fn clone(&self) -> (r: Self)
        ensures
            r@ == self@,
        decreases self,
    {
        let mut children: Vec<FieldLayout> = Vec::new();
        for i in 0..self.children.len()
            invariant
                children@.len() == i,
                forall|j: int| 0 <= j < i ==> (#[trigger] children@[j])@ == self.children@[j]@,
        {
            let child = &self.children[i];
            assert(decreases_to!(self => self.children@[i as int]));
            children.push(child.clone());
        }
        let r = FieldLayout {
            name: self.name.clone(),
            typename: self.typename.clone(),
            offset: self.offset,
            size: self.size,
            alignment: self.alignment,
            children,
            largest_niche: match &self.largest_niche {
                Some(n) => Some(n.clone()),
                None => None,
            },
        };
        proof {
            assert(r@.children.len() == self@.children.len());
            assert forall|j: int| 0 <= j < r@.children.len() implies r@.children[j]
                == self@.children[j] by {
                assert(r.children@[j]@ == self.children@[j]@);
                assert(r@.children[j] == r.children@[j]@);
                assert(self@.children[j] == self.children@[j]@);
            }
            assert(r@.children =~= self@.children);
        }
        r
    }
}

/// What a list of fields shows.
pub open spec fn field_views(fields: Seq<FieldLayout>) -> Seq<FieldView> {
    fields.map_values(|f: FieldLayout| f@)
}

/// What a [`VariantLayout`] shows.
pub struct VariantView {
    pub name: Seq<char>,
    pub size: u64,
    pub alignment: u64,
    pub fields: Seq<FieldView>,
    pub discr_value: Option<u128>,
}

impl View for VariantLayout {
    type V = VariantView;

    open spec fn view(&self) -> VariantView {
        VariantView {
            name: self.name@,
            size: self.size,
            alignment: self.alignment,
            fields: field_views(self.fields@),
            discr_value: self.discr_value,
        }
    }
}

/// What an [`EnumLayout`] shows.
pub struct EnumView {
    pub strategy: EnumStrategy,
    pub remaining_niches: Option<u128>,
    pub variants: Seq<VariantView>,
    pub niche: Option<NicheView>,
    pub discriminant: Option<DiscriminantView>,
}

impl View for EnumLayout {
    type V = EnumView;

    open spec fn view(&self) -> EnumView {
        EnumView {
            strategy: self.strategy,
            remaining_niches: self.remaining_niches,
            variants: self.variants@.map_values(|v: VariantLayout| v@),
            niche: niche_opt_view(self.niche),
            discriminant: match self.discriminant {
                Some(d) => Some(d@),
                None => None,
            },
        }
    }
}

/// What a [`TypeLayoutKind`] shows.
pub enum KindView {
    Struct { fields: Seq<FieldView>, padding_bytes: u64 },
    Enum(EnumView),
    Opaque,
}

/// What a [`TypeLayout`] shows.
pub struct TypeView {
    pub name: Seq<char>,
    pub size: u64,
    pub alignment: u64,
    pub hover_info: Option<Seq<char>>,
    pub largest_niche: Option<NicheView>,
    pub kind: KindView,
}

impl View for TypeLayout {
    type V = TypeView;

    open spec fn view(&self) -> TypeView {
        TypeView {
            name: self.name@,
            size: self.size,
            alignment: self.alignment,
            hover_info: opt_view(self.hover_info),
            largest_niche: niche_opt_view(self.largest_niche),
            kind: match self.kind {
                TypeLayoutKind::Struct(sl) => KindView::Struct {
                    fields: field_views(sl.fields@),
                    padding_bytes: sl.padding_bytes,
                },
                TypeLayoutKind::Enum(el) => KindView::Enum(el@),
                TypeLayoutKind::Opaque => KindView::Opaque,
            },
        }
    }
}

/// What a list of layouts shows.
pub open spec fn type_views(layouts: Seq<TypeLayout>) -> Seq<TypeView> {
    layouts.map_values(|t: TypeLayout| t@)
}

} // verus!
