//! Which items of a compiled source are reported, and under which name.
use vstd::prelude::*;

use crate::convert::{
    convert_layout, given_niche, law_layouts_keep_their_measures, layout_of, shown_niche, Layout,
};
use crate::layout::{type_views, TypeLayout, TypeView};
use crate::text::same_str;

verus! {

/// The kind of an item.
#[derive(Debug, Clone, Copy)]
pub enum ItemKind {
    Struct,
    Enum,
    Union,
    TyAlias,
    Other,
}

/// The type of one field of an item: how it is written, and its layout where it has one.
#[derive(Debug)]
pub struct ItemField {
    pub typename: String,
    pub layout: Option<Layout>,
}

/// One item of a compiled source.  `layout` is absent where the compiler has none.
#[derive(Debug)]
pub struct Item {
    pub name: String,
    pub kind: ItemKind,
    pub type_params: usize,
    pub const_params: usize,
    pub layout: Option<Layout>,
    pub fields: Vec<ItemField>,
}

/// The layout, where there is one, can be converted.
pub open spec fn opt_fits(layout: Option<Layout>) -> bool {
    match layout {
        Some(l) => l.fits(),
        None => true,
    }
}

impl Item {
    /// Every layout of the item can be converted.
    pub open spec fn fits(self) -> bool {
        &&& opt_fits(self.layout)
        &&& forall|i: int|
            0 <= i < self.fields@.len() ==> opt_fits((#[trigger] self.fields@[i]).layout)
    }
}

fn opt_convertible(layout: &Option<Layout>) -> (r: bool)
    ensures
        r == opt_fits(*layout),
{
    match layout {
        Some(l) => l.is_convertible(),
        None => true,
    }
}

impl Item {
    /// Tells whether every layout of the item can be converted.
    pub fn is_convertible(&self) -> (r: bool)
        ensures
            r == self.fits(),
    {
        for i in 0..self.fields.len()
            invariant
                forall|j: int| 0 <= j < i ==> opt_fits((#[trigger] self.fields@[j]).layout),
        {
            if !opt_convertible(&self.fields[i].layout) {
                assert(!opt_fits(self.fields@[i as int].layout));
                return false;
            }
        }
        opt_convertible(&self.layout)
    }
}

/// What is reported of a probe in place of itself: its only field, under the name of the
/// field's type.
pub open spec fn probed(fields: Seq<ItemField>) -> Option<TypeView> {
    if fields.len() == 1 {
        match fields[0].layout {
            Some(l) => Some(layout_of(fields[0].typename@, l)),
            None => None,
        }
    } else {
        None
    }
}

/// What is reported of an item.  Nothing is reported of an item that is no type, is generic
/// or has no layout.  A type alias is reported as it is; of the other types the probe stands
/// for its field.
pub open spec fn reported(item: Item) -> Option<TypeView> {
    if item.kind == ItemKind::Other || item.type_params > 0 || item.const_params > 0 {
        None
    } else {
        match item.layout {
            None => None,
            Some(l) => if item.kind == ItemKind::TyAlias {
                Some(layout_of(item.name@, l))
            } else if item.name@ == "_Probe"@ && probed(item.fields@) is Some {
                probed(item.fields@)
            } else {
                Some(layout_of(item.name@, l))
            },
        }
    }
}

/// What is reported of a source: its items in order, without those of which nothing is
/// reported.
pub open spec fn all_reported(items: Seq<Item>) -> Seq<TypeView>
    decreases items.len(),
{
    if items.len() == 0 {
        Seq::empty()
    } else {
        match reported(items.last()) {
            Some(t) => all_reported(items.drop_last()).push(t),
            None => all_reported(items.drop_last()),
        }
    }
}

/// Looks inside a probe.
pub fn unwrap_probe(fields: &Vec<ItemField>) -> (r: Option<TypeLayout>)
    requires
        forall|i: int| 0 <= i < fields@.len() ==> opt_fits((#[trigger] fields@[i]).layout),
    ensures
        match r {
            Some(t) => probed(fields@) == Some(t@),
            None => probed(fields@) is None,
        },
{
    if fields.len() != 1 {
        return None;
    }
    let field = &fields[0];
    assert(opt_fits(fields@[0].layout));
    match &field.layout {
        Some(l) => Some(convert_layout(field.typename.as_str(), l)),
        None => None,
    }
}

/// Reports one item.
pub fn extract_layout(item: &Item) -> (r: Option<TypeLayout>)
    requires
        item.fits(),
    ensures
        match r {
            Some(t) => reported(*item) == Some(t@),
            None => reported(*item) is None,
        },
{
    let is_alias = match item.kind {
        ItemKind::Struct | ItemKind::Enum | ItemKind::Union => false,
        ItemKind::TyAlias => true,
        ItemKind::Other => {
            return None;
        },
    };
    if item.type_params > 0 || item.const_params > 0 {
        return None;
    }
    match &item.layout {
        None => None,
        Some(layout) => {
            if is_alias {
                return Some(convert_layout(item.name.as_str(), layout));
            }
            if same_str(item.name.as_str(), "_Probe") {
                let inner = unwrap_probe(&item.fields);
                if inner.is_some() {
                    return inner;
                }
            }
            Some(convert_layout(item.name.as_str(), layout))
        },
    }
}

/// Reports a source.
pub fn extract_all_layouts(items: &Vec<Item>) -> (r: Vec<TypeLayout>)
    requires
        forall|i: int| 0 <= i < items@.len() ==> (#[trigger] items@[i]).fits(),
    ensures
        type_views(r@) == all_reported(items@),
{
    let mut out: Vec<TypeLayout> = Vec::new();
    assert(type_views(out@) =~= Seq::empty());
    for i in 0..items.len()
        invariant
            forall|j: int| 0 <= j < items@.len() ==> (#[trigger] items@[j]).fits(),
            type_views(out@) == all_reported(items@.take(i as int)),
    {
        assert(items@.take(i + 1).drop_last() =~= items@.take(i as int));
        let ghost before = out@;
        match extract_layout(&items[i]) {
            Some(t) => {
                out.push(t);
                assert(type_views(out@) =~= type_views(before).push(t@));
            },
            None => {},
        }
    }
    assert(items@.take(items@.len() as int) =~= items@);
    out
}

// ── laws ───────────────────────────────────────────────────

/// Items are reported one by one, in their order: what is reported of one does not depend on
/// the others.
pub proof fn law_items_are_reported_in_order(a: Seq<Item>, b: Seq<Item>)
    ensures
        all_reported(a + b) == all_reported(a) + all_reported(b),
    decreases b.len(),
{
    if b.len() == 0 {
        assert(a + b =~= a);
        assert(all_reported(a) + all_reported(b) =~= all_reported(a));
    } else {
        law_items_are_reported_in_order(a, b.drop_last());
        assert((a + b).drop_last() =~= a + b.drop_last());
        assert((a + b).last() == b.last());
        let before = all_reported(a);
        let middle = all_reported(b.drop_last());
        match reported(b.last()) {
            Some(t) => assert((before + middle).push(t) =~= before + middle.push(t)),
            None => {},
        }
    }
}

/// Every struct, enum, union and type alias is reported under its name, unless it is generic,
/// has no layout or is the probe.
pub proof fn law_every_type_is_reported(items: Seq<Item>, i: int)
    requires
        0 <= i < items.len(),
        items[i].kind != ItemKind::Other,
        items[i].type_params == 0,
        items[i].const_params == 0,
        items[i].layout is Some,
        items[i].kind == ItemKind::TyAlias || items[i].name@ != "_Probe"@,
    ensures
        all_reported(items).contains(layout_of(items[i].name@, items[i].layout->0)),
{
    let shown = layout_of(items[i].name@, items[i].layout->0);
    let before = items.take(i);
    let rest = items.skip(i + 1);
    let one = seq![items[i]];
    assert(one.drop_last() =~= Seq::empty());
    assert(all_reported(one.drop_last()) =~= Seq::empty());
    assert(reported(one.last()) == Some(shown));
    assert(all_reported(one) =~= seq![shown]);
    law_items_are_reported_in_order(before, one);
    law_items_are_reported_in_order(before + one, rest);
    assert(before + one + rest =~= items);
    let at = all_reported(before).len() as int;
    assert(all_reported(items)[at] == shown);
}

/// The report of a source of one item.
proof fn lemma_report_of_one(item: Item)
    ensures
        all_reported(seq![item]) == (match reported(item) {
            Some(t) => seq![t],
            None => Seq::<TypeView>::empty(),
        }),
{
    let one = seq![item];
    assert(one.drop_last() =~= Seq::empty());
    assert(all_reported(one.drop_last()) =~= Seq::empty());
    assert(one.last() == item);
}

/// A report has the measures of a layout: its size and alignment, its largest niche, and what it
/// is, an enum, a struct or neither.
pub open spec fn measures(t: TypeView, l: Layout) -> bool {
    &&& t.size == l.size
    &&& t.alignment == l.alignment
    &&& t.hover_info is None
    &&& t.largest_niche is Some == l.largest_niche is Some
    &&& l.largest_niche matches Some(n) ==> shown_niche(t.largest_niche->0) == given_niche(n)
    &&& t.kind is Enum == l.shape is Enum
    &&& t.kind is Struct == l.shape is Struct
    &&& t.kind is Opaque == l.shape is Other
}

/// Of an item there is one report or none.  There is one if and only if it is a struct, an enum, a
/// union or a type alias, has no type or const parameters, and has a layout.
pub proof fn law_types_with_a_layout_are_reported(item: Item)
    ensures
        all_reported(seq![item]).len() <= 1,
        all_reported(seq![item]).len() == 1 <==> {
            &&& item.kind is Struct || item.kind is Enum || item.kind is Union || item.kind
                is TyAlias
            &&& item.type_params == 0
            &&& item.const_params == 0
            &&& item.layout is Some
        },
{
    lemma_report_of_one(item);
}

/// A probe stands for its only field.  The one report is that of the field's type: it has the name
/// of the type and the measures of the layout of the field, whatever the layout of the probe, and
/// is the report that an alias of that name and layout gets.
pub proof fn law_probe_stands_for_its_field(item: Item, alias: Item)
    requires
        item.name@ == "_Probe"@,
        item.kind is Struct || item.kind is Enum || item.kind is Union,
        item.type_params == 0,
        item.const_params == 0,
        item.layout is Some,
        item.fields@.len() == 1,
        item.fields@[0].layout is Some,
        alias.kind is TyAlias,
        alias.type_params == 0,
        alias.const_params == 0,
        alias.name@ == item.fields@[0].typename@,
        alias.layout == item.fields@[0].layout,
    ensures
        all_reported(seq![item]).len() == 1,
        all_reported(seq![item])[0].name == item.fields@[0].typename@,
        measures(all_reported(seq![item])[0], item.fields@[0].layout->0),
        all_reported(seq![item]) == all_reported(seq![alias]),
        all_reported(seq![item])[0] == layout_of(
            item.fields@[0].typename@,
            item.fields@[0].layout->0,
        ),
{
    lemma_report_of_one(item);
    lemma_report_of_one(alias);
    law_layouts_keep_their_measures(item.fields@[0].typename@, item.fields@[0].layout->0);
}

/// Every other type stands for itself: it is reported under its own name and has the measures of
/// its own layout, whatever its fields.  So does an alias, whatever its name, and a probe whose one
/// field cannot be told.
pub proof fn law_types_stand_for_themselves(item: Item)
    requires
        all_reported(seq![item]).len() == 1,
        item.kind is TyAlias || item.name@ != "_Probe"@ || item.fields@.len() != 1
            || item.fields@[0].layout is None,
    ensures
        all_reported(seq![item])[0].name == item.name@,
        measures(all_reported(seq![item])[0], item.layout->0),
        all_reported(seq![item])[0] == layout_of(item.name@, item.layout->0),
{
    lemma_report_of_one(item);
    law_layouts_keep_their_measures(item.name@, item.layout->0);
}

/// Of two items that differ in their names alone, and of which none is a probe, the reports differ
/// in their names alone.
pub proof fn law_renamed_items_are_reported_alike(a: Item, b: Item)
    requires
        a.name@ != "_Probe"@ && b.name@ != "_Probe"@,
        a.kind == b.kind,
        a.type_params == b.type_params,
        a.const_params == b.const_params,
        a.layout == b.layout,
    ensures
        all_reported(seq![a]).len() == all_reported(seq![b]).len(),
        all_reported(seq![a]).len() == 1 ==> (TypeView {
            name: b.name@,
            ..all_reported(seq![a])[0]
        }) == all_reported(seq![b])[0],
{
    lemma_report_of_one(a);
    lemma_report_of_one(b);
}

/// Whoever has a source reported gets, for a source of one probe, the one layout of the type of its
/// field, under the name of that type: an enum where that type is one.
pub proof fn law_extract_all_layouts(items: &Vec<Item>, r: Vec<TypeLayout>)
    requires
        items@.len() == 1,
        items@[0].fits(),
        items@[0].name@ == "_Probe"@,
        items@[0].kind is Struct || items@[0].kind is Enum || items@[0].kind is Union,
        items@[0].type_params == 0,
        items@[0].const_params == 0,
        items@[0].layout is Some,
        items@[0].fields@.len() == 1,
        items@[0].fields@[0].layout is Some,
        call_ensures(extract_all_layouts, (items,), r),
    ensures
        r@.len() == 1,
        r@[0].name@ == items@[0].fields@[0].typename@,
        r@[0].size == (items@[0].fields@[0].layout->0).size,
        r@[0].alignment == (items@[0].fields@[0].layout->0).alignment,
        r@[0].kind is Enum == (items@[0].fields@[0].layout->0).shape is Enum,
        r@[0].kind is Struct == (items@[0].fields@[0].layout->0).shape is Struct,
        r@[0].kind is Opaque == (items@[0].fields@[0].layout->0).shape is Other,
{
    assert(items@ =~= seq![items@[0]]);
    lemma_report_of_one(items@[0]);
    law_layouts_keep_their_measures(
        items@[0].fields@[0].typename@,
        items@[0].fields@[0].layout->0,
    );
    let views = type_views(r@);
    assert(views.len() == 1);
    assert(views[0] == r@[0]@);
}

} // verus!
