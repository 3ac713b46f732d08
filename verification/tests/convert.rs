use nichy::convert::{
    convert_layout, primitive_type_name, Field, Float, Integer, Layout, Niche, Primitive, Scalar,
    Shape, TagEncoding, Variant, Variants, WrappingRange,
};
use nichy::extract::{extract_all_layouts, Item, ItemField, ItemKind};
use nichy::layout::{DiscriminantInfo, EnumLayout, EnumStrategy, StructLayout, TypeLayout, TypeLayoutKind};

fn field(name: &str, typename: &str, offset: u64, size: u64) -> Field {
    Field {
        name: name.into(),
        typename: typename.into(),
        offset,
        size,
        alignment: size.max(1),
        largest_niche: None,
    }
}

fn structure(size: u64, fields: Vec<Field>) -> Layout {
    Layout { size, alignment: 8, largest_niche: None, shape: Shape::Struct(fields) }
}

fn struct_of(tl: &TypeLayout) -> &StructLayout {
    match &tl.kind {
        TypeLayoutKind::Struct(sl) => sl,
        _ => panic!("expected struct"),
    }
}

fn enum_of(tl: &TypeLayout) -> &EnumLayout {
    match &tl.kind {
        TypeLayoutKind::Enum(el) => el,
        _ => panic!("expected enum"),
    }
}

#[test]
fn fields_come_by_offset() {
    let layout = structure(
        16,
        vec![field("a", "u8", 8, 1), field("b", "u64", 0, 8), field("c", "u8", 9, 1)],
    );
    assert!(layout.is_convertible());
    let tl = convert_layout("Foo", &layout);
    assert_eq!((tl.name.as_str(), tl.size, tl.alignment), ("Foo", 16, 8));
    let sl = struct_of(&tl);
    let names: Vec<&str> = sl.fields.iter().map(|f| f.name.as_str()).collect();
    assert_eq!(names, ["b", "a", "c"]);
    assert_eq!(sl.padding_bytes, 6);
}

#[test]
fn fields_at_one_offset_keep_their_order() {
    let tl = convert_layout(
        "Z",
        &structure(1, vec![field("x", "u8", 0, 1), field("y", "()", 0, 0), field("z", "()", 0, 0)]),
    );
    let names: Vec<&str> = struct_of(&tl).fields.iter().map(|f| f.name.as_str()).collect();
    assert_eq!(names, ["x", "y", "z"]);
    assert_eq!(struct_of(&tl).padding_bytes, 0);
}

fn option_of_reference() -> Layout {
    Layout {
        size: 8,
        alignment: 8,
        largest_niche: None,
        shape: Shape::Enum(Variants::Multiple {
            tag: Scalar::Initialized {
                value: Primitive::Pointer,
                value_size: 8,
                valid_range: WrappingRange { start: 0, end: u64::MAX as u128 },
                available: 0,
            },
            tag_encoding: TagEncoding::Niche {
                untagged_variant: 1,
                niche_variants_start: 0,
                niche_variants_end: 0,
                niche_start: 0,
            },
            tag_field: 0,
            tag_offset: 0,
            payload_sizes: vec![0, 8],
            variants: vec![
                Variant {
                    name: "None".into(),
                    size: 0,
                    alignment: 1,
                    fields: vec![],
                    discriminant: 0,
                },
                Variant {
                    name: "Some".into(),
                    size: 8,
                    alignment: 8,
                    fields: vec![field("0", "&u64", 0, 8)],
                    discriminant: 1,
                },
            ],
        }),
    }
}

#[test]
fn niches_encode_options() {
    let layout = option_of_reference();
    assert!(layout.is_convertible());
    let tl = convert_layout("Option<&u64>", &layout);
    let el = enum_of(&tl);
    assert_eq!(el.strategy, EnumStrategy::NicheOptimized { savings: 8, tagged_size: 16 });
    assert_eq!(el.remaining_niches, Some(0));
    let niche = el.niche.as_ref().unwrap();
    assert_eq!(niche.field_name, Some("0".into()));
    assert_eq!(niche.value_type, "ptr");
    assert_eq!((niche.valid_range_start, niche.valid_range_end), (0, u64::MAX as u128));
    match el.discriminant.as_ref().unwrap() {
        DiscriminantInfo::Niche { untagged_variant, niche_start, .. } => {
            assert_eq!(untagged_variant, "Some");
            assert_eq!(*niche_start, 0);
        }
        _ => panic!("expected niche discriminant"),
    }
    assert!(el.variants.iter().all(|v| v.discr_value.is_none()));
}

#[test]
fn tags_encode_the_rest() {
    let niche = Niche {
        offset: 0,
        value: Primitive::Int(Integer::I8, false),
        value_size: 1,
        valid_range: WrappingRange { start: 0, end: 1 },
        available: 254,
    };
    let variant = |name: &str, discriminant: u128| Variant {
        name: name.into(),
        size: 8,
        alignment: 4,
        fields: vec![field("0", "u32", 4, 4)],
        discriminant,
    };
    let layout = Layout {
        size: 8,
        alignment: 4,
        largest_niche: Some(niche),
        shape: Shape::Enum(Variants::Multiple {
            tag: Scalar::Initialized {
                value: niche.value,
                value_size: 1,
                valid_range: niche.valid_range,
                available: 254,
            },
            tag_encoding: TagEncoding::Direct,
            tag_field: 0,
            tag_offset: 0,
            payload_sizes: vec![8, 8],
            variants: vec![variant("Ok", 0), variant("Err", 1)],
        }),
    };
    let tl = convert_layout("E", &layout);
    assert_eq!(tl.largest_niche.as_ref().unwrap().field_name, None);
    let el = enum_of(&tl);
    assert_eq!(el.strategy, EnumStrategy::Tagged { discriminant_size: 1 });
    assert_eq!(el.remaining_niches, Some(254));
    assert!(el.niche.is_none());
    assert_eq!(el.variants[1].discr_value, Some(1));
    assert!(matches!(
        el.discriminant,
        Some(DiscriminantInfo::Direct { tag_field_index: 0, tag_offset: 0, tag_size: 1 })
    ));
}

#[test]
fn enums_of_one_variant_and_of_none() {
    let single = Layout {
        size: 4,
        alignment: 4,
        largest_niche: None,
        shape: Shape::Enum(Variants::Single { name: "A".into(), fields: vec![field("0", "u32", 0, 4)] }),
    };
    let tl = convert_layout("One", &single);
    let el = enum_of(&tl);
    assert_eq!(el.strategy, EnumStrategy::Single);
    assert_eq!((el.variants[0].name.as_str(), el.variants[0].size), ("A", 4));
    let empty = Layout { size: 0, alignment: 1, largest_niche: None, shape: Shape::Enum(Variants::Empty) };
    assert!(enum_of(&convert_layout("Never", &empty)).variants.is_empty());
}

#[test]
fn layouts_that_cannot_be_counted_are_told_apart() {
    assert!(!structure(0, vec![field("a", "x", 0, u64::MAX), field("b", "x", 0, 1)]).is_convertible());
    let mut layout = option_of_reference();
    if let Shape::Enum(Variants::Multiple { payload_sizes, .. }) = &mut layout.shape {
        payload_sizes.push(u64::MAX - 7);
    }
    assert!(!layout.is_convertible());
}

#[test]
fn primitives_have_names() {
    let names: Vec<String> = [
        Primitive::Int(Integer::I8, true),
        Primitive::Int(Integer::I16, false),
        Primitive::Int(Integer::I32, true),
        Primitive::Int(Integer::I64, false),
        Primitive::Int(Integer::I128, true),
        Primitive::Float(Float::F16),
        Primitive::Float(Float::F32),
        Primitive::Float(Float::F64),
        Primitive::Float(Float::F128),
        Primitive::Pointer,
    ]
    .into_iter()
    .map(primitive_type_name)
    .collect();
    assert_eq!(names, ["i8", "u16", "i32", "u64", "i128", "f16", "f32", "f64", "f128", "ptr"]);
}

fn item(name: &str, kind: ItemKind) -> Item {
    Item {
        name: name.into(),
        kind,
        type_params: 0,
        const_params: 0,
        layout: Some(Layout { size: 1, alignment: 1, largest_niche: None, shape: Shape::Other }),
        fields: vec![],
    }
}

#[test]
fn items_are_reported_by_kind_and_name() {
    let mut generic = item("Generic", ItemKind::Struct);
    generic.type_params = 1;
    let mut sized = item("Sized", ItemKind::Struct);
    sized.const_params = 1;
    let mut unknown = item("Unknown", ItemKind::Enum);
    unknown.layout = None;
    let mut probe = item("_Probe", ItemKind::Struct);
    probe.fields = vec![ItemField {
        typename: "bool".into(),
        layout: Some(Layout { size: 1, alignment: 1, largest_niche: None, shape: Shape::Other }),
    }];
    let items = vec![
        item("A", ItemKind::Struct),
        generic,
        sized,
        unknown,
        item("main", ItemKind::Other),
        probe,
        item("_Probe", ItemKind::Union),
        item("__hidden", ItemKind::Enum),
        item("__Alias", ItemKind::TyAlias),
    ];
    assert!(items.iter().all(|i| i.is_convertible()));
    let names: Vec<String> = extract_all_layouts(&items).into_iter().map(|l| l.name).collect();
    assert_eq!(names, ["A", "bool", "_Probe", "__hidden", "__Alias"]);
}
