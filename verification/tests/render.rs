use nichy::layout::{
    DiscriminantInfo, EnumLayout, EnumStrategy, FieldLayout, NicheInfo, StructLayout, TypeLayout,
    TypeLayoutKind, VariantLayout,
};
use nichy::render::{
    format_count, is_renderable, render_footer, render_type_layout, variant_tag_suffix, Ctx,
};

fn ctx() -> Ctx {
    Ctx::new(false, false)
}

fn enum_layout_tagged(disc: u128) -> EnumLayout {
    EnumLayout {
        strategy: EnumStrategy::Tagged {
            discriminant_size: 4,
        },
        remaining_niches: None,
        variants: vec![VariantLayout {
            name: "Lit".into(),
            size: 16,
            alignment: 8,
            fields: vec![FieldLayout {
                name: "0".into(),
                typename: "f64".into(),
                offset: 8,
                size: 8,
                alignment: 8,
                children: vec![],
                largest_niche: None,
            }],
            discr_value: Some(disc),
        }],
        niche: None,
        discriminant: Some(DiscriminantInfo::Direct {
            tag_field_index: 0,
            tag_offset: 0,
            tag_size: 4,
        }),
    }
}

#[test]
fn tagged_shows_tag_value_by_default() {
    let tl = TypeLayout {
        name: "E".into(),
        size: 24,
        alignment: 8,
        hover_info: None,
        largest_niche: None,
        kind: TypeLayoutKind::Enum(enum_layout_tagged(0x2)),
    };
    let out = render_type_layout(&tl, &ctx());
    assert!(out.contains("[tag = 0x2]"), "expected tag suffix: {out}");
}

#[test]
fn niche_optimized_shows_per_variant_values_by_default() {
    let tl = TypeLayout {
        name: "Opt".into(),
        size: 8,
        alignment: 8,
        hover_info: None,
        largest_niche: None,
        kind: TypeLayoutKind::Enum(EnumLayout {
            strategy: EnumStrategy::NicheOptimized {
                savings: 8,
                tagged_size: 16,
            },
            remaining_niches: Some(0),
            variants: vec![
                VariantLayout {
                    name: "Some".into(),
                    size: 8,
                    alignment: 8,
                    fields: vec![],
                    discr_value: None,
                },
                VariantLayout {
                    name: "None".into(),
                    size: 0,
                    alignment: 1,
                    fields: vec![],
                    discr_value: None,
                },
            ],
            niche: None,
            discriminant: Some(DiscriminantInfo::Niche {
                tag_field_index: 0,
                tag_offset: 0,
                untagged_variant: "Some".into(),
                niche_start: 0,
                niche_variants_start: 1,
                niche_variants_end: 1,
            }),
        }),
    };
    let out = render_type_layout(&tl, &ctx());
    assert!(out.contains("[untagged]"), "expected untagged on Some: {out}");
    assert!(out.contains("[niche = 0x0]"), "expected niche on None: {out}");
}

#[test]
fn render_opaque() {
    let tl = TypeLayout {
        name: "X".into(),
        size: 4,
        alignment: 4,
        hover_info: None,
        largest_niche: None,
        kind: TypeLayoutKind::Opaque,
    };
    let out = render_type_layout(&tl, &ctx());
    assert!(out.contains("scalar / opaque"));
}

#[test]
fn render_zst() {
    let tl = TypeLayout {
        name: "()".into(),
        size: 0,
        alignment: 1,
        hover_info: None,
        largest_niche: None,
        kind: TypeLayoutKind::Opaque,
    };
    let out = render_type_layout(&tl, &ctx());
    assert!(out.contains("zero-sized type"));
}

#[test]
fn render_struct_fields_and_padding() {
    let tl = TypeLayout {
        name: "Foo".into(),
        size: 16,
        alignment: 8,
        hover_info: None,
        largest_niche: None,
        kind: TypeLayoutKind::Struct(StructLayout {
            fields: vec![
                FieldLayout {
                    name: "a".into(),
                    typename: "u64".into(),
                    offset: 0,
                    size: 8,
                    alignment: 8,
                    children: vec![],
                    largest_niche: None,
                },
                FieldLayout {
                    name: "b".into(),
                    typename: "u32".into(),
                    offset: 8,
                    size: 4,
                    alignment: 4,
                    children: vec![],
                    largest_niche: None,
                },
            ],
            padding_bytes: 4,
        }),
    };
    let out = render_type_layout(&tl, &ctx());
    assert!(out.contains("a: u64"));
    assert!(out.contains("b: u32"));
    assert!(out.contains("padding"));
    assert!(out.contains("16  total"));
}

#[test]
fn render_enum_niche_optimized() {
    let tl = TypeLayout {
        name: "Opt".into(),
        size: 8,
        alignment: 8,
        hover_info: None,
        largest_niche: None,
        kind: TypeLayoutKind::Enum(EnumLayout {
            strategy: EnumStrategy::NicheOptimized {
                savings: 8,
                tagged_size: 16,
            },
            remaining_niches: Some(42),
            variants: vec![
                VariantLayout {
                    name: "Some".into(),
                    size: 8,
                    alignment: 8,
                    fields: vec![],
                    discr_value: None,
                },
                VariantLayout {
                    name: "None".into(),
                    size: 0,
                    alignment: 1,
                    fields: vec![],
                    discr_value: None,
                },
            ],
            niche: None,
            discriminant: None,
        }),
    };
    let out = render_type_layout(&tl, &ctx());
    assert!(out.contains("niche optimized"));
}

#[test]
fn render_enum_tagged() {
    let tl = TypeLayout {
        name: "E".into(),
        size: 8,
        alignment: 4,
        hover_info: None,
        largest_niche: None,
        kind: TypeLayoutKind::Enum(EnumLayout {
            strategy: EnumStrategy::Tagged {
                discriminant_size: 1,
            },
            remaining_niches: None,
            variants: vec![
                VariantLayout {
                    name: "A".into(),
                    size: 4,
                    alignment: 4,
                    fields: vec![],
                    discr_value: None,
                },
                VariantLayout {
                    name: "B".into(),
                    size: 1,
                    alignment: 1,
                    fields: vec![],
                    discr_value: None,
                },
            ],
            niche: None,
            discriminant: None,
        }),
    };
    let out = render_type_layout(&tl, &ctx());
    assert!(out.contains("tagged enum"));
}

#[test]
fn render_hover_info() {
    let tl = TypeLayout {
        name: "X".into(),
        size: 4,
        alignment: 4,
        hover_info: Some("size = 4, align = 4, no Drop".into()),
        largest_niche: None,
        kind: TypeLayoutKind::Opaque,
    };
    let out = render_type_layout(&tl, &ctx());
    assert!(out.contains("size = 4, align = 4, no Drop"));
}

#[test]
fn render_niche_discriminant_direct() {
    let tl = TypeLayout {
        name: "E".into(),
        size: 8,
        alignment: 4,
        hover_info: None,
        largest_niche: None,
        kind: TypeLayoutKind::Enum(EnumLayout {
            strategy: EnumStrategy::Tagged {
                discriminant_size: 1,
            },
            remaining_niches: None,
            variants: vec![],
            niche: None,
            discriminant: Some(DiscriminantInfo::Direct {
                tag_field_index: 0,
                tag_offset: 0,
                tag_size: 1,
            }),
        }),
    };
    let out = render_type_layout(&tl, &ctx());
    assert!(out.contains("discriminant at +0x0000, 1 byte(s)"));
}

#[test]
fn render_niche_discriminant_niche() {
    let tl = TypeLayout {
        name: "Opt".into(),
        size: 8,
        alignment: 8,
        hover_info: None,
        largest_niche: None,
        kind: TypeLayoutKind::Enum(EnumLayout {
            strategy: EnumStrategy::NicheOptimized {
                savings: 8,
                tagged_size: 16,
            },
            remaining_niches: Some(0),
            variants: vec![
                VariantLayout {
                    name: "Some".into(),
                    size: 8,
                    alignment: 8,
                    fields: vec![],
                    discr_value: None,
                },
                VariantLayout {
                    name: "None".into(),
                    size: 0,
                    alignment: 1,
                    fields: vec![],
                    discr_value: None,
                },
            ],
            niche: Some(NicheInfo {
                offset: 0,
                field_name: Some("ptr".into()),
                value_type: "ptr".into(),
                value_size: 8,
                valid_range_start: 1,
                valid_range_end: u64::MAX as u128,
                available: 0,
            }),
            discriminant: Some(DiscriminantInfo::Niche {
                tag_field_index: 0,
                tag_offset: 0,
                untagged_variant: "Some".into(),
                niche_start: 0,
                niche_variants_start: 1,
                niche_variants_end: 1,
            }),
        }),
    };
    let out = render_type_layout(&tl, &ctx());
    assert!(out.contains("niche optimized"));
    assert!(out.contains("niche discriminant at +0x0000"));
    assert!(out.contains("untagged: Some"));
    assert!(out.contains("niche in `ptr`"));
}

#[test]
fn render_struct_largest_niche() {
    let tl = TypeLayout {
        name: "S".into(),
        size: 1,
        alignment: 1,
        hover_info: None,
        largest_niche: Some(NicheInfo {
            offset: 0,
            field_name: Some("x".into()),
            value_type: "u8".into(),
            value_size: 1,
            valid_range_start: 0,
            valid_range_end: 1,
            available: 254,
        }),
        kind: TypeLayoutKind::Struct(StructLayout {
            fields: vec![FieldLayout {
                name: "x".into(),
                typename: "bool".into(),
                offset: 0,
                size: 1,
                alignment: 1,
                children: vec![],
                largest_niche: Some(NicheInfo {
                    offset: 0,
                    field_name: Some("x".into()),
                    value_type: "u8".into(),
                    value_size: 1,
                    valid_range_start: 0,
                    valid_range_end: 1,
                    available: 254,
                }),
            }],
            padding_bytes: 0,
        }),
    };
    let out = render_type_layout(&tl, &ctx());
    assert!(out.contains("niche: `x` (u8) at +0x0000, 254 available"));
    assert!(out.contains("254 niches available (u8, valid 0x0..=0x1)"));
}

fn field(name: &str, typename: &str, offset: u64, size: u64) -> FieldLayout {
    FieldLayout {
        name: name.into(),
        typename: typename.into(),
        offset,
        size,
        alignment: size,
        children: vec![],
        largest_niche: None,
    }
}

fn structure(name: &str, size: u64, fields: Vec<FieldLayout>) -> TypeLayout {
    TypeLayout {
        name: name.into(),
        size,
        alignment: 1,
        hover_info: None,
        largest_niche: None,
        kind: TypeLayoutKind::Struct(StructLayout {
            fields,
            padding_bytes: 0,
        }),
    }
}

#[test]
fn plain_struct_is_exact() {
    let tl = structure("Foo", 16, vec![field("a", "u64", 0, 8), field("b", "u32", 8, 4)]);
    let rule = "────────  ────  ──────────────────────────────────";
    let expected = format!(
        "\nFoo\n{}\n  size: 16 bytes, align: 1 bytes\n\n  Offset    Size  Field\n  {rule}\n  0x000000     8  a: u64\n  0x000008     4  b: u32\n  0x00000c     4  ░░░ padding\n  {rule}\n              16  total\n\n",
        "=".repeat(60)
    );
    assert_eq!(render_type_layout(&tl, &ctx()), expected);
}

#[test]
fn plain_output_has_no_escapes() {
    let tl = structure("Foo", 3, vec![field("a", "u8", 0, 1)]);
    let e = TypeLayout {
        kind: TypeLayoutKind::Enum(enum_layout_tagged(7)),
        ..structure("E", 24, vec![])
    };
    for t in [&tl, &e] {
        assert!(!render_type_layout(t, &Ctx::new(false, true)).contains('\u{1b}'));
        assert!(render_type_layout(t, &Ctx::new(true, true)).contains('\u{1b}'));
    }
    assert_eq!(render_footer("rustc 1", "", &ctx()), "nichy 0.1.0 · rustc 1\n");
    assert_eq!(
        render_footer("rustc 1", "ab", &Ctx::new(true, false)),
        "\u{1b}[2mnichy 0.1.0 · rustc 1 (ab)\u{1b}[0m\n"
    );
}

#[test]
fn byte_map_shows_who_owns_a_byte() {
    let tl = structure("T", 3, vec![field("_x", "u8", 0, 1), field("__", "u8", 2, 1)]);
    let out = render_type_layout(&tl, &Ctx::new(true, false));
    assert!(out.contains(
        "\n  \u{1b}[1mByte map:\u{1b}[0m\n  \u{1b}[38;5;75m\u{1b}[1mxx\u{1b}[0m \u{1b}[2m░░\u{1b}[0m \u{1b}[38;5;114m\u{1b}[1m??\u{1b}[0m \n"
    ));
    let big = structure("T", 65, vec![]);
    assert!(!render_type_layout(&big, &Ctx::new(true, false)).contains("Byte map"));
    let rows = structure("T", 17, vec![]);
    let out = render_type_layout(&rows, &Ctx::new(true, false));
    let map = out.split("Byte map:\u{1b}[0m\n").nth(1).unwrap();
    assert_eq!(map.lines().next().unwrap().matches("░░").count(), 16);
    assert_eq!(map.lines().nth(1).unwrap().matches("░░").count(), 1);
}

#[test]
fn large_counts_are_not_spelled_out() {
    assert_eq!(format_count((1u128 << 60) - 1), "1152921504606846975");
    assert_eq!(format_count(1u128 << 60), "a lot");
}

#[test]
fn niche_values_wrap_around() {
    let mut el = enum_layout_tagged(0);
    el.discriminant = Some(DiscriminantInfo::Niche {
        tag_field_index: 0,
        tag_offset: 0,
        untagged_variant: "Other".into(),
        niche_start: u128::MAX,
        niche_variants_start: 1,
        niche_variants_end: 2,
    });
    let v = &el.variants[0];
    assert_eq!(variant_tag_suffix(0, v, &el), None);
    assert_eq!(
        variant_tag_suffix(1, v, &el),
        Some("niche = 0xffffffffffffffffffffffffffffffff".into())
    );
    assert_eq!(variant_tag_suffix(2, v, &el), Some("niche = 0x0".into()));
    assert_eq!(variant_tag_suffix(3, v, &el), None);
}

#[test]
fn layouts_whose_ends_cannot_be_counted_are_told_apart() {
    let bad = structure("T", 1, vec![field("a", "x", u64::MAX, 1)]);
    assert!(!is_renderable(&bad));
    assert!(is_renderable(&structure("T", 1, vec![field("a", "x", u64::MAX, 0)])));
}
