use rust_ast_parser::aliases::{
    collect_stdint_names, ensure_libc_imports, normalize_stdint_aliases,
    should_strip_stdint_alias, AliasSegment, AliasTarget, ItemKind, PathUse, TypeAlias, UnitItem,
};
use rust_ast_parser::stdint::StdintSet;
use rust_ast_parser::use_tree::{
    collect_libc_names, copy_tree, ensure_aliases_in_libc_group, ensure_aliases_in_use_tree,
    UseTree,
};

fn name(ident: &str) -> UseTree {
    UseTree::Name { ident: ident.to_string() }
}

fn path(ident: &str, tree: UseTree) -> UseTree {
    UseTree::Path { ident: ident.to_string(), tree: Box::new(tree) }
}

fn group(items: Vec<UseTree>) -> UseTree {
    UseTree::Group { items }
}

fn rename(ident: &str, rename: &str) -> UseTree {
    UseTree::Rename { ident: ident.to_string(), rename: rename.to_string() }
}

fn set(names: &[&str]) -> StdintSet {
    let mut s = StdintSet::new();
    for n in names {
        s.insert(n);
    }
    s
}

fn bare(ident: &str) -> PathUse {
    PathUse { leading_colon: false, segments: vec![ident.to_string()] }
}

fn alias(name: &str, target: &str) -> TypeAlias {
    TypeAlias {
        name: name.to_string(),
        target: AliasTarget::Path {
            has_qself: false,
            segments: vec![AliasSegment { ident: target.to_string(), has_arguments: false }],
        },
    }
}

fn alias_item(name: &str, target: &str, source: usize) -> UnitItem {
    UnitItem {
        kind: ItemKind::TypeAlias(alias(name, target)),
        paths: vec![bare(target)],
        source: Some(source),
    }
}

fn use_item(tree: UseTree, source: usize) -> UnitItem {
    UnitItem { kind: ItemKind::Use(tree), paths: vec![], source: Some(source) }
}

fn other_item(paths: Vec<PathUse>, source: usize) -> UnitItem {
    UnitItem { kind: ItemKind::Other, paths, source: Some(source) }
}

fn new_import(names: &[&str]) -> UnitItem {
    UnitItem {
        kind: ItemKind::Use(path("libc", group(names.iter().map(|n| name(n)).collect()))),
        paths: vec![],
        source: None,
    }
}

#[test]
fn redundant_alias_is_removed_and_one_import_is_made() {
    // type int32_t = i32; fn f(x: int32_t) {}
    let unit = vec![alias_item("int32_t", "i32", 0), other_item(vec![bare("int32_t")], 1)];
    let got = normalize_stdint_aliases(unit);
    let want = vec![new_import(&["int32_t"]), other_item(vec![bare("int32_t")], 1)];
    assert_eq!(got, want);
}

#[test]
fn no_import_is_made_where_one_holds_the_name_already() {
    // use libc::{c_int, int32_t}; type int32_t = i32; fn f(x: int32_t) {}
    let import = || use_item(path("libc", group(vec![name("c_int"), name("int32_t")])), 0);
    let unit = vec![import(), alias_item("int32_t", "i32", 1), other_item(vec![bare("int32_t")], 2)];
    let got = normalize_stdint_aliases(unit);
    assert_eq!(got, vec![import(), other_item(vec![bare("int32_t")], 2)]);
    // use libc::int32_t; fn f(x: int32_t) {}
    let unit = vec![use_item(path("libc", name("int32_t")), 0), other_item(vec![bare("int32_t")], 1)];
    let got = normalize_stdint_aliases(unit);
    assert_eq!(
        got,
        vec![use_item(path("libc", name("int32_t")), 0), other_item(vec![bare("int32_t")], 1)]
    );
}

#[test]
fn missing_names_are_merged_into_a_group_of_the_namespace() {
    let unit = vec![
        use_item(path("libc", group(vec![name("c_int"), name("int32_t")])), 0),
        other_item(vec![bare("uint8_t"), bare("int32_t"), bare("int16_t")], 1),
    ];
    let got = normalize_stdint_aliases(unit);
    let merged = path(
        "libc",
        group(vec![name("c_int"), name("int32_t"), name("int16_t"), name("uint8_t")]),
    );
    assert_eq!(
        got,
        vec![
            use_item(merged, 0),
            other_item(vec![bare("uint8_t"), bare("int32_t"), bare("int16_t")], 1)
        ]
    );
}

#[test]
fn a_single_name_of_the_namespace_becomes_a_group() {
    let unit = vec![
        use_item(path("libc", name("c_int")), 0),
        other_item(vec![bare("uint8_t"), bare("int64_t")], 1),
    ];
    let got = normalize_stdint_aliases(unit);
    let merged = path("libc", group(vec![name("c_int"), name("int64_t"), name("uint8_t")]));
    assert_eq!(got[0], use_item(merged, 0));
    assert_eq!(got.len(), 2);
}

#[test]
fn a_glob_of_the_namespace_brings_every_name() {
    let unit = vec![
        use_item(path("libc", UseTree::Glob), 0),
        alias_item("uint16_t", "u16", 1),
        other_item(vec![bare("int8_t")], 2),
    ];
    let got = normalize_stdint_aliases(unit);
    assert_eq!(
        got,
        vec![use_item(path("libc", UseTree::Glob), 0), other_item(vec![bare("int8_t")], 2)]
    );
    let unit = vec![
        use_item(path("libc", group(vec![name("c_int"), UseTree::Glob])), 0),
        other_item(vec![bare("int8_t")], 1),
    ];
    let got = normalize_stdint_aliases(unit);
    assert_eq!(got[0], use_item(path("libc", group(vec![name("c_int"), UseTree::Glob])), 0));
    assert_eq!(got.len(), 2);
}

#[test]
fn a_rename_meets_the_need_for_the_name_it_renames() {
    let unit = vec![
        use_item(path("libc", rename("int32_t", "I32")), 0),
        other_item(vec![bare("int32_t")], 1),
    ];
    let got = normalize_stdint_aliases(unit);
    assert_eq!(got.len(), 2);
    assert_eq!(got[0], use_item(path("libc", rename("int32_t", "I32")), 0));
}

#[test]
fn the_new_import_follows_the_last_import() {
    let std_use = || use_item(path("std", path("collections", name("HashMap"))), 0);
    let other_use = || use_item(path("core", name("fmt")), 2);
    let unit = vec![
        std_use(),
        other_item(vec![bare("int8_t")], 1),
        other_use(),
        alias_item("uint64_t", "u64", 3),
        other_item(vec![bare("uint64_t"), bare("HashMap")], 4),
    ];
    let got = normalize_stdint_aliases(unit);
    let want = vec![
        std_use(),
        other_item(vec![bare("int8_t")], 1),
        other_use(),
        new_import(&["int8_t", "uint64_t"]),
        other_item(vec![bare("uint64_t"), bare("HashMap")], 4),
    ];
    assert_eq!(got, want);
}

#[test]
fn a_unit_without_fixed_width_names_stays_as_it_is() {
    let unit = || {
        vec![
            use_item(path("libc", name("c_int")), 0),
            alias_item("size_type", "usize", 1),
            other_item(vec![bare("c_int"), bare("size_type")], 2),
        ]
    };
    assert_eq!(normalize_stdint_aliases(unit()), unit());
    assert_eq!(normalize_stdint_aliases(vec![]), vec![]);
}

#[test]
fn only_an_alias_that_restates_its_name_is_redundant() {
    assert_eq!(should_strip_stdint_alias(&alias("int32_t", "i32")).as_deref(), Some("int32_t"));
    assert_eq!(should_strip_stdint_alias(&alias("uint8_t", "u8")).as_deref(), Some("uint8_t"));
    assert_eq!(should_strip_stdint_alias(&alias("int32_t", "i64")), None);
    assert_eq!(should_strip_stdint_alias(&alias("int32_t", "c_int")), None);
    assert_eq!(should_strip_stdint_alias(&alias("my_int", "i32")), None);
    let segment = |ident: &str, has_arguments| AliasSegment { ident: ident.to_string(), has_arguments };
    let with_target = |target| TypeAlias { name: "int32_t".to_string(), target };
    assert_eq!(should_strip_stdint_alias(&with_target(AliasTarget::Other)), None);
    assert_eq!(
        should_strip_stdint_alias(&with_target(AliasTarget::Path {
            has_qself: true,
            segments: vec![segment("i32", false)]
        })),
        None
    );
    assert_eq!(
        should_strip_stdint_alias(&with_target(AliasTarget::Path {
            has_qself: false,
            segments: vec![segment("i32", true)]
        })),
        None
    );
    assert_eq!(
        should_strip_stdint_alias(&with_target(AliasTarget::Path {
            has_qself: false,
            segments: vec![segment("core", false), segment("i32", false)]
        })),
        None
    );
    assert_eq!(
        should_strip_stdint_alias(&with_target(AliasTarget::Path {
            has_qself: false,
            segments: vec![]
        })),
        None
    );
}

#[test]
fn an_alias_that_is_kept_does_not_call_for_an_import() {
    // type int32_t = i64;
    let unit = || vec![alias_item("int32_t", "i64", 0)];
    assert_eq!(normalize_stdint_aliases(unit()), unit());
}

#[test]
fn only_bare_single_segment_paths_count_as_uses() {
    let items = vec![
        other_item(
            vec![
                bare("int8_t"),
                PathUse { leading_colon: true, segments: vec!["int16_t".to_string()] },
                PathUse {
                    leading_colon: false,
                    segments: vec!["libc".to_string(), "int32_t".to_string()],
                },
                PathUse { leading_colon: false, segments: vec![] },
                bare("size_t"),
            ],
            0,
        ),
        other_item(vec![bare("uint64_t"), bare("int8_t")], 1),
    ];
    assert_eq!(collect_stdint_names(&items).names(), vec!["int8_t", "uint64_t"]);
    assert!(collect_stdint_names(&vec![]).is_empty());
}

#[test]
fn imports_outside_the_namespace_are_left_alone() {
    let tree = path("std", group(vec![name("int8_t"), path("os", name("raw"))]));
    let mut needed = set(&["int8_t"]);
    let got = ensure_aliases_in_use_tree(&tree, &mut needed, false);
    assert_eq!(got, tree);
    assert_eq!(needed, set(&["int8_t"]));
}

#[test]
fn the_namespace_is_found_inside_a_group() {
    // use {std::fmt, libc::{c_int}};
    let tree = group(vec![path("std", name("fmt")), path("libc", group(vec![name("c_int")]))]);
    let mut needed = set(&["int8_t", "uint8_t"]);
    let got = ensure_aliases_in_use_tree(&tree, &mut needed, false);
    let want = group(vec![
        path("std", name("fmt")),
        path("libc", group(vec![name("c_int"), name("int8_t"), name("uint8_t")])),
    ]);
    assert_eq!(got, want);
    assert!(needed.is_empty());
}

#[test]
fn names_under_a_module_of_the_namespace_count() {
    // use libc::types::{int8_t as i, uint8_t};
    let tree = path("libc", path("types", group(vec![rename("int8_t", "i"), name("uint8_t")])));
    let mut found = StdintSet::new();
    let mut glob = false;
    collect_libc_names(&tree, false, &mut found, &mut glob);
    assert_eq!(found.names(), vec!["int8_t", "uint8_t"]);
    assert!(!glob);
    let mut found = StdintSet::new();
    collect_libc_names(&path("std", name("int8_t")), false, &mut found, &mut glob);
    assert!(found.is_empty());
    collect_libc_names(&group(vec![UseTree::Glob, name("int8_t")]), true, &mut found, &mut glob);
    assert!(glob);
    assert!(found.is_empty());
}

#[test]
fn a_group_of_the_namespace_gets_what_it_lacks() {
    let items = vec![name("int8_t"), name("c_int")];
    let mut needed = set(&["int8_t", "int16_t"]);
    let got = ensure_aliases_in_libc_group(&items, &mut needed);
    assert_eq!(got, vec![name("int8_t"), name("c_int"), name("int16_t")]);
    assert!(needed.is_empty());
}

#[test]
fn nothing_needed_means_nothing_done() {
    let unit = || vec![other_item(vec![bare("int8_t")], 0)];
    assert_eq!(ensure_libc_imports(unit(), &StdintSet::new()), unit());
    let got = ensure_libc_imports(unit(), &set(&["uint32_t", "int64_t"]));
    assert_eq!(got, vec![new_import(&["int64_t", "uint32_t"]), other_item(vec![bare("int8_t")], 0)]);
}

#[test]
fn a_copy_of_a_tree_equals_the_tree() {
    let tree = group(vec![
        path("a", group(vec![name("b"), rename("c", "d"), UseTree::Glob])),
        name("e"),
    ]);
    assert_eq!(copy_tree(&tree), tree);
}

fn sample_units() -> Vec<Vec<UnitItem>> {
    vec![
        vec![alias_item("int32_t", "i32", 0), other_item(vec![bare("int32_t")], 1)],
        vec![
            use_item(path("std", path("collections", name("HashMap"))), 0),
            other_item(vec![bare("int8_t")], 1),
            use_item(path("core", name("fmt")), 2),
            alias_item("uint64_t", "u64", 3),
            other_item(vec![bare("uint64_t"), bare("HashMap")], 4),
        ],
        vec![
            use_item(path("libc", name("c_int")), 0),
            alias_item("uint8_t", "u8", 1),
            other_item(vec![bare("int16_t")], 2),
        ],
        vec![
            use_item(group(vec![path("libc", name("int8_t")), path("std", name("mem"))]), 0),
            other_item(vec![bare("int8_t"), bare("uint32_t")], 1),
        ],
        vec![other_item(vec![], 0)],
        vec![],
    ]
}

#[test]
fn a_second_run_of_the_pass_changes_nothing() {
    let once: Vec<Vec<UnitItem>> =
        sample_units().into_iter().map(normalize_stdint_aliases).collect();
    let twice: Vec<Vec<UnitItem>> = sample_units()
        .into_iter()
        .map(|unit| normalize_stdint_aliases(normalize_stdint_aliases(unit)))
        .collect();
    assert_eq!(twice, once);
    // The import of the third unit is widened, and the second run finds the names in it.
    assert_eq!(
        once[2],
        vec![
            use_item(path("libc", group(vec![name("c_int"), name("int16_t"), name("uint8_t")])), 0),
            other_item(vec![bare("int16_t")], 2),
        ]
    );
}
