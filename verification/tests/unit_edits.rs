use rust_ast_parser::aliases::{libc_scalar_primitive, AliasSegment, AliasTarget};
use rust_ast_parser::declaration::declaration_without_value;
use rust_ast_parser::dedup::{dedup_keep, ItemClass, ItemKey};
use rust_ast_parser::scalar_map::check_libc_scalar_pairs;
use rust_ast_parser::use_tree::{collect_paths, collect_use_idents, UsePathError, UseTree};

fn name(ident: &str) -> UseTree {
    UseTree::Name { ident: ident.to_string() }
}

fn path(ident: &str, tree: UseTree) -> UseTree {
    UseTree::Path { ident: ident.to_string(), tree: Box::new(tree) }
}

fn group(items: Vec<UseTree>) -> UseTree {
    UseTree::Group { items }
}

fn rename(ident: &str, rename: &str) -> UseTree {
    UseTree::Rename { ident: ident.to_string(), rename: rename.to_string() }
}

fn key(class: ItemClass, key: &str) -> ItemKey {
    ItemKey { class, key: key.to_string() }
}

fn segment(ident: &str, has_arguments: bool) -> AliasSegment {
    AliasSegment { ident: ident.to_string(), has_arguments }
}

#[test]
fn names_that_an_import_binds() {
    // use a::{b, c as d, *, e::{self, f}};
    let tree = path(
        "a",
        group(vec![
            name("b"),
            rename("c", "d"),
            UseTree::Glob,
            path("e", group(vec![name("self"), name("f")])),
        ]),
    );
    let mut found = vec!["z".to_string()];
    collect_use_idents(&tree, &mut found);
    assert_eq!(found, vec!["z", "b", "d", "self", "f"]);
}

#[test]
fn paths_that_an_import_brings() {
    // use a::{b, *, e::{self, f}};
    let tree = path(
        "a",
        group(vec![name("b"), UseTree::Glob, path("e", group(vec![name("self"), name("f")]))]),
    );
    let mut prefix = vec![];
    let mut all = vec![vec!["x".to_string()]];
    assert_eq!(collect_paths(&tree, &mut prefix, &mut all), Ok(()));
    assert!(prefix.is_empty());
    assert_eq!(
        all,
        vec![vec!["x"], vec!["a", "b"], vec!["a", "*"], vec!["a", "e"], vec!["a", "e", "f"]]
    );
}

#[test]
fn an_import_with_a_rename_has_no_path_list() {
    let tree = path("a", group(vec![name("b"), rename("c", "d"), name("e")]));
    let mut prefix = vec!["p".to_string()];
    let mut all = vec![];
    let got = collect_paths(&tree, &mut prefix, &mut all);
    assert_eq!(got, Err(UsePathError::Renamed));
    assert_eq!(prefix, vec!["p"]);
    assert_eq!(UsePathError::Renamed.message(), "Use statements with 'as' are not supported");
}

#[test]
fn the_first_declaration_of_a_kind_and_name_stays() {
    let items = vec![
        key(ItemClass::Struct, "A"),
        key(ItemClass::Enum, "A"),
        key(ItemClass::Struct, "A"),
        key(ItemClass::Use, "use a :: b ;"),
        key(ItemClass::Use, "use a :: b ;"),
        key(ItemClass::Other, ""),
        key(ItemClass::Other, ""),
        key(ItemClass::Const, "N"),
        key(ItemClass::Static, "N"),
        key(ItemClass::Const, "N"),
        key(ItemClass::Union, "U"),
        key(ItemClass::Union, "U"),
        key(ItemClass::Type, "T"),
        key(ItemClass::Type, "T"),
    ];
    let keep = dedup_keep(&items, &vec![]);
    assert_eq!(
        keep,
        vec![
            true, true, false, true, false, true, true, true, true, false, true, false, true, false
        ]
    );
    assert_eq!(dedup_keep(&vec![], &vec![]), Vec::<bool>::new());
}

#[test]
fn an_alias_for_an_imported_fixed_width_name_goes() {
    let items = vec![
        key(ItemClass::Type, "int32_t"),
        key(ItemClass::Type, "uint8_t"),
        key(ItemClass::Type, "size_t"),
        key(ItemClass::Struct, "int32_t"),
        key(ItemClass::Type, "int32_t"),
        key(ItemClass::Type, "uint8_t"),
    ];
    let imported = vec!["int32_t".to_string(), "size_t".to_string()];
    assert_eq!(dedup_keep(&items, &imported), vec![false, true, true, true, false, false]);
}

#[test]
fn the_head_of_a_declaration_without_value() {
    assert_eq!(
        declaration_without_value("static mut COUNT: i32 = ;\n", "static"),
        "static mut COUNT: i32 ;"
    );
    assert_eq!(
        declaration_without_value("\n    const N: usize = ;\n", "const"),
        "const N: usize ;"
    );
    assert_eq!(
        declaration_without_value("const A: [u8; 2] = [\n    1,\n];\n", "const"),
        "const A: [u8; 2] = [\n    1,\n];"
    );
    assert_eq!(declaration_without_value("static X: u8 = ;", "const"), "static X: u8 = ;");
    assert_eq!(declaration_without_value("", "static"), "");
    assert_eq!(
        declaration_without_value("// c\nstatic F: fn() = = ;\nstatic G: u8 = ;", "static"),
        "static F: fn() ;"
    );
}

#[test]
fn a_scalar_of_the_namespace_is_replaced_by_its_primitive() {
    let table = check_libc_scalar_pairs("libc::c_int=i32\nsize_t=usize\n").unwrap();
    let target = |has_qself, segments| AliasTarget::Path { has_qself, segments };
    let two = |a: &str, b: &str| vec![segment(a, false), segment(b, false)];
    assert_eq!(
        libc_scalar_primitive(&target(false, two("libc", "c_int")), &table).as_deref(),
        Some("i32")
    );
    assert_eq!(
        libc_scalar_primitive(&target(false, two("libc", "size_t")), &table).as_deref(),
        Some("usize")
    );
    assert_eq!(libc_scalar_primitive(&target(false, two("libc", "c_long")), &table), None);
    assert_eq!(libc_scalar_primitive(&target(false, two("other", "c_int")), &table), None);
    assert_eq!(libc_scalar_primitive(&target(true, two("libc", "c_int")), &table), None);
    assert_eq!(
        libc_scalar_primitive(&target(false, vec![segment("c_int", false)]), &table),
        None
    );
    assert_eq!(
        libc_scalar_primitive(
            &target(false, vec![segment("libc", true), segment("c_int", false)]),
            &table
        ),
        None
    );
    assert_eq!(
        libc_scalar_primitive(
            &target(false, vec![segment("libc", false), segment("c_int", true)]),
            &table
        )
        .as_deref(),
        Some("i32")
    );
    assert_eq!(
        libc_scalar_primitive(
            &target(false, vec![segment("a", false), segment("libc", false), segment("c_int", false)]),
            &table
        ),
        None
    );
    assert_eq!(libc_scalar_primitive(&AliasTarget::Other, &table), None);
}
