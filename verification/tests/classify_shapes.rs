use rust_ast_parser::classify::{
    analyze_type, compute_box_innermost, compute_pointer_metadata, pointer_base, push_unique,
};
use rust_ast_parser::parse::{parse_type_expr, parse_type_traits};
use rust_ast_parser::scalar_map::{check_libc_scalar_pairs, ScalarAliasTable};
use rust_ast_parser::traits::TypeTraits;
use rust_ast_parser::type_expr::TypeExpr;

fn table(text: &str) -> ScalarAliasTable {
    check_libc_scalar_pairs(text).expect("the table text is well formed")
}

fn classify(text: &str) -> TypeTraits {
    parse_type_traits(text, &ScalarAliasTable::empty()).unwrap()
}

fn assert_plain(t: &TypeTraits) {
    assert!(!t.is_reference && !t.is_mut_reference);
    assert!(!t.is_slice && t.slice_elem.is_none());
    assert!(!t.is_str && !t.is_string);
    assert!(!t.is_option && t.option_inner.is_none());
    assert!(t.reference_inner.is_none());
    assert!(!t.is_pointer && !t.pointer_is_mut && t.pointer_inner.is_none());
    assert_eq!(t.pointer_depth, 0);
    assert!(!t.is_box && t.box_inner.is_none());
    assert!(t.pointer_base_ident.is_none());
    assert!(t.pointer_base_normalized.is_none());
    assert!(t.pointer_base_raw.is_none());
    assert!(t.pointer_element.is_none());
    assert!(t.box_innermost.is_none());
}

#[test]
fn a_fresh_record_has_no_flag_and_no_companion() {
    let t = TypeTraits::new("Vec < u8 >".to_string(), "Vec<u8>".to_string());
    assert_eq!(t.raw, "Vec < u8 >");
    assert_eq!(t.normalized, "Vec<u8>");
    assert_eq!(t.path_ident, None);
    assert_plain(&t);
}

#[test]
fn a_named_type_carries_its_final_identifier() {
    let t = classify("std::collections::HashMap<String, Vec<u8>>");
    assert_eq!(t.raw, "std :: collections :: HashMap < String , Vec < u8 > >");
    assert_eq!(t.normalized, "std::collections::HashMap<String, Vec<u8>>");
    assert_eq!(t.path_ident.as_deref(), Some("HashMap"));
    assert_plain(&t);
    let t = classify("Vec<Option<u8>>");
    assert_eq!(t.path_ident.as_deref(), Some("Vec"));
    assert_plain(&t);
}

#[test]
fn shapes_that_are_not_classified_are_plain() {
    for text in ["(u8, u8)", "[u8; 4]", "fn(i32) -> i32", "dyn Trait", "impl Trait", "_", "!", "()"] {
        let t = classify(text);
        assert_eq!(t.path_ident, None, "{text}");
        assert_plain(&t);
    }
    assert_eq!(classify("[u8; 4]").raw, "[u8 ; 4]");
    assert_eq!(classify("(u8, u8)").normalized, "(u8, u8)");
}

#[test]
fn strings_are_tagged() {
    let t = classify("String");
    assert!(t.is_string && !t.is_str);
    let t = classify("std::string::String");
    assert!(t.is_string);
    let t = classify("str");
    assert!(t.is_str && !t.is_string);
    let t = classify("&str");
    assert!(t.is_reference && t.is_str && !t.is_string);
    assert!(t.reference_inner.as_ref().unwrap().is_str);
    let t = classify("&'static mut String");
    assert!(t.is_reference && t.is_mut_reference && t.is_string);
}

#[test]
fn flags_travel_up_through_every_wrapper() {
    let t = classify("Option<&str>");
    assert!(t.is_option && t.is_str && !t.is_reference);
    let t = classify("&&[u16]");
    assert!(t.is_reference && t.is_slice);
    assert_eq!(t.slice_elem.as_deref(), Some("u16"));
    let t = classify("Box<[u8]>");
    assert!(t.is_box && t.is_slice);
    assert_eq!(t.slice_elem.as_deref(), Some("u8"));
    let t = classify("*const String");
    assert!(t.is_pointer && t.is_string);
    let t = classify("*mut [i32]");
    assert!(t.is_pointer && t.is_slice);
    assert_eq!(t.slice_elem.as_deref(), Some("i32"));
    let t = classify("Vec<String>");
    assert!(!t.is_string);
}

#[test]
fn a_slice_records_the_rendering_of_its_element() {
    let t = classify("[Option<u8>]");
    assert!(t.is_slice && !t.is_reference);
    assert_eq!(t.slice_elem.as_deref(), Some("Option < u8 >"));
    assert_eq!(t.path_ident, None);
}

#[test]
fn option_and_box_without_argument_have_no_inner_record() {
    let t = classify("Option");
    assert!(t.is_option && t.option_inner.is_none() && !t.is_box);
    let t = classify("Box");
    assert!(t.is_box && t.box_inner.is_none());
    assert_eq!(t.box_innermost, None);
    let t = classify("Option<'a>");
    assert!(t.is_option && t.option_inner.is_none());
}

#[test]
fn the_first_type_argument_is_the_one_that_counts() {
    let t = classify("Box<'a, Foo, Bar>");
    assert!(t.is_box);
    assert_eq!(t.box_inner.as_ref().unwrap().path_ident.as_deref(), Some("Foo"));
    assert_eq!(t.box_innermost.as_deref(), Some("Foo"));
}

#[test]
fn boxes_unwrap_to_the_deepest_payload() {
    assert_eq!(classify("Box<Foo>").box_innermost.as_deref(), Some("Foo"));
    assert_eq!(classify("Box<Box<Box<a::Foo>>>").box_innermost.as_deref(), Some("a::Foo"));
    assert_eq!(classify("Option<Box<Foo>>").box_innermost.as_deref(), Some("Foo"));
    assert_eq!(classify("&Box<Foo>").box_innermost.as_deref(), Some("Foo"));
    assert_eq!(classify("&mut Option<Box<Vec<u8>>>").box_innermost.as_deref(), Some("Vec<u8>"));
    assert_eq!(classify("Box<Option<Foo>>").box_innermost.as_deref(), Some("Option<Foo>"));
    assert_eq!(classify("Box<&Box<Foo>>").box_innermost.as_deref(), Some("Foo"));
}

#[test]
fn pointers_and_plain_wrappers_do_not_unwrap() {
    assert_eq!(classify("*mut Box<Foo>").box_innermost, None);
    assert_eq!(classify("Vec<Box<Foo>>").box_innermost, None);
    assert_eq!(classify("Option<Foo>").box_innermost, None);
    assert_eq!(classify("&Foo").box_innermost, None);
}

#[test]
fn an_option_of_a_box_is_marked_as_a_box() {
    let t = classify("Option<Box<Foo>>");
    assert!(t.is_option && t.is_box);
    assert_eq!(t.box_inner.as_ref().unwrap().path_ident.as_deref(), Some("Foo"));
    let inner = t.option_inner.as_ref().unwrap();
    assert_eq!(inner.path_ident.as_deref(), Some("Box"));
    assert_eq!(inner.box_inner, t.box_inner);
}

#[test]
fn parentheses_are_transparent_but_for_the_rendering() {
    let t = classify("(*mut u8)");
    assert!(t.is_pointer && t.pointer_is_mut);
    assert_eq!(t.pointer_depth, 1);
    assert_eq!(t.raw, "(* mut u8)");
    assert_eq!(t.normalized, "(*mut u8)");
    assert_eq!(t.pointer_element.as_deref(), Some("u8"));
    let t = classify("*const (*mut (Foo))");
    assert_eq!(t.pointer_depth, 2);
    assert!(!t.pointer_is_mut);
    assert_eq!(t.pointer_base_ident.as_deref(), Some("Foo"));
    assert_eq!(t.pointer_base_raw.as_deref(), Some("(Foo)"));
    assert_eq!(t.pointer_element.as_deref(), Some("Foo"));
}

#[test]
fn pointer_element_prefers_the_table_then_primitives_then_the_name() {
    let t = table("libc::c_char=i8\nFoo=u16\n");
    let element = |text: &str| parse_type_traits(text, &t).unwrap().pointer_element.unwrap();
    assert_eq!(element("*mut libc::c_char"), "i8");
    assert_eq!(element("*mut c_char"), "i8");
    assert_eq!(element("*mut Foo"), "u16");
    assert_eq!(element("*mut bar::Foo"), "u16");
    assert_eq!(element("*mut u64"), "u64");
    assert_eq!(element("*mut core::primitive::f32"), "f32");
    assert_eq!(element("*mut Bar"), "Bar");
    assert_eq!(element("*mut a::Bar<T>"), "Bar");
    assert_eq!(element("*mut (u8, u8)"), "(u8, u8)");
    assert_eq!(element("*mut [u8]"), "[u8]");
    assert_eq!(element("*const ()"), "()");
}

#[test]
fn pointer_base_metadata() {
    let t = parse_type_traits("*mut *const libc::c_int", &table("c_int=i32")).unwrap();
    assert_eq!(t.pointer_base_ident.as_deref(), Some("c_int"));
    assert_eq!(t.pointer_base_normalized.as_deref(), Some("libc::c_int"));
    assert_eq!(t.pointer_base_raw.as_deref(), Some("libc :: c_int"));
    assert_eq!(t.pointer_element.as_deref(), Some("i32"));
    let base = pointer_base(&t).unwrap();
    assert_eq!(base.raw, "libc :: c_int");
    let meta = compute_pointer_metadata(&t, &table("c_int=i32"));
    assert_eq!(meta.element, "i32");
    assert_eq!(meta.base_ident.as_deref(), Some("c_int"));
    let t = classify("*mut (u8, u8)");
    assert_eq!(t.pointer_base_ident, None);
    assert_eq!(t.pointer_base_normalized.as_deref(), Some("(u8, u8)"));
}

#[test]
fn what_is_no_pointer_has_no_base_and_the_default_element() {
    let t = classify("Foo");
    assert!(pointer_base(&t).is_none());
    let meta = compute_pointer_metadata(&t, &ScalarAliasTable::empty());
    assert_eq!(meta.element, "u8");
    assert_eq!(meta.base_ident, None);
    assert_eq!(meta.base_normalized, None);
    assert_eq!(meta.base_raw, None);
    assert_eq!(compute_box_innermost(&t), None);
}

#[test]
fn a_base_without_any_name_gets_the_default_element() {
    let expr = TypeExpr::Pointer {
        raw: "* mut".to_string(),
        mutable: true,
        elem: Box::new(TypeExpr::Other { raw: String::new() }),
    };
    let t = analyze_type(&expr, &ScalarAliasTable::empty());
    assert_eq!(t.pointer_element.as_deref(), Some("u8"));
    assert_eq!(t.pointer_base_normalized, None);
    assert_eq!(t.pointer_base_raw, None);
}

#[test]
fn push_unique_skips_empty_and_known_values() {
    let mut list: Vec<String> = Vec::new();
    push_unique(&mut list, "a".to_string());
    push_unique(&mut list, String::new());
    push_unique(&mut list, "b".to_string());
    push_unique(&mut list, "a".to_string());
    assert_eq!(list, vec!["a", "b"]);
}

#[test]
fn a_parsed_expression_mirrors_the_syntax() {
    let expr = parse_type_expr(" &mut [u8] ").unwrap();
    let want = TypeExpr::Reference {
        raw: "& mut [u8]".to_string(),
        mutable: true,
        elem: Box::new(TypeExpr::Slice { raw: "[u8]".to_string(), elem_raw: "u8".to_string() }),
    };
    assert_eq!(expr, want);
    assert_eq!(expr.raw(), "& mut [u8]");
    let expr = parse_type_expr("a::Option<'x, Foo>").unwrap();
    let want = TypeExpr::Path {
        raw: "a :: Option < 'x , Foo >".to_string(),
        ident: Some("Option".to_string()),
        type_arg: Some(Box::new(TypeExpr::Path {
            raw: "Foo".to_string(),
            ident: Some("Foo".to_string()),
            type_arg: None,
        })),
    };
    assert_eq!(expr, want);
    let expr = parse_type_expr("(*const (A, B))").unwrap();
    let want = TypeExpr::Grouped {
        raw: "(* const (A , B))".to_string(),
        elem: Box::new(TypeExpr::Pointer {
            raw: "* const (A , B)".to_string(),
            mutable: false,
            elem: Box::new(TypeExpr::Other { raw: "(A , B)".to_string() }),
        }),
    };
    assert_eq!(expr, want);
}

#[test]
fn a_record_and_its_copy_are_equal() {
    let t = classify("&mut Option<Box<*const libc::c_int>>");
    let copy = t.deep_copy();
    assert_eq!(copy, t);
    assert_eq!(t.clone(), t);
}

#[test]
fn the_raw_rendering_of_the_base_is_tried_as_it_is() {
    // The alias is spelled as the parser renders the path.
    let t = table("foo :: Bar=i32\n");
    let traits = parse_type_traits("*mut foo::Bar", &t).unwrap();
    assert_eq!(traits.pointer_element.as_deref(), Some("i32"));
    assert_eq!(traits.pointer_base_ident.as_deref(), Some("Bar"));
    assert_eq!(traits.pointer_base_normalized.as_deref(), Some("foo::Bar"));
    assert_eq!(traits.pointer_base_raw.as_deref(), Some("foo :: Bar"));
    // The identifier and the normalized rendering come first.
    let t = table("Bar=u16\nfoo :: Bar=i32\n");
    let traits = parse_type_traits("*mut foo::Bar", &t).unwrap();
    assert_eq!(traits.pointer_element.as_deref(), Some("u16"));
}

#[test]
fn the_element_of_a_pointer_is_never_empty() {
    let t = table("libc::c_int=i32\n");
    for text in ["*mut u8", "*const libc::c_int", "*mut ()", "*mut [u8; 2]", "*mut *mut Foo<T>", "*const _"] {
        let traits = parse_type_traits(text, &t).unwrap();
        assert!(!traits.pointer_element.unwrap().is_empty(), "{text}");
    }
}
