use rust_ast_parser::parse::{parse_type_traits, ClassifyError};
use rust_ast_parser::scalar_map::{check_libc_scalar_pairs, ScalarAliasTable};

fn table(text: &str) -> ScalarAliasTable {
    check_libc_scalar_pairs(text).expect("the table text is well formed")
}

#[test]
fn double_pointer_to_alias_resolves_through_the_table() {
    let t = table("MyAlias=i64\n");
    let traits = parse_type_traits("*mut *mut MyAlias", &t).unwrap();
    assert!(traits.is_pointer);
    assert!(traits.pointer_is_mut);
    assert_eq!(traits.pointer_depth, 2);
    assert_eq!(traits.pointer_element.as_deref(), Some("i64"));
    assert_eq!(traits.pointer_base_ident.as_deref(), Some("MyAlias"));
    assert_eq!(traits.pointer_base_normalized.as_deref(), Some("MyAlias"));
    assert_eq!(traits.pointer_base_raw.as_deref(), Some("MyAlias"));
    assert_eq!(traits.raw, "* mut * mut MyAlias");
    assert_eq!(traits.normalized, "*mut *mut MyAlias");
    let inner = traits.pointer_inner.as_ref().unwrap();
    assert_eq!(inner.pointer_depth, 1);
    assert_eq!(inner.pointer_element.as_deref(), Some("i64"));
    let base = inner.pointer_inner.as_ref().unwrap();
    assert!(!base.is_pointer);
    assert_eq!(base.pointer_depth, 0);
    assert_eq!(base.pointer_element, None);
    assert_eq!(base.path_ident.as_deref(), Some("MyAlias"));
}

#[test]
fn triple_pointer_to_scalar_alias_bare_and_qualified() {
    let t = table("# C integers\nlibc::c_int=i32\n");
    for text in ["*mut *mut *mut c_int", "*const *mut *const libc::c_int"] {
        let traits = parse_type_traits(text, &t).unwrap();
        assert_eq!(traits.pointer_depth, 3, "{text}");
        assert_eq!(traits.pointer_element.as_deref(), Some("i32"), "{text}");
    }
}

#[test]
fn reference_to_slice_is_tagged_at_the_outer_node() {
    let t = table("");
    let traits = parse_type_traits("&[u8]", &t).unwrap();
    assert!(traits.is_reference);
    assert!(!traits.is_mut_reference);
    assert!(traits.is_slice);
    assert_eq!(traits.slice_elem.as_deref(), Some("u8"));
    let inner = traits.reference_inner.as_ref().unwrap();
    assert!(inner.is_slice);
    assert!(!inner.is_reference);
    let traits = parse_type_traits("&mut [Vec<u8>]", &t).unwrap();
    assert!(traits.is_reference && traits.is_mut_reference && traits.is_slice);
    assert_eq!(traits.slice_elem.as_deref(), Some("Vec < u8 >"));
}

#[test]
fn option_of_box_unwraps_to_the_payload() {
    let t = table("");
    let traits = parse_type_traits("Option<Box<my_mod::Node>>", &t).unwrap();
    assert!(traits.is_option);
    assert!(traits.is_box);
    assert_eq!(traits.box_innermost.as_deref(), Some("my_mod::Node"));
    assert_eq!(traits.path_ident.as_deref(), Some("Option"));
    let boxed = traits.option_inner.as_ref().unwrap();
    assert!(boxed.is_box && !boxed.is_option);
    assert_eq!(boxed.box_innermost.as_deref(), Some("my_mod::Node"));
    let payload = traits.box_inner.as_ref().unwrap();
    assert_eq!(payload.raw, "my_mod :: Node");
    assert_eq!(payload.normalized, "my_mod::Node");
    assert_eq!(payload.box_innermost, None);
}

#[test]
fn blank_type_text_is_an_input_error() {
    let t = table("");
    for text in ["", " ", "\t\n  "] {
        let err = parse_type_traits(text, &t).unwrap_err();
        assert_eq!(err, ClassifyError::EmptyType);
        assert_eq!(err.message(), "Type string cannot be empty");
    }
}

#[test]
fn unparsable_type_text_is_reported() {
    let t = table("");
    let err = parse_type_traits("*mut", &t).unwrap_err();
    assert!(matches!(err, ClassifyError::InvalidType(_)));
    assert!(err.message().starts_with("Failed to parse type: Error("));
}
