use rust_ast_parser::parse::{parse_function_signature, parse_type_traits};
use rust_ast_parser::scalar_map::{check_libc_scalar_pairs, ScalarAliasTable};

fn classify(text: &str) -> rust_ast_parser::traits::TypeTraits {
    parse_type_traits(text, &ScalarAliasTable::empty()).unwrap()
}

#[test]
fn a_qualified_associated_type_under_an_option() {
    let t = classify("Option<<T as Trait>::Out>");
    assert!(t.is_option);
    let inner = t.option_inner.as_ref().unwrap();
    assert_eq!(inner.raw, "< T as Trait > :: Out");
    assert_eq!(inner.normalized, "<T as Trait>::Out");
    assert_eq!(inner.path_ident.as_deref(), Some("Out"));
}

#[test]
fn a_closure_type_in_a_box() {
    let t = classify("Option<Box<dyn FnMut(&mut [u8]) -> Result<(), E> + Send + 'static>>");
    assert!(t.is_option && t.is_box);
    assert_eq!(
        t.box_innermost.as_deref(),
        Some("dyn FnMut (&mut [u8]) -> Result<(), E> + Send + 'static")
    );
    let payload = t.box_inner.as_ref().unwrap();
    assert_eq!(payload.path_ident, None);
    assert!(!payload.is_reference && !payload.is_slice);
}

#[test]
fn a_pointer_to_a_function_pointer() {
    let t = classify("*const extern \"C\" fn(i32, *mut u8) -> i32");
    assert!(t.is_pointer);
    assert_eq!(t.pointer_depth, 1);
    assert_eq!(t.pointer_base_ident, None);
    assert_eq!(t.pointer_element.as_deref(), Some("extern \"C\" fn (i32, *mut u8) -> i32"));
}

#[test]
fn references_with_lifetimes_and_arrays() {
    let t = classify("&'a mut [&'static str; 3]");
    assert!(t.is_reference && t.is_mut_reference);
    assert!(!t.is_slice && !t.is_str);
    let inner = t.reference_inner.as_ref().unwrap();
    assert_eq!(inner.raw, "[& 'static str ; 3]");
    assert_eq!(inner.normalized, "[&'static str ; 3]");
    let t = classify("&'a [&'static str]");
    assert!(t.is_slice);
    assert_eq!(t.slice_elem.as_deref(), Some("& 'static str"));
    assert!(!t.is_str);
}

#[test]
fn a_path_from_the_root_under_pointers() {
    let table = check_libc_scalar_pairs("std::os::raw::c_char=i8\n").unwrap();
    let t = parse_type_traits("*mut *const ::std::os::raw::c_char", &table).unwrap();
    assert_eq!(t.pointer_depth, 2);
    assert_eq!(t.pointer_element.as_deref(), Some("i8"));
    assert_eq!(t.pointer_base_ident.as_deref(), Some("c_char"));
    assert_eq!(t.pointer_base_normalized.as_deref(), Some("::std::os::raw::c_char"));
}

#[test]
fn macros_never_and_inferred_types_under_wrappers() {
    let t = classify("Box<ty!(a b)>");
    assert_eq!(t.box_innermost.as_deref(), Some("ty ! (a b)"));
    let t = classify("Option<!>");
    assert_eq!(t.option_inner.as_ref().unwrap().raw, "!");
    let t = classify("*mut _");
    assert_eq!(t.pointer_element.as_deref(), Some("_"));
    let t = classify("&(impl Trait + 'a)");
    let inner = t.reference_inner.as_ref().unwrap();
    assert_eq!(inner.raw, "(impl Trait + 'a)");
    assert!(!inner.is_reference);
}

#[test]
fn deep_nesting_is_followed_to_the_bottom() {
    let depth = 30;
    let text = format!("{}u8", "*mut ".repeat(depth));
    let t = classify(&text);
    assert_eq!(t.pointer_depth, depth);
    assert_eq!(t.pointer_element.as_deref(), Some("u8"));
    let mut node = &t;
    let mut layers = 0;
    while let Some(inner) = node.pointer_inner.as_ref() {
        node = inner;
        layers += 1;
    }
    assert_eq!(layers, depth);
    assert_eq!(node.raw, "u8");
    let text = format!("{}Node{}", "Option<Box<".repeat(10), ">>".repeat(10));
    assert_eq!(classify(&text).box_innermost.as_deref(), Some("Node"));
}

#[test]
fn parameter_types_are_read_like_types_alone() {
    let table = check_libc_scalar_pairs("libc::c_int=i32\n").unwrap();
    let texts = ["*mut *const libc::c_int", "&'a mut [u8]", "Option<Box<Node>>", "(A, B)", "Vec<u8>"];
    let signature = format!(
        "fn f<'a>(a: {}, b: {}, c: {}, d: {}) -> {}",
        texts[0], texts[1], texts[2], texts[3], texts[4]
    );
    let sig = parse_function_signature(&signature, &table).unwrap();
    for (param, text) in sig.params.iter().zip(texts) {
        assert_eq!(param.traits, parse_type_traits(text, &table).unwrap(), "{text}");
        assert_eq!(param.ty, param.traits.raw);
    }
    assert_eq!(sig.ret.unwrap(), parse_type_traits(texts[4], &table).unwrap());
}
