use rust_ast_parser::parse::{
    analyze_signature, parse_function_signature, parse_signature_expr, prepare_signature,
    ClassifyError, InputExpr,
};
use rust_ast_parser::scalar_map::{check_libc_scalar_pairs, ScalarAliasTable};
use rust_ast_parser::type_expr::TypeExpr;

#[test]
fn blank_signature_text_is_an_input_error() {
    let t = ScalarAliasTable::empty();
    for text in ["", "   ", "\n\t"] {
        let err = parse_function_signature(text, &t).unwrap_err();
        assert_eq!(err, ClassifyError::EmptySignature);
        assert_eq!(err.message(), "Function signature cannot be empty");
        assert_eq!(prepare_signature(text), Err(ClassifyError::EmptySignature));
    }
}

#[test]
fn a_signature_gets_an_empty_body_where_it_has_none() {
    assert_eq!(prepare_signature("fn f()").unwrap(), "fn f() {}");
    assert_eq!(prepare_signature("  fn f();; \n").unwrap(), "fn f() {}");
    assert_eq!(prepare_signature("fn f() { 1 }").unwrap(), "fn f() { 1 }");
    assert_eq!(prepare_signature("fn f() {};").unwrap(), "fn f() {}");
    assert_eq!(prepare_signature(";").unwrap(), " {}");
}

#[test]
fn parameters_and_return_type_are_classified() {
    let table = check_libc_scalar_pairs("libc::c_int=i32\n").unwrap();
    let sig = parse_function_signature(
        "pub unsafe extern \"C\" fn update(count: *mut libc::c_int, data: &[u8], mut n: usize) -> Option<Box<Node>>;",
        &table,
    )
    .unwrap();
    assert_eq!(sig.name, "update");
    assert_eq!(sig.params.len(), 3);
    assert_eq!(sig.params[0].name, "count");
    assert_eq!(sig.params[0].ty, "* mut libc :: c_int");
    assert!(sig.params[0].traits.is_pointer);
    assert_eq!(sig.params[0].traits.pointer_element.as_deref(), Some("i32"));
    assert_eq!(sig.params[1].name, "data");
    assert_eq!(sig.params[1].ty, "& [u8]");
    assert!(sig.params[1].traits.is_reference && sig.params[1].traits.is_slice);
    assert_eq!(sig.params[2].name, "n");
    assert_eq!(sig.params[2].ty, "usize");
    assert_eq!(sig.params[2].traits.path_ident.as_deref(), Some("usize"));
    let ret = sig.ret.unwrap();
    assert!(ret.is_option && ret.is_box);
    assert_eq!(ret.box_innermost.as_deref(), Some("Node"));
}

#[test]
fn a_signature_without_return_type_has_no_return_record() {
    let sig = parse_function_signature("fn f(a: i32) { }", &ScalarAliasTable::empty()).unwrap();
    assert_eq!(sig.name, "f");
    assert_eq!(sig.params.len(), 1);
    assert!(sig.ret.is_none());
    let sig = parse_function_signature("fn g()", &ScalarAliasTable::empty()).unwrap();
    assert!(sig.params.is_empty());
    assert!(sig.ret.is_none());
}

#[test]
fn a_self_argument_is_no_parameter() {
    let sig =
        parse_function_signature("fn get(&self, index: usize) -> &str", &ScalarAliasTable::empty())
            .unwrap();
    assert_eq!(sig.params.len(), 1);
    assert_eq!(sig.params[0].name, "index");
    assert!(sig.ret.unwrap().is_str);
    let parsed = parse_signature_expr("fn get(&self, index: usize) -> &str").unwrap();
    assert_eq!(parsed.inputs.len(), 2);
    assert_eq!(parsed.inputs[0], InputExpr::Receiver);
}

#[test]
fn a_pattern_that_is_no_identifier_is_named_by_its_tokens() {
    let sig = parse_function_signature("fn f((a, b): (i32, i32), _: u8)", &ScalarAliasTable::empty())
        .unwrap();
    assert_eq!(sig.params[0].name, "(a , b)");
    assert_eq!(sig.params[0].ty, "(i32 , i32)");
    assert_eq!(sig.params[1].name, "_");
}

#[test]
fn unparsable_signature_text_is_reported() {
    let err = parse_function_signature("fn (", &ScalarAliasTable::empty()).unwrap_err();
    assert!(matches!(err, ClassifyError::InvalidSignature(_)));
    assert!(err.message().starts_with("Failed to parse function signature: Error("));
    let err = parse_function_signature("struct S;", &ScalarAliasTable::empty()).unwrap_err();
    assert!(matches!(err, ClassifyError::InvalidSignature(_)));
}

#[test]
fn a_signature_written_by_hand_is_classified_alike() {
    let parsed = parse_signature_expr("fn f(p: *mut u8)").unwrap();
    assert_eq!(parsed.name, "f");
    assert_eq!(
        parsed.inputs,
        vec![InputExpr::Typed {
            name: "p".to_string(),
            ty: TypeExpr::Pointer {
                raw: "* mut u8".to_string(),
                mutable: true,
                elem: Box::new(TypeExpr::Path {
                    raw: "u8".to_string(),
                    ident: Some("u8".to_string()),
                    type_arg: None,
                }),
            },
        }]
    );
    let classified = analyze_signature(&parsed, &ScalarAliasTable::empty());
    assert_eq!(classified.params[0].traits.pointer_element.as_deref(), Some("u8"));
    assert_eq!(
        classified,
        parse_function_signature("fn f(p: *mut u8)", &ScalarAliasTable::empty()).unwrap()
    );
}
