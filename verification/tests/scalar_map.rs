use rust_ast_parser::scalar_map::{
    check_libc_scalar_pairs, is_numeric_primitive, libc_scalar_pairs, map_libc_scalar,
    ScalarAliasTable, TableDefect, TableError,
};

const TEXT: &str = "# C scalars\n\nlibc::c_int = i32\nc_long=i64\n  other::c_int=i16  \r\nlibc::c_char=i8\n";

#[test]
fn entries_keep_the_order_of_their_lines() {
    let table = check_libc_scalar_pairs(TEXT).unwrap();
    assert_eq!(table.len(), 4);
    assert_eq!(table.entry(0), Some(("libc::c_int".to_string(), "i32".to_string())));
    assert_eq!(table.entry(1), Some(("c_long".to_string(), "i64".to_string())));
    assert_eq!(table.entry(2), Some(("other::c_int".to_string(), "i16".to_string())));
    assert_eq!(table.entry(3), Some(("libc::c_char".to_string(), "i8".to_string())));
    assert_eq!(table.entry(4), None);
}

#[test]
fn bare_name_resolves_to_the_first_entry_with_that_final_segment() {
    let table = check_libc_scalar_pairs(TEXT).unwrap();
    assert_eq!(map_libc_scalar(&table, "c_int").as_deref(), Some("i32"));
    let swapped = check_libc_scalar_pairs("other::c_int=i16\nlibc::c_int=i32\n").unwrap();
    assert_eq!(map_libc_scalar(&swapped, "c_int").as_deref(), Some("i16"));
}

#[test]
fn full_alias_resolves_to_its_own_entry() {
    let table = check_libc_scalar_pairs(TEXT).unwrap();
    assert_eq!(map_libc_scalar(&table, "libc::c_int").as_deref(), Some("i32"));
    assert_eq!(map_libc_scalar(&table, "other::c_int").as_deref(), Some("i16"));
    assert_eq!(map_libc_scalar(&table, "c_long").as_deref(), Some("i64"));
    assert_eq!(map_libc_scalar(&table, "c_char").as_deref(), Some("i8"));
}

#[test]
fn unknown_names_resolve_to_nothing() {
    let table = check_libc_scalar_pairs(TEXT).unwrap();
    assert_eq!(map_libc_scalar(&table, "c_short"), None);
    assert_eq!(map_libc_scalar(&table, "libc"), None);
    assert_eq!(map_libc_scalar(&table, "mine::c_int"), None);
    assert_eq!(map_libc_scalar(&table, ""), None);
    assert_eq!(map_libc_scalar(&ScalarAliasTable::empty(), "c_int"), None);
}

#[test]
fn blank_lines_and_comments_alone_make_an_empty_table() {
    assert_eq!(check_libc_scalar_pairs("").unwrap().len(), 0);
    assert_eq!(check_libc_scalar_pairs("\n  \n# a=b\n   # c\n").unwrap().len(), 0);
}

#[test]
fn a_line_without_one_equals_sign_is_malformed() {
    let malformed = |line| TableError { line, defect: TableDefect::Malformed };
    assert_eq!(check_libc_scalar_pairs("a=b\nbad line\nc=d\n").err(), Some(malformed(2)));
    assert_eq!(check_libc_scalar_pairs("a=b=c\n").err(), Some(malformed(1)));
    assert_eq!(check_libc_scalar_pairs("\n\n=x\n").err(), Some(malformed(3)));
    assert_eq!(check_libc_scalar_pairs("x= \n").err(), Some(malformed(1)));
    assert_eq!(check_libc_scalar_pairs(" = ").err(), Some(malformed(1)));
    assert_eq!(check_libc_scalar_pairs("a=b\nx\ny\n").err(), Some(malformed(2)));
}

#[test]
fn an_alias_named_like_a_primitive_is_refused() {
    let shadows = |line| TableError { line, defect: TableDefect::ShadowsPrimitive };
    assert_eq!(check_libc_scalar_pairs("u8=u16\n").err(), Some(shadows(1)));
    assert_eq!(check_libc_scalar_pairs("a=b\nlibc::usize=u64\n").err(), Some(shadows(2)));
    assert!(check_libc_scalar_pairs("u8x=u16\nx::u8::y=u8\n").is_ok());
}

#[test]
fn error_messages_name_the_line() {
    let e = check_libc_scalar_pairs("a=b\n\n\n\n\n\n\n\n\n\n\nbad\n").unwrap_err();
    assert_eq!(e.line, 12);
    assert_eq!(e.message(), "Invalid entry in libc_scalar_map.txt on line 12");
    let e = check_libc_scalar_pairs("f64=f32").unwrap_err();
    assert_eq!(
        e.message(),
        "Alias shadows a numeric primitive in libc_scalar_map.txt on line 1"
    );
}

#[test]
fn numeric_primitive_names() {
    for name in [
        "u8", "i8", "u16", "i16", "u32", "i32", "u64", "i64", "usize", "isize", "f32", "f64",
    ] {
        assert!(is_numeric_primitive(name), "{name}");
    }
    for name in ["u128", "i128", "bool", "char", "U8", "u8 ", "", "c_int", "f16"] {
        assert!(!is_numeric_primitive(name), "{name:?}");
    }
}

#[test]
fn a_table_of_the_usual_c_scalars_is_well_formed() {
    let text = "\
# C character and integer types
libc::c_char=i8
libc::c_schar=i8
libc::c_uchar=u8
libc::c_short=i16
libc::c_ushort=u16
libc::c_int=i32
libc::c_uint=u32
libc::c_long=i64
libc::c_ulong=u64
libc::c_longlong=i64
libc::c_ulonglong=u64

# C floating-point types
libc::c_float=f32
libc::c_double=f64

# sizes and differences
libc::size_t=usize
libc::ssize_t=isize
libc::ptrdiff_t=isize
libc::intptr_t=isize
libc::uintptr_t=usize

# fixed-width integers
libc::int8_t=i8
libc::int16_t=i16
libc::int32_t=i32
libc::int64_t=i64
libc::uint8_t=u8
libc::uint16_t=u16
libc::uint32_t=u32
libc::uint64_t=u64
";
    let table = check_libc_scalar_pairs(text).unwrap();
    assert_eq!(table.len(), 26);
    assert_eq!(map_libc_scalar(&table, "c_int").as_deref(), Some("i32"));
    assert_eq!(map_libc_scalar(&table, "libc::size_t").as_deref(), Some("usize"));
    assert_eq!(map_libc_scalar(&table, "uint8_t").as_deref(), Some("u8"));
    assert_eq!(map_libc_scalar(&table, "c_void"), None);
}

#[test]
fn a_text_without_defect_builds_its_table() {
    assert!(check_libc_scalar_pairs(TEXT).is_ok());
    let table = libc_scalar_pairs(TEXT);
    assert_eq!(table, check_libc_scalar_pairs(TEXT).unwrap());
    assert_eq!(table.len(), 4);
    assert_eq!(table.entry(2), Some(("other::c_int".to_string(), "i16".to_string())));
    assert_eq!(libc_scalar_pairs("").len(), 0);
    assert_eq!(libc_scalar_pairs("# nothing\n\n"), ScalarAliasTable::empty());
}

#[test]
fn every_entry_has_both_names_and_primitives_resolve_to_nothing() {
    let table = libc_scalar_pairs(TEXT);
    for i in 0..table.len() {
        let (alias, primitive) = table.entry(i).unwrap();
        assert!(!alias.is_empty() && !primitive.is_empty());
    }
    for name in ["u8", "i32", "usize", "f64"] {
        assert_eq!(map_libc_scalar(&table, name), None);
    }
}
