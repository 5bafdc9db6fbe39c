use rust_ast_parser::stdint::{expected_stdint_target, stdint_place, StdintSet};

#[test]
fn each_fixed_width_name_has_its_primitive() {
    let pairs = [
        ("int8_t", "i8"),
        ("int16_t", "i16"),
        ("int32_t", "i32"),
        ("int64_t", "i64"),
        ("uint8_t", "u8"),
        ("uint16_t", "u16"),
        ("uint32_t", "u32"),
        ("uint64_t", "u64"),
    ];
    for (name, target) in pairs {
        assert_eq!(expected_stdint_target(name).as_deref(), Some(target), "{name}");
    }
}

#[test]
fn other_names_have_no_primitive() {
    for name in ["size_t", "int", "int32", "int32_t ", "", "Int32_t", "intptr_t", "i32"] {
        assert_eq!(expected_stdint_target(name), None, "{name:?}");
        assert_eq!(stdint_place(name), None, "{name:?}");
    }
}

#[test]
fn places_follow_the_lexicographic_order_of_the_names() {
    let mut names = vec![
        "int8_t", "int16_t", "int32_t", "int64_t", "uint8_t", "uint16_t", "uint32_t", "uint64_t",
    ];
    names.sort();
    for (i, name) in names.iter().enumerate() {
        assert_eq!(stdint_place(name), Some(i), "{name}");
    }
}

#[test]
fn a_set_lists_its_names_in_order() {
    let mut set = StdintSet::new();
    assert!(set.is_empty());
    set.insert("uint8_t");
    set.insert("int8_t");
    set.insert("int32_t");
    set.insert("size_t");
    set.insert("int32_t");
    assert!(!set.is_empty());
    assert!(set.contains("int8_t"));
    assert!(!set.contains("int16_t"));
    assert!(!set.contains("size_t"));
    assert_eq!(set.names(), vec!["int32_t", "int8_t", "uint8_t"]);
    set.remove("int8_t");
    set.remove("c_int");
    assert_eq!(set.names(), vec!["int32_t", "uint8_t"]);
}

#[test]
fn union_and_difference() {
    let mut a = StdintSet::new();
    a.insert("int8_t");
    a.insert("int16_t");
    let mut b = StdintSet::new();
    b.insert("int16_t");
    b.insert("uint64_t");
    assert_eq!(a.union(&b).names(), vec!["int16_t", "int8_t", "uint64_t"]);
    assert_eq!(a.difference(&b).names(), vec!["int8_t"]);
    assert_eq!(b.difference(&a).names(), vec!["uint64_t"]);
    assert!(a.difference(&a).is_empty());
    assert_eq!(StdintSet::new().union(&StdintSet::new()), StdintSet::new());
}
