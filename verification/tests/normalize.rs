use rust_ast_parser::normalize::{normalize_chars, normalize_token_string};

#[test]
fn pointer_spacing_is_collapsed() {
    assert_eq!(normalize_token_string("* mut  libc :: c_int"), "*mut libc::c_int");
    assert_eq!(normalize_token_string("* const u8"), "*const u8");
    assert_eq!(normalize_token_string("* mut * const T"), "*mut *const T");
}

#[test]
fn reference_spacing_is_collapsed() {
    assert_eq!(normalize_token_string("& mut [u8]"), "&mut [u8]");
    assert_eq!(normalize_token_string("& 'a mut T"), "&'a mut T");
    assert_eq!(normalize_token_string("& 'static str"), "&'static str");
}

#[test]
fn angle_brackets_lose_their_spaces() {
    assert_eq!(normalize_token_string("Vec < u8 >"), "Vec<u8>");
    assert_eq!(normalize_token_string("Option < Box < Node > >"), "Option<Box<Node>>");
    // A space after `>` stays.
    assert_eq!(normalize_token_string("Vec < u8 > x"), "Vec<u8> x");
}

#[test]
fn path_separators_lose_their_spaces() {
    assert_eq!(normalize_token_string("std :: vec :: Vec"), "std::vec::Vec");
    assert_eq!(normalize_token_string(":: std ::vec:: Vec"), "::std::vec::Vec");
}

#[test]
fn whitespace_runs_become_one_space() {
    assert_eq!(normalize_token_string("  a \t\n b\u{a0}\u{2003}c  "), "a b c");
    assert_eq!(normalize_token_string("dyn   Trait"), "dyn Trait");
}

#[test]
fn empty_and_blank_text_normalize_to_nothing() {
    assert_eq!(normalize_token_string(""), "");
    assert_eq!(normalize_token_string("  \t\n"), "");
}

#[test]
fn comma_lists_are_rejoined() {
    assert_eq!(
        normalize_token_string("HashMap < String , Vec < u8 > >"),
        "HashMap<String, Vec<u8>>"
    );
    assert_eq!(normalize_token_string("(u8 , u8)"), "(u8, u8)");
    assert_eq!(normalize_token_string("a,b ,c"), "a, b, c");
}

#[test]
fn empty_segments_of_a_comma_list_are_dropped() {
    assert_eq!(normalize_token_string("a,,b"), "a, b");
    assert_eq!(normalize_token_string("a , "), "a");
    assert_eq!(normalize_token_string(","), "");
    assert_eq!(normalize_token_string(" , , "), "");
}

#[test]
fn rules_run_once_each_and_in_order() {
    // ` :: ` is replaced first, so the second separator keeps no space to lose
    // on its left, and loses the one on its right to the third rule.
    assert_eq!(normalize_token_string("a :: :: b"), "a::::b");
    assert_eq!(normalize_token_string("a < < b"), "a<<b");
}

#[test]
fn normalizing_a_normal_form_changes_nothing() {
    for text in [
        "* mut  libc :: c_int",
        "HashMap < String , Vec < u8 > >",
        "Foo < A , < B as T > :: X >",
        "& 'a mut [ Option < u8 > ]",
        "fn ( i32 , :: std :: string :: String ) -> bool",
        "a,,b",
        ",",
        "",
    ] {
        let once = normalize_token_string(text);
        let twice = normalize_token_string(&once);
        assert_eq!(twice, once, "{text}");
    }
    assert_eq!(
        normalize_token_string("Foo < A , < B as T > :: X >"),
        "Foo<A, <B as T>::X>"
    );
}

#[test]
fn a_segment_that_keeps_a_pattern_is_not_yet_normal() {
    // The third rule takes the space after the first `::`; what is left holds
    // the pattern again, one character further on.
    assert_eq!(normalize_token_string("a:: : b"), "a::: b");
    assert_eq!(normalize_token_string("a::: b"), "a:::b");
    assert_eq!(normalize_token_string("a:::b"), "a:::b");
}

#[test]
fn characters_and_strings_agree() {
    let chars: Vec<char> = "Vec < u8 >".chars().collect();
    let out: String = normalize_chars(&chars).into_iter().collect();
    assert_eq!(out, normalize_token_string("Vec < u8 >"));
}
