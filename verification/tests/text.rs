use rust_ast_parser::text::{
    append_chars, char_is_whitespace, chars_eq, chars_of, contains_char, decimal_of,
    final_segment, join_chars, occurs_at, replace_all_chars, split_chars, split_lines,
    split_words, string_of, trimmed, trimmed_end_char,
};

fn v(s: &str) -> Vec<char> {
    s.chars().collect()
}

fn s(v: &[char]) -> String {
    v.iter().collect()
}

fn strings(parts: &[Vec<char>]) -> Vec<String> {
    parts.iter().map(|p| s(p)).collect()
}

#[test]
fn whitespace_is_what_the_standard_library_calls_whitespace() {
    let mut c = 0u32;
    while c <= 0x3100 {
        if let Some(ch) = char::from_u32(c) {
            assert_eq!(char_is_whitespace(ch), ch.is_whitespace(), "U+{c:04X}");
        }
        c += 1;
    }
}

#[test]
fn strings_and_characters_convert_both_ways() {
    assert_eq!(chars_of("añ→z"), vec!['a', 'ñ', '→', 'z']);
    assert_eq!(chars_of(""), Vec::<char>::new());
    assert_eq!(string_of(&vec!['a', 'ñ', '→', 'z']), "añ→z");
    assert_eq!(string_of(&Vec::new()), "");
}

#[test]
fn appending_characters() {
    let mut out = v("ab");
    append_chars(&mut out, &v("cd"));
    assert_eq!(s(&out), "abcd");
}

#[test]
fn equality_and_occurrence() {
    assert!(chars_eq(&v("abc"), &v("abc")));
    assert!(!chars_eq(&v("abc"), &v("abd")));
    assert!(!chars_eq(&v("abc"), &v("ab")));
    assert!(occurs_at(&v("a::b"), 1, &v("::")));
    assert!(!occurs_at(&v("a::b"), 2, &v("::")));
    assert!(!occurs_at(&v("a::b"), 3, &v("::")));
    assert!(occurs_at(&v("a"), 1, &v("")));
    assert!(!occurs_at(&v("a"), 2, &v("")));
    assert!(!occurs_at(&v("a"), usize::MAX, &v("a")));
    assert!(contains_char(&v("a,b"), ','));
    assert!(!contains_char(&v("ab"), ','));
}

#[test]
fn trimming() {
    assert_eq!(s(&trimmed(&v("  a b \t\n"))), "a b");
    assert_eq!(s(&trimmed(&v("\u{3000}x\u{a0}"))), "x");
    assert_eq!(s(&trimmed(&v("   "))), "");
    assert_eq!(s(&trimmed(&v(""))), "");
    assert_eq!(s(&trimmed_end_char(&v("fn f();;"), ';')), "fn f()");
    assert_eq!(s(&trimmed_end_char(&v(";;"), ';')), "");
    assert_eq!(s(&trimmed_end_char(&v("a; "), ';')), "a; ");
}

#[test]
fn words_and_joins() {
    assert_eq!(strings(&split_words(&v("  ab  c\td "))), vec!["ab", "c", "d"]);
    assert_eq!(strings(&split_words(&v(" \n "))), Vec::<String>::new());
    assert_eq!(s(&join_chars(&vec![v("a"), v("b"), v("c")], &v(", "))), "a, b, c");
    assert_eq!(s(&join_chars(&vec![v("a")], &v(", "))), "a");
    assert_eq!(s(&join_chars(&Vec::new(), &v(", "))), "");
}

#[test]
fn replacing_takes_matches_from_the_left_without_overlap() {
    assert_eq!(s(&replace_all_chars(&v("aaa"), &v("aa"), &v("b"))), "ba");
    assert_eq!(s(&replace_all_chars(&v("a :: b :: c"), &v(" :: "), &v("::"))), "a::b::c");
    assert_eq!(s(&replace_all_chars(&v("abc"), &v("x"), &v("y"))), "abc");
    assert_eq!(s(&replace_all_chars(&v("abc"), &v(""), &v("y"))), "abc");
    assert_eq!(s(&replace_all_chars(&v(""), &v("x"), &v("y"))), "");
    assert_eq!("a :: b :: c".replace(" :: ", "::"), "a::b::c");
    assert_eq!("aaa".replace("aa", "b"), "ba");
}

#[test]
fn splitting_at_a_character() {
    let cases = ["a,b", "a,,b", ",", "", "abc", ",a,", "a, b ,c"];
    for text in cases {
        let want: Vec<String> = text.split(',').map(|p| p.to_string()).collect();
        assert_eq!(strings(&split_chars(&v(text), ',')), want, "{text:?}");
    }
}

#[test]
fn final_path_segment() {
    let cases = ["libc::c_int", "c_int", "a::b::c", "a:::b", ":::", "a::", "::a", "", ":", "a:b"];
    for text in cases {
        let want = text.split("::").last().unwrap().to_string();
        assert_eq!(s(&final_segment(&v(text))), want, "{text:?}");
    }
    assert_eq!(s(&final_segment(&v("a:::b"))), ":b");
    assert_eq!(s(&final_segment(&v(":::"))), ":");
}

#[test]
fn lines_of_a_text() {
    let cases = ["a\nb", "a\nb\n", "a\r\nb\r\n", "\n", "", "a\n\nb", "a\r", "\r\n", "a\rb\n", "x"];
    for text in cases {
        let want: Vec<String> = text.lines().map(|l| l.to_string()).collect();
        assert_eq!(strings(&split_lines(&v(text))), want, "{text:?}");
    }
}

#[test]
fn decimal_numbers() {
    for n in [0usize, 7, 10, 42, 100, 9999, 10000, 1234567890] {
        assert_eq!(s(&decimal_of(n)), n.to_string());
    }
    assert_eq!(s(&decimal_of(usize::MAX)), usize::MAX.to_string());
}
