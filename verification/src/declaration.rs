//! The head of a `static` or `const` declaration.

use crate::text::{
    chars_of, lines, occurs_at, replace_all, replace_all_chars, split_lines,
    string_of, trim, trimmed, views,
};
use vstd::prelude::*;

verus! {

/// What a declaration without a value ends with when it is printed.
pub open spec fn empty_value() -> Seq<char> {
    seq!['=', ' ', ';']
}

/// What is taken out of such a line.
pub open spec fn value_sign() -> Seq<char> {
    seq!['=', ' ']
}

/// Whether `line` begins with `keyword` and ends with `= ;`.
pub open spec fn is_head_line(line: Seq<char>, keyword: Seq<char>) -> bool {
    &&& keyword.is_prefix_of(line)
    &&& empty_value().len() <= line.len()
    &&& line.skip(line.len() - empty_value().len()) == empty_value()
}

/// The first of the first `n` lines that, trimmed, is a head line.
pub open spec fn first_head_line(text_lines: Seq<Seq<char>>, keyword: Seq<char>, n: nat) -> Option<
    Seq<char>,
>
    decreases n,
{
    if n == 0 || n > text_lines.len() {
        None
    } else {
        match first_head_line(text_lines, keyword, (n - 1) as nat) {
            Some(line) => Some(line),
            None => if is_head_line(trim(text_lines[n - 1]), keyword) {
                Some(trim(text_lines[n - 1]))
            } else {
                None
            },
        }
    }
}

/// The head of the declaration that `code` prints: the first line that,
/// trimmed, begins with `keyword` and ends with `= ;`, without every
/// `= ` in it; and `code` trimmed where there is no such line.
pub open spec fn declaration_head(code: Seq<char>, keyword: Seq<char>) -> Seq<char> {
    match first_head_line(lines(code), keyword, lines(code).len()) {
        Some(line) => replace_all(line, value_sign(), Seq::empty()),
        None => trim(code),
    }
}

/// The head of a declaration that was printed without its value: the first
/// line of `code` that, trimmed, begins with `keyword` and ends with `= ;`,
/// with every `= ` taken out; `code` trimmed where there is no such line.
pub fn declaration_without_value(code: &str, keyword: &str) -> (r: String)
    ensures
        r@ == declaration_head(code@, keyword@),
{
    let chars = chars_of(code);
    let key = chars_of(keyword);
    let text_lines = split_lines(&chars);
    let ending: Vec<char> = vec!['=', ' ', ';'];
    assert(ending@ =~= empty_value());
    let sign: Vec<char> = vec!['=', ' '];
    assert(sign@ =~= value_sign());
    let ghost all = views(text_lines@);
    let mut i: usize = 0;
    while i < text_lines.len()
        invariant
            i <= text_lines.len(),
            all == views(text_lines@),
            all == lines(code@),
            key@ == keyword@,
            ending@ == empty_value(),
            sign@ == value_sign(),
            first_head_line(all, keyword@, i as nat) is None,
        decreases text_lines.len() - i,
    {
        let line = trimmed(&text_lines[i]);
        assert(all[i as int] == text_lines@[i as int]@);
        assert(line@.skip(0) =~= line@);
        if occurs_at(&line, 0, &key) && line.len() >= ending.len() && occurs_at(
            &line,
            line.len() - ending.len(),
            &ending,
        ) {
            let ghost tail = line@.skip(line@.len() - 3);
            assert(tail.len() == 3);
            assert(tail =~= tail.subrange(0, 3));
            let nothing: Vec<char> = Vec::new();
            assert(nothing@ =~= Seq::<char>::empty());
            let head = replace_all_chars(&line, &sign, &nothing);
            proof {
                lemma_first_head_line_stays(all, keyword@, (i + 1) as nat);
            }
            return string_of(&head);
        }
        if line.len() >= ending.len() {
            let ghost tail = line@.skip(line@.len() - 3);
            assert(tail.len() == 3);
            assert(tail =~= tail.subrange(0, 3));
        }
        i += 1;
    }
    let whole = trimmed(&chars);
    string_of(&whole)
}

/// The first head line among the first `n` lines is the first among all.
pub proof fn lemma_first_head_line_stays(text_lines: Seq<Seq<char>>, keyword: Seq<char>, n: nat)
    requires
        n <= text_lines.len(),
        first_head_line(text_lines, keyword, n) is Some,
    ensures
        first_head_line(text_lines, keyword, text_lines.len()) == first_head_line(
            text_lines,
            keyword,
            n,
        ),
    decreases text_lines.len() - n,
{
    if n < text_lines.len() {
        let next = n + 1;
        assert((next - 1) as nat == n);
        lemma_first_head_line_stays(text_lines, keyword, next);
    }
}

} // verus!
