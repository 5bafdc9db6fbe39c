//! Canonical spelling of a type's token rendering.
//!
//! Two renderings of the same type may differ in incidental spacing
//! (`* mut T` against `*mut T`, `Vec < u8 >` against `Vec<u8>`). The
//! normalizer maps them to one spelling, which the classifier uses for
//! comparison and lookup.

use crate::text::{
    chars_of, contains_char, join, join_chars, pair_views, replace_all, replace_all_chars, split_at_char,
    split_chars, split_words, string_of, trim, trimmed, views, words,
};
use vstd::prelude::*;

verus! {

/// The punctuation rules, in the order in which they are applied: each pair
/// is a pattern and what replaces it.
pub open spec fn punctuation_rules() -> Seq<(Seq<char>, Seq<char>)> {
    seq![
        (seq![' ', ':', ':', ' '], seq![':', ':']),
        (seq![' ', ':', ':'], seq![':', ':']),
        (seq![':', ':', ' '], seq![':', ':']),
        (seq![' ', '<'], seq!['<']),
        (seq!['<', ' '], seq!['<']),
        (seq![' ', '>'], seq!['>']),
        (seq!['*', ' ', 'm', 'u', 't'], seq!['*', 'm', 'u', 't']),
        (seq!['*', ' ', 'c', 'o', 'n', 's', 't'], seq!['*', 'c', 'o', 'n', 's', 't']),
        (seq!['&', ' ', 'm', 'u', 't'], seq!['&', 'm', 'u', 't']),
        (seq!['&', ' ', '\''], seq!['&', '\'']),
    ]
}

/// `s` after the rules have been applied one after another, each to the
/// whole result of the one before.
pub open spec fn apply_rules(s: Seq<char>, rules: Seq<(Seq<char>, Seq<char>)>) -> Seq<char>
    decreases rules.len(),
{
    if rules.len() == 0 {
        s
    } else {
        replace_all(apply_rules(s, rules.drop_last()), rules.last().0, rules.last().1)
    }
}

/// The words of `s` with one space between neighbours.
pub open spec fn collapse_whitespace(s: Seq<char>) -> Seq<char> {
    join(words(s), seq![' '])
}

/// The parts trimmed, without those that are blank.
pub open spec fn trimmed_nonempty(parts: Seq<Seq<char>>) -> Seq<Seq<char>>
    decreases parts.len(),
{
    if parts.len() == 0 {
        Seq::empty()
    } else {
        let head = trimmed_nonempty(parts.drop_last());
        let piece = trim(parts.last());
        if piece.len() > 0 {
            head.push(piece)
        } else {
            head
        }
    }
}

/// A sequence that holds a comma is cut at its commas; the pieces are
/// trimmed, blank ones dropped, and the rest joined by a comma and a space.
/// A sequence without a comma stays as it is.
pub open spec fn rejoin_commas(s: Seq<char>) -> Seq<char> {
    if s.contains(',') {
        join(trimmed_nonempty(split_at_char(s, ',')), seq![',', ' '])
    } else {
        s
    }
}

/// The canonical spelling of `s`: whitespace collapsed, punctuation rules
/// applied, comma lists rejoined.
pub open spec fn normalize(s: Seq<char>) -> Seq<char> {
    rejoin_commas(apply_rules(collapse_whitespace(s), punctuation_rules()))
}

fn rule_table() -> (r: Vec<(Vec<char>, Vec<char>)>)
    ensures
        pair_views(r@) == punctuation_rules(),
{
    let mut r: Vec<(Vec<char>, Vec<char>)> = Vec::new();
    r.push((vec![' ', ':', ':', ' '], vec![':', ':']));
    r.push((vec![' ', ':', ':'], vec![':', ':']));
    r.push((vec![':', ':', ' '], vec![':', ':']));
    r.push((vec![' ', '<'], vec!['<']));
    r.push((vec!['<', ' '], vec!['<']));
    r.push((vec![' ', '>'], vec!['>']));
    r.push((vec!['*', ' ', 'm', 'u', 't'], vec!['*', 'm', 'u', 't']));
    r.push((vec!['*', ' ', 'c', 'o', 'n', 's', 't'], vec!['*', 'c', 'o', 'n', 's', 't']));
    r.push((vec!['&', ' ', 'm', 'u', 't'], vec!['&', 'm', 'u', 't']));
    r.push((vec!['&', ' ', '\''], vec!['&', '\'']));
    proof {
        let got = pair_views(r@);
        let want = punctuation_rules();
        assert(got.len() == want.len());
        assert forall|i: int| 0 <= i < got.len() implies got[i] == want[i] by {
            assert(got[i].0 =~= want[i].0);
            assert(got[i].1 =~= want[i].1);
        }
        assert(got =~= want);
    }
    r
}

/// The pieces trimmed, without those that are blank.
fn trim_pieces(parts: &Vec<Vec<char>>) -> (r: Vec<Vec<char>>)
    ensures
        views(r@) == trimmed_nonempty(views(parts@)),
{
    let mut r: Vec<Vec<char>> = Vec::new();
    let mut i: usize = 0;
    let ghost all = views(parts@);
    assert(all.take(0) =~= Seq::<Seq<char>>::empty());
    while i < parts.len()
        invariant
            i <= parts.len(),
            all == views(parts@),
            views(r@) == trimmed_nonempty(all.take(i as int)),
        decreases parts.len() - i,
    {
        let ghost grown = all.take(i + 1);
        assert(grown.drop_last() =~= all.take(i as int));
        assert(grown.last() == parts@[i as int]@);
        let piece = trimmed(&parts[i]);
        if piece.len() > 0 {
            let ghost before = views(r@);
            r.push(piece);
            assert(views(r@) =~= before.push(piece@));
        }
        i += 1;
    }
    assert(all.take(parts.len() as int) =~= all);
    r
}

/// The canonical spelling of a sequence of characters.
pub fn normalize_chars(input: &Vec<char>) -> (r: Vec<char>)
    ensures
        r@ == normalize(input@),
{
    let space: Vec<char> = vec![' '];
    assert(space@ =~= seq![' ']);
    let word_list = split_words(input);
    let mut cur = join_chars(&word_list, &space);
    let rules = rule_table();
    let mut i: usize = 0;
    let ghost all = pair_views(rules@);
    let ghost start = cur@;
    assert(all.take(0) =~= Seq::<(Seq<char>, Seq<char>)>::empty());
    while i < rules.len()
        invariant
            i <= rules.len(),
            all == pair_views(rules@),
            cur@ == apply_rules(start, all.take(i as int)),
        decreases rules.len() - i,
    {
        let ghost grown = all.take(i + 1);
        assert(grown.drop_last() =~= all.take(i as int));
        assert(grown.last() == (rules@[i as int].0@, rules@[i as int].1@));
        cur = replace_all_chars(&cur, &rules[i].0, &rules[i].1);
        i += 1;
    }
    assert(all.take(rules.len() as int) =~= all);
    if contains_char(&cur, ',') {
        let pieces = split_chars(&cur, ',');
        let kept = trim_pieces(&pieces);
        let comma_space: Vec<char> = vec![',', ' '];
        assert(comma_space@ =~= seq![',', ' ']);
        join_chars(&kept, &comma_space)
    } else {
        cur
    }
}

/// The canonical spelling of a token rendering: whitespace runs collapsed
/// to one space, the punctuation rules applied in order, and a comma list
/// rejoined with `", "`.
pub fn normalize_token_string(input: &str) -> (r: String)
    ensures
        r@ == normalize(input@),
{
    let chars = chars_of(input);
    let out = normalize_chars(&chars);
    string_of(&out)
}

} // verus!
