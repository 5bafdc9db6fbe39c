//! Why normalizing twice is normalizing once.
//!
//! A normal form is a list of segments joined by a comma and a space, each
//! segment a run of words with single spaces between them. Normalizing such
//! a text again leaves it as it is, unless one of the punctuation rules
//! still finds its pattern inside a segment.

use crate::normalize::{
    apply_rules, collapse_whitespace, normalize, punctuation_rules, trimmed_nonempty,
};
use crate::text::{
    is_whitespace, join, lemma_len_until_bound, lemma_trim_end_shape, lemma_trim_start_shape,
    lemma_word_len_bound, len_until, replace_all, split_at_char, trim, trim_end, trim_start,
    word_len, words,
};
use vstd::prelude::*;

verus! {

/// Whether `pat` occurs in `s` at index `j`.
pub open spec fn occurs(pat: Seq<char>, s: Seq<char>, j: int) -> bool {
    0 <= j <= s.len() && pat.is_prefix_of(s.skip(j))
}

/// Whether `pat` occurs nowhere in `s`.
pub open spec fn free_of(s: Seq<char>, pat: Seq<char>) -> bool {
    forall|j: int| !occurs(pat, s, j)
}

/// Whether none of the punctuation rules finds its pattern in `s`.
pub open spec fn pattern_free(s: Seq<char>) -> bool {
    forall|k: int| 0 <= k < punctuation_rules().len() ==> free_of(s, #[trigger] punctuation_rules()[k].0)
}

/// The segments of the comma list that `t` spells.
pub open spec fn segments(t: Seq<char>) -> Seq<Seq<char>> {
    trimmed_nonempty(split_at_char(t, ','))
}

/// Whether no segment of the comma list that `t` spells holds the pattern
/// of a punctuation rule.
pub open spec fn settled(t: Seq<char>) -> bool {
    forall|i: int| 0 <= i < segments(t).len() ==> pattern_free(#[trigger] segments(t)[i])
}

/// A pattern that occurs nowhere is replaced nowhere.
pub proof fn lemma_replace_nothing(s: Seq<char>, pat: Seq<char>, rep: Seq<char>)
    requires
        free_of(s, pat),
    ensures
        replace_all(s, pat, rep) == s,
    decreases s.len(),
{
    if pat.len() == 0 || s.len() == 0 {
    } else {
        assert(s.skip(0) =~= s);
        assert(!occurs(pat, s, 0));
        lemma_free_suffix(s, pat, 1);
        lemma_replace_nothing(s.skip(1), pat, rep);
        assert(seq![s[0]] + s.skip(1) =~= s);
    }
}

/// What occurs nowhere in `s` occurs nowhere in what follows the first `n`
/// characters of `s`.
pub proof fn lemma_free_suffix(s: Seq<char>, pat: Seq<char>, n: int)
    requires
        free_of(s, pat),
        0 <= n <= s.len(),
    ensures
        free_of(s.skip(n), pat),
{
    assert forall|j: int| !occurs(pat, s.skip(n), j) by {
        if occurs(pat, s.skip(n), j) {
            assert(s.skip(n).skip(j) =~= s.skip(n + j));
            assert(occurs(pat, s, n + j));
        }
    }
}

/// A replacement does not reach across a character that the pattern does
/// not hold.
pub proof fn lemma_replace_across(
    a: Seq<char>,
    c: char,
    b: Seq<char>,
    pat: Seq<char>,
    rep: Seq<char>,
)
    requires
        !pat.contains(c),
    ensures
        replace_all(a + seq![c] + b, pat, rep) == replace_all(a, pat, rep) + seq![c]
            + replace_all(b, pat, rep),
    decreases a.len(),
{
    let whole = a + seq![c] + b;
    if pat.len() == 0 {
        lemma_replace_empty_pattern(a, pat, rep);
        lemma_replace_empty_pattern(b, pat, rep);
        lemma_replace_empty_pattern(whole, pat, rep);
    } else if a.len() == 0 {
        assert(whole[0] == c);
        assert(pat[0] != c) by {
            if pat[0] == c {
                assert(pat.contains(c));
            }
        }
        if pat.is_prefix_of(whole) {
            assert(pat[0] == whole.subrange(0, pat.len() as int)[0]);
        }
        assert(whole.skip(1) =~= b);
        assert(replace_all(a, pat, rep) =~= Seq::<char>::empty());
        assert(seq![whole[0]] + replace_all(b, pat, rep) =~= Seq::<char>::empty() + seq![c]
            + replace_all(b, pat, rep));
    } else if pat.is_prefix_of(whole) {
        if pat.len() > a.len() {
            assert(pat[a.len() as int] == whole.subrange(0, pat.len() as int)[a.len() as int]);
            assert(whole[a.len() as int] == c);
            assert(pat.contains(c));
        }
        assert(pat =~= a.subrange(0, pat.len() as int)) by {
            assert forall|i: int| 0 <= i < pat.len() implies pat[i] == a[i] by {
                assert(pat[i] == whole.subrange(0, pat.len() as int)[i]);
            }
        }
        let n = pat.len() as int;
        assert(whole.skip(n) =~= a.skip(n) + seq![c] + b);
        lemma_replace_across(a.skip(n), c, b, pat, rep);
        assert(rep + (replace_all(a.skip(n), pat, rep) + seq![c] + replace_all(b, pat, rep)) =~= (
        rep + replace_all(a.skip(n), pat, rep)) + seq![c] + replace_all(b, pat, rep));
    } else {
        if pat.is_prefix_of(a) {
            assert(pat =~= whole.subrange(0, pat.len() as int)) by {
                assert forall|i: int| 0 <= i < pat.len() implies pat[i] == whole[i] by {
                    assert(pat[i] == a.subrange(0, pat.len() as int)[i]);
                }
            }
        }
        assert(whole.skip(1) =~= a.skip(1) + seq![c] + b);
        assert(whole[0] == a[0]);
        lemma_replace_across(a.skip(1), c, b, pat, rep);
        assert(seq![a[0]] + (replace_all(a.skip(1), pat, rep) + seq![c] + replace_all(
            b,
            pat,
            rep,
        )) =~= (seq![a[0]] + replace_all(a.skip(1), pat, rep)) + seq![c] + replace_all(
            b,
            pat,
            rep,
        ));
    }
}

/// An empty pattern is replaced nowhere.
pub proof fn lemma_replace_empty_pattern(s: Seq<char>, pat: Seq<char>, rep: Seq<char>)
    requires
        pat.len() == 0,
    ensures
        replace_all(s, pat, rep) == s,
{
}

/// The parts, each after the replacement.
pub open spec fn replace_each(parts: Seq<Seq<char>>, pat: Seq<char>, rep: Seq<char>) -> Seq<
    Seq<char>,
> {
    Seq::new(parts.len(), |i: int| replace_all(parts[i], pat, rep))
}

/// A replacement in a list joined by a character that the pattern does not
/// hold is the replacement in each part.
pub proof fn lemma_replace_in_join(
    parts: Seq<Seq<char>>,
    c: char,
    pat: Seq<char>,
    rep: Seq<char>,
)
    requires
        !pat.contains(c),
    ensures
        replace_all(join(parts, seq![c]), pat, rep) == join(
            replace_each(parts, pat, rep),
            seq![c],
        ),
    decreases parts.len(),
{
    let each = replace_each(parts, pat, rep);
    if parts.len() == 0 {
    } else if parts.len() == 1 {
    } else {
        let head = parts.drop_last();
        lemma_replace_in_join(head, c, pat, rep);
        lemma_replace_across(join(head, seq![c]), c, parts.last(), pat, rep);
        assert(each.drop_last() =~= replace_each(head, pat, rep));
    }
}

/// The length of the prefix before the first `c` of a concatenation.
pub proof fn lemma_len_until_concat(a: Seq<char>, b: Seq<char>, c: char)
    ensures
        len_until(a + b, c) == if len_until(a, c) < a.len() {
            len_until(a, c)
        } else {
            a.len() + len_until(b, c)
        },
    decreases a.len(),
{
    lemma_len_until_bound(a, c);
    if a.len() == 0 {
        assert(a + b =~= b);
    } else if a[0] == c {
    } else {
        assert((a + b).skip(1) =~= a.skip(1) + b);
        lemma_len_until_concat(a.skip(1), b, c);
    }
}

/// Cutting at `c` a text that is put together with a `c` gives the pieces
/// of what stands before it and the pieces of what stands after it.
pub proof fn lemma_split_concat(a: Seq<char>, b: Seq<char>, c: char)
    ensures
        split_at_char(a + seq![c] + b, c) == split_at_char(a, c) + split_at_char(b, c),
    decreases a.len(),
{
    let whole = a + seq![c] + b;
    lemma_len_until_bound(a, c);
    lemma_len_until_concat(a, seq![c] + b, c);
    assert(a + (seq![c] + b) =~= whole);
    let k = len_until(a, c) as int;
    if k < a.len() {
        assert(whole.take(k) =~= a.take(k));
        assert(whole.skip(k + 1) =~= a.skip(k + 1) + seq![c] + b);
        lemma_split_concat(a.skip(k + 1), b, c);
        assert(seq![a.take(k)] + (split_at_char(a.skip(k + 1), c) + split_at_char(b, c)) =~= (
        seq![a.take(k)] + split_at_char(a.skip(k + 1), c)) + split_at_char(b, c));
    } else {
        assert((seq![c] + b)[0] == c);
        assert(len_until(whole, c) == a.len());
        assert(whole.take(a.len() as int) =~= a);
        assert(whole.skip(a.len() as int + 1) =~= b);
    }
}

/// Whether none of the parts holds `c`.
pub open spec fn all_without(parts: Seq<Seq<char>>, c: char) -> bool {
    forall|i: int| 0 <= i < parts.len() ==> !(#[trigger] parts[i]).contains(c)
}

/// A text without `c` is one piece.
pub proof fn lemma_split_without(s: Seq<char>, c: char)
    requires
        !s.contains(c),
    ensures
        split_at_char(s, c) == seq![s],
{
    lemma_len_until_bound(s, c);
    if len_until(s, c) < s.len() {
        assert(s.contains(s[len_until(s, c) as int]));
    }
}

/// Cutting at `c` what was joined by `c` gives back the parts, where no
/// part holds `c`.
pub proof fn lemma_split_join(parts: Seq<Seq<char>>, c: char)
    requires
        parts.len() > 0,
        all_without(parts, c),
    ensures
        split_at_char(join(parts, seq![c]), c) == parts,
    decreases parts.len(),
{
    if parts.len() == 1 {
        lemma_split_without(parts[0], c);
        assert(parts =~= seq![parts[0]]);
    } else {
        let head = parts.drop_last();
        lemma_split_join(head, c);
        lemma_split_concat(join(head, seq![c]), parts.last(), c);
        lemma_split_without(parts.last(), c);
        assert(head + seq![parts.last()] =~= parts);
    }
}

/// Whether every whitespace character of `u` is a space, and no space of
/// `u` follows a space.
pub open spec fn inner_tidy(u: Seq<char>) -> bool {
    &&& forall|i: int| 0 <= i < u.len() && is_whitespace(#[trigger] u[i]) ==> u[i] == ' '
    &&& forall|i: int| 0 <= i && i + 1 < u.len() && #[trigger] u[i] == ' ' ==> u[i + 1] != ' '
}

/// Whether `u` is words with single spaces between them: its whitespace is
/// single spaces, and none stands first or last.
pub open spec fn tidy(u: Seq<char>) -> bool {
    &&& inner_tidy(u)
    &&& u.len() > 0 ==> u[0] != ' ' && u.last() != ' '
}

/// Whether `u` holds no whitespace.
pub open spec fn solid(u: Seq<char>) -> bool {
    forall|i: int| 0 <= i < u.len() ==> !is_whitespace(#[trigger] u[i])
}

/// Whether every part is a word: not empty, and without whitespace.
pub open spec fn all_words(parts: Seq<Seq<char>>) -> bool {
    forall|i: int| 0 <= i < parts.len() ==> (#[trigger] parts[i]).len() > 0 && solid(parts[i])
}

/// Whether every part is tidy and not empty.
pub open spec fn all_tidy(parts: Seq<Seq<char>>) -> bool {
    forall|i: int| 0 <= i < parts.len() ==> (#[trigger] parts[i]).len() > 0 && tidy(parts[i])
}

/// A part of a text with single spaces has single spaces.
pub proof fn lemma_inner_tidy_subrange(u: Seq<char>, from: int, to: int)
    requires
        inner_tidy(u),
        0 <= from <= to <= u.len(),
    ensures
        inner_tidy(u.subrange(from, to)),
{
    let v = u.subrange(from, to);
    assert forall|i: int| 0 <= i < v.len() && is_whitespace(#[trigger] v[i]) implies v[i]
        == ' ' by {
        assert(v[i] == u[from + i]);
    }
    assert forall|i: int| 0 <= i && i + 1 < v.len() && #[trigger] v[i] == ' ' implies v[i + 1]
        != ' ' by {
        assert(v[i] == u[from + i]);
        assert(v[i + 1] == u[from + i + 1]);
    }
}

/// Two tidy texts with `sep` between them are tidy, where `sep` is a space,
/// or a comma and a space.
pub proof fn lemma_tidy_concat(a: Seq<char>, sep: Seq<char>, b: Seq<char>)
    requires
        tidy(a),
        a.len() > 0,
        tidy(b),
        b.len() > 0,
        sep == seq![' '] || sep == seq![',', ' '],
    ensures
        tidy(a + sep + b),
{
    let u = a + sep + b;
    let n = a.len() as int;
    let m = sep.len() as int;
    assert(sep.last() == ' ');
    assert(sep[0] == ' ' || sep[0] == ',');
    assert forall|i: int| 0 <= i < u.len() && is_whitespace(#[trigger] u[i]) implies u[i]
        == ' ' by {
        if i < n {
            assert(u[i] == a[i]);
        } else if i < n + m {
            assert(u[i] == sep[i - n]);
        } else {
            assert(u[i] == b[i - n - m]);
        }
    }
    assert forall|i: int| 0 <= i && i + 1 < u.len() && #[trigger] u[i] == ' ' implies u[i + 1]
        != ' ' by {
        if i + 1 < n {
            assert(u[i] == a[i] && u[i + 1] == a[i + 1]);
        } else if i < n {
            assert(u[i] == a.last());
        } else if i + 1 < n + m {
            assert(u[i] == sep[i - n]);
            assert(u[i + 1] == sep[i + 1 - n]);
        } else if i < n + m {
            assert(u[i + 1] == b[0]);
        } else {
            assert(u[i] == b[i - n - m] && u[i + 1] == b[i + 1 - n - m]);
        }
    }
    assert(u[0] == a[0]);
    assert(u.last() == b.last());
}

/// A word is tidy.
pub proof fn lemma_word_is_tidy(w: Seq<char>)
    requires
        solid(w),
    ensures
        tidy(w),
{
    assert forall|i: int| 0 <= i && i + 1 < w.len() && #[trigger] w[i] == ' ' implies w[i + 1]
        != ' ' by {
        assert(is_whitespace(w[i]));
    }
    if w.len() > 0 {
        assert(!is_whitespace(w[0]));
        assert(!is_whitespace(w.last()));
    }
}

/// Tidy parts joined by a space, or by a comma and a space, are tidy.
pub proof fn lemma_join_tidy(parts: Seq<Seq<char>>, sep: Seq<char>)
    requires
        all_tidy(parts),
        sep == seq![' '] || sep == seq![',', ' '],
    ensures
        tidy(join(parts, sep)),
        parts.len() > 0 ==> join(parts, sep).len() > 0,
    decreases parts.len(),
{
    if parts.len() == 0 {
    } else if parts.len() == 1 {
    } else {
        let head = parts.drop_last();
        assert forall|i: int| 0 <= i < head.len() implies (#[trigger] head[i]).len() > 0 && tidy(
            head[i],
        ) by {
            assert(head[i] == parts[i]);
        }
        lemma_join_tidy(head, sep);
        lemma_tidy_concat(join(head, sep), sep, parts.last());
    }
}

/// The words of a text are words.
pub proof fn lemma_words_are_words(s: Seq<char>)
    ensures
        all_words(words(s)),
    decreases s.len(),
{
    if s.len() == 0 {
    } else if is_whitespace(s[0]) {
        lemma_words_are_words(s.skip(1));
    } else {
        let n = word_len(s) as int;
        lemma_word_len_bound(s);
        lemma_words_are_words(s.skip(n));
        let rest = words(s.skip(n));
        let all = seq![s.take(n)] + rest;
        assert forall|i: int| 0 <= i < all.len() implies (#[trigger] all[i]).len() > 0 && solid(
            all[i],
        ) by {
            if i == 0 {
                assert(all[0] == s.take(n));
                assert forall|k: int| 0 <= k < s.take(n).len() implies !is_whitespace(
                    #[trigger] s.take(n)[k],
                ) by {
                    assert(s.take(n)[k] == s[k]);
                }
            } else {
                assert(all[i] == rest[i - 1]);
            }
        }
    }
}

/// Collapsing the whitespace of a text makes it tidy.
pub proof fn lemma_collapse_is_tidy(s: Seq<char>)
    ensures
        tidy(collapse_whitespace(s)),
{
    lemma_words_are_words(s);
    let parts = words(s);
    assert forall|i: int| 0 <= i < parts.len() implies (#[trigger] parts[i]).len() > 0 && tidy(
        parts[i],
    ) by {
        lemma_word_is_tidy(parts[i]);
    }
    lemma_join_tidy(parts, seq![' ']);
}

/// Joining a first part and more parts.
pub proof fn lemma_join_front(first: Seq<char>, rest: Seq<Seq<char>>, sep: Seq<char>)
    requires
        rest.len() > 0,
    ensures
        join(seq![first] + rest, sep) == first + sep + join(rest, sep),
    decreases rest.len(),
{
    let all = seq![first] + rest;
    assert(all.len() == rest.len() + 1);
    assert(join(all, sep) == join(all.drop_last(), sep) + sep + all.last());
    if rest.len() == 1 {
        assert(all.drop_last() =~= seq![first]);
        assert(all.last() == rest[0]);
        assert(join(seq![first], sep) == first);
        assert(join(rest, sep) == rest[0]);
    } else {
        assert(all.drop_last() =~= seq![first] + rest.drop_last());
        assert(all.last() == rest.last());
        assert(join(rest, sep) == join(rest.drop_last(), sep) + sep + rest.last());
        lemma_join_front(first, rest.drop_last(), sep);
        assert((first + sep + join(rest.drop_last(), sep)) + sep + rest.last() =~= first + sep + (
        join(rest.drop_last(), sep) + sep + rest.last()));
    }
}

/// What follows a space of a tidy text is tidy.
pub proof fn lemma_tidy_after_space(t: Seq<char>, n: int)
    requires
        tidy(t),
        0 <= n < t.len(),
        t[n] == ' ',
    ensures
        n + 1 < t.len(),
        tidy(t.skip(n + 1)),
        t.skip(n + 1).len() > 0,
{
    assert(t.last() != ' ');
    let r = t.skip(n + 1);
    lemma_inner_tidy_subrange(t, n + 1, t.len() as int);
    assert(r[0] == t[n + 1]);
    assert(r.last() == t.last());
}

/// Collapsing the whitespace of a tidy text changes nothing.
pub proof fn lemma_collapse_tidy_unchanged(t: Seq<char>)
    requires
        tidy(t),
    ensures
        collapse_whitespace(t) == t,
    decreases t.len(),
{
    if t.len() == 0 {
    } else {
        assert(!is_whitespace(t[0]));
        let n = word_len(t) as int;
        lemma_word_len_bound(t);
        if n == t.len() {
            assert(t.take(n) =~= t);
            assert(t.skip(n) =~= Seq::<char>::empty());
            assert(words(t.skip(n)) =~= Seq::<Seq<char>>::empty());
            assert(words(t) =~= seq![t]);
        } else {
            assert(is_whitespace(t[n]));
            lemma_tidy_after_space(t, n);
            let r = t.skip(n + 1);
            assert(t.skip(n)[0] == t[n]);
            assert(t.skip(n).skip(1) =~= r);
            assert(words(t.skip(n)) == words(r));
            lemma_collapse_tidy_unchanged(r);
            assert(!is_whitespace(r[0]));
            assert(words(r).len() > 0);
            lemma_join_front(t.take(n), words(r), seq![' ']);
            assert(t.take(n) + seq![' '] + r =~= t);
        }
    }
}

/// Whether a rule can only take spaces away: its pattern is not empty and
/// holds no comma, and what replaces it is not empty and holds neither
/// whitespace nor a comma.
pub open spec fn removes_spaces(rule: (Seq<char>, Seq<char>)) -> bool {
    &&& rule.0.len() > 0
    &&& !rule.0.contains(',')
    &&& rule.1.len() > 0
    &&& solid(rule.1)
    &&& !rule.1.contains(',')
}

/// Whether every rule of the list takes spaces away.
pub open spec fn all_remove_spaces(rules: Seq<(Seq<char>, Seq<char>)>) -> bool {
    forall|k: int| 0 <= k < rules.len() ==> removes_spaces(#[trigger] rules[k])
}

/// A sequence of at most seven characters, none of them a comma, holds no
/// comma.
proof fn lemma_short_without_comma(u: Seq<char>)
    requires
        u.len() <= 7,
        forall|i: int| 0 <= i < u.len() && i < 7 ==> u[i] != ',',
    ensures
        !u.contains(','),
{
}

/// The punctuation rules take spaces away.
pub proof fn lemma_rules_remove_spaces()
    ensures
        all_remove_spaces(punctuation_rules()),
{
    let rules = punctuation_rules();
    assert forall|k: int| 0 <= k < rules.len() implies removes_spaces(#[trigger] rules[k]) by {
        let rule = rules[k];
        assert(rule.0.len() <= 7 && rule.1.len() <= 6);
        assert forall|i: int| 0 <= i < rule.0.len() && i < 7 implies rule.0[i] != ',' by {
            lemma_rule_characters(k, i);
        }
        assert forall|i: int| 0 <= i < rule.1.len() && i < 7 implies rule.1[i] != ',' by {
            lemma_rule_characters(k, i);
        }
        lemma_short_without_comma(rule.0);
        lemma_short_without_comma(rule.1);
        assert forall|i: int| 0 <= i < rule.1.len() implies !is_whitespace(
            #[trigger] rule.1[i],
        ) by {
            lemma_rule_characters(k, i);
        }
    }
}

/// No rule has a comma in its pattern, nor a comma or whitespace in what
/// replaces the pattern.
proof fn lemma_rule_characters(k: int, i: int)
    requires
        0 <= k < punctuation_rules().len(),
        0 <= i,
    ensures
        i < punctuation_rules()[k].0.len() ==> punctuation_rules()[k].0[i] != ',',
        i < punctuation_rules()[k].1.len() ==> punctuation_rules()[k].1[i] != ',' && !is_whitespace(
            punctuation_rules()[k].1[i],
        ),
{
    let rule = punctuation_rules()[k];
    if k == 0 {
        assert(rule.0 =~= seq![' ', ':', ':', ' ']);
        assert(rule.1 =~= seq![':', ':']);
    } else if k == 1 {
        assert(rule.0 =~= seq![' ', ':', ':']);
        assert(rule.1 =~= seq![':', ':']);
    } else if k == 2 {
        assert(rule.0 =~= seq![':', ':', ' ']);
        assert(rule.1 =~= seq![':', ':']);
    } else if k == 3 {
        assert(rule.0 =~= seq![' ', '<']);
        assert(rule.1 =~= seq!['<']);
    } else if k == 4 {
        assert(rule.0 =~= seq!['<', ' ']);
        assert(rule.1 =~= seq!['<']);
    } else if k == 5 {
        assert(rule.0 =~= seq![' ', '>']);
        assert(rule.1 =~= seq!['>']);
    } else if k == 6 {
        assert(rule.0 =~= seq!['*', ' ', 'm', 'u', 't']);
        assert(rule.1 =~= seq!['*', 'm', 'u', 't']);
    } else if k == 7 {
        assert(rule.0 =~= seq!['*', ' ', 'c', 'o', 'n', 's', 't']);
        assert(rule.1 =~= seq!['*', 'c', 'o', 'n', 's', 't']);
    } else if k == 8 {
        assert(rule.0 =~= seq!['&', ' ', 'm', 'u', 't']);
        assert(rule.1 =~= seq!['&', 'm', 'u', 't']);
    } else {
        assert(rule.0 =~= seq!['&', ' ', '\'']);
        assert(rule.1 =~= seq!['&', '\'']);
    }
}

/// A replacement brings no character that neither the text nor the
/// replacing text holds.
pub proof fn lemma_replace_brings_nothing(s: Seq<char>, pat: Seq<char>, rep: Seq<char>, c: char)
    requires
        !s.contains(c),
        !rep.contains(c),
    ensures
        !replace_all(s, pat, rep).contains(c),
    decreases s.len(),
{
    let out = replace_all(s, pat, rep);
    if pat.len() == 0 || s.len() == 0 {
    } else if pat.is_prefix_of(s) {
        let rest = s.skip(pat.len() as int);
        assert(!rest.contains(c)) by {
            if rest.contains(c) {
                let i = choose|i: int| 0 <= i < rest.len() && rest[i] == c;
                assert(s[pat.len() + i] == c);
            }
        }
        lemma_replace_brings_nothing(rest, pat, rep, c);
        let tail = replace_all(rest, pat, rep);
        if out.contains(c) {
            let i = choose|i: int| 0 <= i < out.len() && out[i] == c;
            if i < rep.len() {
                assert(rep[i] == c);
            } else {
                assert(tail[i - rep.len()] == c);
            }
        }
    } else {
        let rest = s.skip(1);
        assert(!rest.contains(c)) by {
            if rest.contains(c) {
                let i = choose|i: int| 0 <= i < rest.len() && rest[i] == c;
                assert(s[1 + i] == c);
            }
        }
        lemma_replace_brings_nothing(rest, pat, rep, c);
        let tail = replace_all(rest, pat, rep);
        if out.contains(c) {
            let i = choose|i: int| 0 <= i < out.len() && out[i] == c;
            if i == 0 {
                assert(s[0] == c);
            } else {
                assert(tail[i - 1] == c);
            }
        }
    }
}

/// A rule that takes spaces away leaves single spaces single, and puts no
/// space first or last where none stood.
pub proof fn lemma_replace_keeps_spacing(s: Seq<char>, pat: Seq<char>, rep: Seq<char>)
    requires
        inner_tidy(s),
        removes_spaces((pat, rep)),
    ensures
        inner_tidy(replace_all(s, pat, rep)),
        s.len() > 0 ==> replace_all(s, pat, rep).len() > 0,
        replace_all(s, pat, rep).len() > 0 && replace_all(s, pat, rep)[0] == ' ' ==> s.len() > 0
            && s[0] == ' ',
        replace_all(s, pat, rep).len() > 0 && replace_all(s, pat, rep).last() == ' ' ==> s.len()
            > 0 && s.last() == ' ',
    decreases s.len(),
{
    let out = replace_all(s, pat, rep);
    if s.len() == 0 {
    } else if pat.is_prefix_of(s) {
        let n = pat.len() as int;
        let rest = s.skip(n);
        lemma_inner_tidy_subrange(s, n, s.len() as int);
        lemma_replace_keeps_spacing(rest, pat, rep);
        let tail = replace_all(rest, pat, rep);
        assert(out == rep + tail);
        assert(!is_whitespace(rep[0]));
        assert(!is_whitespace(rep.last()));
        assert forall|i: int| 0 <= i < out.len() && is_whitespace(#[trigger] out[i]) implies out[i]
            == ' ' by {
            if i < rep.len() {
                assert(out[i] == rep[i]);
            } else {
                assert(out[i] == tail[i - rep.len()]);
            }
        }
        assert forall|i: int| 0 <= i && i + 1 < out.len() && #[trigger] out[i]
            == ' ' implies out[i + 1] != ' ' by {
            if i < rep.len() {
                assert(out[i] == rep[i]);
                assert(is_whitespace(rep[i]));
            } else {
                assert(out[i] == tail[i - rep.len()]);
                assert(out[i + 1] == tail[i + 1 - rep.len()]);
            }
        }
        if tail.len() > 0 {
            assert(out.last() == tail.last());
            assert(rest.last() == s.last());
        } else {
            assert(out.last() == rep.last());
        }
    } else {
        let rest = s.skip(1);
        lemma_inner_tidy_subrange(s, 1, s.len() as int);
        lemma_replace_keeps_spacing(rest, pat, rep);
        let tail = replace_all(rest, pat, rep);
        assert(out == seq![s[0]] + tail);
        assert forall|i: int| 0 <= i < out.len() && is_whitespace(#[trigger] out[i]) implies out[i]
            == ' ' by {
            if i > 0 {
                assert(out[i] == tail[i - 1]);
            }
        }
        assert forall|i: int| 0 <= i && i + 1 < out.len() && #[trigger] out[i]
            == ' ' implies out[i + 1] != ' ' by {
            if i == 0 {
                assert(out[1] == tail[0]);
                if tail[0] == ' ' {
                    assert(rest[0] == s[1]);
                    assert(s[0] == ' ');
                }
            } else {
                assert(out[i] == tail[i - 1]);
                assert(out[i + 1] == tail[i]);
            }
        }
        if tail.len() > 0 {
            assert(out.last() == tail.last());
            assert(rest.last() == s.last());
        } else {
            assert(rest.len() == 0);
            assert(out.last() == s[0]);
        }
    }
}

/// Rules that take spaces away keep a tidy text tidy, and bring no comma.
pub proof fn lemma_rules_keep_tidy(s: Seq<char>, rules: Seq<(Seq<char>, Seq<char>)>)
    requires
        tidy(s),
        all_remove_spaces(rules),
    ensures
        tidy(apply_rules(s, rules)),
        s.len() > 0 ==> apply_rules(s, rules).len() > 0,
        !s.contains(',') ==> !apply_rules(s, rules).contains(','),
    decreases rules.len(),
{
    if rules.len() > 0 {
        let head = rules.drop_last();
        assert forall|k: int| 0 <= k < head.len() implies removes_spaces(#[trigger] head[k]) by {
            assert(head[k] == rules[k]);
        }
        lemma_rules_keep_tidy(s, head);
        let before = apply_rules(s, head);
        let rule = rules.last();
        assert(removes_spaces(rule));
        lemma_replace_keeps_spacing(before, rule.0, rule.1);
        if !s.contains(',') {
            lemma_replace_brings_nothing(before, rule.0, rule.1, ',');
        }
    }
}

/// Whether every part has single spaces and no comma.
pub open spec fn all_pieces(parts: Seq<Seq<char>>) -> bool {
    forall|i: int|
        0 <= i < parts.len() ==> inner_tidy(#[trigger] parts[i]) && !parts[i].contains(',')
}

/// Whether every part is a segment: tidy, not empty, and without comma.
pub open spec fn all_segments(parts: Seq<Seq<char>>) -> bool {
    forall|i: int|
        0 <= i < parts.len() ==> (#[trigger] parts[i]).len() > 0 && tidy(parts[i])
            && !parts[i].contains(',')
}

/// The pieces of a text with single spaces, cut at the commas, have single
/// spaces and no comma; there is at least one piece.
pub proof fn lemma_pieces_of_tidy(s: Seq<char>)
    requires
        inner_tidy(s),
    ensures
        all_pieces(split_at_char(s, ',')),
        split_at_char(s, ',').len() > 0,
    decreases s.len(),
{
    lemma_len_until_bound(s, ',');
    let k = len_until(s, ',') as int;
    if k >= s.len() {
        assert(!s.contains(','));
    } else {
        let first = s.take(k);
        let rest = s.skip(k + 1);
        lemma_inner_tidy_subrange(s, 0, k);
        lemma_inner_tidy_subrange(s, k + 1, s.len() as int);
        lemma_pieces_of_tidy(rest);
        assert(!first.contains(',')) by {
            if first.contains(',') {
                let i = choose|i: int| 0 <= i < first.len() && first[i] == ',';
                assert(s[i] == ',');
            }
        }
        let tail = split_at_char(rest, ',');
        let all = seq![first] + tail;
        assert forall|i: int| 0 <= i < all.len() implies inner_tidy(#[trigger] all[i])
            && !all[i].contains(',') by {
            if i > 0 {
                assert(all[i] == tail[i - 1]);
            }
        }
    }
}

/// A text with single spaces, trimmed, is tidy, and holds no comma where
/// the text held none.
pub proof fn lemma_trim_is_tidy(p: Seq<char>)
    requires
        inner_tidy(p),
    ensures
        tidy(trim(p)),
        !p.contains(',') ==> !trim(p).contains(','),
{
    lemma_trim_start_shape(p);
    let q = trim_start(p);
    lemma_trim_end_shape(q);
    let r = trim_end(q);
    let k = p.len() - q.len();
    assert(r =~= p.subrange(k, k + r.len()));
    lemma_inner_tidy_subrange(p, k, k + r.len());
    if r.len() > 0 {
        assert(r[0] == q[0]);
        assert(!is_whitespace(r[0]));
        assert(!is_whitespace(r.last()));
    }
    if !p.contains(',') && r.contains(',') {
        let i = choose|i: int| 0 <= i < r.len() && r[i] == ',';
        assert(p[k + i] == ',');
    }
}

/// Pieces, trimmed and without the blank ones, are segments.
pub proof fn lemma_segments_of_pieces(parts: Seq<Seq<char>>)
    requires
        all_pieces(parts),
    ensures
        all_segments(trimmed_nonempty(parts)),
    decreases parts.len(),
{
    if parts.len() > 0 {
        let head = parts.drop_last();
        assert forall|i: int| 0 <= i < head.len() implies inner_tidy(#[trigger] head[i])
            && !head[i].contains(',') by {
            assert(head[i] == parts[i]);
        }
        lemma_segments_of_pieces(head);
        lemma_trim_is_tidy(parts.last());
    }
}

/// A tidy text is trimmed already, and so is a tidy text behind a space.
pub proof fn lemma_trim_of_tidy(seg: Seq<char>)
    requires
        tidy(seg),
        seg.len() > 0,
    ensures
        trim(seg) == seg,
        trim(seq![' '] + seg) == seg,
{
    assert(!is_whitespace(seg[0]));
    assert(!is_whitespace(seg.last()));
    assert(trim_start(seg) == seg);
    assert(trim_end(seg) == seg);
    let spaced = seq![' '] + seg;
    assert(spaced.skip(1) =~= seg);
    assert(trim_start(spaced) == trim_start(spaced.skip(1)));
}

/// Whether each part is the segment in its place, with or without a space
/// before it, and the first part without.
pub open spec fn loose(parts: Seq<Seq<char>>, segs: Seq<Seq<char>>) -> bool {
    &&& parts.len() == segs.len()
    &&& parts.len() > 0 ==> parts[0] == segs[0]
    &&& forall|i: int|
        0 <= i < parts.len() ==> #[trigger] parts[i] == segs[i] || parts[i] == seq![' ']
            + segs[i]
}

/// Parts that are the segments but for the spaces before them trim to the
/// segments.
pub proof fn lemma_loose_trims_to_segments(parts: Seq<Seq<char>>, segs: Seq<Seq<char>>)
    requires
        loose(parts, segs),
        all_segments(segs),
    ensures
        trimmed_nonempty(parts) == segs,
    decreases parts.len(),
{
    if parts.len() == 0 {
        assert(segs =~= Seq::<Seq<char>>::empty());
    } else {
        let head = parts.drop_last();
        let seg_head = segs.drop_last();
        assert forall|i: int| 0 <= i < head.len() implies #[trigger] head[i] == seg_head[i]
            || head[i] == seq![' '] + seg_head[i] by {
            assert(head[i] == parts[i]);
            assert(seg_head[i] == segs[i]);
        }
        assert forall|i: int| 0 <= i < seg_head.len() implies (#[trigger] seg_head[i]).len() > 0
            && tidy(seg_head[i]) && !seg_head[i].contains(',') by {
            assert(seg_head[i] == segs[i]);
        }
        lemma_loose_trims_to_segments(head, seg_head);
        let last = segs.last();
        assert(parts.last() == parts[parts.len() - 1]);
        lemma_trim_of_tidy(last);
        assert(trim(parts.last()) == last);
        assert(seg_head.push(last) =~= segs);
    }
}

/// The segments, each but the first behind a space.
pub open spec fn spaced(segs: Seq<Seq<char>>) -> Seq<Seq<char>> {
    Seq::new(
        segs.len(),
        |i: int|
            if i == 0 {
                segs[i]
            } else {
                seq![' '] + segs[i]
            },
    )
}

/// Joining by a comma and a space is joining by a comma the parts with a
/// space before each but the first.
pub proof fn lemma_join_spaced(segs: Seq<Seq<char>>)
    ensures
        join(segs, seq![',', ' ']) == join(spaced(segs), seq![',']),
        loose(spaced(segs), segs),
    decreases segs.len(),
{
    if segs.len() <= 1 {
    } else {
        let head = segs.drop_last();
        lemma_join_spaced(head);
        assert(spaced(segs).drop_last() =~= spaced(head));
        assert(spaced(segs).last() == seq![' '] + segs.last());
        assert(join(head, seq![',', ' ']) + seq![',', ' '] + segs.last() =~= join(
            spaced(head),
            seq![','],
        ) + seq![','] + (seq![' '] + segs.last()));
    }
}

/// Of a rule whose pattern begins with a space: either what replaces the
/// pattern is the pattern without that space, or the rule is the first, and
/// its pattern without that space is the pattern of the third.
proof fn lemma_rule_shapes(k: int)
    requires
        0 <= k < punctuation_rules().len(),
    ensures
        punctuation_rules()[k].0.len() > 0,
        punctuation_rules()[k].0[0] == ' ' ==> punctuation_rules()[k].1
            == punctuation_rules()[k].0.skip(1) || (k == 0 && punctuation_rules()[0].0.skip(1)
            == punctuation_rules()[2].0),
{
    let rule = punctuation_rules()[k];
    if k == 0 {
        assert(rule.0.skip(1) =~= punctuation_rules()[2].0);
    } else if k == 1 {
        assert(rule.0 =~= seq![' ', ':', ':']);
        assert(rule.1 =~= rule.0.skip(1));
    } else if k == 2 {
        assert(rule.0 =~= seq![':', ':', ' ']);
    } else if k == 3 {
        assert(rule.0 =~= seq![' ', '<']);
        assert(rule.1 =~= rule.0.skip(1));
    } else if k == 4 {
        assert(rule.0 =~= seq!['<', ' ']);
    } else if k == 5 {
        assert(rule.0 =~= seq![' ', '>']);
        assert(rule.1 =~= rule.0.skip(1));
    } else if k == 6 {
        assert(rule.0 =~= seq!['*', ' ', 'm', 'u', 't']);
    } else if k == 7 {
        assert(rule.0 =~= seq!['*', ' ', 'c', 'o', 'n', 's', 't']);
    } else if k == 8 {
        assert(rule.0 =~= seq!['&', ' ', 'm', 'u', 't']);
    } else {
        assert(rule.0 =~= seq!['&', ' ', '\'']);
    }
}

/// A rule leaves a segment without patterns as it is, and of such a segment
/// behind a space it takes at most the space.
pub proof fn lemma_rule_on_segment(seg: Seq<char>, k: int)
    requires
        0 <= k < punctuation_rules().len(),
        pattern_free(seg),
    ensures
        replace_all(seg, punctuation_rules()[k].0, punctuation_rules()[k].1) == seg,
        replace_all(seq![' '] + seg, punctuation_rules()[k].0, punctuation_rules()[k].1) == seg
            || replace_all(seq![' '] + seg, punctuation_rules()[k].0, punctuation_rules()[k].1)
            == seq![' '] + seg,
{
    let rules = punctuation_rules();
    let pat = rules[k].0;
    let rep = rules[k].1;
    assert(free_of(seg, pat));
    lemma_replace_nothing(seg, pat, rep);
    lemma_rule_shapes(k);
    let u = seq![' '] + seg;
    assert(u.skip(1) =~= seg);
    if pat.is_prefix_of(u) {
        let n = pat.len() as int;
        assert(pat[0] == u.subrange(0, n)[0]);
        assert(pat[0] == ' ');
        assert(pat.skip(1).is_prefix_of(seg)) by {
            assert(pat.skip(1) =~= seg.subrange(0, n - 1)) by {
                assert forall|i: int| 0 <= i < n - 1 implies pat.skip(1)[i] == seg[i] by {
                    assert(pat[i + 1] == u.subrange(0, n)[i + 1]);
                }
            }
        }
        if rep == pat.skip(1) {
            assert(u.skip(n) =~= seg.skip(n - 1));
            lemma_free_suffix(seg, pat, n - 1);
            lemma_replace_nothing(seg.skip(n - 1), pat, rep);
            assert(rep + seg.skip(n - 1) =~= seg);
        } else {
            assert(free_of(seg, rules[2].0));
            assert(seg.skip(0) =~= seg);
            assert(occurs(rules[2].0, seg, 0));
        }
    } else {
        assert(seq![u[0]] + seg =~= u);
    }
}

/// A rule leaves the parts of a settled list loose.
pub proof fn lemma_rule_keeps_loose(parts: Seq<Seq<char>>, segs: Seq<Seq<char>>, k: int)
    requires
        0 <= k < punctuation_rules().len(),
        loose(parts, segs),
        forall|i: int| 0 <= i < segs.len() ==> pattern_free(#[trigger] segs[i]),
    ensures
        loose(
            replace_each(parts, punctuation_rules()[k].0, punctuation_rules()[k].1),
            segs,
        ),
{
    let pat = punctuation_rules()[k].0;
    let rep = punctuation_rules()[k].1;
    let each = replace_each(parts, pat, rep);
    assert forall|i: int| 0 <= i < each.len() implies #[trigger] each[i] == segs[i] || each[i]
        == seq![' '] + segs[i] by {
        assert(pattern_free(segs[i]));
        lemma_rule_on_segment(segs[i], k);
        assert(parts[i] == segs[i] || parts[i] == seq![' '] + segs[i]);
    }
    if parts.len() > 0 {
        assert(pattern_free(segs[0]));
        lemma_rule_on_segment(segs[0], k);
    }
}

/// The first `n` rules leave the parts of a settled list loose: what they
/// make of the joined parts is again parts joined, each the segment in its
/// place with or without a space before it.
pub proof fn lemma_rules_keep_loose(parts: Seq<Seq<char>>, segs: Seq<Seq<char>>, n: nat) -> (out:
    Seq<Seq<char>>)
    requires
        n <= punctuation_rules().len(),
        loose(parts, segs),
        forall|i: int| 0 <= i < segs.len() ==> pattern_free(#[trigger] segs[i]),
    ensures
        apply_rules(join(parts, seq![',']), punctuation_rules().take(n as int)) == join(
            out,
            seq![','],
        ),
        loose(out, segs),
    decreases n,
{
    let rules = punctuation_rules();
    if n == 0 {
        parts
    } else {
        let mid = lemma_rules_keep_loose(parts, segs, (n - 1) as nat);
        assert(rules.take(n as int).drop_last() =~= rules.take(n - 1));
        assert(rules.take(n as int).last() == rules[n - 1]);
        lemma_rules_remove_spaces();
        assert(removes_spaces(rules[n - 1]));
        lemma_replace_in_join(mid, ',', rules[n - 1].0, rules[n - 1].1);
        lemma_rule_keeps_loose(mid, segs, n - 1);
        replace_each(mid, rules[n - 1].0, rules[n - 1].1)
    }
}

/// Two or more parts joined by `c` hold `c`.
pub proof fn lemma_join_holds_separator(parts: Seq<Seq<char>>, c: char)
    requires
        parts.len() >= 2,
    ensures
        join(parts, seq![c]).contains(c),
{
    let head = join(parts.drop_last(), seq![c]);
    let whole = head + seq![c] + parts.last();
    assert(whole[head.len() as int] == c);
}

/// Loose parts hold no comma where the segments hold none.
pub proof fn lemma_loose_without_comma(parts: Seq<Seq<char>>, segs: Seq<Seq<char>>)
    requires
        loose(parts, segs),
        all_segments(segs),
    ensures
        all_without(parts, ','),
{
    assert forall|i: int| 0 <= i < parts.len() implies !(#[trigger] parts[i]).contains(',') by {
        let seg = segs[i];
        assert(!seg.contains(','));
        if parts[i].contains(',') {
            let j = choose|j: int| 0 <= j < parts[i].len() && parts[i][j] == ',';
            if parts[i] == seg {
            } else {
                assert(parts[i] == seq![' '] + seg);
                if j > 0 {
                    assert(seg[j - 1] == ',');
                }
            }
        }
    }
}

/// The segments of the comma list that a joined list of segments spells
/// are those segments.
pub proof fn lemma_segments_of_join(segs: Seq<Seq<char>>)
    requires
        all_segments(segs),
    ensures
        segments(join(segs, seq![',', ' '])) == segs,
{
    let t = join(segs, seq![',', ' ']);
    if segs.len() == 0 {
        assert(t.len() == 0);
        assert(split_at_char(t, ',') =~= seq![t]);
        assert(trim_start(t) == t);
        assert(trim_end(t) == t);
        assert(seq![t].last() == t);
        assert(seq![t].drop_last() =~= Seq::<Seq<char>>::empty());
        assert(trimmed_nonempty(Seq::<Seq<char>>::empty()) =~= Seq::<Seq<char>>::empty());
        assert(trimmed_nonempty(seq![t]) =~= Seq::<Seq<char>>::empty());
        assert(segs =~= Seq::<Seq<char>>::empty());
    } else {
        lemma_join_spaced(segs);
        lemma_loose_without_comma(spaced(segs), segs);
        lemma_split_join(spaced(segs), ',');
        lemma_loose_trims_to_segments(spaced(segs), segs);
    }
}

/// A list of segments without patterns, joined by a comma and a space, is
/// its own normal form.
pub proof fn lemma_settled_list_is_normal(segs: Seq<Seq<char>>)
    requires
        all_segments(segs),
        forall|i: int| 0 <= i < segs.len() ==> pattern_free(#[trigger] segs[i]),
    ensures
        normalize(join(segs, seq![',', ' '])) == join(segs, seq![',', ' ']),
{
    let t = join(segs, seq![',', ' ']);
    let rules = punctuation_rules();
    assert forall|i: int| 0 <= i < segs.len() implies (#[trigger] segs[i]).len() > 0 && tidy(
        segs[i],
    ) by {}
    lemma_join_tidy(segs, seq![',', ' ']);
    lemma_collapse_tidy_unchanged(t);
    lemma_join_spaced(segs);
    let out = lemma_rules_keep_loose(spaced(segs), segs, rules.len());
    assert(rules.take(rules.len() as int) =~= rules);
    let u = apply_rules(t, rules);
    assert(u == join(out, seq![',']));
    if segs.len() == 0 {
        assert(u =~= Seq::<char>::empty());
        assert(!u.contains(','));
    } else {
        lemma_loose_without_comma(out, segs);
        lemma_split_join(out, ',');
        lemma_loose_trims_to_segments(out, segs);
        if segs.len() >= 2 {
            lemma_join_holds_separator(out, ',');
        } else {
            assert(u == out[0]);
            assert(t == segs[0]);
            assert(!u.contains(','));
        }
    }
}

/// The segments of the normal form of `s`.
pub open spec fn normal_segments(s: Seq<char>) -> Seq<Seq<char>> {
    segments(apply_rules(collapse_whitespace(s), punctuation_rules()))
}

/// A normal form is a list of segments joined by a comma and a space.
pub proof fn lemma_normal_form_shape(s: Seq<char>)
    ensures
        all_segments(normal_segments(s)),
        normalize(s) == join(normal_segments(s), seq![',', ' ']),
        segments(normalize(s)) == normal_segments(s),
{
    let x = collapse_whitespace(s);
    let y = apply_rules(x, punctuation_rules());
    lemma_collapse_is_tidy(s);
    lemma_rules_remove_spaces();
    lemma_rules_keep_tidy(x, punctuation_rules());
    lemma_pieces_of_tidy(y);
    lemma_segments_of_pieces(split_at_char(y, ','));
    let segs = normal_segments(s);
    if !y.contains(',') {
        lemma_split_without(y, ',');
        assert(seq![y].drop_last() =~= Seq::<Seq<char>>::empty());
        assert(trimmed_nonempty(Seq::<Seq<char>>::empty()) =~= Seq::<Seq<char>>::empty());
        if y.len() == 0 {
            assert(trim(y) =~= y);
            assert(segs =~= Seq::<Seq<char>>::empty());
        } else {
            lemma_trim_of_tidy(y);
            assert(segs =~= seq![y]);
        }
    }
    lemma_segments_of_join(segs);
}

/// Normalizing twice is normalizing once, for every text in whose normal
/// form no segment of the comma list holds the pattern of a punctuation
/// rule.
pub proof fn normalize_is_idempotent(s: Seq<char>)
    requires
        settled(normalize(s)),
    ensures
        normalize(normalize(s)) == normalize(s),
{
    lemma_normal_form_shape(s);
    lemma_settled_list_is_normal(normal_segments(s));
}

/// The length of `y` without the space that may stand first in it.
pub open spec fn length_behind_space(y: Seq<char>) -> int {
    if y.len() > 0 && y[0] == ' ' {
        y.len() - 1
    } else {
        y.len() as int
    }
}

/// Whether what replaces the pattern of a rule is shorter than the pattern.
pub open spec fn shortens(rule: (Seq<char>, Seq<char>)) -> bool {
    rule.1.len() < rule.0.len()
}

/// Each punctuation rule puts something shorter in the place of its
/// pattern.
pub proof fn lemma_rules_shorten()
    ensures
        forall|k: int|
            0 <= k < punctuation_rules().len() ==> shortens(#[trigger] punctuation_rules()[k]),
{
}

/// A replacement by something that is not longer makes nothing longer.
pub proof fn lemma_replace_not_longer(s: Seq<char>, pat: Seq<char>, rep: Seq<char>)
    requires
        rep.len() <= pat.len(),
    ensures
        replace_all(s, pat, rep).len() <= s.len(),
    decreases s.len(),
{
    if pat.len() == 0 || s.len() == 0 {
    } else if pat.is_prefix_of(s) {
        lemma_replace_not_longer(s.skip(pat.len() as int), pat, rep);
    } else {
        lemma_replace_not_longer(s.skip(1), pat, rep);
    }
}

/// A replacement by something shorter makes the text shorter where the
/// pattern occurs.
pub proof fn lemma_replace_shorter(s: Seq<char>, pat: Seq<char>, rep: Seq<char>, j: int)
    requires
        pat.len() > 0,
        rep.len() < pat.len(),
        occurs(pat, s, j),
    ensures
        replace_all(s, pat, rep).len() < s.len(),
    decreases s.len(),
{
    if pat.is_prefix_of(s) {
        lemma_replace_not_longer(s.skip(pat.len() as int), pat, rep);
    } else {
        assert(s.skip(0) =~= s);
        assert(j >= 1);
        assert(s.skip(1).skip(j - 1) =~= s.skip(j));
        assert(occurs(pat, s.skip(1), j - 1));
        lemma_replace_shorter(s.skip(1), pat, rep, j - 1);
    }
}

/// A rule does not lengthen what stands behind the first space.
pub proof fn lemma_replace_behind_space(y: Seq<char>, rule: (Seq<char>, Seq<char>))
    requires
        inner_tidy(y),
        removes_spaces(rule),
        shortens(rule),
    ensures
        length_behind_space(replace_all(y, rule.0, rule.1)) <= length_behind_space(y),
{
    let out = replace_all(y, rule.0, rule.1);
    lemma_replace_keeps_spacing(y, rule.0, rule.1);
    lemma_replace_not_longer(y, rule.0, rule.1);
    if y.len() > 0 && y[0] == ' ' {
        if rule.0.is_prefix_of(y) {
            lemma_replace_not_longer(y.skip(rule.0.len() as int), rule.0, rule.1);
        } else {
            lemma_replace_not_longer(y.skip(1), rule.0, rule.1);
            assert(out[0] == ' ');
        }
    }
}

/// Trimming leaves at most what stands behind the first space.
pub proof fn lemma_trim_behind_space(y: Seq<char>)
    ensures
        trim(y).len() <= length_behind_space(y),
{
    lemma_trim_start_shape(y);
    lemma_trim_end_shape(trim_start(y));
    if y.len() > 0 && y[0] == ' ' {
        lemma_trim_start_shape(y.skip(1));
    }
}

/// `x` after the first `n` punctuation rules.
pub open spec fn after_rules(x: Seq<char>, n: nat) -> Seq<char> {
    apply_rules(x, punctuation_rules().take(n as int))
}

/// One more rule.
pub proof fn lemma_after_rules_step(x: Seq<char>, n: nat)
    requires
        n < punctuation_rules().len(),
    ensures
        after_rules(x, n + 1) == replace_all(
            after_rules(x, n),
            punctuation_rules()[n as int].0,
            punctuation_rules()[n as int].1,
        ),
{
    let rules = punctuation_rules();
    assert(rules.take(n as int + 1).drop_last() =~= rules.take(n as int));
    assert(rules.take(n as int + 1).last() == rules[n as int]);
}

/// The rules keep single spaces single and do not lengthen what stands
/// behind the first space.
pub proof fn lemma_after_rules_behind_space(x: Seq<char>, from: nat, to: nat)
    requires
        inner_tidy(x),
        from <= to <= punctuation_rules().len(),
    ensures
        inner_tidy(after_rules(x, to)),
        length_behind_space(after_rules(x, to)) <= length_behind_space(after_rules(x, from)),
    decreases to,
{
    lemma_rules_remove_spaces();
    lemma_rules_shorten();
    if to == 0 {
        assert(punctuation_rules().take(0) =~= Seq::<(Seq<char>, Seq<char>)>::empty());
    } else {
        lemma_after_rules_behind_space(x, 0, (to - 1) as nat);
        lemma_after_rules_step(x, (to - 1) as nat);
        let rule = punctuation_rules()[to - 1];
        assert(removes_spaces(rule) && shortens(rule));
        lemma_replace_keeps_spacing(after_rules(x, (to - 1) as nat), rule.0, rule.1);
        lemma_replace_behind_space(after_rules(x, (to - 1) as nat), rule);
        if from < to {
            lemma_after_rules_behind_space(x, from, (to - 1) as nat);
        }
    }
}

/// Whether `x` is `seg`, with or without one space before it.
pub open spec fn is_loose(x: Seq<char>, seg: Seq<char>) -> bool {
    x == seg || x == seq![' '] + seg
}

/// A segment behind a space has single spaces, and behind the space stands
/// the segment.
pub proof fn lemma_loose_piece(x: Seq<char>, seg: Seq<char>)
    requires
        tidy(seg),
        seg.len() > 0,
        is_loose(x, seg),
    ensures
        inner_tidy(x),
        length_behind_space(x) == seg.len(),
{
    if x != seg {
        assert forall|i: int| 0 <= i < x.len() && is_whitespace(#[trigger] x[i]) implies x[i]
            == ' ' by {
            if i > 0 {
                assert(x[i] == seg[i - 1]);
            }
        }
        assert forall|i: int| 0 <= i && i + 1 < x.len() && #[trigger] x[i] == ' ' implies x[i + 1]
            != ' ' by {
            if i > 0 {
                assert(x[i] == seg[i - 1]);
                assert(x[i + 1] == seg[i]);
            } else {
                assert(x[1] == seg[0]);
            }
        }
    }
}

/// Where a rule finds its pattern in a segment, and no rule before it
/// finds its own: until that rule, the segment, with or without the space
/// before it, stays as it is or has lost a character for good.
pub proof fn lemma_loose_until_first_match(seg: Seq<char>, x: Seq<char>, k: int, n: nat)
    requires
        tidy(seg),
        seg.len() > 0,
        is_loose(x, seg),
        0 <= k < punctuation_rules().len(),
        n <= k,
        forall|i: int| 0 <= i < k ==> free_of(seg, #[trigger] punctuation_rules()[i].0),
    ensures
        is_loose(after_rules(x, n), seg) || length_behind_space(after_rules(x, n)) < seg.len(),
    decreases n,
{
    let rules = punctuation_rules();
    lemma_loose_piece(x, seg);
    if n == 0 {
        assert(rules.take(0) =~= Seq::<(Seq<char>, Seq<char>)>::empty());
    } else {
        let m = (n - 1) as nat;
        lemma_loose_until_first_match(seg, x, k, m);
        lemma_after_rules_step(x, m);
        let y = after_rules(x, m);
        let rule = rules[m as int];
        let out = after_rules(x, n);
        if is_loose(y, seg) {
            assert(free_of(seg, rule.0));
            lemma_replace_nothing(seg, rule.0, rule.1);
            if y != seg {
                lemma_rule_shapes(m as int);
                lemma_rules_shorten();
                assert(shortens(rule));
                assert(y.skip(1) =~= seg);
                if rule.0.is_prefix_of(y) {
                    let len = rule.0.len() as int;
                    assert(rule.0[0] == y.subrange(0, len)[0]);
                    assert(y.skip(len) =~= seg.skip(len - 1));
                    lemma_free_suffix(seg, rule.0, len - 1);
                    lemma_replace_nothing(seg.skip(len - 1), rule.0, rule.1);
                    if rule.1 == rule.0.skip(1) {
                        assert(rule.0.skip(1) =~= seg.subrange(0, len - 1)) by {
                            assert forall|i: int| 0 <= i < len - 1 implies rule.0.skip(1)[i]
                                == seg[i] by {
                                assert(rule.0[i + 1] == y.subrange(0, len)[i + 1]);
                            }
                        }
                        assert(rule.1 + seg.skip(len - 1) =~= seg);
                    } else {
                        assert(m == 0);
                        assert(rule.0 =~= seq![' ', ':', ':', ' ']);
                        assert(rule.1 =~= seq![':', ':']);
                        assert(out.len() == seg.len() - 1);
                    }
                } else {
                    assert(seq![y[0]] + seg =~= y);
                }
            }
        } else {
            lemma_after_rules_behind_space(x, m, n);
        }
    }
}

/// Where a rule finds its pattern in a segment, and no rule before it
/// finds its own, that rule takes a character of the segment.
pub proof fn lemma_first_match_shortens(seg: Seq<char>, x: Seq<char>, k: int, j: int)
    requires
        tidy(seg),
        seg.len() > 0,
        is_loose(x, seg),
        0 <= k < punctuation_rules().len(),
        occurs(punctuation_rules()[k].0, seg, j),
        forall|i: int| 0 <= i < k ==> free_of(seg, #[trigger] punctuation_rules()[i].0),
    ensures
        length_behind_space(after_rules(x, punctuation_rules().len())) < seg.len(),
{
    let rules = punctuation_rules();
    let n = k as nat;
    lemma_loose_piece(x, seg);
    lemma_loose_until_first_match(seg, x, k, n);
    lemma_after_rules_step(x, n);
    lemma_rules_remove_spaces();
    lemma_rules_shorten();
    let y = after_rules(x, n);
    let rule = rules[k];
    let out = after_rules(x, n + 1);
    assert(removes_spaces(rule) && shortens(rule));
    lemma_after_rules_behind_space(x, n, n + 1);
    if is_loose(y, seg) {
        if y == seg {
            lemma_replace_shorter(seg, rule.0, rule.1, j);
            lemma_replace_keeps_spacing(seg, rule.0, rule.1);
        } else {
            assert(y.skip(1) =~= seg);
            lemma_replace_shorter(seg, rule.0, rule.1, j);
            if rule.0.is_prefix_of(y) {
                let len = rule.0.len() as int;
                assert(rule.0[0] == y.subrange(0, len)[0]);
                let rest = y.skip(len);
                assert(rest =~= seg.skip(len - 1));
                lemma_replace_not_longer(rest, rule.0, rule.1);
                lemma_rule_shapes(k);
                assert(out == rule.1 + replace_all(rest, rule.0, rule.1));
                assert(!is_whitespace(rule.1[0]));
                assert(out[0] == rule.1[0]);
                if rule.1.len() + 1 == rule.0.len() {
                    assert(rule.1 == rule.0.skip(1));
                    if j >= len - 1 {
                        assert(rest.skip(j - (len - 1)) =~= seg.skip(j));
                        assert(occurs(rule.0, rest, j - (len - 1)));
                        lemma_replace_shorter(rest, rule.0, rule.1, j - (len - 1));
                    } else {
                        assert(rule.0[0] == seg.skip(j).subrange(0, len)[0]);
                        assert(seg[j] == ' ');
                        assert(rule.0[j + 1] == y.subrange(0, len)[j + 1]);
                        assert(rule.1[j] == rule.0[j + 1]);
                        assert(is_whitespace(rule.1[j]));
                    }
                }
            } else {
                assert(out == seq![y[0]] + replace_all(seg, rule.0, rule.1));
                assert(out[0] == ' ');
            }
        }
    }
    lemma_after_rules_behind_space(x, n + 1, rules.len());
}

/// The first rule from the `n`-th on that finds its pattern in `seg`, and
/// where it finds it.
pub proof fn lemma_find_first_match(seg: Seq<char>, n: nat) -> (found: (int, int))
    requires
        n <= punctuation_rules().len(),
        !pattern_free(seg),
        forall|i: int| 0 <= i < n ==> free_of(seg, #[trigger] punctuation_rules()[i].0),
    ensures
        0 <= found.0 < punctuation_rules().len(),
        occurs(punctuation_rules()[found.0].0, seg, found.1),
        forall|i: int| 0 <= i < found.0 ==> free_of(seg, #[trigger] punctuation_rules()[i].0),
    decreases punctuation_rules().len() - n,
{
    let rules = punctuation_rules();
    if n >= rules.len() {
        assert(pattern_free(seg));
        (0, 0)
    } else if free_of(seg, rules[n as int].0) {
        lemma_find_first_match(seg, n + 1)
    } else {
        let j = choose|j: int| occurs(rules[n as int].0, seg, j);
        (n as int, j)
    }
}

/// The parts, each after the first `n` punctuation rules.
pub open spec fn each_after_rules(parts: Seq<Seq<char>>, n: nat) -> Seq<Seq<char>> {
    Seq::new(parts.len(), |i: int| after_rules(parts[i], n))
}

/// The rules work on a list joined by commas part by part.
pub proof fn lemma_rules_in_join(parts: Seq<Seq<char>>, n: nat)
    requires
        n <= punctuation_rules().len(),
    ensures
        after_rules(join(parts, seq![',']), n) == join(each_after_rules(parts, n), seq![',']),
    decreases n,
{
    let rules = punctuation_rules();
    let whole = join(parts, seq![',']);
    if n == 0 {
        assert(rules.take(0) =~= Seq::<(Seq<char>, Seq<char>)>::empty());
        assert(each_after_rules(parts, 0) =~= parts);
    } else {
        let m = (n - 1) as nat;
        lemma_rules_in_join(parts, m);
        lemma_after_rules_step(whole, m);
        lemma_rules_remove_spaces();
        let rule = rules[m as int];
        assert(removes_spaces(rule));
        let before = each_after_rules(parts, m);
        lemma_replace_in_join(before, ',', rule.0, rule.1);
        assert forall|i: int| 0 <= i < parts.len() implies #[trigger] replace_each(
            before,
            rule.0,
            rule.1,
        )[i] == each_after_rules(parts, n)[i] by {
            lemma_after_rules_step(parts[i], m);
        }
        assert(replace_each(before, rule.0, rule.1) =~= each_after_rules(parts, n));
    }
}

/// The rules bring no comma.
pub proof fn lemma_rules_bring_no_comma(x: Seq<char>, n: nat)
    requires
        n <= punctuation_rules().len(),
        !x.contains(','),
    ensures
        !after_rules(x, n).contains(','),
    decreases n,
{
    if n == 0 {
        assert(punctuation_rules().take(0) =~= Seq::<(Seq<char>, Seq<char>)>::empty());
    } else {
        let m = (n - 1) as nat;
        lemma_rules_bring_no_comma(x, m);
        lemma_after_rules_step(x, m);
        lemma_rules_remove_spaces();
        let rule = punctuation_rules()[m as int];
        assert(removes_spaces(rule));
        lemma_replace_brings_nothing(after_rules(x, m), rule.0, rule.1, ',');
    }
}

/// The lengths of the parts, added up.
pub open spec fn total_len(parts: Seq<Seq<char>>) -> int
    decreases parts.len(),
{
    if parts.len() == 0 {
        0
    } else {
        total_len(parts.drop_last()) + parts.last().len()
    }
}

/// The lengths of the parts behind their first spaces, added up.
pub open spec fn total_behind_space(parts: Seq<Seq<char>>) -> int
    decreases parts.len(),
{
    if parts.len() == 0 {
        0
    } else {
        total_behind_space(parts.drop_last()) + length_behind_space(parts.last())
    }
}

/// The length of a list joined by a comma and a space.
pub proof fn lemma_join_len(parts: Seq<Seq<char>>)
    ensures
        join(parts, seq![',', ' ']).len() == if parts.len() == 0 {
            0
        } else {
            total_len(parts) + 2 * (parts.len() - 1)
        },
    decreases parts.len(),
{
    if parts.len() == 0 {
    } else if parts.len() == 1 {
        assert(parts.drop_last().len() == 0);
        assert(total_len(parts.drop_last()) == 0);
        assert(parts.last() == parts[0]);
    } else {
        lemma_join_len(parts.drop_last());
    }
}

/// What is left of the parts after trimming is not longer than what stands
/// behind their first spaces.
pub proof fn lemma_trimmed_bound(parts: Seq<Seq<char>>)
    ensures
        total_len(trimmed_nonempty(parts)) + 2 * trimmed_nonempty(parts).len()
            <= total_behind_space(parts) + 2 * parts.len(),
    decreases parts.len(),
{
    if parts.len() > 0 {
        let head = trimmed_nonempty(parts.drop_last());
        lemma_trimmed_bound(parts.drop_last());
        lemma_trim_behind_space(parts.last());
        let piece = trim(parts.last());
        if piece.len() > 0 {
            assert(head.push(piece).drop_last() =~= head);
        }
    }
}

/// Parts that are nowhere longer behind their first spaces than the
/// segments, and somewhere shorter, are shorter in sum.
pub proof fn lemma_total_behind_space(parts: Seq<Seq<char>>, segs: Seq<Seq<char>>, at: int)
    requires
        parts.len() == segs.len(),
        forall|i: int|
            0 <= i < parts.len() ==> length_behind_space(#[trigger] parts[i]) <= segs[i].len(),
        0 <= at < parts.len() ==> length_behind_space(parts[at]) < segs[at].len(),
    ensures
        total_behind_space(parts) <= total_len(segs),
        0 <= at < parts.len() ==> total_behind_space(parts) < total_len(segs),
    decreases parts.len(),
{
    if parts.len() > 0 {
        let head = parts.drop_last();
        let seg_head = segs.drop_last();
        assert forall|i: int| 0 <= i < head.len() implies length_behind_space(#[trigger] head[i])
            <= seg_head[i].len() by {
            assert(head[i] == parts[i]);
            assert(seg_head[i] == segs[i]);
        }
        if 0 <= at < head.len() {
            assert(head[at] == parts[at]);
            assert(seg_head[at] == segs[at]);
        }
        lemma_total_behind_space(head, seg_head, at);
        assert(parts.last() == parts[parts.len() - 1]);
        assert(segs.last() == segs[segs.len() - 1]);
    }
}

/// A list of segments of which one holds the pattern of a punctuation
/// rule, joined by a comma and a space, is not its own normal form: its
/// normal form is shorter.
pub proof fn lemma_unsettled_list_is_not_normal(segs: Seq<Seq<char>>, at: int)
    requires
        all_segments(segs),
        0 <= at < segs.len(),
        !pattern_free(segs[at]),
    ensures
        normalize(join(segs, seq![',', ' '])).len() < join(segs, seq![',', ' ']).len(),
{
    let t = join(segs, seq![',', ' ']);
    let rules = punctuation_rules();
    let all = rules.len();
    assert forall|i: int| 0 <= i < segs.len() implies (#[trigger] segs[i]).len() > 0 && tidy(
        segs[i],
    ) by {}
    lemma_join_tidy(segs, seq![',', ' ']);
    lemma_collapse_tidy_unchanged(t);
    lemma_join_spaced(segs);
    let parts = spaced(segs);
    lemma_rules_in_join(parts, all);
    assert(rules.take(all as int) =~= rules);
    let after = each_after_rules(parts, all);
    let u = apply_rules(t, rules);
    assert(u == join(after, seq![',']));
    lemma_loose_without_comma(parts, segs);
    assert forall|i: int| 0 <= i < after.len() implies length_behind_space(#[trigger] after[i])
        <= segs[i].len() && !after[i].contains(',') by {
        assert(is_loose(parts[i], segs[i]));
        lemma_loose_piece(parts[i], segs[i]);
        lemma_after_rules_behind_space(parts[i], 0, all);
        assert(rules.take(0) =~= Seq::<(Seq<char>, Seq<char>)>::empty());
        assert(after_rules(parts[i], 0) == parts[i]);
        assert(!parts[i].contains(','));
        lemma_rules_bring_no_comma(parts[i], all);
    }
    let found = lemma_find_first_match(segs[at], 0);
    assert(is_loose(parts[at], segs[at]));
    lemma_first_match_shortens(segs[at], parts[at], found.0, found.1);
    assert(length_behind_space(after[at]) < segs[at].len());
    lemma_total_behind_space(after, segs, at);
    lemma_join_len(segs);
    if segs.len() == 1 {
        assert(u == after[0]);
        assert(parts[0] == segs[0]);
        lemma_rules_remove_spaces();
        lemma_rules_keep_tidy(segs[0], rules);
        assert(!u.contains(','));
        assert(total_len(segs.drop_last()) == 0);
        assert(total_behind_space(after.drop_last()) == 0);
        assert(after.last() == after[0]);
        assert(segs.last() == segs[0]);
    } else {
        lemma_join_holds_separator(after, ',');
        lemma_split_join(after, ',');
        lemma_trimmed_bound(after);
        lemma_join_len(trimmed_nonempty(after));
    }
}

/// Normalizing twice is not normalizing once for a text in whose normal
/// form a segment of the comma list holds the pattern of a punctuation
/// rule: the second time takes a space that the first time left.
pub proof fn normalize_twice_differs(s: Seq<char>)
    requires
        !settled(normalize(s)),
    ensures
        normalize(normalize(s)) != normalize(s),
{
    lemma_normal_form_shape(s);
    let segs = normal_segments(s);
    let at = choose|i: int| 0 <= i < segs.len() && !pattern_free(#[trigger] segs[i]);
    lemma_unsettled_list_is_not_normal(segs, at);
}

/// Normalizing twice is normalizing once exactly for the texts in whose
/// normal form no segment of the comma list holds the pattern of a
/// punctuation rule.
pub proof fn normalize_is_idempotent_exactly_when_settled(s: Seq<char>)
    ensures
        normalize(normalize(s)) == normalize(s) <==> settled(normalize(s)),
{
    if settled(normalize(s)) {
        normalize_is_idempotent(s);
    } else {
        normalize_twice_differs(s);
    }
}

} // verus!
