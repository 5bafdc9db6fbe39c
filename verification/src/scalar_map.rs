//! The scalar alias table: which ABI scalar alias names which fixed-width
//! primitive.
//!
//! The table is written as text, one `alias=primitive` entry per line. Entries
//! keep the order of their lines, and a lookup returns the first entry that
//! matches, so the order of the lines decides between overlapping aliases.

use crate::text::{
    chars_eq, chars_of, decimal, decimal_of, final_segment, last_path_segment,
    len_until_path_sep, lines, pair_views, split_at_char, split_chars, split_lines, string_of,
    trim, trimmed, views,
};
use vstd::prelude::*;

verus! {

/// The names of the fixed-width integer and floating-point primitives.
pub open spec fn numeric_primitives() -> Seq<Seq<char>> {
    seq![
        seq!['u', '8'],
        seq!['i', '8'],
        seq!['u', '1', '6'],
        seq!['i', '1', '6'],
        seq!['u', '3', '2'],
        seq!['i', '3', '2'],
        seq!['u', '6', '4'],
        seq!['i', '6', '4'],
        seq!['u', 's', 'i', 'z', 'e'],
        seq!['i', 's', 'i', 'z', 'e'],
        seq!['f', '3', '2'],
        seq!['f', '6', '4'],
    ]
}

/// Whether `name` is one of the numeric primitive names.
pub open spec fn is_numeric_primitive_name(name: Seq<char>) -> bool {
    numeric_primitives().contains(name)
}

/// What one line of the table text says.
pub enum LineReading {
    /// A blank line or a comment.
    Skip,
    /// An entry: the alias and the primitive it names.
    Entry(Seq<char>, Seq<char>),
    /// Not one `=` between two names.
    Malformed,
    /// An entry whose alias, by its final segment, is itself a numeric
    /// primitive name.
    ShadowsPrimitive,
}

/// Reads one line of table text.
pub open spec fn read_line(line: Seq<char>) -> LineReading {
    let t = trim(line);
    let pieces = split_at_char(t, '=');
    if t.len() == 0 || t[0] == '#' {
        LineReading::Skip
    } else if pieces.len() != 2 || trim(pieces[0]).len() == 0 || trim(pieces[1]).len() == 0 {
        LineReading::Malformed
    } else if is_numeric_primitive_name(last_path_segment(trim(pieces[0]))) {
        LineReading::ShadowsPrimitive
    } else {
        LineReading::Entry(trim(pieces[0]), trim(pieces[1]))
    }
}

/// What is wrong with a line of table text.
#[derive(Clone, Copy, Debug, PartialEq, Eq)]
pub enum TableDefect {
    /// The line is not one `=` between two names.
    Malformed,
    /// The alias is itself a numeric primitive name.
    ShadowsPrimitive,
}

/// The first defective line of a table text, counted from one.
#[derive(Clone, Copy, Debug, PartialEq, Eq)]
pub struct TableError {
    pub line: usize,
    pub defect: TableDefect,
}

/// The entries that the lines hold, in order, or the first defective line
/// with its number, counted from one.
pub open spec fn read_table(text_lines: Seq<Seq<char>>) -> Result<
    Seq<(Seq<char>, Seq<char>)>,
    (nat, TableDefect),
>
    decreases text_lines.len(),
{
    if text_lines.len() == 0 {
        Ok(Seq::empty())
    } else {
        match read_table(text_lines.drop_last()) {
            Err(e) => Err(e),
            Ok(head) => match read_line(text_lines.last()) {
                LineReading::Skip => Ok(head),
                LineReading::Entry(alias, target) => Ok(head.push((alias, target))),
                LineReading::Malformed => Err((text_lines.len(), TableDefect::Malformed)),
                LineReading::ShadowsPrimitive => Err(
                    (text_lines.len(), TableDefect::ShadowsPrimitive),
                ),
            },
        }
    }
}

/// Whether an entry with this alias answers a query for `name`: the alias
/// is the name, or its final path segment is.
pub open spec fn entry_matches(alias: Seq<char>, name: Seq<char>) -> bool {
    alias == name || last_path_segment(alias) == name
}

/// The primitive of the first entry that matches `name`.
pub open spec fn lookup(table: Seq<(Seq<char>, Seq<char>)>, name: Seq<char>) -> Option<
    Seq<char>,
>
    decreases table.len(),
{
    if table.len() == 0 {
        None
    } else if entry_matches(table[0].0, name) {
        Some(table[0].1)
    } else {
        lookup(table.skip(1), name)
    }
}

/// Whether no entry of the table answers a query for a numeric primitive
/// name.
pub open spec fn shadows_no_primitive(table: Seq<(Seq<char>, Seq<char>)>) -> bool {
    forall|i: int|
        0 <= i < table.len() ==> !is_numeric_primitive_name(
            last_path_segment(#[trigger] table[i].0),
        )
}

/// Whether every entry of the table has an alias and a primitive that are
/// not empty.
pub open spec fn names_not_empty(table: Seq<(Seq<char>, Seq<char>)>) -> bool {
    forall|i: int|
        0 <= i < table.len() ==> (#[trigger] table[i]).0.len() > 0 && table[i].1.len() > 0
}

/// Whether a table is what a table text can give: no name in it is empty,
/// and no alias answers a query for a numeric primitive name.
pub open spec fn well_formed_table(table: Seq<(Seq<char>, Seq<char>)>) -> bool {
    names_not_empty(table) && shadows_no_primitive(table)
}

/// The entries that a table text gives are well formed.
pub proof fn read_table_is_well_formed(text_lines: Seq<Seq<char>>)
    ensures
        read_table(text_lines) matches Ok(table) ==> well_formed_table(table),
    decreases text_lines.len(),
{
    if text_lines.len() > 0 {
        read_table_is_well_formed(text_lines.drop_last());
        match read_table(text_lines.drop_last()) {
            Ok(head) => {
                match read_line(text_lines.last()) {
                    LineReading::Entry(alias, target) => {
                        let table = head.push((alias, target));
                        assert forall|i: int| 0 <= i < table.len() implies (#[trigger] table[i]).0.len()
                            > 0 && table[i].1.len() > 0 && !is_numeric_primitive_name(
                            last_path_segment(table[i].0),
                        ) by {
                            if i < head.len() {
                                assert(table[i] == head[i]);
                            }
                        }
                    },
                    _ => {},
                }
            },
            Err(_) => {},
        }
    }
}

/// The primitive that a lookup gives is that of an entry that matches the
/// name.
pub proof fn lookup_gives_an_entry(table: Seq<(Seq<char>, Seq<char>)>, name: Seq<char>)
    ensures
        lookup(table, name) matches Some(primitive) ==> exists|i: int|
            0 <= i < table.len() && entry_matches(#[trigger] table[i].0, name) && table[i].1
                == primitive,
    decreases table.len(),
{
    if table.len() > 0 && !entry_matches(table[0].0, name) {
        let rest = table.skip(1);
        lookup_gives_an_entry(rest, name);
        match lookup(rest, name) {
            Some(primitive) => {
                let i = choose|i: int|
                    0 <= i < rest.len() && entry_matches(#[trigger] rest[i].0, name) && rest[i].1
                        == primitive;
                assert(rest[i] == table[i + 1]);
                assert(entry_matches(table[i + 1].0, name) && table[i + 1].1 == primitive);
            },
            None => {},
        }
    }
}

/// In a well-formed table a lookup gives a primitive that is not empty, and
/// gives nothing for a numeric primitive name.
pub proof fn lookup_in_well_formed_table(table: Seq<(Seq<char>, Seq<char>)>, name: Seq<char>)
    requires
        well_formed_table(table),
    ensures
        lookup(table, name) matches Some(primitive) ==> primitive.len() > 0,
        is_numeric_primitive_name(name) ==> lookup(table, name) is None,
{
    lookup_gives_an_entry(table, name);
    match lookup(table, name) {
        Some(primitive) => {
            let i = choose|i: int|
                0 <= i < table.len() && entry_matches(#[trigger] table[i].0, name) && table[i].1
                    == primitive;
            assert(table[i].1.len() > 0);
            if is_numeric_primitive_name(name) {
                assert(!is_numeric_primitive_name(last_path_segment(table[i].0)));
                if table[i].0 == name {
                    lemma_primitive_has_no_path(name);
                }
            }
        },
        None => {},
    }
}

/// A numeric primitive name holds no `::`: it is its own final segment.
pub proof fn lemma_primitive_has_no_path(name: Seq<char>)
    requires
        is_numeric_primitive_name(name),
    ensures
        last_path_segment(name) == name,
        name.len() > 0,
{
    let names = numeric_primitives();
    let k = choose|k: int| 0 <= k < names.len() && names[k] == name;
    assert(names[k] == name);
    assert(name.len() >= 2 && name.len() <= 5);
    assert forall|i: int| 0 <= i < name.len() implies name[i] != ':' by {
        assert(names[k][i] != ':');
    }
    lemma_no_colon_no_path(name);
}

/// A text without a colon is its own final segment.
pub proof fn lemma_no_colon_no_path(s: Seq<char>)
    requires
        forall|i: int| 0 <= i < s.len() ==> s[i] != ':',
    ensures
        len_until_path_sep(s) == s.len(),
        last_path_segment(s) == s,
    decreases s.len(),
{
    if s.len() >= 2 {
        let rest = s.skip(1);
        assert forall|i: int| 0 <= i < rest.len() implies rest[i] != ':' by {
            assert(rest[i] == s[i + 1]);
        }
        lemma_no_colon_no_path(rest);
    }
}

/// An ordered list of alias entries. Every table is well formed: no name in
/// it is empty, and no alias answers a query for a numeric primitive name.
#[derive(Debug, PartialEq, Eq)]
pub struct ScalarAliasTable {
    entries: Vec<(Vec<char>, Vec<char>)>,
}

impl View for ScalarAliasTable {
    type V = Seq<(Seq<char>, Seq<char>)>;

    closed spec fn view(&self) -> Seq<(Seq<char>, Seq<char>)> {
        pair_views(self.entries@)
    }
}

impl ScalarAliasTable {
    /// What holds of every table.
    #[verifier::type_invariant]
    pub open spec fn well_formed(self) -> bool {
        well_formed_table(self@)
    }

    /// The table without entries.
    pub fn empty() -> (r: Self)
        ensures
            r@ == Seq::<(Seq<char>, Seq<char>)>::empty(),
    {
        let entries: Vec<(Vec<char>, Vec<char>)> = Vec::new();
        assert(pair_views(entries@) =~= Seq::<(Seq<char>, Seq<char>)>::empty());
        ScalarAliasTable { entries }
    }

    /// The number of entries.
    pub fn len(&self) -> (n: usize)
        ensures
            n == self@.len(),
    {
        self.entries.len()
    }

    /// The alias and the primitive of entry `i`.
    pub fn entry(&self, i: usize) -> (r: Option<(String, String)>)
        ensures
            match r {
                Some(pair) => i < self@.len() && (pair.0@, pair.1@) == self@[i as int]
                    && pair.0@.len() > 0 && pair.1@.len() > 0,
                None => i >= self@.len(),
            },
    {
        proof {
            use_type_invariant(self);
        }
        if i < self.entries.len() {
            Some((string_of(&self.entries[i].0), string_of(&self.entries[i].1)))
        } else {
            None
        }
    }
}

/// Whether `name` is one of the numeric primitive names.
pub fn is_numeric_primitive_chars(name: &Vec<char>) -> (r: bool)
    ensures
        r == is_numeric_primitive_name(name@),
{
    let mut names: Vec<Vec<char>> = Vec::new();
    names.push(vec!['u', '8']);
    names.push(vec!['i', '8']);
    names.push(vec!['u', '1', '6']);
    names.push(vec!['i', '1', '6']);
    names.push(vec!['u', '3', '2']);
    names.push(vec!['i', '3', '2']);
    names.push(vec!['u', '6', '4']);
    names.push(vec!['i', '6', '4']);
    names.push(vec!['u', 's', 'i', 'z', 'e']);
    names.push(vec!['i', 's', 'i', 'z', 'e']);
    names.push(vec!['f', '3', '2']);
    names.push(vec!['f', '6', '4']);
    proof {
        let got = views(names@);
        let want = numeric_primitives();
        assert(got.len() == want.len());
        assert forall|i: int| 0 <= i < got.len() implies got[i] == want[i] by {
            assert(got[i] =~= want[i]);
        }
        assert(got =~= want);
    }
    let mut i: usize = 0;
    while i < names.len()
        invariant
            i <= names.len(),
            views(names@) == numeric_primitives(),
            forall|k: int| 0 <= k < i ==> numeric_primitives()[k] != name@,
        decreases names.len() - i,
    {
        if chars_eq(&names[i], name) {
            assert(views(names@)[i as int] == name@);
            return true;
        }
        assert(views(names@)[i as int] == names@[i as int]@);
        i += 1;
    }
    false
}

/// Whether `name` is one of the numeric primitive names.
pub fn is_numeric_primitive(name: &str) -> (r: bool)
    ensures
        r == is_numeric_primitive_name(name@),
{
    let chars = chars_of(name);
    is_numeric_primitive_chars(&chars)
}

/// The primitive of the first entry whose alias, or whose alias's final
/// path segment, is `name`.
pub fn lookup_chars(table: &ScalarAliasTable, name: &Vec<char>) -> (r: Option<Vec<char>>)
    ensures
        match r {
            Some(v) => lookup(table@, name@) == Some(v@) && v@.len() > 0
                && !is_numeric_primitive_name(name@),
            None => lookup(table@, name@) is None,
        },
{
    let mut i: usize = 0;
    assert(table@.skip(0) =~= table@);
    while i < table.entries.len()
        invariant
            i <= table.entries.len(),
            lookup(table@, name@) == lookup(table@.skip(i as int), name@),
        decreases table.entries.len() - i,
    {
        let ghost rest = table@.skip(i as int);
        assert(rest[0] == (table.entries@[i as int].0@, table.entries@[i as int].1@));
        assert(rest.skip(1) =~= table@.skip(i + 1));
        let entry = &table.entries[i];
        let mut hit = chars_eq(&entry.0, name);
        if !hit {
            let tail = final_segment(&entry.0);
            hit = chars_eq(&tail, name);
        }
        if hit {
            proof {
                use_type_invariant(table);
                lookup_in_well_formed_table(table@, name@);
            }
            return Some(entry.1.clone());
        }
        i += 1;
    }
    None
}

/// The primitive that the table gives for `name`: that of the first entry
/// whose alias, or whose alias's final path segment, is `name`. It is never
/// empty, and there is none for a numeric primitive name.
pub fn map_libc_scalar(table: &ScalarAliasTable, name: &str) -> (r: Option<String>)
    ensures
        match r {
            Some(v) => lookup(table@, name@) == Some(v@) && v@.len() > 0
                && !is_numeric_primitive_name(name@),
            None => lookup(table@, name@) is None,
        },
{
    let chars = chars_of(name);
    match lookup_chars(table, &chars) {
        Some(v) => Some(string_of(&v)),
        None => None,
    }
}

/// Builds the table from a table text without defect: one entry per line,
/// written `alias=primitive`, in the order of the lines; blank lines and
/// lines that begin with `#` are passed over. A text with a defective line
/// is no table text: [`check_libc_scalar_pairs`] tells whether a text has
/// one.
pub fn libc_scalar_pairs(text: &str) -> (r: ScalarAliasTable)
    requires
        read_table(lines(text@)) is Ok,
    ensures
        read_table(lines(text@)) == Ok::<_, (nat, TableDefect)>(r@),
        well_formed_table(r@),
{
    match check_libc_scalar_pairs(text) {
        Ok(table) => table,
        Err(_) => {
            assert(false);
            ScalarAliasTable::empty()
        },
    }
}

/// Reads a table text and tells whether it has a defect: the table, where
/// every line is blank, a comment or one `=` between two names of which the
/// first is no numeric primitive name; else the first line that is none of
/// these, with its number.
pub fn check_libc_scalar_pairs(text: &str) -> (r: Result<ScalarAliasTable, TableError>)
    ensures
        match r {
            Ok(table) => read_table(lines(text@)) == Ok::<_, (nat, TableDefect)>(table@)
                && well_formed_table(table@),
            Err(e) => read_table(lines(text@)) == Err::<Seq<(Seq<char>, Seq<char>)>, _>(
                (e.line as nat, e.defect),
            ),
        },
{
    let chars = chars_of(text);
    let text_lines = split_lines(&chars);
    let mut entries: Vec<(Vec<char>, Vec<char>)> = Vec::new();
    let mut i: usize = 0;
    let ghost all = views(text_lines@);
    assert(all.take(0) =~= Seq::<Seq<char>>::empty());
    assert(pair_views(entries@) =~= Seq::<(Seq<char>, Seq<char>)>::empty());
    while i < text_lines.len()
        invariant
            i <= text_lines.len(),
            all == views(text_lines@),
            all == lines(text@),
            read_table(all.take(i as int)) == Ok::<_, (nat, TableDefect)>(pair_views(entries@)),
            well_formed_table(pair_views(entries@)),
        decreases text_lines.len() - i,
    {
        let ghost grown = all.take(i + 1);
        assert(grown.drop_last() =~= all.take(i as int));
        assert(grown.last() == text_lines@[i as int]@);
        let line = trimmed(&text_lines[i]);
        if line.len() > 0 && line[0] != '#' {
            let pieces = split_chars(&line, '=');
            if pieces.len() != 2 {
                proof {
                    lemma_read_table_stops(all, i + 1);
                }
                return Err(TableError { line: i + 1, defect: TableDefect::Malformed });
            }
            assert(views(pieces@)[0] == pieces@[0]@);
            assert(views(pieces@)[1] == pieces@[1]@);
            let alias = trimmed(&pieces[0]);
            let target = trimmed(&pieces[1]);
            if alias.len() == 0 || target.len() == 0 {
                proof {
                    lemma_read_table_stops(all, i + 1);
                }
                return Err(TableError { line: i + 1, defect: TableDefect::Malformed });
            }
            let tail = final_segment(&alias);
            if is_numeric_primitive_chars(&tail) {
                proof {
                    lemma_read_table_stops(all, i + 1);
                }
                return Err(TableError { line: i + 1, defect: TableDefect::ShadowsPrimitive });
            }
            let ghost before = pair_views(entries@);
            entries.push((alias, target));
            assert(pair_views(entries@) =~= before.push((alias@, target@)));
        }
        i += 1;
    }
    assert(all.take(text_lines.len() as int) =~= all);
    Ok(ScalarAliasTable { entries })
}

/// Once a prefix of the lines has failed, every longer prefix fails in the
/// same way.
pub proof fn lemma_read_table_stops(text_lines: Seq<Seq<char>>, n: int)
    requires
        0 <= n <= text_lines.len(),
        read_table(text_lines.take(n)) is Err,
    ensures
        read_table(text_lines) == read_table(text_lines.take(n)),
    decreases text_lines.len(),
{
    if n == text_lines.len() {
        assert(text_lines.take(n) =~= text_lines);
    } else {
        assert(text_lines.drop_last().take(n) =~= text_lines.take(n));
        lemma_read_table_stops(text_lines.drop_last(), n);
    }
}

impl TableError {
    /// The message for this error, which names the line.
    pub open spec fn message_spec(self) -> Seq<char> {
        match self.defect {
            TableDefect::Malformed => malformed_prefix() + decimal(self.line as nat),
            TableDefect::ShadowsPrimitive => shadowing_prefix() + decimal(self.line as nat),
        }
    }

    /// The message for this error, which names the line.
    pub fn message(&self) -> (r: String)
        ensures
            r@ == self.message_spec(),
    {
        let mut out = match self.defect {
            TableDefect::Malformed => {
                proof {
                    reveal_strlit("Invalid entry in libc_scalar_map.txt on line ");
                }
                chars_of("Invalid entry in libc_scalar_map.txt on line ")
            },
            TableDefect::ShadowsPrimitive => {
                proof {
                    reveal_strlit(
                        "Alias shadows a numeric primitive in libc_scalar_map.txt on line ",
                    );
                }
                chars_of("Alias shadows a numeric primitive in libc_scalar_map.txt on line ")
            },
        };
        let digits = decimal_of(self.line);
        crate::text::append_chars(&mut out, &digits);
        string_of(&out)
    }
}

/// How the message for a malformed line begins.
pub open spec fn malformed_prefix() -> Seq<char> {
    "Invalid entry in libc_scalar_map.txt on line "@
}

/// How the message for a shadowing alias begins.
pub open spec fn shadowing_prefix() -> Seq<char> {
    "Alias shadows a numeric primitive in libc_scalar_map.txt on line "@
}

} // verus!
