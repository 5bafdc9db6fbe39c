//! The fixed-width integer names of the C standard headers, and sets of
//! them.

use crate::text::{chars_eq, chars_of, string_of, views};
use vstd::prelude::*;

verus! {

/// The fixed-width names, in lexicographic order.
pub open spec fn stdint_names() -> Seq<Seq<char>> {
    seq![
        seq!['i', 'n', 't', '1', '6', '_', 't'],
        seq!['i', 'n', 't', '3', '2', '_', 't'],
        seq!['i', 'n', 't', '6', '4', '_', 't'],
        seq!['i', 'n', 't', '8', '_', 't'],
        seq!['u', 'i', 'n', 't', '1', '6', '_', 't'],
        seq!['u', 'i', 'n', 't', '3', '2', '_', 't'],
        seq!['u', 'i', 'n', 't', '6', '4', '_', 't'],
        seq!['u', 'i', 'n', 't', '8', '_', 't'],
    ]
}

/// The native primitive of each fixed-width name, in the order of
/// [`stdint_names`].
pub open spec fn stdint_targets() -> Seq<Seq<char>> {
    seq![
        seq!['i', '1', '6'],
        seq!['i', '3', '2'],
        seq!['i', '6', '4'],
        seq!['i', '8'],
        seq!['u', '1', '6'],
        seq!['u', '3', '2'],
        seq!['u', '6', '4'],
        seq!['u', '8'],
    ]
}

/// The place of `name` among the first `n` fixed-width names.
pub open spec fn stdint_index_below(name: Seq<char>, n: nat) -> Option<int>
    decreases n,
{
    if n == 0 || n > stdint_names().len() {
        None
    } else if stdint_names()[n - 1] == name {
        Some(n - 1)
    } else {
        stdint_index_below(name, (n - 1) as nat)
    }
}

/// The place of `name` among the fixed-width names.
pub open spec fn stdint_index(name: Seq<char>) -> Option<int> {
    stdint_index_below(name, stdint_names().len())
}

/// The native primitive that the fixed-width name `name` stands for.
pub open spec fn expected_target(name: Seq<char>) -> Option<Seq<char>> {
    match stdint_index(name) {
        Some(i) => Some(stdint_targets()[i]),
        None => None,
    }
}

/// The place of a name is a place in the list, and holds the name.
pub proof fn lemma_stdint_index(name: Seq<char>, n: nat)
    requires
        n <= stdint_names().len(),
    ensures
        match stdint_index_below(name, n) {
            Some(i) => 0 <= i < n && stdint_names()[i] == name,
            None => forall|k: int| 0 <= k < n ==> stdint_names()[k] != name,
        },
    decreases n,
{
    if n > 0 && stdint_names()[n - 1] != name {
        lemma_stdint_index(name, (n - 1) as nat);
    }
}

fn name_table() -> (r: Vec<Vec<char>>)
    ensures
        views(r@) == stdint_names(),
{
    let mut r: Vec<Vec<char>> = Vec::new();
    r.push(vec!['i', 'n', 't', '1', '6', '_', 't']);
    r.push(vec!['i', 'n', 't', '3', '2', '_', 't']);
    r.push(vec!['i', 'n', 't', '6', '4', '_', 't']);
    r.push(vec!['i', 'n', 't', '8', '_', 't']);
    r.push(vec!['u', 'i', 'n', 't', '1', '6', '_', 't']);
    r.push(vec!['u', 'i', 'n', 't', '3', '2', '_', 't']);
    r.push(vec!['u', 'i', 'n', 't', '6', '4', '_', 't']);
    r.push(vec!['u', 'i', 'n', 't', '8', '_', 't']);
    proof {
        let got = views(r@);
        let want = stdint_names();
        assert(got.len() == want.len());
        assert forall|i: int| 0 <= i < got.len() implies got[i] == want[i] by {
            assert(got[i] =~= want[i]);
        }
        assert(got =~= want);
    }
    r
}

fn target_table() -> (r: Vec<Vec<char>>)
    ensures
        views(r@) == stdint_targets(),
{
    let mut r: Vec<Vec<char>> = Vec::new();
    r.push(vec!['i', '1', '6']);
    r.push(vec!['i', '3', '2']);
    r.push(vec!['i', '6', '4']);
    r.push(vec!['i', '8']);
    r.push(vec!['u', '1', '6']);
    r.push(vec!['u', '3', '2']);
    r.push(vec!['u', '6', '4']);
    r.push(vec!['u', '8']);
    proof {
        let got = views(r@);
        let want = stdint_targets();
        assert(got.len() == want.len());
        assert forall|i: int| 0 <= i < got.len() implies got[i] == want[i] by {
            assert(got[i] =~= want[i]);
        }
        assert(got =~= want);
    }
    r
}

/// The place of `name` among the fixed-width names.
pub fn stdint_place(name: &str) -> (r: Option<usize>)
    ensures
        match r {
            Some(i) => stdint_index(name@) == Some(i as int),
            None => stdint_index(name@) is None,
        },
{
    let names = name_table();
    let chars = chars_of(name);
    let mut n: usize = names.len();
    while n > 0
        invariant
            n <= names.len(),
            views(names@) == stdint_names(),
            chars@ == name@,
            stdint_index(name@) == stdint_index_below(name@, n as nat),
        decreases n,
    {
        assert(views(names@)[n - 1] == names@[n - 1]@);
        if chars_eq(&names[n - 1], &chars) {
            return Some(n - 1);
        }
        n -= 1;
    }
    None
}

/// The native primitive that a fixed-width name stands for: `i32` for
/// `int32_t`, and so on for the eight names; nothing for another name.
pub fn expected_stdint_target(name: &str) -> (r: Option<String>)
    ensures
        match r {
            Some(target) => expected_target(name@) == Some(target@),
            None => expected_target(name@) is None,
        },
{
    match stdint_place(name) {
        Some(i) => {
            proof {
                lemma_stdint_index(name@, stdint_names().len());
            }
            let targets = target_table();
            assert(views(targets@).len() == targets@.len());
            assert(views(targets@)[i as int] == targets@[i as int]@);
            Some(string_of(&targets[i]))
        },
        None => None,
    }
}

/// Flags without any name: one flag for each fixed-width name, all down.
pub open spec fn no_names() -> Seq<bool> {
    Seq::new(8, |i: int| false)
}

/// Whether no flag is up.
pub open spec fn is_empty_flags(flags: Seq<bool>) -> bool {
    forall|i: int| 0 <= i < flags.len() ==> !#[trigger] flags[i]
}

/// The flags with that of `name` up, where `name` is a fixed-width name.
pub open spec fn with_name(flags: Seq<bool>, name: Seq<char>) -> Seq<bool> {
    match stdint_index(name) {
        Some(i) => flags.update(i, true),
        None => flags,
    }
}

/// The flags with that of `name` down.
pub open spec fn without_name(flags: Seq<bool>, name: Seq<char>) -> Seq<bool> {
    match stdint_index(name) {
        Some(i) => flags.update(i, false),
        None => flags,
    }
}

/// The flags that are up in either.
pub open spec fn either(a: Seq<bool>, b: Seq<bool>) -> Seq<bool> {
    Seq::new(8, |i: int| a[i] || b[i])
}

/// The flags that are up in `a` and down in `b`.
pub open spec fn minus(a: Seq<bool>, b: Seq<bool>) -> Seq<bool> {
    Seq::new(8, |i: int| a[i] && !b[i])
}

/// The names among the first `n` whose flags are up, in order.
pub open spec fn flagged_names(flags: Seq<bool>, n: nat) -> Seq<Seq<char>>
    decreases n,
{
    if n == 0 || n > stdint_names().len() {
        Seq::empty()
    } else {
        let head = flagged_names(flags, (n - 1) as nat);
        if flags[n - 1] {
            head.push(stdint_names()[n - 1])
        } else {
            head
        }
    }
}

/// A set of fixed-width names.
#[derive(Clone, Copy, Debug, PartialEq, Eq)]
pub struct StdintSet {
    flags: [bool; 8],
}

impl View for StdintSet {
    type V = Seq<bool>;

    /// One flag for each fixed-width name, in the order of [`stdint_names`];
    /// a flag is up where the name is in the set.
    closed spec fn view(&self) -> Seq<bool> {
        self.flags@
    }
}

impl StdintSet {
    /// A view has eight flags.
    pub proof fn lemma_len(self)
        ensures
            self@.len() == 8,
    {
    }

    /// The set without names.
    pub fn new() -> (r: Self)
        ensures
            r@ == no_names(),
    {
        let r = StdintSet { flags: [false; 8] };
        assert(r@ =~= no_names());
        r
    }

    /// Whether the set holds no name.
    pub fn is_empty(&self) -> (r: bool)
        ensures
            r == is_empty_flags(self@),
    {
        let mut i: usize = 0;
        while i < 8
            invariant
                i <= 8,
                forall|k: int| 0 <= k < i ==> !self@[k],
            decreases 8 - i,
        {
            if self.flags[i] {
                return false;
            }
            i += 1;
        }
        true
    }

    /// Whether the set holds `name`.
    pub fn contains(&self, name: &str) -> (r: bool)
        ensures
            r == match stdint_index(name@) {
                Some(i) => self@[i],
                None => false,
            },
    {
        match stdint_place(name) {
            Some(i) => {
                proof {
                    lemma_stdint_index(name@, stdint_names().len());
                }
                self.flags[i]
            },
            None => false,
        }
    }

    /// Puts `name` into the set, where it is a fixed-width name.
    pub fn insert(&mut self, name: &str)
        ensures
            final(self)@ == with_name(old(self)@, name@),
    {
        match stdint_place(name) {
            Some(i) => {
                proof {
                    lemma_stdint_index(name@, stdint_names().len());
                }
                self.flags[i] = true;
            },
            None => {},
        }
    }

    /// Takes `name` out of the set.
    pub fn remove(&mut self, name: &str)
        ensures
            final(self)@ == without_name(old(self)@, name@),
    {
        match stdint_place(name) {
            Some(i) => {
                proof {
                    lemma_stdint_index(name@, stdint_names().len());
                }
                self.flags[i] = false;
            },
            None => {},
        }
    }

    /// The names of this set and of `other`.
    pub fn union(&self, other: &StdintSet) -> (r: StdintSet)
        ensures
            r@ == either(self@, other@),
    {
        let mut r = StdintSet::new();
        let mut i: usize = 0;
        while i < 8
            invariant
                i <= 8,
                forall|k: int| 0 <= k < i ==> r@[k] == (self@[k] || other@[k]),
            decreases 8 - i,
        {
            r.flags[i] = self.flags[i] || other.flags[i];
            i += 1;
        }
        assert(r@ =~= either(self@, other@));
        r
    }

    /// The names of this set that are not in `other`.
    pub fn difference(&self, other: &StdintSet) -> (r: StdintSet)
        ensures
            r@ == minus(self@, other@),
    {
        let mut r = StdintSet::new();
        let mut i: usize = 0;
        while i < 8
            invariant
                i <= 8,
                forall|k: int| 0 <= k < i ==> r@[k] == (self@[k] && !other@[k]),
            decreases 8 - i,
        {
            r.flags[i] = self.flags[i] && !other.flags[i];
            i += 1;
        }
        assert(r@ =~= minus(self@, other@));
        r
    }

    /// The names in the set, in lexicographic order.
    pub fn names(&self) -> (r: Vec<String>)
        ensures
            crate::text::string_views(r@) == flagged_names(self@, 8),
    {
        let table = name_table();
        let mut r: Vec<String> = Vec::new();
        let mut i: usize = 0;
        assert(crate::text::string_views(r@) =~= flagged_names(self@, 0));
        while i < 8
            invariant
                i <= 8,
                views(table@) == stdint_names(),
                crate::text::string_views(r@) == flagged_names(self@, i as nat),
            decreases 8 - i,
        {
            assert(views(table@)[i as int] == table@[i as int]@);
            if self.flags[i] {
                let ghost before = crate::text::string_views(r@);
                let name = string_of(&table[i]);
                r.push(name);
                assert(crate::text::string_views(r@) =~= before.push(name@));
            }
            i += 1;
        }
        r
    }
}

} // verus!
