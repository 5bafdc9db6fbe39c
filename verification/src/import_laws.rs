//! What the alias pass achieves: every name that is needed is imported.

use crate::aliases::{
    ensure_imports, ensure_uses, new_import, place_after_imports, ItemKindView, UnitItemView,
};
use crate::stdint::{
    is_empty_flags, lemma_stdint_index, minus, no_names, stdint_index, stdint_names,
    with_name, without_name,
};
use crate::use_tree::{
    collect_names, collect_names_each, ensure_each, ensure_group, ensure_tree, libc_name,
    name_leaves, UseTreeView,
};
use vstd::prelude::*;

verus! {

/// Whether what was collected brings every name of `want`: a glob was met,
/// or every flag of `want` is up in what was found.
pub open spec fn covers(got: (Seq<bool>, bool), want: Seq<bool>) -> bool {
    got.1 || forall|i: int| 0 <= i < 8 && want[i] ==> got.0[i]
}

/// The fixed-width names are eight, each different from the others.
pub proof fn lemma_stdint_names_distinct()
    ensures
        stdint_names().len() == 8,
        forall|j: int, k: int|
            0 <= j < 8 && 0 <= k < 8 && j != k ==> #[trigger] stdint_names()[j]
                != #[trigger] stdint_names()[k],
{
    let names = stdint_names();
    assert forall|j: int, k: int| 0 <= j < 8 && 0 <= k < 8 && j != k implies #[trigger] names[j]
        != #[trigger] names[k] by {
        let a = names[j];
        let b = names[k];
        assert(a[0] != b[0] || a[3] != b[3] || a[4] != b[4]);
    }
}

/// The place of the `k`-th fixed-width name is `k`.
pub proof fn lemma_index_of_name(k: int)
    requires
        0 <= k < 8,
    ensures
        stdint_index(stdint_names()[k]) == Some(k),
{
    lemma_stdint_names_distinct();
    lemma_stdint_index(stdint_names()[k], 8);
}

/// Putting a name up keeps eight flags eight and takes none down.
pub proof fn lemma_with_name(flags: Seq<bool>, name: Seq<char>)
    requires
        flags.len() == 8,
    ensures
        with_name(flags, name).len() == 8,
        forall|i: int| 0 <= i < 8 && flags[i] ==> with_name(flags, name)[i],
        stdint_index(name) matches Some(i) ==> 0 <= i < 8 && with_name(flags, name)[i],
{
    lemma_stdint_index(name, 8);
}

/// Collecting takes nothing back: eight flags stay eight, a glob that was
/// met stays met, and what was found stays found.
pub proof fn lemma_collect_grows(tree: UseTreeView, in_libc: bool, found: (Seq<bool>, bool))
    requires
        found.0.len() == 8,
    ensures
        collect_names(tree, in_libc, found).0.len() == 8,
        found.1 ==> collect_names(tree, in_libc, found).1,
        covers(collect_names(tree, in_libc, found), found.0),
    decreases tree, 0nat,
{
    match tree {
        UseTreeView::Path { ident, tree } => {
            lemma_collect_grows(*tree, in_libc || ident == libc_name(), found);
        },
        UseTreeView::Group { items } => {
            lemma_collect_each_grows(items, in_libc, found, items.len());
        },
        UseTreeView::Name { ident } => {
            lemma_with_name(found.0, ident);
        },
        UseTreeView::Rename { ident, .. } => {
            lemma_with_name(found.0, ident);
        },
        UseTreeView::Glob => {},
    }
}

/// [`lemma_collect_grows`] for the first `n` trees of a group.
pub proof fn lemma_collect_each_grows(
    items: Seq<UseTreeView>,
    in_libc: bool,
    found: (Seq<bool>, bool),
    n: nat,
)
    requires
        found.0.len() == 8,
        n <= items.len(),
    ensures
        collect_names_each(items, in_libc, found, n).0.len() == 8,
        found.1 ==> collect_names_each(items, in_libc, found, n).1,
        covers(collect_names_each(items, in_libc, found, n), found.0),
    decreases items, n,
{
    if n > 0 {
        lemma_collect_each_grows(items, in_libc, found, (n - 1) as nat);
        let before = collect_names_each(items, in_libc, found, (n - 1) as nat);
        if !before.1 {
            lemma_collect_grows(items[n - 1], in_libc, before);
        }
    }
}

/// What is collected from the first `n` trees depends on those trees
/// alone.
pub proof fn lemma_collect_each_prefix(
    a: Seq<UseTreeView>,
    b: Seq<UseTreeView>,
    in_libc: bool,
    found: (Seq<bool>, bool),
    n: nat,
)
    requires
        n <= a.len(),
        n <= b.len(),
        forall|i: int| 0 <= i < n ==> a[i] == b[i],
    ensures
        collect_names_each(a, in_libc, found, n) == collect_names_each(b, in_libc, found, n),
    decreases n,
{
    if n > 0 {
        lemma_collect_each_prefix(a, b, in_libc, found, (n - 1) as nat);
    }
}

/// What is collected from a group under the namespace with name leaves at
/// its end: what is collected from the group, and the names of the leaves;
/// the leaves bring no glob.
pub proof fn lemma_collect_leaves(
    items: Seq<UseTreeView>,
    flags: Seq<bool>,
    found: (Seq<bool>, bool),
    m: nat,
)
    requires
        found.0.len() == 8,
        flags.len() == 8,
        m <= 8,
    ensures
        ({
            let all = items + name_leaves(flags, m);
            let base = collect_names_each(items, true, found, items.len());
            let got = collect_names_each(all, true, found, all.len());
            &&& got.0.len() == 8
            &&& got.1 == base.1
            &&& covers(got, base.0)
            &&& got.1 || forall|i: int| 0 <= i < m && flags[i] ==> got.0[i]
        }),
    decreases m,
{
    let base = collect_names_each(items, true, found, items.len());
    lemma_collect_each_grows(items, true, found, items.len());
    if m == 0 {
        assert(items + name_leaves(flags, 0) =~= items);
    } else {
        let k = (m - 1) as nat;
        lemma_collect_leaves(items, flags, found, k);
        let shorter = items + name_leaves(flags, k);
        let before = collect_names_each(shorter, true, found, shorter.len());
        let all = items + name_leaves(flags, m);
        let got = collect_names_each(all, true, found, all.len());
        if flags[k as int] {
            let leaf = UseTreeView::Name { ident: stdint_names()[k as int] };
            assert(name_leaves(flags, m) == name_leaves(flags, k).push(leaf));
            assert(all =~= shorter.push(leaf));
            assert(all.len() == shorter.len() + 1);
            lemma_collect_each_prefix(all, shorter, true, found, shorter.len());
            assert(collect_names_each(all, true, found, shorter.len()) == before);
            assert(all[all.len() - 1] == leaf);
            assert((all.len() - 1) as nat == shorter.len());
            assert(got == if before.1 {
                before
            } else {
                collect_names(leaf, true, before)
            });
            lemma_index_of_name(k as int);
            lemma_with_name(before.0, stdint_names()[k as int]);
            if !before.1 {
                assert(got.0 == with_name(before.0, stdint_names()[k as int]));
                assert(got.0[k as int]);
                assert forall|i: int| 0 <= i < m && flags[i] implies got.0[i] by {
                    if i < k {
                        assert(before.0[i]);
                    }
                }
                assert forall|i: int| 0 <= i < 8 && base.0[i] implies got.0[i] by {
                    assert(before.0[i]);
                }
            }
        } else {
            assert(name_leaves(flags, m) == name_leaves(flags, k));
        }
    }
}

/// What is collected from two lists of trees, one after the other.
pub proof fn lemma_collect_each_concat(
    a: Seq<UseTreeView>,
    b: Seq<UseTreeView>,
    in_libc: bool,
    found: (Seq<bool>, bool),
    n: nat,
)
    requires
        n <= b.len(),
    ensures
        collect_names_each(a + b, in_libc, found, a.len() + n) == collect_names_each(
            b,
            in_libc,
            collect_names_each(a, in_libc, found, a.len()),
            n,
        ),
    decreases n,
{
    let all = a + b;
    if n == 0 {
        lemma_collect_each_prefix(all, a, in_libc, found, a.len());
    } else {
        lemma_collect_each_concat(a, b, in_libc, found, (n - 1) as nat);
        assert(all[a.len() + n - 1] == b[n - 1]);
    }
}

/// A tree that was made to import the needed names brings every name that
/// is no longer needed, whatever was found before it; and what is still
/// needed was needed.
pub proof fn lemma_ensured_tree_covers(
    tree: UseTreeView,
    needed: Seq<bool>,
    in_libc: bool,
    found: (Seq<bool>, bool),
)
    requires
        needed.len() == 8,
        found.0.len() == 8,
    ensures
        ({
            let out = ensure_tree(tree, needed, in_libc);
            let got = collect_names(out.0, in_libc, found);
            &&& out.1.len() == 8
            &&& forall|i: int| 0 <= i < 8 && out.1[i] ==> needed[i]
            &&& got.0.len() == 8
            &&& found.1 ==> got.1
            &&& covers(got, found.0)
            &&& got.1 || forall|i: int| 0 <= i < 8 && needed[i] && !out.1[i] ==> got.0[i]
        }),
    decreases tree, 0nat,
{
    let out = ensure_tree(tree, needed, in_libc);
    let got = collect_names(out.0, in_libc, found);
    assert(no_names().len() == 8);
    match tree {
        UseTreeView::Path { ident, tree: sub } => {
            let next = in_libc || ident == libc_name();
            lemma_ensured_tree_covers(*sub, needed, next, found);
            let below = ensure_tree(*sub, needed, next);
            assert(out.0 == UseTreeView::Path { ident, tree: Box::new(below.0) });
            assert(got == collect_names(below.0, next, found));
        },
        UseTreeView::Group { items } => {
            if in_libc {
                lemma_ensured_group_covers(items, needed, found);
                let merged = ensure_group(items, needed);
                assert(out.0 == UseTreeView::Group { items: merged.0 });
                assert(got == collect_names_each(merged.0, true, found, merged.0.len()));
            } else {
                lemma_ensured_each_covers(items, needed, found, items.len());
                let each = ensure_each(items, needed, items.len());
                assert(out.0 == UseTreeView::Group { items: each.0 });
                assert(got == collect_names_each(each.0, false, found, each.0.len()));
            }
        },
        UseTreeView::Name { ident } => {
            lemma_stdint_index(ident, 8);
            lemma_with_name(found.0, ident);
            if !in_libc {
            } else if is_empty_flags(without_name(needed, ident)) {
                assert(out.0 == tree);
                assert(got == (with_name(found.0, ident), found.1));
            } else {
                let rest = without_name(needed, ident);
                let single = seq![tree];
                lemma_collect_leaves(single, rest, found, 8);
                assert(single.len() == 1);
                assert(collect_names_each(single, true, found, 0) == found);
                assert(single[0] == tree);
                let base = collect_names_each(single, true, found, 1);
                assert(base == if found.1 {
                    found
                } else {
                    collect_names(tree, true, found)
                });
                let all = single + name_leaves(rest, 8);
                assert(out.0 == UseTreeView::Group { items: all });
                assert(got == collect_names_each(all, true, found, all.len()));
                if !got.1 {
                    assert(base.0 == with_name(found.0, ident));
                    assert forall|i: int| 0 <= i < 8 && needed[i] && !out.1[i] implies got.0[i] by {
                        if stdint_index(ident) == Some(i) {
                            assert(base.0[i]);
                        } else {
                            assert(rest[i]);
                        }
                    }
                    assert forall|i: int| 0 <= i < 8 && found.0[i] implies got.0[i] by {
                        assert(base.0[i]);
                    }
                }
            }
        },
        UseTreeView::Rename { ident, .. } => {
            lemma_stdint_index(ident, 8);
            lemma_with_name(found.0, ident);
        },
        UseTreeView::Glob => {},
    }
}

/// [`lemma_ensured_tree_covers`] for a group under the namespace.
pub proof fn lemma_ensured_group_covers(
    items: Seq<UseTreeView>,
    needed: Seq<bool>,
    found: (Seq<bool>, bool),
)
    requires
        needed.len() == 8,
        found.0.len() == 8,
    ensures
        ({
            let out = ensure_group(items, needed);
            let got = collect_names_each(out.0, true, found, out.0.len());
            &&& out.1 == no_names()
            &&& got.0.len() == 8
            &&& found.1 ==> got.1
            &&& covers(got, found.0)
            &&& covers(got, needed)
        }),
{
    let fresh = collect_names_each(items, true, (no_names(), false), items.len());
    let base = collect_names_each(items, true, found, items.len());
    let out = ensure_group(items, needed);
    let got = collect_names_each(out.0, true, found, out.0.len());
    assert(no_names().len() == 8);
    lemma_collect_each_grows(items, true, found, items.len());
    lemma_collect_each_grows(items, true, (no_names(), false), items.len());
    lemma_collect_each_adds(items, true, found, items.len());
    if fresh.1 {
        assert(out.0 == items);
        assert(got == base);
    } else {
        let lacking = minus(needed, fresh.0);
        assert(lacking.len() == 8);
        assert(out.0 == items + name_leaves(lacking, 8));
        lemma_collect_leaves(items, lacking, found, 8);
        if !got.1 {
            assert forall|i: int| 0 <= i < 8 && needed[i] implies got.0[i] by {
                if fresh.0[i] {
                    assert(base.0[i]);
                } else {
                    assert(lacking[i]);
                }
            }
            assert forall|i: int| 0 <= i < 8 && found.0[i] implies got.0[i] by {
                assert(base.0[i]);
            }
        }
    }
}

/// What is collected on top of what was found holds what is collected on
/// its own.
pub proof fn lemma_collect_adds(tree: UseTreeView, in_libc: bool, found: (Seq<bool>, bool))
    requires
        found.0.len() == 8,
    ensures
        ({
            let alone = collect_names(tree, in_libc, (no_names(), false));
            let got = collect_names(tree, in_libc, found);
            &&& alone.1 ==> got.1
            &&& covers(got, alone.0)
        }),
    decreases tree, 0nat,
{
    match tree {
        UseTreeView::Path { ident, tree } => {
            lemma_collect_adds(*tree, in_libc || ident == libc_name(), found);
        },
        UseTreeView::Group { items } => {
            lemma_collect_each_adds(items, in_libc, found, items.len());
        },
        UseTreeView::Name { ident } => {
            lemma_stdint_index(ident, 8);
        },
        UseTreeView::Rename { ident, .. } => {
            lemma_stdint_index(ident, 8);
        },
        UseTreeView::Glob => {},
    }
}

/// [`lemma_collect_adds`] for the first `n` trees of a group.
pub proof fn lemma_collect_each_adds(
    items: Seq<UseTreeView>,
    in_libc: bool,
    found: (Seq<bool>, bool),
    n: nat,
)
    requires
        found.0.len() == 8,
        n <= items.len(),
    ensures
        ({
            let alone = collect_names_each(items, in_libc, (no_names(), false), n);
            let got = collect_names_each(items, in_libc, found, n);
            &&& alone.1 ==> got.1
            &&& covers(got, alone.0)
        }),
    decreases items, n,
{
    if n > 0 {
        let m = (n - 1) as nat;
        lemma_collect_each_adds(items, in_libc, found, m);
        lemma_collect_each_grows(items, in_libc, found, m);
        lemma_collect_each_grows(items, in_libc, (no_names(), false), m);
        let alone = collect_names_each(items, in_libc, (no_names(), false), m);
        let got = collect_names_each(items, in_libc, found, m);
        if !got.1 {
            lemma_collect_grows(items[n - 1], in_libc, got);
            if !alone.1 {
                lemma_collect_adds(items[n - 1], in_libc, got);
                lemma_collect_adds(items[n - 1], in_libc, alone);
                lemma_collect_grows(items[n - 1], in_libc, alone);
                lemma_collect_more(items[n - 1], in_libc, alone, got);
            }
        }
    }
}

/// Collecting on top of more finds more.
pub proof fn lemma_collect_more(
    tree: UseTreeView,
    in_libc: bool,
    less: (Seq<bool>, bool),
    more: (Seq<bool>, bool),
)
    requires
        less.0.len() == 8,
        more.0.len() == 8,
        less.1 ==> more.1,
        covers(more, less.0),
    ensures
        collect_names(tree, in_libc, less).1 ==> collect_names(tree, in_libc, more).1,
        covers(collect_names(tree, in_libc, more), collect_names(tree, in_libc, less).0),
    decreases tree, 0nat,
{
    lemma_collect_grows(tree, in_libc, more);
    match tree {
        UseTreeView::Path { ident, tree } => {
            lemma_collect_more(*tree, in_libc || ident == libc_name(), less, more);
        },
        UseTreeView::Group { items } => {
            lemma_collect_each_more(items, in_libc, less, more, items.len());
        },
        UseTreeView::Name { ident } => {
            lemma_stdint_index(ident, 8);
        },
        UseTreeView::Rename { ident, .. } => {
            lemma_stdint_index(ident, 8);
        },
        UseTreeView::Glob => {},
    }
}

/// [`lemma_collect_more`] for the first `n` trees of a group.
pub proof fn lemma_collect_each_more(
    items: Seq<UseTreeView>,
    in_libc: bool,
    less: (Seq<bool>, bool),
    more: (Seq<bool>, bool),
    n: nat,
)
    requires
        less.0.len() == 8,
        more.0.len() == 8,
        less.1 ==> more.1,
        covers(more, less.0),
        n <= items.len(),
    ensures
        collect_names_each(items, in_libc, less, n).1 ==> collect_names_each(
            items,
            in_libc,
            more,
            n,
        ).1,
        covers(
            collect_names_each(items, in_libc, more, n),
            collect_names_each(items, in_libc, less, n).0,
        ),
    decreases items, n,
{
    if n > 0 {
        let m = (n - 1) as nat;
        lemma_collect_each_more(items, in_libc, less, more, m);
        lemma_collect_each_grows(items, in_libc, less, m);
        lemma_collect_each_grows(items, in_libc, more, m);
        let a = collect_names_each(items, in_libc, less, m);
        let b = collect_names_each(items, in_libc, more, m);
        if !b.1 {
            lemma_collect_more(items[n - 1], in_libc, a, b);
        }
    }
}

/// [`lemma_ensured_tree_covers`] for the first `n` trees of a group outside
/// the namespace.
pub proof fn lemma_ensured_each_covers(
    items: Seq<UseTreeView>,
    needed: Seq<bool>,
    found: (Seq<bool>, bool),
    n: nat,
)
    requires
        needed.len() == 8,
        found.0.len() == 8,
        n <= items.len(),
    ensures
        ({
            let out = ensure_each(items, needed, n);
            let got = collect_names_each(out.0, false, found, n);
            &&& out.0.len() == n
            &&& out.1.len() == 8
            &&& forall|i: int| 0 <= i < 8 && out.1[i] ==> needed[i]
            &&& got.0.len() == 8
            &&& found.1 ==> got.1
            &&& covers(got, found.0)
            &&& got.1 || forall|i: int| 0 <= i < 8 && needed[i] && !out.1[i] ==> got.0[i]
        }),
    decreases items, n,
{
    if n > 0 {
        let m = (n - 1) as nat;
        lemma_ensured_each_covers(items, needed, found, m);
        let before = ensure_each(items, needed, m);
        let out = ensure_each(items, needed, n);
        let so_far = collect_names_each(before.0, false, found, m);
        let got = collect_names_each(out.0, false, found, n);
        assert(out.0.len() == n);
        assert forall|i: int| 0 <= i < m implies out.0[i] == before.0[i] by {}
        lemma_collect_each_prefix(out.0, before.0, false, found, m);
        assert(collect_names_each(out.0, false, found, m) == so_far);
        assert(got == if so_far.1 {
            so_far
        } else {
            collect_names(out.0[n - 1], false, so_far)
        });
        if !is_empty_flags(before.1) {
            lemma_ensured_tree_covers(items[n - 1], before.1, false, so_far);
        }
        if !so_far.1 {
            if is_empty_flags(before.1) {
                assert(out.0[n - 1] == items[n - 1]);
                lemma_collect_grows(items[n - 1], false, so_far);
                if !got.1 {
                    assert forall|i: int| 0 <= i < 8 && found.0[i] implies got.0[i] by {
                        assert(so_far.0[i]);
                    }
                    assert forall|i: int| 0 <= i < 8 && needed[i] && !out.1[i] implies got.0[i] by {
                        assert(so_far.0[i]);
                    }
                }
            } else {
                let this = ensure_tree(items[n - 1], before.1, false);
                assert(out.0[n - 1] == this.0);
                assert(out.1 == this.1);
                if !got.1 {
                    assert forall|i: int| 0 <= i < 8 && found.0[i] implies got.0[i] by {
                        assert(so_far.0[i]);
                    }
                    assert forall|i: int| 0 <= i < 8 && needed[i] && !out.1[i] implies got.0[i] by {
                        if before.1[i] {
                        } else {
                            assert(so_far.0[i]);
                        }
                    }
                }
            }
        }
    }
}

/// What the imports among the first `n` items bring from the ABI-scalar
/// namespace, on top of `found`: the fixed-width names, and whether a glob
/// is among them.
pub open spec fn imported(items: Seq<UnitItemView>, found: (Seq<bool>, bool), n: nat) -> (
    Seq<bool>,
    bool,
)
    decreases n,
{
    if n == 0 || n > items.len() {
        found
    } else {
        let before = imported(items, found, (n - 1) as nat);
        match items[n - 1].kind {
            ItemKindView::Use(tree) => collect_names(tree, false, before),
            _ => before,
        }
    }
}

/// What the imports of a unit bring from the ABI-scalar namespace.
pub open spec fn imports_of(items: Seq<UnitItemView>) -> (Seq<bool>, bool) {
    imported(items, (no_names(), false), items.len())
}

/// What the first `n` items import depends on those items alone.
pub proof fn lemma_imported_prefix(
    a: Seq<UnitItemView>,
    b: Seq<UnitItemView>,
    found: (Seq<bool>, bool),
    n: nat,
)
    requires
        n <= a.len(),
        n <= b.len(),
        forall|i: int| 0 <= i < n ==> a[i] == b[i],
    ensures
        imported(a, found, n) == imported(b, found, n),
    decreases n,
{
    if n > 0 {
        lemma_imported_prefix(a, b, found, (n - 1) as nat);
    }
}

/// What two lists of items import, one after the other.
pub proof fn lemma_imported_concat(
    a: Seq<UnitItemView>,
    b: Seq<UnitItemView>,
    found: (Seq<bool>, bool),
    n: nat,
)
    requires
        n <= b.len(),
    ensures
        imported(a + b, found, a.len() + n) == imported(b, imported(a, found, a.len()), n),
    decreases n,
{
    let all = a + b;
    if n == 0 {
        lemma_imported_prefix(all, a, found, a.len());
    } else {
        lemma_imported_concat(a, b, found, (n - 1) as nat);
        assert(all[a.len() + n - 1] == b[n - 1]);
    }
}

/// Importing takes nothing back.
pub proof fn lemma_imported_grows(items: Seq<UnitItemView>, found: (Seq<bool>, bool), n: nat)
    requires
        found.0.len() == 8,
        n <= items.len(),
    ensures
        imported(items, found, n).0.len() == 8,
        found.1 ==> imported(items, found, n).1,
        covers(imported(items, found, n), found.0),
    decreases n,
{
    if n > 0 {
        lemma_imported_grows(items, found, (n - 1) as nat);
        let before = imported(items, found, (n - 1) as nat);
        match items[n - 1].kind {
            ItemKindView::Use(tree) => {
                lemma_collect_grows(tree, false, before);
            },
            _ => {},
        }
    }
}

/// Importing on top of more brings more.
pub proof fn lemma_imported_more(
    items: Seq<UnitItemView>,
    less: (Seq<bool>, bool),
    more: (Seq<bool>, bool),
    n: nat,
)
    requires
        less.0.len() == 8,
        more.0.len() == 8,
        less.1 ==> more.1,
        covers(more, less.0),
        n <= items.len(),
    ensures
        imported(items, less, n).1 ==> imported(items, more, n).1,
        covers(imported(items, more, n), imported(items, less, n).0),
    decreases n,
{
    if n > 0 {
        let m = (n - 1) as nat;
        lemma_imported_more(items, less, more, m);
        lemma_imported_grows(items, less, m);
        lemma_imported_grows(items, more, m);
        match items[n - 1].kind {
            ItemKindView::Use(tree) => {
                lemma_collect_more(tree, false, imported(items, less, m), imported(items, more, m));
            },
            _ => {},
        }
    }
}

/// After the merging, the imports among the first `n` items bring every
/// name that is no longer needed; and what is still needed was needed.
pub proof fn lemma_merged_imports_cover(
    items: Seq<UnitItemView>,
    needed: Seq<bool>,
    found: (Seq<bool>, bool),
    n: nat,
)
    requires
        needed.len() == 8,
        found.0.len() == 8,
        n <= items.len(),
    ensures
        ({
            let out = ensure_uses(items, needed, n);
            let got = imported(out.0, found, n);
            &&& out.0.len() == n
            &&& out.1.len() == 8
            &&& forall|i: int| 0 <= i < 8 && out.1[i] ==> needed[i]
            &&& got.0.len() == 8
            &&& found.1 ==> got.1
            &&& covers(got, found.0)
            &&& got.1 || forall|i: int| 0 <= i < 8 && needed[i] && !out.1[i] ==> got.0[i]
        }),
    decreases n,
{
    if n > 0 {
        let m = (n - 1) as nat;
        lemma_merged_imports_cover(items, needed, found, m);
        let before = ensure_uses(items, needed, m);
        let out = ensure_uses(items, needed, n);
        let so_far = imported(before.0, found, m);
        let got = imported(out.0, found, n);
        assert(out.0.len() == n);
        assert forall|i: int| 0 <= i < m implies out.0[i] == before.0[i] by {}
        lemma_imported_prefix(out.0, before.0, found, m);
        assert(imported(out.0, found, m) == so_far);
        match items[n - 1].kind {
            ItemKindView::Use(tree) => {
                if is_empty_flags(before.1) {
                    assert(out.0[n - 1] == items[n - 1]);
                    lemma_collect_grows(tree, false, so_far);
                    if !got.1 {
                        assert forall|i: int| 0 <= i < 8 && found.0[i] implies got.0[i] by {
                            assert(so_far.0[i]);
                        }
                        assert forall|i: int|
                            0 <= i < 8 && needed[i] && !out.1[i] implies got.0[i] by {
                            assert(so_far.0[i]);
                        }
                    }
                } else {
                    lemma_ensured_tree_covers(tree, before.1, false, so_far);
                    let this = ensure_tree(tree, before.1, false);
                    assert(out.0[n - 1].kind == ItemKindView::Use(this.0));
                    assert(out.1 == this.1);
                    assert(got == collect_names(this.0, false, so_far));
                    if !got.1 {
                        assert forall|i: int| 0 <= i < 8 && found.0[i] implies got.0[i] by {
                            assert(so_far.0[i]);
                        }
                        assert forall|i: int|
                            0 <= i < 8 && needed[i] && !out.1[i] implies got.0[i] by {
                            if before.1[i] {
                            } else {
                                assert(so_far.0[i]);
                            }
                        }
                    }
                }
            },
            _ => {
                assert(out.0[n - 1] == items[n - 1]);
            },
        }
    }
}

/// After the pass over the imports, the imports of the unit bring every
/// needed name from the ABI-scalar namespace: by name, or by a glob.
pub proof fn needed_names_are_imported(items: Seq<UnitItemView>, aliases: Seq<bool>)
    requires
        aliases.len() == 8,
    ensures
        covers(imports_of(ensure_imports(items, aliases)), aliases),
{
    let start = (no_names(), false);
    assert(no_names().len() == 8);
    let merged = ensure_uses(items, aliases, items.len());
    let after = ensure_imports(items, aliases);
    lemma_merged_imports_cover(items, aliases, start, items.len());
    if is_empty_flags(aliases) {
    } else if is_empty_flags(merged.1) {
    } else {
        let place = place_after_imports(merged.0, merged.0.len()) as int;
        crate::laws::place_is_after_the_last_import(merged.0, merged.0.len());
        let a = merged.0.subrange(0, place);
        let b = merged.0.subrange(place, merged.0.len() as int);
        let import = new_import(merged.1);
        let with_import = a.push(import);
        assert(after == with_import + b);
        assert(merged.0 =~= a + b);
        lemma_imported_concat(a, b, start, b.len());
        lemma_imported_concat(with_import, b, start, b.len());
        let found_a = imported(a, start, a.len());
        lemma_imported_grows(a, start, a.len());
        lemma_imported_prefix(with_import, a, start, a.len());
        assert(with_import[with_import.len() - 1] == import);
        let leaves = name_leaves(merged.1, 8);
        let found_x = imported(with_import, start, with_import.len());
        let group = UseTreeView::Group { items: leaves };
        let tree = UseTreeView::Path { ident: libc_name(), tree: Box::new(group) };
        assert(import.kind == ItemKindView::Use(tree));
        assert((with_import.len() - 1) as nat == a.len());
        assert(imported(with_import, start, a.len()) == found_a);
        assert(found_x == collect_names(tree, false, found_a));
        assert(collect_names(tree, false, found_a) == collect_names(group, true, found_a));
        assert(collect_names(group, true, found_a) == collect_names_each(
            leaves,
            true,
            found_a,
            leaves.len(),
        ));
        lemma_collect_leaves(Seq::<UseTreeView>::empty(), merged.1, found_a, 8);
        assert(Seq::<UseTreeView>::empty() + leaves =~= leaves);
        assert(collect_names_each(Seq::<UseTreeView>::empty(), true, found_a, 0) == found_a);
        lemma_imported_more(b, found_a, found_x, b.len());
        lemma_imported_grows(b, found_x, b.len());
        let got = imported(b, found_x, b.len());
        let without_import = imported(b, found_a, b.len());
        assert(imports_of(after) == got);
        assert(imports_of(merged.0) == without_import);
        if !got.1 {
            assert forall|i: int| 0 <= i < 8 && aliases[i] implies got.0[i] by {
                if merged.1[i] {
                    assert(found_x.0[i]);
                } else {
                    assert(without_import.0[i]);
                }
            }
        }
    }
}

/// After the alias pass, the imports of the unit bring every fixed-width
/// name whose alias the pass removed, and every fixed-width name that the
/// remaining items use bare.
pub proof fn the_pass_imports_what_it_needs(items: Seq<UnitItemView>)
    ensures
        ({
            let kept = crate::aliases::kept_items(items, items.len());
            let removed = crate::aliases::removed_names(items, items.len());
            let used = crate::aliases::used_names(kept, kept.len());
            let got = imports_of(crate::aliases::normalized_unit(items));
            &&& covers(got, crate::stdint::either(removed, used))
        }),
{
    let kept = crate::aliases::kept_items(items, items.len());
    let removed = crate::aliases::removed_names(items, items.len());
    let used = crate::aliases::used_names(kept, kept.len());
    needed_names_are_imported(kept, crate::stdint::either(removed, used));
}

} // verus!
