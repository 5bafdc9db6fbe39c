//! The alias pass, run on its own result, changes nothing.

use crate::aliases::{
    bare_stdint, ensure_imports, ensure_uses, is_redundant, kept_items, names_in_paths,
    new_import, normalized_unit, place_after_imports, removed_names, used_names, ItemKindView,
    PathUseView, UnitItemView,
};
use crate::import_laws::{
    lemma_collect_leaves, lemma_ensured_each_covers, lemma_ensured_tree_covers, lemma_with_name,
};
use crate::laws::{
    kept_items_are_not_redundant, merging_changes_import_trees_only,
    place_is_after_the_last_import,
};
use crate::stdint::{
    either, is_empty_flags, lemma_stdint_index, minus, no_names, stdint_index, with_name,
    without_name,
};
use crate::use_tree::{
    collect_names, collect_names_each, ensure_each, ensure_group, ensure_tree, libc_name,
    name_leaves, UseTreeView,
};
use vstd::prelude::*;

verus! {

/// Whether every flag that is up in `a` is up in `b`.
pub open spec fn within(a: Seq<bool>, b: Seq<bool>) -> bool {
    forall|i: int| 0 <= i < 8 && a[i] ==> b[i]
}

/// Flags that are all down give no name leaf.
pub proof fn lemma_no_leaves(flags: Seq<bool>, n: nat)
    requires
        n <= 8,
        forall|i: int| 0 <= i < 8 ==> !flags[i],
    ensures
        name_leaves(flags, n) == Seq::<UseTreeView>::empty(),
    decreases n,
{
    if n > 0 {
        lemma_no_leaves(flags, (n - 1) as nat);
    }
}

/// What is made of the first `n` trees of a group depends on those trees
/// alone.
pub proof fn lemma_ensure_each_prefix(
    a: Seq<UseTreeView>,
    b: Seq<UseTreeView>,
    needed: Seq<bool>,
    n: nat,
)
    requires
        n <= a.len(),
        n <= b.len(),
        forall|i: int| 0 <= i < n ==> a[i] == b[i],
    ensures
        ensure_each(a, needed, n) == ensure_each(b, needed, n),
    decreases n,
{
    if n > 0 {
        lemma_ensure_each_prefix(a, b, needed, (n - 1) as nat);
    }
}

/// A group under the namespace that was made to import the needed names
/// stays as it is when it is made to import any of them again.
pub proof fn lemma_ensured_group_is_stable(
    items: Seq<UseTreeView>,
    needed: Seq<bool>,
    again: Seq<bool>,
)
    requires
        needed.len() == 8,
        again.len() == 8,
        within(again, needed),
    ensures
        ensure_group(ensure_group(items, needed).0, again) == (
            ensure_group(items, needed).0,
            no_names(),
        ),
{
    let start = (no_names(), false);
    assert(no_names().len() == 8);
    let found0 = collect_names_each(items, true, start, items.len());
    let first = ensure_group(items, needed);
    if !found0.1 {
        let lacking = minus(needed, found0.0);
        assert(lacking.len() == 8);
        lemma_collect_leaves(items, lacking, start, 8);
        let found = collect_names_each(first.0, true, start, first.0.len());
        assert(!found.1);
        let lacking_again = minus(again, found.0);
        assert forall|i: int| 0 <= i < 8 implies !lacking_again[i] by {
            if again[i] {
                assert(needed[i]);
                if found0.0[i] {
                } else {
                    assert(lacking[i]);
                }
            }
        }
        lemma_no_leaves(lacking_again, 8);
        assert(first.0 + Seq::<UseTreeView>::empty() =~= first.0);
    }
}

/// A tree that was made to import the needed names stays as it is when it
/// is made to import any of them again, and what is then still needed was
/// still needed before.
pub proof fn lemma_ensured_tree_is_stable(
    tree: UseTreeView,
    needed: Seq<bool>,
    again: Seq<bool>,
    in_libc: bool,
)
    requires
        needed.len() == 8,
        again.len() == 8,
        within(again, needed),
    ensures
        ({
            let first = ensure_tree(tree, needed, in_libc);
            let second = ensure_tree(first.0, again, in_libc);
            &&& second.0 == first.0
            &&& first.1.len() == 8
            &&& second.1.len() == 8
            &&& within(second.1, first.1)
        }),
    decreases tree, 0nat,
{
    let start = (no_names(), false);
    assert(no_names().len() == 8);
    let first = ensure_tree(tree, needed, in_libc);
    lemma_ensured_tree_covers(tree, needed, in_libc, start);
    lemma_ensured_tree_covers(first.0, again, in_libc, start);
    match tree {
        UseTreeView::Path { ident, tree: sub } => {
            let next = in_libc || ident == libc_name();
            lemma_ensured_tree_is_stable(*sub, needed, again, next);
            let below = ensure_tree(*sub, needed, next);
            assert(first.0 == UseTreeView::Path { ident, tree: Box::new(below.0) });
        },
        UseTreeView::Group { items } => {
            if in_libc {
                lemma_ensured_group_is_stable(items, needed, again);
                let merged = ensure_group(items, needed);
                assert(first.0 == UseTreeView::Group { items: merged.0 });
            } else {
                lemma_ensured_each_is_stable(items, needed, again, items.len());
                lemma_ensured_each_covers(items, needed, start, items.len());
                let each = ensure_each(items, needed, items.len());
                assert(first.0 == UseTreeView::Group { items: each.0 });
                assert(each.0.len() == items.len());
            }
        },
        UseTreeView::Name { ident } => {
            lemma_stdint_index(ident, 8);
            if !in_libc {
            } else if is_empty_flags(without_name(needed, ident)) {
                assert(first.0 == tree);
                assert forall|i: int| 0 <= i < 8 implies !without_name(again, ident)[i] by {
                    assert(!without_name(needed, ident)[i]);
                }
                assert(is_empty_flags(without_name(again, ident)));
            } else {
                let rest = without_name(needed, ident);
                let single = seq![tree];
                let all = single + name_leaves(rest, 8);
                assert(first.0 == UseTreeView::Group { items: all });
                lemma_collect_leaves(single, rest, start, 8);
                assert(single.len() == 1);
                assert(single[0] == tree);
                assert(collect_names_each(single, true, start, 0) == start);
                let base = collect_names_each(single, true, start, 1);
                assert(base == collect_names(tree, true, start));
                assert(base == (with_name(no_names(), ident), false));
                lemma_with_name(no_names(), ident);
                let found = collect_names_each(all, true, start, all.len());
                assert(!found.1);
                let lacking_again = minus(again, found.0);
                assert forall|i: int| 0 <= i < 8 implies !lacking_again[i] by {
                    if again[i] {
                        assert(needed[i]);
                        if stdint_index(ident) == Some(i) {
                            assert(base.0[i]);
                        } else {
                            assert(rest[i]);
                        }
                    }
                }
                lemma_no_leaves(lacking_again, 8);
                assert(all + Seq::<UseTreeView>::empty() =~= all);
                assert(ensure_group(all, again) == (all, no_names()));
            }
        },
        UseTreeView::Rename { ident, .. } => {
            lemma_stdint_index(ident, 8);
        },
        UseTreeView::Glob => {},
    }
}

/// [`lemma_ensured_tree_is_stable`] for the first `n` trees of a group
/// outside the namespace.
pub proof fn lemma_ensured_each_is_stable(
    items: Seq<UseTreeView>,
    needed: Seq<bool>,
    again: Seq<bool>,
    n: nat,
)
    requires
        needed.len() == 8,
        again.len() == 8,
        within(again, needed),
        n <= items.len(),
    ensures
        ({
            let first = ensure_each(items, needed, n);
            let second = ensure_each(first.0, again, n);
            &&& first.0.len() == n
            &&& second.0 == first.0
            &&& first.1.len() == 8
            &&& second.1.len() == 8
            &&& within(second.1, first.1)
        }),
    decreases items, n,
{
    if n > 0 {
        let m = (n - 1) as nat;
        lemma_ensured_each_is_stable(items, needed, again, m);
        let before1 = ensure_each(items, needed, m);
        let first = ensure_each(items, needed, n);
        assert(first.0.len() == n);
        assert forall|i: int| 0 <= i < m implies first.0[i] == before1.0[i] by {}
        lemma_ensure_each_prefix(first.0, before1.0, again, m);
        let before2 = ensure_each(first.0, again, m);
        assert(before2 == ensure_each(before1.0, again, m));
        let second = ensure_each(first.0, again, n);
        if is_empty_flags(before1.1) {
            assert(first.0[n - 1] == items[n - 1]);
            assert(is_empty_flags(before2.1));
            assert(second.0 =~= first.0);
        } else {
            let this = ensure_tree(items[n - 1], before1.1, false);
            assert(first.0[n - 1] == this.0);
            if is_empty_flags(before2.1) {
                assert(second.0 =~= first.0);
                lemma_ensured_tree_is_stable(items[n - 1], before1.1, before2.1, false);
            } else {
                lemma_ensured_tree_is_stable(items[n - 1], before1.1, before2.1, false);
                assert(second.0 =~= first.0);
            }
        }
    }
}

/// What is made of the first `n` items of a unit depends on those items
/// alone.
pub proof fn lemma_ensure_uses_prefix(
    a: Seq<UnitItemView>,
    b: Seq<UnitItemView>,
    needed: Seq<bool>,
    n: nat,
)
    requires
        n <= a.len(),
        n <= b.len(),
        forall|i: int| 0 <= i < n ==> a[i] == b[i],
    ensures
        ensure_uses(a, needed, n) == ensure_uses(b, needed, n),
    decreases n,
{
    if n > 0 {
        lemma_ensure_uses_prefix(a, b, needed, (n - 1) as nat);
    }
}

/// What is made of the first items of a unit is the beginning of what is
/// made of more of them.
pub proof fn lemma_ensure_uses_take(items: Seq<UnitItemView>, needed: Seq<bool>, n: nat, m: nat)
    requires
        n <= m <= items.len(),
    ensures
        ensure_uses(items, needed, n).0.len() == n,
        ensure_uses(items, needed, m).0.len() == m,
        forall|i: int|
            0 <= i < n ==> ensure_uses(items, needed, m).0[i] == ensure_uses(items, needed, n).0[i],
    decreases m,
{
    merging_changes_import_trees_only(items, needed, n);
    merging_changes_import_trees_only(items, needed, m);
    if n < m {
        lemma_ensure_uses_take(items, needed, n, (m - 1) as nat);
        let shorter = ensure_uses(items, needed, (m - 1) as nat).0;
        let longer = ensure_uses(items, needed, m).0;
        merging_changes_import_trees_only(items, needed, (m - 1) as nat);
        assert forall|i: int| 0 <= i < n implies longer[i] == ensure_uses(items, needed, n).0[i] by {
            assert(longer[i] == shorter[i]);
        }
    }
}

/// Items that are no imports are passed over: nothing of them changes, and
/// nothing of what is needed.
pub proof fn lemma_ensure_uses_passes_over(
    items: Seq<UnitItemView>,
    needed: Seq<bool>,
    from: nat,
    n: nat,
)
    requires
        from <= n <= items.len(),
        forall|i: int| from <= i < n ==> !(#[trigger] items[i].kind is Use),
    ensures
        ensure_uses(items, needed, n).1 == ensure_uses(items, needed, from).1,
        ensure_uses(items, needed, n).0 == ensure_uses(items, needed, from).0 + items.subrange(
            from as int,
            n as int,
        ),
    decreases n,
{
    if from < n {
        lemma_ensure_uses_passes_over(items, needed, from, (n - 1) as nat);
        assert(!(items[n - 1].kind is Use));
        let head = ensure_uses(items, needed, from).0;
        assert((head + items.subrange(from as int, n - 1)).push(items[n - 1]) =~= head
            + items.subrange(from as int, n as int));
    } else {
        assert(ensure_uses(items, needed, from).0 + items.subrange(from as int, n as int)
            =~= ensure_uses(items, needed, from).0);
    }
}

/// The imports of a unit that were made to bring the needed names stay as
/// they are when they are made to bring any of them again, and what is then
/// still needed was still needed before.
pub proof fn lemma_merged_is_stable(
    items: Seq<UnitItemView>,
    needed: Seq<bool>,
    again: Seq<bool>,
    n: nat,
)
    requires
        needed.len() == 8,
        again.len() == 8,
        within(again, needed),
        n <= items.len(),
    ensures
        ({
            let first = ensure_uses(items, needed, n);
            let second = ensure_uses(first.0, again, n);
            &&& first.0.len() == n
            &&& second.0 == first.0
            &&& first.1.len() == 8
            &&& second.1.len() == 8
            &&& within(second.1, first.1)
        }),
    decreases n,
{
    if n > 0 {
        let m = (n - 1) as nat;
        lemma_merged_is_stable(items, needed, again, m);
        let before1 = ensure_uses(items, needed, m);
        let first = ensure_uses(items, needed, n);
        assert(first.0.len() == n);
        assert forall|i: int| 0 <= i < m implies first.0[i] == before1.0[i] by {}
        lemma_ensure_uses_prefix(first.0, before1.0, again, m);
        let before2 = ensure_uses(first.0, again, m);
        assert(before2 == ensure_uses(before1.0, again, m));
        let second = ensure_uses(first.0, again, n);
        let item = items[n - 1];
        match item.kind {
            ItemKindView::Use(tree) => {
                if is_empty_flags(before1.1) {
                    assert(first.0[n - 1] == item);
                    assert(is_empty_flags(before2.1));
                    assert(second.0 =~= first.0);
                } else {
                    let merged = ensure_tree(tree, before1.1, false);
                    assert(first.0[n - 1] == UnitItemView {
                        kind: ItemKindView::Use(merged.0),
                        ..item
                    });
                    lemma_ensured_tree_is_stable(tree, before1.1, before2.1, false);
                    assert(second.0 =~= first.0);
                }
            },
            _ => {
                assert(first.0[n - 1] == item);
                assert(second.0 =~= first.0);
            },
        }
    }
}

/// Eight flags come of the names that paths use.
pub proof fn lemma_names_in_paths_len(
    paths: Seq<PathUseView>,
    found: Seq<bool>,
    n: nat,
)
    requires
        found.len() == 8,
    ensures
        names_in_paths(paths, found, n).len() == 8,
    decreases n,
{
    if n > 0 && n <= paths.len() {
        lemma_names_in_paths_len(paths, found, (n - 1) as nat);
        match bare_stdint(paths[n - 1]) {
            Some(name) => {
                lemma_with_name(names_in_paths(paths, found, (n - 1) as nat), name);
            },
            None => {},
        }
    }
}

/// Eight flags come of the names that items use.
pub proof fn lemma_used_names_len(items: Seq<UnitItemView>, n: nat)
    ensures
        used_names(items, n).len() == 8,
    decreases n,
{
    if n > 0 && n <= items.len() {
        lemma_used_names_len(items, (n - 1) as nat);
        lemma_names_in_paths_len(
            items[n - 1].paths,
            used_names(items, (n - 1) as nat),
            items[n - 1].paths.len(),
        );
    }
}

/// The names that items use depend on the paths of the items alone.
pub proof fn lemma_used_names_by_paths(a: Seq<UnitItemView>, b: Seq<UnitItemView>, n: nat)
    requires
        n <= a.len(),
        n <= b.len(),
        forall|i: int| 0 <= i < n ==> (#[trigger] a[i]).paths == b[i].paths,
    ensures
        used_names(a, n) == used_names(b, n),
    decreases n,
{
    if n > 0 {
        lemma_used_names_by_paths(a, b, (n - 1) as nat);
        assert(a[n - 1].paths == b[n - 1].paths);
    }
}

/// An item without paths, put among the items, uses no name.
pub proof fn lemma_used_names_with_insert(
    items: Seq<UnitItemView>,
    place: int,
    item: UnitItemView,
    n: nat,
)
    requires
        0 <= place <= items.len(),
        item.paths.len() == 0,
        place <= n <= items.len(),
    ensures
        used_names(items.insert(place, item), n + 1) == used_names(items, n),
    decreases n,
{
    let with_item = items.insert(place, item);
    assert(with_item.len() == items.len() + 1);
    if n == place {
        assert(with_item[place] == item);
        assert forall|i: int| 0 <= i < place implies (#[trigger] with_item[i]).paths
            == items[i].paths by {
            assert(with_item[i] == items[i]);
        }
        lemma_used_names_by_paths(with_item, items, place as nat);
    } else {
        lemma_used_names_with_insert(items, place, item, (n - 1) as nat);
        assert(with_item[n as int] == items[n - 1]);
    }
}

/// Of items of which none is redundant, all are kept and no name is
/// removed.
pub proof fn lemma_nothing_redundant(items: Seq<UnitItemView>, n: nat)
    requires
        n <= items.len(),
        forall|i: int| 0 <= i < n ==> !is_redundant(#[trigger] items[i]),
    ensures
        kept_items(items, n) == items.take(n as int),
        removed_names(items, n) == no_names(),
    decreases n,
{
    if n > 0 {
        lemma_nothing_redundant(items, (n - 1) as nat);
        assert(!is_redundant(items[n - 1]));
        assert(items.take(n - 1).push(items[n - 1]) =~= items.take(n as int));
    } else {
        assert(items.take(0) =~= Seq::<UnitItemView>::empty());
    }
}

/// The pass over the imports, run on its own result with any of the names
/// it was run with, changes nothing.
pub proof fn imports_are_ensured_once(
    items: Seq<UnitItemView>,
    needed: Seq<bool>,
    again: Seq<bool>,
)
    requires
        needed.len() == 8,
        again.len() == 8,
        within(again, needed),
    ensures
        ensure_imports(ensure_imports(items, needed), again) == ensure_imports(items, needed),
{
    let start = (no_names(), false);
    assert(no_names().len() == 8);
    let count = items.len();
    let merged = ensure_uses(items, needed, count);
    let result = ensure_imports(items, needed);
    merging_changes_import_trees_only(items, needed, count);
    lemma_merged_is_stable(items, needed, again, count);
    if is_empty_flags(again) {
    } else if is_empty_flags(needed) {
        let i = choose|i: int| 0 <= i < again.len() && again[i];
        assert(needed[i]);
    } else if is_empty_flags(merged.1) {
        let second = ensure_uses(merged.0, again, count);
        assert(is_empty_flags(second.1));
    } else {
        let place = place_after_imports(merged.0, count) as int;
        place_is_after_the_last_import(merged.0, count);
        let import = new_import(merged.1);
        assert(result == merged.0.insert(place, import));
        assert(result.len() == count + 1);
        // The items before the new import.
        let head = ensure_uses(items, needed, place as nat);
        lemma_ensure_uses_take(items, needed, place as nat, count);
        lemma_merged_is_stable(items, needed, again, place as nat);
        assert forall|i: int| 0 <= i < place implies result[i] == head.0[i] by {
            assert(result[i] == merged.0[i]);
        }
        lemma_ensure_uses_prefix(result, head.0, again, place as nat);
        let before = ensure_uses(result, again, place as nat);
        assert(before.0 == head.0);
        assert(within(before.1, head.1));
        // What was needed at the new import was needed at the end.
        assert forall|i: int| place <= i < count implies !(#[trigger] items[i].kind is Use) by {
            assert(!(merged.0[i].kind is Use));
        }
        lemma_ensure_uses_passes_over(items, needed, place as nat, count);
        assert(head.1 == merged.1);
        // The new import.
        let leaves = name_leaves(merged.1, 8);
        let group = UseTreeView::Group { items: leaves };
        let tree = UseTreeView::Path { ident: libc_name(), tree: Box::new(group) };
        assert(result[place] == import);
        assert(import.kind == ItemKindView::Use(tree));
        let at_import = ensure_uses(result, again, (place + 1) as nat);
        if !is_empty_flags(before.1) {
            lemma_collect_leaves(Seq::<UseTreeView>::empty(), merged.1, start, 8);
            assert(Seq::<UseTreeView>::empty() + leaves =~= leaves);
            assert(collect_names_each(Seq::<UseTreeView>::empty(), true, start, 0) == start);
            let found = collect_names_each(leaves, true, start, leaves.len());
            assert(!found.1);
            let lacking = minus(before.1, found.0);
            assert forall|i: int| 0 <= i < 8 implies !lacking[i] by {
                if before.1[i] {
                    assert(merged.1[i]);
                }
            }
            lemma_no_leaves(lacking, 8);
            assert(leaves + Seq::<UseTreeView>::empty() =~= leaves);
            assert(ensure_group(leaves, before.1) == (leaves, no_names()));
            assert(ensure_tree(group, before.1, true) == (group, no_names()));
            assert(ensure_tree(tree, before.1, false) == (tree, no_names()));
            assert(at_import.0 == before.0.push(import));
            assert(at_import.1 == no_names());
        } else {
            assert(at_import.0 == before.0.push(import));
        }
        assert(is_empty_flags(at_import.1));
        // The items after the new import.
        assert forall|i: int| place + 1 <= i < count + 1 implies !(#[trigger] result[i].kind
            is Use) by {
            assert(result[i] == merged.0[i - 1]);
        }
        lemma_ensure_uses_passes_over(result, again, (place + 1) as nat, (count + 1) as nat);
        let second = ensure_uses(result, again, (count + 1) as nat);
        assert(second.0 =~= result) by {
            assert(at_import.0 =~= result.subrange(0, place + 1));
        }
        assert(is_empty_flags(second.1));
    }
}

/// The alias pass, run on its own result, changes nothing.
pub proof fn the_pass_runs_once(items: Seq<UnitItemView>)
    ensures
        normalized_unit(normalized_unit(items)) == normalized_unit(items),
{
    let kept = kept_items(items, items.len());
    let removed = removed_names(items, items.len());
    let used = used_names(kept, kept.len());
    let needed = either(removed, used);
    let result = ensure_imports(kept, needed);
    let count = kept.len();
    let merged = ensure_uses(kept, needed, count);
    lemma_used_names_len(kept, count);
    kept_items_are_not_redundant(items, items.len());
    merging_changes_import_trees_only(kept, needed, count);
    // Nothing of the result is redundant, and it uses the names that the kept items use.
    if is_empty_flags(needed) {
        assert(result == kept);
    } else if is_empty_flags(merged.1) {
        assert(result == merged.0);
        assert forall|i: int| 0 <= i < count implies (#[trigger] result[i]).paths
            == kept[i].paths by {}
        lemma_used_names_by_paths(result, kept, count);
    } else {
        let place = place_after_imports(merged.0, count) as int;
        place_is_after_the_last_import(merged.0, count);
        let import = new_import(merged.1);
        assert(result == merged.0.insert(place, import));
        assert forall|i: int| 0 <= i < count implies (#[trigger] merged.0[i]).paths
            == kept[i].paths by {}
        lemma_used_names_by_paths(merged.0, kept, count);
        lemma_used_names_with_insert(merged.0, place, import, count);
    }
    assert(result.len() == count || result.len() == count + 1);
    assert(used_names(result, result.len()) == used);
    assert forall|i: int| 0 <= i < result.len() implies !is_redundant(#[trigger] result[i]) by {
        if is_empty_flags(needed) {
        } else if is_empty_flags(merged.1) {
            assert(!is_redundant(kept[i]));
            if !(kept[i].kind is Use) {
                assert(merged.0[i] == kept[i]);
            }
        } else {
            let place = place_after_imports(merged.0, count) as int;
            place_is_after_the_last_import(merged.0, count);
            if i < place {
                assert(result[i] == merged.0[i]);
                assert(!is_redundant(kept[i]));
                if !(kept[i].kind is Use) {
                    assert(merged.0[i] == kept[i]);
                }
            } else if i == place {
                assert(result[i] == new_import(merged.1));
            } else {
                assert(result[i] == merged.0[i - 1]);
                assert(!is_redundant(kept[i - 1]));
                if !(kept[i - 1].kind is Use) {
                    assert(merged.0[i - 1] == kept[i - 1]);
                }
            }
        }
    }
    lemma_nothing_redundant(result, result.len());
    assert(result.take(result.len() as int) =~= result);
    let needed_again = either(no_names(), used);
    assert(needed_again =~= used);
    assert(within(used, needed));
    assert(needed.len() == 8);
    imports_are_ensured_once(kept, needed, used);
}

} // verus!
