//! Import trees.

use crate::stdint::{
    flagged_names, is_empty_flags, minus, no_names, stdint_names, with_name, without_name,
    StdintSet,
};
use crate::text::string_views;
use vstd::prelude::*;

verus! {

/// The tree of a `use` declaration.
#[derive(Debug, PartialEq, Eq)]
pub enum UseTree {
    /// `ident::tree`
    Path { ident: String, tree: Box<UseTree> },
    /// `ident`
    Name { ident: String },
    /// `ident as rename`
    Rename { ident: String, rename: String },
    /// `*`
    Glob,
    /// `{items}`
    Group { items: Vec<UseTree> },
}

/// The mathematical model of a [`UseTree`].
pub enum UseTreeView {
    Path { ident: Seq<char>, tree: Box<UseTreeView> },
    Name { ident: Seq<char> },
    Rename { ident: Seq<char>, rename: Seq<char> },
    Glob,
    Group { items: Seq<UseTreeView> },
}

impl UseTree {
    /// The model of this tree.
    pub open spec fn model(self) -> UseTreeView
        decreases self,
    {
        match self {
            UseTree::Path { ident, tree } => UseTreeView::Path {
                ident: ident@,
                tree: Box::new((*tree).model()),
            },
            UseTree::Name { ident } => UseTreeView::Name { ident: ident@ },
            UseTree::Rename { ident, rename } => UseTreeView::Rename {
                ident: ident@,
                rename: rename@,
            },
            UseTree::Glob => UseTreeView::Glob,
            UseTree::Group { items } => UseTreeView::Group {
                items: Seq::new(
                    items.len() as nat,
                    |i: int|
                        if 0 <= i < items.len() {
                            proof {
                                vstd::std_specs::vec::axiom_vec_index_decreases(items, i);
                            }
                            items[i].model()
                        } else {
                            UseTreeView::Glob
                        },
                ),
            },
        }
    }
}

impl View for UseTree {
    type V = UseTreeView;

    open spec fn view(&self) -> UseTreeView {
        self.model()
    }
}

/// The models of a vector of trees, in order.
pub open spec fn tree_views(items: Seq<UseTree>) -> Seq<UseTreeView> {
    Seq::new(items.len(), |i: int| items[i]@)
}

/// The name of the ABI-scalar namespace.
pub open spec fn libc_name() -> Seq<char> {
    seq!['l', 'i', 'b', 'c']
}

/// One name leaf for each of the first `n` fixed-width names whose flag is
/// up, in order.
pub open spec fn name_leaves(flags: Seq<bool>, n: nat) -> Seq<UseTreeView>
    decreases n,
{
    if n == 0 || n > stdint_names().len() {
        Seq::empty()
    } else {
        let head = name_leaves(flags, (n - 1) as nat);
        if flags[n - 1] {
            head.push(UseTreeView::Name { ident: stdint_names()[n - 1] })
        } else {
            head
        }
    }
}

/// What a tree imports from the ABI-scalar namespace: the fixed-width names
/// added to `found.0`, and whether a glob was met, added to `found.1`.
/// `in_libc` says whether the tree stands under the namespace. After a glob
/// the rest of a group is not looked at.
pub open spec fn collect_names(tree: UseTreeView, in_libc: bool, found: (Seq<bool>, bool)) -> (
    Seq<bool>,
    bool,
)
    decreases tree, 0nat,
{
    match tree {
        UseTreeView::Path { ident, tree } => collect_names(
            *tree,
            in_libc || ident == libc_name(),
            found,
        ),
        UseTreeView::Group { items } => collect_names_each(items, in_libc, found, items.len()),
        UseTreeView::Name { ident } => if in_libc {
            (with_name(found.0, ident), found.1)
        } else {
            found
        },
        UseTreeView::Rename { ident, .. } => if in_libc {
            (with_name(found.0, ident), found.1)
        } else {
            found
        },
        UseTreeView::Glob => if in_libc {
            (found.0, true)
        } else {
            found
        },
    }
}

/// [`collect_names`] over the first `n` trees of a group.
pub open spec fn collect_names_each(
    items: Seq<UseTreeView>,
    in_libc: bool,
    found: (Seq<bool>, bool),
    n: nat,
) -> (Seq<bool>, bool)
    decreases items, n,
{
    if n == 0 || n > items.len() {
        found
    } else {
        let before = collect_names_each(items, in_libc, found, (n - 1) as nat);
        if before.1 {
            before
        } else {
            collect_names(items[n - 1], in_libc, before)
        }
    }
}

/// A group under the ABI-scalar namespace, made to import the needed
/// names: a group with a glob stays as it is; any other group gets a name
/// leaf for each needed name that it does not hold. Nothing is needed
/// afterwards.
pub open spec fn ensure_group(items: Seq<UseTreeView>, needed: Seq<bool>) -> (
    Seq<UseTreeView>,
    Seq<bool>,
) {
    let found = collect_names_each(items, true, (no_names(), false), items.len());
    if found.1 {
        (items, no_names())
    } else {
        (items + name_leaves(minus(needed, found.0), 8), no_names())
    }
}

/// A tree made to import the needed names where it reaches into the
/// ABI-scalar namespace, with the names that are still needed afterwards.
///
/// Under the namespace, a name or a rename meets the need for its own
/// name; a name then becomes a group of itself and every other needed name;
/// a glob meets every need; a group is merged into as [`ensure_group`] says.
/// Outside the namespace nothing changes but below a path that enters it.
pub open spec fn ensure_tree(tree: UseTreeView, needed: Seq<bool>, in_libc: bool) -> (
    UseTreeView,
    Seq<bool>,
)
    decreases tree, 0nat,
{
    match tree {
        UseTreeView::Path { ident, tree: sub } => {
            let below = ensure_tree(*sub, needed, in_libc || ident == libc_name());
            (UseTreeView::Path { ident, tree: Box::new(below.0) }, below.1)
        },
        UseTreeView::Group { items } => if in_libc {
            let merged = ensure_group(items, needed);
            (UseTreeView::Group { items: merged.0 }, merged.1)
        } else {
            let each = ensure_each(items, needed, items.len());
            (UseTreeView::Group { items: each.0 }, each.1)
        },
        UseTreeView::Name { ident } => if !in_libc {
            (tree, needed)
        } else if is_empty_flags(without_name(needed, ident)) {
            (tree, without_name(needed, ident))
        } else {
            (
                UseTreeView::Group {
                    items: seq![tree] + name_leaves(without_name(needed, ident), 8),
                },
                no_names(),
            )
        },
        UseTreeView::Rename { ident, .. } => if in_libc {
            (tree, without_name(needed, ident))
        } else {
            (tree, needed)
        },
        UseTreeView::Glob => if in_libc {
            (tree, no_names())
        } else {
            (tree, needed)
        },
    }
}

/// [`ensure_tree`] over the first `n` trees of a group outside the
/// namespace, one after another; once nothing is needed the rest stays as it
/// is. The trees after the first `n` are not in the result.
pub open spec fn ensure_each(items: Seq<UseTreeView>, needed: Seq<bool>, n: nat) -> (
    Seq<UseTreeView>,
    Seq<bool>,
)
    decreases items, n,
{
    if n == 0 || n > items.len() {
        (Seq::empty(), needed)
    } else {
        let before = ensure_each(items, needed, (n - 1) as nat);
        if is_empty_flags(before.1) {
            (before.0.push(items[n - 1]), before.1)
        } else {
            let this = ensure_tree(items[n - 1], before.1, false);
            (before.0.push(this.0), this.1)
        }
    }
}

/// Whether `ident` is spelled `libc`.
fn is_libc(ident: &String) -> (r: bool)
    ensures
        r == (ident@ == libc_name()),
{
    proof {
        reveal_strlit("libc");
        assert("libc"@ =~= libc_name());
    }
    let name = "libc".to_owned();
    *ident == name
}

/// A copy of a tree.
pub fn copy_tree(tree: &UseTree) -> (r: UseTree)
    ensures
        r@ == tree@,
    decreases tree,
{
    match tree {
        UseTree::Path { ident, tree: sub } => UseTree::Path {
            ident: ident.clone(),
            tree: Box::new(copy_tree(&**sub)),
        },
        UseTree::Name { ident } => UseTree::Name { ident: ident.clone() },
        UseTree::Rename { ident, rename } => UseTree::Rename {
            ident: ident.clone(),
            rename: rename.clone(),
        },
        UseTree::Glob => UseTree::Glob,
        UseTree::Group { items } => {
            let mut copies: Vec<UseTree> = Vec::new();
            let mut i: usize = 0;
            while i < items.len()
                invariant
                    i <= items.len(),
                    decreases_to!(tree => *items),
                    tree_views(copies@) == tree_views(items@).take(i as int),
                decreases items.len() - i,
            {
                proof {
                    vstd::std_specs::vec::axiom_vec_index_decreases(*items, i as int);
                }
                let ghost before = tree_views(copies@);
                let copy = copy_tree(&items[i]);
                copies.push(copy);
                assert(tree_views(copies@) =~= before.push(copy@));
                assert(tree_views(items@).take(i + 1) =~= tree_views(items@).take(i as int).push(
                    items@[i as int]@,
                ));
                i += 1;
            }
            assert(tree_views(items@).take(items.len() as int) =~= tree_views(items@));
            let r = UseTree::Group { items: copies };
            assert(r@->Group_items =~= tree_views(copies@));
            assert(tree@->Group_items =~= tree_views(items@));
            r
        },
    }
}

/// Adds to `acc` the fixed-width names that `tree` imports from the
/// ABI-scalar namespace, and sets `has_glob` where it meets a glob there.
pub fn collect_libc_names(
    tree: &UseTree,
    in_libc: bool,
    acc: &mut StdintSet,
    has_glob: &mut bool,
)
    ensures
        (final(acc)@, *final(has_glob)) == collect_names(
            tree@,
            in_libc,
            (old(acc)@, *old(has_glob)),
        ),
    decreases tree,
{
    match tree {
        UseTree::Path { ident, tree: sub } => {
            let next_in_libc = in_libc || is_libc(ident);
            collect_libc_names(&**sub, next_in_libc, acc, has_glob);
        },
        UseTree::Group { items } => {
            let ghost models = tree@->Group_items;
            let ghost start = (acc@, *has_glob);
            assert(models =~= tree_views(items@));
            let mut i: usize = 0;
            while i < items.len()
                invariant
                    i <= items.len(),
                    decreases_to!(tree => *items),
                    models == tree_views(items@),
                    (acc@, *has_glob) == collect_names_each(models, in_libc, start, i as nat),
                decreases items.len() - i,
            {
                proof {
                    vstd::std_specs::vec::axiom_vec_index_decreases(*items, i as int);
                }
                if !*has_glob {
                    collect_libc_names(&items[i], in_libc, acc, has_glob);
                }
                i += 1;
            }
        },
        UseTree::Name { ident } => {
            if in_libc {
                acc.insert(ident.as_str());
            }
        },
        UseTree::Rename { ident, .. } => {
            if in_libc {
                acc.insert(ident.as_str());
            }
        },
        UseTree::Glob => {
            if in_libc {
                *has_glob = true;
            }
        },
    }
}

/// Appends a name leaf for each name of `names`, in lexicographic order.
pub(crate) fn push_name_leaves(items: &mut Vec<UseTree>, names: &StdintSet)
    ensures
        tree_views(final(items)@) == tree_views(old(items)@) + name_leaves(names@, 8),
{
    let list = names.names();
    let ghost base = tree_views(items@);
    proof {
        names.lemma_len();
        lemma_name_leaves_are_names(names@, 8);
    }
    let ghost leaves = name_leaves(names@, 8);
    let mut i: usize = 0;
    assert(base + leaves.take(0) =~= base);
    while i < list.len()
        invariant
            i <= list.len(),
            leaves.len() == list@.len(),
            forall|k: int|
                0 <= k < leaves.len() ==> leaves[k] == (UseTreeView::Name {
                    ident: #[trigger] list@[k]@,
                }),
            tree_views(items@) == base + leaves.take(i as int),
        decreases list.len() - i,
    {
        let ghost before = tree_views(items@);
        let leaf = UseTree::Name { ident: list[i].clone() };
        items.push(leaf);
        assert(tree_views(items@) =~= before.push(leaves[i as int]));
        assert(base + leaves.take(i + 1) =~= (base + leaves.take(i as int)).push(leaves[i as int]));
        i += 1;
    }
    assert(leaves.take(list.len() as int) =~= leaves);
}

/// The name leaves are the flagged names, one leaf each.
pub proof fn lemma_name_leaves_are_names(flags: Seq<bool>, n: nat)
    requires
        n <= 8,
    ensures
        name_leaves(flags, n).len() == flagged_names(flags, n).len(),
        forall|k: int|
            0 <= k < name_leaves(flags, n).len() ==> #[trigger] name_leaves(flags, n)[k] == (
            UseTreeView::Name { ident: flagged_names(flags, n)[k] }),
    decreases n,
{
    if n > 0 {
        lemma_name_leaves_are_names(flags, (n - 1) as nat);
    }
}

/// Makes a group under the ABI-scalar namespace import the needed names: a
/// group with a glob stays as it is; any other group gets a name leaf for
/// each needed name that it does not hold. Nothing is needed afterwards.
pub fn ensure_aliases_in_libc_group(items: &Vec<UseTree>, needed: &mut StdintSet) -> (r: Vec<
    UseTree,
>)
    ensures
        (tree_views(r@), final(needed)@) == ensure_group(tree_views(items@), old(needed)@),
{
    let ghost models = tree_views(items@);
    let mut existing = StdintSet::new();
    let mut has_glob = false;
    let mut merged: Vec<UseTree> = Vec::new();
    let mut i: usize = 0;
    while i < items.len()
        invariant
            i <= items.len(),
            models == tree_views(items@),
            (existing@, has_glob) == collect_names_each(
                models,
                true,
                (no_names(), false),
                i as nat,
            ),
            tree_views(merged@) == models.take(i as int),
        decreases items.len() - i,
    {
        if !has_glob {
            collect_libc_names(&items[i], true, &mut existing, &mut has_glob);
        }
        let ghost before = tree_views(merged@);
        let copy = copy_tree(&items[i]);
        merged.push(copy);
        assert(tree_views(merged@) =~= before.push(copy@));
        assert(models.take(i + 1) =~= models.take(i as int).push(items@[i as int]@));
        i += 1;
    }
    assert(models.take(items.len() as int) =~= models);
    if !has_glob {
        let additions = needed.difference(&existing);
        push_name_leaves(&mut merged, &additions);
    }
    *needed = StdintSet::new();
    merged
}

/// Makes `tree` import the needed names where it reaches into the
/// ABI-scalar namespace, and leaves in `needed` the names that are still
/// needed. `in_libc` says whether `tree` stands under the namespace.
pub fn ensure_aliases_in_use_tree(tree: &UseTree, needed: &mut StdintSet, in_libc: bool) -> (r:
    UseTree)
    ensures
        (r@, final(needed)@) == ensure_tree(tree@, old(needed)@, in_libc),
    decreases tree,
{
    match tree {
        UseTree::Path { ident, tree: sub } => {
            let next_in_libc = in_libc || is_libc(ident);
            let below = ensure_aliases_in_use_tree(&**sub, needed, next_in_libc);
            UseTree::Path { ident: ident.clone(), tree: Box::new(below) }
        },
        UseTree::Group { items } => {
            let ghost models = tree@->Group_items;
            assert(models =~= tree_views(items@));
            if in_libc {
                let merged = ensure_aliases_in_libc_group(items, needed);
                let r = UseTree::Group { items: merged };
                assert(r@->Group_items =~= tree_views(merged@));
                r
            } else {
                let ghost start = needed@;
                let mut out: Vec<UseTree> = Vec::new();
                let mut i: usize = 0;
                assert(tree_views(out@) =~= Seq::<UseTreeView>::empty());
                while i < items.len()
                    invariant
                        i <= items.len(),
                        decreases_to!(tree => *items),
                        models == tree_views(items@),
                        (tree_views(out@), needed@) == ensure_each(models, start, i as nat),
                    decreases items.len() - i,
                {
                    proof {
                        vstd::std_specs::vec::axiom_vec_index_decreases(*items, i as int);
                    }
                    let ghost before = tree_views(out@);
                    let next = if needed.is_empty() {
                        copy_tree(&items[i])
                    } else {
                        ensure_aliases_in_use_tree(&items[i], needed, false)
                    };
                    out.push(next);
                    assert(tree_views(out@) =~= before.push(next@));
                    i += 1;
                }
                let r = UseTree::Group { items: out };
                assert(r@->Group_items =~= tree_views(out@));
                r
            }
        },
        UseTree::Name { ident } => {
            if !in_libc {
                return copy_tree(tree);
            }
            needed.remove(ident.as_str());
            if needed.is_empty() {
                return copy_tree(tree);
            }
            let mut items: Vec<UseTree> = Vec::new();
            items.push(copy_tree(tree));
            assert(tree_views(items@) =~= seq![tree@]);
            push_name_leaves(&mut items, needed);
            *needed = StdintSet::new();
            let r = UseTree::Group { items };
            assert(r@->Group_items =~= tree_views(items@));
            r
        },
        UseTree::Rename { ident, .. } => {
            if in_libc {
                needed.remove(ident.as_str());
            }
            copy_tree(tree)
        },
        UseTree::Glob => {
            if in_libc {
                *needed = StdintSet::new();
            }
            copy_tree(tree)
        },
    }
}

/// The names that a tree brings into scope: each name, and each rename's
/// new name, added to `found` in the order of the tree. A glob brings no
/// name of its own.
pub open spec fn bound_names(tree: UseTreeView, found: Seq<Seq<char>>) -> Seq<Seq<char>>
    decreases tree, 0nat,
{
    match tree {
        UseTreeView::Path { tree, .. } => bound_names(*tree, found),
        UseTreeView::Name { ident } => found.push(ident),
        UseTreeView::Rename { rename, .. } => found.push(rename),
        UseTreeView::Glob => found,
        UseTreeView::Group { items } => bound_names_each(items, found, items.len()),
    }
}

/// [`bound_names`] over the first `n` trees of a group.
pub open spec fn bound_names_each(items: Seq<UseTreeView>, found: Seq<Seq<char>>, n: nat) -> Seq<
    Seq<char>,
>
    decreases items, n,
{
    if n == 0 || n > items.len() {
        found
    } else {
        bound_names(items[n - 1], bound_names_each(items, found, (n - 1) as nat))
    }
}

/// The path of the name `self`.
pub open spec fn self_name() -> Seq<char> {
    seq!['s', 'e', 'l', 'f']
}

/// The paths that a tree imports, each as the list of its segments, added
/// to `found` in the order of the tree; `prefix` holds the segments above
/// the tree. A name adds the prefix and itself; the name `self` adds the
/// prefix alone; a glob adds the prefix and `*`. A rename anywhere in the
/// tree makes the whole result `None`.
pub open spec fn import_paths(
    tree: UseTreeView,
    prefix: Seq<Seq<char>>,
    found: Option<Seq<Seq<Seq<char>>>>,
) -> Option<Seq<Seq<Seq<char>>>>
    decreases tree, 0nat,
{
    match found {
        None => None,
        Some(paths) => match tree {
            UseTreeView::Path { ident, tree } => import_paths(*tree, prefix.push(ident), found),
            UseTreeView::Name { ident } => if ident == self_name() {
                Some(paths.push(prefix))
            } else {
                Some(paths.push(prefix.push(ident)))
            },
            UseTreeView::Rename { .. } => None,
            UseTreeView::Glob => Some(paths.push(prefix.push(seq!['*']))),
            UseTreeView::Group { items } => import_paths_each(items, prefix, found, items.len()),
        },
    }
}

/// [`import_paths`] over the first `n` trees of a group.
pub open spec fn import_paths_each(
    items: Seq<UseTreeView>,
    prefix: Seq<Seq<char>>,
    found: Option<Seq<Seq<Seq<char>>>>,
    n: nat,
) -> Option<Seq<Seq<Seq<char>>>>
    decreases items, n,
{
    if n == 0 || n > items.len() {
        found
    } else {
        import_paths(items[n - 1], prefix, import_paths_each(items, prefix, found, (n - 1) as nat))
    }
}

/// The views of a list of paths.
pub open spec fn path_views(paths: Seq<Vec<String>>) -> Seq<Seq<Seq<char>>> {
    Seq::new(paths.len(), |i: int| string_views(paths[i]@))
}

/// A copy of a list of names.
fn copy_names(names: &Vec<String>) -> (r: Vec<String>)
    ensures
        string_views(r@) == string_views(names@),
{
    let mut r: Vec<String> = Vec::new();
    let mut i: usize = 0;
    while i < names.len()
        invariant
            i <= names.len(),
            string_views(r@) == string_views(names@).take(i as int),
        decreases names.len() - i,
    {
        let ghost before = string_views(r@);
        r.push(names[i].clone());
        assert(string_views(r@) =~= before.push(names@[i as int]@));
        assert(string_views(names@).take(i + 1) =~= string_views(names@).take(i as int).push(
            names@[i as int]@,
        ));
        i += 1;
    }
    assert(string_views(names@).take(names.len() as int) =~= string_views(names@));
    r
}

/// Adds to `acc` the names that `tree` brings into scope: each name, and
/// each rename's new name.
pub fn collect_use_idents(tree: &UseTree, acc: &mut Vec<String>)
    ensures
        string_views(final(acc)@) == bound_names(tree@, string_views(old(acc)@)),
    decreases tree,
{
    match tree {
        UseTree::Path { tree: sub, .. } => {
            collect_use_idents(&**sub, acc);
        },
        UseTree::Name { ident } => {
            let ghost before = string_views(acc@);
            acc.push(ident.clone());
            assert(string_views(acc@) =~= before.push(ident@));
        },
        UseTree::Rename { rename, .. } => {
            let ghost before = string_views(acc@);
            acc.push(rename.clone());
            assert(string_views(acc@) =~= before.push(rename@));
        },
        UseTree::Glob => {},
        UseTree::Group { items } => {
            let ghost models = tree@->Group_items;
            let ghost start = string_views(acc@);
            assert(models =~= tree_views(items@));
            let mut i: usize = 0;
            while i < items.len()
                invariant
                    i <= items.len(),
                    decreases_to!(tree => *items),
                    models == tree_views(items@),
                    string_views(acc@) == bound_names_each(models, start, i as nat),
                decreases items.len() - i,
            {
                proof {
                    vstd::std_specs::vec::axiom_vec_index_decreases(*items, i as int);
                }
                collect_use_idents(&items[i], acc);
                i += 1;
            }
        },
    }
}

/// Why the paths of an import could not be listed.
#[derive(Clone, Copy, Debug, PartialEq, Eq)]
pub enum UsePathError {
    /// The import renames a name with `as`.
    Renamed,
}

impl UsePathError {
    /// The message for this error.
    pub fn message(&self) -> (r: String)
        ensures
            r@ == "Use statements with 'as' are not supported"@,
    {
        "Use statements with 'as' are not supported".to_owned()
    }
}

/// Adds to `all_paths` the paths that `tree` imports, each as the list of
/// its segments; `current_path` holds the segments above `tree` and is left
/// as it was. An import that renames a name is refused, and what
/// `all_paths` then holds is not specified.
pub fn collect_paths(
    tree: &UseTree,
    current_path: &mut Vec<String>,
    all_paths: &mut Vec<Vec<String>>,
) -> (r: Result<(), UsePathError>)
    ensures
        string_views(final(current_path)@) == string_views(old(current_path)@),
        match r {
            Ok(()) => import_paths(
                tree@,
                string_views(old(current_path)@),
                Some(path_views(old(all_paths)@)),
            ) == Some(path_views(final(all_paths)@)),
            Err(_) => import_paths(
                tree@,
                string_views(old(current_path)@),
                Some(path_views(old(all_paths)@)),
            ) is None,
        },
    decreases tree,
{
    let ghost prefix = string_views(current_path@);
    let ghost before = path_views(all_paths@);
    match tree {
        UseTree::Path { ident, tree: sub } => {
            current_path.push(ident.clone());
            assert(string_views(current_path@) =~= prefix.push(ident@));
            let r = collect_paths(&**sub, current_path, all_paths);
            let ghost longer = current_path@;
            assert(string_views(longer) == prefix.push(ident@));
            current_path.pop();
            assert(current_path@ =~= longer.drop_last());
            assert(string_views(current_path@) =~= string_views(longer).drop_last());
            assert(prefix.push(ident@).drop_last() =~= prefix);
            r
        },
        UseTree::Name { ident } => {
            proof {
                reveal_strlit("self");
                assert("self"@ =~= self_name());
            }
            let mut path = copy_names(current_path);
            if *ident != "self".to_owned() {
                let ghost short = string_views(path@);
                path.push(ident.clone());
                assert(string_views(path@) =~= short.push(ident@));
            }
            let ghost added = string_views(path@);
            all_paths.push(path);
            assert(path_views(all_paths@) =~= before.push(added));
            Ok(())
        },
        UseTree::Rename { .. } => Err(UsePathError::Renamed),
        UseTree::Glob => {
            let mut path = copy_names(current_path);
            let star: Vec<char> = vec!['*'];
            assert(star@ =~= seq!['*']);
            let ghost short = string_views(path@);
            let star_name = crate::text::string_of(&star);
            path.push(star_name);
            assert(string_views(path@) =~= short.push(seq!['*']));
            let ghost added = string_views(path@);
            all_paths.push(path);
            assert(path_views(all_paths@) =~= before.push(added));
            Ok(())
        },
        UseTree::Group { items } => {
            let ghost models = tree@->Group_items;
            assert(models =~= tree_views(items@));
            let mut i: usize = 0;
            while i < items.len()
                invariant
                    i <= items.len(),
                    decreases_to!(tree => *items),
                    models == tree_views(items@),
                    tree@ == (UseTreeView::Group { items: models }),
                    prefix == string_views(current_path@),
                    prefix == string_views(old(current_path)@),
                    before == path_views(old(all_paths)@),
                    import_paths_each(models, prefix, Some(before), i as nat) == Some(
                        path_views(all_paths@),
                    ),
                decreases items.len() - i,
            {
                proof {
                    vstd::std_specs::vec::axiom_vec_index_decreases(*items, i as int);
                }
                assert(models[i as int] == items@[i as int]@);
                match collect_paths(&items[i], current_path, all_paths) {
                    Ok(()) => {},
                    Err(e) => {
                        proof {
                            assert(import_paths_each(models, prefix, Some(before), (i + 1) as nat)
                                is None);
                            lemma_import_paths_stay_refused(
                                models,
                                prefix,
                                Some(before),
                                (i + 1) as nat,
                            );
                        }
                        return Err(e);
                    },
                }
                i += 1;
            }
            Ok(())
        },
    }
}

/// Once the paths of the first `n` trees are refused, those of all trees
/// are.
pub proof fn lemma_import_paths_stay_refused(
    items: Seq<UseTreeView>,
    prefix: Seq<Seq<char>>,
    found: Option<Seq<Seq<Seq<char>>>>,
    n: nat,
)
    requires
        n <= items.len(),
        import_paths_each(items, prefix, found, n) is None,
    ensures
        import_paths_each(items, prefix, found, items.len()) is None,
    decreases items.len() - n,
{
    if n < items.len() {
        let next = n + 1;
        assert((next - 1) as nat == n);
        assert(import_paths_each(items, prefix, found, next) == import_paths(
            items[next - 1],
            prefix,
            import_paths_each(items, prefix, found, n),
        ));
        lemma_import_paths_stay_refused(items, prefix, found, next);
    }
}

} // verus!
