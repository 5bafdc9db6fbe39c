//! The alias-declaration pass over a compilation unit.
//!
//! A unit may declare `type int32_t = i32;` and the like beside code that
//! uses the names. The pass removes each such declaration that merely
//! restates a fixed-width name, and sees to it that every fixed-width name
//! that was removed or is still used bare is imported from the ABI-scalar
//! namespace: merged into an import that is already there, or brought by a
//! new import after the last one.

use crate::stdint::{
    either, expected_stdint_target, expected_target, is_empty_flags, no_names, stdint_index,
    with_name, StdintSet,
};
use crate::scalar_map::{lookup, map_libc_scalar, ScalarAliasTable};
use crate::text::{option_view, string_views};
use crate::use_tree::{
    ensure_aliases_in_use_tree, ensure_tree, libc_name, name_leaves, push_name_leaves,
    tree_views, UseTree, UseTreeView,
};
use vstd::prelude::*;

verus! {

/// A path as it occurs somewhere in an item: whether it begins with `::`,
/// and the identifiers of its segments.
#[derive(Debug, PartialEq, Eq)]
pub struct PathUse {
    pub leading_colon: bool,
    pub segments: Vec<String>,
}

/// The mathematical model of a [`PathUse`].
pub struct PathUseView {
    pub leading_colon: bool,
    pub segments: Seq<Seq<char>>,
}

impl View for PathUse {
    type V = PathUseView;

    open spec fn view(&self) -> PathUseView {
        PathUseView { leading_colon: self.leading_colon, segments: string_views(self.segments@) }
    }
}

/// One segment of the path on the right of a type alias.
#[derive(Debug, PartialEq, Eq)]
pub struct AliasSegment {
    pub ident: String,
    pub has_arguments: bool,
}

/// The mathematical model of an [`AliasSegment`].
pub struct AliasSegmentView {
    pub ident: Seq<char>,
    pub has_arguments: bool,
}

impl View for AliasSegment {
    type V = AliasSegmentView;

    open spec fn view(&self) -> AliasSegmentView {
        AliasSegmentView { ident: self.ident@, has_arguments: self.has_arguments }
    }
}

/// The right-hand side of a type alias.
#[derive(Debug, PartialEq, Eq)]
pub enum AliasTarget {
    /// A named type: whether it is qualified with a self-type, and its
    /// segments.
    Path { has_qself: bool, segments: Vec<AliasSegment> },
    /// Any other type.
    Other,
}

/// The mathematical model of an [`AliasTarget`].
pub enum AliasTargetView {
    Path { has_qself: bool, segments: Seq<AliasSegmentView> },
    Other,
}

impl View for AliasTarget {
    type V = AliasTargetView;

    open spec fn view(&self) -> AliasTargetView {
        match self {
            AliasTarget::Path { has_qself, segments } => AliasTargetView::Path {
                has_qself: *has_qself,
                segments: Seq::new(segments@.len(), |i: int| segments@[i]@),
            },
            AliasTarget::Other => AliasTargetView::Other,
        }
    }
}

/// A declaration `type name = target;`.
#[derive(Debug, PartialEq, Eq)]
pub struct TypeAlias {
    pub name: String,
    pub target: AliasTarget,
}

/// The mathematical model of a [`TypeAlias`].
pub struct TypeAliasView {
    pub name: Seq<char>,
    pub target: AliasTargetView,
}

impl View for TypeAlias {
    type V = TypeAliasView;

    open spec fn view(&self) -> TypeAliasView {
        TypeAliasView { name: self.name@, target: self.target@ }
    }
}

/// What kind of declaration an item is.
#[derive(Debug, PartialEq, Eq)]
pub enum ItemKind {
    TypeAlias(TypeAlias),
    Use(UseTree),
    Other,
}

/// The mathematical model of an [`ItemKind`].
pub enum ItemKindView {
    TypeAlias(TypeAliasView),
    Use(UseTreeView),
    Other,
}

impl View for ItemKind {
    type V = ItemKindView;

    open spec fn view(&self) -> ItemKindView {
        match self {
            ItemKind::TypeAlias(alias) => ItemKindView::TypeAlias(alias@),
            ItemKind::Use(tree) => ItemKindView::Use(tree@),
            ItemKind::Other => ItemKindView::Other,
        }
    }
}

/// A top-level declaration of a unit: its kind, every path that occurs in
/// it, and its place in the unit it was read from (`None` for a
/// declaration that the pass has made).
#[derive(Debug, PartialEq, Eq)]
pub struct UnitItem {
    pub kind: ItemKind,
    pub paths: Vec<PathUse>,
    pub source: Option<usize>,
}

/// The mathematical model of a [`UnitItem`].
pub struct UnitItemView {
    pub kind: ItemKindView,
    pub paths: Seq<PathUseView>,
    pub source: Option<usize>,
}

impl View for UnitItem {
    type V = UnitItemView;

    open spec fn view(&self) -> UnitItemView {
        UnitItemView {
            kind: self.kind@,
            paths: Seq::new(self.paths@.len(), |i: int| self.paths@[i]@),
            source: self.source,
        }
    }
}

/// The models of a vector of items, in order.
pub open spec fn item_views(items: Seq<UnitItem>) -> Seq<UnitItemView> {
    Seq::new(items.len(), |i: int| items[i]@)
}

/// Whether the alias merely restates a fixed-width name: its name is one,
/// and its right-hand side is the one-segment path of the native primitive
/// of that name, without self-type and without arguments.
pub open spec fn restates_stdint(alias: TypeAliasView) -> bool {
    match (expected_target(alias.name), alias.target) {
        (Some(expected), AliasTargetView::Path { has_qself, segments }) => {
            &&& !has_qself
            &&& segments.len() == 1
            &&& segments[0].ident == expected
            &&& !segments[0].has_arguments
        },
        _ => false,
    }
}

/// Whether the pass removes the item.
pub open spec fn is_redundant(item: UnitItemView) -> bool {
    match item.kind {
        ItemKindView::TypeAlias(alias) => restates_stdint(alias),
        _ => false,
    }
}

/// The first `n` items without the redundant ones.
pub open spec fn kept_items(items: Seq<UnitItemView>, n: nat) -> Seq<UnitItemView>
    decreases n,
{
    if n == 0 || n > items.len() {
        Seq::empty()
    } else {
        let head = kept_items(items, (n - 1) as nat);
        if is_redundant(items[n - 1]) {
            head
        } else {
            head.push(items[n - 1])
        }
    }
}

/// The names of the redundant aliases among the first `n` items.
pub open spec fn removed_names(items: Seq<UnitItemView>, n: nat) -> Seq<bool>
    decreases n,
{
    if n == 0 || n > items.len() {
        no_names()
    } else {
        let head = removed_names(items, (n - 1) as nat);
        match items[n - 1].kind {
            ItemKindView::TypeAlias(alias) if restates_stdint(alias) => with_name(
                head,
                alias.name,
            ),
            _ => head,
        }
    }
}

/// The fixed-width name that a path uses bare: the path has one segment, a
/// fixed-width name, and no `::` before it.
pub open spec fn bare_stdint(path: PathUseView) -> Option<Seq<char>> {
    if !path.leading_colon && path.segments.len() == 1 && stdint_index(path.segments[0])
        is Some {
        Some(path.segments[0])
    } else {
        None
    }
}

/// `found` with the fixed-width names that the first `n` paths use bare.
pub open spec fn names_in_paths(paths: Seq<PathUseView>, found: Seq<bool>, n: nat) -> Seq<bool>
    decreases n,
{
    if n == 0 || n > paths.len() {
        found
    } else {
        let head = names_in_paths(paths, found, (n - 1) as nat);
        match bare_stdint(paths[n - 1]) {
            Some(name) => with_name(head, name),
            None => head,
        }
    }
}

/// The fixed-width names that the first `n` items use bare.
pub open spec fn used_names(items: Seq<UnitItemView>, n: nat) -> Seq<bool>
    decreases n,
{
    if n == 0 || n > items.len() {
        no_names()
    } else {
        names_in_paths(
            items[n - 1].paths,
            used_names(items, (n - 1) as nat),
            items[n - 1].paths.len(),
        )
    }
}

/// The first `n` items with their imports made to bring the needed names,
/// one import after another until nothing is needed, and the names that are
/// still needed after them.
pub open spec fn ensure_uses(items: Seq<UnitItemView>, needed: Seq<bool>, n: nat) -> (
    Seq<UnitItemView>,
    Seq<bool>,
)
    decreases n,
{
    if n == 0 || n > items.len() {
        (Seq::empty(), needed)
    } else {
        let before = ensure_uses(items, needed, (n - 1) as nat);
        let item = items[n - 1];
        match item.kind {
            ItemKindView::Use(tree) if !is_empty_flags(before.1) => {
                let merged = ensure_tree(tree, before.1, false);
                (
                    before.0.push(UnitItemView { kind: ItemKindView::Use(merged.0), ..item }),
                    merged.1,
                )
            },
            _ => (before.0.push(item), before.1),
        }
    }
}

/// The place after the last import among the first `n` items; zero where
/// there is no import.
pub open spec fn place_after_imports(items: Seq<UnitItemView>, n: nat) -> nat
    decreases n,
{
    if n == 0 || n > items.len() {
        0
    } else if items[n - 1].kind is Use {
        n
    } else {
        place_after_imports(items, (n - 1) as nat)
    }
}

/// The import `use libc::{..};` of the needed names, in lexicographic
/// order.
pub open spec fn new_import(needed: Seq<bool>) -> UnitItemView {
    UnitItemView {
        kind: ItemKindView::Use(
            UseTreeView::Path {
                ident: libc_name(),
                tree: Box::new(UseTreeView::Group { items: name_leaves(needed, 8) }),
            },
        ),
        paths: Seq::empty(),
        source: None,
    }
}

/// The items with every needed name imported: merged into the imports that
/// reach into the ABI-scalar namespace and, where names are still needed
/// after that, brought by one new import after the last import.
pub open spec fn ensure_imports(items: Seq<UnitItemView>, aliases: Seq<bool>) -> Seq<
    UnitItemView,
> {
    let merged = ensure_uses(items, aliases, items.len());
    if is_empty_flags(aliases) {
        items
    } else if is_empty_flags(merged.1) {
        merged.0
    } else {
        merged.0.insert(
            place_after_imports(merged.0, merged.0.len()) as int,
            new_import(merged.1),
        )
    }
}

/// The unit after the pass.
pub open spec fn normalized_unit(items: Seq<UnitItemView>) -> Seq<UnitItemView> {
    let kept = kept_items(items, items.len());
    let needed = either(removed_names(items, items.len()), used_names(kept, kept.len()));
    ensure_imports(kept, needed)
}

/// The name of an alias that merely restates a fixed-width name.
pub fn should_strip_stdint_alias(alias: &TypeAlias) -> (r: Option<String>)
    ensures
        match r {
            Some(name) => restates_stdint(alias@) && name@ == alias.name@,
            None => !restates_stdint(alias@),
        },
{
    match expected_stdint_target(alias.name.as_str()) {
        None => None,
        Some(expected) => match &alias.target {
            AliasTarget::Path { has_qself, segments } => {
                if !*has_qself && segments.len() == 1 && segments[0].ident == expected
                    && !segments[0].has_arguments {
                    Some(alias.name.clone())
                } else {
                    None
                }
            },
            AliasTarget::Other => None,
        },
    }
}

/// The fixed-width names that the items use bare.
pub fn collect_stdint_names(items: &Vec<UnitItem>) -> (r: StdintSet)
    ensures
        r@ == used_names(item_views(items@), items@.len()),
{
    let mut names = StdintSet::new();
    let ghost models = item_views(items@);
    let mut i: usize = 0;
    while i < items.len()
        invariant
            i <= items.len(),
            models == item_views(items@),
            names@ == used_names(models, i as nat),
        decreases items.len() - i,
    {
        let item = &items[i];
        let ghost paths = models[i as int].paths;
        let ghost start = names@;
        let mut j: usize = 0;
        while j < item.paths.len()
            invariant
                j <= item.paths.len(),
                paths == item@.paths,
                names@ == names_in_paths(paths, start, j as nat),
            decreases item.paths.len() - j,
        {
            let path = &item.paths[j];
            assert(paths[j as int] == path@);
            if !path.leading_colon && path.segments.len() == 1 {
                assert(path@.segments[0] == path.segments@[0]@);
                names.insert(path.segments[0].as_str());
            }
            j += 1;
        }
        i += 1;
    }
    names
}

/// The import `use libc::{..};` of the names, in lexicographic order.
fn make_import(needed: &StdintSet) -> (r: UnitItem)
    ensures
        r@ == new_import(needed@),
{
    let ghost leaves = name_leaves(needed@, 8);
    let mut leaf_items: Vec<UseTree> = Vec::new();
    assert(tree_views(leaf_items@) =~= Seq::<UseTreeView>::empty());
    push_name_leaves(&mut leaf_items, needed);
    assert(Seq::<UseTreeView>::empty() + leaves =~= leaves);
    proof {
        reveal_strlit("libc");
        assert("libc"@ =~= libc_name());
    }
    let group = UseTree::Group { items: leaf_items };
    assert(group@->Group_items =~= leaves);
    let tree = UseTree::Path { ident: "libc".to_owned(), tree: Box::new(group) };
    let r = UnitItem { kind: ItemKind::Use(tree), paths: Vec::new(), source: None };
    assert(r@.paths =~= Seq::<PathUseView>::empty());
    r
}

/// Sees to it that the unit imports every name of `aliases` from the
/// ABI-scalar namespace: each import that reaches into the namespace is
/// merged into, one after another until nothing is needed; names that are
/// still needed after the last import are brought by one new import, which
/// is put after the last import of the unit, or first where the unit has
/// none.
pub fn ensure_libc_imports(items: Vec<UnitItem>, aliases: &StdintSet) -> (r: Vec<UnitItem>)
    ensures
        item_views(r@) == ensure_imports(item_views(items@), aliases@),
{
    if aliases.is_empty() {
        return items;
    }
    let ghost models = item_views(items@);
    let mut needed = *aliases;
    let mut out: Vec<UnitItem> = Vec::new();
    let mut place: usize = 0;
    assert(item_views(out@) =~= Seq::<UnitItemView>::empty());
    for item in it: items
        invariant
            it.seq() == items@,
            models == item_views(items@),
            (item_views(out@), needed@) == ensure_uses(models, aliases@, it.index() as nat),
            out@.len() == it.index(),
            place <= out@.len(),
            place == place_after_imports(item_views(out@), out@.len() as nat),
    {
        let ghost before = item_views(out@);
        let ghost k = it.index() as int;
        assert(models[k] == item@);
        let UnitItem { kind, paths, source } = item;
        let next = match kind {
            ItemKind::Use(tree) => {
                if needed.is_empty() {
                    UnitItem { kind: ItemKind::Use(tree), paths, source }
                } else {
                    let merged = ensure_aliases_in_use_tree(&tree, &mut needed, false);
                    UnitItem { kind: ItemKind::Use(merged), paths, source }
                }
            },
            other => UnitItem { kind: other, paths, source },
        };
        let is_use = match &next.kind {
            ItemKind::Use(_) => true,
            _ => false,
        };
        out.push(next);
        assert(item_views(out@) =~= before.push(next@));
        if is_use {
            place = out.len();
        } else {
            assert(item_views(out@).take(out@.len() - 1) =~= before);
            assert(before.take(out@.len() - 1) =~= before);
            proof {
                lemma_place_ignores_later(item_views(out@), before, (out@.len() - 1) as nat);
            }
        }
    }
    if needed.is_empty() {
        return out;
    }
    let import = make_import(&needed);
    let ghost before = item_views(out@);
    out.insert(place, import);
    assert(item_views(out@) =~= before.insert(place as int, import@));
    out
}

/// The place after the last import among the first `n` items depends on
/// those items alone.
pub proof fn lemma_place_ignores_later(a: Seq<UnitItemView>, b: Seq<UnitItemView>, n: nat)
    requires
        n <= a.len(),
        n <= b.len(),
        a.take(n as int) == b.take(n as int),
    ensures
        place_after_imports(a, n) == place_after_imports(b, n),
    decreases n,
{
    if n > 0 {
        assert(a[n - 1] == a.take(n as int)[n - 1]);
        assert(b[n - 1] == b.take(n as int)[n - 1]);
        assert(a.take(n - 1) =~= a.take(n as int).take(n - 1));
        assert(b.take(n - 1) =~= b.take(n as int).take(n - 1));
        lemma_place_ignores_later(a, b, (n - 1) as nat);
    }
}

/// The pass over a unit: every type alias that merely restates a
/// fixed-width name is removed, and every fixed-width name that was removed
/// or that the remaining items use bare is imported from the ABI-scalar
/// namespace as [`ensure_libc_imports`] does it. A second run on the
/// result changes nothing
/// ([`the_pass_runs_once`](crate::pass_laws::the_pass_runs_once)).
pub fn normalize_stdint_aliases(items: Vec<UnitItem>) -> (r: Vec<UnitItem>)
    ensures
        item_views(r@) == normalized_unit(item_views(items@)),
{
    let ghost models = item_views(items@);
    let mut removed = StdintSet::new();
    let mut kept: Vec<UnitItem> = Vec::new();
    assert(item_views(kept@) =~= Seq::<UnitItemView>::empty());
    for item in it: items
        invariant
            it.seq() == items@,
            models == item_views(items@),
            item_views(kept@) == kept_items(models, it.index() as nat),
            removed@ == removed_names(models, it.index() as nat),
    {
        let ghost k = it.index() as int;
        assert(models[k] == item@);
        let strip = match &item.kind {
            ItemKind::TypeAlias(alias) => should_strip_stdint_alias(alias),
            _ => None,
        };
        match strip {
            Some(name) => {
                removed.insert(name.as_str());
            },
            None => {
                let ghost before = item_views(kept@);
                kept.push(item);
                assert(item_views(kept@) =~= before.push(item@));
            },
        }
    }
    let usages = collect_stdint_names(&kept);
    let needed = removed.union(&usages);
    ensure_libc_imports(kept, &needed)
}

/// The primitive that replaces a named type: the type is written as the
/// ABI-scalar namespace and one name in it, without self-type and without
/// arguments on the namespace, and the table knows the name.
pub open spec fn scalar_replacement(
    target: AliasTargetView,
    table: Seq<(Seq<char>, Seq<char>)>,
) -> Option<Seq<char>> {
    match target {
        AliasTargetView::Path { has_qself, segments } => if !has_qself && segments.len() == 2
            && segments[0].ident == libc_name() && !segments[0].has_arguments {
            lookup(table, segments[1].ident)
        } else {
            None
        },
        AliasTargetView::Other => None,
    }
}

/// The primitive that replaces the named type `target` where it names an
/// ABI scalar: `libc::NAME` with a `NAME` that the table knows.
pub fn libc_scalar_primitive(target: &AliasTarget, table: &ScalarAliasTable) -> (r: Option<String>)
    ensures
        option_view(r) == scalar_replacement(target@, table@),
{
    match target {
        AliasTarget::Path { has_qself, segments } => {
            proof {
                reveal_strlit("libc");
                assert("libc"@ =~= libc_name());
            }
            if !*has_qself && segments.len() == 2 && segments[0].ident == "libc".to_owned()
                && !segments[0].has_arguments {
                assert(target@->Path_segments[1] == segments@[1]@);
                map_libc_scalar(table, segments[1].ident.as_str())
            } else {
                None
            }
        },
        AliasTarget::Other => None,
    }
}

} // verus!
