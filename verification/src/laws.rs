//! What holds of every classification and of every lookup.

use crate::aliases::{
    ensure_imports, ensure_uses, is_redundant, kept_items, new_import, place_after_imports,
    UnitItemView,
};
use crate::classify::{
    base_candidates, box_innermost_view, classify, classify_arg, expanded_candidates,
    finalize, name_box, name_option, next_depth, path_node, payload_rendering,
    pointer_base_view, pointer_metadata_view, pointer_node, propagate, push_unique_view,
    reference_node, resolved_element_is_not_empty, slice_node, with_tails,
};
use crate::normal_form::{normalize_is_idempotent, settled};
use crate::normalize::normalize;
use crate::scalar_map::{entry_matches, lookup, names_not_empty};
use crate::stdint::is_empty_flags;
use crate::text::last_path_segment;
use crate::traits::{plain, TraitsView};
use crate::type_expr::TypeExprView;
use vstd::prelude::*;

verus! {

/// A lookup returns the primitive of the first entry that matches the name.
pub proof fn lookup_returns_first_match(
    table: Seq<(Seq<char>, Seq<char>)>,
    name: Seq<char>,
    i: int,
)
    requires
        0 <= i < table.len(),
        entry_matches(table[i].0, name),
        forall|k: int| 0 <= k < i ==> !entry_matches(#[trigger] table[k].0, name),
    ensures
        lookup(table, name) == Some(table[i].1),
    decreases i,
{
    if i > 0 {
        let rest = table.skip(1);
        assert(rest[i - 1] == table[i]);
        assert forall|k: int| 0 <= k < i - 1 implies !entry_matches(
            #[trigger] rest[k].0,
            name,
        ) by {
            assert(rest[k] == table[k + 1]);
        }
        assert(!entry_matches(table[0].0, name));
        lookup_returns_first_match(rest, name, i - 1);
    }
}

/// A lookup finds nothing exactly when no entry matches the name.
pub proof fn lookup_misses_without_match(table: Seq<(Seq<char>, Seq<char>)>, name: Seq<char>)
    ensures
        lookup(table, name) is None <==> forall|k: int|
            0 <= k < table.len() ==> !entry_matches(#[trigger] table[k].0, name),
    decreases table.len(),
{
    if table.len() > 0 {
        let rest = table.skip(1);
        lookup_misses_without_match(rest, name);
        if lookup(table, name) is None {
            assert forall|k: int| 0 <= k < table.len() implies !entry_matches(
                #[trigger] table[k].0,
                name,
            ) by {
                if k > 0 {
                    assert(rest[k - 1] == table[k]);
                }
            }
        } else if !entry_matches(table[0].0, name) {
            let k = choose|k: int| 0 <= k < rest.len() && entry_matches(#[trigger] rest[k].0, name);
            assert(rest[k] == table[k + 1]);
        }
    }
}

/// Of two entries with different aliases and the same final path segment,
/// a lookup of that segment resolves to the earlier one, where no entry
/// before it matches.
pub proof fn lookup_prefers_earlier_entry(
    table: Seq<(Seq<char>, Seq<char>)>,
    i: int,
    j: int,
    name: Seq<char>,
)
    requires
        0 <= i < j < table.len(),
        table[i].0 != table[j].0,
        last_path_segment(table[i].0) == name,
        last_path_segment(table[j].0) == name,
        forall|k: int| 0 <= k < i ==> !entry_matches(#[trigger] table[k].0, name),
    ensures
        lookup(table, name) == Some(table[i].1),
{
    lookup_returns_first_match(table, name, i);
}

/// The classification of a reference to a slice is marked as a reference
/// and as a slice, and carries the rendering of the slice's element type.
pub proof fn reference_to_slice_is_tagged(
    raw: Seq<char>,
    mutable: bool,
    slice_raw: Seq<char>,
    elem_raw: Seq<char>,
    table: Seq<(Seq<char>, Seq<char>)>,
)
    ensures
        ({
            let slice = TypeExprView::Slice { raw: slice_raw, elem_raw };
            let t = classify(
                TypeExprView::Reference { raw, mutable, elem: Box::new(slice) },
                table,
            );
            &&& t.is_reference
            &&& t.is_mut_reference == mutable
            &&& t.is_slice
            &&& t.slice_elem == Some(elem_raw)
        }),
{
    let slice = classify(TypeExprView::Slice { raw: slice_raw, elem_raw }, table);
    assert(slice.is_slice && slice.slice_elem == Some(elem_raw));
}

/// One pointer layer: the record of `*T` is a pointer one level deeper than
/// the record of `T`, holds the record of `T`, and has the base of `T` where
/// `T` is a pointer, and `T` itself where it is not.
pub proof fn pointer_adds_a_layer(
    raw: Seq<char>,
    mutable: bool,
    elem: TypeExprView,
    table: Seq<(Seq<char>, Seq<char>)>,
)
    ensures
        ({
            let inner = classify(elem, table);
            let t = classify(TypeExprView::Pointer { raw, mutable, elem: Box::new(elem) }, table);
            &&& t.is_pointer
            &&& t.pointer_is_mut == mutable
            &&& t.pointer_inner == Some(Box::new(inner))
            &&& t.pointer_depth == next_depth(inner.pointer_depth)
            &&& pointer_base_view(t) == if inner.is_pointer {
                pointer_base_view(inner)
            } else {
                Some(inner)
            }
            &&& t.pointer_element == Some(pointer_metadata_view(t, table).element)
        }),
{
    let inner = classify(elem, table);
    let node = propagate(pointer_node(raw, mutable, inner));
    let t = finalize(node, table);
    assert(node.is_pointer && node.pointer_inner == Some(Box::new(inner)));
    assert(pointer_base_view(node) == pointer_base_view(t));
}

/// The first candidate name of a base is its identifier.
pub proof fn identifier_is_first_candidate(base: TraitsView, ident: Seq<char>)
    requires
        base.path_ident == Some(ident),
        ident.len() > 0,
    ensures
        expanded_candidates(base).len() > 0,
        expanded_candidates(base)[0] == ident,
{
    let first = push_unique_view(Seq::empty(), ident);
    assert(!Seq::<Seq<char>>::empty().contains(ident));
    assert(first[0] == ident);
    let candidates = base_candidates(base);
    assert(candidates.len() > 0 && candidates[0] == ident);
    with_tails_keeps_list(candidates, candidates, candidates.len());
}

/// Adding tails leaves what the list held where it was.
pub proof fn with_tails_keeps_list(list: Seq<Seq<char>>, candidates: Seq<Seq<char>>, n: nat)
    ensures
        with_tails(list, candidates, n).len() >= list.len(),
        forall|k: int| 0 <= k < list.len() ==> with_tails(list, candidates, n)[k] == list[k],
    decreases n,
{
    if n == 0 || n > candidates.len() {
    } else {
        with_tails_keeps_list(list, candidates, (n - 1) as nat);
    }
}

/// A pointer whose base is a named type that the table knows by its
/// identifier has the table's primitive as its element.
pub proof fn known_base_gives_element(
    t: TraitsView,
    base: TraitsView,
    ident: Seq<char>,
    primitive: Seq<char>,
    table: Seq<(Seq<char>, Seq<char>)>,
)
    requires
        pointer_base_view(t) == Some(base),
        base.path_ident == Some(ident),
        ident.len() > 0,
        lookup(table, ident) == Some(primitive),
    ensures
        pointer_metadata_view(t, table).element == primitive,
{
    identifier_is_first_candidate(base, ident);
}

/// The record of a named type is no pointer and carries the identifier.
pub proof fn named_type_is_no_pointer(
    raw: Seq<char>,
    ident: Seq<char>,
    type_arg: Option<Box<TypeExprView>>,
    table: Seq<(Seq<char>, Seq<char>)>,
)
    ensures
        ({
            let t = classify(TypeExprView::Path { raw, ident: Some(ident), type_arg }, table);
            &&& !t.is_pointer
            &&& t.pointer_depth == 0
            &&& t.path_ident == Some(ident)
            &&& t.raw == raw
            &&& t.normalized == normalize(raw)
        }),
{
}

/// A pointer of three levels to a named type that the table maps to a
/// primitive has depth three and that primitive as its element, whether the
/// name is written bare or with a path before it: the table is asked for the
/// final identifier.
pub proof fn triple_pointer_to_alias(
    raws: (Seq<char>, Seq<char>, Seq<char>),
    mutable: (bool, bool, bool),
    base_raw: Seq<char>,
    ident: Seq<char>,
    type_arg: Option<Box<TypeExprView>>,
    primitive: Seq<char>,
    table: Seq<(Seq<char>, Seq<char>)>,
)
    requires
        ident.len() > 0,
        lookup(table, ident) == Some(primitive),
    ensures
        ({
            let base = TypeExprView::Path { raw: base_raw, ident: Some(ident), type_arg };
            let one = TypeExprView::Pointer { raw: raws.2, mutable: mutable.2, elem: Box::new(base) };
            let two = TypeExprView::Pointer { raw: raws.1, mutable: mutable.1, elem: Box::new(one) };
            let three = TypeExprView::Pointer {
                raw: raws.0,
                mutable: mutable.0,
                elem: Box::new(two),
            };
            let t = classify(three, table);
            &&& t.is_pointer
            &&& t.pointer_depth == 3
            &&& t.pointer_element == Some(primitive)
        }),
{
    let base = TypeExprView::Path { raw: base_raw, ident: Some(ident), type_arg };
    let one = TypeExprView::Pointer { raw: raws.2, mutable: mutable.2, elem: Box::new(base) };
    let two = TypeExprView::Pointer { raw: raws.1, mutable: mutable.1, elem: Box::new(one) };
    let three = TypeExprView::Pointer { raw: raws.0, mutable: mutable.0, elem: Box::new(two) };
    named_type_is_no_pointer(base_raw, ident, type_arg, table);
    pointer_adds_a_layer(raws.2, mutable.2, base, table);
    pointer_adds_a_layer(raws.1, mutable.1, one, table);
    pointer_adds_a_layer(raws.0, mutable.0, two, table);
    known_base_gives_element(classify(three, table), classify(base, table), ident, primitive, table);
}

/// The record of a named type that is neither option nor box: it is no
/// box, no option and no reference, and unwraps to nothing.
pub proof fn named_type_is_no_wrapper(
    raw: Seq<char>,
    ident: Seq<char>,
    type_arg: Option<Box<TypeExprView>>,
    table: Seq<(Seq<char>, Seq<char>)>,
)
    requires
        ident != name_option(),
        ident != name_box(),
    ensures
        ({
            let t = classify(TypeExprView::Path { raw, ident: Some(ident), type_arg }, table);
            &&& !t.is_box
            &&& !t.is_option
            &&& !t.is_reference
            &&& box_innermost_view(t) is None
            &&& t.normalized == normalize(raw)
            &&& t.raw == raw
        }),
{
    let node = path_node(raw, Some(ident), classify_arg(type_arg, table));
    assert(!node.is_box && !node.is_option && !node.is_reference);
}

/// The record of a box of `T`: a box that holds the record of `T`, and that
/// unwraps to what `T` unwraps to, or else to the rendering of `T`.
pub proof fn box_wraps_payload(
    raw: Seq<char>,
    payload: TypeExprView,
    table: Seq<(Seq<char>, Seq<char>)>,
)
    ensures
        ({
            let inner = classify(payload, table);
            let t = classify(
                TypeExprView::Path {
                    raw,
                    ident: Some(name_box()),
                    type_arg: Some(Box::new(payload)),
                },
                table,
            );
            &&& t.is_box
            &&& !t.is_option
            &&& t.box_inner == Some(Box::new(inner))
            &&& t.box_innermost == match box_innermost_view(inner) {
                Some(nested) => Some(nested),
                None => payload_rendering(inner),
            }
            &&& box_innermost_view(t) == t.box_innermost
        }),
{
    let inner = classify(payload, table);
    assert(name_box() != name_option()) by {
        assert(name_box().len() != name_option().len());
    }
    assert(name_box() != crate::classify::name_string()) by {
        assert(name_box().len() != crate::classify::name_string().len());
    }
    assert(name_box() != crate::classify::name_str()) by {
        assert(name_box()[0] != crate::classify::name_str()[0]);
    }
    assert(classify_arg(Some(Box::new(payload)), table) == Some(inner));
    let node = path_node(raw, Some(name_box()), Some(inner));
    assert(node.is_box && !node.is_option && !node.is_reference);
    assert(node.box_inner == Some(Box::new(inner)));
    let spread = propagate(node);
    assert(spread.is_box && spread.box_inner == Some(Box::new(inner)));
    let t = finalize(spread, table);
    assert(t.box_innermost == box_innermost_view(spread));
    assert(box_innermost_view(t) == box_innermost_view(spread));
}

/// The record of an option of `T`: an option that holds the record of `T`,
/// and, where `T` is a box, a box with the payload of `T` that unwraps as a
/// box with that payload does.
pub proof fn option_wraps_box(
    raw: Seq<char>,
    wrapped: TypeExprView,
    table: Seq<(Seq<char>, Seq<char>)>,
)
    requires
        classify(wrapped, table).is_box,
    ensures
        ({
            let inner = classify(wrapped, table);
            let t = classify(
                TypeExprView::Path {
                    raw,
                    ident: Some(name_option()),
                    type_arg: Some(Box::new(wrapped)),
                },
                table,
            );
            &&& t.is_option
            &&& t.is_box
            &&& t.option_inner == Some(Box::new(inner))
            &&& t.box_inner == inner.box_inner
            &&& t.box_innermost == box_innermost_view(t)
        }),
{
    let inner = classify(wrapped, table);
    assert(name_option() != crate::classify::name_string()) by {
        assert(name_option()[0] != crate::classify::name_string()[0]);
    }
    assert(name_option() != crate::classify::name_str()) by {
        assert(name_option().len() != crate::classify::name_str().len());
    }
    assert(classify_arg(Some(Box::new(wrapped)), table) == Some(inner));
    let node = path_node(raw, Some(name_option()), Some(inner));
    assert(node.is_box && node.is_option);
    assert(node.box_inner == inner.box_inner);
    assert(node.option_inner == Some(Box::new(inner)));
    let spread = propagate(node);
    assert(spread.is_box && spread.is_option && spread.box_inner == inner.box_inner);
    let t = finalize(spread, table);
    assert(t.box_innermost == box_innermost_view(spread));
    assert(box_innermost_view(t) == box_innermost_view(spread));
}

/// The innermost payload of an option of a box of a named type that is
/// neither option nor box is the normalized rendering of that type, where
/// that rendering is not empty and settled.
pub proof fn option_of_box_unwraps_to_payload(
    option_raw: Seq<char>,
    box_raw: Seq<char>,
    payload_raw: Seq<char>,
    payload_ident: Seq<char>,
    payload_arg: Option<Box<TypeExprView>>,
    table: Seq<(Seq<char>, Seq<char>)>,
)
    requires
        payload_ident != name_option(),
        payload_ident != name_box(),
        normalize(payload_raw).len() > 0,
        settled(normalize(payload_raw)),
    ensures
        ({
            let payload = TypeExprView::Path {
                raw: payload_raw,
                ident: Some(payload_ident),
                type_arg: payload_arg,
            };
            let boxed = TypeExprView::Path {
                raw: box_raw,
                ident: Some(name_box()),
                type_arg: Some(Box::new(payload)),
            };
            let option = TypeExprView::Path {
                raw: option_raw,
                ident: Some(name_option()),
                type_arg: Some(Box::new(boxed)),
            };
            classify(option, table).box_innermost == Some(normalize(payload_raw))
        }),
{
    let payload = TypeExprView::Path {
        raw: payload_raw,
        ident: Some(payload_ident),
        type_arg: payload_arg,
    };
    let boxed = TypeExprView::Path {
        raw: box_raw,
        ident: Some(name_box()),
        type_arg: Some(Box::new(payload)),
    };
    let option = TypeExprView::Path {
        raw: option_raw,
        ident: Some(name_option()),
        type_arg: Some(Box::new(boxed)),
    };
    normalize_is_idempotent(payload_raw);
    named_type_is_no_wrapper(payload_raw, payload_ident, payload_arg, table);
    box_wraps_payload(box_raw, payload, table);
    option_wraps_box(option_raw, boxed, table);
    let p = classify(payload, table);
    let b = classify(boxed, table);
    let o = classify(option, table);
    assert(payload_rendering(p) == Some(normalize(payload_raw)));
    assert(b.box_innermost == Some(normalize(payload_raw)));
    assert(o.is_box && o.box_inner == Some(Box::new(p)));
    assert(box_innermost_view(o) == Some(normalize(payload_raw)));
}

/// Whether a nested record, where there is one, is internally consistent.
pub open spec fn consistent_inner(inner: Option<Box<TraitsView>>) -> bool
    decreases inner,
{
    match inner {
        Some(record) => consistent(*record),
        None => true,
    }
}

/// Whether a record is internally consistent: the normalized rendering is
/// that of the raw one; a reference, a slice and a pointer have their
/// companions and nothing else has them; an inner record of an option or a
/// box stands only under the flag; the depth is zero exactly where the
/// record is no pointer, and one more than that of the pointee where it is;
/// the pointer metadata is there only for a pointer, and the element
/// whenever it is one; the innermost payload is that of the record; and the
/// nested records are consistent in the same way.
pub open spec fn consistent(t: TraitsView) -> bool
    decreases t,
{
    &&& t.normalized == normalize(t.raw)
    &&& t.is_reference <==> t.reference_inner is Some
    &&& t.is_mut_reference ==> t.is_reference
    &&& t.is_slice <==> t.slice_elem is Some
    &&& t.option_inner is Some ==> t.is_option
    &&& t.box_inner is Some ==> t.is_box
    &&& t.is_pointer <==> t.pointer_inner is Some
    &&& t.pointer_is_mut ==> t.is_pointer
    &&& t.is_pointer <==> t.pointer_depth > 0
    &&& t.pointer_depth <= usize::MAX
    &&& t.pointer_inner matches Some(pointee) ==> t.pointer_depth == next_depth(
        pointee.pointer_depth,
    )
    &&& t.is_pointer <==> t.pointer_element is Some
    &&& !t.is_pointer ==> t.pointer_base_ident is None && t.pointer_base_normalized is None
        && t.pointer_base_raw is None
    &&& t.box_innermost == box_innermost_view(t)
    &&& consistent_inner(t.reference_inner)
    &&& consistent_inner(t.option_inner)
    &&& consistent_inner(t.pointer_inner)
    &&& consistent_inner(t.box_inner)
}

/// Every classification is internally consistent.
pub proof fn classification_is_consistent(e: TypeExprView, table: Seq<(Seq<char>, Seq<char>)>)
    ensures
        consistent(classify(e, table)),
    decreases e,
{
    match e {
        TypeExprView::Grouped { raw, elem } => {
            classification_is_consistent(*elem, table);
            let inner = classify(*elem, table);
            let t = classify(e, table);
            assert(box_innermost_view(t) == box_innermost_view(inner));
        },
        TypeExprView::Reference { raw, mutable, elem } => {
            classification_is_consistent(*elem, table);
            let inner = classify(*elem, table);
            let node = reference_node(raw, mutable, inner);
            let spread = propagate(node);
            assert(spread.reference_inner == Some(Box::new(inner)));
            let t = finalize(spread, table);
            assert(box_innermost_view(t) == box_innermost_view(spread));
        },
        TypeExprView::Slice { raw, elem_raw } => {
            let spread = propagate(slice_node(raw, elem_raw));
            let t = finalize(spread, table);
            assert(box_innermost_view(t) == box_innermost_view(spread));
        },
        TypeExprView::Path { raw, ident, type_arg } => {
            match type_arg {
                Some(arg) => {
                    classification_is_consistent(*arg, table);
                },
                None => {},
            }
            let node = path_node(raw, ident, classify_arg(type_arg, table));
            path_node_is_consistent(raw, ident, classify_arg(type_arg, table));
            let spread = propagate(node);
            let t = finalize(spread, table);
            assert(box_innermost_view(t) == box_innermost_view(spread));
        },
        TypeExprView::Pointer { raw, mutable, elem } => {
            classification_is_consistent(*elem, table);
            let inner = classify(*elem, table);
            let node = pointer_node(raw, mutable, inner);
            let spread = propagate(node);
            assert(spread.pointer_inner == Some(Box::new(inner)));
            let t = finalize(spread, table);
            assert(box_innermost_view(t) == box_innermost_view(spread));
        },
        TypeExprView::Other { raw } => {
            let spread = propagate(plain(raw, normalize(raw)));
            let t = finalize(spread, table);
            assert(box_innermost_view(t) == box_innermost_view(spread));
        },
    }
}

/// Whether a record is consistent but for its derived metadata.
pub open spec fn consistent_node(t: TraitsView) -> bool {
    &&& t.normalized == normalize(t.raw)
    &&& t.is_reference <==> t.reference_inner is Some
    &&& t.is_mut_reference ==> t.is_reference
    &&& t.is_slice <==> t.slice_elem is Some
    &&& t.option_inner is Some ==> t.is_option
    &&& t.box_inner is Some ==> t.is_box
    &&& !t.is_pointer && t.pointer_inner is None && !t.pointer_is_mut && t.pointer_depth == 0
    &&& consistent_inner(t.reference_inner)
    &&& consistent_inner(t.option_inner)
    &&& consistent_inner(t.box_inner)
}

/// The record of a named type over a consistent argument is consistent but
/// for its derived metadata.
pub proof fn path_node_is_consistent(
    raw: Seq<char>,
    ident: Option<Seq<char>>,
    arg: Option<TraitsView>,
)
    requires
        arg matches Some(inner) ==> consistent(inner),
    ensures
        consistent_node(path_node(raw, ident, arg)),
{
    match arg {
        Some(inner) => {
            assert(consistent_inner(inner.box_inner));
        },
        None => {},
    }
}

/// The number of pointer layers at the top of an expression; parentheses
/// do not count and do not end the count.
pub open spec fn pointer_layers(e: TypeExprView) -> nat
    decreases e,
{
    match e {
        TypeExprView::Pointer { elem, .. } => 1 + pointer_layers(*elem),
        TypeExprView::Grouped { elem, .. } => pointer_layers(*elem),
        _ => 0,
    }
}

/// The depth of a classification is the number of pointer layers at the
/// top of the expression, as far as a `usize` can count.
pub proof fn depth_counts_pointer_layers(e: TypeExprView, table: Seq<(Seq<char>, Seq<char>)>)
    ensures
        classify(e, table).is_pointer <==> pointer_layers(e) > 0,
        pointer_layers(e) <= usize::MAX ==> classify(e, table).pointer_depth == pointer_layers(e),
        pointer_layers(e) > usize::MAX ==> classify(e, table).pointer_depth == usize::MAX,
    decreases e,
{
    match e {
        TypeExprView::Pointer { raw, mutable, elem } => {
            depth_counts_pointer_layers(*elem, table);
            pointer_adds_a_layer(raw, mutable, *elem, table);
        },
        TypeExprView::Grouped { elem, .. } => {
            depth_counts_pointer_layers(*elem, table);
        },
        TypeExprView::Reference { raw, mutable, elem } => {
            let node = reference_node(raw, mutable, classify(*elem, table));
            assert(!node.is_pointer && node.pointer_depth == 0);
        },
        TypeExprView::Slice { raw, elem_raw } => {},
        TypeExprView::Path { raw, ident, type_arg } => {
            let node = path_node(raw, ident, classify_arg(type_arg, table));
            assert(!node.is_pointer && node.pointer_depth == 0);
        },
        TypeExprView::Other { raw } => {},
    }
}

/// The upward copy of the flags, done twice, is the copy done once.
pub proof fn propagate_is_idempotent(t: TraitsView)
    ensures
        propagate(propagate(t)) == propagate(t),
{
}

/// The shape cases hand the flags upward themselves: the upward copy
/// after them changes nothing.
pub proof fn propagate_after_shape_changes_nothing(
    e: TypeExprView,
    table: Seq<(Seq<char>, Seq<char>)>,
)
    ensures
        match e {
            TypeExprView::Grouped { .. } => true,
            TypeExprView::Reference { raw, mutable, elem } => propagate(
                reference_node(raw, mutable, classify(*elem, table)),
            ) == reference_node(raw, mutable, classify(*elem, table)),
            TypeExprView::Slice { raw, elem_raw } => propagate(slice_node(raw, elem_raw))
                == slice_node(raw, elem_raw),
            TypeExprView::Path { raw, ident, type_arg } => propagate(
                path_node(raw, ident, classify_arg(type_arg, table)),
            ) == path_node(raw, ident, classify_arg(type_arg, table)),
            TypeExprView::Pointer { raw, mutable, elem } => propagate(
                pointer_node(raw, mutable, classify(*elem, table)),
            ) == pointer_node(raw, mutable, classify(*elem, table)),
            TypeExprView::Other { raw } => propagate(plain(raw, normalize(raw))) == plain(
                raw,
                normalize(raw),
            ),
        },
{
}

/// Merging into the imports keeps every item in its place, and changes
/// nothing of an item but the tree of an import.
pub proof fn merging_changes_import_trees_only(
    items: Seq<UnitItemView>,
    needed: Seq<bool>,
    n: nat,
)
    requires
        n <= items.len(),
    ensures
        ensure_uses(items, needed, n).0.len() == n,
        forall|i: int|
            0 <= i < n ==> {
                let before = items[i];
                let after = #[trigger] ensure_uses(items, needed, n).0[i];
                &&& after.source == before.source
                &&& after.paths == before.paths
                &&& after.kind is Use <==> before.kind is Use
                &&& !(before.kind is Use) ==> after == before
            },
    decreases n,
{
    if n > 0 {
        merging_changes_import_trees_only(items, needed, (n - 1) as nat);
        let head = ensure_uses(items, needed, (n - 1) as nat).0;
        let all = ensure_uses(items, needed, n).0;
        assert forall|i: int| 0 <= i < n implies {
            let before = items[i];
            let after = #[trigger] all[i];
            &&& after.source == before.source
            &&& after.paths == before.paths
            &&& after.kind is Use <==> before.kind is Use
            &&& !(before.kind is Use) ==> after == before
        } by {
            if i < n - 1 {
                assert(all[i] == head[i]);
            }
        }
    }
}

/// The pass over the imports adds at most one item: the new import, where
/// names are still needed after the merging, and nothing where none is.
pub proof fn at_most_one_import_is_added(items: Seq<UnitItemView>, aliases: Seq<bool>)
    ensures
        ({
            let merged = ensure_uses(items, aliases, items.len());
            let after = ensure_imports(items, aliases);
            if is_empty_flags(aliases) || is_empty_flags(merged.1) {
                after.len() == items.len()
            } else {
                let place = place_after_imports(merged.0, merged.0.len()) as int;
                &&& after.len() == items.len() + 1
                &&& 0 <= place <= items.len()
                &&& after[place] == new_import(merged.1)
                &&& forall|i: int| 0 <= i < place ==> after[i] == merged.0[i]
                &&& forall|i: int| place <= i < items.len() ==> after[i + 1] == merged.0[i]
                &&& forall|i: int| place <= i < items.len() ==> !(merged.0[i].kind is Use)
                &&& place > 0 ==> merged.0[place - 1].kind is Use
            }
        }),
{
    merging_changes_import_trees_only(items, aliases, items.len());
    let merged = ensure_uses(items, aliases, items.len());
    place_is_after_the_last_import(merged.0, merged.0.len());
}

/// The place after the last import among the first `n` items: an import
/// stands before it, unless it is zero, and none between it and `n`.
pub proof fn place_is_after_the_last_import(items: Seq<UnitItemView>, n: nat)
    requires
        n <= items.len(),
    ensures
        place_after_imports(items, n) <= n,
        place_after_imports(items, n) > 0 ==> items[place_after_imports(items, n) - 1].kind
            is Use,
        forall|i: int| place_after_imports(items, n) <= i < n ==> !(#[trigger] items[i].kind is Use),
    decreases n,
{
    if n > 0 && !(items[n - 1].kind is Use) {
        place_is_after_the_last_import(items, (n - 1) as nat);
    }
}

/// None of the items that the pass keeps is a redundant alias, and each is
/// an item of the unit.
pub proof fn kept_items_are_not_redundant(items: Seq<UnitItemView>, n: nat)
    requires
        n <= items.len(),
    ensures
        kept_items(items, n).len() <= n,
        forall|i: int|
            0 <= i < kept_items(items, n).len() ==> !is_redundant(
                #[trigger] kept_items(items, n)[i],
            ) && items.contains(kept_items(items, n)[i]),
    decreases n,
{
    if n > 0 {
        kept_items_are_not_redundant(items, (n - 1) as nat);
        let head = kept_items(items, (n - 1) as nat);
        let all = kept_items(items, n);
        assert forall|i: int| 0 <= i < all.len() implies !is_redundant(#[trigger] all[i])
            && items.contains(all[i]) by {
            if i < head.len() {
                assert(all[i] == head[i]);
            } else {
                assert(all[i] == items[n - 1]);
            }
        }
    }
}

/// The element primitive of a classification is never empty, where no
/// primitive of the table is.
pub proof fn pointer_element_is_never_empty(e: TypeExprView, table: Seq<(Seq<char>, Seq<char>)>)
    requires
        names_not_empty(table),
    ensures
        classify(e, table).pointer_element matches Some(element) ==> element.len() > 0,
        classify(e, table).is_pointer ==> classify(e, table).pointer_element is Some,
    decreases e,
{
    classification_is_consistent(e, table);
    match e {
        TypeExprView::Grouped { elem, .. } => {
            pointer_element_is_never_empty(*elem, table);
        },
        TypeExprView::Reference { raw, mutable, elem } => {
            element_of_finalized_is_not_empty(
                propagate(reference_node(raw, mutable, classify(*elem, table))),
                table,
            );
        },
        TypeExprView::Slice { raw, elem_raw } => {
            element_of_finalized_is_not_empty(propagate(slice_node(raw, elem_raw)), table);
        },
        TypeExprView::Path { raw, ident, type_arg } => {
            element_of_finalized_is_not_empty(
                propagate(path_node(raw, ident, classify_arg(type_arg, table))),
                table,
            );
        },
        TypeExprView::Pointer { raw, mutable, elem } => {
            element_of_finalized_is_not_empty(
                propagate(pointer_node(raw, mutable, classify(*elem, table))),
                table,
            );
        },
        TypeExprView::Other { raw } => {
            element_of_finalized_is_not_empty(propagate(plain(raw, normalize(raw))), table);
        },
    }
}

/// The element that the derived metadata gives a record is not empty, where
/// no primitive of the table is.
pub proof fn element_of_finalized_is_not_empty(t: TraitsView, table: Seq<(Seq<char>, Seq<char>)>)
    requires
        names_not_empty(table),
    ensures
        finalize(t, table).pointer_element matches Some(element) ==> element.len() > 0,
{
    match pointer_base_view(t) {
        Some(base) => {
            resolved_element_is_not_empty(expanded_candidates(base), table);
        },
        None => {},
    }
}

/// The innermost payload of an option of a box of a plain type, for any
/// records of this shape: the normalized rendering of the plain type,
/// normalized once more, where that is not empty; and so the normalized
/// rendering itself, where it is that of the raw rendering and settled. The
/// option may itself be marked as a box, as the classifier marks it, with
/// the payload of the box it wraps.
pub proof fn option_of_box_record_unwraps_to_payload(
    option: TraitsView,
    boxed: TraitsView,
    payload: TraitsView,
)
    requires
        option.is_option,
        option.option_inner == Some(Box::new(boxed)),
        option.is_box ==> option.box_inner == Some(Box::new(payload)),
        boxed.is_box,
        boxed.box_inner == Some(Box::new(payload)),
        !payload.is_box && !payload.is_option && !payload.is_reference,
        normalize(payload.normalized).len() > 0,
    ensures
        box_innermost_view(option) == Some(normalize(payload.normalized)),
        payload.normalized == normalize(payload.raw) && settled(payload.normalized)
            ==> box_innermost_view(option) == Some(payload.normalized),
{
    if payload.normalized == normalize(payload.raw) && settled(payload.normalized) {
        normalize_is_idempotent(payload.raw);
    }
    assert(box_innermost_view(payload) is None);
    assert(payload_rendering(payload) == Some(normalize(payload.normalized)));
    assert(box_innermost_view(boxed) == Some(normalize(payload.normalized)));
}

} // verus!
