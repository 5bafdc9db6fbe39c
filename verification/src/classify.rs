//! The type classifier.
//!
//! [`analyze_type`] walks a type expression from the outside in and builds
//! its [`TypeTraits`]: one case per syntactic shape, then the upward copy of
//! the slice and string flags, then the derived pointer and box metadata.
//! [`classify`] is the same walk as a function on the models.

use crate::normalize::{normalize, normalize_token_string};
use crate::scalar_map::{
    is_numeric_primitive, is_numeric_primitive_name, lemma_primitive_has_no_path, lookup,
    lookup_gives_an_entry, map_libc_scalar, names_not_empty, ScalarAliasTable,
};
use crate::text::{chars_of, final_segment, last_path_segment, option_view, string_of, string_views};
use crate::traits::{copy_option, plain, TraitsView, TypeTraits};
use crate::type_expr::{TypeExpr, TypeExprView};
use vstd::prelude::*;

verus! {

/// The name of the owned growable string.
pub open spec fn name_string() -> Seq<char> {
    seq!['S', 't', 'r', 'i', 'n', 'g']
}

/// The name of the borrowed string view.
pub open spec fn name_str() -> Seq<char> {
    seq!['s', 't', 'r']
}

/// The name of the optional-value wrapper.
pub open spec fn name_option() -> Seq<char> {
    seq!['O', 'p', 't', 'i', 'o', 'n']
}

/// The name of the owning heap box.
pub open spec fn name_box() -> Seq<char> {
    seq!['B', 'o', 'x']
}

/// The element primitive of a pointer whose base names nothing: the
/// one-byte unsigned integer.
pub open spec fn default_element() -> Seq<char> {
    seq!['u', '8']
}

/// One more than `depth`, as far as a `usize` can count.
pub open spec fn next_depth(depth: nat) -> nat {
    if depth < usize::MAX {
        depth + 1
    } else {
        depth
    }
}

/// `t` after it has taken the slice and string flags of a type it wraps.
/// The slice flag is taken, with the element rendering, only while `t` has
/// no element rendering of its own.
pub open spec fn absorb(t: TraitsView, inner: TraitsView) -> TraitsView {
    let takes_slice = t.slice_elem is None && inner.is_slice;
    TraitsView {
        is_slice: t.is_slice || takes_slice,
        slice_elem: if takes_slice {
            inner.slice_elem
        } else {
            t.slice_elem
        },
        is_str: t.is_str || inner.is_str,
        is_string: t.is_string || inner.is_string,
        ..t
    }
}

/// The slice and string flags of a record, as they are handed upward.
pub struct TextFlags {
    pub is_slice: bool,
    pub slice_elem: Option<String>,
    pub is_str: bool,
    pub is_string: bool,
}

impl TextFlags {
    /// Whether these are the flags of `inner`.
    pub open spec fn of(self, inner: TraitsView) -> bool {
        &&& self.is_slice == inner.is_slice
        &&& option_view(self.slice_elem) == inner.slice_elem
        &&& self.is_str == inner.is_str
        &&& self.is_string == inner.is_string
    }
}

/// The record of a reference node, before the metadata.
pub open spec fn reference_node(raw: Seq<char>, mutable: bool, inner: TraitsView) -> TraitsView {
    TraitsView {
        reference_inner: Some(Box::new(inner)),
        ..absorb(
            TraitsView { is_reference: true, is_mut_reference: mutable, ..plain(raw, normalize(raw)) },
            inner,
        )
    }
}

/// The record of a slice node, before the metadata.
pub open spec fn slice_node(raw: Seq<char>, elem_raw: Seq<char>) -> TraitsView {
    TraitsView { is_slice: true, slice_elem: Some(elem_raw), ..plain(raw, normalize(raw)) }
}

/// The record of an optional-value node, before the metadata. An option of
/// a box is itself marked as a box, with the box's payload.
pub open spec fn option_node(base: TraitsView, arg: Option<TraitsView>) -> TraitsView {
    let marked = TraitsView { is_option: true, ..base };
    match arg {
        None => marked,
        Some(inner) => {
            let taken = absorb(marked, inner);
            let boxed = if inner.is_box && !taken.is_box {
                TraitsView { is_box: true, box_inner: inner.box_inner, ..taken }
            } else {
                taken
            };
            TraitsView { option_inner: Some(Box::new(inner)), ..boxed }
        },
    }
}

/// The record of an owning-box node, before the metadata.
pub open spec fn box_node(base: TraitsView, arg: Option<TraitsView>) -> TraitsView {
    let marked = TraitsView { is_box: true, ..base };
    match arg {
        None => marked,
        Some(inner) => TraitsView { box_inner: Some(Box::new(inner)), ..absorb(marked, inner) },
    }
}

/// The record of a named type, before the metadata. `arg` is the record of
/// the first type argument of the final segment.
pub open spec fn path_node(
    raw: Seq<char>,
    ident: Option<Seq<char>>,
    arg: Option<TraitsView>,
) -> TraitsView {
    match ident {
        None => plain(raw, normalize(raw)),
        Some(id) => {
            let base = TraitsView { path_ident: Some(id), ..plain(raw, normalize(raw)) };
            if id == name_string() {
                TraitsView { is_string: true, ..base }
            } else if id == name_str() {
                TraitsView { is_str: true, ..base }
            } else if id == name_option() {
                option_node(base, arg)
            } else if id == name_box() {
                box_node(base, arg)
            } else {
                base
            }
        },
    }
}

/// The record of a raw-pointer node, before the metadata.
pub open spec fn pointer_node(raw: Seq<char>, mutable: bool, inner: TraitsView) -> TraitsView {
    TraitsView {
        pointer_inner: Some(Box::new(inner)),
        ..absorb(
            TraitsView {
                is_pointer: true,
                pointer_is_mut: mutable,
                pointer_depth: next_depth(inner.pointer_depth),
                ..plain(raw, normalize(raw))
            },
            inner,
        )
    }
}

/// The upward copy of the slice and string flags through a reference and
/// through an option.
pub open spec fn propagate(t: TraitsView) -> TraitsView {
    let through_reference = match t.reference_inner {
        Some(inner) if t.is_reference => absorb(t, *inner),
        _ => t,
    };
    match through_reference.option_inner {
        Some(inner) if through_reference.is_option => absorb(through_reference, *inner),
        _ => through_reference,
    }
}

/// The first node that is no pointer under the pointer layers of `t`.
pub open spec fn pointer_base_view(t: TraitsView) -> Option<TraitsView>
    decreases t,
{
    if !t.is_pointer {
        None
    } else {
        match t.pointer_inner {
            None => None,
            Some(inner) => if !inner.is_pointer {
                Some(*inner)
            } else {
                pointer_base_view(*inner)
            },
        }
    }
}

/// `list` with `value` at its end, unless `value` is empty or already there.
pub open spec fn push_unique_view(list: Seq<Seq<char>>, value: Seq<char>) -> Seq<Seq<char>> {
    if value.len() > 0 && !list.contains(value) {
        list.push(value)
    } else {
        list
    }
}

/// `s`, unless it is empty.
pub open spec fn nonempty(s: Seq<char>) -> Option<Seq<char>> {
    if s.len() > 0 {
        Some(s)
    } else {
        None
    }
}

/// The names under which a pointer base may be known: its identifier, its
/// normalized rendering (normalized once more, which changes nothing of a
/// settled rendering) and its raw rendering as it is, each once.
pub open spec fn base_candidates(base: TraitsView) -> Seq<Seq<char>> {
    let with_ident = match base.path_ident {
        Some(id) => push_unique_view(Seq::empty(), id),
        None => Seq::empty(),
    };
    push_unique_view(push_unique_view(with_ident, normalize(base.normalized)), base.raw)
}

/// `list` followed by the final path segment of each of the first `n`
/// candidates that is path-qualified, each once.
pub open spec fn with_tails(list: Seq<Seq<char>>, candidates: Seq<Seq<char>>, n: nat) -> Seq<
    Seq<char>,
>
    decreases n,
{
    if n == 0 || n > candidates.len() {
        list
    } else {
        let before = with_tails(list, candidates, (n - 1) as nat);
        let candidate = candidates[n - 1];
        let tail = last_path_segment(candidate);
        if tail != candidate {
            push_unique_view(before, tail)
        } else {
            before
        }
    }
}

/// The candidates of a pointer base, in the order in which they are tried.
pub open spec fn expanded_candidates(base: TraitsView) -> Seq<Seq<char>> {
    with_tails(base_candidates(base), base_candidates(base), base_candidates(base).len())
}

/// The primitive of the first candidate that the table knows.
pub open spec fn first_alias(
    candidates: Seq<Seq<char>>,
    table: Seq<(Seq<char>, Seq<char>)>,
) -> Option<Seq<char>>
    decreases candidates.len(),
{
    if candidates.len() == 0 {
        None
    } else {
        match lookup(table, candidates[0]) {
            Some(primitive) => Some(primitive),
            None => first_alias(candidates.skip(1), table),
        }
    }
}

/// The first candidate that is a numeric primitive name.
pub open spec fn first_primitive(candidates: Seq<Seq<char>>) -> Option<Seq<char>>
    decreases candidates.len(),
{
    if candidates.len() == 0 {
        None
    } else if is_numeric_primitive_name(candidates[0]) {
        Some(candidates[0])
    } else {
        first_primitive(candidates.skip(1))
    }
}

/// The first candidate that is not empty.
pub open spec fn first_nonempty(candidates: Seq<Seq<char>>) -> Option<Seq<char>>
    decreases candidates.len(),
{
    if candidates.len() == 0 {
        None
    } else if candidates[0].len() > 0 {
        Some(candidates[0])
    } else {
        first_nonempty(candidates.skip(1))
    }
}

/// The element primitive for the candidates: an alias of the table before a
/// primitive name, a primitive name before any other name, and the default
/// where there is no name.
pub open spec fn resolve_element(
    candidates: Seq<Seq<char>>,
    table: Seq<(Seq<char>, Seq<char>)>,
) -> Seq<char> {
    match first_alias(candidates, table) {
        Some(primitive) => primitive,
        None => match first_primitive(candidates) {
            Some(name) => name,
            None => match first_nonempty(candidates) {
                Some(name) => name,
                None => default_element(),
            },
        },
    }
}

/// The element that is resolved from any candidates is not empty, where no
/// primitive of the table is.
pub proof fn resolved_element_is_not_empty(
    candidates: Seq<Seq<char>>,
    table: Seq<(Seq<char>, Seq<char>)>,
)
    requires
        names_not_empty(table),
    ensures
        resolve_element(candidates, table).len() > 0,
{
    first_alias_is_not_empty(candidates, table);
    first_primitive_is_not_empty(candidates);
    first_nonempty_is_not_empty(candidates);
}

/// The primitive of the first candidate that the table knows is not empty,
/// where no primitive of the table is.
pub proof fn first_alias_is_not_empty(
    candidates: Seq<Seq<char>>,
    table: Seq<(Seq<char>, Seq<char>)>,
)
    requires
        names_not_empty(table),
    ensures
        first_alias(candidates, table) matches Some(primitive) ==> primitive.len() > 0,
    decreases candidates.len(),
{
    if candidates.len() > 0 {
        lookup_gives_an_entry(table, candidates[0]);
        first_alias_is_not_empty(candidates.skip(1), table);
    }
}

/// The first candidate that is a numeric primitive name is not empty.
pub proof fn first_primitive_is_not_empty(candidates: Seq<Seq<char>>)
    ensures
        first_primitive(candidates) matches Some(name) ==> name.len() > 0,
    decreases candidates.len(),
{
    if candidates.len() > 0 {
        if is_numeric_primitive_name(candidates[0]) {
            lemma_primitive_has_no_path(candidates[0]);
        }
        first_primitive_is_not_empty(candidates.skip(1));
    }
}

/// What is picked as the first candidate that is not empty is not empty.
pub proof fn first_nonempty_is_not_empty(candidates: Seq<Seq<char>>)
    ensures
        first_nonempty(candidates) matches Some(name) ==> name.len() > 0,
    decreases candidates.len(),
{
    if candidates.len() > 0 {
        first_nonempty_is_not_empty(candidates.skip(1));
    }
}

/// What is known of the base of a pointer.
#[derive(Debug, PartialEq, Eq)]
pub struct PointerMetadata {
    pub base_ident: Option<String>,
    pub base_normalized: Option<String>,
    pub base_raw: Option<String>,
    pub element: String,
}

/// The mathematical model of a [`PointerMetadata`].
pub struct PointerMetadataView {
    pub base_ident: Option<Seq<char>>,
    pub base_normalized: Option<Seq<char>>,
    pub base_raw: Option<Seq<char>>,
    pub element: Seq<char>,
}

impl View for PointerMetadata {
    type V = PointerMetadataView;

    open spec fn view(&self) -> PointerMetadataView {
        PointerMetadataView {
            base_ident: option_view(self.base_ident),
            base_normalized: option_view(self.base_normalized),
            base_raw: option_view(self.base_raw),
            element: self.element@,
        }
    }
}

/// The pointer metadata of `t`.
pub open spec fn pointer_metadata_view(
    t: TraitsView,
    table: Seq<(Seq<char>, Seq<char>)>,
) -> PointerMetadataView {
    match pointer_base_view(t) {
        Some(base) => PointerMetadataView {
            base_ident: base.path_ident,
            base_normalized: nonempty(normalize(base.normalized)),
            base_raw: nonempty(base.raw),
            element: resolve_element(expanded_candidates(base), table),
        },
        None => PointerMetadataView {
            base_ident: None,
            base_normalized: None,
            base_raw: None,
            element: default_element(),
        },
    }
}

/// The rendering of the payload of a box: its normalized rendering,
/// normalized once more (which changes nothing of a settled rendering), or,
/// where that is empty, its raw rendering normalized.
pub open spec fn payload_rendering(inner: TraitsView) -> Option<Seq<char>> {
    if normalize(inner.normalized).len() > 0 {
        Some(normalize(inner.normalized))
    } else {
        nonempty(normalize(inner.raw))
    }
}

/// The innermost payload under boxes, and under an option or a reference
/// that leads to a box.
pub open spec fn box_innermost_view(t: TraitsView) -> Option<Seq<char>>
    decreases t,
{
    if t.is_box {
        match t.box_inner {
            Some(inner) => match box_innermost_view(*inner) {
                Some(nested) => Some(nested),
                None => payload_rendering(*inner),
            },
            None => None,
        }
    } else {
        match t.option_inner {
            Some(inner) if t.is_option => box_innermost_view(*inner),
            _ => match t.reference_inner {
                Some(inner) if t.is_reference => box_innermost_view(*inner),
                _ => None,
            },
        }
    }
}

/// `t` with its derived metadata: the pointer fields where it is a pointer,
/// and the innermost box payload.
pub open spec fn finalize(t: TraitsView, table: Seq<(Seq<char>, Seq<char>)>) -> TraitsView {
    let meta = pointer_metadata_view(t, table);
    if t.is_pointer {
        TraitsView {
            pointer_base_ident: meta.base_ident,
            pointer_base_normalized: meta.base_normalized,
            pointer_base_raw: meta.base_raw,
            pointer_element: Some(meta.element),
            box_innermost: box_innermost_view(t),
            ..t
        }
    } else {
        TraitsView {
            pointer_base_ident: None,
            pointer_base_normalized: None,
            pointer_base_raw: None,
            pointer_element: None,
            box_innermost: box_innermost_view(t),
            ..t
        }
    }
}

/// The record of an optional nested expression.
pub open spec fn classify_arg(
    arg: Option<Box<TypeExprView>>,
    table: Seq<(Seq<char>, Seq<char>)>,
) -> Option<TraitsView>
    decreases arg,
{
    match arg {
        Some(inner) => Some(classify(*inner, table)),
        None => None,
    }
}

/// The classification of a type expression.
pub open spec fn classify(e: TypeExprView, table: Seq<(Seq<char>, Seq<char>)>) -> TraitsView
    decreases e,
{
    match e {
        TypeExprView::Grouped { raw, elem } => TraitsView {
            raw,
            normalized: normalize(raw),
            ..classify(*elem, table)
        },
        TypeExprView::Reference { raw, mutable, elem } => finalize(
            propagate(reference_node(raw, mutable, classify(*elem, table))),
            table,
        ),
        TypeExprView::Slice { raw, elem_raw } => finalize(
            propagate(slice_node(raw, elem_raw)),
            table,
        ),
        TypeExprView::Path { raw, ident, type_arg } => finalize(
            propagate(path_node(raw, ident, classify_arg(type_arg, table))),
            table,
        ),
        TypeExprView::Pointer { raw, mutable, elem } => finalize(
            propagate(pointer_node(raw, mutable, classify(*elem, table))),
            table,
        ),
        TypeExprView::Other { raw } => finalize(propagate(plain(raw, normalize(raw))), table),
    }
}

/// Puts `value` at the end of `vec`, unless it is empty or already there.
pub fn push_unique(vec: &mut Vec<String>, value: String)
    ensures
        string_views(final(vec)@) == push_unique_view(string_views(old(vec)@), value@),
{
    if value.as_str().is_empty() {
        return ;
    }
    let mut i: usize = 0;
    while i < vec.len()
        invariant
            i <= vec.len(),
            *vec == *old(vec),
            forall|k: int| 0 <= k < i ==> string_views(vec@)[k] != value@,
        decreases vec.len() - i,
    {
        if vec[i] == value {
            assert(string_views(vec@)[i as int] == value@);
            return ;
        }
        i += 1;
    }
    let ghost before = string_views(vec@);
    vec.push(value);
    assert(string_views(vec@) =~= before.push(value@));
}

/// The final path segment of `name`.
fn tail_of(name: &String) -> (r: String)
    ensures
        r@ == last_path_segment(name@),
{
    let chars = chars_of(name.as_str());
    let tail = final_segment(&chars);
    string_of(&tail)
}

/// The first node that is no pointer under the pointer layers of `traits`.
pub fn pointer_base(traits: &TypeTraits) -> (r: Option<&TypeTraits>)
    ensures
        match r {
            Some(base) => pointer_base_view(traits@) == Some(base@),
            None => pointer_base_view(traits@) is None,
        },
    decreases traits,
{
    if !traits.is_pointer {
        return None;
    }
    match &traits.pointer_inner {
        None => None,
        Some(inner) => {
            if !inner.is_pointer {
                Some(&**inner)
            } else {
                pointer_base(&**inner)
            }
        },
    }
}

/// The candidates of a pointer base, in the order in which they are tried.
fn candidates_of(base: &TypeTraits) -> (r: Vec<String>)
    ensures
        string_views(r@) == expanded_candidates(base@),
{
    let mut candidates: Vec<String> = Vec::new();
    assert(string_views(candidates@) =~= Seq::<Seq<char>>::empty());
    match &base.path_ident {
        Some(ident) => {
            push_unique(&mut candidates, ident.clone());
        },
        None => {},
    }
    push_unique(&mut candidates, normalize_token_string(base.normalized.as_str()));
    push_unique(&mut candidates, base.raw.clone());
    let mut expanded: Vec<String> = Vec::new();
    let mut i: usize = 0;
    while i < candidates.len()
        invariant
            i <= candidates.len(),
            string_views(expanded@) == string_views(candidates@).take(i as int),
        decreases candidates.len() - i,
    {
        let ghost before = string_views(expanded@);
        expanded.push(candidates[i].clone());
        assert(string_views(expanded@) =~= before.push(candidates@[i as int]@));
        assert(string_views(candidates@).take(i + 1) =~= string_views(candidates@).take(
            i as int,
        ).push(candidates@[i as int]@));
        i += 1;
    }
    assert(string_views(candidates@).take(candidates.len() as int) =~= string_views(
        candidates@,
    ));
    let ghost names = string_views(candidates@);
    let mut j: usize = 0;
    while j < candidates.len()
        invariant
            j <= candidates.len(),
            names == string_views(candidates@),
            names == base_candidates(base@),
            string_views(expanded@) == with_tails(names, names, j as nat),
        decreases candidates.len() - j,
    {
        assert(names[j as int] == candidates@[j as int]@);
        let tail = tail_of(&candidates[j]);
        if tail != candidates[j] {
            push_unique(&mut expanded, tail);
        }
        j += 1;
    }
    expanded
}

/// The primitive of the first candidate that the table knows.
fn first_alias_of(candidates: &Vec<String>, table: &ScalarAliasTable) -> (r: Option<String>)
    ensures
        option_view(r) == first_alias(string_views(candidates@), table@),
{
    let ghost names = string_views(candidates@);
    let mut i: usize = 0;
    assert(names.skip(0) =~= names);
    while i < candidates.len()
        invariant
            i <= candidates.len(),
            names == string_views(candidates@),
            first_alias(names, table@) == first_alias(names.skip(i as int), table@),
        decreases candidates.len() - i,
    {
        assert(names.skip(i as int)[0] == candidates@[i as int]@);
        assert(names.skip(i as int).skip(1) =~= names.skip(i + 1));
        match map_libc_scalar(table, candidates[i].as_str()) {
            Some(primitive) => {
                return Some(primitive);
            },
            None => {},
        }
        i += 1;
    }
    None
}

/// The first candidate that is a numeric primitive name.
fn first_primitive_of(candidates: &Vec<String>) -> (r: Option<String>)
    ensures
        option_view(r) == first_primitive(string_views(candidates@)),
{
    let ghost names = string_views(candidates@);
    let mut i: usize = 0;
    assert(names.skip(0) =~= names);
    while i < candidates.len()
        invariant
            i <= candidates.len(),
            names == string_views(candidates@),
            first_primitive(names) == first_primitive(names.skip(i as int)),
        decreases candidates.len() - i,
    {
        assert(names.skip(i as int)[0] == candidates@[i as int]@);
        assert(names.skip(i as int).skip(1) =~= names.skip(i + 1));
        if is_numeric_primitive(candidates[i].as_str()) {
            return Some(candidates[i].clone());
        }
        i += 1;
    }
    None
}

/// The first candidate that is not empty.
fn first_nonempty_of(candidates: &Vec<String>) -> (r: Option<String>)
    ensures
        option_view(r) == first_nonempty(string_views(candidates@)),
{
    let ghost names = string_views(candidates@);
    let mut i: usize = 0;
    assert(names.skip(0) =~= names);
    while i < candidates.len()
        invariant
            i <= candidates.len(),
            names == string_views(candidates@),
            first_nonempty(names) == first_nonempty(names.skip(i as int)),
        decreases candidates.len() - i,
    {
        assert(names.skip(i as int)[0] == candidates@[i as int]@);
        assert(names.skip(i as int).skip(1) =~= names.skip(i + 1));
        if !candidates[i].as_str().is_empty() {
            return Some(candidates[i].clone());
        }
        i += 1;
    }
    None
}

/// `s`, unless it is empty.
fn nonempty_string(s: String) -> (r: Option<String>)
    ensures
        option_view(r) == nonempty(s@),
{
    if s.as_str().is_empty() {
        None
    } else {
        Some(s)
    }
}

/// The name of the one-byte unsigned integer.
fn default_element_name() -> (r: String)
    ensures
        r@ == default_element(),
{
    let chars: Vec<char> = vec!['u', '8'];
    assert(chars@ =~= default_element());
    string_of(&chars)
}

/// What is known of the base of the pointer `traits`, with its element
/// primitive: the primitive of the first candidate name of the base that
/// the table knows; else the first candidate that is a numeric primitive
/// name; else the first candidate; else the one-byte unsigned integer. The
/// element is never empty.
pub fn compute_pointer_metadata(traits: &TypeTraits, table: &ScalarAliasTable) -> (r:
    PointerMetadata)
    ensures
        r@ == pointer_metadata_view(traits@, table@),
        r@.element.len() > 0,
{
    proof {
        use_type_invariant(table);
        match pointer_base_view(traits@) {
            Some(base) => {
                resolved_element_is_not_empty(expanded_candidates(base), table@);
            },
            None => {},
        }
    }
    match pointer_base(traits) {
        Some(base) => {
            let candidates = candidates_of(base);
            let element = match first_alias_of(&candidates, table) {
                Some(primitive) => primitive,
                None => match first_primitive_of(&candidates) {
                    Some(name) => name,
                    None => match first_nonempty_of(&candidates) {
                        Some(name) => name,
                        None => default_element_name(),
                    },
                },
            };
            PointerMetadata {
                base_ident: copy_option(&base.path_ident),
                base_normalized: nonempty_string(
                    normalize_token_string(base.normalized.as_str()),
                ),
                base_raw: nonempty_string(base.raw.clone()),
                element,
            }
        },
        None => PointerMetadata {
            base_ident: None,
            base_normalized: None,
            base_raw: None,
            element: default_element_name(),
        },
    }
}

/// The innermost payload under the boxes of `traits`, where `traits` is a
/// box, an option of a box or a reference to a box.
pub fn compute_box_innermost(traits: &TypeTraits) -> (r: Option<String>)
    ensures
        option_view(r) == box_innermost_view(traits@),
    decreases traits,
{
    if traits.is_box {
        match &traits.box_inner {
            Some(inner) => {
                match compute_box_innermost(&**inner) {
                    Some(nested) => Some(nested),
                    None => {
                        let normalized = normalize_token_string(inner.normalized.as_str());
                        if !normalized.as_str().is_empty() {
                            Some(normalized)
                        } else {
                            nonempty_string(normalize_token_string(inner.raw.as_str()))
                        }
                    },
                }
            },
            None => None,
        }
    } else {
        if traits.is_option {
            match &traits.option_inner {
                Some(inner) => {
                    return compute_box_innermost(&**inner);
                },
                None => {},
            }
        }
        if traits.is_reference {
            match &traits.reference_inner {
                Some(inner) => {
                    return compute_box_innermost(&**inner);
                },
                None => {},
            }
        }
        None
    }
}

/// The slice and string flags of `inner`.
fn text_flags(inner: &TypeTraits) -> (r: TextFlags)
    ensures
        r.of(inner@),
{
    TextFlags {
        is_slice: inner.is_slice,
        slice_elem: copy_option(&inner.slice_elem),
        is_str: inner.is_str,
        is_string: inner.is_string,
    }
}

/// Hands the flags of a wrapped type to `t`.
fn take_flags(t: &mut TypeTraits, flags: TextFlags, Ghost(inner): Ghost<TraitsView>)
    requires
        flags.of(inner),
    ensures
        final(t)@ == absorb(old(t)@, inner),
{
    if t.slice_elem.is_none() && flags.is_slice {
        t.slice_elem = flags.slice_elem;
        t.is_slice = true;
    }
    if flags.is_str {
        t.is_str = true;
    }
    if flags.is_string {
        t.is_string = true;
    }
}

/// The upward copy of the slice and string flags through a reference and
/// through an option.
fn propagate_flags(t: &mut TypeTraits)
    ensures
        final(t)@ == propagate(old(t)@),
{
    if t.is_reference {
        let flags = match &t.reference_inner {
            Some(inner) => Some(text_flags(&**inner)),
            None => None,
        };
        match flags {
            Some(flags) => {
                let ghost inner = *t@.reference_inner->0;
                take_flags(t, flags, Ghost(inner));
            },
            None => {},
        }
    }
    if t.is_option {
        let flags = match &t.option_inner {
            Some(inner) => Some(text_flags(&**inner)),
            None => None,
        };
        match flags {
            Some(flags) => {
                let ghost inner = *t@.option_inner->0;
                take_flags(t, flags, Ghost(inner));
            },
            None => {},
        }
    }
}

/// Whether `ident` is spelled `name`.
fn is_named(ident: &String, name: &str) -> (r: bool)
    ensures
        r == (ident@ == name@),
{
    let owned = name.to_owned();
    *ident == owned
}

impl TypeTraits {
    /// Fills in the derived metadata: the pointer fields where this is a
    /// pointer, none of them where it is not, and the innermost box payload.
    pub fn finalize_metadata(&mut self, table: &ScalarAliasTable)
        ensures
            final(self)@ == finalize(old(self)@, table@),
            final(self)@.pointer_element matches Some(element) ==> element.len() > 0,
    {
        let innermost = compute_box_innermost(self);
        if self.is_pointer {
            let meta = compute_pointer_metadata(self, table);
            self.pointer_base_ident = meta.base_ident;
            self.pointer_base_normalized = meta.base_normalized;
            self.pointer_base_raw = meta.base_raw;
            self.pointer_element = Some(meta.element);
        } else {
            self.pointer_base_ident = None;
            self.pointer_base_normalized = None;
            self.pointer_base_raw = None;
            self.pointer_element = None;
        }
        self.box_innermost = innermost;
    }
}

/// The record of a named type, before the metadata.
fn analyze_path(
    raw: &String,
    ident: &Option<String>,
    type_arg: &Option<Box<TypeExpr>>,
    table: &ScalarAliasTable,
) -> (r: TypeTraits)
    ensures
        r@ == path_node(
            raw@,
            option_view(*ident),
            classify_arg(TypeExpr::inner_model(*type_arg), table@),
        ),
    decreases type_arg, 0nat,
{
    let mut traits = TypeTraits::new(raw.clone(), normalize_token_string(raw.as_str()));
    match ident {
        None => {},
        Some(id) => {
            proof {
                reveal_strlit("String");
                reveal_strlit("str");
                reveal_strlit("Option");
                reveal_strlit("Box");
                assert("String"@ =~= name_string());
                assert("str"@ =~= name_str());
                assert("Option"@ =~= name_option());
                assert("Box"@ =~= name_box());
            }
            traits.path_ident = Some(id.clone());
            if is_named(id, "String") {
                traits.is_string = true;
            } else if is_named(id, "str") {
                traits.is_str = true;
            } else if is_named(id, "Option") {
                traits.is_option = true;
                match type_arg {
                    Some(arg) => {
                        let inner = analyze_type(&**arg, table);
                        take_flags(&mut traits, text_flags(&inner), Ghost(inner@));
                        if inner.is_box && !traits.is_box {
                            traits.is_box = true;
                            traits.box_inner = TypeTraits::copy_inner(&inner.box_inner);
                        }
                        traits.option_inner = Some(Box::new(inner));
                    },
                    None => {},
                }
            } else if is_named(id, "Box") {
                traits.is_box = true;
                match type_arg {
                    Some(arg) => {
                        let inner = analyze_type(&**arg, table);
                        take_flags(&mut traits, text_flags(&inner), Ghost(inner@));
                        traits.box_inner = Some(Box::new(inner));
                    },
                    None => {},
                }
            }
        },
    }
    traits
}

/// Classifies a type expression: which of reference, slice, string, option,
/// pointer and box it is, what it wraps, and, for a pointer, the element
/// primitive that `table` gives for its base, which is never empty.
pub fn analyze_type(expr: &TypeExpr, table: &ScalarAliasTable) -> (r: TypeTraits)
    ensures
        r@ == classify(expr@, table@),
        r@.pointer_element matches Some(element) ==> element.len() > 0,
    decreases expr, 1nat,
{
    match expr {
        TypeExpr::Grouped { raw, elem } => {
            let mut inner = analyze_type(&**elem, table);
            inner.normalized = normalize_token_string(raw.as_str());
            inner.raw = raw.clone();
            inner
        },
        TypeExpr::Reference { raw, mutable, elem } => {
            let mut traits = TypeTraits::new(raw.clone(), normalize_token_string(raw.as_str()));
            traits.is_reference = true;
            traits.is_mut_reference = *mutable;
            let inner = analyze_type(&**elem, table);
            take_flags(&mut traits, text_flags(&inner), Ghost(inner@));
            traits.reference_inner = Some(Box::new(inner));
            propagate_flags(&mut traits);
            traits.finalize_metadata(table);
            traits
        },
        TypeExpr::Slice { raw, elem_raw } => {
            let mut traits = TypeTraits::new(raw.clone(), normalize_token_string(raw.as_str()));
            traits.is_slice = true;
            traits.slice_elem = Some(elem_raw.clone());
            propagate_flags(&mut traits);
            traits.finalize_metadata(table);
            traits
        },
        TypeExpr::Path { raw, ident, type_arg } => {
            let mut traits = analyze_path(raw, ident, type_arg, table);
            propagate_flags(&mut traits);
            traits.finalize_metadata(table);
            traits
        },
        TypeExpr::Pointer { raw, mutable, elem } => {
            let mut traits = TypeTraits::new(raw.clone(), normalize_token_string(raw.as_str()));
            traits.is_pointer = true;
            traits.pointer_is_mut = *mutable;
            let inner = analyze_type(&**elem, table);
            traits.pointer_depth = if inner.pointer_depth < usize::MAX {
                inner.pointer_depth + 1
            } else {
                inner.pointer_depth
            };
            take_flags(&mut traits, text_flags(&inner), Ghost(inner@));
            traits.pointer_inner = Some(Box::new(inner));
            propagate_flags(&mut traits);
            traits.finalize_metadata(table);
            traits
        },
        TypeExpr::Other { raw } => {
            let mut traits = TypeTraits::new(raw.clone(), normalize_token_string(raw.as_str()));
            propagate_flags(&mut traits);
            traits.finalize_metadata(table);
            traits
        },
    }
}

} // verus!
