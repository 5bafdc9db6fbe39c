//! The classification record of a type expression.

use crate::text::option_view;
use vstd::prelude::*;

verus! {

/// The structural classification of one type expression, with the records
/// of the types it wraps.
#[derive(Debug, PartialEq, Eq)]
pub struct TypeTraits {
    /// The token rendering of the type as written.
    pub raw: String,
    /// The canonical spelling of `raw`.
    pub normalized: String,
    /// The final identifier of a named type.
    pub path_ident: Option<String>,
    pub is_reference: bool,
    pub is_mut_reference: bool,
    pub is_slice: bool,
    /// The token rendering of a slice's element type.
    pub slice_elem: Option<String>,
    pub is_str: bool,
    pub is_string: bool,
    pub is_option: bool,
    pub option_inner: Option<Box<TypeTraits>>,
    pub reference_inner: Option<Box<TypeTraits>>,
    pub is_pointer: bool,
    pub pointer_is_mut: bool,
    /// The number of raw-pointer layers from this node down to the first
    /// node that is no pointer.
    pub pointer_depth: usize,
    pub pointer_inner: Option<Box<TypeTraits>>,
    pub is_box: bool,
    pub box_inner: Option<Box<TypeTraits>>,
    pub pointer_base_ident: Option<String>,
    pub pointer_base_normalized: Option<String>,
    pub pointer_base_raw: Option<String>,
    /// The element primitive of a pointer.
    pub pointer_element: Option<String>,
    /// The innermost type under boxes, options and references.
    pub box_innermost: Option<String>,
}

/// The mathematical model of a [`TypeTraits`].
pub struct TraitsView {
    pub raw: Seq<char>,
    pub normalized: Seq<char>,
    pub path_ident: Option<Seq<char>>,
    pub is_reference: bool,
    pub is_mut_reference: bool,
    pub is_slice: bool,
    pub slice_elem: Option<Seq<char>>,
    pub is_str: bool,
    pub is_string: bool,
    pub is_option: bool,
    pub option_inner: Option<Box<TraitsView>>,
    pub reference_inner: Option<Box<TraitsView>>,
    pub is_pointer: bool,
    pub pointer_is_mut: bool,
    pub pointer_depth: nat,
    pub pointer_inner: Option<Box<TraitsView>>,
    pub is_box: bool,
    pub box_inner: Option<Box<TraitsView>>,
    pub pointer_base_ident: Option<Seq<char>>,
    pub pointer_base_normalized: Option<Seq<char>>,
    pub pointer_base_raw: Option<Seq<char>>,
    pub pointer_element: Option<Seq<char>>,
    pub box_innermost: Option<Seq<char>>,
}

/// The record of a type of which nothing is known but its rendering: every
/// flag false, every companion absent.
pub open spec fn plain(raw: Seq<char>, normalized: Seq<char>) -> TraitsView {
    TraitsView {
        raw,
        normalized,
        path_ident: None,
        is_reference: false,
        is_mut_reference: false,
        is_slice: false,
        slice_elem: None,
        is_str: false,
        is_string: false,
        is_option: false,
        option_inner: None,
        reference_inner: None,
        is_pointer: false,
        pointer_is_mut: false,
        pointer_depth: 0,
        pointer_inner: None,
        is_box: false,
        box_inner: None,
        pointer_base_ident: None,
        pointer_base_normalized: None,
        pointer_base_raw: None,
        pointer_element: None,
        box_innermost: None,
    }
}

impl TypeTraits {
    /// The model of an optional nested record.
    pub open spec fn inner_model(inner: Option<Box<TypeTraits>>) -> Option<Box<TraitsView>>
        decreases inner,
    {
        match inner {
            Some(b) => Some(Box::new((*b).model())),
            None => None,
        }
    }

    /// The model of this record.
    pub open spec fn model(self) -> TraitsView
        decreases self,
    {
        TraitsView {
            raw: self.raw@,
            normalized: self.normalized@,
            path_ident: option_view(self.path_ident),
            is_reference: self.is_reference,
            is_mut_reference: self.is_mut_reference,
            is_slice: self.is_slice,
            slice_elem: option_view(self.slice_elem),
            is_str: self.is_str,
            is_string: self.is_string,
            is_option: self.is_option,
            option_inner: Self::inner_model(self.option_inner),
            reference_inner: Self::inner_model(self.reference_inner),
            is_pointer: self.is_pointer,
            pointer_is_mut: self.pointer_is_mut,
            pointer_depth: self.pointer_depth as nat,
            pointer_inner: Self::inner_model(self.pointer_inner),
            is_box: self.is_box,
            box_inner: Self::inner_model(self.box_inner),
            pointer_base_ident: option_view(self.pointer_base_ident),
            pointer_base_normalized: option_view(self.pointer_base_normalized),
            pointer_base_raw: option_view(self.pointer_base_raw),
            pointer_element: option_view(self.pointer_element),
            box_innermost: option_view(self.box_innermost),
        }
    }
}

impl View for TypeTraits {
    type V = TraitsView;

    open spec fn view(&self) -> TraitsView {
        self.model()
    }
}

/// A copy of an optional string.
pub fn copy_option(o: &Option<String>) -> (r: Option<String>)
    ensures
        option_view(r) == option_view(*o),
{
    match o {
        Some(s) => Some(s.clone()),
        None => None,
    }
}

impl TypeTraits {
    /// The record of a type of which nothing is known but its rendering.
    pub fn new(raw: String, normalized: String) -> (r: Self)
        ensures
            r@ == plain(raw@, normalized@),
    {
        TypeTraits {
            raw,
            normalized,
            path_ident: None,
            is_reference: false,
            is_mut_reference: false,
            is_slice: false,
            slice_elem: None,
            is_str: false,
            is_string: false,
            is_option: false,
            option_inner: None,
            reference_inner: None,
            is_pointer: false,
            pointer_is_mut: false,
            pointer_depth: 0,
            pointer_inner: None,
            is_box: false,
            box_inner: None,
            pointer_base_ident: None,
            pointer_base_normalized: None,
            pointer_base_raw: None,
            pointer_element: None,
            box_innermost: None,
        }
    }

    /// A copy of an optional nested record.
    pub fn copy_inner(inner: &Option<Box<TypeTraits>>) -> (r: Option<Box<TypeTraits>>)
        ensures
            Self::inner_model(r) == Self::inner_model(*inner),
        decreases inner,
    {
        match inner {
            Some(b) => Some(Box::new(b.deep_copy())),
            None => None,
        }
    }

    /// A copy of this record and of every record nested in it.
    pub fn deep_copy(&self) -> (r: Self)
        ensures
            r@ == self@,
        decreases self,
    {
        TypeTraits {
            raw: self.raw.clone(),
            normalized: self.normalized.clone(),
            path_ident: copy_option(&self.path_ident),
            is_reference: self.is_reference,
            is_mut_reference: self.is_mut_reference,
            is_slice: self.is_slice,
            slice_elem: copy_option(&self.slice_elem),
            is_str: self.is_str,
            is_string: self.is_string,
            is_option: self.is_option,
            option_inner: Self::copy_inner(&self.option_inner),
            reference_inner: Self::copy_inner(&self.reference_inner),
            is_pointer: self.is_pointer,
            pointer_is_mut: self.pointer_is_mut,
            pointer_depth: self.pointer_depth,
            pointer_inner: Self::copy_inner(&self.pointer_inner),
            is_box: self.is_box,
            box_inner: Self::copy_inner(&self.box_inner),
            pointer_base_ident: copy_option(&self.pointer_base_ident),
            pointer_base_normalized: copy_option(&self.pointer_base_normalized),
            pointer_base_raw: copy_option(&self.pointer_base_raw),
            pointer_element: copy_option(&self.pointer_element),
            box_innermost: copy_option(&self.box_innermost),
        }
    }
}

impl Clone for TypeTraits {
    fn clone(&self) -> (r: Self)
        ensures
            r@ == self@,
    {
        self.deep_copy()
    }
}

} // verus!
