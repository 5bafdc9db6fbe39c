//! The shape of a type expression, as far as the classifier reads it.

use crate::text::option_view;
use vstd::prelude::*;

verus! {

/// A parsed type expression. Each node carries `raw`, the token rendering of
/// the whole expression it stands for, and what the classifier reads of its
/// syntactic shape.
#[derive(Debug, PartialEq, Eq)]
pub enum TypeExpr {
    /// A type in parentheses or in invisible delimiters; transparent.
    Grouped { raw: String, elem: Box<TypeExpr> },
    /// `&T` or `&mut T`, with or without a lifetime.
    Reference { raw: String, mutable: bool, elem: Box<TypeExpr> },
    /// `[T]`, with the token rendering of `T`.
    Slice { raw: String, elem_raw: String },
    /// A named type, with the identifier of its final path segment and the
    /// first type among that segment's angle-bracketed arguments.
    Path { raw: String, ident: Option<String>, type_arg: Option<Box<TypeExpr>> },
    /// `*const T` or `*mut T`.
    Pointer { raw: String, mutable: bool, elem: Box<TypeExpr> },
    /// Any other shape: a tuple, an array, a function pointer, a trait
    /// object, an inferred, never or macro type.
    Other { raw: String },
}

/// The mathematical model of a [`TypeExpr`].
pub enum TypeExprView {
    Grouped { raw: Seq<char>, elem: Box<TypeExprView> },
    Reference { raw: Seq<char>, mutable: bool, elem: Box<TypeExprView> },
    Slice { raw: Seq<char>, elem_raw: Seq<char> },
    Path { raw: Seq<char>, ident: Option<Seq<char>>, type_arg: Option<Box<TypeExprView>> },
    Pointer { raw: Seq<char>, mutable: bool, elem: Box<TypeExprView> },
    Other { raw: Seq<char> },
}

impl TypeExpr {
    /// The model of an optional nested expression.
    pub open spec fn inner_model(inner: Option<Box<TypeExpr>>) -> Option<Box<TypeExprView>>
        decreases inner,
    {
        match inner {
            Some(arg) => Some(Box::new((*arg).model())),
            None => None,
        }
    }

    /// The model of this expression.
    pub open spec fn model(self) -> TypeExprView
        decreases self,
    {
        match self {
            TypeExpr::Grouped { raw, elem } => TypeExprView::Grouped {
                raw: raw@,
                elem: Box::new((*elem).model()),
            },
            TypeExpr::Reference { raw, mutable, elem } => TypeExprView::Reference {
                raw: raw@,
                mutable,
                elem: Box::new((*elem).model()),
            },
            TypeExpr::Slice { raw, elem_raw } => TypeExprView::Slice {
                raw: raw@,
                elem_raw: elem_raw@,
            },
            TypeExpr::Path { raw, ident, type_arg } => TypeExprView::Path {
                raw: raw@,
                ident: option_view(ident),
                type_arg: Self::inner_model(type_arg),
            },
            TypeExpr::Pointer { raw, mutable, elem } => TypeExprView::Pointer {
                raw: raw@,
                mutable,
                elem: Box::new((*elem).model()),
            },
            TypeExpr::Other { raw } => TypeExprView::Other { raw: raw@ },
        }
    }
}

impl View for TypeExpr {
    type V = TypeExprView;

    open spec fn view(&self) -> TypeExprView {
        self.model()
    }
}

impl TypeExprView {
    /// The token rendering of the whole expression.
    pub open spec fn raw(self) -> Seq<char> {
        match self {
            TypeExprView::Grouped { raw, .. } => raw,
            TypeExprView::Reference { raw, .. } => raw,
            TypeExprView::Slice { raw, .. } => raw,
            TypeExprView::Path { raw, .. } => raw,
            TypeExprView::Pointer { raw, .. } => raw,
            TypeExprView::Other { raw } => raw,
        }
    }
}

impl TypeExpr {
    /// The token rendering of the whole expression.
    pub fn raw(&self) -> (r: &String)
        ensures
            r@ == self@.raw(),
    {
        match self {
            TypeExpr::Grouped { raw, .. } => raw,
            TypeExpr::Reference { raw, .. } => raw,
            TypeExpr::Slice { raw, .. } => raw,
            TypeExpr::Path { raw, .. } => raw,
            TypeExpr::Pointer { raw, .. } => raw,
            TypeExpr::Other { raw } => raw,
        }
    }
}

} // verus!
