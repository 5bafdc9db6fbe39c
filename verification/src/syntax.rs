//! The boundary to the parser.
//!
//! Parsing is done by `syn`; nothing of it is verified. This module holds
//! every call into `syn` and `quote` that the library makes, each in a
//! function of a few lines whose contract is taken on trust. The functions
//! take text and hand out plain values: one thing that the parser reads of
//! the text at its outermost level, or the token rendering of a part below.
//! What a function hands out depends on the text alone, so it has a name,
//! and the contracts of the library speak of the parse by these names.
//! How deep the parser recurses on a text, and with it how much stack it
//! needs, is no part of these contracts; nor is the room that the parser's
//! record of the positions in every text it has read takes up on a thread.

use crate::error_context::ErrorSpan;
use crate::text::option_view;
use quote::ToTokens;
use syn::Type;
use vstd::prelude::*;

verus! {

/// `syn::File`, a parsed unit. Opaque.
#[verifier::external_type_specification]
#[verifier::external_body]
pub struct ExFile(syn::File);

/// The syntactic shapes of a type that are told apart.
#[derive(Clone, Copy, Debug, PartialEq, Eq, Structural)]
pub enum NodeKind {
    /// A type in parentheses or in invisible delimiters.
    Grouped,
    /// A reference.
    Reference,
    /// A slice.
    Slice,
    /// A named type.
    Path,
    /// A raw pointer.
    Pointer,
    /// Any other shape.
    Other,
}

/// One segment of the path of a parsed named type.
#[derive(Debug, PartialEq, Eq)]
pub struct PathNode {
    /// The identifier of the segment.
    pub ident: String,
    /// One entry for each angle-bracketed argument of the segment, in
    /// order: the token rendering of the argument where it is a type.
    pub args: Vec<Option<String>>,
}

/// The mathematical model of a [`PathNode`].
pub struct PathNodeView {
    pub ident: Seq<char>,
    pub args: Seq<Option<Seq<char>>>,
}

impl View for PathNode {
    type V = PathNodeView;

    open spec fn view(&self) -> PathNodeView {
        PathNodeView {
            ident: self.ident@,
            args: Seq::new(self.args@.len(), |i: int| option_view(self.args@[i])),
        }
    }
}

/// One input of a parsed function.
#[derive(Debug, PartialEq, Eq)]
pub enum InputNode {
    /// A `self` argument.
    Receiver,
    /// An argument with a pattern and a type: the identifier that the
    /// pattern binds, or the token rendering of the pattern where it is no
    /// plain binding; and the token rendering of the type.
    Typed { name: String, ty: String },
}

/// The mathematical model of an [`InputNode`].
pub enum InputNodeView {
    Receiver,
    Typed { name: Seq<char>, ty: Seq<char> },
}

impl View for InputNode {
    type V = InputNodeView;

    open spec fn view(&self) -> InputNodeView {
        match self {
            InputNode::Receiver => InputNodeView::Receiver,
            InputNode::Typed { name, ty } => InputNodeView::Typed { name: name@, ty: ty@ },
        }
    }
}

/// The name and the declared return type of a parsed function.
#[derive(Debug, PartialEq, Eq)]
pub struct FnHead {
    /// The identifier of the function.
    pub name: String,
    /// The token rendering of the declared return type.
    pub output: Option<String>,
}

/// The mathematical model of a [`FnHead`].
pub struct FnHeadView {
    pub name: Seq<char>,
    pub output: Option<Seq<char>>,
}

impl View for FnHead {
    type V = FnHeadView;

    open spec fn view(&self) -> FnHeadView {
        FnHeadView { name: self.name@, output: option_view(self.output) }
    }
}

/// The models of a vector of inputs, in order.
pub open spec fn input_views(inputs: Seq<InputNode>) -> Seq<InputNodeView> {
    Seq::new(inputs.len(), |i: int| inputs[i]@)
}

/// What `syn` reads of `text` as a type: the shape of the outermost node
/// and the token rendering of the type, or the `Debug` rendering of the
/// parser's error.
pub uninterp spec fn parsed_type_kind(text: Seq<char>) -> Result<(NodeKind, Seq<char>), Seq<char>>;

/// The token rendering of the type directly under the outermost node that
/// `syn` reads of `text`, where that node is grouped, a reference, a slice
/// or a pointer.
pub uninterp spec fn parsed_type_elem(text: Seq<char>) -> Option<Seq<char>>;

/// Whether the outermost node that `syn` reads of `text` is a reference or
/// a pointer written with `mut`.
pub uninterp spec fn parsed_type_mutable(text: Seq<char>) -> bool;

/// What `syn` reads of `text` as a named type: the segments of its path,
/// in order; nothing where `text` is no named type.
pub uninterp spec fn parsed_path_node(text: Seq<char>) -> Option<Seq<PathNodeView>>;

/// What `syn` reads of `text` as a free function: its name and its return
/// type, or the `Debug` rendering of the parser's error.
pub uninterp spec fn parsed_fn_head(text: Seq<char>) -> Result<FnHeadView, Seq<char>>;

/// The inputs of the free function that `syn` reads of `text`; none where
/// it reads no function.
pub uninterp spec fn parsed_fn_inputs(text: Seq<char>) -> Seq<InputNodeView>;

/// The model of what [`parse_type_kind`] returns.
pub open spec fn type_kind_view(r: Result<(NodeKind, String), String>) -> Result<
    (NodeKind, Seq<char>),
    Seq<char>,
> {
    match r {
        Ok(pair) => Ok((pair.0, pair.1@)),
        Err(report) => Err(report@),
    }
}

/// The models of a vector of segments, in order.
pub open spec fn path_node_views(segments: Seq<PathNode>) -> Seq<PathNodeView> {
    Seq::new(segments.len(), |i: int| segments[i]@)
}

/// The model of what [`parse_path_node`] returns.
pub open spec fn path_node_view(r: Option<Vec<PathNode>>) -> Option<Seq<PathNodeView>> {
    match r {
        Some(segments) => Some(path_node_views(segments@)),
        None => None,
    }
}

/// The model of what [`parse_fn_head`] returns.
pub open spec fn fn_head_view(r: Result<FnHead, String>) -> Result<FnHeadView, Seq<char>> {
    match r {
        Ok(head) => Ok(head@),
        Err(report) => Err(report@),
    }
}

/// `syn::parse_str::<syn::Type>`, and of the parsed type its variant and
/// its token rendering (`ToTokens::to_token_stream`, then `Display`); of
/// an error its `Debug` rendering. The contract claims that the outcome
/// depends on the text alone.
#[verifier::external_body]
pub(crate) fn parse_type_kind(text: &str) -> (r: Result<(NodeKind, String), String>)
    ensures
        type_kind_view(r) == parsed_type_kind(text@),
{
    let ty = syn::parse_str::<Type>(text).map_err(|e| format!("{:?}", e))?;
    let kind = match &ty {
        Type::Paren(_) => NodeKind::Grouped,
        Type::Group(_) => NodeKind::Grouped,
        Type::Reference(_) => NodeKind::Reference,
        Type::Slice(_) => NodeKind::Slice,
        Type::Ptr(_) => NodeKind::Pointer,
        Type::Path(_) => NodeKind::Path,
        _ => NodeKind::Other,
    };
    Ok((kind, ty.to_token_stream().to_string()))
}

/// `syn::parse_str::<syn::Type>`, and of a parsed `Paren`, `Group`,
/// `Reference`, `Slice` or `Ptr` the token rendering of its `elem`. The
/// contract claims that the outcome depends on the text alone.
#[verifier::external_body]
pub(crate) fn parse_type_elem(text: &str) -> (r: Option<String>)
    ensures
        option_view(r) == parsed_type_elem(text@),
{
    let elem = match syn::parse_str::<Type>(text).ok()? {
        Type::Paren(t) => t.elem,
        Type::Group(t) => t.elem,
        Type::Reference(t) => t.elem,
        Type::Slice(t) => t.elem,
        Type::Ptr(t) => t.elem,
        _ => return None,
    };
    Some(elem.to_token_stream().to_string())
}

/// `syn::parse_str::<syn::Type>`, and of a parsed `Reference` or `Ptr`
/// whether its `mutability` is there. The contract claims that the outcome
/// depends on the text alone.
#[verifier::external_body]
pub(crate) fn parse_type_mutable(text: &str) -> (r: bool)
    ensures
        r == parsed_type_mutable(text@),
{
    match syn::parse_str::<Type>(text) {
        Ok(Type::Reference(t)) => t.mutability.is_some(),
        Ok(Type::Ptr(t)) => t.mutability.is_some(),
        _ => false,
    }
}

/// `syn::parse_str::<syn::Type>`, and of a parsed `Path` every one of
/// `path.segments`, in order: its `ident`, and for each of its
/// angle-bracketed `arguments` the token rendering where the argument is a
/// `GenericArgument::Type`. The contract claims that the outcome depends on
/// the text alone.
#[verifier::external_body]
pub(crate) fn parse_path_node(text: &str) -> (r: Option<Vec<PathNode>>)
    ensures
        path_node_view(r) == parsed_path_node(text@),
{
    let Type::Path(named) = syn::parse_str::<Type>(text).ok()? else { return None };
    Some(named.path.segments.iter().map(|segment| PathNode {
        ident: segment.ident.to_string(),
        args: match &segment.arguments {
            syn::PathArguments::AngleBracketed(list) => list.args.iter().map(|arg| match arg {
                syn::GenericArgument::Type(t) => Some(t.to_token_stream().to_string()),
                _ => None,
            }).collect(),
            _ => Vec::new(),
        },
    }).collect())
}

/// `syn::parse_str::<syn::ItemFn>`, and of the parsed function its
/// `sig.ident` and the token rendering of its `sig.output`; of an error its
/// `Debug` rendering. The contract claims that the outcome depends on the
/// text alone.
#[verifier::external_body]
pub(crate) fn parse_fn_head(text: &str) -> (r: Result<FnHead, String>)
    ensures
        fn_head_view(r) == parsed_fn_head(text@),
{
    let item = syn::parse_str::<syn::ItemFn>(text).map_err(|e| format!("{:?}", e))?;
    let output = match &item.sig.output {
        syn::ReturnType::Default => None,
        syn::ReturnType::Type(_, ty) => Some(ty.to_token_stream().to_string()),
    };
    Ok(FnHead { name: item.sig.ident.to_string(), output })
}

/// `syn::parse_str::<syn::ItemFn>`, and of the parsed function its
/// `sig.inputs` by the variants of `syn::FnArg`: of a `Typed` input the
/// identifier of a `syn::Pat::Ident`, or the token rendering of another
/// pattern, and the token rendering of its `ty`. The contract claims that
/// the outcome depends on the text alone.
#[verifier::external_body]
pub(crate) fn parse_fn_inputs(text: &str) -> (r: Vec<InputNode>)
    ensures
        input_views(r@) == parsed_fn_inputs(text@),
{
    let Ok(item) = syn::parse_str::<syn::ItemFn>(text) else { return Vec::new() };
    item.sig.inputs.iter().map(|arg| match arg {
        syn::FnArg::Receiver(_) => InputNode::Receiver,
        syn::FnArg::Typed(t) => InputNode::Typed { name: match &*t.pat {
            syn::Pat::Ident(binding) => binding.ident.to_string(),
            other => other.to_token_stream().to_string(),
        }, ty: t.ty.to_token_stream().to_string() },
    }).collect()
}

/// What `syn` reports where it rejects `text` as a whole unit: the `Debug`
/// rendering of its error, and where the error lies; nothing where it reads
/// a unit.
pub uninterp spec fn parsed_unit_error(text: Seq<char>) -> Option<(Seq<char>, ErrorSpan)>;

/// `syn::parse_str::<syn::File>`, and of an error its `Debug` rendering and,
/// from `syn::Error::span`, the line and the column of its `start` and the
/// line of its `end`. The parsed unit stays opaque; the contract claims
/// that whether the text is rejected, and with what report, depends on the
/// text alone.
#[verifier::external_body]
pub(crate) fn parse_file_tokens(text: &str) -> (r: Result<syn::File, (String, ErrorSpan)>)
    ensures
        match r {
            Ok(_) => parsed_unit_error(text@) is None,
            Err(report) => parsed_unit_error(text@) == Some((report.0@, report.1)),
        },
{
    syn::parse_str::<syn::File>(text).map_err(|e| {
        let (start, end) = (e.span().start(), e.span().end());
        let span = ErrorSpan { start_line: start.line, start_column: start.column, end_line: end.line };
        (format!("{:?}", e), span)
    })
}

} // verus!
