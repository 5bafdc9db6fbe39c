//! From text to classification.
//!
//! A type or a function signature arrives as text. The text is validated,
//! handed to the parser, and the parsed tree is read down into a
//! [`TypeExpr`], which [`analyze_type`] classifies. A whole unit is parsed
//! here too, with an error that shows where the parser stopped.
//!
//! A nested type is not taken from the tree of the type around it: its
//! token rendering is parsed again. The expression that is read down is that
//! of the one parsed tree as far as the parser reads back what it prints;
//! no contract here says that it does.

use crate::classify::{analyze_type, classify};
use crate::error_context::{error_context, get_error_context, ErrorSpan};
use crate::laws::{classification_is_consistent, consistent};
use crate::scalar_map::ScalarAliasTable;
use crate::syntax::{
    input_views, parse_file_tokens, parse_fn_head, parse_fn_inputs, parse_path_node,
    parse_type_elem, parse_type_kind, parse_type_mutable, parsed_fn_head, parsed_fn_inputs,
    parsed_path_node, parsed_type_elem, parsed_type_kind, parsed_type_mutable,
    parsed_unit_error, path_node_views, InputNode, InputNodeView, NodeKind,
};
use crate::text::{
    append_chars, chars_of, contains_char, is_blank, lemma_trim_blank, option_view, string_of,
    trim, trim_end_char, trimmed, trimmed_end_char,
};
use crate::traits::{TraitsView, TypeTraits};
use crate::type_expr::{TypeExpr, TypeExprView};
use vstd::prelude::*;

verus! {

/// Why a text could not be classified.
#[derive(Debug, PartialEq, Eq)]
pub enum ClassifyError {
    /// The type text is empty or blank.
    EmptyType,
    /// The signature text is empty or blank.
    EmptySignature,
    /// The parser rejected the type text; with the parser's report.
    InvalidType(String),
    /// The parser rejected the signature text; with the parser's report.
    InvalidSignature(String),
}

/// The mathematical model of a [`ClassifyError`].
pub enum ClassifyErrorView {
    EmptyType,
    EmptySignature,
    InvalidType(Seq<char>),
    InvalidSignature(Seq<char>),
}

impl View for ClassifyError {
    type V = ClassifyErrorView;

    open spec fn view(&self) -> ClassifyErrorView {
        match self {
            ClassifyError::EmptyType => ClassifyErrorView::EmptyType,
            ClassifyError::EmptySignature => ClassifyErrorView::EmptySignature,
            ClassifyError::InvalidType(report) => ClassifyErrorView::InvalidType(report@),
            ClassifyError::InvalidSignature(report) => ClassifyErrorView::InvalidSignature(
                report@,
            ),
        }
    }
}

impl ClassifyError {
    /// The message for this error.
    pub open spec fn message_spec(self) -> Seq<char> {
        match self {
            ClassifyError::EmptyType => "Type string cannot be empty"@,
            ClassifyError::EmptySignature => "Function signature cannot be empty"@,
            ClassifyError::InvalidType(report) => "Failed to parse type: "@ + report@,
            ClassifyError::InvalidSignature(report) => "Failed to parse function signature: "@
                + report@,
        }
    }

    /// The message for this error.
    pub fn message(&self) -> (r: String)
        ensures
            r@ == self.message_spec(),
    {
        match self {
            ClassifyError::EmptyType => "Type string cannot be empty".to_owned(),
            ClassifyError::EmptySignature => "Function signature cannot be empty".to_owned(),
            ClassifyError::InvalidType(report) => {
                let mut out = chars_of("Failed to parse type: ");
                append_chars(&mut out, &chars_of(report.as_str()));
                string_of(&out)
            },
            ClassifyError::InvalidSignature(report) => {
                let mut out = chars_of("Failed to parse function signature: ");
                append_chars(&mut out, &chars_of(report.as_str()));
                string_of(&out)
            },
        }
    }
}

/// The first of the arguments that is a type.
pub open spec fn first_type_arg(args: Seq<Option<Seq<char>>>) -> Option<Seq<char>>
    decreases args.len(),
{
    if args.len() == 0 {
        None
    } else {
        match args[0] {
            Some(arg) => Some(arg),
            None => first_type_arg(args.skip(1)),
        }
    }
}

/// The expression under a node, read from its token rendering.
pub open spec fn lowered_elem(elem: Option<Seq<char>>, depth: nat) -> Option<Box<TypeExprView>>
    decreases depth, 0nat,
{
    match elem {
        Some(text) if depth > 0 => Some(Box::new(lowered(text, (depth - 1) as nat))),
        _ => None,
    }
}

/// The expression that the parser reads from `text`, followed `depth`
/// levels down: each level is the outermost node of what the parser reads
/// from the token rendering of the level above. Below `depth` levels, and
/// where a rendering is not read as a type again, the expression is of no
/// known shape.
pub open spec fn lowered(text: Seq<char>, depth: nat) -> TypeExprView
    decreases depth, 1nat,
{
    match parsed_type_kind(text) {
        Err(_) => TypeExprView::Other { raw: text },
        Ok((kind, raw)) => {
            let below = lowered_elem(parsed_type_elem(text), depth);
            match (kind, below, parsed_type_elem(text)) {
                (NodeKind::Grouped, Some(elem), _) => TypeExprView::Grouped { raw, elem },
                (NodeKind::Reference, Some(elem), _) => TypeExprView::Reference {
                    raw,
                    mutable: parsed_type_mutable(text),
                    elem,
                },
                (NodeKind::Pointer, Some(elem), _) => TypeExprView::Pointer {
                    raw,
                    mutable: parsed_type_mutable(text),
                    elem,
                },
                (NodeKind::Slice, _, Some(elem_raw)) => TypeExprView::Slice { raw, elem_raw },
                (NodeKind::Path, _, _) if depth > 0 => match parsed_path_node(text) {
                    Some(segments) if segments.len() > 0 => TypeExprView::Path {
                        raw,
                        ident: Some(segments.last().ident),
                        type_arg: lowered_elem(first_type_arg(segments.last().args), depth),
                    },
                    _ => TypeExprView::Path { raw, ident: None, type_arg: None },
                },
                _ => TypeExprView::Other { raw },
            }
        },
    }
}

/// The first of the arguments that is a type.
fn find_type_arg(args: &Vec<Option<String>>) -> (r: Option<&String>)
    ensures
        match r {
            Some(arg) => first_type_arg(Seq::new(args@.len(), |i: int| option_view(args@[i])))
                == Some(arg@),
            None => first_type_arg(Seq::new(args@.len(), |i: int| option_view(args@[i])))
                is None,
        },
{
    let ghost all = Seq::new(args@.len(), |i: int| option_view(args@[i]));
    let mut i: usize = 0;
    assert(all.skip(0) =~= all);
    while i < args.len()
        invariant
            i <= args.len(),
            all == Seq::new(args@.len(), |i: int| option_view(args@[i])),
            first_type_arg(all) == first_type_arg(all.skip(i as int)),
        decreases args.len() - i,
    {
        assert(all.skip(i as int)[0] == option_view(args@[i as int]));
        assert(all.skip(i as int).skip(1) =~= all.skip(i + 1));
        match &args[i] {
            Some(arg) => {
                return Some(arg);
            },
            None => {},
        }
        i += 1;
    }
    None
}

/// Reads down the expression of which the parser has read the shape of
/// the outermost node and the rendering.
fn lower_type(text: &str, kind: NodeKind, raw: String, budget: usize) -> (r: TypeExpr)
    requires
        parsed_type_kind(text@) == Ok::<_, Seq<char>>((kind, raw@)),
    ensures
        r@ == lowered(text@, budget as nat),
    decreases budget, 0nat,
{
    match kind {
        NodeKind::Grouped => match parse_type_elem(text) {
            Some(below) if budget > 0 => TypeExpr::Grouped {
                raw,
                elem: Box::new(lower_text(below.as_str(), budget - 1)),
            },
            _ => TypeExpr::Other { raw },
        },
        NodeKind::Reference => match parse_type_elem(text) {
            Some(below) if budget > 0 => TypeExpr::Reference {
                raw,
                mutable: parse_type_mutable(text),
                elem: Box::new(lower_text(below.as_str(), budget - 1)),
            },
            _ => TypeExpr::Other { raw },
        },
        NodeKind::Pointer => match parse_type_elem(text) {
            Some(below) if budget > 0 => TypeExpr::Pointer {
                raw,
                mutable: parse_type_mutable(text),
                elem: Box::new(lower_text(below.as_str(), budget - 1)),
            },
            _ => TypeExpr::Other { raw },
        },
        NodeKind::Slice => match parse_type_elem(text) {
            Some(elem_raw) => TypeExpr::Slice { raw, elem_raw },
            None => TypeExpr::Other { raw },
        },
        NodeKind::Path => {
            if budget == 0 {
                return TypeExpr::Other { raw };
            }
            let mut segments = match parse_path_node(text) {
                Some(segments) => segments,
                None => Vec::new(),
            };
            let ghost models = path_node_views(segments@);
            assert(parsed_path_node(text@) matches Some(read) ==> read == models);
            match segments.pop() {
                Some(last) => {
                    assert(last@ == models.last());
                    let ghost args = last@.args;
                    assert(args =~= Seq::new(
                        last.args@.len(),
                        |i: int| option_view(last.args@[i]),
                    ));
                    let type_arg = match find_type_arg(&last.args) {
                        Some(arg) => Some(Box::new(lower_text(arg.as_str(), budget - 1))),
                        None => None,
                    };
                    assert(TypeExpr::inner_model(type_arg) == lowered_elem(
                        first_type_arg(args),
                        budget as nat,
                    ));
                    TypeExpr::Path { raw, ident: Some(last.ident), type_arg }
                },
                None => {
                    let r = TypeExpr::Path { raw, ident: None, type_arg: None };
                    assert(TypeExpr::inner_model(None) is None);
                    assert(option_view(None) is None);
                    assert(r@ == (TypeExprView::Path { raw: raw@, ident: None, type_arg: None }));
                    r
                },
            }
        },
        NodeKind::Other => TypeExpr::Other { raw },
    }
}

/// Reads down the expression that `text` renders.
fn lower_text(text: &str, budget: usize) -> (r: TypeExpr)
    ensures
        r@ == lowered(text@, budget as nat),
    decreases budget, 1nat,
{
    match parse_type_kind(text) {
        Ok((kind, raw)) => lower_type(text, kind, raw, budget),
        Err(_) => TypeExpr::Other { raw: text.to_owned() },
    }
}

/// What [`parse_type_expr`] makes of a text.
pub open spec fn parsed_type_expr(ty: Seq<char>) -> Result<TypeExprView, ClassifyErrorView> {
    if is_blank(ty) {
        Err(ClassifyErrorView::EmptyType)
    } else {
        match parsed_type_kind(trim(ty)) {
            Ok(_) => Ok(lowered(trim(ty), usize::MAX as nat)),
            Err(report) => Err(ClassifyErrorView::InvalidType(report)),
        }
    }
}

/// Parses a type expression. Blank text is refused before the parser sees
/// it; the parser sees the text without the whitespace around it, and what
/// it reads is followed down through the token renderings of the nested
/// types.
pub fn parse_type_expr(ty: &str) -> (r: Result<TypeExpr, ClassifyError>)
    ensures
        match r {
            Ok(expr) => parsed_type_expr(ty@) == Ok::<_, ClassifyErrorView>(expr@),
            Err(e) => parsed_type_expr(ty@) == Err::<TypeExprView, _>(e@),
        },
{
    let chars = chars_of(ty);
    let text = trimmed(&chars);
    proof {
        lemma_trim_blank(ty@);
    }
    if text.len() == 0 {
        return Err(ClassifyError::EmptyType);
    }
    let text = string_of(&text);
    match parse_type_kind(text.as_str()) {
        Ok((kind, raw)) => Ok(lower_type(text.as_str(), kind, raw, usize::MAX)),
        Err(report) => Err(ClassifyError::InvalidType(report)),
    }
}

/// Classifies the type that `ty` spells. Blank text is an error, and so is
/// text that the parser rejects; any other text is classified as
/// [`analyze_type`] classifies the expression that the parser reads from
/// it.
pub fn parse_type_traits(ty: &str, table: &ScalarAliasTable) -> (r: Result<
    TypeTraits,
    ClassifyError,
>)
    ensures
        match r {
            Ok(traits) => parsed_type_expr(ty@) matches Ok(expr) && traits@ == classify(
                expr,
                table@,
            ) && consistent(traits@),
            Err(e) => parsed_type_expr(ty@) == Err::<TypeExprView, _>(e@),
        },
{
    match parse_type_expr(ty) {
        Ok(expr) => {
            let traits = analyze_type(&expr, table);
            proof {
                classification_is_consistent(expr@, table@);
            }
            Ok(traits)
        },
        Err(e) => Err(e),
    }
}

/// One input of a parsed function signature.
#[derive(Debug, PartialEq, Eq)]
pub enum InputExpr {
    /// A `self` argument.
    Receiver,
    /// An argument with a pattern and a type; `name` is the identifier that
    /// the pattern binds, or the token rendering of the pattern.
    Typed { name: String, ty: TypeExpr },
}

/// The mathematical model of an [`InputExpr`].
pub enum InputExprView {
    Receiver,
    Typed { name: Seq<char>, ty: TypeExprView },
}

impl View for InputExpr {
    type V = InputExprView;

    open spec fn view(&self) -> InputExprView {
        match self {
            InputExpr::Receiver => InputExprView::Receiver,
            InputExpr::Typed { name, ty } => InputExprView::Typed { name: name@, ty: ty@ },
        }
    }
}

/// A parsed function signature, as far as the classifier reads it.
#[derive(Debug, PartialEq, Eq)]
pub struct SignatureExpr {
    pub name: String,
    pub inputs: Vec<InputExpr>,
    pub output: Option<TypeExpr>,
}

/// The mathematical model of a [`SignatureExpr`].
pub struct SignatureExprView {
    pub name: Seq<char>,
    pub inputs: Seq<InputExprView>,
    pub output: Option<TypeExprView>,
}

impl View for SignatureExpr {
    type V = SignatureExprView;

    open spec fn view(&self) -> SignatureExprView {
        SignatureExprView {
            name: self.name@,
            inputs: Seq::new(self.inputs@.len(), |i: int| self.inputs@[i]@),
            output: match self.output {
                Some(ty) => Some(ty@),
                None => None,
            },
        }
    }
}

/// A classified parameter: its name, the token rendering of its type, and
/// the classification of its type.
#[derive(Debug, PartialEq, Eq)]
pub struct Parameter {
    pub name: String,
    pub ty: String,
    pub traits: TypeTraits,
}

/// The mathematical model of a [`Parameter`].
pub struct ParameterView {
    pub name: Seq<char>,
    pub ty: Seq<char>,
    pub traits: TraitsView,
}

impl View for Parameter {
    type V = ParameterView;

    open spec fn view(&self) -> ParameterView {
        ParameterView { name: self.name@, ty: self.ty@, traits: self.traits@ }
    }
}

/// A classified function signature: the function's name, its parameters in
/// order, and the classification of its return type where it declares one.
#[derive(Debug, PartialEq, Eq)]
pub struct FunctionSignature {
    pub name: String,
    pub params: Vec<Parameter>,
    pub ret: Option<TypeTraits>,
}

/// The mathematical model of a [`FunctionSignature`].
pub struct FunctionSignatureView {
    pub name: Seq<char>,
    pub params: Seq<ParameterView>,
    pub ret: Option<TraitsView>,
}

impl View for FunctionSignature {
    type V = FunctionSignatureView;

    open spec fn view(&self) -> FunctionSignatureView {
        FunctionSignatureView {
            name: self.name@,
            params: Seq::new(self.params@.len(), |i: int| self.params@[i]@),
            ret: match self.ret {
                Some(traits) => Some(traits@),
                None => None,
            },
        }
    }
}

/// The text that the parser is given for a signature: the signature
/// without the whitespace around it and without the semicolons at its end,
/// followed by an empty body where it holds no opening brace.
pub open spec fn signature_snippet(signature: Seq<char>) -> Seq<char> {
    let cleaned = trim_end_char(trim(signature), ';');
    if cleaned.contains('{') {
        cleaned
    } else {
        cleaned + seq![' ', '{', '}']
    }
}

/// The classified parameters for the inputs: one for each input that is no
/// `self` argument, in order.
pub open spec fn classify_inputs(
    inputs: Seq<InputExprView>,
    table: Seq<(Seq<char>, Seq<char>)>,
) -> Seq<ParameterView>
    decreases inputs.len(),
{
    if inputs.len() == 0 {
        Seq::empty()
    } else {
        let head = classify_inputs(inputs.drop_last(), table);
        match inputs.last() {
            InputExprView::Receiver => head,
            InputExprView::Typed { name, ty } => head.push(
                ParameterView { name, ty: classify(ty, table).raw, traits: classify(ty, table) },
            ),
        }
    }
}

/// The classification of a parsed signature.
pub open spec fn classify_signature(
    signature: SignatureExprView,
    table: Seq<(Seq<char>, Seq<char>)>,
) -> FunctionSignatureView {
    FunctionSignatureView {
        name: signature.name,
        params: classify_inputs(signature.inputs, table),
        ret: match signature.output {
            Some(ty) => Some(classify(ty, table)),
            None => None,
        },
    }
}

/// Prepares a signature for the parser. Blank text is refused; from any
/// other text the whitespace around it and the semicolons at its end are
/// removed, and an empty body is added where no opening brace occurs.
pub fn prepare_signature(signature: &str) -> (r: Result<String, ClassifyError>)
    ensures
        match r {
            Ok(snippet) => !is_blank(signature@) && snippet@ == signature_snippet(signature@),
            Err(e) => is_blank(signature@) && e == ClassifyError::EmptySignature,
        },
{
    let chars = chars_of(signature);
    let text = trimmed(&chars);
    proof {
        lemma_trim_blank(signature@);
    }
    if text.len() == 0 {
        return Err(ClassifyError::EmptySignature);
    }
    let mut cleaned = trimmed_end_char(&text, ';');
    if !contains_char(&cleaned, '{') {
        let body: Vec<char> = vec![' ', '{', '}'];
        assert(body@ =~= seq![' ', '{', '}']);
        append_chars(&mut cleaned, &body);
    }
    Ok(string_of(&cleaned))
}

/// The input of a signature, with its type read down.
pub open spec fn lowered_input(input: InputNodeView, depth: nat) -> InputExprView {
    match input {
        InputNodeView::Receiver => InputExprView::Receiver,
        InputNodeView::Typed { name, ty } => InputExprView::Typed {
            name,
            ty: lowered(ty, depth),
        },
    }
}

/// The signature that the parser reads from `text`, with its types read
/// down; `name` and `output` are the name and the return type that it
/// reads.
pub open spec fn lowered_signature(
    name: Seq<char>,
    output: Option<Seq<char>>,
    text: Seq<char>,
    depth: nat,
) -> SignatureExprView {
    SignatureExprView {
        name,
        inputs: Seq::new(
            parsed_fn_inputs(text).len(),
            |i: int| lowered_input(parsed_fn_inputs(text)[i], depth),
        ),
        output: match output {
            Some(ty) => Some(lowered(ty, depth)),
            None => None,
        },
    }
}

/// Reads down the types of the signature that the parser reads from `text`.
fn lower_signature(text: &str, name: String, output: Option<String>) -> (r: SignatureExpr)
    ensures
        r@ == lowered_signature(name@, option_view(output), text@, usize::MAX as nat),
{
    let ghost depth = usize::MAX as nat;
    let nodes = parse_fn_inputs(text);
    let ghost models = input_views(nodes@);
    let mut inputs: Vec<InputExpr> = Vec::new();
    let mut i: usize = 0;
    while i < nodes.len()
        invariant
            i <= nodes.len(),
            depth == usize::MAX as nat,
            models == input_views(nodes@),
            inputs@.len() == i,
            forall|k: int| 0 <= k < i ==> (#[trigger] inputs@[k])@ == lowered_input(
                models[k],
                depth,
            ),
        decreases nodes.len() - i,
    {
        assert(models[i as int] == nodes@[i as int]@);
        let input = match &nodes[i] {
            InputNode::Receiver => InputExpr::Receiver,
            InputNode::Typed { name, ty } => InputExpr::Typed {
                name: name.clone(),
                ty: lower_text(ty.as_str(), usize::MAX),
            },
        };
        inputs.push(input);
        i += 1;
    }
    let ghost output_model = option_view(output);
    let output = match output {
        Some(ty) => Some(lower_text(ty.as_str(), usize::MAX)),
        None => None,
    };
    let r = SignatureExpr { name, inputs, output };
    assert(r@.inputs =~= lowered_signature(name@, output_model, text@, depth).inputs);
    r
}

/// What [`parse_signature_expr`] makes of a text.
pub open spec fn parsed_signature_expr(signature: Seq<char>) -> Result<
    SignatureExprView,
    ClassifyErrorView,
> {
    if is_blank(signature) {
        Err(ClassifyErrorView::EmptySignature)
    } else {
        match parsed_fn_head(signature_snippet(signature)) {
            Ok(head) => Ok(
                lowered_signature(
                    head.name,
                    head.output,
                    signature_snippet(signature),
                    usize::MAX as nat,
                ),
            ),
            Err(report) => Err(ClassifyErrorView::InvalidSignature(report)),
        }
    }
}

/// Parses a function signature; a body may follow it or not, and so may
/// semicolons. Blank text is refused before the parser sees it; the parser
/// sees the text as [`prepare_signature`] prepares it.
pub fn parse_signature_expr(signature: &str) -> (r: Result<SignatureExpr, ClassifyError>)
    ensures
        match r {
            Ok(expr) => parsed_signature_expr(signature@) == Ok::<_, ClassifyErrorView>(expr@),
            Err(e) => parsed_signature_expr(signature@) == Err::<SignatureExprView, _>(e@),
        },
{
    match prepare_signature(signature) {
        Err(e) => Err(e),
        Ok(snippet) => match parse_fn_head(snippet.as_str()) {
            Ok(head) => Ok(lower_signature(snippet.as_str(), head.name, head.output)),
            Err(report) => Err(ClassifyError::InvalidSignature(report)),
        },
    }
}

/// Classifies a parsed signature: the name as it is, one parameter for
/// each input that is no `self` argument, and the return type where one is
/// declared.
pub fn analyze_signature(signature: &SignatureExpr, table: &ScalarAliasTable) -> (r:
    FunctionSignature)
    ensures
        r@ == classify_signature(signature@, table@),
{
    let mut params: Vec<Parameter> = Vec::new();
    let ghost inputs = signature@.inputs;
    let mut i: usize = 0;
    assert(inputs.take(0) =~= Seq::<InputExprView>::empty());
    while i < signature.inputs.len()
        invariant
            i <= signature.inputs.len(),
            inputs == signature@.inputs,
            Seq::new(params@.len(), |k: int| params@[k]@) == classify_inputs(
                inputs.take(i as int),
                table@,
            ),
        decreases signature.inputs.len() - i,
    {
        let ghost grown = inputs.take(i + 1);
        assert(grown.drop_last() =~= inputs.take(i as int));
        assert(grown.last() == signature.inputs@[i as int]@);
        match &signature.inputs[i] {
            InputExpr::Receiver => {},
            InputExpr::Typed { name, ty } => {
                let traits = analyze_type(ty, table);
                let ghost before = Seq::new(params@.len(), |k: int| params@[k]@);
                let param = Parameter { name: name.clone(), ty: traits.raw.clone(), traits };
                let ghost added = param@;
                params.push(param);
                assert(Seq::new(params@.len(), |k: int| params@[k]@) =~= before.push(added));
            },
        }
        i += 1;
    }
    assert(inputs.take(signature.inputs.len() as int) =~= inputs);
    let ret = match &signature.output {
        Some(ty) => Some(analyze_type(ty, table)),
        None => None,
    };
    FunctionSignature { name: signature.name.clone(), params, ret }
}

/// Classifies the parameters and the return type of the function that
/// `signature` spells. Blank text is an error, and so is text that the
/// parser rejects; any other text is classified as [`analyze_signature`]
/// classifies the signature that the parser reads from it.
pub fn parse_function_signature(signature: &str, table: &ScalarAliasTable) -> (r: Result<
    FunctionSignature,
    ClassifyError,
>)
    ensures
        match r {
            Ok(classified) => parsed_signature_expr(signature@) matches Ok(expr) && classified@
                == classify_signature(expr, table@),
            Err(e) => parsed_signature_expr(signature@) == Err::<SignatureExprView, _>(e@),
        },
{
    match parse_signature_expr(signature) {
        Ok(parsed) => Ok(analyze_signature(&parsed, table)),
        Err(e) => Err(e),
    }
}

/// The message for a unit that the parser rejects: the parser's report,
/// and the excerpt of the source around the error.
pub open spec fn parse_error_message(report: Seq<char>, excerpt: Seq<char>) -> Seq<char> {
    "Error: "@ + report + "\nContext:\n"@ + excerpt
}

/// The message for a unit that the parser rejects with `report` at `span`.
pub fn describe_parse_error(source: &str, report: &str, span: &ErrorSpan) -> (r: String)
    ensures
        r@ == parse_error_message(report@, error_context(source@, *span)),
{
    let mut out = chars_of("Error: ");
    append_chars(&mut out, &chars_of(report));
    append_chars(&mut out, &chars_of("\nContext:\n"));
    let excerpt = get_error_context(source, span);
    append_chars(&mut out, &chars_of(excerpt.as_str()));
    string_of(&out)
}

/// Parses a unit. Where the parser rejects the text, the error is its
/// report together with an excerpt of the source around the place of the
/// error.
pub fn parse_src(source_code: &str) -> (r: Result<syn::File, String>)
    ensures
        match r {
            Ok(_) => parsed_unit_error(source_code@) is None,
            Err(message) => parsed_unit_error(source_code@) matches Some(report) && message@
                == parse_error_message(report.0, error_context(source_code@, report.1)),
        },
{
    match parse_file_tokens(source_code) {
        Ok(file) => Ok(file),
        Err(report) => Err(describe_parse_error(source_code, report.0.as_str(), &report.1)),
    }
}

} // verus!
