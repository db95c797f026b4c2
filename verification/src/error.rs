//! Error types: the parse-time taxonomy and the bridging-time taxonomies.

use vstd::prelude::*;

verus! {

/// The kind of data a value carries, or that a target expects.
#[derive(Clone, Copy, Debug, PartialEq, Eq, Structural)]
pub enum ValueKind {
    Text,
    Int,
    Bool,
    List,
}

/// An error representing possible values that the parser could return.
///
/// The first structural or lexical error aborts the whole parse:
/// - `Input`: the text does not match the top-level grammar.
/// - `Block`: a block is missing its leading identifier.
/// - `Field`: a field is missing its key or its value.
/// - `Value`: a value's inner literal is structurally absent or malformed.
/// - `Other`: a value's literal is present but fails its kind-specific parse.
#[derive(Debug, PartialEq)]
pub enum ParseError {
    Input,
    Block,
    Field,
    Value,
    Other(String),
}

/// Model of [`ParseError`].
pub enum ParseErrorView {
    Input,
    Block,
    Field,
    Value,
    Other(Seq<char>),
}

impl View for ParseError {
    type V = ParseErrorView;

    open spec fn view(&self) -> ParseErrorView {
        match self {
            ParseError::Input => ParseErrorView::Input,
            ParseError::Block => ParseErrorView::Block,
            ParseError::Field => ParseErrorView::Field,
            ParseError::Value => ParseErrorView::Value,
            ParseError::Other(reason) => ParseErrorView::Other(reason@),
        }
    }
}

/// Model of [`ParseErrorView`]'s rendering as text.
pub open spec fn spec_parse_error_msg(e: ParseErrorView) -> Seq<char> {
    match e {
        ParseErrorView::Input => "Input"@,
        ParseErrorView::Block => "Block"@,
        ParseErrorView::Field => "Field"@,
        ParseErrorView::Value => "Value"@,
        ParseErrorView::Other(reason) => reason,
    }
}

impl ParseError {
    /// A short description of the error, naming its class or reason.
    pub fn message(&self) -> (r: String)
        ensures
            r@ == spec_parse_error_msg(self@),
    {
        match self {
            ParseError::Input => String::from_str("Input"),
            ParseError::Block => String::from_str("Block"),
            ParseError::Field => String::from_str("Field"),
            ParseError::Value => String::from_str("Value"),
            ParseError::Other(reason) => reason.clone(),
        }
    }
}

/// An error aborting construction of one target instance during
/// deserialization:
/// - `TypeMismatch`: the target expected one kind of data, the value held
///   another.
/// - `MapProtocol`: a key/value pull came out of sequence.
/// - `NotFound`: no block with the requested name exists (carries the name).
/// - `Custom`: an escape hatch for target-defined constraints.
#[derive(Debug, PartialEq)]
pub enum SirtDeserializeError {
    TypeMismatch { expected: ValueKind, found: ValueKind },
    MapProtocol,
    NotFound(String),
    Custom(String),
}

/// Model of [`SirtDeserializeError`].
pub enum DeErrorView {
    TypeMismatch { expected: ValueKind, found: ValueKind },
    MapProtocol,
    NotFound(Seq<char>),
    Custom(Seq<char>),
}

impl View for SirtDeserializeError {
    type V = DeErrorView;

    open spec fn view(&self) -> DeErrorView {
        match self {
            SirtDeserializeError::TypeMismatch { expected, found } => DeErrorView::TypeMismatch {
                expected: *expected,
                found: *found,
            },
            SirtDeserializeError::MapProtocol => DeErrorView::MapProtocol,
            SirtDeserializeError::NotFound(name) => DeErrorView::NotFound(name@),
            SirtDeserializeError::Custom(msg) => DeErrorView::Custom(msg@),
        }
    }
}

/// The name of a kind, as it appears in messages.
pub open spec fn spec_kind_name(k: ValueKind) -> Seq<char> {
    match k {
        ValueKind::Text => "text"@,
        ValueKind::Int => "int"@,
        ValueKind::Bool => "bool"@,
        ValueKind::List => "list"@,
    }
}

fn kind_name(k: ValueKind) -> (r: &'static str)
    ensures
        r@ == spec_kind_name(k),
{
    match k {
        ValueKind::Text => "text",
        ValueKind::Int => "int",
        ValueKind::Bool => "bool",
        ValueKind::List => "list",
    }
}

/// Model of [`DeErrorView`]'s rendering as text.
pub open spec fn spec_de_error_msg(e: DeErrorView) -> Seq<char> {
    match e {
        DeErrorView::TypeMismatch { expected, found } => "expected "@ + spec_kind_name(expected)
            + ", found "@ + spec_kind_name(found),
        DeErrorView::MapProtocol => "MapAccess error"@,
        DeErrorView::NotFound(name) => "couldn't find block with name '"@ + name + "'"@,
        DeErrorView::Custom(msg) => msg,
    }
}

impl SirtDeserializeError {
    /// Wraps a target-defined message.
    pub fn custom(msg: String) -> (r: SirtDeserializeError)
        ensures
            r@ == DeErrorView::Custom(msg@),
    {
        SirtDeserializeError::Custom(msg)
    }

    /// A short description of the error.
    pub fn message(&self) -> (r: String)
        ensures
            r@ == spec_de_error_msg(self@),
    {
        match self {
            SirtDeserializeError::TypeMismatch { expected, found } => {
                let mut out = String::from_str("expected ");
                out.append(kind_name(*expected));
                out.append(", found ");
                out.append(kind_name(*found));
                out
            },
            SirtDeserializeError::MapProtocol => String::from_str("MapAccess error"),
            SirtDeserializeError::NotFound(name) => {
                let mut out = String::from_str("couldn't find block with name '");
                out.append(name.as_str());
                out.append("'");
                out
            },
            SirtDeserializeError::Custom(msg) => msg.clone(),
        }
    }
}

/// An error raised by a record while it renders itself: the write path has
/// no failure of its own, so every failure is target-defined.
#[derive(Debug, PartialEq)]
pub struct SirtSerializeError {
    msg: String,
}

impl View for SirtSerializeError {
    type V = Seq<char>;

    closed spec fn view(&self) -> Seq<char> {
        self.msg@
    }
}

impl SirtSerializeError {
    /// Wraps a target-defined message.
    pub fn custom(msg: String) -> (r: SirtSerializeError)
        ensures
            r@ == msg@,
    {
        SirtSerializeError { msg }
    }

    /// The target-defined message.
    pub fn message(&self) -> (r: String)
        ensures
            r@ == self@,
    {
        self.msg.clone()
    }
}

} // verus!
