use vstd::prelude::*;
use crate::diagnostic::Span;
use crate::value::Value;

verus! {

/// A node of the syntax tree that a parser hands to the compiler. The nodes
/// that findings can be about carry the span of their source text.
#[derive(Debug)]
pub enum Node {
    Literal(Value),
    /// A local variable.
    Variable(Vec<u8>, Span),
    /// A top-level field of the event.
    Field(Vec<u8>),
    /// `lhs + rhs`.
    Add(Box<Node>, Box<Node>, Span),
    /// `name(args)`, or `name!(args)` where `handled` is set.
    Call { name: Vec<u8>, args: Vec<Node>, handled: bool, span: Span },
    /// `name = value`.
    Assign { name: Vec<u8>, value: Box<Node> },
    /// `.name = value`.
    AssignField { name: Vec<u8>, value: Box<Node> },
    /// `if condition { consequent } else { alternative }`.
    If { condition: Box<Node>, consequent: Vec<Node>, alternative: Vec<Node>, span: Span },
}

/// What a parser reports when it refuses source text: its message and
/// the span where it stopped.
#[derive(Clone, Debug)]
pub struct ParseError {
    pub message: Vec<u8>,
    pub span: Span,
}

} // verus!
