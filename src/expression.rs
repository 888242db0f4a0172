use vstd::prelude::*;
use crate::function::Builtin;
use crate::type_def::{spec_null, with_fallible, TypeDef};
use crate::value::{value_type, Value};

verus! {

/// A type-checked expression; each node carries its type.
#[derive(Debug)]
pub enum Expr {
    Literal { value: Value },
    Variable { name: Vec<u8>, type_def: TypeDef },
    Field { name: Vec<u8>, type_def: TypeDef },
    Add { lhs: Box<Expr>, rhs: Box<Expr>, type_def: TypeDef },
    /// A call of the function at place `function` of the registry.
    Call { function: usize, builtin: Builtin, args: Vec<Expr>, handled: bool, type_def: TypeDef },
    Assign { name: Vec<u8>, value: Box<Expr>, type_def: TypeDef },
    AssignField { name: Vec<u8>, value: Box<Expr>, type_def: TypeDef },
    If {
        condition: Box<Expr>,
        consequent: Vec<Expr>,
        alternative: Vec<Expr>,
        type_def: TypeDef,
    },
    /// Stands for a node that did not type-check.
    Invalid { type_def: TypeDef },
}

pub open spec fn type_of(e: Expr) -> TypeDef {
    match e {
        Expr::Literal { value } => value_type(value),
        Expr::Variable { type_def, .. } => type_def,
        Expr::Field { type_def, .. } => type_def,
        Expr::Add { type_def, .. } => type_def,
        Expr::Call { type_def, .. } => type_def,
        Expr::Assign { type_def, .. } => type_def,
        Expr::AssignField { type_def, .. } => type_def,
        Expr::If { type_def, .. } => type_def,
        Expr::Invalid { type_def } => type_def,
    }
}

/// Some expression of the sequence is fallible.
pub open spec fn some_fallible(s: Seq<Expr>) -> bool {
    exists|i: int| 0 <= i < s.len() && type_of(#[trigger] s[i]).fallible
}

/// The type of a block: that of its last statement, fallible where any
/// statement is; an empty block is null.
pub open spec fn block_type(s: Seq<Expr>) -> TypeDef {
    if s.len() == 0 {
        spec_null()
    } else {
        with_fallible(type_of(s.last()), some_fallible(s))
    }
}

/// Fallibility flows upward: an expression with a fallible part is itself
/// fallible, save a call in a handling form, which clears it.
pub open spec fn flows(e: Expr) -> bool
    decreases e,
{
    match e {
        Expr::Add { lhs, rhs, type_def } => (type_of(*lhs).fallible || type_of(*rhs).fallible
            ==> type_def.fallible) && flows(*lhs) && flows(*rhs),
        Expr::Call { args, handled, type_def, .. } => (!handled && some_fallible(args@)
            ==> type_def.fallible) && forall|i: int|
            0 <= i < args@.len() ==> flows(#[trigger] args@[i]),
        Expr::Assign { value, type_def, .. } => (type_of(*value).fallible ==> type_def.fallible)
            && flows(*value),
        Expr::AssignField { value, type_def, .. } => (type_of(*value).fallible
            ==> type_def.fallible) && flows(*value),
        Expr::If { condition, consequent, alternative, type_def } => (type_of(*condition).fallible
            || some_fallible(consequent@) || some_fallible(alternative@) ==> type_def.fallible)
            && flows(*condition) && (forall|i: int|
            0 <= i < consequent@.len() ==> flows(#[trigger] consequent@[i])) && (forall|i: int|
            0 <= i < alternative@.len() ==> flows(#[trigger] alternative@[i])),
        _ => true,
    }
}

impl Expr {
    pub fn type_def(&self) -> (r: TypeDef)
        ensures
            r == type_of(*self),
    {
        match self {
            Expr::Literal { value } => value.type_def(),
            Expr::Variable { type_def, .. } => *type_def,
            Expr::Field { type_def, .. } => *type_def,
            Expr::Add { type_def, .. } => *type_def,
            Expr::Call { type_def, .. } => *type_def,
            Expr::Assign { type_def, .. } => *type_def,
            Expr::AssignField { type_def, .. } => *type_def,
            Expr::If { type_def, .. } => *type_def,
            Expr::Invalid { type_def } => *type_def,
        }
    }
}

} // verus!
