//! The mathematical model of the language's data: expression trees,
//! parameter descriptors, scopes and failures, all as ghost values.

use vstd::prelude::*;
use crate::number::Number;

verus! {

/// The characters of a symbol or of a string.
pub type Name = Seq<char>;

/// A parameter list, split into its four classes.
pub struct ParamSpec {
    pub required: Seq<Name>,
    pub optional: Seq<Name>,
    pub keyword: Seq<Name>,
    pub rest: Option<Name>,
}

/// An expression tree: what a `Value` stands for.
pub enum Sexp {
    Nil,
    T,
    Number(Number),
    Str(Name),
    Symbol(Name),
    Lambda { params: ParamSpec, body: Box<Sexp>, is_macro: bool },
    List(Seq<Sexp>),
}

/// Why an evaluation failed.
pub enum Failure {
    UnboundSymbol(Name),
    Arity,
    Type(Expected),
    Malformed(Defect),
    NotCallable,
    DuplicateRest,
    InvalidParameter,
    InvalidQuasiquote,
    DepthExceeded,
}

/// The kind of value that an operation asked for.
#[derive(Clone, Copy, Debug, PartialEq, Eq)]
pub enum Expected {
    Number,
    List,
    Bool,
}

/// What is wrong with the shape of a special form.
#[derive(Clone, Copy, Debug, PartialEq, Eq)]
pub enum Defect {
    /// An `if` whose condition is false has no third branch.
    MissingElse,
    /// The name that `def` binds is not a symbol.
    DefinedName,
    /// The parameters of `lambda` or `macro` are not a list.
    ParameterList,
    /// The bindings of `let` are not a list.
    BindingList,
    /// A binding of `let` is not a list of two elements.
    Binding,
    /// The name of a binding of `let` is not a symbol.
    BindingName,
}

/// The bindings of one scope.
pub type Frame = Map<Name, Sexp>;

/// A chain of scopes, the root first and the current one last.
pub type Scopes = Seq<Frame>;

/// The value that a name has in a chain of scopes: that of the innermost
/// scope that binds it.
pub open spec fn lookup(scopes: Scopes, name: Name) -> Option<Sexp>
    decreases scopes.len(),
{
    if scopes.len() == 0 {
        None
    } else if scopes.last().contains_key(name) {
        Some(scopes.last()[name])
    } else {
        lookup(scopes.drop_last(), name)
    }
}

/// The chain after a name was bound in its current scope.
pub open spec fn bind(scopes: Scopes, name: Name, value: Sexp) -> Scopes {
    if scopes.len() == 0 {
        scopes
    } else {
        scopes.update(scopes.len() - 1, scopes.last().insert(name, value))
    }
}

/// What a step of evaluation leaves: a result or a failure, and the scopes
/// as they are afterwards.
pub struct Evaluated<T> {
    pub result: Result<T, Failure>,
    pub scopes: Scopes,
}

/// What the evaluation of an expression leaves.
pub type Outcome = Evaluated<Sexp>;

/// A step that gave a value.
pub open spec fn done<T>(value: T, scopes: Scopes) -> Evaluated<T> {
    Evaluated { result: Ok(value), scopes }
}

/// A step that failed.
pub open spec fn failed<T>(failure: Failure, scopes: Scopes) -> Evaluated<T> {
    Evaluated { result: Err(failure), scopes }
}

} // verus!
