//! The failures of evaluation.

use vstd::prelude::*;
use crate::model::Defect;
use crate::model::Expected;
use crate::model::Failure;
use vstd::string::StringExecFns;

verus! {

/// Why an evaluation failed. The first failure met ends the evaluation of
/// the whole expression.
#[derive(Debug, PartialEq, Eq)]
pub enum EvalError {
    /// A symbol that no scope binds.
    UnboundSymbol(String),
    /// A form with a number of arguments that it does not take.
    Arity,
    /// A value of another kind than the operation asked for.
    Type(Expected),
    /// A special form of the wrong shape.
    MalformedSpecialForm(Defect),
    /// The head of a list is neither a special form nor a function.
    NotCallable,
    /// More than one rest parameter.
    DuplicateRest,
    /// A parameter that is not a symbol.
    InvalidParameter,
    /// An `unquote` or `splice-unquote` with another number of arguments
    /// than one, or a `splice-unquote` with no list around it.
    InvalidQuasiquote,
    /// The expression nests deeper than the evaluation was allowed to go.
    DepthExceeded,
}

impl View for EvalError {
    type V = Failure;

    open spec fn view(&self) -> Failure {
        match self {
            EvalError::UnboundSymbol(name) => Failure::UnboundSymbol(name@),
            EvalError::Arity => Failure::Arity,
            EvalError::Type(expected) => Failure::Type(*expected),
            EvalError::MalformedSpecialForm(defect) => Failure::Malformed(*defect),
            EvalError::NotCallable => Failure::NotCallable,
            EvalError::DuplicateRest => Failure::DuplicateRest,
            EvalError::InvalidParameter => Failure::InvalidParameter,
            EvalError::InvalidQuasiquote => Failure::InvalidQuasiquote,
            EvalError::DepthExceeded => Failure::DepthExceeded,
        }
    }
}

/// The text of a failure, as `EvalError::message` writes it.
pub open spec fn failure_text(failure: Failure) -> Seq<char> {
    match failure {
        Failure::UnboundSymbol(name) => "Unbound symbol: "@ + name,
        Failure::Arity => "Wrong number of arguments"@,
        Failure::Type(Expected::Number) => "All arguments must be numbers"@,
        Failure::Type(Expected::List) => "Argument needs to be a list"@,
        Failure::Type(Expected::Bool) => "Condition must be a bool"@,
        Failure::Malformed(Defect::MissingElse) => "No else branch found"@,
        Failure::Malformed(Defect::DefinedName) => "First parameter to \"def\" must be a symbol"@,
        Failure::Malformed(Defect::ParameterList) =>
            "First parameter to \"lambda\" must be a list of parameter names"@,
        Failure::Malformed(Defect::BindingList) =>
            "First parameter to \"let\" must be a list of bindings"@,
        Failure::Malformed(Defect::Binding) => "Bindings need to be of the form (name value)"@,
        Failure::Malformed(Defect::BindingName) =>
            "The first parameter in each binding must be a symbol"@,
        Failure::NotCallable => "First parameter is not a function"@,
        Failure::DuplicateRest => "There can be only 1 rest parameter"@,
        Failure::InvalidParameter => "Invalid parameter name"@,
        Failure::InvalidQuasiquote => "Invalid use of \"unquote\" or \"splice-unquote\""@,
        Failure::DepthExceeded => "Expression nests too deeply"@,
    }
}

impl EvalError {
    /// The text that describes the failure.
    pub fn message(&self) -> (r: String)
        ensures
            r@ == failure_text(self@),
    {
        match self {
            EvalError::UnboundSymbol(name) => {
                String::from_str("Unbound symbol: ").concat(name.as_str())
            },
            EvalError::Arity => String::from_str("Wrong number of arguments"),
            EvalError::Type(Expected::Number) => String::from_str("All arguments must be numbers"),
            EvalError::Type(Expected::List) => String::from_str("Argument needs to be a list"),
            EvalError::Type(Expected::Bool) => String::from_str("Condition must be a bool"),
            EvalError::MalformedSpecialForm(Defect::MissingElse) => String::from_str(
                "No else branch found",
            ),
            EvalError::MalformedSpecialForm(Defect::DefinedName) => String::from_str(
                "First parameter to \"def\" must be a symbol",
            ),
            EvalError::MalformedSpecialForm(Defect::ParameterList) => String::from_str(
                "First parameter to \"lambda\" must be a list of parameter names",
            ),
            EvalError::MalformedSpecialForm(Defect::BindingList) => String::from_str(
                "First parameter to \"let\" must be a list of bindings",
            ),
            EvalError::MalformedSpecialForm(Defect::Binding) => String::from_str(
                "Bindings need to be of the form (name value)",
            ),
            EvalError::MalformedSpecialForm(Defect::BindingName) => String::from_str(
                "The first parameter in each binding must be a symbol",
            ),
            EvalError::NotCallable => String::from_str("First parameter is not a function"),
            EvalError::DuplicateRest => String::from_str("There can be only 1 rest parameter"),
            EvalError::InvalidParameter => String::from_str("Invalid parameter name"),
            EvalError::InvalidQuasiquote => String::from_str(
                "Invalid use of \"unquote\" or \"splice-unquote\"",
            ),
            EvalError::DepthExceeded => String::from_str("Expression nests too deeply"),
        }
    }
}

} // verus!
