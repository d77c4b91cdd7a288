//! Why a value cannot be written as code.

use vstd::prelude::*;

use crate::acorn_type::{type_text, AcornType, ModuleId};

verus! {

/// The reasons why a value or a type cannot be written as code in a scope.
#[derive(Debug, PartialEq, Eq)]
pub enum CodeGenError {
    /// The module of a constant has no name here.
    UnimportedModule(ModuleId),
    /// A type has no name here.
    UnnamedType(String),
    /// The constant was made up by the normalizer.
    Skolem(String),
    /// There is no way to write this kind of value.
    UnhandledValue(String),
}

/// The model of such a reason.
pub enum CodeGenErrorV {
    UnimportedModule(ModuleId),
    UnnamedType(Seq<char>),
    Skolem(Seq<char>),
    UnhandledValue(Seq<char>),
}

impl View for CodeGenError {
    type V = CodeGenErrorV;

    open spec fn view(&self) -> CodeGenErrorV {
        match self {
            CodeGenError::UnimportedModule(m) => CodeGenErrorV::UnimportedModule(*m),
            CodeGenError::UnnamedType(s) => CodeGenErrorV::UnnamedType(s@),
            CodeGenError::Skolem(s) => CodeGenErrorV::Skolem(s@),
            CodeGenError::UnhandledValue(s) => CodeGenErrorV::UnhandledValue(s@),
        }
    }
}

impl CodeGenError {
    /// A type has no name here.
    pub fn unnamed_type(t: &AcornType) -> (r: CodeGenError)
        ensures
            r@ == CodeGenErrorV::UnnamedType(type_text(t@)),
    {
        CodeGenError::UnnamedType(t.to_text())
    }

    /// The constant was made up by the normalizer.
    pub fn skolem(name: &str) -> (r: CodeGenError)
        ensures
            r@ == CodeGenErrorV::Skolem(name@),
    {
        CodeGenError::Skolem(name.to_owned())
    }

    /// There is no way to write this kind of value.
    pub fn unhandled_value(kind: &str) -> (r: CodeGenError)
        ensures
            r@ == CodeGenErrorV::UnhandledValue(kind@),
    {
        CodeGenError::UnhandledValue(kind.to_owned())
    }
}

} // verus!
