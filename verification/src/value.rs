//! Values that are known when compiling, and the types that values have.

use crate::float32::F32;
use crate::type_system;
use vstd::prelude::*;

verus! {

/// A constant of a script.
#[derive(Debug, Copy, Clone, PartialEq, Eq, Hash, Structural)]
pub enum ScalarValue {
    Int(i32),
    Float(F32),
}

impl ScalarValue {
    pub open spec fn ty_spec(self) -> type_system::ScalarType {
        match self {
            ScalarValue::Int(_) => type_system::ScalarType::Int,
            ScalarValue::Float(_) => type_system::ScalarType::Float,
        }
    }

    /// The type of the value.
    pub fn ty(&self) -> (r: type_system::ScalarType)
        ensures
            r == self.ty_spec(),
    {
        match self {
            ScalarValue::Int(_) => type_system::ScalarType::Int,
            ScalarValue::Float(_) => type_system::ScalarType::Float,
        }
    }
}

/// Type of a value in the language.
#[derive(Debug, Copy, Clone, PartialEq, Eq, PartialOrd, Ord, Hash, Structural)]
pub enum ScalarType {
    Int,
    Float,
    String,
}

impl ScalarType {
    pub open spec fn descr_spec(self) -> Seq<char> {
        match self {
            ScalarType::Int => "an integer"@,
            ScalarType::Float => "a float"@,
            ScalarType::String => "a string"@,
        }
    }

    /// The type in words, for use in a sentence.
    pub fn descr(self) -> (r: &'static str)
        ensures
            r@ == self.descr_spec(),
    {
        match self {
            ScalarType::Int => "an integer",
            ScalarType::Float => "a float",
            ScalarType::String => "a string",
        }
    }
}

/// Type of a variable.
#[derive(Debug, Copy, Clone, PartialEq, Eq, PartialOrd, Ord, Hash, Structural)]
pub enum VarType {
    /// The variable holds values of one type.
    Typed(ScalarType),
    /// The variable must have a sigil wherever it is used.
    Untyped {
        /// Whether it was declared so.
        explicit: bool,
    },
}

impl VarType {
    pub open spec fn known_spec(self) -> Option<ScalarType> {
        match self {
            VarType::Typed(ty) => Some(ty),
            VarType::Untyped { .. } => None,
        }
    }

    /// The type of the values of the variable, if it has one.
    pub fn as_known_ty(self) -> (r: Option<ScalarType>)
        ensures
            r == self.known_spec(),
    {
        match self {
            VarType::Typed(ty) => Some(ty),
            VarType::Untyped { .. } => None,
        }
    }
}

/// Type of an expression.
#[derive(Debug, Copy, Clone, PartialEq, Eq, PartialOrd, Ord, Hash, Structural)]
pub enum ExprType {
    Value(ScalarType),
    Void,
}

impl ExprType {
    pub open spec fn value_spec(self) -> Option<ScalarType> {
        match self {
            ExprType::Value(ty) => Some(ty),
            ExprType::Void => None,
        }
    }

    /// The type of the value, if there is one.
    pub fn as_value_ty(self) -> (r: Option<ScalarType>)
        ensures
            r == self.value_spec(),
    {
        match self {
            ExprType::Value(ty) => Some(ty),
            ExprType::Void => None,
        }
    }

    pub open spec fn descr_spec(self) -> Seq<char> {
        match self {
            ExprType::Value(ty) => ty.descr_spec(),
            ExprType::Void => "void"@,
        }
    }

    /// The type in words, for use in a sentence.
    pub fn descr(self) -> (r: &'static str)
        ensures
            r@ == self.descr_spec(),
    {
        match self {
            ExprType::Value(ty) => ty.descr(),
            ExprType::Void => "void",
        }
    }
}

} // verus!
