//! The JIB abstract syntax tree, as the pretty printer reads it.
//!
//! Identifiers, labels and strings are held as their text. A literal, an
//! operator and a polymorphic type variable are held as the text of their
//! `Debug` rendering, which is all the printer reads of them.
use vstd::prelude::*;

use crate::text::BigInt;

verus! {

/// A JIB type.
#[derive(Debug)]
pub enum Type {
    Lint,
    Fint(i64),
    /// A type-level integer constant, of any size.
    Constant(BigInt),
    Lbits,
    Sbits(i64),
    Fbits(i64),
    Unit,
    Bool,
    Bit,
    String,
    Real,
    Float(i64),
    RoundingMode,
    Tup(Vec<Type>),
    Enum(String),
    Struct(String),
    Variant(String),
    Vector(Box<Type>),
    Fvector(i64, Box<Type>),
    List(Box<Type>),
    Ref(Box<Type>),
    /// A type variable, by the `Debug` text of its kind identifier.
    Poly(String),
}

/// A JIB name.
#[derive(Debug)]
pub enum Name {
    Global(String),
    Name(String),
    HaveException,
    CurrentException,
    ThrowLocation,
    Return,
}

/// A JIB place expression.
#[derive(Debug)]
pub enum Expression {
    Id(Name),
    Rmw,
    Field(Box<Expression>, String),
    Addr(Box<Expression>),
    Tuple,
    Void,
}

/// A field of a struct literal.
#[derive(Debug)]
pub struct FieldValue {
    pub name: String,
    pub value: Value,
}

/// A JIB value.
#[derive(Debug)]
pub enum Value {
    Id(Name),
    /// A literal, by its `Debug` text.
    Lit(String),
    /// An operator, by its `Debug` text, applied to its arguments.
    Call(String, Vec<Value>),
    Tuple,
    /// A struct literal and its type.
    Struct(Vec<FieldValue>, Type),
    /// Whether a value is built by a constructor (with its type unifiers).
    CtorKind(Box<Value>, String, Vec<Type>),
    /// The payload of a value built by a constructor (with its type unifiers).
    CtorUnwrap(Box<Value>, String, Vec<Type>),
    TupleMember,
    Field(Box<Value>, String),
}

/// A JIB instruction.
#[derive(Debug)]
pub enum Instruction {
    Block(Vec<Instruction>),
    Decl(Type, Name),
    Copy(Expression, Value),
    Clear(Name),
    /// `result = function(arguments)`.
    Funcall(Expression, String, Vec<Value>),
    Goto(String),
    Label(String),
    /// Condition, then-branch, else-branch.
    If(Value, Vec<Instruction>, Vec<Instruction>),
    Init,
    Jump(Value, String),
    Undefined,
    Exit(String),
    End(Name),
    TryBlock(Vec<Instruction>),
    Throw,
    Comment(String),
    Raw,
    Return,
    Reset,
    Reinit,
}

/// A field of a struct or union type definition.
#[derive(Debug)]
pub struct FieldType {
    pub name: String,
    pub typ: Type,
}

/// A type definition.
#[derive(Debug)]
pub enum TypeDefinition {
    Enum(String, Vec<String>),
    Struct(String, Vec<FieldType>),
    Variant(String, Vec<FieldType>),
}

/// A top-level JIB definition.
#[derive(Debug)]
pub enum Definition {
    /// A register and its type.
    RegDec(String, Type),
    Type(TypeDefinition),
    /// The names bound, and the instructions that compute them.
    Let(Vec<String>, Vec<Instruction>),
    /// A function declaration: name, external name, argument types, result type.
    Spec(String, Option<String>, Vec<Type>, Type),
    /// A function definition: name, argument names, body.
    Fundef(String, Vec<String>, Vec<Instruction>),
    Startup,
    Finish,
    /// A pragma: key and value.
    Pragma(String, String),
}

} // verus!
