//! The syntax model of one parsed schema file: top-level definitions,
//! member declarations, type specifiers, enum/struct/union bodies and values.
//! Bodies own their children; the tree is finite and never shared.

use vstd::prelude::*;

verus! {

/// A name together with its `[start, end)` byte span in one source file.
#[derive(Debug)]
pub struct Identifier {
    pub id: String,
    pub start: usize,
    pub end: usize,
}

/// Either a literal constant token or a use of another identifier
/// (enum-case tags, array sizes, union discriminants).
#[derive(Debug)]
pub enum Value {
    Id(Identifier),
    Const(String),
}

/// One member of an enum body: the member name and its assigned value.
#[derive(Debug)]
pub struct EnumAssign {
    pub id: Identifier,
    pub val: Value,
}

/// An enum body: its members in source order.
#[derive(Debug)]
pub struct EnumBody {
    pub body: Vec<EnumAssign>,
}

/// A struct body: its member declarations in source order.
#[derive(Debug)]
pub struct StructBody {
    pub body: Vec<Declaration>,
}

/// A union body: a discriminant declaration, guarded cases in source order,
/// and an optional default declaration. Boxes break the recursion.
#[derive(Debug)]
pub struct UnionBody {
    pub discriminant: Box<Declaration>,
    pub cases: Vec<CaseSpec>,
    pub default: Option<Box<Declaration>>,
}

/// One case of a union body: its guard values and the case's declaration.
#[derive(Debug)]
pub struct CaseSpec {
    pub values: Vec<Value>,
    pub decl: Declaration,
}

/// The type in a declaration: a built-in primitive name, an inline
/// enum/struct/union body, or a named reference to a declared type.
#[derive(Debug)]
pub enum TypeSpecifier {
    BuiltIn(String),
    Enum(EnumBody),
    Struct(StructBody),
    Union(UnionBody),
    Ident(Identifier),
}

/// A field or member declaration.
#[derive(Debug)]
pub enum Declaration {
    Normal { ty: TypeSpecifier, id: Identifier },
    FixedArr { ty: TypeSpecifier, id: Identifier, size: Value },
    VarArr { ty: TypeSpecifier, id: Identifier, size: Option<Value> },
    FixedOpaque { id: Identifier, size: Value },
    VarOpaque { id: Identifier, size: Option<Value> },
    String { id: Identifier, size: Option<Value> },
    Optional { ty: TypeSpecifier, id: Identifier },
    VOID,
}

/// A top-level named item: constant, type alias, enum, struct or union.
#[derive(Debug)]
pub enum Definition {
    Constant { id: Identifier, val: String },
    TypeDef(Declaration),
    Enum { id: Identifier, body: EnumBody },
    Struct { id: Identifier, body: StructBody },
    Union { id: Identifier, body: UnionBody },
}

/// One parsed schema file: its top-level definitions in source order.
#[derive(Debug)]
pub struct Specification {
    pub defns: Vec<Definition>,
}

} // verus!
