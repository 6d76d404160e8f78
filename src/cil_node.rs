//! Instruction subtrees produced by place and operator lowering.
use crate::variable::Type;
use vstd::prelude::*;

verus! {

/// The width and kind of a typed load or store through a pointer.
#[derive(Clone, Copy, Debug, PartialEq, Eq, Structural, Hash)]
pub enum IndKind {
    I8,
    I16,
    I32,
    I64,
    ISize,
    U8,
    U16,
    U32,
    U64,
    USize,
    F32,
    F64,
    Bool,
}

/// The runtime helper types that stand in for 128-bit integers.
#[derive(Clone, Copy, Debug, PartialEq, Eq, Structural)]
pub enum HelperClass {
    Int128,
    UInt128,
}

/// Static methods of the helper types.
#[derive(Clone, Copy, Debug, PartialEq, Eq, Structural)]
pub enum HelperMethod {
    UnaryNegation,
    OnesComplement,
}

/// A value-producing instruction tree.
#[derive(Debug)]
pub enum CILNode {
    /// The value of a local.
    LdLoc(u32),
    /// The address of a local's storage slot.
    LdLocA(u32),
    LdConstU64(u64),
    LdFalse,
    ConvUSize(Box<CILNode>),
    ConvI8(Box<CILNode>),
    ConvI16(Box<CILNode>),
    /// Reinterprets an integer as a pointer to `pointee`.
    TransmutePtr { val: Box<CILNode>, pointee: Box<Type> },
    /// A typed load of a primitive.
    LdInd { ptr: Box<CILNode>, kind: IndKind },
    /// An untyped-object load of a whole value of type `obj`.
    LdObj { ptr: Box<CILNode>, obj: Box<Type> },
    /// A load of a thin pointer whose type is `loaded_ptr`.
    LdIndPtr { ptr: Box<CILNode>, loaded_ptr: Box<Type> },
    /// The data address held by a fat pointer.
    LdDataPtr(Box<CILNode>),
    /// The metadata word held by a fat pointer.
    LdMetadata(Box<CILNode>),
    /// The address of field `field` of the `owner` value at `addr`.
    FieldAddr { addr: Box<CILNode>, owner: Box<Type>, field: u32 },
    /// The value of field `field` of the `owner` value at `addr`.
    LdField { addr: Box<CILNode>, owner: Box<Type>, field: u32 },
    /// The address of element `index` of an `elem` sequence starting at `addr`.
    ElemAddr { addr: Box<CILNode>, index: Box<CILNode>, elem: Box<Type> },
    Neg(Box<CILNode>),
    Not(Box<CILNode>),
    Eq(Box<CILNode>, Box<CILNode>),
    /// A call of a static method of a runtime helper type.
    CallHelper { class: HelperClass, method: HelperMethod, arg: Box<CILNode> },
}

/// A statement tree with no resulting value.
#[derive(Debug)]
pub enum CILStmt {
    SetLoc { local: u32, val: Box<CILNode> },
    StObj { addr: Box<CILNode>, val: Box<CILNode>, obj: Box<Type> },
}

} // verus!
