//! Lowering of unary operators.
use crate::cil_node::{CILNode, HelperClass, HelperMethod};
use crate::ty::{is_fat_pointee, IntTy, Ty, UintTy};
use vstd::prelude::*;

verus! {

#[derive(Clone, Copy, Debug, PartialEq, Eq, Structural)]
pub enum UnOp {
    /// Arithmetic negation.
    Neg,
    /// Logical or bitwise complement.
    Not,
    /// The metadata word of a fat pointer.
    PtrMetadata,
}

/// The instruction tree for `op` applied to `operand`, a value of type `ty`.
/// 128-bit integers have no native instructions and call helper methods;
/// narrow signed integers are widened before negation; `!` on a bool
/// compares with false.
pub open spec fn unop_of(op: UnOp, operand: CILNode, ty: Ty) -> CILNode {
    match op {
        UnOp::Neg => match ty {
            Ty::Int(IntTy::I128) => CILNode::CallHelper {
                class: HelperClass::Int128,
                method: HelperMethod::UnaryNegation,
                arg: Box::new(operand),
            },
            Ty::Int(IntTy::I8) => CILNode::Neg(Box::new(CILNode::ConvI8(Box::new(operand)))),
            Ty::Int(IntTy::I16) => CILNode::Neg(Box::new(CILNode::ConvI16(Box::new(operand)))),
            Ty::Uint(UintTy::U128) => CILNode::CallHelper {
                class: HelperClass::UInt128,
                method: HelperMethod::UnaryNegation,
                arg: Box::new(operand),
            },
            _ => CILNode::Neg(Box::new(operand)),
        },
        UnOp::Not => match ty {
            Ty::Bool => CILNode::Eq(Box::new(CILNode::LdFalse), Box::new(operand)),
            Ty::Uint(UintTy::U128) => CILNode::CallHelper {
                class: HelperClass::UInt128,
                method: HelperMethod::OnesComplement,
                arg: Box::new(operand),
            },
            Ty::Int(IntTy::I128) => CILNode::CallHelper {
                class: HelperClass::Int128,
                method: HelperMethod::OnesComplement,
                arg: Box::new(operand),
            },
            _ => CILNode::Not(Box::new(operand)),
        },
        UnOp::PtrMetadata => CILNode::LdMetadata(Box::new(operand)),
    }
}

/// Metadata can only be read from a fat pointer.
pub open spec fn is_fat_pointer(ty: Ty) -> bool {
    match ty {
        Ty::Ref(_, p) => is_fat_pointee(*p),
        Ty::RawPtr(_, p) => is_fat_pointee(*p),
        _ => false,
    }
}

/// Implements a unary operation on `operand`, a value of type `ty`.
pub fn unop(unnop: UnOp, operand: CILNode, ty: &Ty) -> (r: CILNode)
    requires
        unnop is PtrMetadata ==> is_fat_pointer(*ty),
    ensures
        r == unop_of(unnop, operand, *ty),
{
    match unnop {
        UnOp::Neg => match ty {
            Ty::Int(IntTy::I128) => CILNode::CallHelper {
                class: HelperClass::Int128,
                method: HelperMethod::UnaryNegation,
                arg: Box::new(operand),
            },
            Ty::Int(IntTy::I8) => CILNode::Neg(Box::new(CILNode::ConvI8(Box::new(operand)))),
            Ty::Int(IntTy::I16) => CILNode::Neg(Box::new(CILNode::ConvI16(Box::new(operand)))),
            Ty::Uint(UintTy::U128) => CILNode::CallHelper {
                class: HelperClass::UInt128,
                method: HelperMethod::UnaryNegation,
                arg: Box::new(operand),
            },
            _ => CILNode::Neg(Box::new(operand)),
        },
        UnOp::Not => match ty {
            Ty::Bool => CILNode::Eq(Box::new(CILNode::LdFalse), Box::new(operand)),
            Ty::Uint(UintTy::U128) => CILNode::CallHelper {
                class: HelperClass::UInt128,
                method: HelperMethod::OnesComplement,
                arg: Box::new(operand),
            },
            Ty::Int(IntTy::I128) => CILNode::CallHelper {
                class: HelperClass::Int128,
                method: HelperMethod::OnesComplement,
                arg: Box::new(operand),
            },
            _ => CILNode::Not(Box::new(operand)),
        },
        UnOp::PtrMetadata => CILNode::LdMetadata(Box::new(operand)),
    }
}

} // verus!
