//! The source-side type vocabulary: what the host compiler reports about a
//! type, as plain values.
use vstd::prelude::*;

verus! {

#[derive(Clone, Copy, Debug, PartialEq, Eq, Structural)]
pub enum IntTy {
    I8,
    I16,
    I32,
    I64,
    I128,
    Isize,
}

#[derive(Clone, Copy, Debug, PartialEq, Eq, Structural)]
pub enum UintTy {
    U8,
    U16,
    U32,
    U64,
    U128,
    Usize,
}

#[derive(Clone, Copy, Debug, PartialEq, Eq, Structural)]
pub enum FloatTy {
    F16,
    F32,
    F64,
    F128,
}

#[derive(Clone, Copy, Debug, PartialEq, Eq, Structural)]
pub enum Mutability {
    Not,
    Mut,
}

#[derive(Clone, Copy, Debug, PartialEq, Eq, Structural)]
pub enum AdtKind {
    Struct,
    Union,
    Enum,
}

/// A source type, already monomorphic unless it is a `Param`.
///
/// `Adt` carries the field types of each variant; a struct has exactly one.
#[derive(Debug)]
pub enum Ty {
    Int(IntTy),
    Uint(UintTy),
    Float(FloatTy),
    Bool,
    Char,
    Str,
    Never,
    Foreign,
    Array(Box<Ty>, usize),
    Slice(Box<Ty>),
    Tuple(Vec<Ty>),
    Adt { name: String, kind: AdtKind, variants: Vec<Vec<Ty>> },
    Ref(Mutability, Box<Ty>),
    RawPtr(Mutability, Box<Ty>),
    FnPtr,
    Closure,
    Dynamic,
    Param(String),
}

/// A type is unsized when its values have no size known from the type: a
/// slice, `str`, a trait object, or a struct or tuple whose last field is
/// unsized. A pointer to an unsized type carries metadata (a length or a
/// vtable) beside the address.
pub open spec fn is_fat_pointee(t: Ty) -> bool
    decreases t,
{
    match t {
        Ty::Slice(_) | Ty::Str | Ty::Dynamic => true,
        Ty::Tuple(ts) => ts@.len() > 0 && is_fat_pointee(ts@[ts@.len() - 1]),
        Ty::Adt { kind, variants, .. } => kind is Struct && variants@.len() == 1 && variants@[0]@.len() > 0
            && is_fat_pointee(variants@[0]@[variants@[0]@.len() - 1]),
        _ => false,
    }
}

/// Whether a pointer to `pointee` is a two-word ("fat") value.
pub fn pointer_to_is_fat(pointee: &Ty) -> (r: bool)
    ensures
        r == is_fat_pointee(*pointee),
    decreases pointee,
{
    match pointee {
        Ty::Slice(_) | Ty::Str | Ty::Dynamic => true,
        Ty::Tuple(ts) => {
            let n = ts.len();
            if n == 0 {
                false
            } else {
                proof {
                    assert(decreases_to!(*ts => ts@[n - 1]));
                }
                pointer_to_is_fat(&ts[n - 1])
            }
        },
        Ty::Adt { kind, variants, .. } => {
            if !matches!(kind, AdtKind::Struct) || variants.len() != 1 {
                return false;
            }
            let fields = &variants[0];
            let n = fields.len();
            if n == 0 {
                false
            } else {
                proof {
                    assert(decreases_to!(*variants => variants@[0]));
                    assert(decreases_to!(variants@[0] => fields@[n - 1]));
                }
                pointer_to_is_fat(&fields[n - 1])
            }
        },
        _ => false,
    }
}

/// The size and alignment that the host compiler's layout query reports.
#[derive(Clone, Copy, Debug, PartialEq, Eq, Structural)]
pub struct Layout {
    pub size: u64,
    pub align: u64,
}

impl Layout {
    pub open spec fn spec_is_zst(&self) -> bool {
        self.size == 0
    }

    #[verifier::when_used_as_spec(spec_is_zst)]
    pub fn is_zst(&self) -> (r: bool)
        ensures
            r == self.spec_is_zst(),
    {
        self.size == 0
    }
}

} // verus!
