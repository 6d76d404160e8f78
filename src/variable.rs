//! Target-side type descriptors: lowering from source types and canonical
//! naming.
use crate::text::{decimal, decimal_string, remove_quotes, strip_quotes};
use crate::ty::{is_fat_pointee, AdtKind, FloatTy, IntTy, Mutability, Ty, UintTy};
use vstd::prelude::*;
use vstd::string::*;

verus! {

/// A construct that lowering has no rule for. Lowering of the enclosing unit
/// stops when one is met.
#[derive(Clone, Copy, Debug, PartialEq, Eq, Structural)]
pub enum LoweringError {
    Char,
    Str,
    Foreign,
    Never,
    HalfFloat,
    QuadFloat,
    Union,
    Enum,
    FnPtr,
    Closure,
    Dynamic,
    /// A tuple of more than seven elements.
    TupleTooLarge,
    /// A projection kind that address lowering has no rule for.
    Projection,
    /// A target type with no indirect load or store instruction.
    NoIndirectOp,
}

pub const MAX_TUPLE_ELEMENTS: usize = 7;

enum TypePrefix {
    ValueType,
}

impl TypePrefix {
    fn il(&self) -> (r: String)
        ensures
            r@ == "valuetype"@,
    {
        match self {
            TypePrefix::ValueType => String::from_str("valuetype"),
        }
    }
}

/// A legacy single-instruction operation on a pointed-to value.
#[derive(Debug, PartialEq, Eq)]
pub enum BaseIR {
    LDIndI,
    LDIndIn(u8),
    LDIndR8,
    LDIndR4,
    LDObj(String),
    LDConstI8(i8),
    SizeOf(String),
    STIndI,
    STIndIn(u8),
    STIndR8,
    STIndR4,
    STObj(String),
}

#[derive(Debug)]
pub enum VariableType {
    Void,
    I8,
    I16,
    I32,
    I64,
    I128,
    ISize,
    U8,
    U16,
    U32,
    U64,
    U128,
    USize,
    F32,
    F64,
    Bool,
    Ref(Box<VariableType>),
    RefMut(Box<VariableType>),
    Array { element: Box<VariableType>, length: usize },
    Slice(Box<VariableType>),
    Struct(String),
    Tuple(Vec<VariableType>),
    Generic(String),
}

pub open spec fn int_var(i: IntTy) -> VariableType {
    match i {
        IntTy::I8 => VariableType::I8,
        IntTy::I16 => VariableType::I16,
        IntTy::I32 => VariableType::I32,
        IntTy::I64 => VariableType::I64,
        IntTy::I128 => VariableType::I128,
        IntTy::Isize => VariableType::ISize,
    }
}

pub open spec fn uint_var(u: UintTy) -> VariableType {
    match u {
        UintTy::U8 => VariableType::U8,
        UintTy::U16 => VariableType::U16,
        UintTy::U32 => VariableType::U32,
        UintTy::U64 => VariableType::U64,
        UintTy::U128 => VariableType::U128,
        UintTy::Usize => VariableType::USize,
    }
}

/// The first construct, in source order, that keeps `t` from being lowered.
pub open spec fn lower_error(t: Ty) -> Option<LoweringError>
    decreases t, 0nat,
{
    match t {
        Ty::Int(_) | Ty::Uint(_) | Ty::Bool | Ty::Param(_) => None,
        Ty::Float(f) => match f {
            FloatTy::F16 => Some(LoweringError::HalfFloat),
            FloatTy::F128 => Some(LoweringError::QuadFloat),
            _ => None,
        },
        Ty::Char => Some(LoweringError::Char),
        Ty::Str => Some(LoweringError::Str),
        Ty::Never => Some(LoweringError::Never),
        Ty::Foreign => Some(LoweringError::Foreign),
        Ty::FnPtr => Some(LoweringError::FnPtr),
        Ty::Closure => Some(LoweringError::Closure),
        Ty::Dynamic => Some(LoweringError::Dynamic),
        Ty::Array(e, _) => lower_error(*e),
        Ty::Slice(e) => lower_error(*e),
        Ty::Ref(_, p) => lower_error(*p),
        Ty::RawPtr(_, p) => lower_error(*p),
        Ty::Adt { kind, .. } => match kind {
            AdtKind::Struct => None,
            AdtKind::Union => Some(LoweringError::Union),
            AdtKind::Enum => Some(LoweringError::Enum),
        },
        Ty::Tuple(ts) => if ts@.len() > MAX_TUPLE_ELEMENTS {
            Some(LoweringError::TupleTooLarge)
        } else {
            elements_error(ts, ts@.len())
        },
    }
}

/// The first error among the first `n` elements of `ts`.
pub open spec fn elements_error(ts: Vec<Ty>, n: nat) -> Option<LoweringError>
    decreases ts, n,
{
    if n == 0 || n > ts@.len() {
        None
    } else {
        match elements_error(ts, (n - 1) as nat) {
            Some(e) => Some(e),
            None => lower_error(ts@[n - 1]),
        }
    }
}

/// `v` is the descriptor that source type `t` lowers to. Lifetimes are
/// dropped; raw pointers lower like references.
pub open spec fn lowers(t: Ty, v: VariableType) -> bool
    decreases t,
{
    match t {
        Ty::Int(i) => v == int_var(i),
        Ty::Uint(u) => v == uint_var(u),
        Ty::Float(f) => match f {
            FloatTy::F32 => v is F32,
            FloatTy::F64 => v is F64,
            _ => false,
        },
        Ty::Bool => v is Bool,
        Ty::Param(n) => v == VariableType::Generic(n),
        Ty::Adt { name, kind, .. } => kind is Struct && v == VariableType::Struct(name),
        Ty::Array(e, n) => match v {
            VariableType::Array { element, length } => length == n && lowers(*e, *element),
            _ => false,
        },
        Ty::Slice(e) => match v {
            VariableType::Slice(x) => lowers(*e, *x),
            _ => false,
        },
        Ty::Ref(m, p) => match v {
            VariableType::Ref(x) => m is Not && lowers(*p, *x),
            VariableType::RefMut(x) => m is Mut && lowers(*p, *x),
            _ => false,
        },
        Ty::RawPtr(m, p) => match v {
            VariableType::Ref(x) => m is Not && lowers(*p, *x),
            VariableType::RefMut(x) => m is Mut && lowers(*p, *x),
            _ => false,
        },
        Ty::Tuple(ts) => if ts@.len() == 0 {
            v is Void
        } else {
            match v {
                VariableType::Tuple(vs) => {
                    &&& ts@.len() <= MAX_TUPLE_ELEMENTS
                    &&& vs@.len() == ts@.len()
                    &&& forall|i: int| 0 <= i < ts@.len() ==> lowers(#[trigger] ts@[i], vs@[i])
                },
                _ => false,
            }
        },
        _ => false,
    }
}

impl VariableType {
    /// Every tuple inside has between one and seven elements.
    pub open spec fn wf(self) -> bool
        decreases self,
    {
        match self {
            VariableType::Ref(x) => x.wf(),
            VariableType::RefMut(x) => x.wf(),
            VariableType::Array { element, .. } => element.wf(),
            VariableType::Slice(x) => x.wf(),
            VariableType::Tuple(vs) => {
                &&& 1 <= vs@.len() <= MAX_TUPLE_ELEMENTS
                &&& forall|i: int| 0 <= i < vs@.len() ==> (#[trigger] vs@[i]).wf()
            },
            _ => true,
        }
    }
}

/// The canonical name of a descriptor, used for emission and for type
/// identity.
pub open spec fn name_of(v: VariableType) -> Seq<char>
    decreases v, 0nat,
{
    match v {
        VariableType::Generic(n) => n@,
        VariableType::Void => "void"@,
        VariableType::I8 => "int8"@,
        VariableType::I16 => "int16"@,
        VariableType::I32 => "int32"@,
        VariableType::I64 => "int64"@,
        VariableType::I128 => "[System.Runtime]System.Int128"@,
        VariableType::ISize => "native int"@,
        VariableType::U8 => "uint8"@,
        VariableType::U16 => "uint16"@,
        VariableType::U32 => "uint32"@,
        VariableType::U64 => "uint64"@,
        VariableType::U128 => "[System.Runtime]System.UInt128"@,
        VariableType::USize => "native uint"@,
        VariableType::F32 => "float32"@,
        VariableType::F64 => "float64"@,
        VariableType::Bool => "bool"@,
        VariableType::Ref(x) => name_of(*x) + "*"@,
        VariableType::RefMut(x) => name_of(*x) + "*"@,
        VariableType::Struct(n) => n@,
        VariableType::Array { element, length } => "'RArray_"@ + strip_quotes(name_of(*element))
            + "_"@ + decimal(length as nat) + "'"@,
        VariableType::Slice(x) => "'RSlice_"@ + strip_quotes(name_of(*x)) + "'"@,
        VariableType::Tuple(vs) => "[System.Runtime]System.ValueTuple`"@ + decimal(vs@.len())
            + "<"@ + joined_names(vs, vs@.len()) + ">"@,
    }
}

/// The names of the first `n` elements of `vs`, separated by commas.
pub open spec fn joined_names(vs: Vec<VariableType>, n: nat) -> Seq<char>
    decreases vs, n,
{
    if n == 0 || n > vs@.len() {
        Seq::empty()
    } else if n == 1 {
        name_of(vs@[0])
    } else {
        joined_names(vs, (n - 1) as nat) + ","@ + name_of(vs@[n - 1])
    }
}

/// The name used for `v` in an argument position: tuples are value types.
pub open spec fn arg_name_of(v: VariableType) -> Seq<char> {
    if v is Tuple {
        "valuetype "@ + name_of(v)
    } else {
        name_of(v)
    }
}

/// Once an error is found among the first `k` elements, it stays the first
/// error of every longer prefix.
proof fn lemma_elements_error_prefix(ts: Vec<Ty>, k: nat, m: nat)
    requires
        k <= m <= ts@.len(),
        elements_error(ts, k) is Some,
    ensures
        elements_error(ts, m) == elements_error(ts, k),
    decreases m - k,
{
    if k < m {
        lemma_elements_error_prefix(ts, k, (m - 1) as nat);
    }
}

/// Lowering is deterministic up to naming: two descriptors that the same
/// source type lowers to have the same canonical name.
pub proof fn lemma_lowering_names_agree(t: Ty, v1: VariableType, v2: VariableType)
    requires
        lowers(t, v1),
        lowers(t, v2),
    ensures
        name_of(v1) == name_of(v2),
    decreases t, 0nat,
{
    match t {
        Ty::Array(e, _) => {
            if let (VariableType::Array { element: a, .. }, VariableType::Array { element: b, .. }) = (v1, v2) {
                lemma_lowering_names_agree(*e, *a, *b);
            }
        },
        Ty::Slice(e) => {
            if let (VariableType::Slice(a), VariableType::Slice(b)) = (v1, v2) {
                lemma_lowering_names_agree(*e, *a, *b);
            }
        },
        Ty::Ref(_, p) | Ty::RawPtr(_, p) => {
            match (v1, v2) {
                (VariableType::Ref(a), VariableType::Ref(b)) => lemma_lowering_names_agree(*p, *a, *b),
                (VariableType::RefMut(a), VariableType::RefMut(b)) => lemma_lowering_names_agree(*p, *a, *b),
                _ => {},
            }
        },
        Ty::Tuple(ts) => {
            if let (VariableType::Tuple(a), VariableType::Tuple(b)) = (v1, v2) {
                lemma_joined_names_agree(ts, a, b, ts@.len());
            }
        },
        _ => {},
    }
}

proof fn lemma_joined_names_agree(ts: Vec<Ty>, a: Vec<VariableType>, b: Vec<VariableType>, n: nat)
    requires
        n <= ts@.len(),
        a@.len() == ts@.len(),
        b@.len() == ts@.len(),
        forall|i: int| 0 <= i < ts@.len() ==> lowers(#[trigger] ts@[i], a@[i]),
        forall|i: int| 0 <= i < ts@.len() ==> lowers(#[trigger] ts@[i], b@[i]),
    ensures
        joined_names(a, n) == joined_names(b, n),
    decreases ts, n,
{
    if n > 0 {
        lemma_joined_names_agree(ts, a, b, (n - 1) as nat);
        assert(decreases_to!(ts => ts@[n - 1]));
        lemma_lowering_names_agree(ts@[n - 1], a@[n - 1], b@[n - 1]);
    }
}

/// A tuple of more than seven elements is refused; one of one to seven
/// lowerable elements is named after its arity and its elements' names, in
/// order.
pub proof fn lemma_tuple_arity_boundary(ts: Vec<Ty>, v: VariableType)
    ensures
        ts@.len() > MAX_TUPLE_ELEMENTS ==> lower_error(Ty::Tuple(ts)) == Some(LoweringError::TupleTooLarge),
        1 <= ts@.len() && lowers(Ty::Tuple(ts), v) ==> (v matches VariableType::Tuple(vs)
            && vs@.len() == ts@.len()
            && name_of(v) == "[System.Runtime]System.ValueTuple`"@ + decimal(ts@.len()) + "<"@
                + joined_names(vs, ts@.len()) + ">"@),
{
}

impl VariableType {
    /// Lowers a source type. Fails on the first construct without a rule.
    pub fn from_ty(ty: &Ty) -> (r: Result<VariableType, LoweringError>)
        ensures
            match r {
                Ok(v) => lower_error(*ty) is None && lowers(*ty, v) && v.wf(),
                Err(e) => lower_error(*ty) == Some(e),
            },
        decreases ty,
    {
        match ty {
            Ty::Int(i) => Ok(match i {
                IntTy::I8 => VariableType::I8,
                IntTy::I16 => VariableType::I16,
                IntTy::I32 => VariableType::I32,
                IntTy::I64 => VariableType::I64,
                IntTy::I128 => VariableType::I128,
                IntTy::Isize => VariableType::ISize,
            }),
            Ty::Uint(u) => Ok(match u {
                UintTy::U8 => VariableType::U8,
                UintTy::U16 => VariableType::U16,
                UintTy::U32 => VariableType::U32,
                UintTy::U64 => VariableType::U64,
                UintTy::U128 => VariableType::U128,
                UintTy::Usize => VariableType::USize,
            }),
            Ty::Float(f) => match f {
                FloatTy::F16 => Err(LoweringError::HalfFloat),
                FloatTy::F32 => Ok(VariableType::F32),
                FloatTy::F64 => Ok(VariableType::F64),
                FloatTy::F128 => Err(LoweringError::QuadFloat),
            },
            Ty::Bool => Ok(VariableType::Bool),
            Ty::Char => Err(LoweringError::Char),
            Ty::Str => Err(LoweringError::Str),
            Ty::Never => Err(LoweringError::Never),
            Ty::Foreign => Err(LoweringError::Foreign),
            Ty::FnPtr => Err(LoweringError::FnPtr),
            Ty::Closure => Err(LoweringError::Closure),
            Ty::Dynamic => Err(LoweringError::Dynamic),
            Ty::Param(name) => Ok(VariableType::Generic(name.clone())),
            Ty::Adt { name, kind, .. } => match kind {
                AdtKind::Struct => Ok(VariableType::Struct(name.clone())),
                AdtKind::Union => Err(LoweringError::Union),
                AdtKind::Enum => Err(LoweringError::Enum),
            },
            Ty::Array(element, length) => {
                let e = Self::from_ty(element)?;
                Ok(VariableType::Array { element: Box::new(e), length: *length })
            },
            Ty::Slice(element) => {
                let e = Self::from_ty(element)?;
                Ok(VariableType::Slice(Box::new(e)))
            },
            // There are no lifetimes in the target: only mutability is kept.
            Ty::Ref(m, pointee) | Ty::RawPtr(m, pointee) => {
                let p = Self::from_ty(pointee)?;
                match m {
                    Mutability::Mut => Ok(VariableType::RefMut(Box::new(p))),
                    Mutability::Not => Ok(VariableType::Ref(Box::new(p))),
                }
            },
            Ty::Tuple(elements) => {
                let n = elements.len();
                if n == 0 {
                    assert(elements_error(*elements, 0) is None);
                    return Ok(VariableType::Void);
                }
                if n > MAX_TUPLE_ELEMENTS {
                    return Err(LoweringError::TupleTooLarge);
                }
                let mut lowered: Vec<VariableType> = Vec::new();
                let mut i: usize = 0;
                while i < n
                    invariant
                        n == elements@.len(),
                        0 < n <= MAX_TUPLE_ELEMENTS,
                        *ty == Ty::Tuple(*elements),
                        i <= n,
                        lowered@.len() == i,
                        elements_error(*elements, i as nat) is None,
                        forall|j: int| 0 <= j < i ==> lowers(#[trigger] elements@[j], lowered@[j]),
                        forall|j: int| 0 <= j < i ==> (#[trigger] lowered@[j]).wf(),
                    decreases n - i,
                {
                    proof {
                        assert(decreases_to!(*elements => elements@[i as int]));
                    }
                    match Self::from_ty(&elements[i]) {
                        Ok(v) => lowered.push(v),
                        Err(e) => {
                            proof {
                                assert(elements_error(*elements, (i + 1) as nat) == Some(e));
                                lemma_elements_error_prefix(*elements, (i + 1) as nat, n as nat);
                            }
                            return Err(e);
                        },
                    }
                    i += 1;
                }
                Ok(VariableType::Tuple(lowered))
            },
        }
    }
}

impl VariableType {
    /// The canonical name of this descriptor.
    pub fn il_name(&self) -> (r: String)
        requires
            self.wf(),
        ensures
            r@ == name_of(*self),
        decreases self,
    {
        match self {
            VariableType::Generic(name) => name.clone(),
            VariableType::Void => String::from_str("void"),
            VariableType::I8 => String::from_str("int8"),
            VariableType::I16 => String::from_str("int16"),
            VariableType::I32 => String::from_str("int32"),
            VariableType::I64 => String::from_str("int64"),
            VariableType::I128 => String::from_str("[System.Runtime]System.Int128"),
            VariableType::ISize => String::from_str("native int"),
            VariableType::U8 => String::from_str("uint8"),
            VariableType::U16 => String::from_str("uint16"),
            VariableType::U32 => String::from_str("uint32"),
            VariableType::U64 => String::from_str("uint64"),
            VariableType::U128 => String::from_str("[System.Runtime]System.UInt128"),
            VariableType::USize => String::from_str("native uint"),
            VariableType::F32 => String::from_str("float32"),
            VariableType::F64 => String::from_str("float64"),
            VariableType::Bool => String::from_str("bool"),
            VariableType::Ref(inner) | VariableType::RefMut(inner) => {
                let mut r = inner.il_name();
                r.append("*");
                r
            },
            VariableType::Struct(name) => name.clone(),
            VariableType::Array { element, length } => {
                let element_il = element.il_name();
                let mut r = String::from_str("'RArray_");
                r.append(remove_quotes(element_il.as_str()).as_str());
                r.append("_");
                r.append(decimal_string(*length).as_str());
                r.append("'");
                r
            },
            VariableType::Slice(element) => {
                let element_il = element.il_name();
                let mut r = String::from_str("'RSlice_");
                r.append(remove_quotes(element_il.as_str()).as_str());
                r.append("'");
                r
            },
            VariableType::Tuple(elements) => {
                let n = elements.len();
                let mut inner = String::new();
                let mut i: usize = 0;
                while i < n
                    invariant
                        n == elements@.len(),
                        *self == VariableType::Tuple(*elements),
                        self.wf(),
                        i <= n,
                        inner@ == joined_names(*elements, i as nat),
                    decreases n - i,
                {
                    proof {
                        assert(decreases_to!(*elements => elements@[i as int]));
                        assert(elements@[i as int].wf());
                    }
                    if i > 0 {
                        inner.append(",");
                    }
                    inner.append(elements[i].il_name().as_str());
                    i += 1;
                }
                let mut r = String::from_str("[System.Runtime]System.ValueTuple`");
                r.append(decimal_string(n).as_str());
                r.append("<");
                r.append(inner.as_str());
                r.append(">");
                r
            },
        }
    }

    fn get_prefix(&self) -> (r: Option<TypePrefix>)
        ensures
            r is Some <==> self is Tuple,
    {
        match self {
            VariableType::Tuple(_) => Some(TypePrefix::ValueType),
            _ => None,
        }
    }

    /// The name of this descriptor in an argument position.
    pub fn arg_name(&self) -> (r: String)
        requires
            self.wf(),
        ensures
            r@ == arg_name_of(*self),
    {
        if let Some(prefix) = self.get_prefix() {
            let mut r = prefix.il();
            r.append(" ");
            r.append(self.il_name().as_str());
            proof {
                reveal_strlit("valuetype ");
                reveal_strlit("valuetype");
                reveal_strlit(" ");
                assert("valuetype "@ =~= "valuetype"@ + " "@);
            }
            r
        } else {
            self.il_name()
        }
    }

    pub open spec fn spec_is_void(&self) -> bool {
        self is Void
    }

    #[verifier::when_used_as_spec(spec_is_void)]
    pub fn is_void(&self) -> (r: bool)
        ensures
            r == self is Void,
    {
        matches!(self, VariableType::Void)
    }

    /// The pointee of a reference descriptor.
    pub fn get_pointed_type(&self) -> (r: Option<&VariableType>)
        ensures
            match *self {
                VariableType::Ref(inner) => r == Some(&*inner),
                VariableType::RefMut(inner) => r == Some(&*inner),
                _ => r is None,
            },
    {
        match self {
            VariableType::Ref(inner) => Some(&**inner),
            VariableType::RefMut(inner) => Some(&**inner),
            _ => None,
        }
    }
}

impl VariableType {
    /// For a type `T`, the operation that loads a `T` through a `T*`.
    pub fn deref_op(&self) -> (r: Result<BaseIR, LoweringError>)
        requires
            self.wf(),
        ensures
            match *self {
                VariableType::Ref(_) | VariableType::RefMut(_) => r == Ok::<BaseIR, LoweringError>(BaseIR::LDIndI),
                VariableType::I32 => r == Ok::<BaseIR, LoweringError>(BaseIR::LDIndIn(4)),
                VariableType::I64 => r == Ok::<BaseIR, LoweringError>(BaseIR::LDIndIn(8)),
                VariableType::F64 => r == Ok::<BaseIR, LoweringError>(BaseIR::LDIndR8),
                VariableType::F32 => r == Ok::<BaseIR, LoweringError>(BaseIR::LDIndR4),
                VariableType::Struct(name) => r matches Ok(BaseIR::LDObj(n)) && n@ == name@,
                VariableType::Array { .. } => r matches Ok(BaseIR::LDObj(n)) && n@ == name_of(*self),
                _ => r == Err::<BaseIR, LoweringError>(LoweringError::NoIndirectOp),
            },
    {
        match self {
            VariableType::Ref(_) | VariableType::RefMut(_) => Ok(BaseIR::LDIndI),
            VariableType::I32 => Ok(BaseIR::LDIndIn(4)),
            VariableType::I64 => Ok(BaseIR::LDIndIn(8)),
            VariableType::F64 => Ok(BaseIR::LDIndR8),
            VariableType::F32 => Ok(BaseIR::LDIndR4),
            VariableType::Struct(name) => Ok(BaseIR::LDObj(name.clone())),
            VariableType::Array { .. } => Ok(BaseIR::LDObj(self.il_name())),
            _ => Err(LoweringError::NoIndirectOp),
        }
    }

    /// The operation that pushes the size of a value of this type.
    pub fn sizeof_op(&self) -> (r: Result<BaseIR, LoweringError>)
        requires
            self.wf(),
        ensures
            match *self {
                VariableType::Ref(_) | VariableType::RefMut(_) => r == Ok::<BaseIR, LoweringError>(BaseIR::LDIndI),
                VariableType::I32 => r == Ok::<BaseIR, LoweringError>(BaseIR::LDConstI8(4)),
                VariableType::I64 => r == Ok::<BaseIR, LoweringError>(BaseIR::LDConstI8(8)),
                VariableType::F64 => r == Ok::<BaseIR, LoweringError>(BaseIR::LDConstI8(8)),
                VariableType::F32 => r == Ok::<BaseIR, LoweringError>(BaseIR::LDConstI8(4)),
                VariableType::Struct(name) => r matches Ok(BaseIR::SizeOf(n)) && n@ == name@,
                VariableType::Array { .. } => r matches Ok(BaseIR::SizeOf(n)) && n@ == name_of(*self),
                _ => r == Err::<BaseIR, LoweringError>(LoweringError::NoIndirectOp),
            },
    {
        match self {
            VariableType::Ref(_) | VariableType::RefMut(_) => Ok(BaseIR::LDIndI),
            VariableType::I32 => Ok(BaseIR::LDConstI8(4)),
            VariableType::I64 => Ok(BaseIR::LDConstI8(8)),
            VariableType::F64 => Ok(BaseIR::LDConstI8(8)),
            VariableType::F32 => Ok(BaseIR::LDConstI8(4)),
            VariableType::Struct(name) => Ok(BaseIR::SizeOf(name.clone())),
            VariableType::Array { .. } => Ok(BaseIR::SizeOf(self.il_name())),
            _ => Err(LoweringError::NoIndirectOp),
        }
    }

    /// For a type `T`, the operation that stores a `T` through a `T*`.
    pub fn set_pointed_op(&self) -> (r: Result<BaseIR, LoweringError>)
        requires
            self.wf(),
        ensures
            match *self {
                VariableType::Ref(_) | VariableType::RefMut(_) => r == Ok::<BaseIR, LoweringError>(BaseIR::STIndI),
                VariableType::I32 => r == Ok::<BaseIR, LoweringError>(BaseIR::STIndIn(4)),
                VariableType::I64 => r == Ok::<BaseIR, LoweringError>(BaseIR::STIndIn(8)),
                VariableType::F64 => r == Ok::<BaseIR, LoweringError>(BaseIR::STIndR8),
                VariableType::F32 => r == Ok::<BaseIR, LoweringError>(BaseIR::STIndR4),
                VariableType::Struct(name) => r matches Ok(BaseIR::STObj(n)) && n@ == name@,
                VariableType::Array { .. } => r matches Ok(BaseIR::STObj(n)) && n@ == name_of(*self),
                _ => r == Err::<BaseIR, LoweringError>(LoweringError::NoIndirectOp),
            },
    {
        match self {
            VariableType::Ref(_) | VariableType::RefMut(_) => Ok(BaseIR::STIndI),
            VariableType::I32 => Ok(BaseIR::STIndIn(4)),
            VariableType::I64 => Ok(BaseIR::STIndIn(8)),
            VariableType::F64 => Ok(BaseIR::STIndR8),
            VariableType::F32 => Ok(BaseIR::STIndR4),
            VariableType::Struct(name) => Ok(BaseIR::STObj(name.clone())),
            VariableType::Array { .. } => Ok(BaseIR::STObj(self.il_name())),
            _ => Err(LoweringError::NoIndirectOp),
        }
    }
}



/// The target's view of a source type, as carried by instructions. Unlike a
/// `VariableType`, every source type has one; lifetimes and mutability are
/// dropped, and a pointer records whether it carries metadata.
#[derive(Debug)]
pub enum Type {
    Void,
    Bool,
    Char,
    Int(IntTy),
    Uint(UintTy),
    Float(FloatTy),
    /// A thin pointer to the inner type.
    Ptr(Box<Type>),
    /// A pointer that carries a length or vtable beside the address.
    FatPtr(Box<Type>),
    Array(Box<Type>, usize),
    Slice(Box<Type>),
    Str,
    Dynamic,
    Foreign,
    Never,
    Tuple(Vec<Type>),
    Adt(String),
    Closure,
    FnPtr,
    Generic(String),
    /// One variant of the enum `Type`.
    Variant(Box<Type>, u32),
}

/// `d` is the label of source type `t`.
pub open spec fn describes(t: Ty, d: Type) -> bool
    decreases t,
{
    match t {
        Ty::Int(i) => d == Type::Int(i),
        Ty::Uint(u) => d == Type::Uint(u),
        Ty::Float(f) => d == Type::Float(f),
        Ty::Bool => d is Bool,
        Ty::Char => d is Char,
        Ty::Str => d is Str,
        Ty::Dynamic => d is Dynamic,
        Ty::Foreign => d is Foreign,
        Ty::Never => d is Never,
        Ty::Closure => d is Closure,
        Ty::FnPtr => d is FnPtr,
        Ty::Param(n) => d == Type::Generic(n),
        Ty::Adt { name, .. } => d == Type::Adt(name),
        Ty::Ref(_, p) | Ty::RawPtr(_, p) => match d {
            Type::FatPtr(x) => is_fat_pointee(*p) && describes(*p, *x),
            Type::Ptr(x) => !is_fat_pointee(*p) && describes(*p, *x),
            _ => false,
        },
        Ty::Array(e, n) => match d {
            Type::Array(x, m) => m == n && describes(*e, *x),
            _ => false,
        },
        Ty::Slice(e) => match d {
            Type::Slice(x) => describes(*e, *x),
            _ => false,
        },
        Ty::Tuple(ts) => if ts@.len() == 0 {
            d is Void
        } else {
            match d {
                Type::Tuple(ds) => ds@.len() == ts@.len() && forall|i: int|
                    0 <= i < ts@.len() ==> describes(#[trigger] ts@[i], ds@[i]),
                _ => false,
            }
        },
    }
}

/// The label of a source type.
pub fn type_from_cache(ty: &Ty) -> (r: Type)
    ensures
        describes(*ty, r),
    decreases ty,
{
    match ty {
        Ty::Int(i) => Type::Int(*i),
        Ty::Uint(u) => Type::Uint(*u),
        Ty::Float(f) => Type::Float(*f),
        Ty::Bool => Type::Bool,
        Ty::Char => Type::Char,
        Ty::Str => Type::Str,
        Ty::Dynamic => Type::Dynamic,
        Ty::Foreign => Type::Foreign,
        Ty::Never => Type::Never,
        Ty::Closure => Type::Closure,
        Ty::FnPtr => Type::FnPtr,
        Ty::Param(n) => Type::Generic(n.clone()),
        Ty::Adt { name, .. } => Type::Adt(name.clone()),
        Ty::Ref(_, p) | Ty::RawPtr(_, p) => {
            let inner = type_from_cache(p);
            if crate::ty::pointer_to_is_fat(p) {
                Type::FatPtr(Box::new(inner))
            } else {
                Type::Ptr(Box::new(inner))
            }
        },
        Ty::Array(e, n) => Type::Array(Box::new(type_from_cache(e)), *n),
        Ty::Slice(e) => Type::Slice(Box::new(type_from_cache(e))),
        Ty::Tuple(ts) => {
            let n = ts.len();
            if n == 0 {
                return Type::Void;
            }
            let mut ds: Vec<Type> = Vec::new();
            let mut i: usize = 0;
            while i < n
                invariant
                    n == ts@.len(),
                    0 < n,
                    *ty == Ty::Tuple(*ts),
                    i <= n,
                    ds@.len() == i,
                    forall|j: int| 0 <= j < i ==> describes(#[trigger] ts@[j], ds@[j]),
                decreases n - i,
            {
                proof {
                    assert(decreases_to!(*ts => ts@[i as int]));
                    // Unfolding `describes` at `ty` relates `ty` to its elements.
                    assert(describes(*ty, Type::Void) == (ts@.len() == 0));
                }
                let d = type_from_cache(&ts[i]);
                ds.push(d);
                i += 1;
            }
            Type::Tuple(ds)
        },
    }
}

} // verus!
