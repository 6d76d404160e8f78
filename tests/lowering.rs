use codegen_clr::cil_node::{CILNode, CILStmt, HelperClass, HelperMethod, IndKind};
use codegen_clr::place::{deref_op, place_address_raw, place_adress, place_set, Body, Place, PlaceElem, PlaceTy};
use codegen_clr::ty::{AdtKind, FloatTy, IntTy, Layout, Mutability, Ty, UintTy};
use codegen_clr::unop::{unop, UnOp};
use codegen_clr::variable::{type_from_cache, BaseIR, LoweringError, Type, VariableType};

fn i32_ty() -> Ty {
    Ty::Int(IntTy::I32)
}

fn name_of(t: &Ty) -> String {
    VariableType::from_ty(t).unwrap().il_name()
}

fn tuple_of(n: usize) -> Ty {
    Ty::Tuple((0..n).map(|_| i32_ty()).collect())
}

#[test]
fn primitive_names() {
    assert_eq!(name_of(&Ty::Int(IntTy::I8)), "int8");
    assert_eq!(name_of(&Ty::Uint(UintTy::Usize)), "native uint");
    assert_eq!(name_of(&Ty::Int(IntTy::I128)), "[System.Runtime]System.Int128");
    assert_eq!(name_of(&Ty::Float(FloatTy::F64)), "float64");
    assert_eq!(name_of(&Ty::Bool), "bool");
    assert_eq!(name_of(&Ty::Tuple(vec![])), "void");
}

#[test]
fn reference_names_drop_mutability() {
    let r = Ty::Ref(Mutability::Mut, Box::new(Ty::Uint(UintTy::U8)));
    assert!(matches!(VariableType::from_ty(&r), Ok(VariableType::RefMut(_))));
    assert_eq!(name_of(&r), "uint8*");
    let p = Ty::RawPtr(Mutability::Not, Box::new(Ty::Uint(UintTy::U8)));
    assert_eq!(name_of(&p), "uint8*");
}

#[test]
fn array_and_slice_names_strip_quotes() {
    let inner = Ty::Array(Box::new(i32_ty()), 3);
    assert_eq!(name_of(&inner), "'RArray_int32_3'");
    let outer = Ty::Array(Box::new(Ty::Array(Box::new(i32_ty()), 3)), 12);
    assert_eq!(name_of(&outer), "'RArray_RArray_int32_3_12'");
    let slice = Ty::Slice(Box::new(Ty::Array(Box::new(i32_ty()), 3)));
    assert_eq!(name_of(&slice), "'RSlice_RArray_int32_3'");
}

#[test]
fn struct_and_generic_names() {
    let s = Ty::Adt { name: "Point".to_string(), kind: AdtKind::Struct, variants: vec![vec![i32_ty()]] };
    assert_eq!(name_of(&s), "Point");
    assert_eq!(name_of(&Ty::Param("T".to_string())), "T");
}

#[test]
fn tuple_of_seven_lowers() {
    let t = Ty::Tuple(vec![
        Ty::Int(IntTy::I8),
        Ty::Int(IntTy::I16),
        Ty::Int(IntTy::I32),
        Ty::Int(IntTy::I64),
        Ty::Uint(UintTy::U8),
        Ty::Bool,
        Ty::Float(FloatTy::F32),
    ]);
    assert_eq!(
        name_of(&t),
        "[System.Runtime]System.ValueTuple`7<int8,int16,int32,int64,uint8,bool,float32>"
    );
    assert_eq!(
        VariableType::from_ty(&t).unwrap().arg_name(),
        "valuetype [System.Runtime]System.ValueTuple`7<int8,int16,int32,int64,uint8,bool,float32>"
    );
}

#[test]
fn tuple_of_eight_fails() {
    assert!(matches!(VariableType::from_ty(&tuple_of(8)), Err(LoweringError::TupleTooLarge)));
    assert!(VariableType::from_ty(&tuple_of(7)).is_ok());
}

#[test]
fn lowering_twice_names_alike() {
    let t = Ty::Slice(Box::new(Ty::Array(Box::new(Ty::Tuple(vec![i32_ty(), Ty::Bool])), 10)));
    let first = name_of(&t);
    let second = name_of(&t);
    assert_eq!(first, second);
    assert_eq!(first, "'RSlice_RArray_[System.Runtime]System.ValueTuple`2<int32,bool>_10'");
}

#[test]
fn unsupported_types_fail() {
    assert!(matches!(VariableType::from_ty(&Ty::Char), Err(LoweringError::Char)));
    assert!(matches!(VariableType::from_ty(&Ty::Str), Err(LoweringError::Str)));
    let e = Ty::Adt { name: "Option".to_string(), kind: AdtKind::Enum, variants: vec![] };
    assert!(matches!(VariableType::from_ty(&e), Err(LoweringError::Enum)));
    let u = Ty::Adt { name: "U".to_string(), kind: AdtKind::Union, variants: vec![] };
    assert!(matches!(VariableType::from_ty(&u), Err(LoweringError::Union)));
    let nested = Ty::Tuple(vec![i32_ty(), Ty::Float(FloatTy::F16)]);
    assert!(matches!(VariableType::from_ty(&nested), Err(LoweringError::HalfFloat)));
}

#[test]
fn legacy_ops() {
    assert_eq!(VariableType::I32.deref_op(), Ok(BaseIR::LDIndIn(4)));
    assert_eq!(VariableType::I64.sizeof_op(), Ok(BaseIR::LDConstI8(8)));
    assert_eq!(
        VariableType::Ref(Box::new(VariableType::Bool)).sizeof_op(),
        Ok(BaseIR::LDIndI)
    );
    assert_eq!(VariableType::F32.set_pointed_op(), Ok(BaseIR::STIndR4));
    assert_eq!(VariableType::Ref(Box::new(VariableType::Bool)).deref_op(), Ok(BaseIR::LDIndI));
    let arr = VariableType::Array { element: Box::new(VariableType::U8), length: 2 };
    assert_eq!(arr.deref_op(), Ok(BaseIR::LDObj("'RArray_uint8_2'".to_string())));
    assert_eq!(VariableType::Bool.deref_op(), Err(LoweringError::NoIndirectOp));
    assert!(VariableType::Void.is_void());
    assert!(VariableType::Ref(Box::new(VariableType::Bool)).get_pointed_type().is_some());
    assert!(VariableType::Bool.get_pointed_type().is_none());
}

#[test]
fn deref_primitives() {
    let t = Ty::Int(IntTy::I16);
    let r = deref_op(PlaceTy::Ty(&t), CILNode::LdLoc(0));
    assert!(matches!(r, CILNode::LdInd { kind: IndKind::I16, .. }));
    let c = Ty::Char;
    let r = deref_op(PlaceTy::Ty(&c), CILNode::LdLoc(0));
    assert!(matches!(r, CILNode::LdInd { kind: IndKind::U32, .. }));
    let w = Ty::Uint(UintTy::U128);
    let r = deref_op(PlaceTy::Ty(&w), CILNode::LdLoc(0));
    assert!(matches!(r, CILNode::LdObj { .. }));
}

#[test]
fn deref_fat_and_thin_pointers() {
    let fat = Ty::Ref(Mutability::Not, Box::new(Ty::Slice(Box::new(Ty::Uint(UintTy::U8)))));
    let r = deref_op(PlaceTy::Ty(&fat), CILNode::LdLoc(1));
    assert!(matches!(r, CILNode::LdObj { obj, .. } if matches!(*obj, Type::FatPtr(_))));
    let thin = Ty::Ref(Mutability::Not, Box::new(i32_ty()));
    let r = deref_op(PlaceTy::Ty(&thin), CILNode::LdLoc(1));
    match r {
        CILNode::LdIndPtr { loaded_ptr, .. } => match *loaded_ptr {
            Type::Ptr(inner) => assert!(matches!(*inner, Type::Int(IntTy::I32))),
            other => panic!("unexpected {other:?}"),
        },
        other => panic!("unexpected {other:?}"),
    }
}

#[test]
fn deref_pointers_to_str_and_char() {
    let s = Ty::Ref(Mutability::Not, Box::new(Ty::Str));
    let r = deref_op(PlaceTy::Ty(&s), CILNode::LdLoc(0));
    assert!(matches!(r, CILNode::LdObj { obj, .. } if matches!(*obj, Type::FatPtr(_))));
    let raw = Ty::RawPtr(Mutability::Mut, Box::new(Ty::Str));
    let r = deref_op(PlaceTy::Ty(&raw), CILNode::LdLoc(0));
    assert!(matches!(r, CILNode::LdObj { obj, .. } if matches!(*obj, Type::FatPtr(_))));
    let c = Ty::Ref(Mutability::Not, Box::new(Ty::Char));
    let r = deref_op(PlaceTy::Ty(&c), CILNode::LdLoc(0));
    match r {
        CILNode::LdIndPtr { loaded_ptr, .. } => match *loaded_ptr {
            Type::Ptr(inner) => assert!(matches!(*inner, Type::Char)),
            other => panic!("unexpected {other:?}"),
        },
        other => panic!("unexpected {other:?}"),
    }
}

#[test]
fn deref_compound_values() {
    let closure = Ty::Closure;
    let r = deref_op(PlaceTy::Ty(&closure), CILNode::LdLoc(0));
    assert!(matches!(r, CILNode::LdObj { obj, .. } if matches!(*obj, Type::Closure)));
    let e = Ty::Adt { name: "E".to_string(), kind: AdtKind::Enum, variants: vec![vec![]] };
    let r = deref_op(PlaceTy::Ty(&e), CILNode::LdLoc(0));
    assert!(matches!(r, CILNode::LdObj { obj, .. } if matches!(&*obj, Type::Adt(n) if n == "E")));
    let t = Ty::Tuple(vec![Ty::Char, Ty::FnPtr]);
    let r = deref_op(PlaceTy::Ty(&t), CILNode::LdLoc(0));
    assert!(matches!(r, CILNode::LdObj { obj, .. } if matches!(&*obj, Type::Tuple(v) if v.len() == 2)));
}

#[test]
fn labels_for_every_type() {
    assert!(matches!(type_from_cache(&Ty::Tuple(vec![])), Type::Void));
    assert!(matches!(type_from_cache(&tuple_of(9)), Type::Tuple(v) if v.len() == 9));
    let p = Ty::RawPtr(Mutability::Not, Box::new(Ty::Dynamic));
    assert!(matches!(type_from_cache(&p), Type::FatPtr(inner) if matches!(*inner, Type::Dynamic)));
}

fn pair_struct() -> Ty {
    Ty::Adt {
        name: "Pair".to_string(),
        kind: AdtKind::Struct,
        variants: vec![vec![i32_ty(), Ty::Array(Box::new(Ty::Uint(UintTy::U8)), 4)]],
    }
}

#[test]
fn zst_address_is_alignment() {
    let body = Body { locals: vec![Ty::Tuple(vec![]), i32_ty()] };
    let zst = Layout { size: 0, align: 8 };
    for local in 0..2 {
        let place = Place { local, projection: vec![] };
        match place_adress(&place, &body, zst).unwrap() {
            CILNode::TransmutePtr { val, .. } => match *val {
                CILNode::ConvUSize(inner) => assert!(matches!(*inner, CILNode::LdConstU64(8))),
                other => panic!("unexpected {other:?}"),
            },
            other => panic!("unexpected {other:?}"),
        }
    }
    let closures = Body { locals: vec![Ty::Closure] };
    let place = Place { local: 0, projection: vec![] };
    match place_adress(&place, &closures, Layout { size: 0, align: 1 }).unwrap() {
        CILNode::TransmutePtr { pointee, .. } => assert!(matches!(*pointee, Type::Closure)),
        other => panic!("unexpected {other:?}"),
    }
    let place = Place { local: 1, projection: vec![] };
    let raw = place_address_raw(&place, &body, zst).unwrap();
    assert!(matches!(raw, CILNode::ConvUSize(_)));
}

#[test]
fn address_of_local_and_field() {
    let body = Body { locals: vec![pair_struct()] };
    let layout = Layout { size: 8, align: 4 };
    let local = Place { local: 0, projection: vec![] };
    assert!(matches!(place_adress(&local, &body, layout), Ok(CILNode::LdLocA(0))));
    let field = Place { local: 0, projection: vec![PlaceElem::Field(1)] };
    match place_adress(&field, &body, layout).unwrap() {
        CILNode::FieldAddr { addr, owner, field } => {
            assert!(matches!(*addr, CILNode::LdLocA(0)));
            assert!(matches!(&*owner, Type::Adt(n) if n == "Pair"));
            assert_eq!(field, 1);
        }
        other => panic!("unexpected {other:?}"),
    }
}

#[test]
fn address_through_reference_and_index() {
    let arr = Ty::Array(Box::new(i32_ty()), 4);
    let body = Body { locals: vec![Ty::Ref(Mutability::Mut, Box::new(arr)), Ty::Uint(UintTy::Usize)] };
    let layout = Layout { size: 4, align: 4 };
    let place = Place { local: 0, projection: vec![PlaceElem::Deref, PlaceElem::Index(1)] };
    match place_adress(&place, &body, layout).unwrap() {
        CILNode::ElemAddr { addr, index, elem } => {
            assert!(matches!(*addr, CILNode::LdLoc(0)));
            assert!(matches!(*index, CILNode::LdLoc(1)));
            assert!(matches!(*elem, Type::Int(IntTy::I32)));
        }
        other => panic!("unexpected {other:?}"),
    }
    let deref_only = Place { local: 0, projection: vec![PlaceElem::Deref] };
    assert!(matches!(place_address_raw(&deref_only, &body, layout), Ok(CILNode::LdLocA(0))));
    assert!(matches!(place_adress(&deref_only, &body, layout), Ok(CILNode::LdLoc(0))));
}

#[test]
fn subslice_is_unsupported() {
    let body = Body { locals: vec![Ty::Array(Box::new(i32_ty()), 4)] };
    let place = Place { local: 0, projection: vec![PlaceElem::Subslice { from: 0, to: 2 }] };
    assert!(matches!(place_adress(&place, &body, Layout { size: 8, align: 4 }), Err(LoweringError::Projection)));
}

#[test]
fn set_local_and_field() {
    let body = Body { locals: vec![pair_struct()] };
    let local = Place { local: 0, projection: vec![] };
    let s = place_set(&local, CILNode::LdConstU64(1), &body).unwrap();
    assert!(matches!(s, CILStmt::SetLoc { local: 0, .. }));
    let field = Place { local: 0, projection: vec![PlaceElem::Field(0)] };
    match place_set(&field, CILNode::LdConstU64(1), &body).unwrap() {
        CILStmt::StObj { addr, obj, .. } => {
            assert!(matches!(*addr, CILNode::FieldAddr { field: 0, .. }));
            assert!(matches!(*obj, Type::Int(IntTy::I32)));
        }
        other => panic!("unexpected {other:?}"),
    }
}

#[test]
fn unary_ops() {
    let r = unop(UnOp::Neg, CILNode::LdLoc(0), &Ty::Int(IntTy::I8));
    assert!(matches!(r, CILNode::Neg(_)));
    let r = unop(UnOp::Neg, CILNode::LdLoc(0), &Ty::Int(IntTy::I128));
    assert!(matches!(r, CILNode::CallHelper { class: HelperClass::Int128, method: HelperMethod::UnaryNegation, .. }));
    let r = unop(UnOp::Not, CILNode::LdLoc(0), &Ty::Bool);
    assert!(matches!(r, CILNode::Eq(..)));
    let r = unop(UnOp::Not, CILNode::LdLoc(0), &Ty::Uint(UintTy::U128));
    assert!(matches!(r, CILNode::CallHelper { class: HelperClass::UInt128, method: HelperMethod::OnesComplement, .. }));
    let fat = Ty::Ref(Mutability::Not, Box::new(Ty::Str));
    assert!(matches!(unop(UnOp::PtrMetadata, CILNode::LdLoc(0), &fat), CILNode::LdMetadata(_)));
}

#[test]
fn address_of_variant_field() {
    let e = Ty::Adt {
        name: "E".to_string(),
        kind: AdtKind::Enum,
        variants: vec![vec![], vec![Ty::Array(Box::new(Ty::Uint(UintTy::U8)), 2)]],
    };
    let body = Body { locals: vec![e] };
    let place = Place { local: 0, projection: vec![PlaceElem::Downcast(1), PlaceElem::Field(0)] };
    match place_adress(&place, &body, Layout { size: 2, align: 1 }).unwrap() {
        CILNode::FieldAddr { owner, field: 0, .. } => {
            assert!(matches!(*owner, Type::Variant(_, 1)));
        }
        other => panic!("unexpected {other:?}"),
    }
}

#[test]
fn pointer_to_struct_with_unsized_tail_is_fat() {
    let wrapper = Ty::Adt {
        name: "PathLike".to_string(),
        kind: AdtKind::Struct,
        variants: vec![vec![Ty::Slice(Box::new(Ty::Uint(UintTy::U8)))]],
    };
    let r = Ty::Ref(Mutability::Not, Box::new(wrapper));
    let loaded = deref_op(PlaceTy::Ty(&r), CILNode::LdLoc(0));
    assert!(matches!(loaded, CILNode::LdObj { obj, .. } if matches!(*obj, Type::FatPtr(_))));
    let tail = Ty::Tuple(vec![i32_ty(), Ty::Str]);
    assert!(matches!(type_from_cache(&Ty::RawPtr(Mutability::Mut, Box::new(tail))), Type::FatPtr(_)));
    let sized = Ty::Tuple(vec![Ty::Str, i32_ty()]);
    assert!(matches!(type_from_cache(&Ty::RawPtr(Mutability::Mut, Box::new(sized))), Type::Ptr(_)));
}

#[test]
fn address_of_fn_pointer_local_and_field() {
    let s = Ty::Adt { name: "Holder".to_string(), kind: AdtKind::Struct, variants: vec![vec![Ty::FnPtr]] };
    let body = Body { locals: vec![Ty::FnPtr, s] };
    let layout = Layout { size: 8, align: 8 };
    let local = Place { local: 0, projection: vec![] };
    assert!(matches!(place_adress(&local, &body, layout), Ok(CILNode::LdLocA(0))));
    assert!(matches!(place_set(&local, CILNode::LdConstU64(0), &body), Ok(CILStmt::SetLoc { local: 0, .. })));
    let field = Place { local: 1, projection: vec![PlaceElem::Field(0)] };
    assert!(matches!(place_adress(&field, &body, layout), Ok(CILNode::FieldAddr { field: 0, .. })));
}

#[test]
fn raw_address_of_dyn_deref_is_pointer_slot() {
    let body = Body { locals: vec![Ty::Ref(Mutability::Not, Box::new(Ty::Dynamic))] };
    let place = Place { local: 0, projection: vec![PlaceElem::Deref] };
    assert!(matches!(place_address_raw(&place, &body, Layout { size: 16, align: 8 }), Ok(CILNode::LdLocA(0))));
}
