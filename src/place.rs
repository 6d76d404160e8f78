//! Place-address lowering: from a path into memory to the instructions that
//! compute its address, load its value, or store into it.
use crate::cil_node::{CILNode, CILStmt, IndKind};
use crate::ty::{is_fat_pointee, pointer_to_is_fat, FloatTy, IntTy, Layout, Ty, UintTy};
use crate::variable::{describes, type_from_cache, LoweringError, Type};
use vstd::prelude::*;

verus! {

/// The type at a point of a place's projection: an ordinary type, or one
/// variant of an enum after a downcast.
#[derive(Clone, Copy, Debug)]
pub enum PlaceTy<'a> {
    Ty(&'a Ty),
    EnumVariant(&'a Ty, u32),
}

impl<'a> View for PlaceTy<'a> {
    /// The type, and the variant index after a downcast.
    type V = (Ty, Option<u32>);

    open spec fn view(&self) -> (Ty, Option<u32>) {
        match *self {
            PlaceTy::Ty(t) => (*t, None),
            PlaceTy::EnumVariant(t, v) => (*t, Some(v)),
        }
    }
}

impl<'a> From<&'a Ty> for PlaceTy<'a> {
    fn from(ty: &'a Ty) -> (r: Self)
        ensures
            r@ == (*ty, None::<u32>),
    {
        PlaceTy::Ty(ty)
    }
}

impl<'a> vstd::std_specs::convert::FromSpecImpl<&'a Ty> for PlaceTy<'a> {
    open spec fn obeys_from_spec() -> bool {
        true
    }

    open spec fn from_spec(ty: &'a Ty) -> Self {
        PlaceTy::Ty(ty)
    }
}

impl<'a> PlaceTy<'a> {
    /// The ordinary type, or `None` after a downcast.
    pub fn as_ty(&self) -> (r: Option<&'a Ty>)
        ensures
            match self@.1 {
                None => r matches Some(t) && *t == self@.0,
                Some(_) => r is None,
            },
    {
        match self {
            PlaceTy::Ty(inner) => Some(*inner),
            PlaceTy::EnumVariant(..) => None,
        }
    }

    /// The underlying type; for a variant, the enum it belongs to.
    pub fn kind(&self) -> (r: &'a Ty)
        ensures
            *r == self@.0,
    {
        match self {
            PlaceTy::Ty(ty) => *ty,
            PlaceTy::EnumVariant(ty, _variant) => *ty,
        }
    }
}

/// The typed-load kind of a primitive, if it has one.
pub open spec fn ind_kind_of(t: Ty) -> Option<IndKind> {
    match t {
        Ty::Int(i) => match i {
            IntTy::I8 => Some(IndKind::I8),
            IntTy::I16 => Some(IndKind::I16),
            IntTy::I32 => Some(IndKind::I32),
            IntTy::I64 => Some(IndKind::I64),
            IntTy::Isize => Some(IndKind::ISize),
            IntTy::I128 => None,
        },
        Ty::Uint(u) => match u {
            UintTy::U8 => Some(IndKind::U8),
            UintTy::U16 => Some(IndKind::U16),
            UintTy::U32 => Some(IndKind::U32),
            UintTy::U64 => Some(IndKind::U64),
            UintTy::Usize => Some(IndKind::USize),
            UintTy::U128 => None,
        },
        Ty::Float(f) => match f {
            FloatTy::F32 => Some(IndKind::F32),
            FloatTy::F64 => Some(IndKind::F64),
            _ => None,
        },
        Ty::Bool => Some(IndKind::Bool),
        // A char is always four bytes wide.
        Ty::Char => Some(IndKind::U32),
        _ => None,
    }
}

fn ind_kind(t: &Ty) -> (r: Option<IndKind>)
    ensures
        r == ind_kind_of(*t),
{
    match t {
        Ty::Int(i) => match i {
            IntTy::I8 => Some(IndKind::I8),
            IntTy::I16 => Some(IndKind::I16),
            IntTy::I32 => Some(IndKind::I32),
            IntTy::I64 => Some(IndKind::I64),
            IntTy::Isize => Some(IndKind::ISize),
            IntTy::I128 => None,
        },
        Ty::Uint(u) => match u {
            UintTy::U8 => Some(IndKind::U8),
            UintTy::U16 => Some(IndKind::U16),
            UintTy::U32 => Some(IndKind::U32),
            UintTy::U64 => Some(IndKind::U64),
            UintTy::Usize => Some(IndKind::USize),
            UintTy::U128 => None,
        },
        Ty::Float(f) => match f {
            FloatTy::F32 => Some(IndKind::F32),
            FloatTy::F64 => Some(IndKind::F64),
            _ => None,
        },
        Ty::Bool => Some(IndKind::Bool),
        Ty::Char => Some(IndKind::U32),
        _ => None,
    }
}

/// Values of type `t` can be loaded through a pointer: everything but
/// half- and quad-precision floats, unsized values, and types with no
/// representation of their own.
pub open spec fn derefable(t: Ty) -> bool {
    match t {
        Ty::Float(f) => f is F32 || f is F64,
        Ty::Str | Ty::Slice(_) | Ty::Dynamic | Ty::Never | Ty::Foreign | Ty::Param(_) => false,
        _ => true,
    }
}

/// An untyped-object load of a `t` from `ptr`.
pub open spec fn obj_load(t: Ty, ptr: CILNode, e: CILNode) -> bool {
    e matches CILNode::LdObj { ptr: p, obj } && *p == ptr && describes(t, *obj)
}

/// `e` loads the `t` that `ptr` points to. Primitives get a typed load of
/// their width; 128-bit integers and compound values an object load; a
/// pointer is loaded whole as an object when it is fat, and as a typed
/// pointer when it is thin.
pub open spec fn deref_ok(t: Ty, ptr: CILNode, e: CILNode) -> bool {
    match ind_kind_of(t) {
        Some(k) => e == CILNode::LdInd { ptr: Box::new(ptr), kind: k },
        None => match t {
            Ty::Ref(_, p) | Ty::RawPtr(_, p) => if is_fat_pointee(*p) {
                obj_load(t, ptr, e)
            } else {
                e matches CILNode::LdIndPtr { ptr: q, loaded_ptr } && *q == ptr && describes(t, *loaded_ptr)
            },
            _ => obj_load(t, ptr, e),
        },
    }
}

/// Dereferencing a pointer to a fat pointee loads the whole two-word pointer
/// as an object; dereferencing a pointer to a thin pointee is a typed pointer
/// load that names the lowered pointer type.
pub proof fn lemma_pointer_deref_fat_thin(t: Ty, ptr: CILNode, e: CILNode)
    requires
        t is Ref || t is RawPtr,
        deref_ok(t, ptr, e),
    ensures
        is_fat_pointee(pointee_of(t)) ==> (e matches CILNode::LdObj { ptr: p, obj } && *p == ptr
            && (*obj) is FatPtr && describes(t, *obj)),
        !is_fat_pointee(pointee_of(t)) ==> (e matches CILNode::LdIndPtr { ptr: p, loaded_ptr } && *p == ptr
            && (*loaded_ptr) is Ptr && describes(t, *loaded_ptr)),
{
}

/// Loads the value of type `derefed_type` that `ptr` points to.
pub fn deref_op(derefed_type: PlaceTy, ptr: CILNode) -> (r: CILNode)
    requires
        derefed_type@.1 is None,
        derefable(derefed_type@.0),
    ensures
        deref_ok(derefed_type@.0, ptr, r),
{
    let t = derefed_type.kind();
    if let Some(kind) = ind_kind(t) {
        return CILNode::LdInd { ptr: Box::new(ptr), kind };
    }
    match t {
        Ty::Ref(_, inner) | Ty::RawPtr(_, inner) => {
            let lowered = type_from_cache(t);
            if pointer_to_is_fat(inner) {
                CILNode::LdObj { ptr: Box::new(ptr), obj: Box::new(lowered) }
            } else {
                CILNode::LdIndPtr { ptr: Box::new(ptr), loaded_ptr: Box::new(lowered) }
            }
        },
        _ => CILNode::LdObj { ptr: Box::new(ptr), obj: Box::new(type_from_cache(t)) },
    }
}

/// One step of a place's path.
#[derive(Clone, Copy, Debug, PartialEq, Eq, Structural)]
pub enum PlaceElem {
    Deref,
    Field(u32),
    /// Indexing by the value of a local.
    Index(u32),
    ConstantIndex(u64),
    Subslice { from: u64, to: u64 },
    Downcast(u32),
}

/// A memory location: a local and the projections applied to it.
#[derive(Debug)]
pub struct Place {
    pub local: u32,
    pub projection: Vec<PlaceElem>,
}

/// The (monomorphic) types of a function's locals.
#[derive(Debug)]
pub struct Body {
    pub locals: Vec<Ty>,
}

/// Splits a non-empty slice into its last element and the rest.
pub fn slice_head<T>(slice: &[T]) -> (r: (&T, &[T]))
    requires
        slice@.len() > 0,
    ensures
        *r.0 == slice@.last(),
        r.1@ == slice@.drop_last(),
{
    let n = slice.len();
    let last = &slice[n - 1];
    (last, &slice[0..n - 1])
}

/// Whether a value of type `t` is handled through its address rather than
/// held as a value on the evaluation stack.
pub open spec fn by_address(t: Ty) -> bool {
    match t {
        Ty::Tuple(elements) => elements@.len() > 0,
        Ty::Adt { .. } | Ty::Closure | Ty::Array(_, _) | Ty::Slice(_) | Ty::Str | Ty::Dynamic
        | Ty::Foreign => true,
        _ => false,
    }
}

pub fn body_ty_is_by_adress(last_ty: &Ty) -> (r: bool)
    requires
        has_rule(*last_ty),
    ensures
        r == by_address(*last_ty),
{
    match last_ty {
        Ty::Tuple(elements) => elements.len() > 0,
        Ty::Adt { .. } | Ty::Closure | Ty::Array(_, _) | Ty::Slice(_) | Ty::Str | Ty::Dynamic
        | Ty::Foreign => true,
        _ => false,
    }
}

/// The pointee of a pointer type.
pub open spec fn pointee_of(t: Ty) -> Ty {
    match t {
        Ty::Ref(_, p) => *p,
        Ty::RawPtr(_, p) => *p,
        _ => t,
    }
}

/// The type behind a reference or raw pointer.
pub fn pointed_type<'a>(ty: PlaceTy<'a>) -> (r: &'a Ty)
    requires
        ty@.1 is None,
        ty@.0 is Ref || ty@.0 is RawPtr,
    ensures
        *r == pointee_of(ty@.0),
{
    match ty {
        PlaceTy::Ty(t) => match t {
            Ty::Ref(_, inner) => inner,
            Ty::RawPtr(_, inner) => inner,
            _ => t,
        },
        PlaceTy::EnumVariant(t, _) => t,
    }
}

/// The field types of the value or variant a place type denotes.
pub open spec fn fields_of(pt: (Ty, Option<u32>)) -> Option<Seq<Ty>> {
    match pt.0 {
        Ty::Tuple(ts) => if pt.1 is None { Some(ts@) } else { None },
        Ty::Adt { kind, variants, .. } => match pt.1 {
            None => if !(kind is Enum) && variants@.len() == 1 { Some(variants@[0]@) } else { None },
            Some(v) => if kind is Enum && v < variants@.len() { Some(variants@[v as int]@) } else { None },
        },
        _ => None,
    }
}

/// The element type of an array or slice.
pub open spec fn element_of(t: Ty) -> Ty {
    match t {
        Ty::Array(e, _) => *e,
        Ty::Slice(e) => *e,
        _ => t,
    }
}

/// The place type after applying `elem`, or `None` where `elem` does not
/// apply to `pt`.
pub open spec fn step_ty(elem: PlaceElem, pt: (Ty, Option<u32>)) -> Option<(Ty, Option<u32>)> {
    match elem {
        PlaceElem::Deref => if pt.1 is None && (pt.0 is Ref || pt.0 is RawPtr) {
            Some((pointee_of(pt.0), None))
        } else {
            None
        },
        PlaceElem::Field(i) => match fields_of(pt) {
            Some(fs) => if i < fs.len() { Some((fs[i as int], None)) } else { None },
            None => None,
        },
        PlaceElem::Index(_) | PlaceElem::ConstantIndex(_) | PlaceElem::Subslice { .. } =>
            if pt.1 is None && (pt.0 is Array || pt.0 is Slice) {
                if elem is Subslice { Some(pt) } else { Some((element_of(pt.0), None)) }
            } else {
                None
            },
        PlaceElem::Downcast(v) => match pt.0 {
            Ty::Adt { kind, variants, .. } =>
                if pt.1 is None && kind is Enum && v < variants@.len() {
                    Some((pt.0, Some(v)))
                } else {
                    None
                },
            _ => None,
        },
    }
}

/// The place type after the first `k` projections of `place`.
pub open spec fn pt_at(body: Body, place: Place, k: nat) -> Option<(Ty, Option<u32>)>
    decreases k,
{
    if k == 0 {
        if place.local < body.locals@.len() {
            Some((body.locals@[place.local as int], None))
        } else {
            None
        }
    } else if k > place.projection@.len() {
        None
    } else {
        match pt_at(body, place, (k - 1) as nat) {
            Some(pt) => step_ty(place.projection@[k - 1], pt),
            None => None,
        }
    }
}

/// Every projection of `place` applies to the type it meets.
pub open spec fn well_typed(body: Body, place: Place) -> bool {
    pt_at(body, place, place.projection@.len()) is Some
}

/// `d` labels the aggregate a field projection reads from: the type, or
/// the variant after a downcast.
pub open spec fn owner_ok(pt: (Ty, Option<u32>), d: Type) -> bool {
    match pt.1 {
        None => describes(pt.0, d),
        Some(v) => d matches Type::Variant(x, w) && w == v && describes(pt.0, *x),
    }
}

/// Whether `t` has a rule for being held by address or by value.
pub open spec fn has_rule(t: Ty) -> bool {
    !(t is Dynamic || t is Foreign || t is FnPtr || t is Never || t is Param)
}

/// A type that a place can pass through: it has a rule, and a value of it
/// held by value can be loaded.
pub open spec fn reachable_ok(t: Ty) -> bool {
    has_rule(t) && (by_address(t) || derefable(t))
}

/// Every type that a projection of `place` is applied to, the local's
/// included, can be reached.
pub open spec fn place_supported(body: Body, place: Place) -> bool {
    forall|k: nat| k < place.projection@.len() ==> reachable_ok((#[trigger] pt_at(body, place, k))->Some_0.0)
}

/// What an intermediate projection fails with, if anything.
pub open spec fn step_error(elem: PlaceElem, pt: (Ty, Option<u32>)) -> Option<LoweringError> {
    if elem is Subslice { Some(LoweringError::Projection) } else { None }
}

/// What the last projection fails with, if anything.
pub open spec fn last_error(elem: PlaceElem, pt: (Ty, Option<u32>)) -> Option<LoweringError> {
    if elem is Subslice { Some(LoweringError::Projection) } else { None }
}

/// The index operand of an indexing projection.
pub open spec fn index_operand(elem: PlaceElem) -> CILNode {
    match elem {
        PlaceElem::Index(l) => CILNode::LdLoc(l),
        PlaceElem::ConstantIndex(k) => CILNode::LdConstU64(k),
        _ => CILNode::LdFalse,
    }
}

/// `a` is the address of element `index` of the array or slice `pt`, which
/// `curr` stands for: an array by its address, a slice by its fat pointer.
pub open spec fn elem_addr_ok(pt: (Ty, Option<u32>), curr: CILNode, index: CILNode, a: CILNode) -> bool {
    &&& a matches CILNode::ElemAddr { addr, index: i, elem }
    &&& *addr == if pt.0 is Slice { CILNode::LdDataPtr(Box::new(curr)) } else { curr }
    &&& *i == index
    &&& describes(element_of(pt.0), *elem)
}

/// The address operand of a load.
pub open spec fn load_ptr(e: CILNode) -> CILNode {
    match e {
        CILNode::LdInd { ptr, .. } => *ptr,
        CILNode::LdObj { ptr, .. } => *ptr,
        CILNode::LdIndPtr { ptr, .. } => *ptr,
        _ => e,
    }
}

/// `next` stands for the place after the intermediate projection `elem`,
/// where `curr` stood for the place before it: the address of a value held by
/// address, the value itself otherwise.
pub open spec fn body_step_ok(elem: PlaceElem, pt: (Ty, Option<u32>), curr: CILNode, next: CILNode) -> bool {
    match elem {
        PlaceElem::Deref => {
            let p = pointee_of(pt.0);
            if by_address(p) || is_fat_pointee(p) { next == curr } else { deref_ok(p, curr, next) }
        },
        PlaceElem::Field(i) => {
            let f = fields_of(pt)->Some_0[i as int];
            if by_address(f) {
                next matches CILNode::FieldAddr { addr, owner, field }
                    && *addr == curr && field == i && owner_ok(pt, *owner)
            } else {
                next matches CILNode::LdField { addr, owner, field }
                    && *addr == curr && field == i && owner_ok(pt, *owner)
            }
        },
        PlaceElem::Index(_) | PlaceElem::ConstantIndex(_) => {
            let e = element_of(pt.0);
            if by_address(e) {
                elem_addr_ok(pt, curr, index_operand(elem), next)
            } else {
                elem_addr_ok(pt, curr, index_operand(elem), load_ptr(next)) && deref_ok(e, load_ptr(next), next)
            }
        },
        PlaceElem::Subslice { .. } => false,
        PlaceElem::Downcast(_) => next == curr,
    }
}

/// `a` is the address of the place after the last projection `elem`.
pub open spec fn last_addr_ok(elem: PlaceElem, pt: (Ty, Option<u32>), curr: CILNode, a: CILNode) -> bool {
    match elem {
        PlaceElem::Deref => a == if is_fat_pointee(pointee_of(pt.0)) {
            CILNode::LdDataPtr(Box::new(curr))
        } else {
            curr
        },
        PlaceElem::Field(i) => a matches CILNode::FieldAddr { addr, owner, field }
            && *addr == curr && field == i && owner_ok(pt, *owner),
        PlaceElem::Index(_) | PlaceElem::ConstantIndex(_) => elem_addr_ok(pt, curr, index_operand(elem), a),
        PlaceElem::Subslice { .. } => false,
        PlaceElem::Downcast(_) => a == curr,
    }
}

/// How a local is first reached: by address when its type is held by
/// address, by value otherwise.
pub open spec fn local_body_of(local: u32, t: Ty) -> CILNode {
    if by_address(t) { CILNode::LdLocA(local) } else { CILNode::LdLoc(local) }
}

/// `chain[j]` stands for `place` after its first `j` projections, for each
/// `j <= k`: each one is built from the one before.
pub open spec fn walk(body: Body, place: Place, k: nat, chain: Seq<CILNode>) -> bool {
    &&& chain.len() == k + 1
    &&& chain[0] == local_body_of(place.local, body.locals@[place.local as int])
    &&& forall|j: int| 0 <= j < k ==> body_step_ok(
        place.projection@[j],
        pt_at(body, place, j as nat)->Some_0,
        #[trigger] chain[j],
        chain[j + 1],
    )
}

/// The first error among the first `k` intermediate projections of `place`.
pub open spec fn walk_error(body: Body, place: Place, k: nat) -> Option<LoweringError>
    decreases k,
{
    if k == 0 {
        None
    } else {
        match walk_error(body, place, (k - 1) as nat) {
            Some(x) => Some(x),
            None => step_error(place.projection@[k - 1], pt_at(body, place, (k - 1) as nat)->Some_0),
        }
    }
}

proof fn lemma_walk_error_prefix(body: Body, place: Place, k: nat, m: nat)
    requires
        k <= m,
        walk_error(body, place, k) is Some,
    ensures
        walk_error(body, place, m) == walk_error(body, place, k),
    decreases m - k,
{
    if k < m {
        lemma_walk_error_prefix(body, place, k, (m - 1) as nat);
    }
}

proof fn lemma_pt_at_prefix(body: Body, place: Place, k: nat)
    requires
        well_typed(body, place),
        k <= place.projection@.len(),
    ensures
        pt_at(body, place, k) is Some,
    decreases place.projection@.len() - k,
{
    if k < place.projection@.len() {
        lemma_pt_at_prefix(body, place, k + 1);
    }
}

/// `a` is the address of `place`, which has at least one projection.
pub open spec fn projected_ok(body: Body, place: Place, a: CILNode) -> bool {
    let n = place.projection@.len();
    exists|chain: Seq<CILNode>| #[trigger] walk(body, place, (n - 1) as nat, chain)
        && last_addr_ok(place.projection@[n - 1], pt_at(body, place, (n - 1) as nat)->Some_0, chain.last(), a)
}

/// What computing the address of `place`, which has at least one
/// projection, fails with, if anything.
pub open spec fn projected_error(body: Body, place: Place) -> Option<LoweringError> {
    let n = place.projection@.len();
    match walk_error(body, place, (n - 1) as nat) {
        Some(x) => Some(x),
        None => last_error(place.projection@[n - 1], pt_at(body, place, (n - 1) as nat)->Some_0),
    }
}

/// The type of the whole place; for a variant, its enum.
pub open spec fn place_type(body: Body, place: Place) -> Ty {
    pt_at(body, place, place.projection@.len())->Some_0.0
}

/// A zero-sized value has no storage: its address is a pointer made from
/// its alignment.
pub open spec fn zst_address_ok(body: Body, place: Place, layout: Layout, a: CILNode) -> bool {
    a matches CILNode::TransmutePtr { val, pointee }
        && *val == CILNode::ConvUSize(Box::new(CILNode::LdConstU64(layout.align)))
        && describes(place_type(body, place), *pointee)
}

pub open spec fn address_ok(body: Body, place: Place, layout: Layout, a: CILNode) -> bool {
    if layout.size == 0 {
        zst_address_ok(body, place, layout, a)
    } else if place.projection@.len() == 0 {
        a == CILNode::LdLocA(place.local)
    } else {
        projected_ok(body, place, a)
    }
}

pub open spec fn address_error(body: Body, place: Place, layout: Layout) -> Option<LoweringError> {
    if layout.size == 0 || place.projection@.len() == 0 {
        None
    } else {
        projected_error(body, place)
    }
}

/// The place type after `elem`.
pub fn step_type<'a>(elem: PlaceElem, pt: PlaceTy<'a>) -> (r: PlaceTy<'a>)
    requires
        step_ty(elem, pt@) is Some,
    ensures
        r@ == step_ty(elem, pt@)->Some_0,
{
    match elem {
        PlaceElem::Deref => PlaceTy::Ty(pointed_type(pt)),
        PlaceElem::Field(i) => PlaceTy::Ty(field_type(pt, i)),
        PlaceElem::Index(_) | PlaceElem::ConstantIndex(_) => PlaceTy::Ty(element_type(pt.kind())),
        PlaceElem::Subslice { .. } => pt,
        PlaceElem::Downcast(v) => PlaceTy::EnumVariant(pt.kind(), v),
    }
}

fn field_type<'a>(pt: PlaceTy<'a>, i: u32) -> (r: &'a Ty)
    requires
        fields_of(pt@) is Some,
        i < fields_of(pt@)->Some_0.len(),
    ensures
        *r == fields_of(pt@)->Some_0[i as int],
{
    match pt {
        PlaceTy::Ty(t) => match t {
            Ty::Tuple(ts) => &ts[i as usize],
            Ty::Adt { variants, .. } => &variants[0][i as usize],
            _ => t,
        },
        PlaceTy::EnumVariant(t, v) => match t {
            Ty::Adt { variants, .. } => &variants[v as usize][i as usize],
            _ => t,
        },
    }
}

fn element_type<'a>(t: &'a Ty) -> (r: &'a Ty)
    ensures
        *r == element_of(*t),
{
    match t {
        Ty::Array(e, _) => e,
        Ty::Slice(e) => e,
        _ => t,
    }
}

/// The type descriptor of the aggregate a field projection reads from.
fn owner_type(pt: PlaceTy) -> (r: Type)
    ensures
        owner_ok(pt@, r),
{
    match pt {
        PlaceTy::Ty(t) => type_from_cache(t),
        PlaceTy::EnumVariant(t, v) => Type::Variant(Box::new(type_from_cache(t)), v),
    }
}

fn index_node(elem: PlaceElem) -> (r: CILNode)
    ensures
        r == index_operand(elem),
{
    match elem {
        PlaceElem::Index(l) => CILNode::LdLoc(l),
        PlaceElem::ConstantIndex(k) => CILNode::LdConstU64(k),
        _ => CILNode::LdFalse,
    }
}

/// The address of element `elem`'s index of the array or slice `pt`.
fn element_address(elem: PlaceElem, pt: PlaceTy, curr: CILNode) -> (r: CILNode)
    requires
        pt@.1 is None,
        pt@.0 is Array || pt@.0 is Slice,
    ensures
        elem_addr_ok(pt@, curr, index_operand(elem), r),
{
    let t = pt.kind();
    let lowered = type_from_cache(element_type(t));
    let base = match t {
        Ty::Slice(_) => CILNode::LdDataPtr(Box::new(curr)),
        _ => curr,
    };
    CILNode::ElemAddr { addr: Box::new(base), index: Box::new(index_node(elem)), elem: Box::new(lowered) }
}

/// Applies an intermediate projection: the new place type, and what stands
/// for the place after it.
pub fn place_elem_body<'a>(elem: PlaceElem, pt: PlaceTy<'a>, curr: CILNode) -> (r: Result<(PlaceTy<'a>, CILNode), LoweringError>)
    requires
        step_ty(elem, pt@) is Some,
        reachable_ok(step_ty(elem, pt@)->Some_0.0),
    ensures
        match r {
            Ok((next_ty, next)) => {
                &&& step_error(elem, pt@) is None
                &&& next_ty@ == step_ty(elem, pt@)->Some_0
                &&& body_step_ok(elem, pt@, curr, next)
            },
            Err(x) => step_error(elem, pt@) == Some(x),
        },
{
    let next_ty = step_type(elem, pt);
    match elem {
        PlaceElem::Deref => {
            let p = pointed_type(pt);
            if body_ty_is_by_adress(p) || pointer_to_is_fat(p) {
                Ok((next_ty, curr))
            } else {
                Ok((next_ty, deref_op(PlaceTy::Ty(p), curr)))
            }
        },
        PlaceElem::Field(i) => {
            let owner = owner_type(pt);
            if body_ty_is_by_adress(field_type(pt, i)) {
                Ok((next_ty, CILNode::FieldAddr { addr: Box::new(curr), owner: Box::new(owner), field: i }))
            } else {
                Ok((next_ty, CILNode::LdField { addr: Box::new(curr), owner: Box::new(owner), field: i }))
            }
        },
        PlaceElem::Index(_) | PlaceElem::ConstantIndex(_) => {
            let e = element_type(pt.kind());
            let addr = element_address(elem, pt, curr);
            if body_ty_is_by_adress(e) {
                Ok((next_ty, addr))
            } else {
                let ghost a = addr;
                let v = deref_op(PlaceTy::Ty(e), addr);
                assert(load_ptr(v) == a);
                Ok((next_ty, v))
            }
        },
        PlaceElem::Subslice { .. } => Err(LoweringError::Projection),
        PlaceElem::Downcast(_) => Ok((next_ty, curr)),
    }
}

/// The address of the place after its last projection `elem`.
pub fn place_elem_adress(elem: PlaceElem, pt: PlaceTy, curr: CILNode) -> (r: Result<CILNode, LoweringError>)
    requires
        step_ty(elem, pt@) is Some,
    ensures
        match r {
            Ok(a) => last_error(elem, pt@) is None && last_addr_ok(elem, pt@, curr, a),
            Err(x) => last_error(elem, pt@) == Some(x),
        },
{
    match elem {
        PlaceElem::Deref => {
            if pointer_to_is_fat(pointed_type(pt)) {
                Ok(CILNode::LdDataPtr(Box::new(curr)))
            } else {
                Ok(curr)
            }
        },
        PlaceElem::Field(i) => {
            let owner = owner_type(pt);
            Ok(CILNode::FieldAddr { addr: Box::new(curr), owner: Box::new(owner), field: i })
        },
        PlaceElem::Index(_) | PlaceElem::ConstantIndex(_) => Ok(element_address(elem, pt, curr)),
        PlaceElem::Subslice { .. } => Err(LoweringError::Projection),
        PlaceElem::Downcast(_) => Ok(curr),
    }
}

/// How a local is first reached.
pub fn local_body(local: u32, body: &Body) -> (r: CILNode)
    requires
        local < body.locals@.len(),
        has_rule(body.locals@[local as int]),
    ensures
        r == local_body_of(local, body.locals@[local as int]),
{
    if body_ty_is_by_adress(&body.locals[local as usize]) {
        CILNode::LdLocA(local)
    } else {
        CILNode::LdLoc(local)
    }
}

/// The type of the whole place, projection by projection.
pub fn place_ty<'a>(place: &Place, body: &'a Body) -> (r: PlaceTy<'a>)
    requires
        well_typed(*body, *place),
    ensures
        r@ == pt_at(*body, *place, place.projection@.len())->Some_0,
{
    proof {
        lemma_pt_at_prefix(*body, *place, 0);
    }
    let n = place.projection.len();
    let mut pt = PlaceTy::Ty(&body.locals[place.local as usize]);
    let mut i: usize = 0;
    while i < n
        invariant
            n == place.projection@.len(),
            well_typed(*body, *place),
            i <= n,
            pt_at(*body, *place, i as nat) == Some(pt@),
        decreases n - i,
    {
        proof {
            lemma_pt_at_prefix(*body, *place, (i + 1) as nat);
        }
        pt = step_type(place.projection[i], pt);
        i += 1;
    }
    pt
}

/// The walk over all projections but the last, then the address of the last.
fn projected_address(place: &Place, body: &Body) -> (r: Result<CILNode, LoweringError>)
    requires
        well_typed(*body, *place),
        place_supported(*body, *place),
        place.projection@.len() > 0,
    ensures
        match r {
            Ok(a) => projected_error(*body, *place) is None && projected_ok(*body, *place, a),
            Err(x) => projected_error(*body, *place) == Some(x),
        },
{
    proof {
        lemma_pt_at_prefix(*body, *place, 0);
        assert(reachable_ok(pt_at(*body, *place, 0)->Some_0.0));
    }
    let mut curr = local_body(place.local, body);
    let mut pt = PlaceTy::Ty(&body.locals[place.local as usize]);
    let (head, rest) = slice_head(place.projection.as_slice());
    let m = rest.len();
    let mut i: usize = 0;
    let ghost mut chain = seq![curr];
    while i < m
        invariant
            m + 1 == place.projection@.len(),
            rest@ == place.projection@.drop_last(),
            well_typed(*body, *place),
            place_supported(*body, *place),
            i <= m,
            pt_at(*body, *place, i as nat) == Some(pt@),
            walk(*body, *place, i as nat, chain),
            chain.last() == curr,
            walk_error(*body, *place, i as nat) is None,
        decreases m - i,
    {
        proof {
            lemma_pt_at_prefix(*body, *place, (i + 1) as nat);
            assert(reachable_ok(pt_at(*body, *place, (i + 1) as nat)->Some_0.0));
        }
        let ghost prev = curr;
        assert(rest@[i as int] == place.projection@[i as int]);
        match place_elem_body(rest[i], pt, curr) {
            Ok((next_ty, next)) => {
                proof {
                    let old_chain = chain;
                    chain = chain.push(next);
                    assert forall|j: int| 0 <= j < i + 1 implies body_step_ok(
                        place.projection@[j],
                        pt_at(*body, *place, j as nat)->Some_0,
                        #[trigger] chain[j],
                        chain[j + 1],
                    ) by {
                        if j < i {
                            assert(chain[j] == old_chain[j] && chain[j + 1] == old_chain[j + 1]);
                        }
                    }
                }
                pt = next_ty;
                curr = next;
            },
            Err(x) => {
                proof {
                    lemma_walk_error_prefix(*body, *place, (i + 1) as nat, m as nat);
                }
                return Err(x);
            },
        }
        i += 1;
    }
    let ghost last = curr;
    let a = place_elem_adress(*head, pt, curr)?;
    assert(walk(*body, *place, m as nat, chain));
    Ok(a)
}

/// The address of a place.
pub fn place_adress(place: &Place, body: &Body, layout: Layout) -> (r: Result<CILNode, LoweringError>)
    requires
        well_typed(*body, *place),
        layout.size == 0 || place_supported(*body, *place),
    ensures
        match r {
            Ok(a) => address_error(*body, *place, layout) is None && address_ok(*body, *place, layout, a),
            Err(x) => address_error(*body, *place, layout) == Some(x),
        },
{
    if layout.is_zst() {
        let place_type = type_from_cache(place_ty(place, body).kind());
        return Ok(CILNode::TransmutePtr {
            val: Box::new(CILNode::ConvUSize(Box::new(CILNode::LdConstU64(layout.align)))),
            pointee: Box::new(place_type),
        });
    }
    if place.projection.len() == 0 {
        Ok(CILNode::LdLocA(place.local))
    } else {
        projected_address(place, body)
    }
}

/// The address of the pointer slot itself where the only projection is a
/// dereference; otherwise as `address_ok`, except that a zero-sized value's
/// address stays an integer.
pub open spec fn address_raw_ok(body: Body, place: Place, layout: Layout, a: CILNode) -> bool {
    if layout.size == 0 {
        a == CILNode::ConvUSize(Box::new(CILNode::LdConstU64(layout.align)))
    } else if place.projection@.len() == 0 {
        a == CILNode::LdLocA(place.local)
    } else if place.projection@.len() == 1 && place.projection@[0] is Deref {
        a == CILNode::LdLocA(place.local)
    } else {
        projected_ok(body, place, a)
    }
}

pub open spec fn address_raw_error(body: Body, place: Place, layout: Layout) -> Option<LoweringError> {
    if layout.size == 0 || place.projection@.len() == 0 || (place.projection@.len() == 1
        && place.projection@[0] is Deref) {
        None
    } else {
        projected_error(body, place)
    }
}

/// The address of a place, for built-in operations: where the place is a
/// dereference of a local, the address of the pointer itself.
pub fn place_address_raw(place: &Place, body: &Body, layout: Layout) -> (r: Result<CILNode, LoweringError>)
    requires
        well_typed(*body, *place),
        layout.size == 0 || place_supported(*body, *place),
    ensures
        match r {
            Ok(a) => address_raw_error(*body, *place, layout) is None && address_raw_ok(*body, *place, layout, a),
            Err(x) => address_raw_error(*body, *place, layout) == Some(x),
        },
{
    if layout.is_zst() {
        return Ok(CILNode::ConvUSize(Box::new(CILNode::LdConstU64(layout.align))));
    }
    if place.projection.len() == 0 {
        Ok(CILNode::LdLocA(place.local))
    } else if place.projection.len() == 1 && matches!(slice_head(place.projection.as_slice()).0, PlaceElem::Deref) {
        Ok(CILNode::LdLocA(place.local))
    } else {
        projected_address(place, body)
    }
}

/// `s` stores `value` into `place`.
pub open spec fn set_ok(body: Body, place: Place, value: CILNode, s: CILStmt) -> bool {
    if place.projection@.len() == 0 {
        s == CILStmt::SetLoc { local: place.local, val: Box::new(value) }
    } else {
        s matches CILStmt::StObj { addr, val, obj } && *val == value && projected_ok(body, place, *addr)
            && describes(place_type(body, place), *obj)
    }
}

pub open spec fn set_error(body: Body, place: Place) -> Option<LoweringError> {
    if place.projection@.len() == 0 {
        None
    } else {
        match projected_error(body, place) {
            Some(x) => Some(x),
            None => None,
        }
    }
}

/// The statement that stores `value_calc` into a place.
pub fn place_set(place: &Place, value_calc: CILNode, body: &Body) -> (r: Result<CILStmt, LoweringError>)
    requires
        well_typed(*body, *place),
        place_supported(*body, *place),
    ensures
        match r {
            Ok(s) => set_error(*body, *place) is None && set_ok(*body, *place, value_calc, s),
            Err(x) => set_error(*body, *place) == Some(x),
        },
{
    if place.projection.len() == 0 {
        Ok(CILStmt::SetLoc { local: place.local, val: Box::new(value_calc) })
    } else {
        let addr = projected_address(place, body)?;
        let obj = type_from_cache(place_ty(place, body).kind());
        Ok(CILStmt::StObj { addr: Box::new(addr), val: Box::new(value_calc), obj: Box::new(obj) })
    }
}

/// The integer an instruction tree evaluates to, where it is built from
/// constants and conversions alone.
pub open spec fn const_value(e: CILNode) -> Option<int>
    decreases e,
{
    match e {
        CILNode::LdConstU64(k) => Some(k as int),
        CILNode::ConvUSize(x) => const_value(*x),
        CILNode::TransmutePtr { val, .. } => const_value(*val),
        _ => None,
    }
}

/// The address of a zero-sized place is its type's alignment, whatever
/// local it starts from.
pub proof fn lemma_zst_address_is_alignment(body: Body, place: Place, layout: Layout, a: CILNode)
    requires
        layout.size == 0,
        address_ok(body, place, layout, a) || address_raw_ok(body, place, layout, a),
    ensures
        const_value(a) == Some(layout.align as int),
{
    reveal_with_fuel(const_value, 3);
}

} // verus!
