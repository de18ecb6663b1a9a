//! What constant memory means as SPIR-V constants.
//!
//! [`decode_alloc`] reads an allocation at a type and gives the tree of
//! constants that it holds ([`ConstNode`]), or the error that stops the
//! reading, or `Panic` where the reading has no result (a refused memory
//! read, a layout that contradicts the type, a loop that makes no
//! progress). [`denotes`] says when a value of the module stands for such a
//! tree.
use vstd::prelude::*;
use crate::abi::{Integer, Primitive};
use crate::constant::{int_plan, IntPlan};
use crate::cx::{const_u64_value, lemma_extends_keeps, CxModel};
use crate::layout::align_up;
use crate::memory::{read_scalar_spec, AllocView, GlobalAlloc, Scalar, ScalarMaybeUninit};
use crate::types::{
    ConstError, ConstModel, SpirvValue, SpirvValueKind, TypeModel, Word, ZombieReason,
    STORAGE_CLASS_FUNCTION,
};

verus! {

/// A tree of constants.
pub enum ConstNode {
    /// A constant of the constant table.
    Leaf(ConstModel),
    /// A composite constant of the given type, made of the subtrees.
    Composite(Word, Seq<ConstNode>),
    /// The tree's value, marked as unusable with the reason; `true` where the
    /// mark is made in every crate, `false` where a user crate gets a
    /// diagnostic in its place.
    Marked(Box<ConstNode>, ZombieReason, bool),
    /// A pointer to a new `Function` variable initialized with the tree.
    GlobalPtr(Box<ConstNode>),
    /// A value known beforehand (the address of a function or a static).
    Given(SpirvValue),
}

/// A type: one of the table, or the `Function` pointer type to a type.
pub enum TypeRef {
    Id(Word),
    FunctionPtrTo(Box<TypeRef>),
}

/// The type of the value that a tree stands for.
pub open spec fn node_type(n: ConstNode) -> TypeRef
    decreases n,
{
    match n {
        ConstNode::Leaf(c) => TypeRef::Id(c.ty()),
        ConstNode::Composite(ty, _) => TypeRef::Id(ty),
        ConstNode::Marked(inner, _, _) => node_type(*inner),
        ConstNode::GlobalPtr(inner) => TypeRef::FunctionPtrTo(Box::new(node_type(*inner))),
        ConstNode::Given(v) => TypeRef::Id(v.ty),
    }
}

/// Whether type id `ty` of `cx` is the type `r`.
pub open spec fn ty_denotes(cx: CxModel, ty: Word, r: TypeRef) -> bool
    decreases r,
{
    match r {
        TypeRef::Id(t) => ty == t,
        TypeRef::FunctionPtrTo(inner) => cx.types.contains_key(ty) && match cx.types[ty].ty {
            TypeModel::Pointer { storage_class, pointee } => storage_class == STORAGE_CLASS_FUNCTION
                && ty_denotes(cx, pointee, *inner),
            _ => false,
        },
    }
}

/// Whether type `r` is the type with id `b` of the table of `m`.
pub open spec fn type_matches(m: CxModel, r: TypeRef, b: Word) -> bool
    decreases r,
{
    match r {
        TypeRef::Id(t) => t == b,
        TypeRef::FunctionPtrTo(inner) => m.types.contains_key(b) && match m.types[b].ty {
            TypeModel::Pointer { storage_class, pointee } => storage_class == STORAGE_CLASS_FUNCTION
                && type_matches(m, *inner, pointee),
            _ => false,
        },
    }
}

/// Whether `id` carries the mark `reason` in `cx`.
pub open spec fn marked(cx: CxModel, id: Word, reason: ZombieReason, always: bool) -> bool {
    if always || cx.system_crate {
        cx.zombies.contains(crate::cx::Zombie { id, reason })
    } else {
        cx.diagnostics.contains(reason)
    }
}

/// Whether the id `id` of `cx` stands for the tree `n`.
pub open spec fn id_denotes(cx: CxModel, id: Word, n: ConstNode) -> bool
    decreases n,
{
    match n {
        ConstNode::Leaf(c) => cx.consts.contains_key(id) && cx.consts[id] == c,
        ConstNode::Composite(ty, kids) => cx.consts.contains_key(id) && match cx.consts[id] {
            ConstModel::Composite(t, ids) => {
                &&& t == ty
                &&& ids.len() == kids.len()
                &&& forall|i: int| 0 <= i < kids.len() ==> id_denotes(cx, #[trigger] ids[i], kids[i])
            },
            _ => false,
        },
        ConstNode::Marked(inner, reason, always) => id_denotes(cx, id, *inner) && marked(
            cx,
            id,
            reason,
            always,
        ),
        ConstNode::GlobalPtr(inner) => cx.globals.contains_key(id) && id_denotes(
            cx,
            cx.globals[id].initializer,
            *inner,
        ) && ty_denotes(cx, cx.globals[id].ty, node_type(n)),
        ConstNode::Given(v) => id == v.spec_def(),
    }
}

/// Whether the value `v` of `cx` stands for the tree `n`.
pub open spec fn denotes(cx: CxModel, v: SpirvValue, n: ConstNode) -> bool
    decreases n,
{
    match n {
        ConstNode::Given(g) => v == g,
        ConstNode::Marked(inner, reason, always) => denotes(cx, v, *inner) && marked(
            cx,
            v.spec_def(),
            reason,
            always,
        ),
        ConstNode::GlobalPtr(_) => {
            &&& cx.globals.contains_key(v.spec_def())
            &&& v.kind == (SpirvValueKind::ConstantPointer {
                initializer: cx.globals[v.spec_def()].initializer,
                global_var: v.spec_def(),
            })
            &&& cx.globals[v.spec_def()].ty == v.ty
            &&& id_denotes(cx, v.spec_def(), n)
        },
        _ => v.kind is Def && id_denotes(cx, v.spec_def(), n) && ty_denotes(cx, v.ty, node_type(n)),
    }
}

/// What a call that reads a value (`d` being what the memory means) may
/// return, in final state `cx` with the offset after it `end`: the value of
/// the tree read, the error that stopped the reading, or the exhaustion of
/// ids.
pub open spec fn value_outcome(cx: CxModel, d: Decoded, r: Result<SpirvValue, ConstError>, end: u64) -> bool {
    &&& match r {
        Ok(v) => match d {
            Decoded::Done(n, e) => e == end && denotes(cx, v, n) && cx.types.contains_key(v.ty),
            _ => false,
        },
        Err(e) => if e == ConstError::IdsExhausted {
            cx.next_id == u32::MAX
        } else {
            d == Decoded::Fatal(e)
        },
    }
    &&& d is Fatal ==> r is Err
}

/// What a call that turns a scalar or a whole allocation into a constant
/// (`d` being what it means) may return, in final state `cx`.
pub open spec fn scalar_outcome(cx: CxModel, d: DecodedScalar, r: Result<SpirvValue, ConstError>) -> bool {
    &&& match r {
        Ok(v) => match d {
            DecodedScalar::Done(n) => denotes(cx, v, n),
            _ => false,
        },
        Err(e) => if e == ConstError::IdsExhausted {
            cx.next_id == u32::MAX
        } else {
            d == DecodedScalar::Fatal(e)
        },
    }
    &&& d is Fatal ==> r is Err
}

/// The tree of a pointer to a new variable initialized with the tree of
/// `d`, where `d` has one.
pub open spec fn pointer_to(d: DecodedScalar) -> DecodedScalar {
    match d {
        DecodedScalar::Done(n) => DecodedScalar::Done(ConstNode::GlobalPtr(Box::new(n))),
        other => other,
    }
}

/// Defining constant `c` in state `m`: its value and the state after, or
/// `None` where it is new and no id is left.
pub open spec fn build_const(m: CxModel, c: ConstModel) -> Option<(SpirvValue, CxModel)> {
    if m.const_ids.contains_key(c) || m.next_id < u32::MAX {
        Some(
            (
                SpirvValue { kind: SpirvValueKind::Def(m.const_id_after_def(c)), ty: c.ty() },
                m.after_def_const(c),
            ),
        )
    } else {
        None
    }
}

/// Building tree `n` in state `m`, one definition after another in the
/// order the tree is read (subtrees first, left to right): the value that
/// stands for the tree and the state after, or `None` where the ids run out.
pub open spec fn build(m: CxModel, n: ConstNode) -> Option<(SpirvValue, CxModel)>
    decreases n,
{
    match n {
        ConstNode::Leaf(c) => build_const(m, c),
        ConstNode::Composite(ty, kids) => match build_seq(m, kids) {
            Some((ids, m2)) => build_const(m2, ConstModel::Composite(ty, ids)),
            None => None,
        },
        ConstNode::Marked(inner, reason, always) => match build(m, *inner) {
            Some((v, m2)) => Some(
                (
                    v,
                    if always {
                        m2.after_zombie(v.spec_def(), reason)
                    } else {
                        m2.after_zombie_no_span(v.spec_def(), reason)
                    },
                ),
            ),
            None => None,
        },
        ConstNode::GlobalPtr(inner) => match build(m, *inner) {
            Some((v, m2)) => if m2.pointer_fits(v) {
                Some(m2.after_constant_pointer(v))
            } else {
                None
            },
            None => None,
        },
        ConstNode::Given(v) => Some((v, m)),
    }
}

/// Building the trees `kids` one after the other from state `m`: the ids
/// that stand for them and the state after.
pub open spec fn build_seq(m: CxModel, kids: Seq<ConstNode>) -> Option<(Seq<Word>, CxModel)>
    decreases kids,
{
    if kids.len() == 0 {
        Some((Seq::empty(), m))
    } else {
        match build_seq(m, kids.subrange(0, kids.len() - 1)) {
            Some((ids, m2)) => match build(m2, kids[kids.len() - 1]) {
                Some((v, m3)) => Some((ids.push(v.spec_def()), m3)),
                None => None,
            },
            None => None,
        }
    }
}

/// What a call that reads a value returns and leaves, from state `old`,
/// where the memory means a tree: exactly what building the tree gives, or
/// the exhaustion of ids where building it runs out of them.
pub open spec fn value_built(old: CxModel, new: CxModel, d: Decoded, r: Result<SpirvValue, ConstError>) -> bool {
    d matches Decoded::Done(n, _) ==> match build(old, n) {
        Some((v, m)) => r == Ok::<SpirvValue, ConstError>(v) && new == m,
        None => r == Err::<SpirvValue, ConstError>(ConstError::IdsExhausted),
    }
}

/// As [`value_built`], for a call that turns a scalar or a whole allocation
/// into a constant.
pub open spec fn scalar_built(old: CxModel, new: CxModel, d: DecodedScalar, r: Result<SpirvValue, ConstError>) -> bool {
    d matches DecodedScalar::Done(n) ==> match build(old, n) {
        Some((v, m)) => r == Ok::<SpirvValue, ConstError>(v) && new == m,
        None => r == Err::<SpirvValue, ConstError>(ConstError::IdsExhausted),
    }
}

/// The result of reading one value.
pub enum Decoded {
    /// The tree read, and the offset after it.
    Done(ConstNode, int),
    Fatal(ConstError),
    Panic,
}

/// The result of reading a sequence of values.
pub enum DecodedSeq {
    /// The trees read, and the offset after the last.
    Done(Seq<ConstNode>, int),
    Fatal(ConstError),
    Panic,
}

/// The result of turning one scalar into a constant.
pub enum DecodedScalar {
    Done(ConstNode),
    Fatal(ConstError),
    Panic,
}

/// The primitive kind of a scalar type, or the error for a size that has
/// none; `None` for a type that is no scalar.
pub open spec fn scalar_primitive(t: TypeModel) -> Option<Result<Primitive, ConstError>> {
    match t {
        TypeModel::Bool => Some(Ok(Primitive::Int(Integer::I8, false))),
        TypeModel::Integer(w, s) => match Integer::spec_from_bits(w) {
            Some(i) => Some(Ok(Primitive::Int(i, s))),
            None => Some(Err(ConstError::InvalidIntegerSize(w))),
        },
        TypeModel::Float(w) => if w == 32 {
            Some(Ok(Primitive::F32))
        } else if w == 64 {
            Some(Ok(Primitive::F64))
        } else {
            Some(Err(ConstError::InvalidFloatSize(w)))
        },
        TypeModel::Pointer { .. } => Some(Ok(Primitive::Pointer)),
        _ => None,
    }
}

/// The pointer view of the value a tree stands for: its storage class and
/// pointee type, if it is a pointer.
pub open spec fn pointer_view(m: CxModel, n: ConstNode) -> Option<(u32, TypeRef)> {
    match n {
        ConstNode::GlobalPtr(inner) => Some((STORAGE_CLASS_FUNCTION, node_type(*inner))),
        ConstNode::Given(v) => match m.types[v.ty].ty {
            TypeModel::Pointer { storage_class, pointee } => Some(
                (storage_class, TypeRef::Id(pointee)),
            ),
            _ => None,
        },
        _ => None,
    }
}

/// Turns a pointer scalar into a constant of type `ty`, once its target has
/// been resolved to `base`.
pub open spec fn decode_pointer_base(
    m: CxModel,
    base: ConstNode,
    offset: u64,
    prim: Primitive,
    ty: Word,
) -> DecodedScalar {
    if offset != 0 {
        DecodedScalar::Fatal(ConstError::NonZeroPointerOffset)
    } else if prim != Primitive::Pointer {
        DecodedScalar::Fatal(ConstError::NonPointerScalarPtr)
    } else if !m.types.contains_key(ty) || (base is Given && !m.types.contains_key(
        base->Given_0.ty,
    )) {
        DecodedScalar::Panic
    } else {
        match (pointer_view(m, base), m.types[ty].ty) {
            (Some((a_space, a)), TypeModel::Pointer { storage_class: b_space, pointee: b }) => {
                if !type_matches(m, a, b) {
                    DecodedScalar::Panic
                } else if a_space != b_space {
                    DecodedScalar::Done(
                        ConstNode::Marked(Box::new(base), ZombieReason::InvalidPointerSpace, false),
                    )
                } else {
                    DecodedScalar::Done(base)
                }
            },
            _ => if type_matches(m, node_type(base), ty) {
                DecodedScalar::Done(base)
            } else {
                DecodedScalar::Panic
            },
        }
    }
}

/// Turns an integer scalar of kind `prim` into a constant of type `ty`. A
/// pointer-kind scalar does not look `ty` up: null for 0, a marked undefined
/// value otherwise.
pub open spec fn decode_int_scalar(m: CxModel, data: u128, size: u8, prim: Primitive, ty: Word) -> DecodedScalar {
    if size as u64 != prim.spec_size(m.pointer_size) {
        DecodedScalar::Panic
    } else {
        match prim {
            Primitive::Int(isz, signed) => if !m.types.contains_key(ty) {
                DecodedScalar::Panic
            } else {
                match m.types[ty].ty {
                    TypeModel::Integer(width, sgn) => {
                        if width as u64 != 8 * isz.spec_size() || (!m.kernel_mode && sgn != signed) {
                            DecodedScalar::Panic
                        } else {
                            match int_plan(m.types[ty].ty, ty, data as u64) {
                                IntPlan::Const(c) => DecodedScalar::Done(ConstNode::Leaf(c)),
                                IntPlan::Undef128 => DecodedScalar::Done(
                                    ConstNode::Marked(
                                        Box::new(ConstNode::Leaf(ConstModel::Undef(ty))),
                                        ZombieReason::U128Constant,
                                        false,
                                    ),
                                ),
                                IntPlan::InvalidBool => DecodedScalar::Fatal(
                                    ConstError::InvalidBoolValue(data as u64 as u128),
                                ),
                                IntPlan::InvalidType => DecodedScalar::Fatal(
                                    ConstError::ConstantIntInvalidType(ty),
                                ),
                            }
                        }
                    },
                    TypeModel::Bool => if data == 0 {
                        DecodedScalar::Done(ConstNode::Leaf(ConstModel::Bool(ty, false)))
                    } else if data == 1 {
                        DecodedScalar::Done(ConstNode::Leaf(ConstModel::Bool(ty, true)))
                    } else {
                        DecodedScalar::Fatal(ConstError::InvalidBoolValue(data))
                    },
                    _ => DecodedScalar::Fatal(ConstError::ScalarIntUnsupportedType(ty)),
                }
            },
            Primitive::F32 => if m.types.contains_key(ty) && m.types[ty].ty == TypeModel::Float(32) {
                DecodedScalar::Done(ConstNode::Leaf(ConstModel::F32(ty, data as u32)))
            } else {
                DecodedScalar::Panic
            },
            Primitive::F64 => if m.types.contains_key(ty) && m.types[ty].ty == TypeModel::Float(64) {
                DecodedScalar::Done(ConstNode::Leaf(ConstModel::F64(ty, data as u64)))
            } else {
                DecodedScalar::Panic
            },
            Primitive::Pointer => if data == 0 {
                DecodedScalar::Done(ConstNode::Leaf(ConstModel::Null(ty)))
            } else {
                DecodedScalar::Done(
                    ConstNode::Marked(
                        Box::new(ConstNode::Leaf(ConstModel::Undef(ty))),
                        ZombieReason::NonNullPointerAddress,
                        true,
                    ),
                )
            },
        }
    }
}

/// Turns scalar `sc` of kind `prim`, read from an allocation of rank `rank`
/// (allocations of lower rank may be read for the pointers it holds), into
/// a constant of type `ty`.
pub open spec fn decode_scalar(m: CxModel, rank: nat, sc: Scalar, prim: Primitive, ty: Word) -> DecodedScalar
    decreases rank, 2 * ty, 1nat,
{
    match sc {
        Scalar::Int { data, size } => decode_int_scalar(m, data, size, prim, ty),
        Scalar::Ptr { alloc_id, offset } => {
            if alloc_id >= m.allocs.len() || alloc_id >= rank {
                DecodedScalar::Panic
            } else {
                match m.allocs[alloc_id as int] {
                    GlobalAlloc::Memory(a) => {
                        if !m.types.contains_key(ty) {
                            DecodedScalar::Panic
                        } else {
                            match m.types[ty].ty {
                                TypeModel::Pointer { pointee, .. } => match decode_alloc(
                                    m,
                                    alloc_id as nat,
                                    a@,
                                    pointee,
                                ) {
                                    DecodedScalar::Done(init) => decode_pointer_base(
                                        m,
                                        ConstNode::GlobalPtr(Box::new(init)),
                                        offset,
                                        prim,
                                        ty,
                                    ),
                                    DecodedScalar::Fatal(e) => DecodedScalar::Fatal(e),
                                    DecodedScalar::Panic => DecodedScalar::Panic,
                                },
                                _ => DecodedScalar::Fatal(ConstError::MemoryPointerTypeNotPointer(ty)),
                            }
                        }
                    },
                    GlobalAlloc::Function(v) => decode_pointer_base(
                        m,
                        ConstNode::Given(v),
                        offset,
                        prim,
                        ty,
                    ),
                    GlobalAlloc::Static(v) => decode_pointer_base(
                        m,
                        ConstNode::Given(v),
                        offset,
                        prim,
                        ty,
                    ),
                }
            }
        },
    }
}

/// Reads the whole allocation `a` (of rank `rank`) at type `ty`, from
/// offset 0; every byte must be consumed.
pub open spec fn decode_alloc(m: CxModel, rank: nat, a: AllocView, ty: Word) -> DecodedScalar
    decreases rank, 2 * ty + 2, 0nat,
{
    match decode_value(m, rank, a, 0, ty) {
        Decoded::Done(n, end) => if end == a.bytes.len() {
            DecodedScalar::Done(n)
        } else {
            DecodedScalar::Panic
        },
        Decoded::Fatal(e) => DecodedScalar::Fatal(e),
        Decoded::Panic => DecodedScalar::Panic,
    }
}

/// Reads a value of type `ty` from allocation `a` at `offset`, first rounded
/// up to the type's alignment.
pub open spec fn decode_value(m: CxModel, rank: nat, a: AllocView, offset: int, ty: Word) -> Decoded
    decreases rank, 2 * ty + 1, 0nat,
{
    if !m.types.contains_key(ty) || m.types[ty].align < 1 || offset < 0 {
        Decoded::Panic
    } else {
        let info = m.types[ty];
        let start = align_up(offset, info.align as int);
        if start > u64::MAX {
            Decoded::Panic
        } else {
            match info.ty {
                TypeModel::Void => Decoded::Fatal(ConstError::VoidConstAlloc),
                TypeModel::Opaque { .. } => Decoded::Fatal(ConstError::OpaqueConstAlloc(ty)),
                TypeModel::Function { .. } => Decoded::Fatal(ConstError::FunctionConstAlloc),
                TypeModel::Image { .. } => Decoded::Fatal(ConstError::ImageConstAlloc),
                TypeModel::Sampler => Decoded::Fatal(ConstError::SamplerConstAlloc),
                TypeModel::SampledImage { .. } => Decoded::Fatal(ConstError::SampledImageConstAlloc),
                TypeModel::Adt { size, field_types, field_offsets, .. } => {
                    let n = if field_types.len() < field_offsets.len() {
                        field_types.len()
                    } else {
                        field_offsets.len()
                    };
                    match decode_fields(m, rank, a, start, ty, field_types, field_offsets, n) {
                        DecodedSeq::Done(kids, _) => match size {
                            Some(s) => if start + s > u64::MAX {
                                Decoded::Panic
                            } else {
                                Decoded::Done(ConstNode::Composite(ty, kids), start + s)
                            },
                            None => if start == a.bytes.len() {
                                Decoded::Done(ConstNode::Composite(ty, kids), start)
                            } else {
                                Decoded::Panic
                            },
                        },
                        DecodedSeq::Fatal(e) => Decoded::Fatal(e),
                        DecodedSeq::Panic => Decoded::Panic,
                    }
                },
                TypeModel::Array { element, count } => match const_u64_value(m.consts.get(count)) {
                    None => Decoded::Panic,
                    Some(c) => match decode_elems(m, rank, a, start, ty, element, c as usize as nat) {
                        DecodedSeq::Done(kids, end) => Decoded::Done(ConstNode::Composite(ty, kids), end),
                        DecodedSeq::Fatal(e) => Decoded::Fatal(e),
                        DecodedSeq::Panic => Decoded::Panic,
                    },
                },
                TypeModel::Vector { element, count } => match info.size {
                    None => Decoded::Panic,
                    Some(total) => if start + total > u64::MAX {
                        Decoded::Panic
                    } else {
                        match decode_elems(m, rank, a, start, ty, element, count as nat) {
                            DecodedSeq::Done(kids, end) => if end > start + total {
                                Decoded::Panic
                            } else {
                                Decoded::Done(ConstNode::Composite(ty, kids), start + total)
                            },
                            DecodedSeq::Fatal(e) => Decoded::Fatal(e),
                            DecodedSeq::Panic => Decoded::Panic,
                        }
                    },
                },
                TypeModel::RuntimeArray { element } => match decode_runtime(
                    m,
                    rank,
                    a,
                    ty,
                    element,
                    start,
                    Seq::empty(),
                ) {
                    DecodedSeq::Done(kids, end) => Decoded::Done(
                        ConstNode::Marked(
                            Box::new(ConstNode::Composite(ty, kids)),
                            ZombieReason::RuntimeArrayValue,
                            true,
                        ),
                        end,
                    ),
                    DecodedSeq::Fatal(e) => Decoded::Fatal(e),
                    DecodedSeq::Panic => Decoded::Panic,
                },
                _ => {
                    // a scalar: bool, integer, float or pointer
                    match info.size {
                        None => Decoded::Panic,
                        Some(size) => match scalar_primitive(info.ty) {
                            Some(Err(e)) => Decoded::Fatal(e),
                            Some(Ok(prim)) => if size < 1 || size > 16 {
                                Decoded::Panic
                            } else {
                                match read_scalar_spec(a, start as u64, size, m.pointer_size) {
                                    None => Decoded::Panic,
                                    Some(ScalarMaybeUninit::Uninit) => Decoded::Done(
                                        ConstNode::Leaf(ConstModel::Undef(ty)),
                                        start + size,
                                    ),
                                    Some(ScalarMaybeUninit::Scalar(sc)) => match decode_scalar(
                                        m,
                                        rank,
                                        sc,
                                        prim,
                                        ty,
                                    ) {
                                        DecodedScalar::Done(n) => Decoded::Done(n, start + size),
                                        DecodedScalar::Fatal(e) => Decoded::Fatal(e),
                                        DecodedScalar::Panic => Decoded::Panic,
                                    },
                                }
                            },
                            None => Decoded::Panic,
                        },
                    }
                },
            }
        }
    }
}

/// Reads the first `k` fields of a struct of type `parent`, field `i` of
/// type `field_types[i]` at `base + field_offsets[i]`.
pub open spec fn decode_fields(
    m: CxModel,
    rank: nat,
    a: AllocView,
    base: int,
    parent: Word,
    field_types: Seq<Word>,
    field_offsets: Seq<u64>,
    k: nat,
) -> DecodedSeq
    decreases rank, 2 * parent, k,
{
    if k == 0 || k > field_types.len() || k > field_offsets.len() {
        DecodedSeq::Done(Seq::empty(), base)
    } else {
        match decode_fields(m, rank, a, base, parent, field_types, field_offsets, (k - 1) as nat) {
            DecodedSeq::Done(kids, _) => {
                let ft = field_types[k - 1];
                let start = base + field_offsets[k - 1];
                if ft >= parent || start > u64::MAX {
                    DecodedSeq::Panic
                } else {
                    match decode_value(m, rank, a, start, ft) {
                        Decoded::Done(n, _) => DecodedSeq::Done(kids.push(n), base),
                        Decoded::Fatal(e) => DecodedSeq::Fatal(e),
                        Decoded::Panic => DecodedSeq::Panic,
                    }
                }
            },
            other => other,
        }
    }
}

/// Reads `k` values of type `element`, one after the other from `start`,
/// as the elements of an array or vector of type `parent`.
pub open spec fn decode_elems(
    m: CxModel,
    rank: nat,
    a: AllocView,
    start: int,
    parent: Word,
    element: Word,
    k: nat,
) -> DecodedSeq
    decreases rank, 2 * parent, k,
{
    if k == 0 {
        DecodedSeq::Done(Seq::empty(), start)
    } else {
        match decode_elems(m, rank, a, start, parent, element, (k - 1) as nat) {
            DecodedSeq::Done(kids, off) => {
                if element >= parent {
                    DecodedSeq::Panic
                } else {
                    match decode_value(m, rank, a, off, element) {
                        Decoded::Done(n, end) => DecodedSeq::Done(kids.push(n), end),
                        Decoded::Fatal(e) => DecodedSeq::Fatal(e),
                        Decoded::Panic => DecodedSeq::Panic,
                    }
                }
            },
            other => other,
        }
    }
}

/// Reads values of type `element` from `offset` on, after the values `acc`
/// already read, until the end of the allocation; a value that does not
/// advance, or that runs past the end, leaves the reading without result.
pub open spec fn decode_runtime(
    m: CxModel,
    rank: nat,
    a: AllocView,
    parent: Word,
    element: Word,
    offset: int,
    acc: Seq<ConstNode>,
) -> DecodedSeq
    decreases rank, 2 * parent, (if offset <= a.bytes.len() {
        a.bytes.len() - offset
    } else {
        0
    }),
{
    if offset == a.bytes.len() {
        DecodedSeq::Done(acc, offset)
    } else if offset > a.bytes.len() || element >= parent {
        DecodedSeq::Panic
    } else {
        match decode_value(m, rank, a, offset, element) {
            Decoded::Done(n, end) => if end <= offset || end > a.bytes.len() {
                DecodedSeq::Panic
            } else {
                decode_runtime(m, rank, a, parent, element, end, acc.push(n))
            },
            Decoded::Fatal(e) => DecodedSeq::Fatal(e),
            Decoded::Panic => DecodedSeq::Panic,
        }
    }
}

/// A type id keeps standing for its type as the state grows.
pub proof fn lemma_ty_denotes_extends(c1: CxModel, c2: CxModel, ty: Word, r: TypeRef)
    requires
        c2.extends(c1),
        ty_denotes(c1, ty, r),
    ensures
        ty_denotes(c2, ty, r),
    decreases r,
{
    match r {
        TypeRef::Id(_) => {},
        TypeRef::FunctionPtrTo(inner) => {
            lemma_extends_keeps(c1, c2, ty);
            match c1.types[ty].ty {
                TypeModel::Pointer { pointee, .. } => {
                    lemma_ty_denotes_extends(c1, c2, pointee, *inner);
                },
                _ => {},
            }
        },
    }
}

/// A mark stays as the state grows.
pub proof fn lemma_marked_extends(c1: CxModel, c2: CxModel, id: Word, reason: ZombieReason, always: bool)
    requires
        c2.extends(c1),
        marked(c1, id, reason, always),
    ensures
        marked(c2, id, reason, always),
{
    if always || c1.system_crate {
        let z = crate::cx::Zombie { id, reason };
        let i = choose|i: int| 0 <= i < c1.zombies.len() && c1.zombies[i] == z;
        assert(c2.zombies.subrange(0, c1.zombies.len() as int)[i] == c2.zombies[i]);
        assert(c2.zombies.contains(z));
    } else {
        let i = choose|i: int| 0 <= i < c1.diagnostics.len() && c1.diagnostics[i] == reason;
        assert(c2.diagnostics.subrange(0, c1.diagnostics.len() as int)[i] == c2.diagnostics[i]);
        assert(c2.diagnostics.contains(reason));
    }
}

/// An id keeps standing for its tree as the state grows.
pub proof fn lemma_id_denotes_extends(c1: CxModel, c2: CxModel, id: Word, n: ConstNode)
    requires
        c2.extends(c1),
        id_denotes(c1, id, n),
    ensures
        id_denotes(c2, id, n),
    decreases n,
{
    match n {
        ConstNode::Leaf(_) => {
            lemma_extends_keeps(c1, c2, id);
        },
        ConstNode::Composite(ty, kids) => {
            assert(c1.consts.dom().contains(id));
            match c1.consts[id] {
                ConstModel::Composite(t, ids) => {
                    assert forall|i: int| 0 <= i < kids.len() implies id_denotes(
                        c2,
                        #[trigger] ids[i],
                        kids[i],
                    ) by {
                        assert(decreases_to!(n => kids[i]));
                        lemma_id_denotes_extends(c1, c2, ids[i], kids[i]);
                    }
                    assert(c1.consts.contains_key(id));
                    assert(c2.consts.contains_key(id));
                    assert(c2.consts[id] == c1.consts[id]);
                    assert(c2.consts[id] == ConstModel::Composite(t, ids));
                    assert(id_denotes(c2, id, n));
                },
                _ => {},
            }
        },
        ConstNode::Marked(inner, reason, always) => {
            lemma_id_denotes_extends(c1, c2, id, *inner);
            lemma_marked_extends(c1, c2, id, reason, always);
        },
        ConstNode::GlobalPtr(inner) => {
            lemma_extends_keeps(c1, c2, id);
            lemma_id_denotes_extends(c1, c2, c1.globals[id].initializer, *inner);
            lemma_ty_denotes_extends(c1, c2, c1.globals[id].ty, node_type(n));
        },
        ConstNode::Given(_) => {},
    }
}

/// A value keeps standing for its tree as the state grows.
pub proof fn lemma_denotes_extends(c1: CxModel, c2: CxModel, v: SpirvValue, n: ConstNode)
    requires
        c2.extends(c1),
        denotes(c1, v, n),
    ensures
        denotes(c2, v, n),
    decreases n,
{
    match n {
        ConstNode::Given(_) => {},
        ConstNode::Marked(inner, reason, always) => {
            lemma_denotes_extends(c1, c2, v, *inner);
            lemma_marked_extends(c1, c2, v.spec_def(), reason, always);
        },
        ConstNode::GlobalPtr(_) => {
            lemma_extends_keeps(c1, c2, v.spec_def());
            lemma_id_denotes_extends(c1, c2, v.spec_def(), n);
        },
        _ => {
            lemma_id_denotes_extends(c1, c2, v.spec_def(), n);
            lemma_ty_denotes_extends(c1, c2, v.ty, node_type(n));
        },
    }
}

/// A value that stands for a tree has the tree's type, and its id stands
/// for the tree.
pub proof fn lemma_denotes_parts(cx: CxModel, v: SpirvValue, n: ConstNode)
    requires
        denotes(cx, v, n),
    ensures
        id_denotes(cx, v.spec_def(), n),
        ty_denotes(cx, v.ty, node_type(n)),
    decreases n,
{
    match n {
        ConstNode::Marked(inner, _, _) => {
            lemma_denotes_parts(cx, v, *inner);
        },
        _ => {},
    }
}

/// Against a state that extends `m0`, the type id `a` that stands for `r`
/// is the id `b` of `m0`'s table exactly when `r` matches `b` there.
pub proof fn lemma_type_matches(m0: CxModel, cx: CxModel, a: Word, r: TypeRef, b: Word)
    requires
        m0.wf(),
        cx.wf(),
        cx.extends(m0),
        ty_denotes(cx, a, r),
        b < m0.next_id,
    ensures
        (a == b) == type_matches(m0, r, b),
    decreases r,
{
    match r {
        TypeRef::Id(_) => {},
        TypeRef::FunctionPtrTo(inner) => {
            let ta = cx.types[a].ty;
            let pa = ta->Pointer_pointee;
            if m0.types.contains_key(b) {
                assert(m0.types.dom().contains(b));
                assert(cx.types.dom().contains(b) || !cx.types.dom().contains(b));
                let tb = m0.types[b].ty;
                assert(cx.types.contains_key(b));
                assert(cx.types[b] == m0.types[b]);
                match tb {
                    TypeModel::Pointer { storage_class, pointee } => {
                        assert(crate::cx::refs_below(tb, m0.next_id));
                        lemma_type_matches(m0, cx, pa, *inner, pointee);
                        assert(cx.type_ids[ta] == a);
                        assert(cx.type_ids[tb] == b);
                    },
                    _ => {
                        assert(cx.type_ids[ta] == a);
                    },
                }
            } else {
                if a == b {
                    assert(cx.types.contains_key(b));
                }
            }
        },
    }
}

/// Marking through `after_zombie_no_span` makes the mark of a
/// `false`-marked tree.
pub proof fn lemma_marked_no_span(m: CxModel, id: Word, reason: ZombieReason)
    ensures
        marked(m.after_zombie_no_span(id, reason), id, reason, false),
        marked(m.after_zombie(id, reason), id, reason, true),
{
    let z = crate::cx::Zombie { id, reason };
    assert(m.after_zombie(id, reason).zombies[m.zombies.len() as int] == z);
    if !m.system_crate {
        let d = m.after_zombie_no_span(id, reason);
        assert(d.diagnostics[m.diagnostics.len() as int] == reason);
    }
}

/// Once reading the first `i` fields stops, reading the first `k` stops the
/// same way.
pub proof fn lemma_fields_stop(
    m: CxModel,
    rank: nat,
    a: AllocView,
    base: int,
    parent: Word,
    fts: Seq<Word>,
    fos: Seq<u64>,
    i: nat,
    k: nat,
)
    requires
        i <= k <= fts.len(),
        k <= fos.len(),
        !(decode_fields(m, rank, a, base, parent, fts, fos, i) is Done),
    ensures
        decode_fields(m, rank, a, base, parent, fts, fos, k) == decode_fields(
            m,
            rank,
            a,
            base,
            parent,
            fts,
            fos,
            i,
        ),
    decreases k,
{
    if k > i {
        lemma_fields_stop(m, rank, a, base, parent, fts, fos, i, (k - 1) as nat);
    }
}

/// Once reading the first `i` elements stops, reading the first `k` stops
/// the same way.
pub proof fn lemma_elems_stop(
    m: CxModel,
    rank: nat,
    a: AllocView,
    start: int,
    parent: Word,
    element: Word,
    i: nat,
    k: nat,
)
    requires
        i <= k,
        !(decode_elems(m, rank, a, start, parent, element, i) is Done),
    ensures
        decode_elems(m, rank, a, start, parent, element, k) == decode_elems(
            m,
            rank,
            a,
            start,
            parent,
            element,
            i,
        ),
    decreases k,
{
    if k > i {
        lemma_elems_stop(m, rank, a, start, parent, element, i, (k - 1) as nat);
    }
}

/// Building one more tree after `kids`.
pub proof fn lemma_build_seq_push(m: CxModel, kids: Seq<ConstNode>, n: ConstNode)
    ensures
        build_seq(m, kids.push(n)) == match build_seq(m, kids) {
            Some((ids, m2)) => match build(m2, n) {
                Some((v, m3)) => Some((ids.push(v.spec_def()), m3)),
                None => None,
            },
            None => None,
        },
{
    assert(kids.push(n).subrange(0, kids.len() as int) =~= kids);
}

/// Where building a prefix of `kids` runs out of ids, building `kids` does.
pub proof fn lemma_build_seq_prefix(m: CxModel, kids: Seq<ConstNode>, i: nat)
    requires
        i <= kids.len(),
        build_seq(m, kids.subrange(0, i as int)) is None,
    ensures
        build_seq(m, kids) is None,
    decreases kids.len(),
{
    if i == kids.len() {
        assert(kids.subrange(0, i as int) =~= kids);
    } else {
        let k2 = kids.subrange(0, kids.len() - 1);
        assert(k2.subrange(0, i as int) =~= kids.subrange(0, i as int));
        lemma_build_seq_prefix(m, k2, i);
    }
}

/// Reading the first `i` fields gives a prefix of what reading the first
/// `k` gives, where that is a result.
pub proof fn lemma_fields_prefix(
    m: CxModel,
    rank: nat,
    a: AllocView,
    base: int,
    parent: Word,
    fts: Seq<Word>,
    fos: Seq<u64>,
    i: nat,
    k: nat,
)
    requires
        i <= k <= fts.len(),
        k <= fos.len(),
        decode_fields(m, rank, a, base, parent, fts, fos, k) is Done,
    ensures
        decode_fields(m, rank, a, base, parent, fts, fos, i) is Done,
        decode_fields(m, rank, a, base, parent, fts, fos, k)->Done_0.len() == k,
        decode_fields(m, rank, a, base, parent, fts, fos, i)->Done_0 == decode_fields(
            m,
            rank,
            a,
            base,
            parent,
            fts,
            fos,
            k,
        )->Done_0.subrange(0, i as int),
    decreases k,
{
    if k > 0 {
        lemma_fields_prefix(m, rank, a, base, parent, fts, fos, if i < k { i } else { (k - 1) as nat }, (k - 1) as nat);
        let kk = decode_fields(m, rank, a, base, parent, fts, fos, k)->Done_0;
        let k1 = decode_fields(m, rank, a, base, parent, fts, fos, (k - 1) as nat)->Done_0;
        assert(kk.subrange(0, k - 1) =~= k1);
        if i < k {
            assert(kk.subrange(0, i as int) =~= k1.subrange(0, i as int));
        } else {
            assert(kk.subrange(0, i as int) =~= kk);
        }
    } else {
        assert(decode_fields(m, rank, a, base, parent, fts, fos, k)->Done_0.subrange(0, 0) =~= Seq::<ConstNode>::empty());
    }
}

/// Reading the first `i` elements gives a prefix of what reading the first
/// `k` gives, where that is a result.
pub proof fn lemma_elems_prefix(
    m: CxModel,
    rank: nat,
    a: AllocView,
    start: int,
    parent: Word,
    element: Word,
    i: nat,
    k: nat,
)
    requires
        i <= k,
        decode_elems(m, rank, a, start, parent, element, k) is Done,
    ensures
        decode_elems(m, rank, a, start, parent, element, i) is Done,
        decode_elems(m, rank, a, start, parent, element, k)->Done_0.len() == k,
        decode_elems(m, rank, a, start, parent, element, i)->Done_0 == decode_elems(
            m,
            rank,
            a,
            start,
            parent,
            element,
            k,
        )->Done_0.subrange(0, i as int),
    decreases k,
{
    if k > 0 {
        lemma_elems_prefix(m, rank, a, start, parent, element, if i < k { i } else { (k - 1) as nat }, (k - 1) as nat);
        let kk = decode_elems(m, rank, a, start, parent, element, k)->Done_0;
        let k1 = decode_elems(m, rank, a, start, parent, element, (k - 1) as nat)->Done_0;
        assert(kk.subrange(0, k - 1) =~= k1);
        if i < k {
            assert(kk.subrange(0, i as int) =~= k1.subrange(0, i as int));
        } else {
            assert(kk.subrange(0, i as int) =~= kk);
        }
    } else {
        assert(decode_elems(m, rank, a, start, parent, element, k)->Done_0.subrange(0, 0) =~= Seq::<ConstNode>::empty());
    }
}

/// The values already read are a prefix of what reading a runtime array on
/// gives, where that is a result.
pub proof fn lemma_runtime_prefix(
    m: CxModel,
    rank: nat,
    a: AllocView,
    parent: Word,
    element: Word,
    offset: int,
    acc: Seq<ConstNode>,
)
    requires
        decode_runtime(m, rank, a, parent, element, offset, acc) is Done,
    ensures
        ({
            let kk = decode_runtime(m, rank, a, parent, element, offset, acc)->Done_0;
            acc.len() <= kk.len() && kk.subrange(0, acc.len() as int) == acc
        }),
    decreases (if offset <= a.bytes.len() {
        a.bytes.len() - offset
    } else {
        0
    }),
{
    let kk = decode_runtime(m, rank, a, parent, element, offset, acc)->Done_0;
    if offset == a.bytes.len() {
        assert(kk.subrange(0, acc.len() as int) =~= acc);
    } else {
        let d = decode_value(m, rank, a, offset, element);
        let n = d->Done_0;
        let end = d->Done_1;
        lemma_runtime_prefix(m, rank, a, parent, element, end, acc.push(n));
        assert(kk.subrange(0, acc.len() as int) =~= acc.push(n).subrange(0, acc.len() as int));
        assert(acc.push(n).subrange(0, acc.len() as int) =~= acc);
    }
}

/// Whether a tree holds no pointer to a new variable.
pub open spec fn pointer_free(n: ConstNode) -> bool
    decreases n,
{
    match n {
        ConstNode::Leaf(_) => true,
        ConstNode::Composite(_, kids) => forall|i: int| 0 <= i < kids.len() ==> pointer_free(#[trigger] kids[i]),
        ConstNode::Marked(inner, _, _) => pointer_free(*inner),
        ConstNode::GlobalPtr(_) => false,
        ConstNode::Given(_) => true,
    }
}

/// In an interned state, at most one id stands for a tree without pointers
/// to new variables.
pub proof fn lemma_id_denotes_unique(cx: CxModel, id1: Word, id2: Word, n: ConstNode)
    requires
        cx.wf(),
        pointer_free(n),
        id_denotes(cx, id1, n),
        id_denotes(cx, id2, n),
    ensures
        id1 == id2,
    decreases n,
{
    match n {
        ConstNode::Leaf(c) => {
            assert(cx.const_ids[cx.consts[id1]] == id1);
            assert(cx.const_ids[cx.consts[id2]] == id2);
        },
        ConstNode::Composite(ty, kids) => {
            let ids1 = cx.consts[id1]->Composite_1;
            let ids2 = cx.consts[id2]->Composite_1;
            assert forall|i: int| 0 <= i < kids.len() implies ids1[i] == ids2[i] by {
                assert(decreases_to!(n => kids[i]));
                assert(id_denotes(cx, ids1[i], kids[i]));
                assert(id_denotes(cx, ids2[i], kids[i]));
                lemma_id_denotes_unique(cx, ids1[i], ids2[i], kids[i]);
            }
            assert(ids1 =~= ids2);
            assert(cx.consts[id1] == cx.consts[id2]);
            assert(cx.const_ids[cx.consts[id1]] == id1);
            assert(cx.const_ids[cx.consts[id2]] == id2);
        },
        ConstNode::Marked(inner, _, _) => {
            lemma_id_denotes_unique(cx, id1, id2, *inner);
        },
        ConstNode::GlobalPtr(_) => {},
        ConstNode::Given(_) => {},
    }
}

/// In an interned state, at most one value stands for a tree without
/// pointers to new variables.
pub proof fn lemma_denotes_unique(cx: CxModel, v1: SpirvValue, v2: SpirvValue, n: ConstNode)
    requires
        cx.wf(),
        pointer_free(n),
        denotes(cx, v1, n),
        denotes(cx, v2, n),
    ensures
        v1 == v2,
    decreases n,
{
    match n {
        ConstNode::Given(_) => {},
        ConstNode::Marked(inner, _, _) => {
            lemma_denotes_unique(cx, v1, v2, *inner);
        },
        ConstNode::GlobalPtr(_) => {},
        _ => {
            lemma_id_denotes_unique(cx, v1.spec_def(), v2.spec_def(), n);
        },
    }
}

/// What matches a type keeps matching it as the state grows.
proof fn lemma_type_matches_extends(m1: CxModel, m2: CxModel, r: TypeRef, b: Word)
    requires
        m2.extends(m1),
        type_matches(m1, r, b),
    ensures
        type_matches(m2, r, b),
    decreases r,
{
    match r {
        TypeRef::Id(_) => {},
        TypeRef::FunctionPtrTo(inner) => {
            lemma_extends_keeps(m1, m2, b);
            match m1.types[b].ty {
                TypeModel::Pointer { pointee, .. } => {
                    lemma_type_matches_extends(m1, m2, *inner, pointee);
                },
                _ => {},
            }
        },
    }
}

proof fn lemma_stable_pointer_base(m1: CxModel, m2: CxModel, base: ConstNode, offset: u64, prim: Primitive, ty: Word)
    requires
        m2.extends(m1),
        !(decode_pointer_base(m1, base, offset, prim, ty) is Panic),
    ensures
        decode_pointer_base(m2, base, offset, prim, ty) == decode_pointer_base(m1, base, offset, prim, ty),
{
    lemma_extends_keeps(m1, m2, ty);
    if base is Given {
        lemma_extends_keeps(m1, m2, base->Given_0.ty);
    }
    if offset == 0 && prim == Primitive::Pointer && m1.types.contains_key(ty) {
        match (pointer_view(m1, base), m1.types[ty].ty) {
            (Some((a_space, a)), TypeModel::Pointer { storage_class: b_space, pointee: b }) => {
                lemma_type_matches_extends(m1, m2, a, b);
            },
            _ => {
                lemma_type_matches_extends(m1, m2, node_type(base), ty);
            },
        }
    }
}

proof fn lemma_stable_int_scalar(m1: CxModel, m2: CxModel, data: u128, size: u8, prim: Primitive, ty: Word)
    requires
        m2.extends(m1),
        !(decode_int_scalar(m1, data, size, prim, ty) is Panic),
    ensures
        decode_int_scalar(m2, data, size, prim, ty) == decode_int_scalar(m1, data, size, prim, ty),
{
    lemma_extends_keeps(m1, m2, ty);
}

proof fn lemma_stable_scalar(m1: CxModel, m2: CxModel, rank: nat, sc: Scalar, prim: Primitive, ty: Word)
    requires
        m1.wf(),
        m2.wf(),
        m2.extends(m1),
        !(decode_scalar(m1, rank, sc, prim, ty) is Panic),
    ensures
        decode_scalar(m2, rank, sc, prim, ty) == decode_scalar(m1, rank, sc, prim, ty),
    decreases rank, 2 * ty, 1nat,
{
    match sc {
        Scalar::Int { data, size } => {
            lemma_stable_int_scalar(m1, m2, data, size, prim, ty);
        },
        Scalar::Ptr { alloc_id, offset } => {
            lemma_extends_keeps(m1, m2, ty);
            match m1.allocs[alloc_id as int] {
                GlobalAlloc::Memory(a) => {
                    match m1.types[ty].ty {
                        TypeModel::Pointer { pointee, .. } => {
                            lemma_stable_alloc(m1, m2, alloc_id as nat, a@, pointee);
                            match decode_alloc(m1, alloc_id as nat, a@, pointee) {
                                DecodedScalar::Done(init) => {
                                    lemma_stable_pointer_base(
                                        m1,
                                        m2,
                                        ConstNode::GlobalPtr(Box::new(init)),
                                        offset,
                                        prim,
                                        ty,
                                    );
                                },
                                _ => {},
                            }
                        },
                        _ => {},
                    }
                },
                GlobalAlloc::Function(v) => {
                    lemma_stable_pointer_base(m1, m2, ConstNode::Given(v), offset, prim, ty);
                },
                GlobalAlloc::Static(v) => {
                    lemma_stable_pointer_base(m1, m2, ConstNode::Given(v), offset, prim, ty);
                },
            }
        },
    }
}

proof fn lemma_stable_alloc(m1: CxModel, m2: CxModel, rank: nat, a: AllocView, ty: Word)
    requires
        m1.wf(),
        m2.wf(),
        m2.extends(m1),
        !(decode_alloc(m1, rank, a, ty) is Panic),
    ensures
        decode_alloc(m2, rank, a, ty) == decode_alloc(m1, rank, a, ty),
    decreases rank, 2 * ty + 2, 0nat,
{
    lemma_stable_value(m1, m2, rank, a, 0, ty);
}

proof fn lemma_stable_value(m1: CxModel, m2: CxModel, rank: nat, a: AllocView, offset: int, ty: Word)
    requires
        m1.wf(),
        m2.wf(),
        m2.extends(m1),
        !(decode_value(m1, rank, a, offset, ty) is Panic),
    ensures
        decode_value(m2, rank, a, offset, ty) == decode_value(m1, rank, a, offset, ty),
    decreases rank, 2 * ty + 1, 0nat,
{
    lemma_extends_keeps(m1, m2, ty);
    let info = m1.types[ty];
    let start = align_up(offset, info.align as int);
    match info.ty {
        TypeModel::Adt { size, field_types, field_offsets, .. } => {
            let n = if field_types.len() < field_offsets.len() {
                field_types.len()
            } else {
                field_offsets.len()
            };
            lemma_stable_fields(m1, m2, rank, a, start, ty, field_types, field_offsets, n);
        },
        TypeModel::Array { element, count } => {
            lemma_extends_keeps(m1, m2, count);
            match const_u64_value(m1.consts.get(count)) {
                Some(c) => {
                    lemma_stable_elems(m1, m2, rank, a, start, ty, element, c as usize as nat);
                },
                None => {},
            }
        },
        TypeModel::Vector { element, count } => {
            lemma_stable_elems(m1, m2, rank, a, start, ty, element, count as nat);
        },
        TypeModel::RuntimeArray { element } => {
            lemma_stable_runtime(m1, m2, rank, a, ty, element, start, Seq::empty());
        },
        _ => {
            match info.size {
                Some(size) => match scalar_primitive(info.ty) {
                    Some(Ok(prim)) => {
                        if 1 <= size <= 16 && start <= u64::MAX {
                            match read_scalar_spec(a, start as u64, size, m1.pointer_size) {
                                Some(ScalarMaybeUninit::Scalar(sc)) => {
                                    lemma_stable_scalar(m1, m2, rank, sc, prim, ty);
                                },
                                _ => {},
                            }
                        }
                    },
                    _ => {},
                },
                None => {},
            }
        },
    }
}

proof fn lemma_stable_fields(
    m1: CxModel,
    m2: CxModel,
    rank: nat,
    a: AllocView,
    base: int,
    parent: Word,
    fts: Seq<Word>,
    fos: Seq<u64>,
    k: nat,
)
    requires
        m1.wf(),
        m2.wf(),
        m2.extends(m1),
        !(decode_fields(m1, rank, a, base, parent, fts, fos, k) is Panic),
    ensures
        decode_fields(m2, rank, a, base, parent, fts, fos, k) == decode_fields(
            m1,
            rank,
            a,
            base,
            parent,
            fts,
            fos,
            k,
        ),
    decreases rank, 2 * parent, k,
{
    if k > 0 && k <= fts.len() && k <= fos.len() {
        lemma_stable_fields(m1, m2, rank, a, base, parent, fts, fos, (k - 1) as nat);
        match decode_fields(m1, rank, a, base, parent, fts, fos, (k - 1) as nat) {
            DecodedSeq::Done(_, _) => {
                let ft = fts[k - 1];
                let start = base + fos[k - 1];
                if ft < parent && start <= u64::MAX {
                    lemma_stable_value(m1, m2, rank, a, start, ft);
                }
            },
            _ => {},
        }
    }
}

proof fn lemma_stable_elems(
    m1: CxModel,
    m2: CxModel,
    rank: nat,
    a: AllocView,
    start: int,
    parent: Word,
    element: Word,
    k: nat,
)
    requires
        m1.wf(),
        m2.wf(),
        m2.extends(m1),
        !(decode_elems(m1, rank, a, start, parent, element, k) is Panic),
    ensures
        decode_elems(m2, rank, a, start, parent, element, k) == decode_elems(
            m1,
            rank,
            a,
            start,
            parent,
            element,
            k,
        ),
    decreases rank, 2 * parent, k,
{
    if k > 0 {
        lemma_stable_elems(m1, m2, rank, a, start, parent, element, (k - 1) as nat);
        match decode_elems(m1, rank, a, start, parent, element, (k - 1) as nat) {
            DecodedSeq::Done(_, off) => {
                if element < parent {
                    lemma_stable_value(m1, m2, rank, a, off, element);
                }
            },
            _ => {},
        }
    }
}

proof fn lemma_stable_runtime(
    m1: CxModel,
    m2: CxModel,
    rank: nat,
    a: AllocView,
    parent: Word,
    element: Word,
    offset: int,
    acc: Seq<ConstNode>,
)
    requires
        m1.wf(),
        m2.wf(),
        m2.extends(m1),
        !(decode_runtime(m1, rank, a, parent, element, offset, acc) is Panic),
    ensures
        decode_runtime(m2, rank, a, parent, element, offset, acc) == decode_runtime(
            m1,
            rank,
            a,
            parent,
            element,
            offset,
            acc,
        ),
    decreases rank, 2 * parent, (if offset <= a.bytes.len() {
        a.bytes.len() - offset
    } else {
        0
    }),
{
    if offset < a.bytes.len() && element < parent {
        lemma_stable_value(m1, m2, rank, a, offset, element);
        match decode_value(m1, rank, a, offset, element) {
            Decoded::Done(n, end) => {
                if offset < end <= a.bytes.len() {
                    lemma_stable_runtime(m1, m2, rank, a, parent, element, end, acc.push(n));
                }
            },
            _ => {},
        }
    }
}

/// Constant memory means the same as the module's tables grow: reading an
/// allocation at a type gives the same tree in any later state.
pub proof fn law_decode_stable(m1: CxModel, m2: CxModel, a: AllocView, ty: Word)
    requires
        m1.wf(),
        m2.wf(),
        m2.extends(m1),
        !(decode_alloc(m1, m1.allocs.len(), a, ty) is Panic),
    ensures
        decode_alloc(m2, m2.allocs.len(), a, ty) == decode_alloc(m1, m1.allocs.len(), a, ty),
{
    lemma_stable_alloc(m1, m2, m1.allocs.len(), a, ty);
}

} // verus!
