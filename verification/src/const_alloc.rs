//! Turning constant memory into SPIR-V constants: scalars (integers, bools,
//! floats, pointers into other allocations), and whole allocations read
//! through structs, arrays, vectors and runtime arrays. Each function here
//! gives what [`crate::decode`] says the memory means.
use vstd::prelude::*;
use crate::abi::{AbiScalar, Integer, Primitive};
use crate::constant::{int_plan, IntPlan};
use crate::cx::{
    lemma_after_def_const_has, lemma_extends_keeps, lemma_extends_refl, lemma_extends_trans,
    lemma_zombie_wf, CodegenCx, CxModel,
};
use crate::decode::{
    decode_alloc, decode_elems, decode_fields, decode_int_scalar, decode_runtime, decode_scalar,
    decode_value, denotes, id_denotes, lemma_denotes_extends, lemma_denotes_parts,
    lemma_elems_stop, lemma_fields_stop, lemma_id_denotes_extends, lemma_marked_no_span,
    node_type, pointer_to, DecodedScalar, scalar_outcome, scalar_built, value_built, build, build_seq, build_const, lemma_build_seq_push, lemma_build_seq_prefix,
    lemma_fields_prefix, lemma_elems_prefix, lemma_runtime_prefix, ty_denotes, value_outcome, ConstNode, DecodedSeq,
};
use crate::layout::{align_to, align_up};
use crate::memory::{ConstAllocation, GlobalAlloc, Scalar, ScalarMaybeUninit};
use crate::types::{copy_offsets, copy_words, ConstError, ConstModel, SpirvType, SpirvValue, TypeModel, Word, ZombieReason};

verus! {

impl CodegenCx {
    /// Turns integer scalar bits into a constant of type `ty`.
    #[verifier::spinoff_prover]
    fn int_scalar_to_backend(
        &mut self,
        data: u128,
        size: u8,
        prim: Primitive,
        ty: Word,
        Ghost(m0): Ghost<CxModel>,
    ) -> (r: Result<SpirvValue, ConstError>)
        requires
            old(self).wf(),
            m0.wf(),
            old(self)@.extends(m0),
            !(decode_int_scalar(m0, data, size, prim, ty) is Panic),
        ensures
            final(self).wf(),
            final(self)@.extends(old(self)@),
            scalar_outcome(final(self)@, decode_int_scalar(m0, data, size, prim, ty), r),
            scalar_built(old(self)@, final(self)@, decode_int_scalar(m0, data, size, prim, ty), r),
            old(self)@.types.contains_key(ty) ==> (r matches Ok(v) ==> final(self)@.types.contains_key(
                v.ty,
            )),
    {
        let ghost s0 = self@;
        let ghost d = decode_int_scalar(m0, data, size, prim, ty);
        proof {
            lemma_extends_keeps(m0, s0, ty);
            lemma_extends_refl(s0);
        }
        let kind: u8 = match self.lookup_type(ty) {
            Some(entry) => match &entry.ty {
                SpirvType::Integer(_, _) => 0,
                SpirvType::Bool => 1,
                SpirvType::Float(32) => 2,
                SpirvType::Float(64) => 3,
                _ => 4,
            },
            None => 5,
        };
        match prim {
            Primitive::Int(_, _) => {
                if kind == 0 {
                    let r = self.constant_int(ty, data as u64);
                    proof {
                        let c_plan = int_plan(s0.types[ty].ty, ty, data as u64);
                        match c_plan {
                            IntPlan::Const(c) => {
                                if r is Ok {
                                    lemma_after_def_const_has(s0, c);
                                }
                                assert(d == DecodedScalar::Done(ConstNode::Leaf(c)));
                                assert(build(s0, ConstNode::Leaf(c)) == build_const(s0, c));
                                assert(crate::constant::const_outcome(s0, self@, r, c));
                                if r is Ok {
                                    assert(r->Ok_0 == build_const(s0, c).unwrap().0);
                                    assert(self@ == build_const(s0, c).unwrap().1);
                                } else {
                                    assert(build_const(s0, c) is None);
                                    assert(r == Err::<SpirvValue, ConstError>(ConstError::IdsExhausted));
                                }
                                assert(scalar_built(s0, self@, d, r));
                            },
                            IntPlan::Undef128 => {
                                if r is Ok {
                                    let u = ConstModel::Undef(ty);
                                    lemma_after_def_const_has(s0, u);
                                    let mid = s0.after_def_const(u);
                                    lemma_marked_no_span(
                                        mid,
                                        s0.const_id_after_def(u),
                                        ZombieReason::U128Constant,
                                    );
                                    assert(self@.consts == mid.consts);
                                    assert(self@.types == s0.types);
                                    assert(denotes(self@, r->Ok_0, ConstNode::Leaf(u)));
                                }
                                let u = ConstModel::Undef(ty);
                                let leaf = ConstNode::Leaf(u);
                                assert(d == DecodedScalar::Done(ConstNode::Marked(Box::new(leaf), ZombieReason::U128Constant, false)));
                                assert(build(s0, leaf) == build_const(s0, u));
                                if r is Ok {
                                    let (v, m2) = build_const(s0, u).unwrap();
                                    assert(r->Ok_0 == v);
                                    assert(self@ == m2.after_zombie_no_span(v.spec_def(), ZombieReason::U128Constant));
                                    assert(build(s0, ConstNode::Marked(Box::new(leaf), ZombieReason::U128Constant, false)) == Some((v, m2.after_zombie_no_span(v.spec_def(), ZombieReason::U128Constant))));
                                } else {
                                    assert(build_const(s0, u) is None);
                                }
                                assert(scalar_built(s0, self@, d, r));
                            },
                            _ => {},
                        }
                        assert(scalar_built(s0, self@, d, r));
                    }
                    r
                } else if kind == 1 {
                    if data == 0 {
                        let r = self.constant_bool(false);
                        proof {
                            assert(s0.type_ids[TypeModel::Bool] == ty);
                            if r is Ok {
                                lemma_after_def_const_has(s0, ConstModel::Bool(ty, false));
                            }
                            assert(s0.after_def_type(TypeModel::Bool, Some(1), 1) == s0);
                            assert(scalar_built(s0, self@, d, r));
                        }
                        r
                    } else if data == 1 {
                        let r = self.constant_bool(true);
                        proof {
                            assert(s0.type_ids[TypeModel::Bool] == ty);
                            if r is Ok {
                                lemma_after_def_const_has(s0, ConstModel::Bool(ty, true));
                            }
                            assert(s0.after_def_type(TypeModel::Bool, Some(1), 1) == s0);
                            assert(scalar_built(s0, self@, d, r));
                        }
                        r
                    } else {
                        Err(ConstError::InvalidBoolValue(data))
                    }
                } else {
                    Err(ConstError::ScalarIntUnsupportedType(ty))
                }
            },
            Primitive::F32 => {
                let r = self.constant_f32(data as u32);
                proof {
                    assert(s0.type_ids[TypeModel::Float(32)] == ty);
                    if r is Ok {
                        lemma_after_def_const_has(s0, ConstModel::F32(ty, data as u32));
                    }
                    assert(s0.after_def_type(TypeModel::Float(32), Some(4), 4) == s0);
                    assert(scalar_built(s0, self@, d, r));
                }
                r
            },
            Primitive::F64 => {
                let r = self.constant_f64(data as u64);
                proof {
                    assert(s0.type_ids[TypeModel::Float(64)] == ty);
                    if r is Ok {
                        lemma_after_def_const_has(s0, ConstModel::F64(ty, data as u64));
                    }
                    assert(s0.after_def_type(TypeModel::Float(64), Some(8), 8) == s0);
                    assert(scalar_built(s0, self@, d, r));
                }
                r
            },
            Primitive::Pointer => {
                if data == 0 {
                    let r = self.constant_null(ty);
                    proof {
                        if r is Ok {
                            lemma_after_def_const_has(s0, ConstModel::Null(ty));
                        }
                        assert(build(s0, ConstNode::Leaf(ConstModel::Null(ty))) == build_const(s0, ConstModel::Null(ty)));
                        assert(scalar_built(s0, self@, d, r));
                    }
                    r
                } else {
                    let ghost leaf = ConstNode::Leaf(ConstModel::Undef(ty));
                    let ghost marked = ConstNode::Marked(Box::new(leaf), ZombieReason::NonNullPointerAddress, true);
                    proof {
                        assert(d == DecodedScalar::Done(marked));
                        assert(build(s0, leaf) == build_const(s0, ConstModel::Undef(ty)));
                    }
                    let result = match self.undef(ty) {
                        Ok(v) => v,
                        Err(e) => {
                            proof {
                                assert(build(s0, marked) is None);
                            }
                            return Err(e);
                        },
                    };
                    let ghost mid = self@;
                    proof {
                        lemma_after_def_const_has(s0, ConstModel::Undef(ty));
                    }
                    self.zombie_even_in_user_code(result.def_cx(), ZombieReason::NonNullPointerAddress);
                    proof {
                        lemma_zombie_wf(mid, result.spec_def(), ZombieReason::NonNullPointerAddress);
                        lemma_extends_trans(s0, mid, self@);
                        lemma_marked_no_span(mid, result.spec_def(), ZombieReason::NonNullPointerAddress);
                        lemma_extends_keeps(mid, self@, result.spec_def());
                        lemma_extends_keeps(mid, self@, ty);
                        assert(denotes(self@, result, ConstNode::Leaf(ConstModel::Undef(ty))));
                        assert(build(s0, marked) == Some((result, self@)));
                    }
                    Ok(result)
                }
            },
        }
    }
}

/// Where a pointer scalar points: into constant memory (a copy of it), or
/// at a value known beforehand.
enum PointerTarget {
    Memory(ConstAllocation),
    Value(SpirvValue),
}

impl CodegenCx {
    /// Turns a scalar read from an allocation of rank `rank` into a constant
    /// of type `ty`.
    fn scalar_at(
        &mut self,
        rank: u64,
        scalar: Scalar,
        layout: &AbiScalar,
        ty: Word,
        Ghost(m0): Ghost<CxModel>,
    ) -> (r: Result<SpirvValue, ConstError>)
        requires
            old(self).wf(),
            m0.wf(),
            old(self)@.extends(m0),
            rank <= m0.allocs.len(),
            !(decode_scalar(m0, rank as nat, scalar, layout.value, ty) is Panic),
        ensures
            final(self).wf(),
            final(self)@.extends(old(self)@),
            scalar_outcome(final(self)@, decode_scalar(m0, rank as nat, scalar, layout.value, ty), r),
            scalar_built(old(self)@, final(self)@, decode_scalar(m0, rank as nat, scalar, layout.value, ty), r),
            old(self)@.types.contains_key(ty) ==> (r matches Ok(v) ==> final(self)@.types.contains_key(
                v.ty,
            )),
        decreases rank, 2 * ty, 2nat,
    {
        match scalar {
            Scalar::Int { data, size } => self.int_scalar_to_backend(
                data,
                size,
                layout.value,
                ty,
                Ghost(m0),
            ),
            Scalar::Ptr { alloc_id, offset } => self.pointer_scalar_to_backend(
                rank,
                alloc_id,
                offset,
                layout.value,
                ty,
                Ghost(m0),
            ),
        }
    }

    /// Turns a pointer into global allocation `alloc_id` at `offset` into a
    /// constant of type `ty`.
    fn pointer_scalar_to_backend(
        &mut self,
        rank: u64,
        alloc_id: u64,
        offset: u64,
        prim: Primitive,
        ty: Word,
        Ghost(m0): Ghost<CxModel>,
    ) -> (r: Result<SpirvValue, ConstError>)
        requires
            old(self).wf(),
            m0.wf(),
            old(self)@.extends(m0),
            rank <= m0.allocs.len(),
            !(decode_scalar(m0, rank as nat, Scalar::Ptr { alloc_id, offset }, prim, ty) is Panic),
        ensures
            final(self).wf(),
            final(self)@.extends(old(self)@),
            scalar_outcome(
                final(self)@,
                decode_scalar(m0, rank as nat, Scalar::Ptr { alloc_id, offset }, prim, ty),
                r,
            ),
            scalar_built(
                old(self)@,
                final(self)@,
                decode_scalar(m0, rank as nat, Scalar::Ptr { alloc_id, offset }, prim, ty),
                r,
            ),
            r matches Ok(v) ==> final(self)@.types.contains_key(v.ty),
        decreases rank, 2 * ty, 1nat,
    {
        let ghost s0 = self@;
        let ghost d = decode_scalar(m0, rank as nat, Scalar::Ptr { alloc_id, offset }, prim, ty);
        proof {
            lemma_extends_refl(s0);
            lemma_extends_keeps(m0, s0, ty);
        }
        let target = match self.global_alloc(alloc_id) {
            Some(GlobalAlloc::Memory(a)) => PointerTarget::Memory(a.duplicate()),
            Some(GlobalAlloc::Function(v)) => PointerTarget::Value(*v),
            Some(GlobalAlloc::Static(v)) => PointerTarget::Value(*v),
            None => {
                return Err(ConstError::NonZeroPointerOffset);
            },
        };
        let ghost base: ConstNode;
        let value = match target {
            PointerTarget::Memory(a2) => {
                let pointee = match &self.lookup_type(ty).unwrap().ty {
                    SpirvType::Pointer { pointee, .. } => *pointee,
                    _ => {
                        return Err(ConstError::MemoryPointerTypeNotPointer(ty));
                    },
                };
                proof {
                    assert(crate::cx::alloc_ordered(m0.allocs[alloc_id as int], alloc_id as int));
                }
                let ghost di = decode_alloc(m0, alloc_id as nat, a2@, pointee);
                let init = match self.const_alloc_at(alloc_id, &a2, pointee, Ghost(m0)) {
                    Ok(v) => v,
                    Err(e) => {
                        proof {
                            if di is Done {
                                let g = ConstNode::GlobalPtr(Box::new(di->Done_0));
                                assert(build(s0, g) is None);
                                assert(build(s0, ConstNode::Marked(Box::new(g), ZombieReason::InvalidPointerSpace, false)) is None);
                            }
                        }
                        return Err(e);
                    },
                };
                let ghost s1 = self@;
                let ghost n_init = decode_alloc(m0, alloc_id as nat, a2@, pointee)->Done_0;
                proof {
                    assert(s1.types.contains_key(init.ty));
                }
                let p = match self.make_constant_pointer(init) {
                    Ok(p) => p,
                    Err(e) => {
                        proof {
                            lemma_extends_trans(s0, s1, self@);
                            let g = ConstNode::GlobalPtr(Box::new(n_init));
                            assert(build(s0, g) is None);
                            assert(build(s0, ConstNode::Marked(Box::new(g), ZombieReason::InvalidPointerSpace, false)) is None);
                        }
                        return Err(e);
                    },
                };
                proof {
                    assert(build(s0, ConstNode::GlobalPtr(Box::new(n_init))) == Some((p, self@)));
                    lemma_extends_trans(s0, s1, self@);
                    let ptr_ty = CxModel::function_pointer_to(init.ty);
                    crate::cx::lemma_after_def_type_has(s1, ptr_ty, Some(s1.pointer_size), s1.pointer_align);
                    let mid = s1.after_def_type(ptr_ty, Some(s1.pointer_size), s1.pointer_align);
                    lemma_extends_keeps(mid, self@, p.ty);
                    lemma_denotes_extends(s1, self@, init, n_init);
                    lemma_denotes_parts(self@, init, n_init);
                    base = ConstNode::GlobalPtr(Box::new(n_init));
                    assert(self@.globals.contains_key(p.spec_def()));
                    assert(ty_denotes(self@, p.ty, node_type(base)));
                    assert(id_denotes(self@, p.spec_def(), base));
                    assert(denotes(self@, p, base));
                }
                p
            },
            PointerTarget::Value(v) => {
                proof {
                    base = ConstNode::Given(v);
                }
                v
            },
        };
        let ghost s2 = self@;
        assert(build(s0, base) == Some((value, s2)));
        proof {
            lemma_extends_trans(m0, s0, s2);
        }
        if offset != 0 {
            return Err(ConstError::NonZeroPointerOffset);
        }
        if prim != Primitive::Pointer {
            return Err(ConstError::NonPointerScalarPtr);
        }
        proof {
            lemma_extends_keeps(m0, s2, value.ty);
            lemma_extends_keeps(m0, s2, ty);
        }
        let a_space = match &self.lookup_type(value.ty).unwrap().ty {
            SpirvType::Pointer { storage_class, .. } => Some(*storage_class),
            _ => None,
        };
        let b_space = match &self.lookup_type(ty).unwrap().ty {
            SpirvType::Pointer { storage_class, .. } => Some(*storage_class),
            _ => None,
        };
        match (a_space, b_space) {
            (Some(a), Some(b)) => {
                if a != b {
                    self.zombie_no_span(value.def_cx(), ZombieReason::InvalidPointerSpace);
                    proof {
                        lemma_zombie_wf(s2, value.spec_def(), ZombieReason::InvalidPointerSpace);
                        lemma_extends_trans(s0, s2, self@);
                        lemma_marked_no_span(s2, value.spec_def(), ZombieReason::InvalidPointerSpace);
                        lemma_denotes_extends(s2, self@, value, base);
                        lemma_extends_keeps(s2, self@, value.ty);
                        assert(build(s0, ConstNode::Marked(Box::new(base), ZombieReason::InvalidPointerSpace, false))
                            == Some((value, self@)));
                    }
                } else {
                    proof {
                        lemma_extends_refl(s2);
                    }
                }
            },
            _ => {},
        }
        Ok(value)
    }

    /// Reads the whole allocation `alloc` (of rank `rank`) at type `ty`.
    fn const_alloc_at(
        &mut self,
        rank: u64,
        alloc: &ConstAllocation,
        ty: Word,
        Ghost(m0): Ghost<CxModel>,
    ) -> (r: Result<SpirvValue, ConstError>)
        requires
            old(self).wf(),
            m0.wf(),
            old(self)@.extends(m0),
            alloc.wf(),
            rank <= m0.allocs.len(),
            !(decode_alloc(m0, rank as nat, alloc@, ty) is Panic),
        ensures
            final(self).wf(),
            final(self)@.extends(old(self)@),
            scalar_outcome(final(self)@, decode_alloc(m0, rank as nat, alloc@, ty), r),
            scalar_built(old(self)@, final(self)@, decode_alloc(m0, rank as nat, alloc@, ty), r),
            r matches Ok(v) ==> final(self)@.types.contains_key(v.ty),
        decreases rank, 2 * ty + 2, 0nat,
    {
        let mut offset: u64 = 0;
        self.create_const_alloc2(rank, alloc, &mut offset, ty, Ghost(m0))
    }

    /// Reads a value of type `ty` from `alloc` at `*offset` (first rounded up
    /// to the type's alignment), and leaves `*offset` after it.
    fn create_const_alloc2(
        &mut self,
        rank: u64,
        alloc: &ConstAllocation,
        offset: &mut u64,
        ty: Word,
        Ghost(m0): Ghost<CxModel>,
    ) -> (r: Result<SpirvValue, ConstError>)
        requires
            old(self).wf(),
            m0.wf(),
            old(self)@.extends(m0),
            alloc.wf(),
            rank <= m0.allocs.len(),
            !(decode_value(m0, rank as nat, alloc@, *old(offset) as int, ty) is Panic),
        ensures
            final(self).wf(),
            final(self)@.extends(old(self)@),
            value_outcome(
                final(self)@,
                decode_value(m0, rank as nat, alloc@, *old(offset) as int, ty),
                r,
                *final(offset),
            ),
            value_built(
                old(self)@,
                final(self)@,
                decode_value(m0, rank as nat, alloc@, *old(offset) as int, ty),
                r,
            ),
        decreases rank, 2 * ty + 1, 0nat,
    {
        let ghost orig = *offset as int;
        proof {
            lemma_extends_keeps(m0, self@, ty);
        }
        let entry = self.lookup_type(ty).unwrap();
        let align = entry.align;
        let kind: u8 = match &entry.ty {
            SpirvType::Void => 0,
            SpirvType::Bool => 1,
            SpirvType::Integer(..) => 1,
            SpirvType::Float(_) => 1,
            SpirvType::Pointer { .. } => 1,
            SpirvType::Adt { .. } => 2,
            SpirvType::Opaque { .. } => 3,
            SpirvType::Array { .. } => 4,
            SpirvType::Vector { .. } => 5,
            SpirvType::RuntimeArray { .. } => 6,
            SpirvType::Function { .. } => 7,
            SpirvType::Image { .. } => 8,
            SpirvType::Sampler => 9,
            SpirvType::SampledImage { .. } => 10,
        };
        *offset = align_to(*offset, align);
        if kind == 0 {
            proof {
                lemma_extends_refl(self@);
            }
            Err(ConstError::VoidConstAlloc)
        } else if kind == 1 {
            self.scalar_value_at(rank, alloc, offset, ty, Ghost(orig), Ghost(m0))
        } else if kind == 2 {
            self.struct_value_at(rank, alloc, offset, ty, Ghost(orig), Ghost(m0))
        } else if kind == 3 {
            proof {
                lemma_extends_refl(self@);
            }
            Err(ConstError::OpaqueConstAlloc(ty))
        } else if kind == 7 {
            proof {
                lemma_extends_refl(self@);
            }
            Err(ConstError::FunctionConstAlloc)
        } else if kind == 8 {
            proof {
                lemma_extends_refl(self@);
            }
            Err(ConstError::ImageConstAlloc)
        } else if kind == 9 {
            proof {
                lemma_extends_refl(self@);
            }
            Err(ConstError::SamplerConstAlloc)
        } else if kind == 10 {
            proof {
                lemma_extends_refl(self@);
            }
            Err(ConstError::SampledImageConstAlloc)
        } else if kind == 4 {
            self.array_value_at(rank, alloc, offset, ty, Ghost(orig), Ghost(m0))
        } else if kind == 5 {
            self.vector_value_at(rank, alloc, offset, ty, Ghost(orig), Ghost(m0))
        } else {
            self.runtime_array_value_at(rank, alloc, offset, ty, Ghost(orig), Ghost(m0))
        }
    }

    /// Reads a bool, integer, float or pointer of type `ty` at `*offset`
    /// (already aligned from `orig`).
    fn scalar_value_at(
        &mut self,
        rank: u64,
        alloc: &ConstAllocation,
        offset: &mut u64,
        ty: Word,
        Ghost(orig): Ghost<int>,
        Ghost(m0): Ghost<CxModel>,
    ) -> (r: Result<SpirvValue, ConstError>)
        requires
            old(self).wf(),
            m0.wf(),
            old(self)@.extends(m0),
            alloc.wf(),
            rank <= m0.allocs.len(),
            m0.types.contains_key(ty),
            crate::decode::scalar_primitive(m0.types[ty].ty) is Some,
            orig >= 0,
            *old(offset) == align_up(orig, m0.types[ty].align as int),
            !(decode_value(m0, rank as nat, alloc@, orig, ty) is Panic),
        ensures
            final(self).wf(),
            final(self)@.extends(old(self)@),
            value_outcome(final(self)@, decode_value(m0, rank as nat, alloc@, orig, ty), r, *final(offset)),
            value_built(old(self)@, final(self)@, decode_value(m0, rank as nat, alloc@, orig, ty), r),
        decreases rank, 2 * ty, 3nat,
    {
        let ghost s0 = self@;
        proof {
            lemma_extends_keeps(m0, s0, ty);
            lemma_extends_refl(s0);
        }
        let entry = self.lookup_type(ty).unwrap();
        let size = entry.size.unwrap();
        let primitive = match &entry.ty {
            SpirvType::Bool => Primitive::Int(Integer::I8, false),
            SpirvType::Integer(w, s) => match Integer::from_bits(*w) {
                Some(i) => Primitive::Int(i, *s),
                None => {
                    return Err(ConstError::InvalidIntegerSize(*w));
                },
            },
            SpirvType::Float(w) => {
                if *w == 32 {
                    Primitive::F32
                } else if *w == 64 {
                    Primitive::F64
                } else {
                    return Err(ConstError::InvalidFloatSize(*w));
                }
            },
            _ => Primitive::Pointer,
        };
        let psize = self.pointer_size();
        let read = alloc.read_scalar(*offset, size, psize).unwrap();
        let value = match read {
            ScalarMaybeUninit::Scalar(sc) => {
                let layout = self.primitive_to_scalar(primitive);
                match self.scalar_at(rank, sc, &layout, ty, Ghost(m0)) {
                    Ok(v) => v,
                    Err(e) => {
                        return Err(e);
                    },
                }
            },
            ScalarMaybeUninit::Uninit => {
                let r = self.undef(ty);
                proof {
                    if r is Ok {
                        lemma_after_def_const_has(s0, ConstModel::Undef(ty));
                        assert(denotes(self@, r->Ok_0, ConstNode::Leaf(ConstModel::Undef(ty))));
                    }
                }
                match r {
                    Ok(v) => v,
                    Err(e) => {
                        return Err(e);
                    },
                }
            },
        };
        *offset = *offset + size;
        Ok(value)
    }
}

impl CodegenCx {
    /// The composite constant of type `ty` made of `values`, which stand for
    /// the trees `kids`.
    fn finish_composite(&mut self, ty: Word, values: Vec<Word>, Ghost(kids): Ghost<Seq<ConstNode>>) -> (r:
        Result<SpirvValue, ConstError>)
        requires
            old(self).wf(),
            old(self)@.types.contains_key(ty),
            values@.len() == kids.len(),
            forall|j: int| 0 <= j < kids.len() ==> id_denotes(old(self)@, #[trigger] values@[j], kids[j]),
        ensures
            final(self).wf(),
            final(self)@.extends(old(self)@),
            match r {
                Ok(v) => denotes(final(self)@, v, ConstNode::Composite(ty, kids))
                    && final(self)@.types.contains_key(v.ty),
                Err(e) => e == ConstError::IdsExhausted && final(self)@.next_id == u32::MAX,
            },
            match build_const(old(self)@, ConstModel::Composite(ty, values@)) {
                Some((v, m)) => r == Ok::<SpirvValue, ConstError>(v) && final(self)@ == m,
                None => r == Err::<SpirvValue, ConstError>(ConstError::IdsExhausted),
            },
    {
        let ghost s1 = self@;
        let ghost ids = values@;
        let r = self.constant_composite(ty, values);
        proof {
            if r is Ok {
                let c = ConstModel::Composite(ty, ids);
                lemma_after_def_const_has(s1, c);
                assert forall|j: int| 0 <= j < kids.len() implies id_denotes(
                    self@,
                    #[trigger] ids[j],
                    kids[j],
                ) by {
                    lemma_id_denotes_extends(s1, self@, ids[j], kids[j]);
                }
                lemma_extends_keeps(s1, self@, ty);
                assert(id_denotes(self@, r->Ok_0.spec_def(), ConstNode::Composite(ty, kids)));
            }
        }
        r
    }

    /// Reads a struct of type `ty` at `*offset` (already aligned from
    /// `orig`): each field at its own offset from the start.
    #[verifier::spinoff_prover]
    #[verifier::loop_isolation(false)]
    fn struct_value_at(
        &mut self,
        rank: u64,
        alloc: &ConstAllocation,
        offset: &mut u64,
        ty: Word,
        Ghost(orig): Ghost<int>,
        Ghost(m0): Ghost<CxModel>,
    ) -> (r: Result<SpirvValue, ConstError>)
        requires
            old(self).wf(),
            m0.wf(),
            old(self)@.extends(m0),
            alloc.wf(),
            rank <= m0.allocs.len(),
            m0.types.contains_key(ty),
            m0.types[ty].ty is Adt,
            orig >= 0,
            *old(offset) == align_up(orig, m0.types[ty].align as int),
            !(decode_value(m0, rank as nat, alloc@, orig, ty) is Panic),
        ensures
            final(self).wf(),
            final(self)@.extends(old(self)@),
            value_outcome(final(self)@, decode_value(m0, rank as nat, alloc@, orig, ty), r, *final(offset)),
            value_built(old(self)@, final(self)@, decode_value(m0, rank as nat, alloc@, orig, ty), r),
        decreases rank, 2 * ty, 3nat,
    {
        let ghost s0 = self@;
        let ghost info = m0.types[ty];
        let ghost fts = info.ty->Adt_field_types;
        let ghost fos = info.ty->Adt_field_offsets;
        let ghost a = alloc@;
        proof {
            lemma_extends_keeps(m0, s0, ty);
            lemma_extends_refl(s0);
            assert(align_up(orig, info.align as int) <= u64::MAX);
        }
        let entry = self.lookup_type(ty).unwrap();
        let (field_types, field_offsets, size) = match &entry.ty {
            SpirvType::Adt { field_types, field_offsets, size, .. } => (
                copy_words(field_types),
                copy_offsets(field_offsets),
                *size,
            ),
            _ => (Vec::new(), Vec::new(), None),
        };
        let base = *offset;
        let n = if field_types.len() < field_offsets.len() {
            field_types.len()
        } else {
            field_offsets.len()
        };
        let mut values: Vec<Word> = Vec::new();
        let ghost mut kids: Seq<ConstNode> = Seq::empty();
        let mut i: usize = 0;
        while i < n
            invariant
                self.wf(),
                m0.wf(),
                self@.extends(s0),
                self@.extends(m0),
                s0.extends(m0),
                alloc.wf(),
                a == alloc@,
                rank <= m0.allocs.len(),
                m0.types.contains_key(ty),
                field_types@ == fts,
                field_offsets@ == fos,
                n <= fts.len(),
                n <= fos.len(),
                n == fts.len() || n == fos.len(),
                i <= n,
                !(decode_fields(m0, rank as nat, a, base as int, ty, fts, fos, n as nat) is Panic),
                decode_fields(m0, rank as nat, a, base as int, ty, fts, fos, i as nat)
                    == DecodedSeq::Done(kids, base as int),
                kids.len() == i,
                values@.len() == i,
                forall|j: int| 0 <= j < i ==> id_denotes(self@, #[trigger] values@[j], kids[j]),
                forall|k: int| 0 <= k < fts.len() ==> #[trigger] fts[k] < ty,
                build_seq(s0, kids) == Some((values@, self@)),
            decreases n - i,
        {
            proof {
                if !(decode_fields(m0, rank as nat, a, base as int, ty, fts, fos, (i + 1) as nat) is Done) {
                    lemma_fields_stop(m0, rank as nat, a, base as int, ty, fts, fos, (i + 1) as nat, n as nat);
                }
            }
            let ft = field_types[i];
            let total_offset_start = base + field_offsets[i];
            let mut total_offset_end = total_offset_start;
            let ghost s_before = self@;
            let v = match self.create_const_alloc2(rank, alloc, &mut total_offset_end, ft, Ghost(m0)) {
                Ok(v) => v,
                Err(e) => {
                    proof {
                        lemma_extends_trans(s0, s_before, self@);
                        if e != ConstError::IdsExhausted {
                            lemma_fields_stop(m0, rank as nat, a, base as int, ty, fts, fos, (i + 1) as nat, n as nat);
                        }
                        let de = decode_value(m0, rank as nat, a, total_offset_start as int, ft);
                        if !(de is Done) {
                            lemma_fields_stop(m0, rank as nat, a, base as int, ty, fts, fos, (i + 1) as nat, n as nat);
                        } else if decode_fields(m0, rank as nat, a, base as int, ty, fts, fos, n as nat) is Done {
                            let node = de->Done_0;
                            lemma_build_seq_push(s0, kids, node);
                            lemma_fields_prefix(m0, rank as nat, a, base as int, ty, fts, fos, (i + 1) as nat, n as nat);
                            let kk = decode_fields(m0, rank as nat, a, base as int, ty, fts, fos, n as nat)->Done_0;
                            lemma_build_seq_prefix(s0, kk, (i + 1) as nat);
                            assert(build(s0, ConstNode::Composite(ty, kk)) is None);
                        }
                    }
                    return Err(e);
                },
            };
            let ghost node = decode_value(m0, rank as nat, a, total_offset_start as int, ft)->Done_0;
            proof {
                lemma_denotes_parts(self@, v, node);
                assert forall|j: int| 0 <= j < i implies id_denotes(self@, #[trigger] values@[j], kids[j]) by {
                    lemma_id_denotes_extends(s_before, self@, values@[j], kids[j]);
                }
                lemma_extends_trans(s0, s_before, self@);
                lemma_extends_trans(m0, s_before, self@);
                lemma_build_seq_push(s0, kids, node);
                kids = kids.push(node);
            }
            values.push(v.def_cx());
            i = i + 1;
        }
        proof {
            lemma_extends_keeps(m0, self@, ty);
        }
        let ghost s1 = self@;
        match size {
            Some(s) => {
                *offset = *offset + s;
            },
            None => {},
        }
        let r = self.finish_composite(ty, values, Ghost(kids));
        proof {
            lemma_extends_trans(s0, s1, self@);
        }
        r
    }
}

impl CodegenCx {
    /// Reads an array of type `ty` at `*offset` (already aligned from
    /// `orig`): its elements one after the other.
    #[verifier::spinoff_prover]
    #[verifier::loop_isolation(false)]
    fn array_value_at(
        &mut self,
        rank: u64,
        alloc: &ConstAllocation,
        offset: &mut u64,
        ty: Word,
        Ghost(orig): Ghost<int>,
        Ghost(m0): Ghost<CxModel>,
    ) -> (r: Result<SpirvValue, ConstError>)
        requires
            old(self).wf(),
            m0.wf(),
            old(self)@.extends(m0),
            alloc.wf(),
            rank <= m0.allocs.len(),
            m0.types.contains_key(ty),
            m0.types[ty].ty is Array,
            orig >= 0,
            *old(offset) == align_up(orig, m0.types[ty].align as int),
            !(decode_value(m0, rank as nat, alloc@, orig, ty) is Panic),
        ensures
            final(self).wf(),
            final(self)@.extends(old(self)@),
            value_outcome(final(self)@, decode_value(m0, rank as nat, alloc@, orig, ty), r, *final(offset)),
            value_built(old(self)@, final(self)@, decode_value(m0, rank as nat, alloc@, orig, ty), r),
        decreases rank, 2 * ty, 3nat,
    {
        let ghost s0 = self@;
        let ghost info = m0.types[ty];
        let ghost a = alloc@;
        let ghost start = *offset as int;
        proof {
            lemma_extends_keeps(m0, s0, ty);
            lemma_extends_keeps(m0, s0, info.ty->Array_count);
            lemma_extends_refl(s0);
        }
        let entry = self.lookup_type(ty).unwrap();
        let (element, count_id) = match &entry.ty {
            SpirvType::Array { element, count } => (*element, *count),
            _ => (0, 0),
        };
        let count = self.lookup_const_u64(count_id).unwrap() as usize;
        let ghost total = count as nat;
        let mut values: Vec<Word> = Vec::new();
        let ghost mut kids: Seq<ConstNode> = Seq::empty();
        let mut i: usize = 0;
        while i < count
            invariant
                self.wf(),
                m0.wf(),
                self@.extends(s0),
                self@.extends(m0),
                s0.extends(m0),
                alloc.wf(),
                a == alloc@,
                rank <= m0.allocs.len(),
                m0.types.contains_key(ty),
                total == count,
                i <= count,
                !(decode_elems(m0, rank as nat, a, start, ty, element, total) is Panic),
                decode_elems(m0, rank as nat, a, start, ty, element, i as nat)
                    == DecodedSeq::Done(kids, *offset as int),
                kids.len() == i,
                values@.len() == i,
                forall|j: int| 0 <= j < i ==> id_denotes(self@, #[trigger] values@[j], kids[j]),
                build_seq(s0, kids) == Some((values@, self@)),
            decreases count - i,
        {
            proof {
                if !(decode_elems(m0, rank as nat, a, start, ty, element, (i + 1) as nat) is Done) {
                    lemma_elems_stop(m0, rank as nat, a, start, ty, element, (i + 1) as nat, total);
                }
            }
            let ghost s_before = self@;
            let ghost at = *offset as int;
            let v = match self.create_const_alloc2(rank, alloc, offset, element, Ghost(m0)) {
                Ok(v) => v,
                Err(e) => {
                    proof {
                        lemma_extends_trans(s0, s_before, self@);
                        if e != ConstError::IdsExhausted {
                            lemma_elems_stop(m0, rank as nat, a, start, ty, element, (i + 1) as nat, total);
                        }
                        let de = decode_value(m0, rank as nat, a, at, element);
                        if !(de is Done) {
                            lemma_elems_stop(m0, rank as nat, a, start, ty, element, (i + 1) as nat, total);
                        } else if decode_elems(m0, rank as nat, a, start, ty, element, total) is Done {
                            let node = de->Done_0;
                            lemma_build_seq_push(s0, kids, node);
                            lemma_elems_prefix(m0, rank as nat, a, start, ty, element, (i + 1) as nat, total);
                            let kk = decode_elems(m0, rank as nat, a, start, ty, element, total)->Done_0;
                            lemma_build_seq_prefix(s0, kk, (i + 1) as nat);
                            assert(build(s0, ConstNode::Composite(ty, kk)) is None);
                        }
                    }
                    return Err(e);
                },
            };
            let ghost node = decode_value(m0, rank as nat, a, at, element)->Done_0;
            proof {
                lemma_denotes_parts(self@, v, node);
                assert forall|j: int| 0 <= j < i implies id_denotes(self@, #[trigger] values@[j], kids[j]) by {
                    lemma_id_denotes_extends(s_before, self@, values@[j], kids[j]);
                }
                lemma_extends_trans(s0, s_before, self@);
                lemma_extends_trans(m0, s_before, self@);
                lemma_build_seq_push(s0, kids, node);
                kids = kids.push(node);
            }
            values.push(v.def_cx());
            i = i + 1;
        }
        proof {
            lemma_extends_keeps(m0, self@, ty);
        }
        let ghost s1 = self@;
        let r = self.finish_composite(ty, values, Ghost(kids));
        proof {
            lemma_extends_trans(s0, s1, self@);
        }
        r
    }

    /// Reads a vector of type `ty` at `*offset` (already aligned from
    /// `orig`): its elements one after the other, then the vector's padding.
    #[verifier::spinoff_prover]
    #[verifier::loop_isolation(false)]
    fn vector_value_at(
        &mut self,
        rank: u64,
        alloc: &ConstAllocation,
        offset: &mut u64,
        ty: Word,
        Ghost(orig): Ghost<int>,
        Ghost(m0): Ghost<CxModel>,
    ) -> (r: Result<SpirvValue, ConstError>)
        requires
            old(self).wf(),
            m0.wf(),
            old(self)@.extends(m0),
            alloc.wf(),
            rank <= m0.allocs.len(),
            m0.types.contains_key(ty),
            m0.types[ty].ty is Vector,
            orig >= 0,
            *old(offset) == align_up(orig, m0.types[ty].align as int),
            !(decode_value(m0, rank as nat, alloc@, orig, ty) is Panic),
        ensures
            final(self).wf(),
            final(self)@.extends(old(self)@),
            value_outcome(final(self)@, decode_value(m0, rank as nat, alloc@, orig, ty), r, *final(offset)),
            value_built(old(self)@, final(self)@, decode_value(m0, rank as nat, alloc@, orig, ty), r),
        decreases rank, 2 * ty, 3nat,
    {
        let ghost s0 = self@;
        let ghost info = m0.types[ty];
        let ghost a = alloc@;
        let ghost start = *offset as int;
        proof {
            lemma_extends_keeps(m0, s0, ty);
            lemma_extends_refl(s0);
        }
        let entry = self.lookup_type(ty).unwrap();
        let total_size = entry.size.unwrap();
        let (element, count) = match &entry.ty {
            SpirvType::Vector { element, count } => (*element, *count),
            _ => (0, 0),
        };
        let final_offset = *offset + total_size;
        let n = count as usize;
        let mut values: Vec<Word> = Vec::new();
        let ghost mut kids: Seq<ConstNode> = Seq::empty();
        let mut i: usize = 0;
        while i < n
            invariant
                self.wf(),
                m0.wf(),
                self@.extends(s0),
                self@.extends(m0),
                s0.extends(m0),
                alloc.wf(),
                a == alloc@,
                rank <= m0.allocs.len(),
                m0.types.contains_key(ty),
                n == count,
                i <= n,
                !(decode_elems(m0, rank as nat, a, start, ty, element, count as nat) is Panic),
                decode_elems(m0, rank as nat, a, start, ty, element, i as nat)
                    == DecodedSeq::Done(kids, *offset as int),
                kids.len() == i,
                values@.len() == i,
                forall|j: int| 0 <= j < i ==> id_denotes(self@, #[trigger] values@[j], kids[j]),
                build_seq(s0, kids) == Some((values@, self@)),
            decreases n - i,
        {
            proof {
                if !(decode_elems(m0, rank as nat, a, start, ty, element, (i + 1) as nat) is Done) {
                    lemma_elems_stop(m0, rank as nat, a, start, ty, element, (i + 1) as nat, count as nat);
                }
            }
            let ghost s_before = self@;
            let ghost at = *offset as int;
            let v = match self.create_const_alloc2(rank, alloc, offset, element, Ghost(m0)) {
                Ok(v) => v,
                Err(e) => {
                    proof {
                        lemma_extends_trans(s0, s_before, self@);
                        if e != ConstError::IdsExhausted {
                            lemma_elems_stop(m0, rank as nat, a, start, ty, element, (i + 1) as nat, count as nat);
                        }
                        let de = decode_value(m0, rank as nat, a, at, element);
                        if !(de is Done) {
                            lemma_elems_stop(m0, rank as nat, a, start, ty, element, (i + 1) as nat, count as nat);
                        } else if decode_elems(m0, rank as nat, a, start, ty, element, count as nat) is Done {
                            let node = de->Done_0;
                            lemma_build_seq_push(s0, kids, node);
                            lemma_elems_prefix(m0, rank as nat, a, start, ty, element, (i + 1) as nat, count as nat);
                            let kk = decode_elems(m0, rank as nat, a, start, ty, element, count as nat)->Done_0;
                            lemma_build_seq_prefix(s0, kk, (i + 1) as nat);
                            assert(build(s0, ConstNode::Composite(ty, kk)) is None);
                        }
                    }
                    return Err(e);
                },
            };
            let ghost node = decode_value(m0, rank as nat, a, at, element)->Done_0;
            proof {
                lemma_denotes_parts(self@, v, node);
                assert forall|j: int| 0 <= j < i implies id_denotes(self@, #[trigger] values@[j], kids[j]) by {
                    lemma_id_denotes_extends(s_before, self@, values@[j], kids[j]);
                }
                lemma_extends_trans(s0, s_before, self@);
                lemma_extends_trans(m0, s_before, self@);
                lemma_build_seq_push(s0, kids, node);
                kids = kids.push(node);
            }
            values.push(v.def_cx());
            i = i + 1;
        }
        proof {
            lemma_extends_keeps(m0, self@, ty);
        }
        *offset = final_offset;
        let ghost s1 = self@;
        let r = self.finish_composite(ty, values, Ghost(kids));
        proof {
            lemma_extends_trans(s0, s1, self@);
        }
        r
    }

    /// Reads a runtime array of type `ty` at `*offset` (already aligned from
    /// `orig`): elements one after the other up to the end of the
    /// allocation. The result is marked: such constants cannot be emitted.
    #[verifier::spinoff_prover]
    #[verifier::loop_isolation(false)]
    fn runtime_array_value_at(
        &mut self,
        rank: u64,
        alloc: &ConstAllocation,
        offset: &mut u64,
        ty: Word,
        Ghost(orig): Ghost<int>,
        Ghost(m0): Ghost<CxModel>,
    ) -> (r: Result<SpirvValue, ConstError>)
        requires
            old(self).wf(),
            m0.wf(),
            old(self)@.extends(m0),
            alloc.wf(),
            rank <= m0.allocs.len(),
            m0.types.contains_key(ty),
            m0.types[ty].ty is RuntimeArray,
            orig >= 0,
            *old(offset) == align_up(orig, m0.types[ty].align as int),
            !(decode_value(m0, rank as nat, alloc@, orig, ty) is Panic),
        ensures
            final(self).wf(),
            final(self)@.extends(old(self)@),
            value_outcome(final(self)@, decode_value(m0, rank as nat, alloc@, orig, ty), r, *final(offset)),
            value_built(old(self)@, final(self)@, decode_value(m0, rank as nat, alloc@, orig, ty), r),
        decreases rank, 2 * ty, 3nat,
    {
        let ghost s0 = self@;
        let ghost info = m0.types[ty];
        let ghost a = alloc@;
        let ghost start = *offset as int;
        proof {
            lemma_extends_keeps(m0, s0, ty);
            lemma_extends_refl(s0);
        }
        let entry = self.lookup_type(ty).unwrap();
        let element = match &entry.ty {
            SpirvType::RuntimeArray { element } => *element,
            _ => 0,
        };
        let len = alloc.bytes.len() as u64;
        let mut values: Vec<Word> = Vec::new();
        let ghost mut kids: Seq<ConstNode> = Seq::empty();
        while *offset != len
            invariant
                self.wf(),
                m0.wf(),
                self@.extends(s0),
                self@.extends(m0),
                s0.extends(m0),
                alloc.wf(),
                a == alloc@,
                len == a.bytes.len(),
                rank <= m0.allocs.len(),
                m0.types.contains_key(ty),
                !(decode_runtime(m0, rank as nat, a, ty, element, start, Seq::empty()) is Panic),
                decode_runtime(m0, rank as nat, a, ty, element, start, Seq::empty())
                    == decode_runtime(m0, rank as nat, a, ty, element, *offset as int, kids),
                *offset <= len,
                values@.len() == kids.len(),
                forall|j: int| 0 <= j < kids.len() ==> id_denotes(self@, #[trigger] values@[j], kids[j]),
                build_seq(s0, kids) == Some((values@, self@)),
            decreases len - *offset,
        {
            let ghost s_before = self@;
            let ghost at = *offset as int;
            let v = match self.create_const_alloc2(rank, alloc, offset, element, Ghost(m0)) {
                Ok(v) => v,
                Err(e) => {
                    proof {
                        lemma_extends_trans(s0, s_before, self@);
                        let dr = decode_runtime(m0, rank as nat, a, ty, element, start, Seq::empty());
                        let de = decode_value(m0, rank as nat, a, at, element);
                        if dr is Done && de is Done {
                            let node = de->Done_0;
                            lemma_build_seq_push(s0, kids, node);
                            lemma_runtime_prefix(m0, rank as nat, a, ty, element, de->Done_1, kids.push(node));
                            let kk = dr->Done_0;
                            lemma_build_seq_prefix(s0, kk, (kids.len() + 1) as nat);
                            assert(build(s0, ConstNode::Composite(ty, kk)) is None);
                            assert(build(
                                s0,
                                ConstNode::Marked(
                                    Box::new(ConstNode::Composite(ty, kk)),
                                    ZombieReason::RuntimeArrayValue,
                                    true,
                                ),
                            ) is None);
                        }
                    }
                    return Err(e);
                },
            };
            let ghost node = decode_value(m0, rank as nat, a, at, element)->Done_0;
            proof {
                lemma_denotes_parts(self@, v, node);
                assert forall|j: int| 0 <= j < kids.len() implies id_denotes(
                    self@,
                    #[trigger] values@[j],
                    kids[j],
                ) by {
                    lemma_id_denotes_extends(s_before, self@, values@[j], kids[j]);
                }
                lemma_extends_trans(s0, s_before, self@);
                lemma_extends_trans(m0, s_before, self@);
                lemma_build_seq_push(s0, kids, node);
                kids = kids.push(node);
            }
            values.push(v.def_cx());
        }
        proof {
            lemma_extends_keeps(m0, self@, ty);
        }
        let ghost s1 = self@;
        let result = match self.finish_composite(ty, values, Ghost(kids)) {
            Ok(v) => v,
            Err(e) => {
                proof {
                    lemma_extends_trans(s0, s1, self@);
                    assert(build(s0, ConstNode::Composite(ty, kids)) is None);
                    assert(build(
                        s0,
                        ConstNode::Marked(
                            Box::new(ConstNode::Composite(ty, kids)),
                            ZombieReason::RuntimeArrayValue,
                            true,
                        ),
                    ) is None);
                }
                return Err(e);
            },
        };
        let ghost s2 = self@;
        self.zombie_even_in_user_code(result.def_cx(), ZombieReason::RuntimeArrayValue);
        proof {
            lemma_zombie_wf(s2, result.spec_def(), ZombieReason::RuntimeArrayValue);
            lemma_extends_trans(s0, s1, s2);
            lemma_extends_trans(s0, s2, self@);
            lemma_marked_no_span(s2, result.spec_def(), ZombieReason::RuntimeArrayValue);
            lemma_denotes_extends(s2, self@, result, ConstNode::Composite(ty, kids));
            lemma_extends_keeps(s2, self@, result.ty);
        }
        Ok(result)
    }
}

impl CodegenCx {
    /// The constant that allocation `alloc` holds when read at type `ty`:
    /// see [`decode_alloc`] (the allocation ranks after every registered
    /// global allocation, so its pointers may lead to any of them). Where
    /// the memory means a tree of constants, the result and the new state
    /// are exactly what [`build`] gives: the ids run out only where building
    /// the tree needs more than are left.
    pub fn create_const_alloc(&mut self, alloc: &ConstAllocation, ty: Word) -> (r: Result<
        SpirvValue,
        ConstError,
    >)
        requires
            old(self).wf(),
            alloc.wf(),
            !(decode_alloc(old(self)@, old(self)@.allocs.len(), alloc@, ty) is Panic),
        ensures
            final(self).wf(),
            final(self)@.extends(old(self)@),
            scalar_outcome(
                final(self)@,
                decode_alloc(old(self)@, old(self)@.allocs.len(), alloc@, ty),
                r,
            ),
            scalar_built(
                old(self)@,
                final(self)@,
                decode_alloc(old(self)@, old(self)@.allocs.len(), alloc@, ty),
                r,
            ),
            r matches Ok(v) ==> final(self)@.types.contains_key(v.ty),
    {
        let rank = self.global_alloc_count();
        proof {
            lemma_extends_refl(self@);
        }
        self.const_alloc_at(rank, alloc, ty, Ghost(self@))
    }

    /// The constant of type `ty` for a scalar with layout `layout`: see
    /// [`decode_scalar`]; the result and the new state are what [`build`]
    /// gives for the tree it means.
    pub fn scalar_to_backend(&mut self, scalar: Scalar, layout: &AbiScalar, ty: Word) -> (r: Result<
        SpirvValue,
        ConstError,
    >)
        requires
            old(self).wf(),
            !(decode_scalar(old(self)@, old(self)@.allocs.len(), scalar, layout.value, ty) is Panic),
        ensures
            final(self).wf(),
            final(self)@.extends(old(self)@),
            scalar_outcome(
                final(self)@,
                decode_scalar(old(self)@, old(self)@.allocs.len(), scalar, layout.value, ty),
                r,
            ),
            scalar_built(
                old(self)@,
                final(self)@,
                decode_scalar(old(self)@, old(self)@.allocs.len(), scalar, layout.value, ty),
                r,
            ),
    {
        let rank = self.global_alloc_count();
        proof {
            lemma_extends_refl(self@);
        }
        self.scalar_at(rank, scalar, layout, ty, Ghost(self@))
    }

    /// A pointer to a new variable initialized with the constant that
    /// allocation `alloc` holds at type `ty`; `offset` is 0. The result and
    /// the new state are what [`build`] gives for that pointer.
    pub fn from_const_alloc(&mut self, ty: Word, alloc: &ConstAllocation, offset: u64) -> (r: Result<
        SpirvValue,
        ConstError,
    >)
        requires
            old(self).wf(),
            alloc.wf(),
            offset == 0,
            !(decode_alloc(old(self)@, old(self)@.allocs.len(), alloc@, ty) is Panic),
        ensures
            final(self).wf(),
            final(self)@.extends(old(self)@),
            scalar_outcome(
                final(self)@,
                pointer_to(decode_alloc(old(self)@, old(self)@.allocs.len(), alloc@, ty)),
                r,
            ),
            scalar_built(
                old(self)@,
                final(self)@,
                pointer_to(decode_alloc(old(self)@, old(self)@.allocs.len(), alloc@, ty)),
                r,
            ),
    {
        let ghost s0 = self@;
        let ghost d = decode_alloc(s0, s0.allocs.len(), alloc@, ty);
        let init = match self.create_const_alloc(alloc, ty) {
            Ok(v) => v,
            Err(e) => {
                proof {
                    if d is Done {
                        assert(build(s0, ConstNode::GlobalPtr(Box::new(d->Done_0))) is None);
                    }
                }
                return Err(e);
            },
        };
        let ghost s1 = self@;
        let ghost n = d->Done_0;
        let p = match self.make_constant_pointer(init) {
            Ok(p) => p,
            Err(e) => {
                proof {
                    lemma_extends_trans(s0, s1, self@);
                    assert(build(s0, ConstNode::GlobalPtr(Box::new(n))) is None);
                }
                return Err(e);
            },
        };
        proof {
            assert(build(s0, ConstNode::GlobalPtr(Box::new(n))) == Some((p, self@)));
            lemma_extends_trans(s0, s1, self@);
            let ptr_ty = CxModel::function_pointer_to(init.ty);
            crate::cx::lemma_after_def_type_has(s1, ptr_ty, Some(s1.pointer_size), s1.pointer_align);
            let mid = s1.after_def_type(ptr_ty, Some(s1.pointer_size), s1.pointer_align);
            lemma_extends_keeps(mid, self@, p.ty);
            lemma_denotes_extends(s1, self@, init, n);
            lemma_denotes_parts(self@, init, n);
            let base = ConstNode::GlobalPtr(Box::new(n));
            assert(self@.globals.contains_key(p.spec_def()));
            assert(ty_denotes(self@, p.ty, node_type(base)));
            assert(id_denotes(self@, p.spec_def(), base));
            assert(denotes(self@, p, base));
        }
        Ok(p)
    }
}

} // verus!
