//! Building constants: scalar constants of fixed types, constants of a type
//! given by id, composites, null and undefined values, pointer casts, and the
//! reading back of integer constants.
use vstd::prelude::*;
use vstd::arithmetic::power2::pow2;
use vstd::string::StringSliceAdditionalSpecFns;
use crate::abi::{AbiScalar, Integer, Primitive};
use crate::cx::{
    components_below, layout_fits, refs_below, lemma_after_def_type_has, const_u64_value, lemma_def_const_wf, lemma_def_type_wf, lemma_extends_refl,
    lemma_extends_trans, lemma_zombie_wf, CodegenCx, CxModel,
};
use crate::layout::{struct_layout, struct_layout_ok};
use crate::types::{with_type, ConstError, ConstModel, SpirvConst, SpirvType, SpirvValue, SpirvValueKind, TypeModel, Word, ZombieReason};

verus! {

/// The outcome of defining type `t` (with the given layout) and then the
/// constant `c(id of t)`: on success the value of that constant at that type
/// and the state with exactly these entries added; on failure, the ids ran
/// out.
pub open spec fn typed_const_outcome(
    old: CxModel,
    new: CxModel,
    r: Result<SpirvValue, ConstError>,
    t: TypeModel,
    size: Option<u64>,
    align: u64,
    c: spec_fn(Word) -> ConstModel,
) -> bool {
    let ty = old.id_after_def(t);
    let mid = old.after_def_type(t, size, align);
    let cm = c(ty);
    &&& match r {
        Ok(v) => {
            &&& v == SpirvValue { kind: SpirvValueKind::Def(mid.const_id_after_def(cm)), ty }
            &&& new == mid.after_def_const(cm)
            &&& old.type_ids.contains_key(t) || old.next_id < u32::MAX
        },
        Err(e) => e is IdsExhausted && old.next_id >= u32::MAX - 1 && new.next_id == u32::MAX,
    }
    &&& old.next_id < u32::MAX - 1 ==> r is Ok
    &&& r is Ok <==> ((old.type_ids.contains_key(t) || old.next_id < u32::MAX) && (
    mid.const_ids.contains_key(cm) || mid.next_id < u32::MAX))
}

/// The outcome of defining constant `c`.
pub open spec fn const_outcome(
    old: CxModel,
    new: CxModel,
    r: Result<SpirvValue, ConstError>,
    c: ConstModel,
) -> bool {
    &&& match r {
        Ok(v) => {
            &&& v == SpirvValue { kind: SpirvValueKind::Def(old.const_id_after_def(c)), ty: c.ty() }
            &&& new == old.after_def_const(c)
        },
        Err(e) => e is IdsExhausted && old.next_id == u32::MAX && new == old,
    }
    &&& r is Ok <==> (old.const_ids.contains_key(c) || old.next_id < u32::MAX)
}

/// What `constant_int` makes of `val` at a type.
pub enum IntPlan {
    /// This constant.
    Const(ConstModel),
    /// An undefined value, marked: 128-bit integers have no constants.
    Undef128,
    /// Refused: a bool constant that is neither 0 nor 1.
    InvalidBool,
    /// Refused: neither an integer nor bool type.
    InvalidType,
}

/// What `constant_int` makes of `val` at type `ty`, whose entry is `t`:
/// unsigned values are truncated to the width, signed values of fewer than
/// 32 bits are truncated and then sign-extended to 32 bits.
pub open spec fn int_plan(t: TypeModel, ty: Word, val: u64) -> IntPlan {
    match t {
        TypeModel::Integer(8, false) => IntPlan::Const(ConstModel::U32(ty, val as u8 as u32)),
        TypeModel::Integer(16, false) => IntPlan::Const(ConstModel::U32(ty, val as u16 as u32)),
        TypeModel::Integer(32, false) => IntPlan::Const(ConstModel::U32(ty, val as u32)),
        TypeModel::Integer(64, false) => IntPlan::Const(ConstModel::U64(ty, val)),
        TypeModel::Integer(8, true) => IntPlan::Const(ConstModel::U32(ty, val as i64 as i8 as u32)),
        TypeModel::Integer(16, true) => IntPlan::Const(
            ConstModel::U32(ty, val as i64 as i16 as u32),
        ),
        TypeModel::Integer(32, true) => IntPlan::Const(
            ConstModel::U32(ty, val as i64 as i32 as u32),
        ),
        TypeModel::Integer(64, true) => IntPlan::Const(ConstModel::U64(ty, val)),
        TypeModel::Bool => if val == 0 {
            IntPlan::Const(ConstModel::Bool(ty, false))
        } else if val == 1 {
            IntPlan::Const(ConstModel::Bool(ty, true))
        } else {
            IntPlan::InvalidBool
        },
        TypeModel::Integer(128, _) => IntPlan::Undef128,
        _ => IntPlan::InvalidType,
    }
}

/// The outcome of `constant_int(ty, val)` from state `old`.
pub open spec fn int_outcome(
    old: CxModel,
    new: CxModel,
    r: Result<SpirvValue, ConstError>,
    ty: Word,
    val: u64,
) -> bool {
    match int_plan(old.types[ty].ty, ty, val) {
        IntPlan::Const(c) => const_outcome(old, new, r, c),
        IntPlan::Undef128 => {
            let u = ConstModel::Undef(ty);
            let id = old.const_id_after_def(u);
            &&& match r {
                Ok(v) => {
                    &&& v == SpirvValue { kind: SpirvValueKind::Def(id), ty }
                    &&& new == old.after_def_const(u).after_zombie_no_span(
                        id,
                        ZombieReason::U128Constant,
                    )
                },
                Err(e) => e is IdsExhausted && old.next_id == u32::MAX && new == old,
            }
            &&& r is Ok <==> (old.const_ids.contains_key(u) || old.next_id < u32::MAX)
        },
        IntPlan::InvalidBool => r == Err::<SpirvValue, ConstError>(
            ConstError::InvalidBoolValue(val as u128),
        ) && new == old,
        IntPlan::InvalidType => r == Err::<SpirvValue, ConstError>(
            ConstError::ConstantIntInvalidType(ty),
        ) && new == old,
    }
}

/// The outcome of `constant_float(ty, ..)`: the 32-bit pattern at a 32-bit
/// float type, the 64-bit pattern at a 64-bit float type, refused otherwise.
pub open spec fn float_outcome(
    old: CxModel,
    new: CxModel,
    r: Result<SpirvValue, ConstError>,
    ty: Word,
    bits32: u32,
    bits64: u64,
) -> bool {
    match old.types[ty].ty {
        TypeModel::Float(32) => const_outcome(old, new, r, ConstModel::F32(ty, bits32)),
        TypeModel::Float(64) => const_outcome(old, new, r, ConstModel::F64(ty, bits64)),
        _ => r == Err::<SpirvValue, ConstError>(ConstError::ConstantFloatInvalidType(ty)) && new
            == old,
    }
}

/// `2^bits - 1`, the largest unsigned number of `bits` bits.
pub open spec fn max_unsigned(bits: nat) -> int {
    pow2(bits) - 1
}

impl CodegenCx {
    /// Defines type `t` with the given layout and then the constant that
    /// `build` makes at that type.
    fn def_typed_const(
        &mut self,
        t: SpirvType,
        size: Option<u64>,
        align: u64,
        build: u8,
        v32: u32,
        v64: u64,
        vb: bool,
    ) -> (r: Result<SpirvValue, ConstError>)
        requires
            old(self).wf(),
            align >= 1,
            layout_fits(t@, size, align, old(self)@.pointer_size, old(self)@.pointer_align),
            components_below(t@, old(self)@.next_id),
            refs_below(t@, old(self)@.next_id),
            build < 5,
        ensures
            final(self).wf(),
            final(self)@.extends(old(self)@),
            typed_const_outcome(
                old(self)@,
                final(self)@,
                r,
                t@,
                size,
                align,
                (|ty: Word| make_const(build, ty, v32, v64, vb)),
            ),
    {
        let ghost m = t@;
        let ty = match self.def_type(t, size, align) {
            Ok(ty) => ty,
            Err(e) => {
                proof {
                    lemma_extends_refl(old(self)@);
                }
                return Err(e);
            },
        };
        proof {
            lemma_def_type_wf(old(self)@, m, size, align);
        }
        let ghost mid = self@;
        let c = match build {
            0 => SpirvConst::U32(ty, v32),
            1 => SpirvConst::U64(ty, v64),
            2 => SpirvConst::F32(ty, v32),
            3 => SpirvConst::F64(ty, v64),
            _ => SpirvConst::Bool(ty, vb),
        };
        assert(c@ == make_const(build, ty, v32, v64, vb));
        let r = self.def_constant(c);
        proof {
            if r is Ok {
                lemma_def_const_wf(mid, c@);
                lemma_extends_trans(old(self)@, mid, self@);
            } else {
                lemma_extends_refl(mid);
            }
        }
        r
    }

    /// Defines constant `c`.
    fn def_const_checked(&mut self, c: SpirvConst) -> (r: Result<SpirvValue, ConstError>)
        requires
            old(self).wf(),
        ensures
            final(self).wf(),
            final(self)@.extends(old(self)@),
            const_outcome(old(self)@, final(self)@, r, c@),
    {
        let ghost m = c@;
        let r = self.def_constant(c);
        proof {
            if r is Ok {
                lemma_def_const_wf(old(self)@, m);
            } else {
                lemma_extends_refl(old(self)@);
            }
        }
        r
    }

    /// The constant `val` of type `u8`.
    pub fn constant_u8(&mut self, val: u8) -> (r: Result<SpirvValue, ConstError>)
        requires
            old(self).wf(),
        ensures
            final(self).wf(),
            final(self)@.extends(old(self)@),
            typed_const_outcome(
                old(self)@,
                final(self)@,
                r,
                TypeModel::Integer(8, false),
                Some(1),
                1,
                (|ty: Word| ConstModel::U32(ty, val as u32)),
            ),
    {
        let r = self.def_typed_const(SpirvType::Integer(8, false), Some(1), 1, 0, val as u32, 0, false);
        proof {
            assert((|ty: Word| make_const(0, ty, val as u32, 0, false)) =~= (|ty: Word|
                ConstModel::U32(ty, val as u32)));
        }
        r
    }

    /// The constant `val` of type `u16`.
    pub fn constant_u16(&mut self, val: u16) -> (r: Result<SpirvValue, ConstError>)
        requires
            old(self).wf(),
        ensures
            final(self).wf(),
            final(self)@.extends(old(self)@),
            typed_const_outcome(
                old(self)@,
                final(self)@,
                r,
                TypeModel::Integer(16, false),
                Some(2),
                2,
                (|ty: Word| ConstModel::U32(ty, val as u32)),
            ),
    {
        let r = self.def_typed_const(SpirvType::Integer(16, false), Some(2), 2, 0, val as u32, 0, false);
        proof {
            assert((|ty: Word| make_const(0, ty, val as u32, 0, false)) =~= (|ty: Word|
                ConstModel::U32(ty, val as u32)));
        }
        r
    }

    /// The constant `val` of type `i32`: a signed 32-bit integer type, except
    /// in kernel mode, where integer types carry no sign.
    pub fn constant_i32(&mut self, val: i32) -> (r: Result<SpirvValue, ConstError>)
        requires
            old(self).wf(),
        ensures
            final(self).wf(),
            final(self)@.extends(old(self)@),
            typed_const_outcome(
                old(self)@,
                final(self)@,
                r,
                TypeModel::Integer(32, !old(self)@.kernel_mode),
                Some(4),
                4,
                (|ty: Word| ConstModel::U32(ty, val as u32)),
            ),
    {
        let signed = !self.kernel_mode();
        let r = self.def_typed_const(SpirvType::Integer(32, signed), Some(4), 4, 0, val as u32, 0, false);
        proof {
            assert((|ty: Word| make_const(0, ty, val as u32, 0, false)) =~= (|ty: Word|
                ConstModel::U32(ty, val as u32)));
        }
        r
    }

    /// The constant `val` of type `u32`.
    pub fn constant_u32(&mut self, val: u32) -> (r: Result<SpirvValue, ConstError>)
        requires
            old(self).wf(),
        ensures
            final(self).wf(),
            final(self)@.extends(old(self)@),
            typed_const_outcome(
                old(self)@,
                final(self)@,
                r,
                TypeModel::Integer(32, false),
                Some(4),
                4,
                (|ty: Word| ConstModel::U32(ty, val)),
            ),
    {
        let r = self.def_typed_const(SpirvType::Integer(32, false), Some(4), 4, 0, val, 0, false);
        proof {
            assert((|ty: Word| make_const(0, ty, val, 0, false)) =~= (|ty: Word|
                ConstModel::U32(ty, val)));
        }
        r
    }

    /// The constant `val` of type `u64`.
    pub fn constant_u64(&mut self, val: u64) -> (r: Result<SpirvValue, ConstError>)
        requires
            old(self).wf(),
        ensures
            final(self).wf(),
            final(self)@.extends(old(self)@),
            typed_const_outcome(
                old(self)@,
                final(self)@,
                r,
                TypeModel::Integer(64, false),
                Some(8),
                8,
                (|ty: Word| ConstModel::U64(ty, val)),
            ),
    {
        let r = self.def_typed_const(SpirvType::Integer(64, false), Some(8), 8, 1, 0, val, false);
        proof {
            assert((|ty: Word| make_const(1, ty, 0, val, false)) =~= (|ty: Word|
                ConstModel::U64(ty, val)));
        }
        r
    }

    /// The float constant with bit pattern `bits` of type `f32`.
    pub fn constant_f32(&mut self, bits: u32) -> (r: Result<SpirvValue, ConstError>)
        requires
            old(self).wf(),
        ensures
            final(self).wf(),
            final(self)@.extends(old(self)@),
            typed_const_outcome(
                old(self)@,
                final(self)@,
                r,
                TypeModel::Float(32),
                Some(4),
                4,
                (|ty: Word| ConstModel::F32(ty, bits)),
            ),
    {
        let r = self.def_typed_const(SpirvType::Float(32), Some(4), 4, 2, bits, 0, false);
        proof {
            assert((|ty: Word| make_const(2, ty, bits, 0, false)) =~= (|ty: Word|
                ConstModel::F32(ty, bits)));
        }
        r
    }

    /// The float constant with bit pattern `bits` of type `f64`.
    pub fn constant_f64(&mut self, bits: u64) -> (r: Result<SpirvValue, ConstError>)
        requires
            old(self).wf(),
        ensures
            final(self).wf(),
            final(self)@.extends(old(self)@),
            typed_const_outcome(
                old(self)@,
                final(self)@,
                r,
                TypeModel::Float(64),
                Some(8),
                8,
                (|ty: Word| ConstModel::F64(ty, bits)),
            ),
    {
        let r = self.def_typed_const(SpirvType::Float(64), Some(8), 8, 3, 0, bits, false);
        proof {
            assert((|ty: Word| make_const(3, ty, 0, bits, false)) =~= (|ty: Word|
                ConstModel::F64(ty, bits)));
        }
        r
    }

    /// The constant `val` of type `bool`.
    pub fn constant_bool(&mut self, val: bool) -> (r: Result<SpirvValue, ConstError>)
        requires
            old(self).wf(),
        ensures
            final(self).wf(),
            final(self)@.extends(old(self)@),
            typed_const_outcome(
                old(self)@,
                final(self)@,
                r,
                TypeModel::Bool,
                Some(1),
                1,
                (|ty: Word| ConstModel::Bool(ty, val)),
            ),
    {
        let r = self.def_typed_const(SpirvType::Bool, Some(1), 1, 4, 0, 0, val);
        proof {
            assert((|ty: Word| make_const(4, ty, 0, 0, val)) =~= (|ty: Word|
                ConstModel::Bool(ty, val)));
        }
        r
    }

    /// The composite constant of type `ty` with the constituents `val`.
    pub fn constant_composite(&mut self, ty: Word, val: Vec<Word>) -> (r: Result<
        SpirvValue,
        ConstError,
    >)
        requires
            old(self).wf(),
        ensures
            final(self).wf(),
            final(self)@.extends(old(self)@),
            const_outcome(old(self)@, final(self)@, r, ConstModel::Composite(ty, val@)),
    {
        self.def_const_checked(SpirvConst::Composite(ty, val))
    }

    /// The null constant of type `ty`.
    pub fn constant_null(&mut self, ty: Word) -> (r: Result<SpirvValue, ConstError>)
        requires
            old(self).wf(),
        ensures
            final(self).wf(),
            final(self)@.extends(old(self)@),
            const_outcome(old(self)@, final(self)@, r, ConstModel::Null(ty)),
    {
        self.def_const_checked(SpirvConst::Null(ty))
    }

    /// The undefined value of type `ty`.
    pub fn undef(&mut self, ty: Word) -> (r: Result<SpirvValue, ConstError>)
        requires
            old(self).wf(),
        ensures
            final(self).wf(),
            final(self)@.extends(old(self)@),
            const_outcome(old(self)@, final(self)@, r, ConstModel::Undef(ty)),
    {
        self.def_const_checked(SpirvConst::Undef(ty))
    }

    /// The integer constant `val` of type `ty` (an integer or bool type):
    /// see [`int_plan`].
    pub fn constant_int(&mut self, ty: Word, val: u64) -> (r: Result<SpirvValue, ConstError>)
        requires
            old(self).wf(),
            old(self)@.types.contains_key(ty),
        ensures
            final(self).wf(),
            final(self)@.extends(old(self)@),
            int_outcome(old(self)@, final(self)@, r, ty, val),
    {
        let t = match self.lookup_type(ty) {
            Some(e) => e.ty.duplicate(),
            None => {
                return Err(ConstError::ConstantIntInvalidType(ty));
            },
        };
        proof {
            lemma_extends_refl(old(self)@);
        }
        match t {
            SpirvType::Integer(8, false) => self.def_const_checked(
                SpirvConst::U32(ty, val as u8 as u32),
            ),
            SpirvType::Integer(16, false) => self.def_const_checked(
                SpirvConst::U32(ty, val as u16 as u32),
            ),
            SpirvType::Integer(32, false) => self.def_const_checked(SpirvConst::U32(ty, val as u32)),
            SpirvType::Integer(64, false) => self.def_const_checked(SpirvConst::U64(ty, val)),
            SpirvType::Integer(8, true) => self.def_const_checked(
                SpirvConst::U32(ty, val as i64 as i8 as u32),
            ),
            SpirvType::Integer(16, true) => self.def_const_checked(
                SpirvConst::U32(ty, val as i64 as i16 as u32),
            ),
            SpirvType::Integer(32, true) => self.def_const_checked(
                SpirvConst::U32(ty, val as i64 as i32 as u32),
            ),
            SpirvType::Integer(64, true) => self.def_const_checked(SpirvConst::U64(ty, val)),
            SpirvType::Bool => {
                if val == 0 {
                    self.def_const_checked(SpirvConst::Bool(ty, false))
                } else if val == 1 {
                    self.def_const_checked(SpirvConst::Bool(ty, true))
                } else {
                    Err(ConstError::InvalidBoolValue(val as u128))
                }
            },
            SpirvType::Integer(128, _) => {
                let result = self.undef(ty)?;
                let ghost mid = self@;
                self.zombie_no_span(result.def_cx(), ZombieReason::U128Constant);
                proof {
                    lemma_zombie_wf(mid, result.spec_def(), ZombieReason::U128Constant);
                    lemma_extends_trans(old(self)@, mid, self@);
                }
                Ok(result)
            },
            _ => Err(ConstError::ConstantIntInvalidType(ty)),
        }
    }

    /// The float constant of type `ty` (a 32 or 64 bit float type) whose
    /// value has the bit pattern `bits32` as a 32-bit float and `bits64` as a
    /// 64-bit float: see [`float_outcome`].
    pub fn constant_float(&mut self, ty: Word, bits32: u32, bits64: u64) -> (r: Result<
        SpirvValue,
        ConstError,
    >)
        requires
            old(self).wf(),
            old(self)@.types.contains_key(ty),
        ensures
            final(self).wf(),
            final(self)@.extends(old(self)@),
            float_outcome(old(self)@, final(self)@, r, ty, bits32, bits64),
    {
        let width = match self.lookup_type(ty) {
            Some(e) => match e.ty {
                SpirvType::Float(w) => w,
                _ => 0,
            },
            None => 0,
        };
        proof {
            lemma_extends_refl(old(self)@);
        }
        if width == 32 {
            self.def_const_checked(SpirvConst::F32(ty, bits32))
        } else if width == 64 {
            self.def_const_checked(SpirvConst::F64(ty, bits64))
        } else {
            Err(ConstError::ConstantFloatInvalidType(ty))
        }
    }

    /// The value of an integer constant, widened to 64 bits.
    pub fn const_to_opt_uint(&self, v: SpirvValue) -> (r: Option<u64>)
        ensures
            r == const_u64_value(self@.consts.get(v.spec_def())),
    {
        self.lookup_const_u64(v.def_cx())
    }

    /// The value of an integer constant as 128 bits: sign-extended from 64
    /// bits where `sign_ext` holds, zero-extended otherwise.
    pub fn const_to_opt_u128(&self, v: SpirvValue, sign_ext: bool) -> (r: Option<u128>)
        ensures
            r == match const_u64_value(self@.consts.get(v.spec_def())) {
                Some(x) => Some(
                    if sign_ext {
                        x as i64 as i128 as u128
                    } else {
                        x as u128
                    },
                ),
                None => None,
            },
    {
        match self.lookup_const_u64(v.def_cx()) {
            Some(x) => Some(
                if sign_ext {
                    x as i64 as i128 as u128
                } else {
                    x as u128
                },
            ),
            None => None,
        }
    }

    /// `val` seen at type `ty`: unchanged where it already has that type;
    /// otherwise the plain value with `val`'s id at type `ty`, marked, since
    /// SPIR-V has no constant pointer casts.
    pub fn const_ptrcast(&mut self, val: SpirvValue, ty: Word) -> (r: SpirvValue)
        requires
            old(self).wf(),
        ensures
            final(self).wf(),
            final(self)@.extends(old(self)@),
            val.ty == ty ==> r == val && final(self)@ == old(self)@,
            val.ty != ty ==> r == (SpirvValue { kind: SpirvValueKind::Def(val.spec_def()), ty })
                && final(self)@ == old(self)@.after_zombie_no_span(
                val.spec_def(),
                ZombieReason::ConstPtrcast,
            ),
    {
        if val.ty == ty {
            proof {
                lemma_extends_refl(old(self)@);
            }
            val
        } else {
            let result = with_type(val.def_cx(), ty);
            self.zombie_no_span(result.def_cx(), ZombieReason::ConstPtrcast);
            proof {
                lemma_zombie_wf(old(self)@, val.spec_def(), ZombieReason::ConstPtrcast);
            }
            result
        }
    }

    /// The layout of a scalar of kind `value`: all bit patterns of its size
    /// are valid.
    pub fn primitive_to_scalar(&self, value: Primitive) -> (r: AbiScalar)
        requires
            self.wf(),
        ensures
            r.value == value,
            r.valid_range_start == 0,
            r.valid_range_end == max_unsigned(8 * value.spec_size(self@.pointer_size) as nat),
    {
        let bits = value.size(self.pointer_size()) * 8;
        proof {
            vstd::arithmetic::power2::lemma2_to64();
            vstd::arithmetic::power2::lemma2_to64_rest();
        }
        let end: u128 = (!0u128) >> ((128 - bits) as u32);
        proof {
            if bits == 8 {
                assert((!0u128) >> 120u32 == 0xffu128) by (bit_vector);
            } else if bits == 16 {
                assert((!0u128) >> 112u32 == 0xffffu128) by (bit_vector);
            } else if bits == 32 {
                assert((!0u128) >> 96u32 == 0xffff_ffffu128) by (bit_vector);
            } else if bits == 64 {
                assert((!0u128) >> 64u32 == 0xffff_ffff_ffff_ffffu128) by (bit_vector);
            } else {
                assert(bits == 128);
                assert((!0u128) >> 0u32 == 0xffff_ffff_ffff_ffff_ffff_ffff_ffff_ffffu128)
                    by (bit_vector);
                lemma_pow2_128();
            }
        }
        AbiScalar { value, valid_range_start: 0, valid_range_end: end }
    }
}

/// The types of `elts`.
pub open spec fn value_types(elts: Seq<SpirvValue>) -> Seq<Word> {
    elts.map_values(|v: SpirvValue| v.ty)
}

/// The ids that stand for `elts`.
pub open spec fn value_ids(elts: Seq<SpirvValue>) -> Seq<Word> {
    elts.map_values(|v: SpirvValue| v.spec_def())
}

/// The struct type that `const_struct` lays out for fields of types `tys`.
pub open spec fn auto_struct_type(types: Map<Word, crate::cx::TypeInfo>, tys: Seq<Word>) -> TypeModel {
    let (offsets, size, align) = struct_layout(types, tys);
    TypeModel::Adt {
        def_id: None,
        size,
        align,
        field_types: tys,
        field_offsets: offsets,
        is_block: false,
    }
}

impl CodegenCx {
    /// A struct constant made of `elts`, of a struct type laid out from the
    /// elements' types (see [`struct_layout`]). `packed` does not change the
    /// result.
    pub fn const_struct(&mut self, elts: &[SpirvValue], packed: bool) -> (r: Result<
        SpirvValue,
        ConstError,
    >)
        requires
            old(self).wf(),
            struct_layout_ok(old(self)@.types, value_types(elts@)),
        ensures
            final(self).wf(),
            final(self)@.extends(old(self)@),
            ({
                let (_, size, align) = struct_layout(old(self)@.types, value_types(elts@));
                typed_const_outcome(
                    old(self)@,
                    final(self)@,
                    r,
                    auto_struct_type(old(self)@.types, value_types(elts@)),
                    size,
                    align,
                    (|ty: Word| ConstModel::Composite(ty, value_ids(elts@))),
                )
            }),
    {
        let mut field_types: Vec<Word> = Vec::new();
        let mut ids: Vec<Word> = Vec::new();
        let mut i: usize = 0;
        while i < elts.len()
            invariant
                i <= elts@.len(),
                field_types@ == value_types(elts@).subrange(0, i as int),
                ids@ == value_ids(elts@).subrange(0, i as int),
            decreases elts.len() - i,
        {
            field_types.push(elts[i].ty);
            ids.push(elts[i].def_cx());
            i = i + 1;
            assert(field_types@ =~= value_types(elts@).subrange(0, i as int));
            assert(ids@ =~= value_ids(elts@).subrange(0, i as int));
        }
        assert(field_types@ =~= value_types(elts@));
        assert(ids@ =~= value_ids(elts@));
        let (field_offsets, size, align) = self.auto_struct_layout(&field_types);
        let ghost tys = field_types@;
        let ghost adt = auto_struct_type(self@.types, tys);
        proof {
            assert forall|k: int| 0 <= k < tys.len() implies #[trigger] tys[k] < self@.next_id by {
                assert(self@.types.contains_key(tys[k]));
            }
        }
        let t = SpirvType::Adt {
            def_id: None,
            size,
            align,
            field_types,
            field_offsets,
            is_block: false,
        };
        assert(t@ == adt);
        let r = self.def_typed_const_composite(t, size, align, ids);
        proof {
            assert((|ty: Word| ConstModel::Composite(ty, ids@)) =~= (|ty: Word|
                ConstModel::Composite(ty, value_ids(elts@))));
        }
        r
    }

    /// Defines type `t` and then the composite of `ids` at that type.
    fn def_typed_const_composite(
        &mut self,
        t: SpirvType,
        size: Option<u64>,
        align: u64,
        ids: Vec<Word>,
    ) -> (r: Result<SpirvValue, ConstError>)
        requires
            old(self).wf(),
            align >= 1,
            layout_fits(t@, size, align, old(self)@.pointer_size, old(self)@.pointer_align),
            components_below(t@, old(self)@.next_id),
            refs_below(t@, old(self)@.next_id),
        ensures
            final(self).wf(),
            final(self)@.extends(old(self)@),
            typed_const_outcome(
                old(self)@,
                final(self)@,
                r,
                t@,
                size,
                align,
                (|ty: Word| ConstModel::Composite(ty, ids@)),
            ),
    {
        let ghost m = t@;
        let ty = match self.def_type(t, size, align) {
            Ok(ty) => ty,
            Err(e) => {
                proof {
                    lemma_extends_refl(old(self)@);
                }
                return Err(e);
            },
        };
        proof {
            lemma_def_type_wf(old(self)@, m, size, align);
        }
        let ghost mid = self@;
        let c = SpirvConst::Composite(ty, ids);
        let r = self.def_constant(c);
        proof {
            if r is Ok {
                lemma_def_const_wf(mid, c@);
                lemma_extends_trans(old(self)@, mid, self@);
            } else {
                lemma_extends_refl(mid);
            }
        }
        r
    }

    /// The constant `i` of the pointer-sized unsigned integer type.
    pub fn const_usize(&mut self, i: u64) -> (r: Result<SpirvValue, ConstError>)
        requires
            old(self).wf(),
        ensures
            final(self).wf(),
            final(self)@.extends(old(self)@),
            ({
                let psize = old(self)@.pointer_size;
                let t = TypeModel::Integer((8 * psize) as u32, false);
                let mid = old(self)@.after_def_type(t, Some(psize), psize);
                let ty = old(self)@.id_after_def(t);
                if old(self)@.type_ids.contains_key(t) || old(self)@.next_id < u32::MAX {
                    int_outcome(mid, final(self)@, r, ty, i)
                } else {
                    r == Err::<SpirvValue, ConstError>(ConstError::IdsExhausted) && final(self)@
                        == old(self)@
                }
            }),
    {
        let psize = self.pointer_size();
        let bits = (psize * 8) as u32;
        let ghost t = TypeModel::Integer(bits, false);
        let ty = match self.def_type(SpirvType::Integer(bits, false), Some(psize), psize) {
            Ok(ty) => ty,
            Err(e) => {
                proof {
                    lemma_extends_refl(old(self)@);
                }
                return Err(e);
            },
        };
        proof {
            lemma_def_type_wf(old(self)@, t, Some(psize), psize);
        }
        let ghost mid = self@;
        let r = self.constant_int(ty, i);
        proof {
            lemma_extends_trans(old(self)@, mid, self@);
        }
        r
    }

    /// A string constant: a pointer to an undefined value of the string type
    /// `str_ty` (the bytes are not emitted), and the length of `s` in bytes
    /// as a pointer-sized integer.
    pub fn const_str(&mut self, str_ty: Word, s: &str) -> (r: Result<
        (SpirvValue, SpirvValue),
        ConstError,
    >)
        requires
            old(self).wf(),
            str_ty < old(self)@.next_id,
        ensures
            final(self).wf(),
            final(self)@.extends(old(self)@),
            match r {
                Ok((p, l)) => {
                    let undef = ConstModel::Undef(str_ty);
                    let u = SpirvValue {
                        kind: SpirvValueKind::Def(old(self)@.const_id_after_def(undef)),
                        ty: str_ty,
                    };
                    let pointed = old(self)@.after_def_const(undef).after_constant_pointer(u);
                    let m = pointed.1;
                    let ps = old(self)@.pointer_size;
                    let t = TypeModel::Integer((8 * ps) as u32, false);
                    let mid = m.after_def_type(t, Some(ps), ps);
                    let ty = m.id_after_def(t);
                    let len = s.spec_bytes().len() as usize as u64;
                    let c = if ps == 4 {
                        ConstModel::U32(ty, len as u32)
                    } else {
                        ConstModel::U64(ty, len)
                    };
                    &&& p == pointed.0
                    &&& l == (SpirvValue { kind: SpirvValueKind::Def(mid.const_id_after_def(c)), ty })
                    &&& final(self)@ == mid.after_def_const(c)
                },
                Err(e) => e is IdsExhausted,
            },
            old(self)@.next_id < u32::MAX - 4 ==> r is Ok,
    {
        let len = s.len();
        let u = self.undef(str_ty)?;
        let ghost m1 = self@;
        let p = match self.make_constant_pointer(u) {
            Ok(p) => p,
            Err(e) => {
                proof {
                    lemma_extends_trans(old(self)@, m1, self@);
                }
                return Err(e);
            },
        };
        let ghost m2 = self@;
        let l = match self.const_usize(len as u64) {
            Ok(l) => l,
            Err(e) => {
                proof {
                    lemma_extends_trans(old(self)@, m1, m2);
                    lemma_extends_trans(old(self)@, m2, self@);
                }
                return Err(e);
            },
        };
        proof {
            lemma_extends_trans(old(self)@, m1, m2);
            lemma_extends_trans(old(self)@, m2, self@);
            let ps = m2.pointer_size;
            let t = TypeModel::Integer((8 * ps) as u32, false);
            lemma_after_def_type_has(m2, t, Some(ps), ps);
            let mid = m2.after_def_type(t, Some(ps), ps);
            let ty = m2.id_after_def(t);
            let c = if ps == 4 {
                ConstModel::U32(ty, len as u64 as u32)
            } else {
                ConstModel::U64(ty, len as u64)
            };
            assert(int_plan(mid.types[ty].ty, ty, len as u64) == IntPlan::Const(c));
        }
        Ok((p, l))
    }
}

impl CodegenCx {
    /// The null constant of type `t`.
    pub fn const_null(&mut self, t: Word) -> (r: Result<SpirvValue, ConstError>)
        requires
            old(self).wf(),
        ensures
            final(self).wf(),
            final(self)@.extends(old(self)@),
            const_outcome(old(self)@, final(self)@, r, ConstModel::Null(t)),
    {
        self.constant_null(t)
    }

    /// The undefined value of type `t`.
    pub fn const_undef(&mut self, t: Word) -> (r: Result<SpirvValue, ConstError>)
        requires
            old(self).wf(),
        ensures
            final(self).wf(),
            final(self)@.extends(old(self)@),
            const_outcome(old(self)@, final(self)@, r, ConstModel::Undef(t)),
    {
        self.undef(t)
    }

    /// The integer constant `i` of type `t`, its two's complement bits read
    /// as an unsigned number: see [`int_plan`].
    pub fn const_int(&mut self, t: Word, i: i64) -> (r: Result<SpirvValue, ConstError>)
        requires
            old(self).wf(),
            old(self)@.types.contains_key(t),
        ensures
            final(self).wf(),
            final(self)@.extends(old(self)@),
            int_outcome(old(self)@, final(self)@, r, t, i as u64),
    {
        self.constant_int(t, i as u64)
    }

    /// The integer constant `i` of type `t`: see [`int_plan`].
    pub fn const_uint(&mut self, t: Word, i: u64) -> (r: Result<SpirvValue, ConstError>)
        requires
            old(self).wf(),
            old(self)@.types.contains_key(t),
        ensures
            final(self).wf(),
            final(self)@.extends(old(self)@),
            int_outcome(old(self)@, final(self)@, r, t, i),
    {
        self.constant_int(t, i)
    }

    /// The integer constant of type `t` made of the low 64 bits of `u`: see
    /// [`int_plan`].
    pub fn const_uint_big(&mut self, t: Word, u: u128) -> (r: Result<SpirvValue, ConstError>)
        requires
            old(self).wf(),
            old(self)@.types.contains_key(t),
        ensures
            final(self).wf(),
            final(self)@.extends(old(self)@),
            int_outcome(old(self)@, final(self)@, r, t, u as u64),
    {
        self.constant_int(t, u as u64)
    }

    /// The constant `val` of type `bool`.
    pub fn const_bool(&mut self, val: bool) -> (r: Result<SpirvValue, ConstError>)
        requires
            old(self).wf(),
        ensures
            final(self).wf(),
            final(self)@.extends(old(self)@),
            typed_const_outcome(
                old(self)@,
                final(self)@,
                r,
                TypeModel::Bool,
                Some(1),
                1,
                (|ty: Word| ConstModel::Bool(ty, val)),
            ),
    {
        self.constant_bool(val)
    }

    /// The constant `i` of type `i32` (unsigned in kernel mode).
    pub fn const_i32(&mut self, i: i32) -> (r: Result<SpirvValue, ConstError>)
        requires
            old(self).wf(),
        ensures
            final(self).wf(),
            final(self)@.extends(old(self)@),
            typed_const_outcome(
                old(self)@,
                final(self)@,
                r,
                TypeModel::Integer(32, !old(self)@.kernel_mode),
                Some(4),
                4,
                (|ty: Word| ConstModel::U32(ty, i as u32)),
            ),
    {
        self.constant_i32(i)
    }

    /// The constant `i` of type `u32`.
    pub fn const_u32(&mut self, i: u32) -> (r: Result<SpirvValue, ConstError>)
        requires
            old(self).wf(),
        ensures
            final(self).wf(),
            final(self)@.extends(old(self)@),
            typed_const_outcome(
                old(self)@,
                final(self)@,
                r,
                TypeModel::Integer(32, false),
                Some(4),
                4,
                (|ty: Word| ConstModel::U32(ty, i)),
            ),
    {
        self.constant_u32(i)
    }

    /// The constant `i` of type `u64`.
    pub fn const_u64(&mut self, i: u64) -> (r: Result<SpirvValue, ConstError>)
        requires
            old(self).wf(),
        ensures
            final(self).wf(),
            final(self)@.extends(old(self)@),
            typed_const_outcome(
                old(self)@,
                final(self)@,
                r,
                TypeModel::Integer(64, false),
                Some(8),
                8,
                (|ty: Word| ConstModel::U64(ty, i)),
            ),
    {
        self.constant_u64(i)
    }

    /// The constant `i` of type `u8`.
    pub fn const_u8(&mut self, i: u8) -> (r: Result<SpirvValue, ConstError>)
        requires
            old(self).wf(),
        ensures
            final(self).wf(),
            final(self)@.extends(old(self)@),
            typed_const_outcome(
                old(self)@,
                final(self)@,
                r,
                TypeModel::Integer(8, false),
                Some(1),
                1,
                (|ty: Word| ConstModel::U32(ty, i as u32)),
            ),
    {
        self.constant_u8(i)
    }
}

/// `2^128`.
proof fn lemma_pow2_128()
    ensures
        pow2(128) == 0x1_0000_0000_0000_0000_0000_0000_0000_0000,
{
    vstd::arithmetic::power2::lemma2_to64();
    vstd::arithmetic::power2::lemma_pow2_adds(64, 64);
}

/// The constant that `def_typed_const` builds for selector `build`.
pub open spec fn make_const(build: u8, ty: Word, v32: u32, v64: u64, vb: bool) -> ConstModel {
    if build == 0 {
        ConstModel::U32(ty, v32)
    } else if build == 1 {
        ConstModel::U64(ty, v64)
    } else if build == 2 {
        ConstModel::F32(ty, v32)
    } else if build == 3 {
        ConstModel::F64(ty, v64)
    } else {
        ConstModel::Bool(ty, vb)
    }
}

} // verus!
