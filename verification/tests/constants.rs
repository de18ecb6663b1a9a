use spirv_const::abi::{Integer, Primitive};
use spirv_const::cx::{CodegenCx, Zombie};
use spirv_const::types::{
    ConstError, SpirvConst, SpirvType, SpirvValue, SpirvValueKind, ZombieReason,
    STORAGE_CLASS_FUNCTION,
};

fn cx() -> CodegenCx {
    CodegenCx::new(false, true, 8, 8)
}

fn def_id(v: &SpirvValue) -> u32 {
    match v.kind {
        SpirvValueKind::Def(id) => id,
        SpirvValueKind::ConstantPointer { .. } => panic!("not a plain value"),
    }
}

fn const_of(cx: &CodegenCx, v: &SpirvValue) -> String {
    format!("{:?}", cx.lookup_const(def_id(v)).unwrap())
}

#[test]
fn constant_u8_defines_type_and_constant() {
    let mut cx = cx();
    let v = cx.constant_u8(7).unwrap();
    let t = cx.lookup_type(v.ty).unwrap();
    assert!(matches!(t.ty, SpirvType::Integer(8, false)));
    assert_eq!(t.size, Some(1));
    assert_eq!(t.align, 1);
    assert!(matches!(cx.lookup_const(def_id(&v)), Some(SpirvConst::U32(ty, 7)) if *ty == v.ty));
}

#[test]
fn constants_are_interned() {
    let mut cx = cx();
    let a = cx.constant_u32(42).unwrap();
    let next = cx.next_id();
    let b = cx.constant_u32(42).unwrap();
    assert_eq!(a, b);
    assert_eq!(cx.next_id(), next);
    let c = cx.constant_u32(43).unwrap();
    assert_ne!(def_id(&a), def_id(&c));
    assert_eq!(a.ty, c.ty);
}

#[test]
fn types_are_interned() {
    let mut cx = cx();
    let t1 = cx.def_type(SpirvType::Float(32), Some(4), 4).unwrap();
    let t2 = cx.def_type(SpirvType::Float(32), Some(4), 4).unwrap();
    assert_eq!(t1, t2);
    let f = cx.constant_f32(0x3f80_0000).unwrap();
    assert_eq!(f.ty, t1);
    assert!(matches!(cx.lookup_const(def_id(&f)), Some(SpirvConst::F32(_, 0x3f80_0000))));
}

#[test]
fn constant_u16_u64_and_f64() {
    let mut cx = cx();
    let a = cx.constant_u16(0xbeef).unwrap();
    assert!(matches!(cx.lookup_const(def_id(&a)), Some(SpirvConst::U32(_, 0xbeef))));
    let b = cx.constant_u64(u64::MAX).unwrap();
    assert!(matches!(cx.lookup_const(def_id(&b)), Some(SpirvConst::U64(_, u64::MAX))));
    let c = cx.constant_f64(0x4000_0000_0000_0000).unwrap();
    assert!(matches!(cx.lookup_type(c.ty).unwrap().ty, SpirvType::Float(64)));
}

#[test]
fn constant_i32_signedness_follows_kernel_mode() {
    let mut shader = CodegenCx::new(false, true, 8, 8);
    let v = shader.constant_i32(-1).unwrap();
    assert!(matches!(shader.lookup_type(v.ty).unwrap().ty, SpirvType::Integer(32, true)));
    assert!(matches!(shader.lookup_const(def_id(&v)), Some(SpirvConst::U32(_, 0xffff_ffff))));
    let mut kernel = CodegenCx::new(true, true, 8, 8);
    let k = kernel.constant_i32(-1).unwrap();
    assert!(matches!(kernel.lookup_type(k.ty).unwrap().ty, SpirvType::Integer(32, false)));
}

#[test]
fn constant_bool_values() {
    let mut cx = cx();
    let t = cx.constant_bool(true).unwrap();
    let f = cx.constant_bool(false).unwrap();
    assert_eq!(t.ty, f.ty);
    assert!(matches!(cx.lookup_const(def_id(&t)), Some(SpirvConst::Bool(_, true))));
    assert!(matches!(cx.lookup_const(def_id(&f)), Some(SpirvConst::Bool(_, false))));
}

#[test]
fn constant_int_truncates_unsigned_values() {
    let mut cx = cx();
    let u8t = cx.def_type(SpirvType::Integer(8, false), Some(1), 1).unwrap();
    let u16t = cx.def_type(SpirvType::Integer(16, false), Some(2), 2).unwrap();
    let u32t = cx.def_type(SpirvType::Integer(32, false), Some(4), 4).unwrap();
    let u64t = cx.def_type(SpirvType::Integer(64, false), Some(8), 8).unwrap();
    let a = cx.constant_int(u8t, 0x1ff).unwrap();
    assert_eq!(cx.const_to_opt_uint(a), Some(0xff));
    let b = cx.constant_int(u16t, 0x1_2345).unwrap();
    assert_eq!(cx.const_to_opt_uint(b), Some(0x2345));
    let c = cx.constant_int(u32t, 0x1_0000_0005).unwrap();
    assert_eq!(cx.const_to_opt_uint(c), Some(5));
    let d = cx.constant_int(u64t, 0xdead_beef_0000_0001).unwrap();
    assert_eq!(cx.const_to_opt_uint(d), Some(0xdead_beef_0000_0001));
}

#[test]
fn constant_int_sign_extends_small_signed_values() {
    let mut cx = cx();
    let i8t = cx.def_type(SpirvType::Integer(8, true), Some(1), 1).unwrap();
    let i16t = cx.def_type(SpirvType::Integer(16, true), Some(2), 2).unwrap();
    let i32t = cx.def_type(SpirvType::Integer(32, true), Some(4), 4).unwrap();
    let a = cx.constant_int(i8t, (-1i64) as u64).unwrap();
    assert_eq!(cx.const_to_opt_uint(a), Some(0xffff_ffff));
    let b = cx.constant_int(i8t, 0x7f).unwrap();
    assert_eq!(cx.const_to_opt_uint(b), Some(0x7f));
    let c = cx.constant_int(i16t, 0x8000).unwrap();
    assert_eq!(cx.const_to_opt_uint(c), Some(0xffff_8000));
    let d = cx.constant_int(i32t, (-2i64) as u64).unwrap();
    assert_eq!(cx.const_to_opt_uint(d), Some(0xffff_fffe));
}

#[test]
fn constant_int_on_bool() {
    let mut cx = cx();
    let bt = cx.def_type(SpirvType::Bool, Some(1), 1).unwrap();
    let t = cx.constant_int(bt, 1).unwrap();
    assert!(matches!(cx.lookup_const(def_id(&t)), Some(SpirvConst::Bool(_, true))));
    let f = cx.constant_int(bt, 0).unwrap();
    assert!(matches!(cx.lookup_const(def_id(&f)), Some(SpirvConst::Bool(_, false))));
    assert_eq!(cx.constant_int(bt, 2), Err(ConstError::InvalidBoolValue(2)));
}

#[test]
fn constant_int_u128_is_marked_undef() {
    let mut sys = CodegenCx::new(false, true, 8, 8);
    let t = sys.def_type(SpirvType::Integer(128, false), Some(16), 16).unwrap();
    let v = sys.constant_int(t, 3).unwrap();
    assert!(matches!(sys.lookup_const(def_id(&v)), Some(SpirvConst::Undef(_))));
    assert_eq!(
        sys.zombies().clone(),
        vec![Zombie { id: def_id(&v), reason: ZombieReason::U128Constant }]
    );
    assert!(sys.diagnostics().is_empty());

    let mut user = CodegenCx::new(false, false, 8, 8);
    let t = user.def_type(SpirvType::Integer(128, true), Some(16), 16).unwrap();
    let _ = user.constant_int(t, 3).unwrap();
    assert!(user.zombies().is_empty());
    assert_eq!(user.diagnostics().clone(), vec![ZombieReason::U128Constant]);
}

#[test]
fn constant_int_refuses_other_types() {
    let mut cx = cx();
    let ft = cx.def_type(SpirvType::Float(32), Some(4), 4).unwrap();
    assert_eq!(cx.constant_int(ft, 1), Err(ConstError::ConstantIntInvalidType(ft)));
    let odd = cx.def_type(SpirvType::Integer(24, false), Some(3), 1).unwrap();
    assert_eq!(cx.constant_int(odd, 1), Err(ConstError::ConstantIntInvalidType(odd)));
}

#[test]
fn constant_float_picks_the_width() {
    let mut cx = cx();
    let f32t = cx.def_type(SpirvType::Float(32), Some(4), 4).unwrap();
    let f64t = cx.def_type(SpirvType::Float(64), Some(8), 8).unwrap();
    let a = cx.constant_float(f32t, 1.5f32.to_bits(), 1.5f64.to_bits()).unwrap();
    assert!(matches!(cx.lookup_const(def_id(&a)), Some(SpirvConst::F32(t, b)) if *t == f32t && *b == 1.5f32.to_bits()));
    let b = cx.constant_float(f64t, 1.5f32.to_bits(), 1.5f64.to_bits()).unwrap();
    assert!(matches!(cx.lookup_const(def_id(&b)), Some(SpirvConst::F64(t, x)) if *t == f64t && *x == 1.5f64.to_bits()));
    let it = cx.def_type(SpirvType::Integer(32, false), Some(4), 4).unwrap();
    assert_eq!(cx.constant_float(it, 0, 0), Err(ConstError::ConstantFloatInvalidType(it)));
}

#[test]
fn composite_null_and_undef() {
    let mut cx = cx();
    let a = cx.constant_u32(1).unwrap();
    let b = cx.constant_u32(2).unwrap();
    let vec_ty = cx
        .def_type(SpirvType::Vector { element: a.ty, count: 2 }, Some(8), 4)
        .unwrap();
    let c = cx.constant_composite(vec_ty, vec![def_id(&a), def_id(&b)]).unwrap();
    assert_eq!(c.ty, vec_ty);
    assert_eq!(const_of(&cx, &c), format!("Composite({}, [{}, {}])", vec_ty, def_id(&a), def_id(&b)));
    let n = cx.constant_null(vec_ty).unwrap();
    assert!(matches!(cx.lookup_const(def_id(&n)), Some(SpirvConst::Null(t)) if *t == vec_ty));
    let u = cx.undef(vec_ty).unwrap();
    assert!(matches!(cx.lookup_const(def_id(&u)), Some(SpirvConst::Undef(t)) if *t == vec_ty));
    assert_ne!(def_id(&n), def_id(&u));
}

#[test]
fn const_to_opt_u128_extends() {
    let mut cx = cx();
    let v = cx.constant_u64(u64::MAX).unwrap();
    assert_eq!(cx.const_to_opt_u128(v, true), Some(u128::MAX));
    assert_eq!(cx.const_to_opt_u128(v, false), Some(u64::MAX as u128));
    let small = cx.constant_u8(5).unwrap();
    assert_eq!(cx.const_to_opt_u128(small, true), Some(5));
    let b = cx.constant_bool(true).unwrap();
    assert_eq!(cx.const_to_opt_u128(b, false), None);
    assert_eq!(cx.const_to_opt_uint(b), None);
}

#[test]
fn const_ptrcast_same_type_is_identity() {
    let mut cx = cx();
    let v = cx.constant_u32(9).unwrap();
    let before = cx.zombies().len();
    assert_eq!(cx.const_ptrcast(v, v.ty), v);
    assert_eq!(cx.zombies().len(), before);
}

#[test]
fn const_ptrcast_other_type_is_marked() {
    let mut sys = cx();
    let v = sys.constant_u32(9).unwrap();
    let other = sys.def_type(SpirvType::Float(32), Some(4), 4).unwrap();
    let r = sys.const_ptrcast(v, other);
    assert_eq!(r.kind, SpirvValueKind::Def(def_id(&v)));
    assert_eq!(r.ty, other);
    assert_eq!(
        sys.zombies().clone(),
        vec![Zombie { id: def_id(&v), reason: ZombieReason::ConstPtrcast }]
    );
    let mut user = CodegenCx::new(false, false, 8, 8);
    let v = user.constant_u32(9).unwrap();
    let other = user.def_type(SpirvType::Float(32), Some(4), 4).unwrap();
    let _ = user.const_ptrcast(v, other);
    assert_eq!(user.diagnostics().clone(), vec![ZombieReason::ConstPtrcast]);
}

#[test]
fn primitive_to_scalar_ranges() {
    let cx = CodegenCx::new(false, true, 4, 4);
    let s = cx.primitive_to_scalar(Primitive::Int(Integer::I8, false));
    assert_eq!((s.valid_range_start, s.valid_range_end), (0, 0xff));
    let s = cx.primitive_to_scalar(Primitive::Int(Integer::I16, true));
    assert_eq!(s.valid_range_end, 0xffff);
    let s = cx.primitive_to_scalar(Primitive::F32);
    assert_eq!(s.valid_range_end, 0xffff_ffff);
    let s = cx.primitive_to_scalar(Primitive::F64);
    assert_eq!(s.valid_range_end, u64::MAX as u128);
    let s = cx.primitive_to_scalar(Primitive::Int(Integer::I128, false));
    assert_eq!(s.valid_range_end, u128::MAX);
    let s = cx.primitive_to_scalar(Primitive::Pointer);
    assert_eq!(s.value, Primitive::Pointer);
    assert_eq!(s.valid_range_end, 0xffff_ffff);
}

#[test]
fn const_struct_lays_out_fields() {
    let mut cx = cx();
    let a = cx.constant_u8(1).unwrap();
    let b = cx.constant_u32(2).unwrap();
    let c = cx.constant_u16(3).unwrap();
    let s = cx.const_struct(&[a, b, c], false).unwrap();
    let t = cx.lookup_type(s.ty).unwrap();
    match &t.ty {
        SpirvType::Adt { size, align, field_types, field_offsets, def_id: None, is_block: false } => {
            assert_eq!(field_types.clone(), vec![a.ty, b.ty, c.ty]);
            assert_eq!(field_offsets.clone(), vec![0, 4, 8]);
            assert_eq!(*size, Some(12));
            assert_eq!(*align, 4);
        },
        other => panic!("not a struct: {:?}", other),
    }
    assert_eq!(t.size, Some(12));
    assert_eq!(
        const_of(&cx, &s),
        format!("Composite({}, [{}, {}, {}])", s.ty, def_id(&a), def_id(&b), def_id(&c))
    );
    let again = cx.const_struct(&[a, b, c], false).unwrap();
    assert_eq!(again, s);
}

#[test]
fn auto_struct_layout_of_no_fields() {
    let cx = cx();
    let (offsets, size, align) = cx.auto_struct_layout(&[]);
    assert!(offsets.is_empty());
    assert_eq!(size, Some(0));
    assert_eq!(align, 1);
}

#[test]
fn auto_struct_layout_unsized_last_field() {
    let mut cx = cx();
    let u32t = cx.def_type(SpirvType::Integer(32, false), Some(4), 4).unwrap();
    let u8t = cx.def_type(SpirvType::Integer(8, false), Some(1), 1).unwrap();
    let rt = cx.def_type(SpirvType::RuntimeArray { element: u32t }, None, 4).unwrap();
    let (offsets, size, align) = cx.auto_struct_layout(&[u8t, rt]);
    assert_eq!(offsets, vec![0, 4]);
    assert_eq!(size, None);
    assert_eq!(align, 4);
}

#[test]
fn const_usize_uses_pointer_width() {
    let mut cx64 = CodegenCx::new(false, true, 8, 8);
    let v = cx64.const_usize(1 << 40).unwrap();
    assert!(matches!(cx64.lookup_type(v.ty).unwrap().ty, SpirvType::Integer(64, false)));
    assert_eq!(cx64.const_to_opt_uint(v), Some(1 << 40));
    let mut cx32 = CodegenCx::new(false, true, 4, 4);
    let w = cx32.const_usize((1 << 32) + 3).unwrap();
    assert!(matches!(cx32.lookup_type(w.ty).unwrap().ty, SpirvType::Integer(32, false)));
    assert_eq!(cx32.const_to_opt_uint(w), Some(3));
}

#[test]
fn const_str_points_to_undef_string() {
    let mut cx = cx();
    let str_ty = cx.def_type(SpirvType::Opaque { name: "str".to_string() }, None, 1).unwrap();
    let (p, len) = cx.const_str(str_ty, "hello").unwrap();
    match p.kind {
        SpirvValueKind::ConstantPointer { initializer, global_var } => {
            assert!(matches!(cx.lookup_const(initializer), Some(SpirvConst::Undef(t)) if *t == str_ty));
            let g = cx.lookup_global(global_var).unwrap();
            assert_eq!(g.ty, p.ty);
            assert_eq!(g.initializer, initializer);
        },
        _ => panic!("expected a constant pointer"),
    }
    assert!(matches!(
        cx.lookup_type(p.ty).unwrap().ty,
        SpirvType::Pointer { storage_class: STORAGE_CLASS_FUNCTION, pointee } if pointee == str_ty
    ));
    assert_eq!(cx.const_to_opt_uint(len), Some(5));
}

#[test]
fn make_constant_pointer_makes_a_new_variable_each_time() {
    let mut cx = cx();
    let v = cx.constant_u32(1).unwrap();
    let p1 = cx.make_constant_pointer(v).unwrap();
    let p2 = cx.make_constant_pointer(v).unwrap();
    assert_eq!(p1.ty, p2.ty);
    assert_ne!(p1.def_cx(), p2.def_cx());
}

#[test]
fn const_methods_agree_with_constant_builders() {
    let mut cx = cx();
    let a = cx.const_u8(9).unwrap();
    let b = cx.constant_u8(9).unwrap();
    assert_eq!(a, b);
    assert_eq!(cx.const_u32(70000).unwrap(), cx.constant_u32(70000).unwrap());
    assert_eq!(cx.const_u64(1 << 40).unwrap(), cx.constant_u64(1 << 40).unwrap());
    assert_eq!(cx.const_i32(-5).unwrap(), cx.constant_i32(-5).unwrap());
    assert_eq!(cx.const_bool(true).unwrap(), cx.constant_bool(true).unwrap());
    let u32t = cx.def_type(SpirvType::Integer(32, false), Some(4), 4).unwrap();
    assert_eq!(cx.const_null(u32t).unwrap(), cx.constant_null(u32t).unwrap());
    assert_eq!(cx.const_undef(u32t).unwrap(), cx.undef(u32t).unwrap());
}

#[test]
fn const_int_reads_negative_values_as_twos_complement() {
    let mut cx = cx();
    let i8t = cx.def_type(SpirvType::Integer(8, true), Some(1), 1).unwrap();
    let u16t = cx.def_type(SpirvType::Integer(16, false), Some(2), 2).unwrap();
    let a = cx.const_int(i8t, -3).unwrap();
    assert_eq!(cx.const_to_opt_uint(a), Some(0xffff_fffd));
    let b = cx.const_int(u16t, -1).unwrap();
    assert_eq!(cx.const_to_opt_uint(b), Some(0xffff));
    let c = cx.const_uint(u16t, 0x1_0007).unwrap();
    assert_eq!(cx.const_to_opt_uint(c), Some(7));
}

#[test]
fn const_uint_big_keeps_the_low_64_bits() {
    let mut cx = cx();
    let u64t = cx.def_type(SpirvType::Integer(64, false), Some(8), 8).unwrap();
    let v = cx.const_uint_big(u64t, (5u128 << 64) | 0x1234).unwrap();
    assert_eq!(cx.const_to_opt_uint(v), Some(0x1234));
    let w = cx.const_uint_big(u64t, u128::MAX).unwrap();
    assert_eq!(cx.const_to_opt_u128(w, false), Some(u64::MAX as u128));
    assert_eq!(cx.const_to_opt_u128(w, true), Some(u128::MAX));
}

#[test]
fn const_ptrcast_of_a_constant_pointer_gives_the_plain_variable() {
    let mut cx = cx();
    let v = cx.constant_u32(9).unwrap();
    let p = cx.make_constant_pointer(v).unwrap();
    let other = cx.def_type(SpirvType::Float(32), Some(4), 4).unwrap();
    let r = cx.const_ptrcast(p, other);
    let var = match p.kind {
        SpirvValueKind::ConstantPointer { global_var, .. } => global_var,
        SpirvValueKind::Def(_) => panic!("not a constant pointer"),
    };
    assert_eq!(r, SpirvValue { kind: SpirvValueKind::Def(var), ty: other });
    assert_eq!(cx.zombies().clone(), vec![Zombie { id: var, reason: ZombieReason::ConstPtrcast }]);
}
