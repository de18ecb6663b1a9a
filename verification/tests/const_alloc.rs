use spirv_const::abi::{AbiScalar, Integer, Primitive};
use spirv_const::cx::{CodegenCx, Zombie};
use spirv_const::memory::{ConstAllocation, GlobalAlloc, Relocation, Scalar, ScalarMaybeUninit};
use spirv_const::types::{
    ConstError, SpirvConst, SpirvType, SpirvValue, SpirvValueKind, ZombieReason,
    STORAGE_CLASS_FUNCTION,
};

fn cx() -> CodegenCx {
    CodegenCx::new(false, true, 8, 8)
}

fn mem(bytes: &[u8]) -> ConstAllocation {
    ConstAllocation { bytes: bytes.to_vec(), init_mask: vec![true; bytes.len()], relocations: vec![] }
}

fn def_id(v: &SpirvValue) -> u32 {
    match v.kind {
        SpirvValueKind::Def(id) => id,
        SpirvValueKind::ConstantPointer { .. } => panic!("not a plain value"),
    }
}

fn konst(cx: &CodegenCx, id: u32) -> String {
    format!("{:?}", cx.lookup_const(id).unwrap())
}

#[test]
fn read_scalar_little_endian() {
    let a = mem(&[0x78, 0x56, 0x34, 0x12, 0xff]);
    assert_eq!(
        a.read_scalar(0, 4, 8),
        Some(ScalarMaybeUninit::Scalar(Scalar::Int { data: 0x1234_5678, size: 4 }))
    );
    assert_eq!(
        a.read_scalar(4, 1, 8),
        Some(ScalarMaybeUninit::Scalar(Scalar::Int { data: 0xff, size: 1 }))
    );
    assert_eq!(a.read_scalar(2, 4, 8), None);
}

#[test]
fn read_scalar_uninit_and_relocations() {
    let mut a = mem(&[0; 16]);
    a.init_mask[1] = false;
    assert_eq!(a.read_scalar(0, 4, 8), Some(ScalarMaybeUninit::Uninit));
    let b = ConstAllocation {
        bytes: vec![0; 16],
        init_mask: vec![true; 16],
        relocations: vec![Relocation { offset: 8, alloc_id: 3 }],
    };
    assert_eq!(
        b.read_scalar(8, 8, 8),
        Some(ScalarMaybeUninit::Scalar(Scalar::Ptr { alloc_id: 3, offset: 0 }))
    );
    // a read that cuts through the stored pointer is refused
    assert_eq!(b.read_scalar(4, 8, 8), None);
    assert_eq!(b.read_scalar(8, 4, 8), None);
    // a read before it is fine
    assert_eq!(
        b.read_scalar(0, 8, 8),
        Some(ScalarMaybeUninit::Scalar(Scalar::Int { data: 0, size: 8 }))
    );
}

#[test]
fn create_const_alloc_reads_u32() {
    let mut cx = cx();
    let u32t = cx.def_type(SpirvType::Integer(32, false), Some(4), 4).unwrap();
    let v = cx.create_const_alloc(&mem(&[0x78, 0x56, 0x34, 0x12]), u32t).unwrap();
    assert_eq!(v.ty, u32t);
    assert_eq!(cx.const_to_opt_uint(v), Some(0x1234_5678));
}

#[test]
fn create_const_alloc_same_memory_same_constant() {
    let mut cx = cx();
    let u16t = cx.def_type(SpirvType::Integer(16, false), Some(2), 2).unwrap();
    let a = mem(&[1, 0]);
    let v1 = cx.create_const_alloc(&a, u16t).unwrap();
    let v2 = cx.create_const_alloc(&a, u16t).unwrap();
    assert_eq!(v1, v2);
    let direct = cx.constant_u16(1).unwrap();
    assert_eq!(direct, v1);
}

#[test]
fn create_const_alloc_reads_signed_and_bool() {
    let mut cx = cx();
    let i8t = cx.def_type(SpirvType::Integer(8, true), Some(1), 1).unwrap();
    let v = cx.create_const_alloc(&mem(&[0xfe]), i8t).unwrap();
    assert_eq!(cx.const_to_opt_uint(v), Some(0xffff_fffe));
    let bt = cx.def_type(SpirvType::Bool, Some(1), 1).unwrap();
    let t = cx.create_const_alloc(&mem(&[1]), bt).unwrap();
    assert!(matches!(cx.lookup_const(def_id(&t)), Some(SpirvConst::Bool(ty, true)) if *ty == bt));
    assert_eq!(cx.create_const_alloc(&mem(&[2]), bt), Err(ConstError::InvalidBoolValue(2)));
}

#[test]
fn create_const_alloc_reads_floats() {
    let mut cx = cx();
    let f32t = cx.def_type(SpirvType::Float(32), Some(4), 4).unwrap();
    let v = cx.create_const_alloc(&mem(&2.5f32.to_le_bytes()), f32t).unwrap();
    assert!(matches!(cx.lookup_const(def_id(&v)), Some(SpirvConst::F32(t, b)) if *t == f32t && *b == 2.5f32.to_bits()));
    let f64t = cx.def_type(SpirvType::Float(64), Some(8), 8).unwrap();
    let w = cx.create_const_alloc(&mem(&(-1.0f64).to_le_bytes()), f64t).unwrap();
    assert!(matches!(cx.lookup_const(def_id(&w)), Some(SpirvConst::F64(_, b)) if *b == (-1.0f64).to_bits()));
}

#[test]
fn create_const_alloc_uninit_is_undef() {
    let mut cx = cx();
    let u32t = cx.def_type(SpirvType::Integer(32, false), Some(4), 4).unwrap();
    let mut a = mem(&[0, 0, 0, 0]);
    a.init_mask[3] = false;
    let v = cx.create_const_alloc(&a, u32t).unwrap();
    assert!(matches!(cx.lookup_const(def_id(&v)), Some(SpirvConst::Undef(t)) if *t == u32t));
}

#[test]
fn create_const_alloc_reads_struct_fields() {
    let mut cx = cx();
    let u8t = cx.def_type(SpirvType::Integer(8, false), Some(1), 1).unwrap();
    let u32t = cx.def_type(SpirvType::Integer(32, false), Some(4), 4).unwrap();
    let st = cx
        .def_type(
            SpirvType::Adt {
                def_id: Some(1),
                size: Some(8),
                align: 4,
                field_types: vec![u8t, u32t],
                field_offsets: vec![0, 4],
                is_block: false,
            },
            Some(8),
            4,
        )
        .unwrap();
    let v = cx.create_const_alloc(&mem(&[9, 0xaa, 0xaa, 0xaa, 7, 0, 0, 0]), st).unwrap();
    assert_eq!(v.ty, st);
    let nine = cx.constant_u8(9).unwrap();
    let seven = cx.constant_u32(7).unwrap();
    assert_eq!(konst(&cx, def_id(&v)), format!("Composite({}, [{}, {}])", st, def_id(&nine), def_id(&seven)));
}

#[test]
fn create_const_alloc_reads_arrays() {
    let mut cx = cx();
    let u16t = cx.def_type(SpirvType::Integer(16, false), Some(2), 2).unwrap();
    let three = cx.constant_u32(3).unwrap();
    let at = cx
        .def_type(SpirvType::Array { element: u16t, count: def_id(&three) }, Some(6), 2)
        .unwrap();
    let v = cx.create_const_alloc(&mem(&[1, 0, 2, 0, 3, 0]), at).unwrap();
    let e: Vec<u32> =
        (1..=3u16).map(|x| def_id(&cx.constant_u16(x).unwrap())).collect();
    assert_eq!(konst(&cx, def_id(&v)), format!("Composite({}, {:?})", at, e));
}

#[test]
fn create_const_alloc_skips_vector_padding() {
    let mut cx = cx();
    let u32t = cx.def_type(SpirvType::Integer(32, false), Some(4), 4).unwrap();
    let v3 = cx.def_type(SpirvType::Vector { element: u32t, count: 3 }, Some(16), 16).unwrap();
    let outer = cx
        .def_type(
            SpirvType::Adt {
                def_id: Some(2),
                size: Some(20),
                align: 16,
                field_types: vec![v3, u32t],
                field_offsets: vec![0, 16],
                is_block: false,
            },
            Some(20),
            16,
        )
        .unwrap();
    let bytes = [1, 0, 0, 0, 2, 0, 0, 0, 3, 0, 0, 0, 0xee, 0xee, 0xee, 0xee, 4, 0, 0, 0];
    let v = cx.create_const_alloc(&mem(&bytes), outer).unwrap();
    let ids: Vec<u32> = (1..=4u32).map(|x| def_id(&cx.constant_u32(x).unwrap())).collect();
    let vec_const = cx.constant_composite(v3, ids[0..3].to_vec()).unwrap();
    assert_eq!(konst(&cx, def_id(&v)), format!("Composite({}, [{}, {}])", outer, def_id(&vec_const), ids[3]));
}

#[test]
fn create_const_alloc_runtime_array_is_marked() {
    let mut user = CodegenCx::new(false, false, 8, 8);
    let u8t = user.def_type(SpirvType::Integer(8, false), Some(1), 1).unwrap();
    let rt = user.def_type(SpirvType::RuntimeArray { element: u8t }, None, 1).unwrap();
    let v = user.create_const_alloc(&mem(&[5, 6, 7]), rt).unwrap();
    let ids: Vec<u32> = [5u8, 6, 7].iter().map(|x| def_id(&user.constant_u8(*x).unwrap())).collect();
    assert_eq!(konst(&user, def_id(&v)), format!("Composite({}, {:?})", rt, ids));
    assert_eq!(
        user.zombies().clone(),
        vec![Zombie { id: def_id(&v), reason: ZombieReason::RuntimeArrayValue }]
    );
}

#[test]
fn create_const_alloc_refuses_types_without_constants() {
    let mut cx = cx();
    let void = cx.def_type(SpirvType::Void, None, 1).unwrap();
    assert_eq!(cx.create_const_alloc(&mem(&[]), void), Err(ConstError::VoidConstAlloc));
    let op = cx.def_type(SpirvType::Opaque { name: "Thing".to_string() }, None, 1).unwrap();
    assert_eq!(cx.create_const_alloc(&mem(&[]), op), Err(ConstError::OpaqueConstAlloc(op)));
    let sampler = cx.def_type(SpirvType::Sampler, Some(4), 4).unwrap();
    assert_eq!(cx.create_const_alloc(&mem(&[0; 4]), sampler), Err(ConstError::SamplerConstAlloc));
    let odd = cx.def_type(SpirvType::Integer(24, false), Some(3), 1).unwrap();
    assert_eq!(cx.create_const_alloc(&mem(&[0; 3]), odd), Err(ConstError::InvalidIntegerSize(24)));
    let half = cx.def_type(SpirvType::Float(16), Some(2), 2).unwrap();
    assert_eq!(cx.create_const_alloc(&mem(&[0; 2]), half), Err(ConstError::InvalidFloatSize(16)));
}

#[test]
fn create_const_alloc_follows_pointers_into_memory() {
    let mut cx = cx();
    let u32t = cx.def_type(SpirvType::Integer(32, false), Some(4), 4).unwrap();
    let ptr = cx
        .def_type(SpirvType::Pointer { storage_class: STORAGE_CLASS_FUNCTION, pointee: u32t }, Some(8), 8)
        .unwrap();
    let target = cx.add_global_alloc(GlobalAlloc::Memory(mem(&[42, 0, 0, 0])));
    let outer = ConstAllocation {
        bytes: vec![0; 8],
        init_mask: vec![true; 8],
        relocations: vec![Relocation { offset: 0, alloc_id: target }],
    };
    let p = cx.create_const_alloc(&outer, ptr).unwrap();
    assert_eq!(p.ty, ptr);
    match p.kind {
        SpirvValueKind::ConstantPointer { initializer, global_var } => {
            assert_eq!(cx.const_to_opt_uint(SpirvValue { kind: SpirvValueKind::Def(initializer), ty: u32t }), Some(42));
            let g = cx.lookup_global(global_var).unwrap();
            assert_eq!(g.ty, ptr);
            assert_eq!(g.initializer, initializer);
        },
        _ => panic!("expected a constant pointer"),
    }
    assert!(cx.zombies().is_empty());
}

#[test]
fn pointer_of_other_storage_class_is_marked() {
    let mut cx = cx();
    let u32t = cx.def_type(SpirvType::Integer(32, false), Some(4), 4).unwrap();
    let ptr = cx
        .def_type(SpirvType::Pointer { storage_class: 6, pointee: u32t }, Some(8), 8)
        .unwrap();
    let target = cx.add_global_alloc(GlobalAlloc::Memory(mem(&[1, 0, 0, 0])));
    let outer = ConstAllocation {
        bytes: vec![0; 8],
        init_mask: vec![true; 8],
        relocations: vec![Relocation { offset: 0, alloc_id: target }],
    };
    let p = cx.create_const_alloc(&outer, ptr).unwrap();
    assert_eq!(cx.zombies().clone(), vec![Zombie { id: p.def_cx(), reason: ZombieReason::InvalidPointerSpace }]);
}

#[test]
fn pointers_to_functions_and_statics() {
    let mut cx = cx();
    let u32t = cx.def_type(SpirvType::Integer(32, false), Some(4), 4).unwrap();
    let ptr = cx
        .def_type(SpirvType::Pointer { storage_class: STORAGE_CLASS_FUNCTION, pointee: u32t }, Some(8), 8)
        .unwrap();
    let static_value = SpirvValue { kind: SpirvValueKind::Def(500), ty: ptr };
    let id = cx.add_global_alloc(GlobalAlloc::Static(static_value));
    let layout = cx.primitive_to_scalar(Primitive::Pointer);
    let v = cx.scalar_to_backend(Scalar::Ptr { alloc_id: id, offset: 0 }, &layout, ptr).unwrap();
    assert_eq!(v, static_value);
    assert_eq!(
        cx.scalar_to_backend(Scalar::Ptr { alloc_id: id, offset: 4 }, &layout, ptr),
        Err(ConstError::NonZeroPointerOffset)
    );
    let int_layout = cx.primitive_to_scalar(Primitive::Int(Integer::I64, false));
    assert_eq!(
        cx.scalar_to_backend(Scalar::Ptr { alloc_id: id, offset: 0 }, &int_layout, ptr),
        Err(ConstError::NonPointerScalarPtr)
    );
    let fn_value = SpirvValue { kind: SpirvValueKind::Def(501), ty: ptr };
    let fid = cx.add_global_alloc(GlobalAlloc::Function(fn_value));
    assert_eq!(
        cx.scalar_to_backend(Scalar::Ptr { alloc_id: fid, offset: 0 }, &layout, ptr),
        Ok(fn_value)
    );
}

#[test]
fn pointer_into_memory_at_non_pointer_type() {
    let mut cx = cx();
    let u64t = cx.def_type(SpirvType::Integer(64, false), Some(8), 8).unwrap();
    let target = cx.add_global_alloc(GlobalAlloc::Memory(mem(&[1])));
    let outer = ConstAllocation {
        bytes: vec![0; 8],
        init_mask: vec![true; 8],
        relocations: vec![Relocation { offset: 0, alloc_id: target }],
    };
    assert_eq!(cx.create_const_alloc(&outer, u64t), Err(ConstError::MemoryPointerTypeNotPointer(u64t)));
}

#[test]
fn scalar_to_backend_integers_and_pointers() {
    let mut cx = cx();
    let u16t = cx.def_type(SpirvType::Integer(16, false), Some(2), 2).unwrap();
    let layout = cx.primitive_to_scalar(Primitive::Int(Integer::I16, false));
    let v = cx.scalar_to_backend(Scalar::Int { data: 0xabcd, size: 2 }, &layout, u16t).unwrap();
    assert_eq!(cx.const_to_opt_uint(v), Some(0xabcd));
    let ft = cx.def_type(SpirvType::Float(32), Some(4), 4).unwrap();
    assert_eq!(
        cx.scalar_to_backend(Scalar::Int { data: 1, size: 2 }, &layout, ft),
        Err(ConstError::ScalarIntUnsupportedType(ft))
    );
    let ptr = cx
        .def_type(SpirvType::Pointer { storage_class: STORAGE_CLASS_FUNCTION, pointee: u16t }, Some(8), 8)
        .unwrap();
    let play = cx.primitive_to_scalar(Primitive::Pointer);
    let null = cx.scalar_to_backend(Scalar::Int { data: 0, size: 8 }, &play, ptr).unwrap();
    assert!(matches!(cx.lookup_const(def_id(&null)), Some(SpirvConst::Null(t)) if *t == ptr));
    let mut user = CodegenCx::new(false, false, 8, 8);
    let u16t = user.def_type(SpirvType::Integer(16, false), Some(2), 2).unwrap();
    let ptr = user
        .def_type(SpirvType::Pointer { storage_class: STORAGE_CLASS_FUNCTION, pointee: u16t }, Some(8), 8)
        .unwrap();
    let addr = user.scalar_to_backend(Scalar::Int { data: 0x1000, size: 8 }, &play, ptr).unwrap();
    assert!(matches!(user.lookup_const(def_id(&addr)), Some(SpirvConst::Undef(t)) if *t == ptr));
    assert_eq!(
        user.zombies().clone(),
        vec![Zombie { id: def_id(&addr), reason: ZombieReason::NonNullPointerAddress }]
    );
}

#[test]
fn from_const_alloc_points_to_the_constant() {
    let mut cx = cx();
    let u8t = cx.def_type(SpirvType::Integer(8, false), Some(1), 1).unwrap();
    let p = cx.from_const_alloc(u8t, &mem(&[200]), 0).unwrap();
    match p.kind {
        SpirvValueKind::ConstantPointer { initializer, global_var } => {
            assert!(matches!(cx.lookup_const(initializer), Some(SpirvConst::U32(_, 200))));
            assert_eq!(cx.lookup_global(global_var).unwrap().initializer, initializer);
        },
        _ => panic!("expected a constant pointer"),
    }
    assert!(matches!(
        cx.lookup_type(p.ty).unwrap().ty,
        SpirvType::Pointer { storage_class: STORAGE_CLASS_FUNCTION, pointee } if pointee == u8t
    ));
}

#[test]
fn nested_pointer_into_memory() {
    let mut cx = cx();
    let u8t = cx.def_type(SpirvType::Integer(8, false), Some(1), 1).unwrap();
    let inner_ptr = cx
        .def_type(SpirvType::Pointer { storage_class: STORAGE_CLASS_FUNCTION, pointee: u8t }, Some(8), 8)
        .unwrap();
    let outer_ptr = cx
        .def_type(SpirvType::Pointer { storage_class: STORAGE_CLASS_FUNCTION, pointee: inner_ptr }, Some(8), 8)
        .unwrap();
    let byte = cx.add_global_alloc(GlobalAlloc::Memory(mem(&[3])));
    let middle = cx.add_global_alloc(GlobalAlloc::Memory(ConstAllocation {
        bytes: vec![0; 8],
        init_mask: vec![true; 8],
        relocations: vec![Relocation { offset: 0, alloc_id: byte }],
    }));
    let outer = ConstAllocation {
        bytes: vec![0; 8],
        init_mask: vec![true; 8],
        relocations: vec![Relocation { offset: 0, alloc_id: middle }],
    };
    let p = cx.create_const_alloc(&outer, outer_ptr).unwrap();
    assert_eq!(p.ty, outer_ptr);
    match p.kind {
        SpirvValueKind::ConstantPointer { initializer, .. } => {
            let g = cx.lookup_global(initializer).unwrap();
            assert_eq!(g.ty, inner_ptr);
            assert!(matches!(cx.lookup_const(g.initializer), Some(SpirvConst::U32(_, 3))));
        },
        _ => panic!("expected a constant pointer"),
    }
}

#[test]
fn create_const_alloc_refuses_functions_and_images() {
    let mut cx = cx();
    let u32t = cx.def_type(SpirvType::Integer(32, false), Some(4), 4).unwrap();
    let f = cx
        .def_type(SpirvType::Function { return_type: u32t, arguments: vec![u32t] }, None, 1)
        .unwrap();
    assert_eq!(cx.create_const_alloc(&mem(&[]), f), Err(ConstError::FunctionConstAlloc));
    let float = cx.def_type(SpirvType::Float(32), Some(4), 4).unwrap();
    let image = cx
        .def_type(
            SpirvType::Image {
                sampled_type: float,
                dim: 1,
                depth: 0,
                arrayed: 0,
                multisampled: 0,
                sampled: 1,
                image_format: 0,
            },
            Some(8),
            8,
        )
        .unwrap();
    assert_eq!(cx.create_const_alloc(&mem(&[0; 8]), image), Err(ConstError::ImageConstAlloc));
    let sampled = cx.def_type(SpirvType::SampledImage { image_type: image }, Some(8), 8).unwrap();
    assert_eq!(
        cx.create_const_alloc(&mem(&[0; 8]), sampled),
        Err(ConstError::SampledImageConstAlloc)
    );
    assert!(cx.zombies().is_empty());
}

#[test]
fn pointer_kind_integer_scalar_needs_no_known_type() {
    let mut cx = cx();
    let play = cx.primitive_to_scalar(Primitive::Pointer);
    let unknown = 500;
    assert!(cx.lookup_type(unknown).is_none());
    let null = cx.scalar_to_backend(Scalar::Int { data: 0, size: 8 }, &play, unknown).unwrap();
    assert_eq!(null.ty, unknown);
    assert!(matches!(cx.lookup_const(def_id(&null)), Some(SpirvConst::Null(t)) if *t == unknown));
    let addr = cx.scalar_to_backend(Scalar::Int { data: 8, size: 8 }, &play, unknown).unwrap();
    assert!(matches!(cx.lookup_const(def_id(&addr)), Some(SpirvConst::Undef(t)) if *t == unknown));
    assert_eq!(
        cx.zombies().clone(),
        vec![Zombie { id: def_id(&addr), reason: ZombieReason::NonNullPointerAddress }]
    );
}
