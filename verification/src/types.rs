//! The data the constant builder works on: SPIR-V types and constants as the
//! module's tables hold them, the values handed back to callers, and the
//! errors and diagnostics that constant construction can produce.
use vstd::prelude::*;

verus! {

/// A SPIR-V result id.
pub type Word = rspirv::spirv::Word;

/// The SPIR-V storage class `Function`, used for the variables that back
/// constant pointers.
pub const STORAGE_CLASS_FUNCTION: u32 = 7;

/// A SPIR-V type as the type table holds it.
///
/// Component types are referred to by id. Layout figures (size, alignment,
/// field offsets) are in bytes.
#[derive(Debug)]
#[allow(inconsistent_fields)]
pub enum SpirvType {
    Void,
    Bool,
    Integer(u32, bool),
    Float(u32),
    Adt {
        def_id: Option<u64>,
        size: Option<u64>,
        align: u64,
        field_types: Vec<Word>,
        field_offsets: Vec<u64>,
        is_block: bool,
    },
    Vector { element: Word, count: u32 },
    /// `count` is the id of an integer constant that holds the length.
    Array { element: Word, count: Word },
    RuntimeArray { element: Word },
    Pointer { storage_class: u32, pointee: Word },
    Function { return_type: Word, arguments: Vec<Word> },
    Image {
        sampled_type: Word,
        dim: u32,
        depth: u32,
        arrayed: u32,
        multisampled: u32,
        sampled: u32,
        image_format: u32,
    },
    Sampler,
    SampledImage { image_type: Word },
    Opaque { name: String },
}

/// The mathematical value of a [`SpirvType`]: sequences in place of vectors.
#[allow(inconsistent_fields)]
pub enum TypeModel {
    Void,
    Bool,
    Integer(u32, bool),
    Float(u32),
    Adt {
        def_id: Option<u64>,
        size: Option<u64>,
        align: u64,
        field_types: Seq<Word>,
        field_offsets: Seq<u64>,
        is_block: bool,
    },
    Vector { element: Word, count: u32 },
    Array { element: Word, count: Word },
    RuntimeArray { element: Word },
    Pointer { storage_class: u32, pointee: Word },
    Function { return_type: Word, arguments: Seq<Word> },
    Image {
        sampled_type: Word,
        dim: u32,
        depth: u32,
        arrayed: u32,
        multisampled: u32,
        sampled: u32,
        image_format: u32,
    },
    Sampler,
    SampledImage { image_type: Word },
    Opaque { name: Seq<char> },
}

impl View for SpirvType {
    type V = TypeModel;

    open spec fn view(&self) -> TypeModel {
        match self {
            SpirvType::Void => TypeModel::Void,
            SpirvType::Bool => TypeModel::Bool,
            SpirvType::Integer(w, s) => TypeModel::Integer(*w, *s),
            SpirvType::Float(w) => TypeModel::Float(*w),
            SpirvType::Adt { def_id, size, align, field_types, field_offsets, is_block } =>
                TypeModel::Adt {
                    def_id: *def_id,
                    size: *size,
                    align: *align,
                    field_types: field_types@,
                    field_offsets: field_offsets@,
                    is_block: *is_block,
                },
            SpirvType::Vector { element, count } => TypeModel::Vector {
                element: *element,
                count: *count,
            },
            SpirvType::Array { element, count } => TypeModel::Array {
                element: *element,
                count: *count,
            },
            SpirvType::RuntimeArray { element } => TypeModel::RuntimeArray { element: *element },
            SpirvType::Pointer { storage_class, pointee } => TypeModel::Pointer {
                storage_class: *storage_class,
                pointee: *pointee,
            },
            SpirvType::Function { return_type, arguments } => TypeModel::Function {
                return_type: *return_type,
                arguments: arguments@,
            },
            SpirvType::Image {
                sampled_type,
                dim,
                depth,
                arrayed,
                multisampled,
                sampled,
                image_format,
            } => TypeModel::Image {
                sampled_type: *sampled_type,
                dim: *dim,
                depth: *depth,
                arrayed: *arrayed,
                multisampled: *multisampled,
                sampled: *sampled,
                image_format: *image_format,
            },
            SpirvType::Sampler => TypeModel::Sampler,
            SpirvType::SampledImage { image_type } => TypeModel::SampledImage {
                image_type: *image_type,
            },
            SpirvType::Opaque { name } => TypeModel::Opaque { name: name@ },
        }
    }
}

/// Whether two id sequences are equal, element by element.
fn words_equal(a: &Vec<Word>, b: &Vec<Word>) -> (r: bool)
    ensures
        r == (a@ == b@),
{
    if a.len() != b.len() {
        return false;
    }
    let mut i: usize = 0;
    while i < a.len()
        invariant
            a.len() == b.len(),
            i <= a.len(),
            forall|j: int| 0 <= j < i ==> a@[j] == b@[j],
        decreases a.len() - i,
    {
        if a[i] != b[i] {
            return false;
        }
        i = i + 1;
    }
    assert(a@ =~= b@);
    true
}

/// Whether two offset sequences are equal, element by element.
fn offsets_equal(a: &Vec<u64>, b: &Vec<u64>) -> (r: bool)
    ensures
        r == (a@ == b@),
{
    if a.len() != b.len() {
        return false;
    }
    let mut i: usize = 0;
    while i < a.len()
        invariant
            a.len() == b.len(),
            i <= a.len(),
            forall|j: int| 0 <= j < i ==> a@[j] == b@[j],
        decreases a.len() - i,
    {
        if a[i] != b[i] {
            return false;
        }
        i = i + 1;
    }
    assert(a@ =~= b@);
    true
}

pub(crate) fn copy_words(a: &Vec<Word>) -> (r: Vec<Word>)
    ensures
        r@ == a@,
{
    let mut r: Vec<Word> = Vec::new();
    let mut i: usize = 0;
    while i < a.len()
        invariant
            i <= a.len(),
            r@ == a@.subrange(0, i as int),
        decreases a.len() - i,
    {
        r.push(a[i]);
        i = i + 1;
    }
    assert(a@.subrange(0, a.len() as int) =~= a@);
    r
}

pub(crate) fn copy_offsets(a: &Vec<u64>) -> (r: Vec<u64>)
    ensures
        r@ == a@,
{
    let mut r: Vec<u64> = Vec::new();
    let mut i: usize = 0;
    while i < a.len()
        invariant
            i <= a.len(),
            r@ == a@.subrange(0, i as int),
        decreases a.len() - i,
    {
        r.push(a[i]);
        i = i + 1;
    }
    assert(a@.subrange(0, a.len() as int) =~= a@);
    r
}

impl SpirvType {
    /// A copy of this type.
    pub fn duplicate(&self) -> (r: SpirvType)
        ensures
            r@ == self@,
    {
        match self {
            SpirvType::Void => SpirvType::Void,
            SpirvType::Bool => SpirvType::Bool,
            SpirvType::Integer(w, s) => SpirvType::Integer(*w, *s),
            SpirvType::Float(w) => SpirvType::Float(*w),
            SpirvType::Adt { def_id, size, align, field_types, field_offsets, is_block } =>
                SpirvType::Adt {
                    def_id: *def_id,
                    size: *size,
                    align: *align,
                    field_types: copy_words(field_types),
                    field_offsets: copy_offsets(field_offsets),
                    is_block: *is_block,
                },
            SpirvType::Vector { element, count } => SpirvType::Vector {
                element: *element,
                count: *count,
            },
            SpirvType::Array { element, count } => SpirvType::Array {
                element: *element,
                count: *count,
            },
            SpirvType::RuntimeArray { element } => SpirvType::RuntimeArray { element: *element },
            SpirvType::Pointer { storage_class, pointee } => SpirvType::Pointer {
                storage_class: *storage_class,
                pointee: *pointee,
            },
            SpirvType::Function { return_type, arguments } => SpirvType::Function {
                return_type: *return_type,
                arguments: copy_words(arguments),
            },
            SpirvType::Image {
                sampled_type,
                dim,
                depth,
                arrayed,
                multisampled,
                sampled,
                image_format,
            } => SpirvType::Image {
                sampled_type: *sampled_type,
                dim: *dim,
                depth: *depth,
                arrayed: *arrayed,
                multisampled: *multisampled,
                sampled: *sampled,
                image_format: *image_format,
            },
            SpirvType::Sampler => SpirvType::Sampler,
            SpirvType::SampledImage { image_type } => SpirvType::SampledImage {
                image_type: *image_type,
            },
            SpirvType::Opaque { name } => SpirvType::Opaque { name: name.clone() },
        }
    }

    /// Whether two types are the same type.
    pub fn same_as(&self, other: &SpirvType) -> (r: bool)
        ensures
            r == (self@ == other@),
    {
        match (self, other) {
            (SpirvType::Void, SpirvType::Void) => true,
            (SpirvType::Bool, SpirvType::Bool) => true,
            (SpirvType::Integer(w1, s1), SpirvType::Integer(w2, s2)) => *w1 == *w2 && *s1 == *s2,
            (SpirvType::Float(w1), SpirvType::Float(w2)) => *w1 == *w2,
            (
                SpirvType::Adt {
                    def_id: d1,
                    size: z1,
                    align: a1,
                    field_types: t1,
                    field_offsets: o1,
                    is_block: b1,
                },
                SpirvType::Adt {
                    def_id: d2,
                    size: z2,
                    align: a2,
                    field_types: t2,
                    field_offsets: o2,
                    is_block: b2,
                },
            ) => {
                let same_def = match (d1, d2) {
                    (Some(x), Some(y)) => *x == *y,
                    (None, None) => true,
                    _ => false,
                };
                let same_size = match (z1, z2) {
                    (Some(x), Some(y)) => *x == *y,
                    (None, None) => true,
                    _ => false,
                };
                same_def && same_size && *a1 == *a2 && *b1 == *b2 && words_equal(t1, t2)
                    && offsets_equal(o1, o2)
            },
            (
                SpirvType::Vector { element: e1, count: c1 },
                SpirvType::Vector { element: e2, count: c2 },
            ) => *e1 == *e2 && *c1 == *c2,
            (
                SpirvType::Array { element: e1, count: c1 },
                SpirvType::Array { element: e2, count: c2 },
            ) => *e1 == *e2 && *c1 == *c2,
            (SpirvType::RuntimeArray { element: e1 }, SpirvType::RuntimeArray { element: e2 }) =>
                *e1 == *e2,
            (
                SpirvType::Pointer { storage_class: s1, pointee: p1 },
                SpirvType::Pointer { storage_class: s2, pointee: p2 },
            ) => *s1 == *s2 && *p1 == *p2,
            (
                SpirvType::Function { return_type: r1, arguments: a1 },
                SpirvType::Function { return_type: r2, arguments: a2 },
            ) => *r1 == *r2 && words_equal(a1, a2),
            (
                SpirvType::Image {
                    sampled_type: t1,
                    dim: d1,
                    depth: p1,
                    arrayed: a1,
                    multisampled: m1,
                    sampled: s1,
                    image_format: f1,
                },
                SpirvType::Image {
                    sampled_type: t2,
                    dim: d2,
                    depth: p2,
                    arrayed: a2,
                    multisampled: m2,
                    sampled: s2,
                    image_format: f2,
                },
            ) => *t1 == *t2 && *d1 == *d2 && *p1 == *p2 && *a1 == *a2 && *m1 == *m2 && *s1 == *s2
                && *f1 == *f2,
            (SpirvType::Sampler, SpirvType::Sampler) => true,
            (
                SpirvType::SampledImage { image_type: i1 },
                SpirvType::SampledImage { image_type: i2 },
            ) => *i1 == *i2,
            (SpirvType::Opaque { name: n1 }, SpirvType::Opaque { name: n2 }) => *n1 == *n2,
            _ => false,
        }
    }
}

/// A SPIR-V constant as the constant table holds it. Float constants hold
/// the bit pattern of the value.
#[derive(Debug)]
pub enum SpirvConst {
    U32(Word, u32),
    U64(Word, u64),
    F32(Word, u32),
    F64(Word, u64),
    Bool(Word, bool),
    Null(Word),
    Undef(Word),
    Composite(Word, Vec<Word>),
}

/// The mathematical value of a [`SpirvConst`].
pub enum ConstModel {
    U32(Word, u32),
    U64(Word, u64),
    F32(Word, u32),
    F64(Word, u64),
    Bool(Word, bool),
    Null(Word),
    Undef(Word),
    Composite(Word, Seq<Word>),
}

impl View for SpirvConst {
    type V = ConstModel;

    open spec fn view(&self) -> ConstModel {
        match self {
            SpirvConst::U32(t, v) => ConstModel::U32(*t, *v),
            SpirvConst::U64(t, v) => ConstModel::U64(*t, *v),
            SpirvConst::F32(t, v) => ConstModel::F32(*t, *v),
            SpirvConst::F64(t, v) => ConstModel::F64(*t, *v),
            SpirvConst::Bool(t, v) => ConstModel::Bool(*t, *v),
            SpirvConst::Null(t) => ConstModel::Null(*t),
            SpirvConst::Undef(t) => ConstModel::Undef(*t),
            SpirvConst::Composite(t, e) => ConstModel::Composite(*t, e@),
        }
    }
}

impl ConstModel {
    /// The type of the constant.
    pub open spec fn ty(self) -> Word {
        match self {
            ConstModel::U32(t, _) => t,
            ConstModel::U64(t, _) => t,
            ConstModel::F32(t, _) => t,
            ConstModel::F64(t, _) => t,
            ConstModel::Bool(t, _) => t,
            ConstModel::Null(t) => t,
            ConstModel::Undef(t) => t,
            ConstModel::Composite(t, _) => t,
        }
    }
}

impl SpirvConst {
    /// The type of the constant.
    pub fn ty(&self) -> (r: Word)
        ensures
            r == self@.ty(),
    {
        match self {
            SpirvConst::U32(t, _) => *t,
            SpirvConst::U64(t, _) => *t,
            SpirvConst::F32(t, _) => *t,
            SpirvConst::F64(t, _) => *t,
            SpirvConst::Bool(t, _) => *t,
            SpirvConst::Null(t) => *t,
            SpirvConst::Undef(t) => *t,
            SpirvConst::Composite(t, _) => *t,
        }
    }

    /// A copy of this constant.
    pub fn duplicate(&self) -> (r: SpirvConst)
        ensures
            r@ == self@,
    {
        match self {
            SpirvConst::U32(t, v) => SpirvConst::U32(*t, *v),
            SpirvConst::U64(t, v) => SpirvConst::U64(*t, *v),
            SpirvConst::F32(t, v) => SpirvConst::F32(*t, *v),
            SpirvConst::F64(t, v) => SpirvConst::F64(*t, *v),
            SpirvConst::Bool(t, v) => SpirvConst::Bool(*t, *v),
            SpirvConst::Null(t) => SpirvConst::Null(*t),
            SpirvConst::Undef(t) => SpirvConst::Undef(*t),
            SpirvConst::Composite(t, e) => SpirvConst::Composite(*t, copy_words(e)),
        }
    }

    /// Whether two constants are the same constant.
    pub fn same_as(&self, other: &SpirvConst) -> (r: bool)
        ensures
            r == (self@ == other@),
    {
        match (self, other) {
            (SpirvConst::U32(t1, v1), SpirvConst::U32(t2, v2)) => *t1 == *t2 && *v1 == *v2,
            (SpirvConst::U64(t1, v1), SpirvConst::U64(t2, v2)) => *t1 == *t2 && *v1 == *v2,
            (SpirvConst::F32(t1, v1), SpirvConst::F32(t2, v2)) => *t1 == *t2 && *v1 == *v2,
            (SpirvConst::F64(t1, v1), SpirvConst::F64(t2, v2)) => *t1 == *t2 && *v1 == *v2,
            (SpirvConst::Bool(t1, v1), SpirvConst::Bool(t2, v2)) => *t1 == *t2 && *v1 == *v2,
            (SpirvConst::Null(t1), SpirvConst::Null(t2)) => *t1 == *t2,
            (SpirvConst::Undef(t1), SpirvConst::Undef(t2)) => *t1 == *t2,
            (SpirvConst::Composite(t1, e1), SpirvConst::Composite(t2, e2)) => *t1 == *t2
                && words_equal(e1, e2),
            _ => false,
        }
    }
}

/// How a value is held: a plain result id, or a pointer to a variable that
/// holds a constant.
#[derive(Clone, Copy, Debug, PartialEq, Eq, Structural)]
pub enum SpirvValueKind {
    Def(Word),
    ConstantPointer { initializer: Word, global_var: Word },
}

/// A value together with the id of its type.
#[derive(Clone, Copy, Debug, PartialEq, Eq, Structural)]
pub struct SpirvValue {
    pub kind: SpirvValueKind,
    pub ty: Word,
}

impl SpirvValue {
    /// The id that stands for this value in instructions.
    pub open spec fn spec_def(self) -> Word {
        match self.kind {
            SpirvValueKind::Def(id) => id,
            SpirvValueKind::ConstantPointer { global_var, .. } => global_var,
        }
    }

    /// The id that stands for this value in instructions.
    #[verifier::when_used_as_spec(spec_def)]
    pub fn def_cx(self) -> (r: Word)
        ensures
            r == self.spec_def(),
    {
        match self.kind {
            SpirvValueKind::Def(id) => id,
            SpirvValueKind::ConstantPointer { global_var, .. } => global_var,
        }
    }
}

/// The plain value with id `id`, of type `ty`.
pub fn with_type(id: Word, ty: Word) -> (r: SpirvValue)
    ensures
        r == (SpirvValue { kind: SpirvValueKind::Def(id), ty }),
{
    SpirvValue { kind: SpirvValueKind::Def(id), ty }
}

/// Why a value was marked as one that must not reach the final module.
#[derive(Clone, Copy, Debug, PartialEq, Eq, Structural)]
pub enum ZombieReason {
    U128Constant,
    NonNullPointerAddress,
    ConstPtrcast,
    InvalidPointerSpace,
    RuntimeArrayValue,
}

/// An error that stops constant construction.
#[derive(Clone, Copy, Debug, PartialEq, Eq, Structural)]
pub enum ConstError {
    /// An integer constant of type bool that is neither 0 nor 1.
    InvalidBoolValue(u128),
    /// `constant_int` on a type that is neither an integer nor bool.
    ConstantIntInvalidType(Word),
    /// `constant_float` on a type that is not a 32 or 64 bit float.
    ConstantFloatInvalidType(Word),
    /// An integer scalar whose target type is neither an integer nor bool.
    ScalarIntUnsupportedType(Word),
    /// A pointer into constant memory whose target type is not a pointer.
    MemoryPointerTypeNotPointer(Word),
    /// A pointer scalar with a non-zero offset.
    NonZeroPointerOffset,
    /// A pointer scalar whose layout is not a pointer.
    NonPointerScalarPtr,
    /// Constant memory read at type void.
    VoidConstAlloc,
    /// An integer type whose width is not 8, 16, 32, 64 or 128.
    InvalidIntegerSize(u32),
    /// A float type whose width is not 32 or 64.
    InvalidFloatSize(u32),
    /// Constant memory read at an opaque type (its id).
    OpaqueConstAlloc(Word),
    /// Constant memory read at a function type.
    FunctionConstAlloc,
    /// Constant memory read at an image type.
    ImageConstAlloc,
    /// Constant memory read at a sampler type.
    SamplerConstAlloc,
    /// Constant memory read at a sampled image type.
    SampledImageConstAlloc,
    /// No fresh result id is left.
    IdsExhausted,
}

} // verus!
