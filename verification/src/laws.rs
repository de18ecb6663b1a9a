//! Properties of constant construction that span several calls or hold of
//! every input.
use vstd::prelude::*;
use crate::constant::{const_outcome, int_plan, typed_const_outcome, IntPlan};
use crate::cx::{
    const_u64_value, lemma_after_def_const_has, lemma_def_const_wf,
    lemma_def_type_wf, components_below, layout_fits, refs_below, CxModel,
};
use crate::cx::TypeInfo;
use crate::layout::{fields_aligned, lemma_align_up, lemma_prefix_exact, lemma_prefix_layout, struct_layout, struct_layout_ok, struct_layout_prefix};
use crate::decode::{decode_alloc, decode_elems, decode_fields, decode_int_scalar, decode_scalar, decode_value, DecodedScalar, denotes, law_decode_stable, lemma_denotes_extends, lemma_denotes_unique, pointer_free, ConstNode, Decoded};
use crate::types::SpirvValue;
use crate::layout::align_up;
use crate::memory::{le_value, overlap_start, range_init, reloc_at, reloc_in, AllocView, Relocation, lemma_le_value_bound, pow256};
use crate::types::{ConstError, ConstModel, TypeModel, Word};
use crate::abi::{Integer, Primitive};
use crate::memory::Scalar;

verus! {

/// Constants are interned: defining a constant that was just defined
/// changes nothing and gives the same id.
pub proof fn law_def_constant_idempotent(m: CxModel, c: ConstModel)
    requires
        m.wf(),
        m.const_ids.contains_key(c) || m.next_id < u32::MAX,
    ensures
        m.after_def_const(c).after_def_const(c) == m.after_def_const(c),
        m.after_def_const(c).const_id_after_def(c) == m.const_id_after_def(c),
{
    lemma_def_const_wf(m, c);
}

/// Types are interned: defining a type that was just defined changes
/// nothing and gives the same id, whatever layout is given the second time.
pub proof fn law_def_type_idempotent(
    m: CxModel,
    t: TypeModel,
    size: Option<u64>,
    align: u64,
    size2: Option<u64>,
    align2: u64,
)
    requires
        m.wf(),
        align >= 1,
        layout_fits(t, size, align, m.pointer_size, m.pointer_align),
        components_below(t, m.next_id),
        refs_below(t, m.next_id),
        m.type_ids.contains_key(t) || m.next_id < u32::MAX,
    ensures
        m.after_def_type(t, size, align).after_def_type(t, size2, align2) == m.after_def_type(
            t,
            size,
            align,
        ),
        m.after_def_type(t, size, align).id_after_def(t) == m.id_after_def(t),
{
    lemma_def_type_wf(m, t, size, align);
}

/// A constant built at a fixed type reads back: the returned id holds the
/// requested constant at the returned type, that type id holds the requested
/// type, and an integer constant gives back its value widened to 64 bits.
pub proof fn law_typed_constant_reads_back(
    old: CxModel,
    new: CxModel,
    v: SpirvValue,
    t: TypeModel,
    size: Option<u64>,
    align: u64,
    c: spec_fn(Word) -> ConstModel,
)
    requires
        old.wf(),
        align >= 1,
        layout_fits(t, size, align, old.pointer_size, old.pointer_align),
        components_below(t, old.next_id),
        refs_below(t, old.next_id),
        typed_const_outcome(old, new, Ok(v), t, size, align, c),
    ensures
        new.types.contains_key(v.ty),
        new.types[v.ty].ty == t,
        new.consts.contains_key(v.spec_def()),
        new.consts[v.spec_def()] == c(v.ty),
        const_u64_value(new.consts.get(v.spec_def())) == const_u64_value(Some(c(v.ty))),
{
    lemma_def_type_wf(old, t, size, align);
    let mid = old.after_def_type(t, size, align);
    let cm = c(old.id_after_def(t));
    lemma_after_def_const_has(mid, cm);
}

/// A constant built at a given type reads back: the returned id holds the
/// requested constant.
pub proof fn law_constant_reads_back(old: CxModel, new: CxModel, v: SpirvValue, c: ConstModel)
    requires
        old.wf(),
        const_outcome(old, new, Ok(v), c),
    ensures
        v.ty == c.ty(),
        new.consts.contains_key(v.spec_def()),
        new.consts[v.spec_def()] == c,
{
    lemma_after_def_const_has(old, c);
}

/// Distinct constants get distinct ids, and equal constants the same id.
pub proof fn law_constant_ids_injective(m: CxModel, id1: Word, id2: Word)
    requires
        m.wf(),
        m.consts.contains_key(id1),
        m.consts.contains_key(id2),
    ensures
        (id1 == id2) == (m.consts[id1] == m.consts[id2]),
{
}

/// An unsigned integer constant reads back as its value reduced to the
/// width of its type.
pub proof fn law_unsigned_int_readback(ty: Word, val: u64, width: u32)
    requires
        width == 8 || width == 16 || width == 32 || width == 64,
    ensures
        int_plan(TypeModel::Integer(width, false), ty, val) matches IntPlan::Const(c)
            && const_u64_value(Some(c)) == Some(
            (if width == 64 {
                val
            } else if width == 32 {
                val & 0xffff_ffff
            } else if width == 16 {
                val & 0xffff
            } else {
                val & 0xff
            }),
        ),
{
    assert(val as u8 as u32 as u64 == val & 0xff) by (bit_vector);
    assert(val as u16 as u32 as u64 == val & 0xffff) by (bit_vector);
    assert(val as u32 as u64 == val & 0xffff_ffff) by (bit_vector);
}

/// A signed integer constant of fewer than 32 bits holds its value reduced
/// to the type's width and sign-extended to 32 bits; one of 32 or 64 bits
/// holds its value reduced to the width.
pub proof fn law_signed_int_stored(ty: Word, val: u64, width: u32)
    requires
        width == 8 || width == 16 || width == 32 || width == 64,
    ensures
        int_plan(TypeModel::Integer(width, true), ty, val) matches IntPlan::Const(c)
            && const_u64_value(Some(c)) == Some(
            (if width == 64 {
                val
            } else if width == 32 {
                val & 0xffff_ffff
            } else if width == 16 {
                if val & 0x8000 == 0 {
                    val & 0xffff
                } else {
                    (val & 0xffff) | 0xffff_0000
                }
            } else {
                if val & 0x80 == 0 {
                    val & 0xff
                } else {
                    (val & 0xff) | 0xffff_ff00
                }
            }),
        ),
{
    assert(val as i64 as i8 as u32 as u64 == (if val & 0x80 == 0 {
        val & 0xff
    } else {
        (val & 0xff) | 0xffff_ff00
    })) by (bit_vector);
    assert(val as i64 as i16 as u32 as u64 == (if val & 0x8000 == 0 {
        val & 0xffff
    } else {
        (val & 0xffff) | 0xffff_0000
    })) by (bit_vector);
    assert(val as i64 as i32 as u32 as u64 == val & 0xffff_ffff) by (bit_vector);
}

/// The layout that `const_struct` gives a struct: each field starts at a
/// multiple of its alignment and not before the end of the previous field;
/// the struct's alignment is at least each field's; where the struct is
/// sized (its last field is), its size is a multiple of its alignment and
/// covers the last field.
pub proof fn law_struct_layout(types: Map<Word, TypeInfo>, fields: Seq<Word>)
    requires
        fields_aligned(types, fields),
        struct_layout_ok(types, fields),
    ensures
        ({
            let (offs, size, align) = struct_layout(types, fields);
            let n = fields.len() as int;
            &&& offs.len() == n
            &&& align >= 1
            &&& forall|j: int| 0 <= j < n ==> (#[trigger] offs[j] as int) % (types[fields[j]].align as int)
                == 0
            &&& forall|j: int|
                0 <= j && j + 1 < n ==> #[trigger] offs[j] + types[fields[j]].size.unwrap() <= offs[j
                    + 1]
            &&& forall|j: int| 0 <= j < n ==> types[#[trigger] fields[j]].align <= align
            &&& (size is None <==> (n > 0 && types[fields[n - 1]].size is None))
            &&& (size is Some ==> (size.unwrap() as int) % (align as int) == 0)
            &&& (size is Some && n > 0 ==> offs[n - 1] + types[fields[n - 1]].size.unwrap()
                <= size.unwrap())
        }),
{
    let n = fields.len();
    lemma_prefix_layout(types, fields, n);
    let (offs, end, ma) = struct_layout_prefix(types, fields, n);
    if end is Some {
        lemma_align_up(end.unwrap(), ma as int);
    }
}

/// The layout that `const_struct` gives is exactly the packed-in-order one:
/// the first field at 0, each next field at the end of the previous one
/// rounded up to its own alignment, the struct aligned to the largest field
/// alignment (1 without fields), and its size the end of the last field
/// rounded up to that alignment (0 without fields, none after an unsized
/// last field).
pub proof fn law_struct_layout_exact(types: Map<Word, TypeInfo>, fields: Seq<Word>)
    requires
        fields_aligned(types, fields),
        struct_layout_ok(types, fields),
    ensures
        ({
            let (offs, size, align) = struct_layout(types, fields);
            let n = fields.len() as int;
            &&& n > 0 ==> offs[0] == 0
            &&& forall|j: int|
                0 <= j && j + 1 < n ==> #[trigger] offs[j + 1] as int == align_up(
                    offs[j] + types[fields[j]].size.unwrap(),
                    types[fields[j + 1]].align as int,
                )
            &&& forall|j: int| 0 <= j < n ==> types[#[trigger] fields[j]].align <= align
            &&& align == 1 || exists|j: int| 0 <= j < n && align == types[#[trigger] fields[j]].align
            &&& n == 0 ==> size == Some(0u64)
            &&& n > 0 && types[fields[n - 1]].size is Some ==> size == Some(
                align_up(offs[n - 1] + types[fields[n - 1]].size.unwrap(), align as int) as u64,
            )
            &&& n > 0 && types[fields[n - 1]].size is None ==> size is None
        }),
{
    let n = fields.len();
    lemma_prefix_layout(types, fields, n);
    lemma_prefix_exact(types, fields, n);
}

/// Only integer constants read back as integers: a 32-bit constant gives
/// its value zero-extended, a 64-bit constant its value, and every other
/// constant (float, bool, null, undefined, composite) nothing.
pub proof fn law_integer_readback_only(c: ConstModel)
    ensures
        const_u64_value(Some(c)) is Some <==> (c is U32 || c is U64),
        c matches ConstModel::U32(_, x) ==> const_u64_value(Some(c)) == Some(x as u64),
        c matches ConstModel::U64(_, x) ==> const_u64_value(Some(c)) == Some(x),
        const_u64_value(None) is None,
{
}

/// A bool scalar is the bool its bits encode: 0 is `false`, 1 is `true`,
/// and any other value is refused.
pub proof fn law_bool_scalar(m: CxModel, data: u128, ty: Word)
    requires
        m.types.contains_key(ty),
        m.types[ty].ty == TypeModel::Bool,
    ensures
        data <= 1 ==> decode_int_scalar(m, data, 1, Primitive::Int(Integer::I8, false), ty)
            == DecodedScalar::Done(ConstNode::Leaf(ConstModel::Bool(ty, data == 1))),
        data > 1 ==> decode_int_scalar(m, data, 1, Primitive::Int(Integer::I8, false), ty)
            == DecodedScalar::Fatal(ConstError::InvalidBoolValue(data)),
{
}

/// A bool byte of constant memory (initialized, holding no pointer) reads
/// as the bool it encodes, and the reading moves on by one byte.
pub proof fn law_read_bool(m: CxModel, rank: nat, a: AllocView, off: u64, ty: Word)
    requires
        m.wf(),
        m.types.contains_key(ty),
        m.types[ty] == (TypeInfo { ty: TypeModel::Bool, size: Some(1u64), align: 1u64 }),
        off + 1 <= a.bytes.len(),
        a.init_mask[off as int],
        a.bytes[off as int] <= 1,
        !reloc_in(a.relocations, overlap_start(off as int, m.pointer_size as int), off + 1),
    ensures
        decode_value(m, rank, a, off as int, ty) == Decoded::Done(
            ConstNode::Leaf(ConstModel::Bool(ty, a.bytes[off as int] == 1)),
            off + 1,
        ),
{
    crate::layout::lemma_align_up(off as int, 1);
    let bytes = a.bytes.subrange(off as int, off + 1);
    assert(bytes[0] == a.bytes[off as int]);
    assert(le_value(bytes.drop_first()) == 0);
    assert(le_value(bytes) == a.bytes[off as int]);
    assert(range_init(a, off as int, 1));
    assert(!reloc_in(a.relocations, overlap_start(off as int, m.pointer_size as int), off as int)) by {
        if reloc_in(a.relocations, overlap_start(off as int, m.pointer_size as int), off as int) {
            let i = choose|i: int| 0 <= i < a.relocations.len() && overlap_start(off as int, m.pointer_size as int) <= #[trigger] a.relocations[i].offset < off;
        }
    }
    assert(!reloc_in(a.relocations, overlap_start(off + 1, m.pointer_size as int), off + 1)) by {
        if reloc_in(a.relocations, overlap_start(off + 1, m.pointer_size as int), off + 1) {
            let i = choose|i: int| 0 <= i < a.relocations.len() && overlap_start(off + 1, m.pointer_size as int) <= #[trigger] a.relocations[i].offset < off + 1;
        }
    }
}

/// A pointer into a global allocation at a non-zero offset never becomes a
/// constant. Where it points at a function or a static, or into constant
/// memory that reads as a constant at the pointee type, it is refused with
/// `NonZeroPointerOffset`.
pub proof fn law_pointer_offset_refused(
    m: CxModel,
    rank: nat,
    alloc_id: u64,
    offset: u64,
    prim: Primitive,
    ty: Word,
)
    requires
        offset != 0,
    ensures
        !(decode_scalar(m, rank, Scalar::Ptr { alloc_id, offset }, prim, ty) is Done),
        alloc_id < m.allocs.len() && alloc_id < rank && !(m.allocs[alloc_id as int] is Memory)
            ==> decode_scalar(m, rank, Scalar::Ptr { alloc_id, offset }, prim, ty)
            == DecodedScalar::Fatal(ConstError::NonZeroPointerOffset),
        alloc_id < m.allocs.len() && alloc_id < rank && m.allocs[alloc_id as int] is Memory
            && m.types.contains_key(ty) && m.types[ty].ty is Pointer && decode_alloc(
            m,
            alloc_id as nat,
            m.allocs[alloc_id as int]->Memory_0@,
            m.types[ty].ty->Pointer_pointee,
        ) is Done ==> decode_scalar(m, rank, Scalar::Ptr { alloc_id, offset }, prim, ty)
            == DecodedScalar::Fatal(ConstError::NonZeroPointerOffset),
{
}

/// Each field that reading a struct's first `k` fields gives is the value
/// read at the struct's start plus the field's offset.
proof fn lemma_fields_at_offsets(
    m: CxModel,
    rank: nat,
    a: AllocView,
    base: int,
    parent: Word,
    fts: Seq<Word>,
    fos: Seq<u64>,
    k: nat,
)
    requires
        k <= fts.len(),
        k <= fos.len(),
        decode_fields(m, rank, a, base, parent, fts, fos, k) is Done,
    ensures
        ({
            let kids = decode_fields(m, rank, a, base, parent, fts, fos, k)->Done_0;
            &&& kids.len() == k
            &&& forall|i: int|
                0 <= i < k ==> decode_value(m, rank, a, base + fos[i], #[trigger] fts[i]) is Done
                    && kids[i] == decode_value(m, rank, a, base + fos[i], fts[i])->Done_0
        }),
    decreases k,
{
    if k > 0 {
        lemma_fields_at_offsets(m, rank, a, base, parent, fts, fos, (k - 1) as nat);
        let kids = decode_fields(m, rank, a, base, parent, fts, fos, k)->Done_0;
        let k1 = decode_fields(m, rank, a, base, parent, fts, fos, (k - 1) as nat)->Done_0;
        assert forall|i: int| 0 <= i < k implies decode_value(m, rank, a, base + fos[i], #[trigger] fts[i])
            is Done && kids[i] == decode_value(m, rank, a, base + fos[i], fts[i])->Done_0 by {
            if i < k - 1 {
                assert(kids[i] == k1[i]);
            }
        }
    }
}

/// Reading a struct reads each field at the struct's start (its offset
/// rounded up to its alignment) plus that field's offset, and a sized
/// struct ends at its start plus its size, whatever its fields consumed.
pub proof fn law_struct_fields_at_offsets(m: CxModel, rank: nat, a: AllocView, off: int, ty: Word)
    requires
        m.types.contains_key(ty),
        m.types[ty].ty is Adt,
        decode_value(m, rank, a, off, ty) is Done,
    ensures
        ({
            let info = m.types[ty];
            let start = align_up(off, info.align as int);
            let fts = info.ty->Adt_field_types;
            let fos = info.ty->Adt_field_offsets;
            let n = if fts.len() < fos.len() { fts.len() } else { fos.len() };
            let node = decode_value(m, rank, a, off, ty)->Done_0;
            let end = decode_value(m, rank, a, off, ty)->Done_1;
            &&& node is Composite
            &&& node->Composite_0 == ty
            &&& node->Composite_1.len() == n
            &&& forall|i: int|
                0 <= i < n ==> decode_value(m, rank, a, start + fos[i], #[trigger] fts[i]) is Done
                    && node->Composite_1[i] == decode_value(m, rank, a, start + fos[i], fts[i])->Done_0
            &&& info.ty->Adt_size is Some ==> end == start + info.ty->Adt_size.unwrap()
        }),
{
    let info = m.types[ty];
    let start = align_up(off, info.align as int);
    let fts = info.ty->Adt_field_types;
    let fos = info.ty->Adt_field_offsets;
    let n = if fts.len() < fos.len() { fts.len() } else { fos.len() };
    lemma_fields_at_offsets(m, rank, a, start, ty, fts, fos, n);
}

/// Reading a whole allocation consumes every byte of it: it gives a tree
/// exactly where reading from offset 0 gives that tree and ends at the
/// allocation's last byte.
pub proof fn law_alloc_consumes_all(m: CxModel, rank: nat, a: AllocView, ty: Word)
    ensures
        decode_alloc(m, rank, a, ty) is Done <==> (decode_value(m, rank, a, 0, ty) is Done
            && decode_value(m, rank, a, 0, ty)->Done_1 == a.bytes.len()),
        decode_alloc(m, rank, a, ty) is Done ==> decode_alloc(m, rank, a, ty)->Done_0 == decode_value(
            m,
            rank,
            a,
            0,
            ty,
        )->Done_0,
{
}

/// A vector read from memory ends at its start plus the vector's size,
/// skipping any padding after its last element, and holds `count` elements.
pub proof fn law_vector_skips_padding(m: CxModel, rank: nat, a: AllocView, off: int, ty: Word)
    requires
        m.types.contains_key(ty),
        m.types[ty].ty is Vector,
        decode_value(m, rank, a, off, ty) is Done,
    ensures
        ({
            let info = m.types[ty];
            let node = decode_value(m, rank, a, off, ty)->Done_0;
            &&& info.size is Some
            &&& decode_value(m, rank, a, off, ty)->Done_1 == align_up(off, info.align as int)
                + info.size.unwrap()
            &&& node is Composite
            &&& node->Composite_0 == ty
            &&& node->Composite_1.len() == info.ty->Vector_count
        }),
{
    let info = m.types[ty];
    let start = align_up(off, info.align as int);
    let c = info.ty->Vector_count as nat;
    crate::decode::lemma_elems_prefix(m, rank, a, start, ty, info.ty->Vector_element, c, c);
}

/// A runtime array read from memory runs to the end of the allocation, and
/// its value is marked in every crate: such a constant cannot be emitted.
pub proof fn law_runtime_array_marked(m: CxModel, rank: nat, a: AllocView, off: int, ty: Word)
    requires
        m.types.contains_key(ty),
        m.types[ty].ty is RuntimeArray,
        decode_value(m, rank, a, off, ty) is Done,
    ensures
        ({
            let node = decode_value(m, rank, a, off, ty)->Done_0;
            &&& decode_value(m, rank, a, off, ty)->Done_1 == a.bytes.len()
            &&& node is Marked
            &&& node->Marked_1 == crate::types::ZombieReason::RuntimeArrayValue
            &&& node->Marked_2
            &&& *node->Marked_0 is Composite
            &&& node->Marked_0->Composite_0 == ty
        }),
{
    let info = m.types[ty];
    let start = align_up(off, info.align as int);
    lemma_runtime_end(m, rank, a, ty, info.ty->RuntimeArray_element, start, Seq::empty());
}

proof fn lemma_runtime_end(
    m: CxModel,
    rank: nat,
    a: AllocView,
    parent: Word,
    element: Word,
    offset: int,
    acc: Seq<ConstNode>,
)
    requires
        crate::decode::decode_runtime(m, rank, a, parent, element, offset, acc) is Done,
    ensures
        crate::decode::decode_runtime(m, rank, a, parent, element, offset, acc)->Done_1 == a.bytes.len(),
    decreases (if offset <= a.bytes.len() {
        a.bytes.len() - offset
    } else {
        0
    }),
{
    if offset != a.bytes.len() {
        let d = decode_value(m, rank, a, offset, element);
        lemma_runtime_end(m, rank, a, parent, element, d->Done_1, acc.push(d->Done_0));
    }
}

/// A pointer into constant memory, at offset 0 and of pointer kind, becomes
/// a pointer to a new variable initialized with what that memory holds at
/// the pointer's pointee type; it is marked (a diagnostic in a user crate)
/// exactly when the pointer type's storage class is not `Function`.
pub proof fn law_pointer_into_memory(m: CxModel, rank: nat, alloc_id: u64, ty: Word)
    requires
        alloc_id < m.allocs.len(),
        alloc_id < rank,
        m.allocs[alloc_id as int] is Memory,
        m.types.contains_key(ty),
        m.types[ty].ty is Pointer,
        decode_scalar(m, rank, Scalar::Ptr { alloc_id, offset: 0 }, Primitive::Pointer, ty) is Done,
    ensures
        ({
            let pointee = m.types[ty].ty->Pointer_pointee;
            let init = decode_alloc(m, alloc_id as nat, m.allocs[alloc_id as int]->Memory_0@, pointee);
            let g = ConstNode::GlobalPtr(Box::new(init->Done_0));
            let node = decode_scalar(m, rank, Scalar::Ptr { alloc_id, offset: 0 }, Primitive::Pointer, ty)->Done_0;
            &&& init is Done
            &&& m.types[ty].ty->Pointer_storage_class == crate::types::STORAGE_CLASS_FUNCTION ==> node == g
            &&& m.types[ty].ty->Pointer_storage_class != crate::types::STORAGE_CLASS_FUNCTION ==> node
                == ConstNode::Marked(Box::new(g), crate::types::ZombieReason::InvalidPointerSpace, false)
        }),
{
}

/// A scalar read at a position aligned for it ends right after it.
proof fn lemma_scalar_end(m: CxModel, rank: nat, a: AllocView, p: int, e: Word)
    requires
        m.types.contains_key(e),
        m.types[e].align >= 1,
        crate::decode::scalar_primitive(m.types[e].ty) is Some,
        m.types[e].size is Some,
        p >= 0,
        p % (m.types[e].align as int) == 0,
        decode_value(m, rank, a, p, e) is Done,
    ensures
        decode_value(m, rank, a, p, e)->Done_1 == p + m.types[e].size.unwrap(),
{
    lemma_align_up(p, m.types[e].align as int);
    let t = m.types[e].ty;
    assert(!(t is Adt) && !(t is Array) && !(t is Vector) && !(t is RuntimeArray) && !(t is Void)
        && !(t is Opaque) && !(t is Function) && !(t is Image) && !(t is Sampler) && !(t is SampledImage));
}

/// Reading `k` scalar elements of size `s` one after the other from an
/// aligned `start` reads element `i` at `start + i * s`.
proof fn lemma_elems_consecutive(
    m: CxModel,
    rank: nat,
    a: AllocView,
    start: int,
    parent: Word,
    e: Word,
    s: int,
    k: nat,
)
    requires
        m.types.contains_key(e),
        m.types[e].align >= 1,
        crate::decode::scalar_primitive(m.types[e].ty) is Some,
        m.types[e].size is Some,
        m.types[e].size.unwrap() as int == s,
        start >= 0,
        s >= 0,
        start % (m.types[e].align as int) == 0,
        s % (m.types[e].align as int) == 0,
        decode_elems(m, rank, a, start, parent, e, k) is Done,
    ensures
        ({
            let kids = decode_elems(m, rank, a, start, parent, e, k)->Done_0;
            &&& kids.len() == k
            &&& decode_elems(m, rank, a, start, parent, e, k)->Done_1 == start + k * s
            &&& forall|i: int|
                0 <= i < k ==> decode_value(m, rank, a, start + i * s, e) is Done
                    && #[trigger] kids[i] == decode_value(m, rank, a, start + i * s, e)->Done_0
        }),
    decreases k,
{
    if k > 0 {
        lemma_elems_consecutive(m, rank, a, start, parent, e, s, (k - 1) as nat);
        let p = start + (k - 1) * s;
        assert(p == decode_elems(m, rank, a, start, parent, e, (k - 1) as nat)->Done_1);
        let al = m.types[e].align as int;
        assert(p >= 0) by (nonlinear_arith)
            requires
                p == start + (k - 1) * s,
                start >= 0,
                s >= 0,
                k >= 1,
        ;
        assert(p % al == 0) by {
            vstd::arithmetic::div_mod::lemma_mod_multiples_vanish((k - 1) * (s / al), start, al);
            vstd::arithmetic::div_mod::lemma_fundamental_div_mod(s, al);
            assert((k - 1) * s == al * ((k - 1) * (s / al))) by (nonlinear_arith)
                requires
                    s == al * (s / al) + s % al,
                    s % al == 0,
            ;
        }
        lemma_scalar_end(m, rank, a, p, e);
        assert(start + k * s == p + s) by (nonlinear_arith)
            requires
                p == start + (k - 1) * s,
        ;
        let kids = decode_elems(m, rank, a, start, parent, e, k)->Done_0;
        let k1 = decode_elems(m, rank, a, start, parent, e, (k - 1) as nat)->Done_0;
        assert(kids == k1.push(decode_value(m, rank, a, p, e)->Done_0));
        assert(decode_elems(m, rank, a, start, parent, e, k)->Done_1 == p + s);
        assert forall|i: int| 0 <= i < k implies decode_value(m, rank, a, start + i * s, e) is Done
            && #[trigger] kids[i] == decode_value(m, rank, a, start + i * s, e)->Done_0 by {
            if i < k - 1 {
                assert(kids[i] == k1[i]);
            } else {
                assert(i == k - 1);
                assert(start + i * s == p);
            }
        }
    } else {
        assert(0 * s == 0);
    }
}

/// An array of scalars read from memory holds its element count of values,
/// element `i` read at the array's start plus `i` times the element size,
/// and ends right after the last one.
pub proof fn law_array_elements_consecutive(m: CxModel, rank: nat, a: AllocView, off: int, ty: Word)
    requires
        m.wf(),
        m.types.contains_key(ty),
        m.types[ty].ty is Array,
        off >= 0,
        decode_value(m, rank, a, off, ty) is Done,
        m.types.contains_key(m.types[ty].ty->Array_element),
        crate::decode::scalar_primitive(m.types[m.types[ty].ty->Array_element].ty) is Some,
        m.types[m.types[ty].ty->Array_element].size is Some,
        align_up(off, m.types[ty].align as int) % (m.types[m.types[ty].ty->Array_element].align as int)
            == 0,
        (m.types[m.types[ty].ty->Array_element].size.unwrap() as int) % (m.types[m.types[
            ty].ty->Array_element].align as int) == 0,
    ensures
        ({
            let e = m.types[ty].ty->Array_element;
            let s = m.types[e].size.unwrap() as int;
            let start = align_up(off, m.types[ty].align as int);
            let c = const_u64_value(m.consts.get(m.types[ty].ty->Array_count)).unwrap() as usize as int;
            let node = decode_value(m, rank, a, off, ty)->Done_0;
            &&& node is Composite
            &&& node->Composite_0 == ty
            &&& node->Composite_1.len() == c
            &&& forall|i: int|
                0 <= i < c ==> decode_value(m, rank, a, start + i * s, e) is Done
                    && #[trigger] node->Composite_1[i] == decode_value(m, rank, a, start + i * s, e)->Done_0
            &&& decode_value(m, rank, a, off, ty)->Done_1 == start + c * s
        }),
{
    let info = m.types[ty];
    let e = info.ty->Array_element;
    let s = m.types[e].size.unwrap() as int;
    let start = align_up(off, info.align as int);
    lemma_align_up(off, info.align as int);
    let c = const_u64_value(m.consts.get(info.ty->Array_count)).unwrap() as usize as nat;
    lemma_elems_consecutive(m, rank, a, start, ty, e, s, c);
}

/// An integer used as a pointer: 0 is the null pointer of the type; any
/// other address is an undefined value of the type, marked in every crate.
pub proof fn law_integer_address(m: CxModel, data: u128, ty: Word)
    requires
        m.pointer_size == 4 || m.pointer_size == 8,
    ensures
        data == 0 ==> decode_int_scalar(m, data, m.pointer_size as u8, Primitive::Pointer, ty)
            == DecodedScalar::Done(ConstNode::Leaf(ConstModel::Null(ty))),
        data != 0 ==> decode_int_scalar(m, data, m.pointer_size as u8, Primitive::Pointer, ty)
            == DecodedScalar::Done(
            ConstNode::Marked(
                Box::new(ConstNode::Leaf(ConstModel::Undef(ty))),
                crate::types::ZombieReason::NonNullPointerAddress,
                true,
            ),
        ),
{
}

/// A 128-bit integer scalar has no constant: it becomes an undefined value
/// of its type, marked where no span is known (a diagnostic in a user
/// crate).
pub proof fn law_u128_scalar_undef(m: CxModel, data: u128, signed: bool, ty: Word)
    requires
        m.types.contains_key(ty),
        m.types[ty].ty == TypeModel::Integer(128, signed),
    ensures
        decode_int_scalar(m, data, 16, Primitive::Int(Integer::I128, signed), ty)
            == DecodedScalar::Done(
            ConstNode::Marked(
                Box::new(ConstNode::Leaf(ConstModel::Undef(ty))),
                crate::types::ZombieReason::U128Constant,
                false,
            ),
        ),
{
}

proof fn lemma_reloc_at_some(rs: Seq<Relocation>, o: u64)
    requires
        reloc_at(rs, o) is Some,
    ensures
        exists|i: int| 0 <= i < rs.len() && rs[i].offset == o,
    decreases rs.len(),
{
    if rs[0].offset != o {
        lemma_reloc_at_some(rs.drop_first(), o);
        let i = choose|i: int| 0 <= i < rs.drop_first().len() && rs.drop_first()[i].offset == o;
        assert(rs[i + 1].offset == o);
    }
}

/// Reading an unsigned integer of 8, 16, 32 or 64 bits from initialized
/// bytes that hold no pointer gives the constant of their little-endian
/// value.
pub proof fn law_read_unsigned_le(m: CxModel, rank: nat, a: AllocView, off: u64, ty: Word, width: u32)
    requires
        m.wf(),
        width == 8 || width == 16 || width == 32 || width == 64,
        m.types.contains_key(ty),
        m.types[ty] == (TypeInfo {
            ty: TypeModel::Integer(width, false),
            size: Some((width / 8) as u64),
            align: (width / 8) as u64,
        }),
        off as int % (width / 8) as int == 0,
        off + width / 8 <= a.bytes.len(),
        range_init(a, off as int, (width / 8) as int),
        !reloc_in(a.relocations, overlap_start(off as int, m.pointer_size as int), off + width / 8),
    ensures
        ({
            let bits = le_value(a.bytes.subrange(off as int, off + width / 8));
            decode_value(m, rank, a, off as int, ty) == Decoded::Done(
                ConstNode::Leaf(
                    if width == 64 {
                        ConstModel::U64(ty, bits as u64)
                    } else {
                        ConstModel::U32(ty, bits as u32)
                    },
                ),
                off + width / 8,
            ) && bits < pow256((width / 8) as nat)
        }),
{
    let size = (width / 8) as u64;
    let bytes = a.bytes.subrange(off as int, off + size);
    lemma_le_value_bound(bytes);
    crate::layout::lemma_align_up(off as int, size as int);
    assert(align_up(off as int, size as int) == off);
    let bits = le_value(bytes);
    reveal_with_fuel(pow256, 9);
    assert(bits < 0x1_0000_0000_0000_0000);
    if reloc_at(a.relocations, off) is Some {
        lemma_reloc_at_some(a.relocations, off);
        let i = choose|i: int| 0 <= i < a.relocations.len() && a.relocations[i].offset == off;
        assert(overlap_start(off as int, m.pointer_size as int) <= a.relocations[i].offset < off + size);
    }
    assert(!reloc_in(a.relocations, overlap_start(off as int, m.pointer_size as int), off as int)) by {
        if reloc_in(a.relocations, overlap_start(off as int, m.pointer_size as int), off as int) {
            let i = choose|i: int| 0 <= i < a.relocations.len() && overlap_start(off as int, m.pointer_size as int) <= #[trigger] a.relocations[i].offset < off;
        }
    }
    assert(!reloc_in(a.relocations, overlap_start(off + size, m.pointer_size as int), off + size)) by {
        if reloc_in(a.relocations, overlap_start(off + size, m.pointer_size as int), off + size) {
            let i = choose|i: int| 0 <= i < a.relocations.len() && overlap_start(off + size, m.pointer_size as int) <= #[trigger] a.relocations[i].offset < off + size;
        }
    }
    assert(bits as u128 as u64 == bits as u64);
}

/// Reading a float of 32 or 64 bits from initialized bytes that hold no
/// pointer gives the float constant whose bit pattern is their
/// little-endian value, bit for bit.
pub proof fn law_read_float_bits(m: CxModel, rank: nat, a: AllocView, off: u64, ty: Word, width: u32)
    requires
        m.wf(),
        width == 32 || width == 64,
        m.types.contains_key(ty),
        m.types[ty] == (TypeInfo {
            ty: TypeModel::Float(width),
            size: Some((width / 8) as u64),
            align: (width / 8) as u64,
        }),
        off as int % (width / 8) as int == 0,
        off + width / 8 <= a.bytes.len(),
        range_init(a, off as int, (width / 8) as int),
        !reloc_in(a.relocations, overlap_start(off as int, m.pointer_size as int), off + width / 8),
    ensures
        ({
            let bits = le_value(a.bytes.subrange(off as int, off + width / 8));
            decode_value(m, rank, a, off as int, ty) == Decoded::Done(
                ConstNode::Leaf(
                    if width == 64 {
                        ConstModel::F64(ty, bits as u64)
                    } else {
                        ConstModel::F32(ty, bits as u32)
                    },
                ),
                off + width / 8,
            ) && bits < pow256((width / 8) as nat)
        }),
{
    let size = (width / 8) as u64;
    let bytes = a.bytes.subrange(off as int, off + size);
    lemma_le_value_bound(bytes);
    crate::layout::lemma_align_up(off as int, size as int);
    assert(align_up(off as int, size as int) == off);
    let bits = le_value(bytes);
    reveal_with_fuel(pow256, 9);
    assert(bits < 0x1_0000_0000_0000_0000);
    if reloc_at(a.relocations, off) is Some {
        lemma_reloc_at_some(a.relocations, off);
        let i = choose|i: int| 0 <= i < a.relocations.len() && a.relocations[i].offset == off;
        assert(overlap_start(off as int, m.pointer_size as int) <= a.relocations[i].offset < off + size);
    }
    assert(!reloc_in(a.relocations, overlap_start(off as int, m.pointer_size as int), off as int)) by {
        if reloc_in(a.relocations, overlap_start(off as int, m.pointer_size as int), off as int) {
            let i = choose|i: int| 0 <= i < a.relocations.len() && overlap_start(off as int, m.pointer_size as int) <= #[trigger] a.relocations[i].offset < off;
        }
    }
    assert(!reloc_in(a.relocations, overlap_start(off + size, m.pointer_size as int), off + size)) by {
        if reloc_in(a.relocations, overlap_start(off + size, m.pointer_size as int), off + size) {
            let i = choose|i: int| 0 <= i < a.relocations.len() && overlap_start(off + size, m.pointer_size as int) <= #[trigger] a.relocations[i].offset < off + size;
        }
    }
    assert(bits as u128 as u64 == bits as u64);
}

/// Reading a scalar whose bytes are not all initialized (and hold no
/// pointer) gives the undefined value of its type.
pub proof fn law_read_uninit(m: CxModel, rank: nat, a: AllocView, off: u64, ty: Word, width: u32)
    requires
        m.wf(),
        width == 8 || width == 16 || width == 32 || width == 64,
        m.types.contains_key(ty),
        m.types[ty] == (TypeInfo {
            ty: TypeModel::Integer(width, false),
            size: Some((width / 8) as u64),
            align: (width / 8) as u64,
        }),
        off as int % (width / 8) as int == 0,
        off + width / 8 <= a.bytes.len(),
        !range_init(a, off as int, (width / 8) as int),
        !reloc_in(a.relocations, overlap_start(off as int, m.pointer_size as int), off + width / 8),
    ensures
        decode_value(m, rank, a, off as int, ty) == Decoded::Done(
            ConstNode::Leaf(ConstModel::Undef(ty)),
            off + width / 8,
        ),
{
    let size = (width / 8) as u64;
    crate::layout::lemma_align_up(off as int, size as int);
    assert(!reloc_in(a.relocations, overlap_start(off as int, m.pointer_size as int), off as int)) by {
        if reloc_in(a.relocations, overlap_start(off as int, m.pointer_size as int), off as int) {
            let i = choose|i: int| 0 <= i < a.relocations.len() && overlap_start(off as int, m.pointer_size as int) <= #[trigger] a.relocations[i].offset < off;
        }
    }
    assert(!reloc_in(a.relocations, overlap_start(off + size, m.pointer_size as int), off + size)) by {
        if reloc_in(a.relocations, overlap_start(off + size, m.pointer_size as int), off + size) {
            let i = choose|i: int| 0 <= i < a.relocations.len() && overlap_start(off + size, m.pointer_size as int) <= #[trigger] a.relocations[i].offset < off + size;
        }
    }
}

/// Reading the same constant memory at the same type twice (the module
/// having grown in between) gives the same value, where the constant holds
/// no pointer into constant memory: constants are interned.
pub proof fn law_same_memory_same_constant(
    m1: CxModel,
    m2: CxModel,
    a: AllocView,
    ty: Word,
    v1: SpirvValue,
    v2: SpirvValue,
)
    requires
        m1.wf(),
        m2.wf(),
        m2.extends(m1),
        decode_alloc(m1, m1.allocs.len(), a, ty) is Done,
        pointer_free(decode_alloc(m1, m1.allocs.len(), a, ty)->Done_0),
        denotes(m1, v1, decode_alloc(m1, m1.allocs.len(), a, ty)->Done_0),
        denotes(m2, v2, decode_alloc(m2, m2.allocs.len(), a, ty)->Done_0),
    ensures
        v1 == v2,
{
    let n = decode_alloc(m1, m1.allocs.len(), a, ty)->Done_0;
    law_decode_stable(m1, m2, a, ty);
    lemma_denotes_extends(m1, m2, v1, n);
    lemma_denotes_unique(m2, v1, v2, n);
}

} // verus!
