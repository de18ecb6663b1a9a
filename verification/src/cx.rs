//! The code generation context as far as constants need it: the module's
//! type table and constant table (both interned: one id per distinct entry),
//! the variables that back constant pointers, the values marked as unusable
//! ("zombies") with the diagnostics that such marks raise, and the global
//! allocations that constant pointers refer to.
use vstd::prelude::*;
use crate::memory::GlobalAlloc;
use crate::types::{
    ConstError, ConstModel, SpirvConst, SpirvType, SpirvValue, SpirvValueKind, TypeModel, Word,
    ZombieReason, STORAGE_CLASS_FUNCTION,
};

verus! {

/// A type table entry: the type, its id and its layout (size in bytes where
/// the type is sized, alignment in bytes).
#[derive(Debug)]
pub struct TypeEntry {
    pub id: Word,
    pub ty: SpirvType,
    pub size: Option<u64>,
    pub align: u64,
}

/// A type with its layout, as the model of the type table holds it.
pub struct TypeInfo {
    pub ty: TypeModel,
    pub size: Option<u64>,
    pub align: u64,
}

impl TypeEntry {
    pub open spec fn info(&self) -> TypeInfo {
        TypeInfo { ty: self.ty@, size: self.size, align: self.align }
    }
}

/// A constant table entry.
#[derive(Debug)]
pub struct ConstEntry {
    pub id: Word,
    pub val: SpirvConst,
}

/// A variable of storage class `Function` whose initializer is a constant.
#[derive(Clone, Copy, Debug, PartialEq, Eq, Structural)]
pub struct GlobalVar {
    pub id: Word,
    pub ty: Word,
    pub initializer: Word,
}

/// A value marked as one that must not reach the final module.
#[derive(Clone, Copy, Debug, PartialEq, Eq, Structural)]
pub struct Zombie {
    pub id: Word,
    pub reason: ZombieReason,
}

/// The entry for `id` in a type table (the last one, if several).
pub open spec fn find_type(s: Seq<TypeEntry>, id: Word) -> Option<TypeInfo>
    decreases s.len(),
{
    if s.len() == 0 {
        None
    } else if s.last().id == id {
        Some(s.last().info())
    } else {
        find_type(s.drop_last(), id)
    }
}

/// The id of the type `m` in a type table.
pub open spec fn find_type_id(s: Seq<TypeEntry>, m: TypeModel) -> Option<Word>
    decreases s.len(),
{
    if s.len() == 0 {
        None
    } else if s.last().ty@ == m {
        Some(s.last().id)
    } else {
        find_type_id(s.drop_last(), m)
    }
}

/// The constant with id `id` in a constant table.
pub open spec fn find_const(s: Seq<ConstEntry>, id: Word) -> Option<ConstModel>
    decreases s.len(),
{
    if s.len() == 0 {
        None
    } else if s.last().id == id {
        Some(s.last().val@)
    } else {
        find_const(s.drop_last(), id)
    }
}

/// The id of the constant `m` in a constant table.
pub open spec fn find_const_id(s: Seq<ConstEntry>, m: ConstModel) -> Option<Word>
    decreases s.len(),
{
    if s.len() == 0 {
        None
    } else if s.last().val@ == m {
        Some(s.last().id)
    } else {
        find_const_id(s.drop_last(), m)
    }
}

/// The variable with id `id`.
pub open spec fn find_global(s: Seq<GlobalVar>, id: Word) -> Option<GlobalVar>
    decreases s.len(),
{
    if s.len() == 0 {
        None
    } else if s.last().id == id {
        Some(s.last())
    } else {
        find_global(s.drop_last(), id)
    }
}

/// Whether the component types that constant memory is read through (struct
/// fields, vector, array and runtime-array elements) have ids below `id`:
/// the type table is built bottom-up.
pub open spec fn components_below(m: TypeModel, id: Word) -> bool {
    match m {
        TypeModel::Adt { field_types, .. } => forall|i: int|
            0 <= i < field_types.len() ==> #[trigger] field_types[i] < id,
        TypeModel::Vector { element, .. } => element < id,
        TypeModel::Array { element, .. } => element < id,
        TypeModel::RuntimeArray { element } => element < id,
        _ => true,
    }
}

/// Whether a pointer type's pointee id is below `next_id` (the pointee may
/// be defined after the pointer, but its id has been handed out).
pub open spec fn refs_below(m: TypeModel, next_id: Word) -> bool {
    match m {
        TypeModel::Pointer { pointee, .. } => pointee < next_id,
        _ => true,
    }
}

/// Whether a type of kind `t` may have the given layout: a bool takes one
/// byte; an integer of 8, 16, 32, 64 or 128 bits and a float of 32 or 64 bits
/// take their width in bytes, aligned to it; a pointer takes the target's
/// pointer size and alignment. Other types are laid out by whoever defines
/// them.
pub open spec fn layout_fits(
    t: TypeModel,
    size: Option<u64>,
    align: u64,
    pointer_size: u64,
    pointer_align: u64,
) -> bool {
    match t {
        TypeModel::Bool => size == Some(1u64) && align == 1,
        TypeModel::Integer(w, _) => (w == 8 || w == 16 || w == 32 || w == 64 || w == 128) ==> (
        size == Some((w / 8) as u64) && align == (w / 8) as u64),
        TypeModel::Float(w) => (w == 32 || w == 64) ==> (size == Some((w / 8) as u64) && align == (w
            / 8) as u64),
        TypeModel::Pointer { .. } => size == Some(pointer_size) && align == pointer_align,
        _ => true,
    }
}

/// Whether the pointers stored in global allocation `index` only lead to
/// allocations with smaller ids.
pub open spec fn alloc_ordered(a: GlobalAlloc, index: int) -> bool {
    match a {
        GlobalAlloc::Memory(m) => m.wf() && forall|i: int|
            0 <= i < m.relocations@.len() ==> #[trigger] m.relocations@[i].alloc_id < index,
        _ => true,
    }
}

/// The value of an integer constant, widened to 64 bits.
pub open spec fn const_u64_value(c: Option<ConstModel>) -> Option<u64> {
    match c {
        Some(ConstModel::U32(_, v)) => Some(v as u64),
        Some(ConstModel::U64(_, v)) => Some(v),
        _ => None,
    }
}

/// The mathematical state of a [`CodegenCx`].
pub struct CxModel {
    pub kernel_mode: bool,
    pub system_crate: bool,
    /// Size of a pointer in bytes.
    pub pointer_size: u64,
    /// Alignment of a pointer in bytes.
    pub pointer_align: u64,
    pub types: Map<Word, TypeInfo>,
    pub type_ids: Map<TypeModel, Word>,
    pub consts: Map<Word, ConstModel>,
    pub const_ids: Map<ConstModel, Word>,
    pub globals: Map<Word, GlobalVar>,
    pub zombies: Seq<Zombie>,
    pub diagnostics: Seq<ZombieReason>,
    pub allocs: Seq<GlobalAlloc>,
    pub next_id: Word,
}

impl CxModel {
    /// The tables are interned (each type and each constant has one id, and
    /// each id one entry), every id is below `next_id`, types are built
    /// bottom-up and allocations only point to earlier allocations.
    pub open spec fn wf(self) -> bool {
        &&& self.pointer_size == 4 || self.pointer_size == 8
        &&& self.pointer_align >= 1
        &&& forall|id: Word| #[trigger]
            self.types.contains_key(id) ==> {
                &&& id < self.next_id
                &&& self.types[id].align >= 1
                &&& layout_fits(
                    self.types[id].ty,
                    self.types[id].size,
                    self.types[id].align,
                    self.pointer_size,
                    self.pointer_align,
                )
                &&& components_below(self.types[id].ty, id)
                &&& refs_below(self.types[id].ty, self.next_id)
                &&& self.type_ids.contains_key(self.types[id].ty)
                &&& self.type_ids[self.types[id].ty] == id
            }
        &&& forall|m: TypeModel| #[trigger]
            self.type_ids.contains_key(m) ==> self.types.contains_key(self.type_ids[m])
                && self.types[self.type_ids[m]].ty == m
        &&& forall|id: Word| #[trigger]
            self.consts.contains_key(id) ==> {
                &&& id < self.next_id
                &&& self.const_ids.contains_key(self.consts[id])
                &&& self.const_ids[self.consts[id]] == id
            }
        &&& forall|m: ConstModel| #[trigger]
            self.const_ids.contains_key(m) ==> self.consts.contains_key(self.const_ids[m])
                && self.consts[self.const_ids[m]] == m
        &&& forall|id: Word| #[trigger]
            self.globals.contains_key(id) ==> id < self.next_id && self.globals[id].id == id
        &&& forall|i: int| 0 <= i < self.allocs.len() ==> alloc_ordered(#[trigger] self.allocs[i], i)
    }

    /// `self` is `old` with entries and marks added, and nothing else changed.
    pub open spec fn extends(self, old: CxModel) -> bool {
        &&& self.kernel_mode == old.kernel_mode
        &&& self.system_crate == old.system_crate
        &&& self.pointer_size == old.pointer_size
        &&& self.pointer_align == old.pointer_align
        &&& self.allocs == old.allocs
        &&& old.types.submap_of(self.types)
        &&& old.type_ids.submap_of(self.type_ids)
        &&& old.consts.submap_of(self.consts)
        &&& old.const_ids.submap_of(self.const_ids)
        &&& old.globals.submap_of(self.globals)
        &&& old.zombies.is_prefix_of(self.zombies)
        &&& old.diagnostics.is_prefix_of(self.diagnostics)
        &&& old.next_id <= self.next_id
        &&& forall|id: Word| #[trigger]
            self.types.contains_key(id) && !old.types.contains_key(id) ==> id >= old.next_id
        &&& forall|id: Word| #[trigger]
            self.consts.contains_key(id) && !old.consts.contains_key(id) ==> id >= old.next_id
        &&& forall|id: Word| #[trigger]
            self.globals.contains_key(id) && !old.globals.contains_key(id) ==> id >= old.next_id
    }

    /// The id of the type `m` once it has been defined.
    pub open spec fn id_after_def(self, m: TypeModel) -> Word {
        if self.type_ids.contains_key(m) {
            self.type_ids[m]
        } else {
            self.next_id
        }
    }

    /// The state after defining type `m` with the given layout.
    pub open spec fn after_def_type(self, m: TypeModel, size: Option<u64>, align: u64) -> CxModel {
        if self.type_ids.contains_key(m) {
            self
        } else {
            CxModel {
                types: self.types.insert(self.next_id, TypeInfo { ty: m, size, align }),
                type_ids: self.type_ids.insert(m, self.next_id),
                next_id: (self.next_id + 1) as Word,
                ..self
            }
        }
    }

    /// The state after defining constant `c`.
    pub open spec fn after_def_const(self, c: ConstModel) -> CxModel {
        if self.const_ids.contains_key(c) {
            self
        } else {
            CxModel {
                consts: self.consts.insert(self.next_id, c),
                const_ids: self.const_ids.insert(c, self.next_id),
                next_id: (self.next_id + 1) as Word,
                ..self
            }
        }
    }

    /// The id of constant `c` once it has been defined.
    pub open spec fn const_id_after_def(self, c: ConstModel) -> Word {
        if self.const_ids.contains_key(c) {
            self.const_ids[c]
        } else {
            self.next_id
        }
    }

    /// The state after marking `id` with `reason` in every crate.
    pub open spec fn after_zombie(self, id: Word, reason: ZombieReason) -> CxModel {
        CxModel { zombies: self.zombies.push(Zombie { id, reason }), ..self }
    }

    /// The state after marking `id` with `reason`: a mark in a system crate,
    /// a diagnostic in a user crate.
    pub open spec fn after_zombie_no_span(self, id: Word, reason: ZombieReason) -> CxModel {
        if self.system_crate {
            self.after_zombie(id, reason)
        } else {
            CxModel { diagnostics: self.diagnostics.push(reason), ..self }
        }
    }

    /// The pointer type of storage class `Function` to `pointee`.
    pub open spec fn function_pointer_to(pointee: Word) -> TypeModel {
        TypeModel::Pointer { storage_class: STORAGE_CLASS_FUNCTION, pointee }
    }

    /// Whether ids remain for a constant pointer to `value`: for its pointer
    /// type where that is new, and for the variable.
    pub open spec fn pointer_fits(self, value: SpirvValue) -> bool {
        let ptr_ty = CxModel::function_pointer_to(value.ty);
        &&& self.type_ids.contains_key(ptr_ty) || self.next_id < u32::MAX
        &&& self.after_def_type(ptr_ty, Some(self.pointer_size), self.pointer_align).next_id < u32::MAX
    }

    /// The pointer that `make_constant_pointer(value)` returns and the state
    /// after it: the pointer type to `value`'s type is defined, then a new
    /// variable of that type initialized with `value`.
    pub open spec fn after_constant_pointer(self, value: SpirvValue) -> (SpirvValue, CxModel) {
        let ptr_ty = CxModel::function_pointer_to(value.ty);
        let mid = self.after_def_type(ptr_ty, Some(self.pointer_size), self.pointer_align);
        let p = SpirvValue {
            kind: SpirvValueKind::ConstantPointer {
                initializer: value.spec_def(),
                global_var: mid.next_id,
            },
            ty: self.id_after_def(ptr_ty),
        };
        (
            p,
            CxModel {
                globals: mid.globals.insert(
                    mid.next_id,
                    GlobalVar { id: mid.next_id, ty: p.ty, initializer: value.spec_def() },
                ),
                next_id: (mid.next_id + 1) as Word,
                ..mid
            },
        )
    }
}

/// The part of the code generation context that constants use.
pub struct CodegenCx {
    kernel_mode: bool,
    system_crate: bool,
    pointer_size: u64,
    pointer_align: u64,
    types: Vec<TypeEntry>,
    constants: Vec<ConstEntry>,
    globals: Vec<GlobalVar>,
    zombies: Vec<Zombie>,
    diagnostics: Vec<ZombieReason>,
    global_allocs: Vec<GlobalAlloc>,
    next_id: Word,
}

impl View for CodegenCx {
    type V = CxModel;

    closed spec fn view(&self) -> CxModel {
        CxModel {
            kernel_mode: self.kernel_mode,
            system_crate: self.system_crate,
            pointer_size: self.pointer_size,
            pointer_align: self.pointer_align,
            types: Map::new(
                |id: Word| find_type(self.types@, id) is Some,
                |id: Word| find_type(self.types@, id).unwrap(),
            ),
            type_ids: Map::new(
                |m: TypeModel| find_type_id(self.types@, m) is Some,
                |m: TypeModel| find_type_id(self.types@, m).unwrap(),
            ),
            consts: Map::new(
                |id: Word| find_const(self.constants@, id) is Some,
                |id: Word| find_const(self.constants@, id).unwrap(),
            ),
            const_ids: Map::new(
                |m: ConstModel| find_const_id(self.constants@, m) is Some,
                |m: ConstModel| find_const_id(self.constants@, m).unwrap(),
            ),
            globals: Map::new(
                |id: Word| find_global(self.globals@, id) is Some,
                |id: Word| find_global(self.globals@, id).unwrap(),
            ),
            zombies: self.zombies@,
            diagnostics: self.diagnostics@,
            allocs: self.global_allocs@,
            next_id: self.next_id,
        }
    }
}

/// An entry of a state is still there, unchanged, in a state that extends it.
pub proof fn lemma_extends_keeps(c1: CxModel, c2: CxModel, id: Word)
    requires
        c2.extends(c1),
    ensures
        c1.types.contains_key(id) ==> c2.types.contains_key(id) && c2.types[id] == c1.types[id],
        c1.consts.contains_key(id) ==> c2.consts.contains_key(id) && c2.consts[id] == c1.consts[id],
        c1.globals.contains_key(id) ==> c2.globals.contains_key(id) && c2.globals[id]
            == c1.globals[id],
{
    assert(c1.types.dom().contains(id) ==> c2.types.dom().contains(id) && c1.types[id]
        == c2.types[id]);
    assert(c1.consts.dom().contains(id) ==> c2.consts.dom().contains(id) && c1.consts[id]
        == c2.consts[id]);
    assert(c1.globals.dom().contains(id) ==> c2.globals.dom().contains(id) && c1.globals[id]
        == c2.globals[id]);
}

/// Every model extends itself.
pub proof fn lemma_extends_refl(m: CxModel)
    ensures
        m.extends(m),
{
    assert(m.zombies.is_prefix_of(m.zombies));
    assert(m.diagnostics.is_prefix_of(m.diagnostics));
}

/// Extension is transitive.
pub proof fn lemma_extends_trans(a: CxModel, b: CxModel, c: CxModel)
    requires
        b.extends(a),
        c.extends(b),
    ensures
        c.extends(a),
{
    assert(a.zombies.is_prefix_of(c.zombies)) by {
        assert forall|i: int| 0 <= i < a.zombies.len() implies a.zombies[i] == c.zombies.subrange(
            0,
            a.zombies.len() as int,
        )[i] by {
            assert(a.zombies[i] == b.zombies.subrange(0, a.zombies.len() as int)[i]);
            assert(b.zombies[i] == c.zombies.subrange(0, b.zombies.len() as int)[i]);
        }
        assert(a.zombies =~= c.zombies.subrange(0, a.zombies.len() as int));
    }
    assert(a.diagnostics.is_prefix_of(c.diagnostics)) by {
        assert forall|i: int| 0 <= i < a.diagnostics.len() implies a.diagnostics[i]
            == c.diagnostics.subrange(0, a.diagnostics.len() as int)[i] by {
            assert(a.diagnostics[i] == b.diagnostics.subrange(0, a.diagnostics.len() as int)[i]);
            assert(b.diagnostics[i] == c.diagnostics.subrange(0, b.diagnostics.len() as int)[i]);
        }
        assert(a.diagnostics =~= c.diagnostics.subrange(0, a.diagnostics.len() as int));
    }
    assert forall|k: Word| #[trigger] a.types.dom().contains(k) implies c.types.dom().contains(k)
        && a.types[k] == c.types[k] by {
        assert(b.types.dom().contains(k));
    }
    assert forall|k: TypeModel| #[trigger] a.type_ids.dom().contains(k) implies c.type_ids.dom().contains(
        k,
    ) && a.type_ids[k] == c.type_ids[k] by {
        assert(b.type_ids.dom().contains(k));
    }
    assert forall|k: Word| #[trigger] a.consts.dom().contains(k) implies c.consts.dom().contains(k)
        && a.consts[k] == c.consts[k] by {
        assert(b.consts.dom().contains(k));
    }
    assert forall|k: ConstModel| #[trigger] a.const_ids.dom().contains(k) implies c.const_ids.dom().contains(
        k,
    ) && a.const_ids[k] == c.const_ids[k] by {
        assert(b.const_ids.dom().contains(k));
    }
    assert forall|k: Word| #[trigger] a.globals.dom().contains(k) implies c.globals.dom().contains(k)
        && a.globals[k] == c.globals[k] by {
        assert(b.globals.dom().contains(k));
    }
}


/// Defining a new type keeps the invariant and extends the state.
pub proof fn lemma_def_type_wf(m: CxModel, t: TypeModel, size: Option<u64>, align: u64)
    requires
        m.wf(),
        align >= 1,
        layout_fits(t, size, align, m.pointer_size, m.pointer_align),
        components_below(t, m.next_id),
        refs_below(t, m.next_id),
        m.type_ids.contains_key(t) || m.next_id < u32::MAX,
    ensures
        m.after_def_type(t, size, align).wf(),
        m.after_def_type(t, size, align).extends(m),
        m.after_def_type(t, size, align).types.contains_key(m.id_after_def(t)),
        m.after_def_type(t, size, align).types[m.id_after_def(t)].ty == t,
        m.after_def_type(t, size, align).type_ids[t] == m.id_after_def(t),
        m.after_def_type(t, size, align).type_ids.contains_key(t),
{
    lemma_extends_refl(m);
    if !m.type_ids.contains_key(t) {
        let n = m.after_def_type(t, size, align);
        let id0 = m.next_id;
        assert forall|id: Word| #[trigger] n.types.contains_key(id) implies {
            &&& id < n.next_id
            &&& n.types[id].align >= 1
            &&& layout_fits(
                n.types[id].ty,
                n.types[id].size,
                n.types[id].align,
                n.pointer_size,
                n.pointer_align,
            )
            &&& components_below(n.types[id].ty, id)
            &&& refs_below(n.types[id].ty, n.next_id)
            &&& n.type_ids.contains_key(n.types[id].ty)
            &&& n.type_ids[n.types[id].ty] == id
        } by {
            if id != id0 {
                assert(m.types.contains_key(id));
                assert(m.type_ids.contains_key(m.types[id].ty));
                assert(refs_below(m.types[id].ty, m.next_id));
            }
        }
        assert forall|k: TypeModel| #[trigger] n.type_ids.contains_key(k) implies n.types.contains_key(
            n.type_ids[k],
        ) && n.types[n.type_ids[k]].ty == k by {
            if k != t {
                assert(m.type_ids.contains_key(k));
                assert(m.types.contains_key(m.type_ids[k]));
            }
        }
        assert forall|id: Word| #[trigger] n.consts.contains_key(id) implies {
            &&& id < n.next_id
            &&& n.const_ids.contains_key(n.consts[id])
            &&& n.const_ids[n.consts[id]] == id
        } by {
            assert(m.consts.contains_key(id));
        }
        assert forall|id: Word| #[trigger] n.globals.contains_key(id) implies id < n.next_id
            && n.globals[id].id == id by {
            assert(m.globals.contains_key(id));
        }
        assert forall|i: int| 0 <= i < n.allocs.len() implies alloc_ordered(
            #[trigger] n.allocs[i],
            i,
        ) by {
            assert(alloc_ordered(m.allocs[i], i));
        }
    }
}

/// Defining a new constant keeps the invariant and extends the state.
pub proof fn lemma_def_const_wf(m: CxModel, c: ConstModel)
    requires
        m.wf(),
        m.const_ids.contains_key(c) || m.next_id < u32::MAX,
    ensures
        m.after_def_const(c).wf(),
        m.after_def_const(c).extends(m),
        m.after_def_const(c).consts.contains_key(m.const_id_after_def(c)),
        m.after_def_const(c).consts[m.const_id_after_def(c)] == c,
        m.after_def_const(c).const_ids.contains_key(c),
        m.after_def_const(c).const_ids[c] == m.const_id_after_def(c),
{
    lemma_extends_refl(m);
    if !m.const_ids.contains_key(c) {
        let n = m.after_def_const(c);
        let id0 = m.next_id;
        assert forall|id: Word| #[trigger] n.types.contains_key(id) implies {
            &&& id < n.next_id
            &&& n.types[id].align >= 1
            &&& layout_fits(
                n.types[id].ty,
                n.types[id].size,
                n.types[id].align,
                n.pointer_size,
                n.pointer_align,
            )
            &&& components_below(n.types[id].ty, id)
            &&& refs_below(n.types[id].ty, n.next_id)
            &&& n.type_ids.contains_key(n.types[id].ty)
            &&& n.type_ids[n.types[id].ty] == id
        } by {
            assert(m.types.contains_key(id));
            assert(m.type_ids.contains_key(m.types[id].ty));
            assert(components_below(m.types[id].ty, id));
            assert(refs_below(m.types[id].ty, m.next_id));
        }
        assert forall|k: TypeModel| #[trigger] n.type_ids.contains_key(k) implies n.types.contains_key(
            n.type_ids[k],
        ) && n.types[n.type_ids[k]].ty == k by {
            assert(m.type_ids.contains_key(k));
        }
        assert forall|id: Word| #[trigger] n.consts.contains_key(id) implies {
            &&& id < n.next_id
            &&& n.const_ids.contains_key(n.consts[id])
            &&& n.const_ids[n.consts[id]] == id
        } by {
            if id != id0 {
                assert(m.consts.contains_key(id));
                assert(m.const_ids.contains_key(m.consts[id]));
            }
        }
        assert forall|k: ConstModel| #[trigger] n.const_ids.contains_key(k) implies n.consts.contains_key(
            n.const_ids[k],
        ) && n.consts[n.const_ids[k]] == k by {
            if k != c {
                assert(m.const_ids.contains_key(k));
                assert(m.consts.contains_key(m.const_ids[k]));
            }
        }
        assert forall|id: Word| #[trigger] n.globals.contains_key(id) implies id < n.next_id
            && n.globals[id].id == id by {
            assert(m.globals.contains_key(id));
        }
        assert forall|i: int| 0 <= i < n.allocs.len() implies alloc_ordered(
            #[trigger] n.allocs[i],
            i,
        ) by {
            assert(alloc_ordered(m.allocs[i], i));
        }
    }
}

/// After defining constant `c`, the table holds it under its id.
pub proof fn lemma_after_def_const_has(m: CxModel, c: ConstModel)
    requires
        m.wf(),
    ensures
        m.after_def_const(c).consts.contains_key(m.const_id_after_def(c)),
        m.after_def_const(c).consts[m.const_id_after_def(c)] == c,
{
}

/// After defining type `t`, the table holds it under its id.
pub proof fn lemma_after_def_type_has(m: CxModel, t: TypeModel, size: Option<u64>, align: u64)
    requires
        m.wf(),
    ensures
        m.after_def_type(t, size, align).types.contains_key(m.id_after_def(t)),
        m.after_def_type(t, size, align).types[m.id_after_def(t)].ty == t,
{
}

/// Marking a value keeps the invariant and extends the state.
pub proof fn lemma_zombie_wf(m: CxModel, id: Word, reason: ZombieReason)
    requires
        m.wf(),
    ensures
        m.after_zombie(id, reason).wf(),
        m.after_zombie(id, reason).extends(m),
        m.after_zombie_no_span(id, reason).wf(),
        m.after_zombie_no_span(id, reason).extends(m),
{
    let n = m.after_zombie(id, reason);
    let d = m.after_zombie_no_span(id, reason);
    assert(m.zombies.is_prefix_of(n.zombies));
    assert(m.diagnostics.is_prefix_of(d.diagnostics));
    assert(m.zombies.is_prefix_of(d.zombies));
    assert(m.diagnostics.is_prefix_of(n.diagnostics));
    assert forall|i: int| 0 <= i < n.allocs.len() implies alloc_ordered(#[trigger] n.allocs[i], i) by {
        assert(alloc_ordered(m.allocs[i], i));
    }
    assert forall|i: int| 0 <= i < d.allocs.len() implies alloc_ordered(#[trigger] d.allocs[i], i) by {
        assert(alloc_ordered(m.allocs[i], i));
    }
}

impl CodegenCx {
    /// An empty context. `pointer_size` and `pointer_align` are in bytes.
    pub fn new(kernel_mode: bool, system_crate: bool, pointer_size: u64, pointer_align: u64) -> (r:
        CodegenCx)
        requires
            pointer_size == 4 || pointer_size == 8,
            pointer_align >= 1,
        ensures
            r.wf(),
            r@.kernel_mode == kernel_mode,
            r@.system_crate == system_crate,
            r@.pointer_size == pointer_size,
            r@.pointer_align == pointer_align,
            r@.types == Map::<Word, TypeInfo>::empty(),
            r@.type_ids == Map::<TypeModel, Word>::empty(),
            r@.consts == Map::<Word, ConstModel>::empty(),
            r@.const_ids == Map::<ConstModel, Word>::empty(),
            r@.globals == Map::<Word, GlobalVar>::empty(),
            r@.zombies == Seq::<Zombie>::empty(),
            r@.diagnostics == Seq::<ZombieReason>::empty(),
            r@.allocs == Seq::<GlobalAlloc>::empty(),
            r@.next_id == 1,
    {
        let r = CodegenCx {
            kernel_mode,
            system_crate,
            pointer_size,
            pointer_align,
            types: Vec::new(),
            constants: Vec::new(),
            globals: Vec::new(),
            zombies: Vec::new(),
            diagnostics: Vec::new(),
            global_allocs: Vec::new(),
            next_id: 1,
        };
        assert(r@.types =~= Map::<Word, TypeInfo>::empty());
        assert(r@.type_ids =~= Map::<TypeModel, Word>::empty());
        assert(r@.consts =~= Map::<Word, ConstModel>::empty());
        assert(r@.const_ids =~= Map::<ConstModel, Word>::empty());
        assert(r@.globals =~= Map::<Word, GlobalVar>::empty());
        r
    }

    /// The context's invariant.
    pub open spec fn wf(&self) -> bool {
        self@.wf()
    }

    /// Whether the kernel (OpenCL) flavour of SPIR-V is generated.
    pub fn kernel_mode(&self) -> (r: bool)
        ensures
            r == self@.kernel_mode,
    {
        self.kernel_mode
    }

    /// Whether the crate being compiled is a system crate.
    pub fn system_crate(&self) -> (r: bool)
        ensures
            r == self@.system_crate,
    {
        self.system_crate
    }

    /// Size of a pointer in bytes.
    pub fn pointer_size(&self) -> (r: u64)
        ensures
            r == self@.pointer_size,
    {
        self.pointer_size
    }

    /// Alignment of a pointer in bytes.
    pub fn pointer_align(&self) -> (r: u64)
        ensures
            r == self@.pointer_align,
    {
        self.pointer_align
    }

    /// The id that the next new entry gets.
    pub fn next_id(&self) -> (r: Word)
        ensures
            r == self@.next_id,
    {
        self.next_id
    }

    /// The marks made so far.
    pub fn zombies(&self) -> (r: &Vec<Zombie>)
        ensures
            r@ == self@.zombies,
    {
        &self.zombies
    }

    /// The diagnostics raised so far.
    pub fn diagnostics(&self) -> (r: &Vec<ZombieReason>)
        ensures
            r@ == self@.diagnostics,
    {
        &self.diagnostics
    }

    /// The type table entry with id `id`.
    pub fn lookup_type(&self, id: Word) -> (r: Option<&TypeEntry>)
        ensures
            match r {
                Some(e) => self@.types.contains_key(id) && e.info() == self@.types[id] && e.id == id,
                None => !self@.types.contains_key(id),
            },
    {
        let mut i = self.types.len();
        let ghost s = self.types@;
        proof {
            assert(s.subrange(0, s.len() as int) =~= s);
        }
        while i > 0
            invariant
                i <= s.len(),
                s == self.types@,
                find_type(s, id) == find_type(s.subrange(0, i as int), id),
            decreases i,
        {
            let ghost pre = s.subrange(0, i as int);
            assert(pre.drop_last() =~= s.subrange(0, i - 1));
            if self.types[i - 1].id == id {
                return Some(&self.types[i - 1]);
            }
            i = i - 1;
        }
        None
    }

    /// The id of type `ty` in the table.
    pub fn type_id_of(&self, ty: &SpirvType) -> (r: Option<Word>)
        ensures
            r == self@.type_ids.get(ty@),
    {
        let mut i = self.types.len();
        let ghost s = self.types@;
        proof {
            assert(s.subrange(0, s.len() as int) =~= s);
        }
        while i > 0
            invariant
                i <= s.len(),
                s == self.types@,
                find_type_id(s, ty@) == find_type_id(s.subrange(0, i as int), ty@),
            decreases i,
        {
            let ghost pre = s.subrange(0, i as int);
            assert(pre.drop_last() =~= s.subrange(0, i - 1));
            if self.types[i - 1].ty.same_as(ty) {
                return Some(self.types[i - 1].id);
            }
            i = i - 1;
        }
        None
    }

    /// The constant with id `id`.
    pub fn lookup_const(&self, id: Word) -> (r: Option<&SpirvConst>)
        ensures
            match r {
                Some(c) => self@.consts.contains_key(id) && c@ == self@.consts[id],
                None => !self@.consts.contains_key(id),
            },
    {
        let mut i = self.constants.len();
        let ghost s = self.constants@;
        proof {
            assert(s.subrange(0, s.len() as int) =~= s);
        }
        while i > 0
            invariant
                i <= s.len(),
                s == self.constants@,
                find_const(s, id) == find_const(s.subrange(0, i as int), id),
            decreases i,
        {
            let ghost pre = s.subrange(0, i as int);
            assert(pre.drop_last() =~= s.subrange(0, i - 1));
            if self.constants[i - 1].id == id {
                return Some(&self.constants[i - 1].val);
            }
            i = i - 1;
        }
        None
    }

    /// The id of constant `c` in the table.
    fn const_id_of(&self, c: &SpirvConst) -> (r: Option<Word>)
        ensures
            r == self@.const_ids.get(c@),
    {
        let mut i = self.constants.len();
        let ghost s = self.constants@;
        proof {
            assert(s.subrange(0, s.len() as int) =~= s);
        }
        while i > 0
            invariant
                i <= s.len(),
                s == self.constants@,
                find_const_id(s, c@) == find_const_id(s.subrange(0, i as int), c@),
            decreases i,
        {
            let ghost pre = s.subrange(0, i as int);
            assert(pre.drop_last() =~= s.subrange(0, i - 1));
            if self.constants[i - 1].val.same_as(c) {
                return Some(self.constants[i - 1].id);
            }
            i = i - 1;
        }
        None
    }

    /// The variable with id `id`.
    pub fn lookup_global(&self, id: Word) -> (r: Option<GlobalVar>)
        ensures
            r == self@.globals.get(id),
    {
        let mut i = self.globals.len();
        let ghost s = self.globals@;
        proof {
            assert(s.subrange(0, s.len() as int) =~= s);
        }
        while i > 0
            invariant
                i <= s.len(),
                s == self.globals@,
                find_global(s, id) == find_global(s.subrange(0, i as int), id),
            decreases i,
        {
            let ghost pre = s.subrange(0, i as int);
            assert(pre.drop_last() =~= s.subrange(0, i - 1));
            if self.globals[i - 1].id == id {
                return Some(self.globals[i - 1]);
            }
            i = i - 1;
        }
        None
    }

    /// Defines type `ty` with the given layout, or finds it where it is
    /// already defined (its recorded layout then stays).
    pub fn def_type(&mut self, ty: SpirvType, size: Option<u64>, align: u64) -> (r: Result<
        Word,
        ConstError,
    >)
        requires
            old(self).wf(),
            align >= 1,
            layout_fits(ty@, size, align, old(self)@.pointer_size, old(self)@.pointer_align),
            components_below(ty@, old(self)@.next_id),
            refs_below(ty@, old(self)@.next_id),
        ensures
            final(self).wf(),
            match r {
                Ok(id) => {
                    &&& id == old(self)@.id_after_def(ty@)
                    &&& final(self)@ == old(self)@.after_def_type(ty@, size, align)
                },
                Err(e) => {
                    &&& e is IdsExhausted
                    &&& !old(self)@.type_ids.contains_key(ty@)
                    &&& old(self)@.next_id == u32::MAX
                    &&& final(self)@ == old(self)@
                },
            },
            r is Ok <==> (old(self)@.type_ids.contains_key(ty@) || old(self)@.next_id < u32::MAX),
    {
        match self.type_id_of(&ty) {
            Some(id) => {
                proof {
                    assert(old(self)@.after_def_type(ty@, size, align) == old(self)@);
                }
                Ok(id)
            },
            None => {
                if self.next_id == u32::MAX {
                    return Err(ConstError::IdsExhausted);
                }
                let id = self.next_id;
                let ghost old_types = self.types@;
                let ghost m = ty@;
                self.types.push(TypeEntry { id, ty, size, align });
                self.next_id = id + 1;
                proof {
                    let s = self.types@;
                    assert(s.drop_last() =~= old_types);
                    assert forall|k: Word| find_type(s, k) == (if k == id {
                        Some(TypeInfo { ty: m, size, align })
                    } else {
                        find_type(old_types, k)
                    }) by {}
                    assert forall|k: TypeModel| find_type_id(s, k) == (if k == m {
                        Some(id)
                    } else {
                        find_type_id(old_types, k)
                    }) by {}
                    assert(self@.types =~= old(self)@.types.insert(
                        id,
                        TypeInfo { ty: m, size, align },
                    ));
                    assert(self@.type_ids =~= old(self)@.type_ids.insert(m, id));
                    assert(self@.consts =~= old(self)@.consts);
                    assert(self@.const_ids =~= old(self)@.const_ids);
                    assert(self@.globals =~= old(self)@.globals);
                    lemma_def_type_wf(old(self)@, m, size, align);
                }
                Ok(id)
            },
        }
    }

    /// Defines constant `c`, or finds it where it is already defined.
    pub fn def_constant(&mut self, c: SpirvConst) -> (r: Result<SpirvValue, ConstError>)
        requires
            old(self).wf(),
        ensures
            final(self).wf(),
            match r {
                Ok(v) => {
                    &&& v.kind == SpirvValueKind::Def(old(self)@.const_id_after_def(c@))
                    &&& v.ty == c@.ty()
                    &&& final(self)@ == old(self)@.after_def_const(c@)
                },
                Err(e) => {
                    &&& e is IdsExhausted
                    &&& !old(self)@.const_ids.contains_key(c@)
                    &&& old(self)@.next_id == u32::MAX
                    &&& final(self)@ == old(self)@
                },
            },
            r is Ok <==> (old(self)@.const_ids.contains_key(c@) || old(self)@.next_id < u32::MAX),
    {
        let ty = c.ty();
        match self.const_id_of(&c) {
            Some(id) => {
                proof {
                    assert(old(self)@.after_def_const(c@) == old(self)@);
                }
                Ok(SpirvValue { kind: SpirvValueKind::Def(id), ty })
            },
            None => {
                if self.next_id == u32::MAX {
                    return Err(ConstError::IdsExhausted);
                }
                let id = self.next_id;
                let ghost old_consts = self.constants@;
                let ghost m = c@;
                self.constants.push(ConstEntry { id, val: c });
                self.next_id = id + 1;
                proof {
                    let s = self.constants@;
                    assert(s.drop_last() =~= old_consts);
                    assert forall|k: Word| find_const(s, k) == (if k == id {
                        Some(m)
                    } else {
                        find_const(old_consts, k)
                    }) by {}
                    assert forall|k: ConstModel| find_const_id(s, k) == (if k == m {
                        Some(id)
                    } else {
                        find_const_id(old_consts, k)
                    }) by {}
                    assert(self@.consts =~= old(self)@.consts.insert(id, m));
                    assert(self@.const_ids =~= old(self)@.const_ids.insert(m, id));
                    assert(self@.types =~= old(self)@.types);
                    assert(self@.type_ids =~= old(self)@.type_ids);
                    assert(self@.globals =~= old(self)@.globals);
                    lemma_def_const_wf(old(self)@, m);
                }
                Ok(SpirvValue { kind: SpirvValueKind::Def(id), ty })
            },
        }
    }

    /// The value of the integer constant with id `id`, widened to 64 bits.
    pub fn lookup_const_u64(&self, id: Word) -> (r: Option<u64>)
        ensures
            r == const_u64_value(self@.consts.get(id)),
    {
        match self.lookup_const(id) {
            Some(SpirvConst::U32(_, v)) => Some(*v as u64),
            Some(SpirvConst::U64(_, v)) => Some(*v),
            _ => None,
        }
    }

    /// Marks `id` as unusable with `reason`, in every crate.
    pub fn zombie_even_in_user_code(&mut self, id: Word, reason: ZombieReason)
        requires
            old(self).wf(),
        ensures
            final(self).wf(),
            final(self)@ == old(self)@.after_zombie(id, reason),
    {
        self.zombies.push(Zombie { id, reason });
        proof {
            lemma_zombie_wf(old(self)@, id, reason);
            assert(self@.types =~= old(self)@.types);
            assert(self@.type_ids =~= old(self)@.type_ids);
            assert(self@.consts =~= old(self)@.consts);
            assert(self@.const_ids =~= old(self)@.const_ids);
            assert(self@.globals =~= old(self)@.globals);
        }
    }

    /// Marks `id` as unusable with `reason` in a system crate; in a user crate
    /// raises `reason` as a diagnostic instead.
    pub fn zombie_no_span(&mut self, id: Word, reason: ZombieReason)
        requires
            old(self).wf(),
        ensures
            final(self).wf(),
            final(self)@ == old(self)@.after_zombie_no_span(id, reason),
    {
        if self.system_crate {
            self.zombie_even_in_user_code(id, reason);
        } else {
            self.diagnostics.push(reason);
            proof {
                lemma_zombie_wf(old(self)@, id, reason);
                assert(self@.types =~= old(self)@.types);
                assert(self@.type_ids =~= old(self)@.type_ids);
                assert(self@.consts =~= old(self)@.consts);
                assert(self@.const_ids =~= old(self)@.const_ids);
                assert(self@.globals =~= old(self)@.globals);
            }
        }
    }

    /// A pointer to a new variable of storage class `Function` initialized
    /// with `value`.
    pub fn make_constant_pointer(&mut self, value: SpirvValue) -> (r: Result<SpirvValue, ConstError>)
        requires
            old(self).wf(),
            value.ty < old(self)@.next_id,
        ensures
            final(self).wf(),
            final(self)@.extends(old(self)@),
            match r {
                Ok(p) => (p, final(self)@) == old(self)@.after_constant_pointer(value),
                Err(e) => e is IdsExhausted && final(self)@.next_id == u32::MAX,
            },
            old(self)@.next_id < u32::MAX - 1 ==> r is Ok,
            r is Ok <==> old(self)@.pointer_fits(value),
    {
        let ptr = SpirvType::Pointer { storage_class: STORAGE_CLASS_FUNCTION, pointee: value.ty };
        let psize = self.pointer_size;
        let palign = self.pointer_align;
        let ty = match self.def_type(ptr, Some(psize), palign) {
            Ok(ty) => ty,
            Err(e) => {
                proof {
                    lemma_extends_refl(old(self)@);
                }
                return Err(e);
            },
        };
        let initializer = value.def_cx();
        if self.next_id == u32::MAX {
            proof {
                lemma_def_type_wf(
                    old(self)@,
                    CxModel::function_pointer_to(value.ty),
                    Some(psize),
                    palign,
                );
            }
            return Err(ConstError::IdsExhausted);
        }
        let global_var = self.next_id;
        let ghost mid = self@;
        let ghost old_globals = self.globals@;
        let g = GlobalVar { id: global_var, ty, initializer };
        self.globals.push(g);
        self.next_id = global_var + 1;
        proof {
            let s = self.globals@;
            assert(s.drop_last() =~= old_globals);
            assert forall|k: Word| find_global(s, k) == (if k == global_var {
                Some(g)
            } else {
                find_global(old_globals, k)
            }) by {}
            assert(self@.globals =~= mid.globals.insert(global_var, g));
            assert(self@.types =~= mid.types);
            assert(self@.type_ids =~= mid.type_ids);
            assert(self@.consts =~= mid.consts);
            assert(self@.const_ids =~= mid.const_ids);
            lemma_def_type_wf(old(self)@, CxModel::function_pointer_to(value.ty), Some(psize), palign);
            lemma_extends_refl(mid);
            assert(!mid.globals.contains_key(global_var));
            assert(self@.extends(mid));
            lemma_extends_trans(old(self)@, mid, self@);
        }
        Ok(SpirvValue { kind: SpirvValueKind::ConstantPointer { initializer, global_var }, ty })
    }

    /// Registers a global allocation; its id is the number of allocations
    /// registered before it.
    pub fn add_global_alloc(&mut self, a: GlobalAlloc) -> (r: u64)
        requires
            old(self).wf(),
            alloc_ordered(a, old(self)@.allocs.len() as int),
            old(self)@.allocs.len() < u64::MAX,
        ensures
            final(self).wf(),
            r == old(self)@.allocs.len(),
            final(self)@ == (CxModel { allocs: old(self)@.allocs.push(a), ..old(self)@ }),
    {
        let r = self.global_allocs.len() as u64;
        self.global_allocs.push(a);
        proof {
            assert(self@.types =~= old(self)@.types);
            assert(self@.type_ids =~= old(self)@.type_ids);
            assert(self@.consts =~= old(self)@.consts);
            assert(self@.const_ids =~= old(self)@.const_ids);
            assert(self@.globals =~= old(self)@.globals);
        }
        r
    }

    /// The number of global allocations.
    pub fn global_alloc_count(&self) -> (r: u64)
        ensures
            r == self@.allocs.len(),
    {
        self.global_allocs.len() as u64
    }

    /// The global allocation with id `id`.
    pub fn global_alloc(&self, id: u64) -> (r: Option<&GlobalAlloc>)
        ensures
            match r {
                Some(a) => id < self@.allocs.len() && *a == self@.allocs[id as int],
                None => id >= self@.allocs.len(),
            },
    {
        if id < self.global_allocs.len() as u64 {
            Some(&self.global_allocs[id as usize])
        } else {
            None
        }
    }
}

} // verus!
