//! Constant memory: the bytes of an allocation, which of them are
//! initialized, and where pointers into other allocations are stored; and the
//! reading of a scalar out of such memory (little-endian).
use vstd::prelude::*;
use crate::types::SpirvValue;

verus! {

/// A pointer stored in an allocation: it starts at byte `offset` and points
/// into the global allocation `alloc_id`.
#[derive(Clone, Copy, Debug, PartialEq, Eq, Structural)]
pub struct Relocation {
    pub offset: u64,
    pub alloc_id: u64,
}

/// The contents of a constant allocation.
#[derive(Debug)]
pub struct ConstAllocation {
    pub bytes: Vec<u8>,
    /// One flag per byte: whether the byte is initialized.
    pub init_mask: Vec<bool>,
    pub relocations: Vec<Relocation>,
}

/// The mathematical content of a [`ConstAllocation`].
pub struct AllocView {
    pub bytes: Seq<u8>,
    pub init_mask: Seq<bool>,
    pub relocations: Seq<Relocation>,
}

impl View for ConstAllocation {
    type V = AllocView;

    open spec fn view(&self) -> AllocView {
        AllocView {
            bytes: self.bytes@,
            init_mask: self.init_mask@,
            relocations: self.relocations@,
        }
    }
}

/// What a global allocation id refers to. Functions and statics are known
/// by the pointer value that addresses them.
#[derive(Debug)]
pub enum GlobalAlloc {
    Memory(ConstAllocation),
    Function(SpirvValue),
    Static(SpirvValue),
}

/// A scalar read out of memory: plain bits of a given size in bytes, or a
/// pointer into a global allocation.
#[derive(Clone, Copy, Debug, PartialEq, Eq, Structural)]
pub enum Scalar {
    Int { data: u128, size: u8 },
    Ptr { alloc_id: u64, offset: u64 },
}

/// A scalar, or the mark that some of its bytes are uninitialized.
#[derive(Clone, Copy, Debug, PartialEq, Eq, Structural)]
pub enum ScalarMaybeUninit {
    Scalar(Scalar),
    Uninit,
}

/// `256` to the power `n`.
pub open spec fn pow256(n: nat) -> nat
    decreases n,
{
    if n == 0 {
        1
    } else {
        256 * pow256((n - 1) as nat)
    }
}

/// The unsigned number that `bytes` encode, least significant byte first.
pub open spec fn le_value(bytes: Seq<u8>) -> nat
    decreases bytes.len(),
{
    if bytes.len() == 0 {
        0
    } else {
        (bytes[0] as nat) + 256 * le_value(bytes.drop_first())
    }
}

/// The allocation id of the first relocation that starts at `offset`.
pub open spec fn reloc_at(rs: Seq<Relocation>, offset: u64) -> Option<u64>
    decreases rs.len(),
{
    if rs.len() == 0 {
        None
    } else if rs[0].offset == offset {
        Some(rs[0].alloc_id)
    } else {
        reloc_at(rs.drop_first(), offset)
    }
}

/// Whether a relocation starts in `[lo, hi)`.
pub open spec fn reloc_in(rs: Seq<Relocation>, lo: int, hi: int) -> bool {
    exists|i: int| 0 <= i < rs.len() && lo <= #[trigger] rs[i].offset < hi
}

/// The first byte at which a pointer of `psize` bytes that overlaps
/// position `o` can start.
pub open spec fn overlap_start(o: int, psize: int) -> int {
    if o >= psize - 1 {
        o - (psize - 1)
    } else {
        0
    }
}

impl ConstAllocation {
    /// One init flag per byte.
    pub open spec fn wf(&self) -> bool {
        self.init_mask.len() == self.bytes.len()
    }
}

/// Whether bytes `[o, o + s)` of `a` are all initialized.
pub open spec fn range_init(a: AllocView, o: int, s: int) -> bool {
    forall|i: int| o <= i < o + s ==> #[trigger] a.init_mask[i]
}

/// The result of reading a scalar of `s` bytes at offset `o` of `a` when
/// pointers are `psize` bytes: `None` where the read is refused (out of
/// bounds, or cutting through a stored pointer), `Uninit` where some byte
/// is uninitialized, a pointer where a pointer-sized read starts exactly at
/// a stored pointer, and the little-endian bits otherwise.
pub open spec fn read_scalar_spec(a: AllocView, o: u64, s: u64, psize: u64) -> Option<
    ScalarMaybeUninit,
> {
    let rs = a.relocations;
    if o + s > a.bytes.len() {
        None
    } else if reloc_in(rs, overlap_start(o as int, psize as int), o as int) || reloc_in(
        rs,
        overlap_start(o + s, psize as int),
        o + s,
    ) {
        None
    } else if !range_init(a, o as int, s as int) {
        Some(ScalarMaybeUninit::Uninit)
    } else {
        let bits = le_value(a.bytes.subrange(o as int, o + s));
        if s != psize {
            if reloc_in(rs, overlap_start(o as int, psize as int), o + s) {
                None
            } else {
                Some(ScalarMaybeUninit::Scalar(Scalar::Int { data: bits as u128, size: s as u8 }))
            }
        } else {
            match reloc_at(rs, o) {
                Some(id) => Some(
                    ScalarMaybeUninit::Scalar(Scalar::Ptr { alloc_id: id, offset: bits as u64 }),
                ),
                None => Some(
                    ScalarMaybeUninit::Scalar(Scalar::Int { data: bits as u128, size: s as u8 }),
                ),
            }
        }
    }
}

pub proof fn lemma_pow256_pos(n: nat)
    ensures
        pow256(n) >= 1,
    decreases n,
{
    if n > 0 {
        lemma_pow256_pos((n - 1) as nat);
    }
}

pub proof fn lemma_le_value_bound(bytes: Seq<u8>)
    ensures
        le_value(bytes) < pow256(bytes.len()),
    decreases bytes.len(),
{
    if bytes.len() > 0 {
        lemma_le_value_bound(bytes.drop_first());
    }
}

proof fn lemma_pow256_16()
    ensures
        pow256(16) == 0x1_0000_0000_0000_0000_0000_0000_0000_0000,
{
    reveal_with_fuel(pow256, 17);
}

pub proof fn lemma_pow256_mono(a: nat, b: nat)
    requires
        a <= b,
    ensures
        pow256(a) <= pow256(b),
    decreases b,
{
    if a < b {
        lemma_pow256_mono(a, (b - 1) as nat);
        lemma_pow256_pos((b - 1) as nat);
    }
}

/// A copy of `v`.
fn copy_vec<T: Copy>(v: &Vec<T>) -> (r: Vec<T>)
    ensures
        r@ == v@,
{
    let mut r: Vec<T> = Vec::new();
    let mut i: usize = 0;
    while i < v.len()
        invariant
            i <= v.len(),
            r@ == v@.subrange(0, i as int),
        decreases v.len() - i,
    {
        r.push(v[i]);
        i = i + 1;
    }
    assert(v@.subrange(0, v.len() as int) =~= v@);
    r
}

/// The number that bytes `[o, o + s)` encode, least significant first.
fn read_le(bytes: &Vec<u8>, o: usize, s: usize) -> (r: u128)
    requires
        o + s <= bytes.len(),
        s <= 16,
    ensures
        r == le_value(bytes@.subrange(o as int, o + s)),
{
    let mut acc: u128 = 0;
    let mut i: usize = s;
    proof {
        assert(bytes@.subrange(o + s, o + s).len() == 0);
    }
    while i > 0
        invariant
            i <= s,
            s <= 16,
            o + s <= bytes.len(),
            acc == le_value(bytes@.subrange(o + i, o + s)),
        decreases i,
    {
        let ghost tail = bytes@.subrange(o + i, o + s);
        let ghost longer = bytes@.subrange(o + i - 1, o + s);
        proof {
            assert(longer.drop_first() =~= tail);
            assert(longer[0] == bytes@[o + i - 1]);
            lemma_le_value_bound(longer);
            lemma_pow256_mono(longer.len(), 16);
            lemma_pow256_16();
            lemma_le_value_bound(tail);
        }
        let b = bytes[o + i - 1];
        acc = acc * 256 + (b as u128);
        i = i - 1;
    }
    acc
}

impl ConstAllocation {
    /// Reads a scalar of `s` bytes at offset `o`, with pointers of `psize`
    /// bytes; `None` where the read is refused.
    pub fn read_scalar(&self, o: u64, s: u64, psize: u64) -> (r: Option<ScalarMaybeUninit>)
        requires
            self.wf(),
            1 <= s <= 16,
            1 <= psize <= 16,
        ensures
            r == read_scalar_spec(self@, o, s, psize),
    {
        let len = self.bytes.len();
        if (o as u128) + (s as u128) > (len as u128) {
            return None;
        }
        let ou = o as usize;
        let su = s as usize;
        let start = if o >= psize - 1 {
            o - (psize - 1)
        } else {
            0
        };
        let end_start = if o + s >= psize - 1 {
            o + s - (psize - 1)
        } else {
            0
        };
        if self.has_relocation_in(start, o) || self.has_relocation_in(end_start, o + s) {
            return None;
        }
        if !self.is_range_init(ou, su) {
            return Some(ScalarMaybeUninit::Uninit);
        }
        let bits = read_le(&self.bytes, ou, su);
        if s != psize {
            if self.has_relocation_in(start, o + s) {
                None
            } else {
                Some(ScalarMaybeUninit::Scalar(Scalar::Int { data: bits, size: s as u8 }))
            }
        } else {
            match self.relocation_at(o) {
                Some(id) => {
                    Some(ScalarMaybeUninit::Scalar(Scalar::Ptr { alloc_id: id, offset: bits as u64 }))
                },
                None => Some(ScalarMaybeUninit::Scalar(Scalar::Int { data: bits, size: s as u8 })),
            }
        }
    }

    /// A copy of this allocation.
    pub fn duplicate(&self) -> (r: ConstAllocation)
        ensures
            r@ == self@,
            r.wf() == self.wf(),
    {
        ConstAllocation {
            bytes: copy_vec(&self.bytes),
            init_mask: copy_vec(&self.init_mask),
            relocations: copy_vec(&self.relocations),
        }
    }

    /// Whether a relocation starts in `[lo, hi)`.
    fn has_relocation_in(&self, lo: u64, hi: u64) -> (r: bool)
        ensures
            r == reloc_in(self.relocations@, lo as int, hi as int),
    {
        let mut i: usize = 0;
        while i < self.relocations.len()
            invariant
                i <= self.relocations.len(),
                forall|j: int|
                    0 <= j < i ==> !(lo <= #[trigger] self.relocations@[j].offset < hi),
            decreases self.relocations.len() - i,
        {
            let off = self.relocations[i].offset;
            if lo <= off && off < hi {
                assert(lo <= self.relocations@[i as int].offset < hi);
                return true;
            }
            i = i + 1;
        }
        false
    }

    /// The allocation id of the first relocation that starts at `offset`.
    fn relocation_at(&self, offset: u64) -> (r: Option<u64>)
        ensures
            r == reloc_at(self.relocations@, offset),
    {
        let mut i: usize = 0;
        let ghost rs = self.relocations@;
        proof {
            assert(rs.subrange(0, rs.len() as int) =~= rs);
        }
        while i < self.relocations.len()
            invariant
                i <= rs.len(),
                rs == self.relocations@,
                reloc_at(rs, offset) == reloc_at(rs.subrange(i as int, rs.len() as int), offset),
            decreases self.relocations.len() - i,
        {
            let ghost rest = rs.subrange(i as int, rs.len() as int);
            assert(rest.drop_first() =~= rs.subrange(i + 1, rs.len() as int));
            if self.relocations[i].offset == offset {
                return Some(self.relocations[i].alloc_id);
            }
            i = i + 1;
        }
        None
    }

    /// Whether bytes `[o, o + s)` are all initialized.
    fn is_range_init(&self, o: usize, s: usize) -> (r: bool)
        requires
            self.wf(),
            o + s <= self.bytes.len(),
        ensures
            r == range_init(self@, o as int, s as int),
    {
        let mut i: usize = o;
        while i < o + s
            invariant
                o <= i <= o + s,
                o + s <= self.init_mask.len(),
                forall|j: int| o <= j < i ==> #[trigger] self@.init_mask[j],
            decreases o + s - i,
        {
            if !self.init_mask[i] {
                assert(!self@.init_mask[i as int]);
                return false;
            }
            i = i + 1;
        }
        true
    }
}

} // verus!
