//! Offsets and alignment: rounding an offset up to an alignment, and the
//! layout of a struct whose fields are laid out one after the other, each at
//! its own alignment.
use vstd::prelude::*;
use crate::cx::{CodegenCx, CxModel, TypeInfo};
use crate::types::Word;

verus! {

/// `x` rounded up to a multiple of `a`.
pub open spec fn align_up(x: int, a: int) -> int {
    if x % a == 0 {
        x
    } else {
        x + (a - x % a)
    }
}

/// `x` rounded up to a multiple of `a`.
pub fn align_to(x: u64, a: u64) -> (r: u64)
    requires
        a >= 1,
        align_up(x as int, a as int) <= u64::MAX,
    ensures
        r == align_up(x as int, a as int),
{
    let m = x % a;
    if m == 0 {
        x
    } else {
        x + (a - m)
    }
}

/// Rounding up gives the smallest multiple of `a` that is at least `x`.
pub proof fn lemma_align_up(x: int, a: int)
    requires
        a >= 1,
        x >= 0,
    ensures
        x <= align_up(x, a) < x + a,
        align_up(x, a) % a == 0,
        x % a == 0 ==> align_up(x, a) == x,
{
    if x % a != 0 {
        vstd::arithmetic::div_mod::lemma_fundamental_div_mod(x, a);
        vstd::arithmetic::div_mod::lemma_mod_multiples_basic(x / a + 1, a);
        assert(x + (a - x % a) == a * (x / a + 1)) by (nonlinear_arith)
            requires
                x == a * (x / a) + x % a,
        ;
        assert((a * (x / a + 1)) % a == 0) by {
            vstd::arithmetic::div_mod::lemma_mod_multiples_basic(x / a + 1, a);
            vstd::arithmetic::mul::lemma_mul_is_commutative(a, x / a + 1);
        }
    }
}

/// The layout of the first `k` fields of a struct with field types
/// `fields`: the offsets of those fields, where the next field would start
/// (none after an unsized field), and the largest alignment so far.
pub open spec fn struct_layout_prefix(types: Map<Word, TypeInfo>, fields: Seq<Word>, k: nat) -> (
    Seq<u64>,
    Option<int>,
    u64,
)
    decreases k,
{
    if k == 0 || k > fields.len() {
        (Seq::empty(), Some(0), 1)
    } else {
        let (offsets, end, max_align) = struct_layout_prefix(types, fields, (k - 1) as nat);
        let info = types[fields[k - 1]];
        let this_offset = align_up(end.unwrap_or(0), info.align as int);
        (
            offsets.push(this_offset as u64),
            match info.size {
                Some(s) => Some(this_offset + s),
                None => None,
            },
            if info.align > max_align {
                info.align
            } else {
                max_align
            },
        )
    }
}

/// The layout of a struct with field types `fields`: field offsets, the
/// size (the end of the last field rounded up to the struct's alignment;
/// none if the last field is unsized) and the alignment (the largest field
/// alignment, at least 1).
pub open spec fn struct_layout(types: Map<Word, TypeInfo>, fields: Seq<Word>) -> (
    Seq<u64>,
    Option<u64>,
    u64,
) {
    let (offsets, end, max_align) = struct_layout_prefix(types, fields, fields.len());
    (
        offsets,
        match end {
            Some(e) => Some(align_up(e, max_align as int) as u64),
            None => None,
        },
        max_align,
    )
}

/// Whether a struct with field types `fields` can be laid out: every field
/// type is defined, only the last field may be unsized, and every offset
/// and the size fit in 64 bits.
pub open spec fn struct_layout_ok(types: Map<Word, TypeInfo>, fields: Seq<Word>) -> bool {
    &&& forall|k: int| 0 <= k < fields.len() ==> #[trigger] types.contains_key(fields[k])
    &&& forall|k: int| #![trigger fields[k]]
        0 <= k < fields.len() ==> {
            let (_, end, _) = struct_layout_prefix(types, fields, k as nat);
            let info = types[fields[k]];
            &&& k < fields.len() - 1 ==> info.size is Some
            &&& align_up(end.unwrap_or(0), info.align as int) + info.size.unwrap_or(0) <= u64::MAX
        }
    &&& ({
        let (_, end, max_align) = struct_layout_prefix(types, fields, fields.len());
        end is Some ==> align_up(end.unwrap(), max_align as int) <= u64::MAX
    })
}

proof fn lemma_prefix_facts(m: CxModel, fields: Seq<Word>, k: nat)
    requires
        m.wf(),
        struct_layout_ok(m.types, fields),
        k <= fields.len(),
    ensures
        ({
            let (offsets, end, max_align) = struct_layout_prefix(m.types, fields, k);
            &&& offsets.len() == k
            &&& max_align >= 1
            &&& (k < fields.len() ==> end is Some)
            &&& (end is Some ==> 0 <= end.unwrap() <= u64::MAX)
        }),
    decreases k,
{
    if k > 0 {
        lemma_prefix_facts(m, fields, (k - 1) as nat);
        let (_, end, _) = struct_layout_prefix(m.types, fields, (k - 1) as nat);
        let info = m.types[fields[k - 1]];
        assert(m.types.contains_key(fields[k - 1]));
        lemma_align_up(end.unwrap(), info.align as int);
        assert(fields[k - 1] == fields[(k - 1) as int]);
    }
}

/// Whether every field type of `fields` is defined with an alignment of at
/// least 1.
pub open spec fn fields_aligned(types: Map<Word, TypeInfo>, fields: Seq<Word>) -> bool {
    forall|j: int| 0 <= j < fields.len() ==> types.contains_key(#[trigger] fields[j]) && types[fields[j]].align >= 1
}

/// One field more: the new field starts at a multiple of its alignment, at
/// or after the end of the previous fields.
proof fn lemma_prefix_step(types: Map<Word, TypeInfo>, fields: Seq<Word>, k: nat)
    requires
        0 < k <= fields.len(),
        types[fields[k - 1]].align >= 1,
        struct_layout_prefix(types, fields, (k - 1) as nat).1 is Some,
        struct_layout_prefix(types, fields, (k - 1) as nat).1.unwrap() >= 0,
        struct_layout_prefix(types, fields, (k - 1) as nat).0.len() == k - 1,
        align_up(
            struct_layout_prefix(types, fields, (k - 1) as nat).1.unwrap(),
            types[fields[k - 1]].align as int,
        ) + types[fields[k - 1]].size.unwrap_or(0) <= u64::MAX,
    ensures
        ({
            let (offs0, end0, ma0) = struct_layout_prefix(types, fields, (k - 1) as nat);
            let (offs, end, ma) = struct_layout_prefix(types, fields, k);
            let info = types[fields[k - 1]];
            &&& offs == offs0.push(offs[k - 1])
            &&& offs.len() == offs0.len() + 1
            &&& end0.unwrap() <= offs[k - 1] as int
            &&& (offs[k - 1] as int) % (info.align as int) == 0
            &&& ma >= ma0
            &&& ma >= info.align
            &&& end == match info.size {
                Some(s) => Some(offs[k - 1] + s),
                None => None,
            }
        }),
{
    let (offs0, end0, ma0) = struct_layout_prefix(types, fields, (k - 1) as nat);
    let info = types[fields[k - 1]];
    lemma_align_up(end0.unwrap(), info.align as int);
    let this = align_up(end0.unwrap_or(0), info.align as int);
    assert(0 <= this <= u64::MAX);
    let (offs, end, ma) = struct_layout_prefix(types, fields, k);
    assert(offs == offs0.push(this as u64));
    assert(offs[k - 1] == this as u64);
    assert(offs[k - 1] as int == this);
}

/// What the first `k` fields of a laid-out struct satisfy: each field at a
/// multiple of its alignment, no field before the end of the previous one,
/// the struct's alignment at least each field's, and `end` the end of the
/// last field.
#[verifier::spinoff_prover]
pub proof fn lemma_prefix_layout(types: Map<Word, TypeInfo>, fields: Seq<Word>, k: nat)
    requires
        fields_aligned(types, fields),
        struct_layout_ok(types, fields),
        k <= fields.len(),
    ensures
        ({
            let (offs, end, ma) = struct_layout_prefix(types, fields, k);
            &&& offs.len() == k
            &&& ma >= 1
            &&& forall|j: int| 0 <= j < k ==> (#[trigger] offs[j] as int) % (types[fields[j]].align as int)
                == 0
            &&& forall|j: int| 0 <= j < k ==> types[#[trigger] fields[j]].align <= ma
            &&& forall|j: int|
                0 <= j && j + 1 < k ==> #[trigger] offs[j] + types[fields[j]].size.unwrap() <= offs[j
                    + 1]
            &&& (k > 0 ==> end == match types[fields[k - 1]].size {
                Some(s) => Some(offs[k - 1] + s),
                None => None,
            })
            &&& (k == 0 ==> end == Some(0int))
            &&& (k < fields.len() ==> end is Some)
            &&& (end is Some ==> end.unwrap() >= 0)
        }),
    decreases k,
{
    if k > 0 {
        lemma_prefix_layout(types, fields, (k - 1) as nat);
        assert(fields[(k - 1) as int] == fields[k - 1]);
        assert(types.contains_key(fields[(k - 1) as int]));
        lemma_prefix_step(types, fields, k);
        let (offs0, end0, ma0) = struct_layout_prefix(types, fields, (k - 1) as nat);
        let (offs, end, ma) = struct_layout_prefix(types, fields, k);
        assert forall|j: int| 0 <= j < k implies (#[trigger] offs[j] as int) % (
        types[fields[j]].align as int) == 0 by {
            if j < k - 1 {
                assert(offs[j] == offs0[j]);
            }
        }
        assert forall|j: int| 0 <= j && j + 1 < k implies #[trigger] offs[j]
            + types[fields[j]].size.unwrap() <= offs[j + 1] by {
            assert(offs[j] == offs0[j]);
            if j + 2 < k {
                assert(offs[j + 1] == offs0[j + 1]);
            } else {
                if k >= 2 {
                    assert(fields[(k - 2) as int] == fields[j]);
                    assert(types[fields[(k - 2) as int]].size is Some);
                }
            }
        }
        assert forall|j: int| 0 <= j < k implies types[#[trigger] fields[j]].align <= ma by {
            if j < k - 1 {
                assert(types[fields[j]].align <= ma0);
            }
        }
        if k < fields.len() {
            assert(types[fields[(k - 1) as int]].size is Some);
        }
    }
}

/// The first `k` fields of a laid-out struct, exactly: the first field at 0,
/// each next field at the end of the previous one rounded up to its own
/// alignment, and the alignment so far the largest field alignment (1 for no
/// fields).
pub proof fn lemma_prefix_exact(types: Map<Word, TypeInfo>, fields: Seq<Word>, k: nat)
    requires
        fields_aligned(types, fields),
        struct_layout_ok(types, fields),
        k <= fields.len(),
    ensures
        ({
            let (offs, end, ma) = struct_layout_prefix(types, fields, k);
            &&& k > 0 ==> offs[0] == 0
            &&& forall|j: int|
                0 <= j && j + 1 < k ==> #[trigger] offs[j + 1] as int == align_up(
                    offs[j] + types[fields[j]].size.unwrap(),
                    types[fields[j + 1]].align as int,
                )
            &&& ma == 1 || exists|j: int| 0 <= j < k && ma == types[#[trigger] fields[j]].align
        }),
    decreases k,
{
    lemma_prefix_layout(types, fields, k);
    if k > 0 {
        lemma_prefix_exact(types, fields, (k - 1) as nat);
        lemma_prefix_layout(types, fields, (k - 1) as nat);
        assert(types.contains_key(fields[(k - 1) as int]));
        lemma_prefix_step(types, fields, k);
        let (offs0, end0, ma0) = struct_layout_prefix(types, fields, (k - 1) as nat);
        let (offs, end, ma) = struct_layout_prefix(types, fields, k);
        let info = types[fields[k - 1]];
        assert(offs[k - 1] as int == align_up(end0.unwrap_or(0), info.align as int));
        if k == 1 {
            lemma_align_up(0, info.align as int);
        }
        assert forall|j: int|
            0 <= j && j + 1 < k implies #[trigger] offs[j + 1] as int == align_up(
            offs[j] + types[fields[j]].size.unwrap(),
            types[fields[j + 1]].align as int,
        ) by {
            assert(offs[j] == offs0[j]);
            if j + 2 < k {
                assert(offs[j + 1] == offs0[j + 1]);
            } else {
                assert(types[fields[(k - 2) as int]].size is Some);
            }
        }
        if !(ma == 1) {
            if ma == info.align {
                assert(ma == types[fields[k - 1]].align);
            } else {
                assert(ma == ma0);
                let j = choose|j: int| 0 <= j < k - 1 && ma0 == types[#[trigger] fields[j]].align;
                assert(ma == types[fields[j]].align);
            }
        }
    }
}

impl CodegenCx {
    /// Lays out a struct with field types `field_types` one field after the
    /// other: see [`struct_layout`].
    pub fn auto_struct_layout(&self, field_types: &[Word]) -> (r: (Vec<u64>, Option<u64>, u64))
        requires
            self.wf(),
            struct_layout_ok(self@.types, field_types@),
        ensures
            (r.0@, r.1, r.2) == struct_layout(self@.types, field_types@),
            r.2 >= 1,
    {
        let ghost fields = field_types@;
        let ghost types = self@.types;
        let mut field_offsets: Vec<u64> = Vec::new();
        let mut offset: Option<u64> = Some(0);
        let mut max_align: u64 = 1;
        let mut i: usize = 0;
        while i < field_types.len()
            invariant
                self.wf(),
                fields == field_types@,
                types == self@.types,
                struct_layout_ok(types, fields),
                i <= fields.len(),
                ({
                    let (offs, end, ma) = struct_layout_prefix(types, fields, i as nat);
                    &&& field_offsets@ == offs
                    &&& ma == max_align
                    &&& match end {
                        Some(e) => offset == Some(e as u64) && 0 <= e <= u64::MAX,
                        None => offset is None,
                    }
                }),
                i < fields.len() ==> offset is Some,
            decreases field_types.len() - i,
        {
            proof {
                lemma_prefix_facts(self@, fields, i as nat);
                lemma_prefix_facts(self@, fields, (i + 1) as nat);
                assert(types.contains_key(fields[i as int]));
            }
            let entry = self.lookup_type(field_types[i]).unwrap();
            let field_align = entry.align;
            let field_size = entry.size;
            let start = match offset {
                Some(o) => o,
                None => 0,
            };
            let this_offset = align_to(start, field_align);
            field_offsets.push(this_offset);
            if field_align > max_align {
                max_align = field_align;
            }
            offset = match field_size {
                Some(s) => Some(this_offset + s),
                None => None,
            };
            i = i + 1;
            proof {
                let (offs, end, ma) = struct_layout_prefix(types, fields, i as nat);
                assert(fields[(i - 1) as int] == field_types@[(i - 1) as int]);
            }
        }
        proof {
            lemma_prefix_facts(self@, fields, fields.len());
        }
        let size = match offset {
            Some(o) => Some(align_to(o, max_align)),
            None => None,
        };
        (field_offsets, size, max_align)
    }
}

} // verus!
