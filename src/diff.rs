//! Edit scripts between two instruction streams, computed with Myers' algorithm
//! over the instructions' structural keys.
use crate::instruction_wrapper::{equivalent, operand_kinds, InstructionShape, InstructionWrapper, OP_KIND_REGISTER};
use vstd::prelude::*;

verus! {

/// One step of an edit script; indices point into the old and the new sequence.
#[derive(Debug, Clone, Copy, PartialEq, Eq, Structural)]
pub enum DiffOp {
    Equal { old_index: usize, new_index: usize, len: usize },
    Delete { old_index: usize, old_len: usize, new_index: usize },
    Insert { old_index: usize, new_index: usize, new_len: usize },
    Replace { old_index: usize, old_len: usize, new_index: usize, new_len: usize },
}

impl DiffOp {
    pub open spec fn old_start(self) -> int {
        match self {
            DiffOp::Equal { old_index, .. } => old_index as int,
            DiffOp::Delete { old_index, .. } => old_index as int,
            DiffOp::Insert { old_index, .. } => old_index as int,
            DiffOp::Replace { old_index, .. } => old_index as int,
        }
    }

    pub open spec fn new_start(self) -> int {
        match self {
            DiffOp::Equal { new_index, .. } => new_index as int,
            DiffOp::Delete { new_index, .. } => new_index as int,
            DiffOp::Insert { new_index, .. } => new_index as int,
            DiffOp::Replace { new_index, .. } => new_index as int,
        }
    }

    /// How many old elements the step covers.
    pub open spec fn old_count(self) -> int {
        match self {
            DiffOp::Equal { len, .. } => len as int,
            DiffOp::Delete { old_len, .. } => old_len as int,
            DiffOp::Insert { .. } => 0,
            DiffOp::Replace { old_len, .. } => old_len as int,
        }
    }

    /// How many new elements the step covers.
    pub open spec fn new_count(self) -> int {
        match self {
            DiffOp::Equal { len, .. } => len as int,
            DiffOp::Delete { .. } => 0,
            DiffOp::Insert { new_len, .. } => new_len as int,
            DiffOp::Replace { new_len, .. } => new_len as int,
        }
    }
}

/// Old elements covered by the first `k` steps.
pub open spec fn old_covered(ops: Seq<DiffOp>, k: int) -> int
    decreases k,
{
    if k <= 0 {
        0
    } else {
        old_covered(ops, k - 1) + ops[k - 1].old_count()
    }
}

/// New elements covered by the first `k` steps.
pub open spec fn new_covered(ops: Seq<DiffOp>, k: int) -> int
    decreases k,
{
    if k <= 0 {
        0
    } else {
        new_covered(ops, k - 1) + ops[k - 1].new_count()
    }
}

pub proof fn lemma_covered_monotone(ops: Seq<DiffOp>, k: int, m: int)
    requires
        0 <= k <= m <= ops.len(),
    ensures
        old_covered(ops, k) + (if k < m { ops[k].old_count() } else { 0 }) <= old_covered(ops, m),
        new_covered(ops, k) + (if k < m { ops[k].new_count() } else { 0 }) <= new_covered(ops, m),
    decreases m - k,
{
    if k < m {
        lemma_covered_monotone(ops, k + 1, m);
        assert(old_covered(ops, k + 1) == old_covered(ops, k) + ops[k].old_count());
        assert(new_covered(ops, k + 1) == new_covered(ops, k) + ops[k].new_count());
        if k + 1 < m {
            assert(ops[k + 1].old_count() >= 0 && ops[k + 1].new_count() >= 0);
        }
    }
}

/// `ops` walks `old` and `new` from start to end, each step starting where the
/// steps before it stopped, and every `Equal` step pairs equal elements.
pub open spec fn is_edit_script<T>(ops: Seq<DiffOp>, old: Seq<T>, new: Seq<T>) -> bool {
    &&& forall|k: int| 0 <= k < ops.len() ==> #[trigger] ops[k].old_start() == old_covered(ops, k)
        && ops[k].new_start() == new_covered(ops, k)
    &&& old_covered(ops, ops.len() as int) == old.len()
    &&& new_covered(ops, ops.len() as int) == new.len()
    &&& forall|k: int| 0 <= k < ops.len() && (#[trigger] ops[k]) is Equal ==> forall|j: int|
        0 <= j < ops[k].old_count() ==> #[trigger] old[ops[k].old_start() + j] == new[ops[k].new_start() + j]
}

/// The steps that `similar`'s Myers diff returns for two sequences of keys.
pub uninterp spec fn myers_ops(old: Seq<Seq<u32>>, new: Seq<Seq<u32>>) -> Seq<DiffOp>;

pub open spec fn key_views(keys: Seq<Vec<u32>>) -> Seq<Seq<u32>> {
    keys.map_values(|k: Vec<u32>| k@)
}

/// Relies on `similar::capture_diff_slices` with `Algorithm::Myers`: a deterministic
/// diff of the two slices, whose steps cover both from start to end in order and
/// whose `Equal` steps pair equal elements. Each step is taken over field by field.
#[verifier::external_body]
fn capture_myers(old: &[Vec<u32>], new: &[Vec<u32>]) -> (r: Vec<DiffOp>)
    ensures
        r@ == myers_ops(key_views(old@), key_views(new@)),
        is_edit_script(r@, key_views(old@), key_views(new@)),
{
    similar::capture_diff_slices(similar::Algorithm::Myers, old, new).into_iter().map(|op| match op {
        similar::DiffOp::Equal { old_index, new_index, len } => DiffOp::Equal { old_index, new_index, len },
        similar::DiffOp::Delete { old_index, old_len, new_index } => DiffOp::Delete { old_index, old_len, new_index },
        similar::DiffOp::Insert { old_index, new_index, new_len } => DiffOp::Insert { old_index, new_index, new_len },
        similar::DiffOp::Replace { old_index, old_len, new_index, new_len } =>
            DiffOp::Replace { old_index, old_len, new_index, new_len },
    }).collect()
}

/// The register that the key records for operand `i`: its register when it is a
/// register operand, else 0.
pub open spec fn key_register(s: InstructionShape, i: int) -> u32 {
    if operand_kinds(s)[i] == OP_KIND_REGISTER {
        s.op_registers@[i] as u32
    } else {
        0
    }
}

/// The structural key of an instruction: its code, its operand count, its operand
/// kinds and, per operand, its register when it is a register operand.
pub open spec fn structural_key(s: InstructionShape) -> Seq<u32> {
    let kinds = operand_kinds(s);
    seq![s.code as u32, kinds.len() as u32] + kinds.map_values(|k: u8| k as u32) + Seq::new(
        kinds.len(),
        |i: int| key_register(s, i),
    )
}

/// Two instructions have the same key exactly when they are structurally equivalent.
pub proof fn lemma_key_iff_equivalent(a: InstructionShape, b: InstructionShape)
    ensures
        structural_key(a) == structural_key(b) <==> equivalent(a, b),
{
    let ka = operand_kinds(a);
    let kb = operand_kinds(b);
    assert(ka.len() <= 5 && kb.len() <= 5);
    if structural_key(a) == structural_key(b) {
        assert(structural_key(a)[0] == structural_key(b)[0]);
        assert(structural_key(a)[1] == structural_key(b)[1]);
        assert(ka.len() == kb.len());
        let n = ka.len() as int;
        assert forall|i: int| 0 <= i < n implies ka[i] == kb[i] by {
            assert(structural_key(a)[2 + i] == structural_key(b)[2 + i]);
        }
        assert(ka =~= kb);
        assert forall|i: int| 0 <= i < n && #[trigger] ka[i] == OP_KIND_REGISTER implies a.op_registers@[i]
            == b.op_registers@[i] by {
            assert(structural_key(a)[2 + n + i] == structural_key(b)[2 + n + i]);
        }
    }
    if equivalent(a, b) {
        assert(structural_key(a) =~= structural_key(b));
    }
}

/// Computes the structural key of an instruction.
pub fn key_of(w: &InstructionWrapper) -> (r: Vec<u32>)
    ensures
        r@ == structural_key(w.shape),
{
    let s = &w.shape;
    let n: usize = if s.op_count <= 5 { s.op_count as usize } else { 5 };
    let mut key: Vec<u32> = Vec::new();
    key.push(s.code as u32);
    key.push(n as u32);
    let mut i: usize = 0;
    while i < n
        invariant
            i <= n <= 5,
            *s == w.shape,
            n == operand_kinds(*s).len(),
            key@ == seq![s.code as u32, n as u32] + operand_kinds(*s).take(i as int).map_values(|k: u8| k as u32),
        decreases n - i,
    {
        key.push(s.op_kinds[i] as u32);
        assert(operand_kinds(*s).take(i + 1) =~= operand_kinds(*s).take(i as int).push(s.op_kinds@[i as int]));
        i = i + 1;
    }
    assert(operand_kinds(*s).take(n as int) =~= operand_kinds(*s));
    let ghost kinds_part = key@;
    let mut j: usize = 0;
    while j < n
        invariant
            j <= n <= 5,
            *s == w.shape,
            n == operand_kinds(*s).len(),
            key@ == kinds_part + Seq::new(j as nat, |i: int| key_register(*s, i)),
        decreases n - j,
    {
        let r: u32 = if s.op_kinds[j] == OP_KIND_REGISTER { s.op_registers[j] as u32 } else { 0 };
        assert(operand_kinds(*s)[j as int] == s.op_kinds@[j as int]);
        key.push(r);
        assert(Seq::new((j + 1) as nat, |i: int| key_register(*s, i)) =~= Seq::new(j as nat, |i: int| key_register(*s, i)).push(r));
        j = j + 1;
    }
    assert(key@ =~= structural_key(w.shape));
    key
}

/// The keys of a stream of instructions.
pub fn keys_of(v: &Vec<InstructionWrapper>) -> (r: Vec<Vec<u32>>)
    ensures
        key_views(r@) == v@.map_values(|w: InstructionWrapper| structural_key(w.shape)),
{
    let mut out: Vec<Vec<u32>> = Vec::new();
    let mut i: usize = 0;
    while i < v.len()
        invariant
            i <= v@.len(),
            key_views(out@) == v@.take(i as int).map_values(|w: InstructionWrapper| structural_key(w.shape)),
        decreases v@.len() - i,
    {
        let k = key_of(&v[i]);
        let ghost prev = out@;
        out.push(k);
        assert(key_views(out@) =~= key_views(prev).push(k@));
        assert(v@.take(i + 1) =~= v@.take(i as int).push(v@[i as int]));
        i = i + 1;
    }
    assert(v@.take(v@.len() as int) =~= v@);
    out
}

/// The Myers diff of two instruction streams under structural equivalence.
pub fn diff_instructions(old: &Vec<InstructionWrapper>, new: &Vec<InstructionWrapper>) -> (r: Vec<DiffOp>)
    ensures
        r@ == myers_ops(
            old@.map_values(|w: InstructionWrapper| structural_key(w.shape)),
            new@.map_values(|w: InstructionWrapper| structural_key(w.shape)),
        ),
        forall|k: int| 0 <= k < r@.len() ==> #[trigger] r@[k].old_start() == old_covered(r@, k)
            && r@[k].new_start() == new_covered(r@, k),
        old_covered(r@, r@.len() as int) == old@.len(),
        new_covered(r@, r@.len() as int) == new@.len(),
        forall|k: int| 0 <= k < r@.len() && (#[trigger] r@[k]) is Equal ==> forall|j: int|
            0 <= j < r@[k].old_count() ==> equivalent(#[trigger] old@[r@[k].old_start() + j].shape,
            new@[r@[k].new_start() + j].shape),
{
    let k1 = keys_of(old);
    let k2 = keys_of(new);
    let ops = capture_myers(k1.as_slice(), k2.as_slice());
    proof {
        let a = old@.map_values(|w: InstructionWrapper| structural_key(w.shape));
        let b = new@.map_values(|w: InstructionWrapper| structural_key(w.shape));
        assert forall|k: int| 0 <= k < ops@.len() && (#[trigger] ops@[k]) is Equal implies forall|j: int|
            0 <= j < ops@[k].old_count() ==> equivalent(#[trigger] old@[ops@[k].old_start() + j].shape,
            new@[ops@[k].new_start() + j].shape) by {
            lemma_covered_monotone(ops@, k, ops@.len() as int);
            assert forall|j: int| 0 <= j < ops@[k].old_count() implies equivalent(
                #[trigger] old@[ops@[k].old_start() + j].shape, new@[ops@[k].new_start() + j].shape) by {
                assert(a[ops@[k].old_start() + j] == b[ops@[k].new_start() + j]);
                lemma_key_iff_equivalent(old@[ops@[k].old_start() + j].shape, new@[ops@[k].new_start() + j].shape);
            }
        }
    }
    ops
}

} // verus!
