//! Side-by-side layout of an edit script: one row per displayed line, with long
//! runs of equal lines collapsed.
use crate::diff::DiffOp;
use vstd::prelude::*;

verus! {

/// Equal runs of at least twice this many lines keep this many at each end.
pub const MAX_SAME_BEFORE_COLLAPSE: usize = 15;

/// One cell of the layout.
#[derive(Debug, Clone, Copy, PartialEq, Eq)]
pub enum DiffCell<T> {
    /// Nothing on this side.
    Hidden,
    /// A run of equal lines left out.
    Collapsed,
    /// A line both sides share.
    Default(T),
    /// A line only the new side has.
    Insert(T),
    /// A line only the old side has.
    Delete(T),
}

/// Every step lies within the two sequences.
pub open spec fn ops_in_bounds(ops: Seq<DiffOp>, old_len: int, new_len: int) -> bool {
    forall|k: int| 0 <= k < ops.len() ==> {
        let op = #[trigger] ops[k];
        &&& 0 <= op.old_start() && op.old_start() + op.old_count() <= old_len
        &&& 0 <= op.new_start() && op.new_start() + op.new_count() <= new_len
    }
}

/// `n` rows of equal lines from `o` and `m` on.
pub open spec fn equal_rows<T>(old: Seq<T>, new: Seq<T>, o: int, m: int, n: int) -> Seq<(DiffCell<T>, DiffCell<T>)> {
    Seq::new(n as nat, |i: int| (DiffCell::Default(old[o + i]), DiffCell::Default(new[m + i])))
}

/// The rows of one step.
pub open spec fn rows_of<T>(old: Seq<T>, new: Seq<T>, op: DiffOp) -> Seq<(DiffCell<T>, DiffCell<T>)> {
    let k = MAX_SAME_BEFORE_COLLAPSE as int;
    match op {
        DiffOp::Equal { old_index, new_index, len } => {
            let (o, m, n) = (old_index as int, new_index as int, len as int);
            if n >= 2 * k {
                equal_rows(old, new, o, m, k) + seq![(DiffCell::Collapsed, DiffCell::Collapsed)] + equal_rows(
                    old,
                    new,
                    o + n - k,
                    m + n - k,
                    k,
                )
            } else {
                equal_rows(old, new, o, m, n)
            }
        },
        DiffOp::Delete { old_index, old_len, .. } => Seq::new(
            old_len as nat,
            |i: int| (DiffCell::Delete(old[old_index + i]), DiffCell::Hidden),
        ),
        DiffOp::Insert { new_index, new_len, .. } => Seq::new(
            new_len as nat,
            |i: int| (DiffCell::Hidden, DiffCell::Insert(new[new_index + i])),
        ),
        DiffOp::Replace { old_index, old_len, new_index, new_len } => Seq::new(
            (if old_len >= new_len { old_len } else { new_len }) as nat,
            |i: int|
                (
                    if i < old_len { DiffCell::Delete(old[old_index + i]) } else { DiffCell::Hidden },
                    if i < new_len { DiffCell::Insert(new[new_index + i]) } else { DiffCell::Hidden },
                ),
        ),
    }
}

/// The rows of the first `k` steps.
pub open spec fn layout<T>(old: Seq<T>, new: Seq<T>, ops: Seq<DiffOp>, k: int) -> Seq<(DiffCell<T>, DiffCell<T>)>
    decreases k,
{
    if k <= 0 {
        Seq::empty()
    } else {
        layout(old, new, ops, k - 1) + rows_of(old, new, ops[k - 1])
    }
}

/// A step that is not `Equal` shows each old line it covers in exactly one `Delete`
/// cell of the left column and each new line in exactly one `Insert` cell of the
/// right column, in order, and nothing else but `Hidden`.
pub proof fn lemma_layout_conservation<T>(old: Seq<T>, new: Seq<T>, op: DiffOp)
    requires
        !(op is Equal),
    ensures
        ({
            let rows = rows_of(old, new, op);
            &&& rows.len() == if op.old_count() >= op.new_count() { op.old_count() } else { op.new_count() }
            &&& forall|i: int| 0 <= i < rows.len() ==> (#[trigger] rows[i]).0 == if i < op.old_count() {
                DiffCell::Delete(old[op.old_start() + i])
            } else {
                DiffCell::Hidden
            }
            &&& forall|i: int| 0 <= i < rows.len() ==> (#[trigger] rows[i]).1 == if i < op.new_count() {
                DiffCell::Insert(new[op.new_start() + i])
            } else {
                DiffCell::Hidden
            }
        }),
{
}

fn push_equal<T: Copy>(
    cells: &mut Vec<(DiffCell<T>, DiffCell<T>)>,
    a: &[T],
    b: &[T],
    o: usize,
    m: usize,
    n: usize,
)
    requires
        o + n <= a@.len(),
        m + n <= b@.len(),
        a@.len() <= usize::MAX,
        b@.len() <= usize::MAX,
    ensures
        final(cells)@ == old(cells)@ + equal_rows(a@, b@, o as int, m as int, n as int),
{
    let ghost start = cells@;
    let mut i: usize = 0;
    while i < n
        invariant
            i <= n,
            o + n <= a@.len(),
            m + n <= b@.len(),
            a@.len() <= usize::MAX,
            b@.len() <= usize::MAX,
            cells@ == start + equal_rows(a@, b@, o as int, m as int, i as int),
        decreases n - i,
    {
        cells.push((DiffCell::Default(a[o + i]), DiffCell::Default(b[m + i])));
        assert(equal_rows(a@, b@, o as int, m as int, i + 1) =~= equal_rows(a@, b@, o as int, m as int, i as int).push(
            (DiffCell::Default(a@[o + i]), DiffCell::Default(b@[m + i])),
        ));
        i = i + 1;
    }
}

fn push_op<T: Copy>(cells: &mut Vec<(DiffCell<T>, DiffCell<T>)>, a: &[T], b: &[T], op: DiffOp)
    requires
        0 <= op.old_start() && op.old_start() + op.old_count() <= a@.len(),
        0 <= op.new_start() && op.new_start() + op.new_count() <= b@.len(),
        a@.len() <= usize::MAX,
        b@.len() <= usize::MAX,
    ensures
        final(cells)@ == old(cells)@ + rows_of(a@, b@, op),
{
    let ghost start = cells@;
    match op {
        DiffOp::Equal { old_index, new_index, len } => {
            if len >= MAX_SAME_BEFORE_COLLAPSE * 2 {
                push_equal(cells, a, b, old_index, new_index, MAX_SAME_BEFORE_COLLAPSE);
                cells.push((DiffCell::Collapsed, DiffCell::Collapsed));
                push_equal(
                    cells,
                    a,
                    b,
                    old_index + len - MAX_SAME_BEFORE_COLLAPSE,
                    new_index + len - MAX_SAME_BEFORE_COLLAPSE,
                    MAX_SAME_BEFORE_COLLAPSE,
                );
                assert(cells@ =~= start + rows_of(a@, b@, op));
            } else {
                push_equal(cells, a, b, old_index, new_index, len);
            }
        },
        DiffOp::Delete { old_index, old_len, .. } => {
            let mut i: usize = 0;
            while i < old_len
                invariant
                    i <= old_len,
                    old_index + old_len <= a@.len(),
                    a@.len() <= usize::MAX,
                    b@.len() <= usize::MAX,
                    cells@ == start + Seq::new(i as nat, |k: int| (DiffCell::Delete(a@[old_index + k]), DiffCell::<T>::Hidden)),
                decreases old_len - i,
            {
                cells.push((DiffCell::Delete(a[old_index + i]), DiffCell::Hidden));
                assert(Seq::new((i + 1) as nat, |k: int| (DiffCell::Delete(a@[old_index + k]), DiffCell::<T>::Hidden))
                    =~= Seq::new(i as nat, |k: int| (DiffCell::Delete(a@[old_index + k]), DiffCell::<T>::Hidden)).push(
                    (DiffCell::Delete(a@[old_index + i]), DiffCell::Hidden),
                ));
                i = i + 1;
            }
        },
        DiffOp::Insert { new_index, new_len, .. } => {
            let mut i: usize = 0;
            while i < new_len
                invariant
                    i <= new_len,
                    new_index + new_len <= b@.len(),
                    a@.len() <= usize::MAX,
                    b@.len() <= usize::MAX,
                    cells@ == start + Seq::new(i as nat, |k: int| (DiffCell::<T>::Hidden, DiffCell::Insert(b@[new_index + k]))),
                decreases new_len - i,
            {
                cells.push((DiffCell::Hidden, DiffCell::Insert(b[new_index + i])));
                assert(Seq::new((i + 1) as nat, |k: int| (DiffCell::<T>::Hidden, DiffCell::Insert(b@[new_index + k])))
                    =~= Seq::new(i as nat, |k: int| (DiffCell::<T>::Hidden, DiffCell::Insert(b@[new_index + k]))).push(
                    (DiffCell::Hidden, DiffCell::Insert(b@[new_index + i])),
                ));
                i = i + 1;
            }
        },
        DiffOp::Replace { old_index, old_len, new_index, new_len } => {
            let rows: usize = if old_len >= new_len { old_len } else { new_len };
            let ghost f = |k: int|
                (
                    if k < old_len { DiffCell::Delete(a@[old_index + k]) } else { DiffCell::Hidden },
                    if k < new_len { DiffCell::Insert(b@[new_index + k]) } else { DiffCell::Hidden },
                );
            let mut i: usize = 0;
            while i < rows
                invariant
                    i <= rows,
                    rows == if old_len >= new_len { old_len } else { new_len },
                    old_index + old_len <= a@.len(),
                    a@.len() <= usize::MAX,
                    b@.len() <= usize::MAX,
                    new_index + new_len <= b@.len(),
                    a@.len() <= usize::MAX,
                    b@.len() <= usize::MAX,
                    f == (|k: int|
                        (
                            if k < old_len { DiffCell::Delete(a@[old_index + k]) } else { DiffCell::Hidden },
                            if k < new_len { DiffCell::Insert(b@[new_index + k]) } else { DiffCell::Hidden },
                        )),
                    cells@ == start + Seq::new(i as nat, f),
                decreases rows - i,
            {
                let left = if i < old_len { DiffCell::Delete(a[old_index + i]) } else { DiffCell::Hidden };
                let right = if i < new_len { DiffCell::Insert(b[new_index + i]) } else { DiffCell::Hidden };
                cells.push((left, right));
                assert(Seq::new((i + 1) as nat, f) =~= Seq::new(i as nat, f).push((left, right)));
                i = i + 1;
            }
        },
    }
}

/// Lays out two sequences side by side along an edit script. An `Equal` step of
/// at least `2 * MAX_SAME_BEFORE_COLLAPSE` lines shows only that many lines at each
/// end, around one collapsed row; a `Delete` step shows its old lines on the left,
/// an `Insert` step its new lines on the right, and a `Replace` step pairs them up,
/// the shorter side padded with hidden cells.
pub fn build<T: Copy>(old: &[T], new: &[T], diff_ops: &[DiffOp]) -> (r: Vec<(DiffCell<T>, DiffCell<T>)>)
    requires
        ops_in_bounds(diff_ops@, old@.len() as int, new@.len() as int),
    ensures
        r@ == layout(old@, new@, diff_ops@, diff_ops@.len() as int),
{
    let mut cells: Vec<(DiffCell<T>, DiffCell<T>)> = Vec::new();
    let old_len = old.len();
    let new_len = new.len();
    let mut k: usize = 0;
    while k < diff_ops.len()
        invariant
            k <= diff_ops@.len(),
            ops_in_bounds(diff_ops@, old@.len() as int, new@.len() as int),
            old_len == old@.len(),
            new_len == new@.len(),
            cells@ == layout(old@, new@, diff_ops@, k as int),
        decreases diff_ops@.len() - k,
    {
        let op = diff_ops[k];
        assert(diff_ops@[k as int] == op);
        push_op(&mut cells, old, new, op);
        k = k + 1;
    }
    cells
}

} // verus!
