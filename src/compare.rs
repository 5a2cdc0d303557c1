//! Deciding, for a pair of functions, whether their code changed, and with what
//! edit script between their instruction streams.
use crate::diff::{diff_instructions, lemma_covered_monotone, myers_ops, new_covered, old_covered, structural_key, DiffOp};
use crate::split_diff::{build, layout, ops_in_bounds, DiffCell};
use crate::instruction_wrapper::{
    decode_all, decode_stream, equivalent, streams_equivalent, InstructionShape, InstructionWrapper,
    MNEMONIC_SUB, OP_KIND_IMMEDIATE32, OP_KIND_IMMEDIATE8TO32, OP_KIND_REGISTER, REGISTER_ESP,
};
use crate::matcher::{match_index, FunctionMatcher};
use crate::program::{Function, Program};
use vstd::prelude::*;

verus! {

/// What the stack-depth probe found.
#[derive(Debug, Clone, Copy, PartialEq, Eq, Structural)]
pub enum StackProbe {
    /// No `SUB ESP, imm` pair, or one whose immediates agree.
    Agrees,
    /// The first `SUB ESP, imm` pair subtracts different amounts.
    Mismatch,
    /// The first `SUB ESP` pair has a second operand that is no 8- or 32-bit immediate.
    Unhandled,
}

/// Errors of a comparison.
#[derive(Debug, Clone, Copy, PartialEq, Eq, Structural)]
pub enum CompareError {
    /// The two programs disagree on 32 versus 64 bit.
    PointerSizeMismatch,
    /// The stack-depth probe met an operand form it does not read, in the function
    /// at this primary address.
    UnhandledInstructionShape(u64),
}

/// The instruction adjusts the stack pointer downwards: `SUB ESP, ...`.
pub open spec fn subtracts_from_esp(s: InstructionShape) -> bool {
    s.mnemonic == MNEMONIC_SUB && s.op_kinds@[0] == OP_KIND_REGISTER && s.op_registers@[0] == REGISTER_ESP
}

/// The amount a `SUB ESP, imm` subtracts, when its immediate is 8-bit sign-extended
/// or 32-bit.
pub open spec fn stack_depth(s: InstructionShape) -> Option<int> {
    if s.op_kinds@[1] == OP_KIND_IMMEDIATE8TO32 {
        Some(s.immediate8to32 as int)
    } else if s.op_kinds@[1] == OP_KIND_IMMEDIATE32 {
        Some(s.immediate32 as int)
    } else {
        None
    }
}

/// The probe over the pairs of two streams from index `i` on: it stops at the first
/// pair in which both instructions subtract from ESP.
pub open spec fn stack_probe(a: Seq<(u64, InstructionShape)>, b: Seq<(u64, InstructionShape)>, i: int) -> StackProbe
    decreases a.len() - i,
{
    if i < 0 || i >= a.len() || i >= b.len() {
        StackProbe::Agrees
    } else if subtracts_from_esp(a[i].1) && subtracts_from_esp(b[i].1) {
        match (stack_depth(a[i].1), stack_depth(b[i].1)) {
            (Some(x), Some(y)) => if x == y {
                StackProbe::Agrees
            } else {
                StackProbe::Mismatch
            },
            _ => StackProbe::Unhandled,
        }
    } else {
        stack_probe(a, b, i + 1)
    }
}

/// The verdict on two function bodies.
#[derive(Debug, Clone, Copy, PartialEq, Eq, Structural)]
pub enum Verdict {
    /// The bodies count as the same.
    Same,
    /// The bodies differ.
    Differs,
    /// The stack-depth probe met an operand it does not read.
    Unhandled,
}

/// Identical bytes are the same function. Otherwise the bodies differ when their
/// lengths differ, when their instruction streams are not structurally equivalent,
/// or when the stack-depth probe finds a mismatch; a probe that meets an operand it
/// does not read makes the comparison fail.
#[verifier::opaque]
pub open spec fn verdict(bitness: u32, c1: Seq<u8>, a1: u64, c2: Seq<u8>, a2: u64) -> Verdict {
    if c1 == c2 {
        Verdict::Same
    } else {
        let i1 = decode_stream(bitness, c1, a1);
        let i2 = decode_stream(bitness, c2, a2);
        let probe = stack_probe(i1, i2, 0);
        if probe == StackProbe::Unhandled {
            Verdict::Unhandled
        } else if c1.len() != c2.len() || !streams_equivalent(i1, i2) || probe == StackProbe::Mismatch {
            Verdict::Differs
        } else {
            Verdict::Same
        }
    }
}

pub open spec fn stream_view(v: Seq<InstructionWrapper>) -> Seq<(u64, InstructionShape)> {
    v.map_values(|w: InstructionWrapper| w@)
}

pub open spec fn keys_view(v: Seq<(u64, InstructionShape)>) -> Seq<Seq<u32>> {
    v.map_values(|p: (u64, InstructionShape)| structural_key(p.1))
}

/// `ops` covers `n` old and `m` new elements from start to end, each step starting
/// where the steps before it stopped.
pub open spec fn tiles(ops: Seq<DiffOp>, n: int, m: int) -> bool {
    &&& forall|k: int| 0 <= k < ops.len() ==> #[trigger] ops[k].old_start() == old_covered(ops, k) && ops[k].new_start()
        == new_covered(ops, k)
    &&& old_covered(ops, ops.len() as int) == n
    &&& new_covered(ops, ops.len() as int) == m
}

/// A script that tiles both sequences stays within them.
pub proof fn lemma_tiles_in_bounds(ops: Seq<DiffOp>, n: int, m: int)
    requires
        tiles(ops, n, m),
    ensures
        ops_in_bounds(ops, n, m),
{
    assert forall|k: int| 0 <= k < ops.len() implies {
        let op = #[trigger] ops[k];
        &&& 0 <= op.old_start() && op.old_start() + op.old_count() <= n
        &&& 0 <= op.new_start() && op.new_start() + op.new_count() <= m
    } by {
        lemma_covered_monotone(ops, 0, k);
        lemma_covered_monotone(ops, k, ops.len() as int);
    }
}

/// The two instruction streams of a changed function and the edit script between them.
pub struct CompareInfo {
    pub instructions: (Vec<InstructionWrapper>, Vec<InstructionWrapper>),
    pub diff_ops: Vec<DiffOp>,
}

impl CompareInfo {
    /// The streams decoded from the two bodies, with the Myers diff between them.
    pub open spec fn describes(&self, bitness: u32, c1: Seq<u8>, a1: u64, c2: Seq<u8>, a2: u64) -> bool {
        let i1 = decode_stream(bitness, c1, a1);
        let i2 = decode_stream(bitness, c2, a2);
        &&& stream_view(self.instructions.0@) == i1
        &&& stream_view(self.instructions.1@) == i2
        &&& self.diff_ops@ == myers_ops(keys_view(i1), keys_view(i2))
        &&& tiles(self.diff_ops@, i1.len() as int, i2.len() as int)
    }
}

/// The outcome of comparing two functions.
pub enum CompareResult {
    Same,
    Differs(CompareInfo),
}

fn subtracts_from_esp_exec(s: &InstructionShape) -> (r: bool)
    ensures
        r == subtracts_from_esp(*s),
{
    s.mnemonic == MNEMONIC_SUB && s.op_kinds[0] == OP_KIND_REGISTER && s.op_registers[0] == REGISTER_ESP
}

/// The stack depth a `SUB ESP, imm` sets up, if its immediate is one the probe reads.
fn get_stack_depth_from_instruction(s: &InstructionShape) -> (r: Option<i64>)
    ensures
        match stack_depth(*s) {
            Some(d) => r == Some(d as i64) && d == r->0,
            None => r is None,
        },
{
    if s.op_kinds[1] == OP_KIND_IMMEDIATE8TO32 {
        Some(s.immediate8to32 as i64)
    } else if s.op_kinds[1] == OP_KIND_IMMEDIATE32 {
        Some(s.immediate32 as i64)
    } else {
        None
    }
}

fn run_stack_probe(a: &Vec<InstructionWrapper>, b: &Vec<InstructionWrapper>) -> (r: StackProbe)
    ensures
        r == stack_probe(stream_view(a@), stream_view(b@), 0),
{
    let ghost sa = stream_view(a@);
    let ghost sb = stream_view(b@);
    let mut i: usize = 0;
    while i < a.len() && i < b.len()
        invariant
            sa == stream_view(a@),
            sb == stream_view(b@),
            i <= a@.len(),
            stack_probe(sa, sb, i as int) == stack_probe(sa, sb, 0),
        decreases a@.len() - i,
    {
        let x = &a[i].shape;
        let y = &b[i].shape;
        assert(sa[i as int].1 == *x && sb[i as int].1 == *y);
        if subtracts_from_esp_exec(x) && subtracts_from_esp_exec(y) {
            let d1 = get_stack_depth_from_instruction(x);
            let d2 = get_stack_depth_from_instruction(y);
            return match (d1, d2) {
                (Some(p), Some(q)) => if p == q {
                    StackProbe::Agrees
                } else {
                    StackProbe::Mismatch
                },
                _ => StackProbe::Unhandled,
            };
        }
        i = i + 1;
    }
    StackProbe::Agrees
}

fn streams_equivalent_exec(a: &Vec<InstructionWrapper>, b: &Vec<InstructionWrapper>) -> (r: bool)
    ensures
        r == streams_equivalent(stream_view(a@), stream_view(b@)),
{
    if a.len() != b.len() {
        return false;
    }
    let mut i: usize = 0;
    while i < a.len()
        invariant
            a@.len() == b@.len(),
            i <= a@.len(),
            forall|k: int| 0 <= k < i ==> equivalent(#[trigger] stream_view(a@)[k].1, stream_view(b@)[k].1),
        decreases a@.len() - i,
    {
        if !a[i].equivalent_to(&b[i]) {
            assert(!equivalent(stream_view(a@)[i as int].1, stream_view(b@)[i as int].1));
            return false;
        }
        i = i + 1;
    }
    true
}

fn bytes_equal(a: &Vec<u8>, b: &Vec<u8>) -> (r: bool)
    ensures
        r == (a@ == b@),
{
    if a.len() != b.len() {
        return false;
    }
    let mut i: usize = 0;
    while i < a.len()
        invariant
            a@.len() == b@.len(),
            i <= a@.len(),
            forall|k: int| 0 <= k < i ==> a@[k] == b@[k],
        decreases a@.len() - i,
    {
        if a[i] != b[i] {
            return false;
        }
        i = i + 1;
    }
    assert(a@ =~= b@);
    true
}

/// Compares two functions of programs with the given pointer size (4 or 8).
/// Byte-identical bodies are `Same` without being decoded. Changed bodies come
/// with both instruction streams and the edit script that turns the first into the
/// second, which covers both streams from start to end (see `CompareInfo::describes`).
pub fn compare_functions(pointer_size: usize, func1: &Function, func2: &Function) -> (r: Result<CompareResult, CompareError>)
    requires
        pointer_size == 4 || pointer_size == 8,
    ensures
        ({
            let v = verdict((pointer_size * 8) as u32, func1.content@, func1.address, func2.content@, func2.address);
            match r {
                Ok(CompareResult::Same) => v == Verdict::Same,
                Ok(CompareResult::Differs(info)) => v == Verdict::Differs && info.describes(
                    (pointer_size * 8) as u32,
                    func1.content@,
                    func1.address,
                    func2.content@,
                    func2.address,
                ),
                Err(e) => v == Verdict::Unhandled && e == CompareError::UnhandledInstructionShape(func1.address),
            }
        }),
        func1.content@ == func2.content@ ==> r matches Ok(CompareResult::Same),
{
    proof {
        reveal(verdict);
    }
    if bytes_equal(&func1.content, &func2.content) {
        return Ok(CompareResult::Same);
    }
    let instructions1 = decode_all(func1.address, func1.content.as_slice(), pointer_size);
    let instructions2 = decode_all(func2.address, func2.content.as_slice(), pointer_size);
    let probe = run_stack_probe(&instructions1, &instructions2);
    if probe == StackProbe::Unhandled {
        return Err(CompareError::UnhandledInstructionShape(func1.address));
    }
    let differs = func1.content.len() != func2.content.len() || !streams_equivalent_exec(&instructions1, &instructions2)
        || probe == StackProbe::Mismatch;
    if !differs {
        return Ok(CompareResult::Same);
    }
    let diff_ops = diff_instructions(&instructions1, &instructions2);
    assert(old_covered(diff_ops@, diff_ops@.len() as int) == instructions1@.len());
    assert(new_covered(diff_ops@, diff_ops@.len() as int) == instructions2@.len());
    proof {
        assert(instructions1@.map_values(|w: InstructionWrapper| structural_key(w.shape)) =~= keys_view(
            stream_view(instructions1@),
        ));
        assert(instructions2@.map_values(|w: InstructionWrapper| structural_key(w.shape)) =~= keys_view(
            stream_view(instructions2@),
        ));
    }
    let info = CompareInfo { instructions: (instructions1, instructions2), diff_ops };
    assert(info.diff_ops@ == diff_ops@);
    assert(info.instructions.0@ == instructions1@);
    assert(info.instructions.1@ == instructions2@);
    Ok(CompareResult::Differs(info))
}


/// A changed function: its name, its addresses in both programs, and the
/// comparison that found it changed.
pub struct FunctionChange {
    info: CompareInfo,
    name: String,
    address1: u64,
    address2: u64,
}

impl FunctionChange {
    /// The edit script covers both instruction streams.
    #[verifier::type_invariant]
    spec fn script_tiles_streams(self) -> bool {
        tiles(self.info.diff_ops@, self.info.instructions.0@.len() as int, self.info.instructions.1@.len() as int)
    }

    /// The side-by-side layout of the change, as `split_diff::build` makes it.
    pub fn side_by_side(&self) -> (r: Vec<(DiffCell<InstructionWrapper>, DiffCell<InstructionWrapper>)>)
        ensures
            r@ == layout(
                self.spec_info().instructions.0@,
                self.spec_info().instructions.1@,
                self.spec_info().diff_ops@,
                self.spec_info().diff_ops@.len() as int,
            ),
    {
        proof {
            use_type_invariant(self);
            lemma_tiles_in_bounds(
                self.info.diff_ops@,
                self.info.instructions.0@.len() as int,
                self.info.instructions.1@.len() as int,
            );
        }
        build(self.info.instructions.0.as_slice(), self.info.instructions.1.as_slice(), self.info.diff_ops.as_slice())
    }

    pub closed spec fn spec_name(&self) -> Seq<char> {
        self.name@
    }

    pub closed spec fn spec_address1(&self) -> u64 {
        self.address1
    }

    pub closed spec fn spec_address2(&self) -> u64 {
        self.address2
    }

    pub closed spec fn spec_info(&self) -> &CompareInfo {
        &self.info
    }

    /// Everything the change says, as plain values: name, both addresses, both
    /// instruction streams and the edit script.
    pub open spec fn view_all(&self) -> (Seq<char>, u64, u64, Seq<(u64, InstructionShape)>, Seq<(u64, InstructionShape)>, Seq<DiffOp>) {
        (
            self.spec_name(),
            self.spec_address1(),
            self.spec_address2(),
            stream_view(self.spec_info().instructions.0@),
            stream_view(self.spec_info().instructions.1@),
            self.spec_info().diff_ops@,
        )
    }

    pub fn name(&self) -> (r: &str)
        ensures
            r@ == self.spec_name(),
    {
        self.name.as_str()
    }

    pub fn instructions(&self) -> (r: (&[InstructionWrapper], &[InstructionWrapper]))
        ensures
            r.0@ == self.spec_info().instructions.0@,
            r.1@ == self.spec_info().instructions.1@,
    {
        (self.info.instructions.0.as_slice(), self.info.instructions.1.as_slice())
    }

    pub fn diff_ops(&self) -> (r: &[DiffOp])
        ensures
            r@ == self.spec_info().diff_ops@,
    {
        self.info.diff_ops.as_slice()
    }

    pub fn address1(&self) -> (r: u64)
        ensures
            r == self.spec_address1(),
    {
        self.address1
    }

    pub fn address2(&self) -> (r: u64)
        ensures
            r == self.spec_address2(),
    {
        self.address2
    }
}

pub open spec fn bitness_of(p: &Program) -> u32 {
    (p.pointer_size * 8) as u32
}

/// The verdict on the `i`-th primary function, if it has a counterpart.
#[verifier::opaque]
pub open spec fn outcome(p1: &Program, p2: &Program, i: int) -> Option<Verdict> {
    match match_index(p2.functions@, p1.functions@[i].0@) {
        None => None,
        Some(j) => Some(verdict(bitness_of(p1), p1.functions@[i].1.content@, p1.functions@[i].1.address,
            p2.functions@[j].1.content@, p2.functions@[j].1.address)),
    }
}

/// `c` is the change that the `i`-th primary function gives.
#[verifier::opaque]
pub open spec fn change_of(c: FunctionChange, p1: &Program, p2: &Program, i: int) -> bool {
    let f1 = p1.functions@[i].1;
    let j = match_index(p2.functions@, p1.functions@[i].0@)->0;
    let f2 = p2.functions@[j].1;
    &&& outcome(p1, p2, i) == Some(Verdict::Differs)
    &&& c.spec_name() == p1.functions@[i].0@
    &&& c.spec_address1() == f1.address
    &&& c.spec_address2() == f2.address
    &&& c.spec_info().describes(bitness_of(p1), f1.content@, f1.address, f2.content@, f2.address)
}

/// `c` is the change of some primary function.
pub open spec fn from_some_function(c: FunctionChange, p1: &Program, p2: &Program) -> bool {
    exists|i: int| 0 <= i < p1.functions@.len() && #[trigger] change_of(c, p1, p2, i)
}

/// What comparing two programs yields: a pointer-size mismatch; else the failure
/// of the comparison with the lowest primary address, if any fails; else one change
/// per primary function whose counterpart differs from it, in ascending order of
/// primary address.
pub open spec fn programs_compared(p1: &Program, p2: &Program, r: Result<Seq<FunctionChange>, CompareError>) -> bool {
    let n = p1.functions@.len();
    if p1.pointer_size != p2.pointer_size {
        r == Err::<Seq<FunctionChange>, CompareError>(CompareError::PointerSizeMismatch)
    } else {
        match r {
            Err(e) => exists|i: int| 0 <= i < n && #[trigger] outcome(p1, p2, i) == Some(Verdict::Unhandled)
                && e == CompareError::UnhandledInstructionShape(p1.functions@[i].1.address)
                && forall|k: int| 0 <= k < n && #[trigger] outcome(p1, p2, k) == Some(Verdict::Unhandled)
                    ==> p1.functions@[i].1.address <= p1.functions@[k].1.address,
            Ok(v) => {
                &&& forall|i: int| 0 <= i < n ==> #[trigger] outcome(p1, p2, i) != Some(Verdict::Unhandled)
                &&& forall|a: int, b: int| 0 <= a < b < v.len() ==> (#[trigger] v[a]).spec_address1() < (#[trigger] v[b]).spec_address1()
                &&& forall|a: int| 0 <= a < v.len() ==> #[trigger] from_some_function(v[a], p1, p2)
                &&& forall|i: int| 0 <= i < n && #[trigger] outcome(p1, p2, i) == Some(Verdict::Differs)
                    ==> exists|a: int| 0 <= a < v.len() && (#[trigger] v[a]).spec_address1() == p1.functions@[i].1.address
            },
        }
    }
}

/// The four facts that make a list of changes the outcome of a comparison.
proof fn lemma_ok_compared(p1: &Program, p2: &Program, v: Seq<FunctionChange>)
    requires
        p1.pointer_size == p2.pointer_size,
        forall|i: int| 0 <= i < p1.functions@.len() ==> #[trigger] outcome(p1, p2, i) != Some(Verdict::Unhandled),
        forall|a: int, b: int| 0 <= a < b < v.len() ==> (#[trigger] v[a]).spec_address1() < (#[trigger] v[b]).spec_address1(),
        forall|a: int| 0 <= a < v.len() ==> #[trigger] from_some_function(v[a], p1, p2),
        forall|i: int| 0 <= i < p1.functions@.len() && #[trigger] outcome(p1, p2, i) == Some(Verdict::Differs)
            ==> exists|a: int| 0 <= a < v.len() && (#[trigger] v[a]).spec_address1() == p1.functions@[i].1.address,
    ensures
        programs_compared(p1, p2, Ok(v)),
{
    let r = Ok::<Seq<FunctionChange>, CompareError>(v);
    assert(r matches Ok(w) && w == v);
    assert(!(p1.pointer_size != p2.pointer_size));
}

pub open spec fn result_view(r: Result<Vec<FunctionChange>, CompareError>) -> Result<Seq<FunctionChange>, CompareError> {
    match r {
        Ok(v) => Ok(v@),
        Err(e) => Err(e),
    }
}

/// Distinct functions of a well-formed program start at distinct addresses.
pub proof fn lemma_addresses_distinct(p: &Program, i: int, j: int)
    requires
        p.wf(),
        0 <= i < p.functions@.len(),
        0 <= j < p.functions@.len(),
        i != j,
    ensures
        p.functions@[i].1.address != p.functions@[j].1.address,
{
    let fi = p.functions@[i];
    let fj = p.functions@[j];
    if i < j {
        assert(fi.0@ != fj.0@);
    } else {
        assert(fj.0@ != fi.0@);
    }
}

/// Puts the changes found in ascending order of primary address, by taking out
/// the lowest one at a time.
fn order_by_address(
    pending: Vec<FunctionChange>,
    origin: Ghost<Seq<int>>,
    p1: &Program,
    p2: &Program,
) -> (r: Result<Vec<FunctionChange>, CompareError>)
    requires
        p1.wf(),
        p1.pointer_size == p2.pointer_size,
        origin@.len() == pending@.len(),
        forall|a: int| 0 <= a < pending@.len() ==> 0 <= #[trigger] origin@[a] < p1.functions@.len() && change_of(
            pending@[a],
            p1,
            p2,
            origin@[a],
        ) && pending@[a].spec_address1() == p1.functions@[origin@[a]].1.address,
        forall|a: int, b: int| 0 <= a < b < pending@.len() ==> #[trigger] origin@[a] < #[trigger] origin@[b],
        forall|k: int| 0 <= k < p1.functions@.len() && #[trigger] outcome(p1, p2, k) == Some(Verdict::Differs)
            ==> exists|a: int| 0 <= a < pending@.len() && origin@[a] == k,
        forall|k: int| 0 <= k < p1.functions@.len() ==> #[trigger] outcome(p1, p2, k) != Some(Verdict::Unhandled),
    ensures
        programs_compared(p1, p2, result_view(r)),
{
    let n = p1.functions.len();
    let mut pending = pending;
    let ghost mut org = origin@;
    let mut out: Vec<FunctionChange> = Vec::new();
    let ghost mut out_origin: Seq<int> = Seq::empty();
    proof {
        assert forall|a: int, b: int| 0 <= a < pending@.len() && 0 <= b < pending@.len() && a != b implies #[trigger] org[a]
            != #[trigger] org[b] by {
            if a < b {
                assert(org[a] < org[b]);
            } else {
                assert(org[b] < org[a]);
            }
        }
    }
    while pending.len() > 0
        invariant
            p1.wf(),
            p1.pointer_size == p2.pointer_size,
            n == p1.functions@.len(),
            org.len() == pending@.len(),
            forall|a: int| 0 <= a < pending@.len() ==> 0 <= #[trigger] org[a] < n && change_of(pending@[a], p1, p2, org[a])
                && pending@[a].spec_address1() == p1.functions@[org[a]].1.address,
            forall|a: int, b: int| 0 <= a < pending@.len() && 0 <= b < pending@.len() && a != b ==> #[trigger] org[a]
                != #[trigger] org[b],
            out_origin.len() == out@.len(),
            forall|a: int| 0 <= a < out@.len() ==> 0 <= #[trigger] out_origin[a] < n && change_of(out@[a], p1, p2, out_origin[a]),
            forall|a: int, b: int| 0 <= a < b < out@.len() ==> (#[trigger] out@[a]).spec_address1() < (
            #[trigger] out@[b]).spec_address1(),
            forall|a: int, b: int| 0 <= a < out@.len() && 0 <= b < pending@.len() ==> (#[trigger] out@[a]).spec_address1()
                < (#[trigger] pending@[b]).spec_address1(),
            forall|k: int| 0 <= k < n && #[trigger] outcome(p1, p2, k) == Some(Verdict::Differs) ==> (exists|a: int|
                0 <= a < pending@.len() && org[a] == k) || (exists|a: int| 0 <= a < out@.len()
                && (#[trigger] out@[a]).spec_address1() == p1.functions@[k].1.address),
            forall|k: int| 0 <= k < n ==> #[trigger] outcome(p1, p2, k) != Some(Verdict::Unhandled),
        decreases pending@.len(),
    {
        let mut m: usize = 0;
        let mut j: usize = 1;
        while j < pending.len()
            invariant
                0 <= m < j <= pending@.len(),
                forall|b: int| 0 <= b < j ==> pending@[m as int].spec_address1() <= (#[trigger] pending@[b]).spec_address1(),
            decreases pending@.len() - j,
        {
            if pending[j].address1() < pending[m].address1() {
                m = j;
            }
            j = j + 1;
        }
        let ghost before = pending@;
        let ghost org_before = org;
        let ghost out_before = out@;
        let ghost out_origin_before = out_origin;
        proof {
            assert forall|b: int| 0 <= b < before.len() && b != m implies before[m as int].spec_address1() < (
            #[trigger] before[b]).spec_address1() by {
                assert(org[b] != org[m as int]);
                lemma_addresses_distinct(p1, org[b], org[m as int]);
            }
        }
        let c = pending.remove(m);
        proof {
            org = org.remove(m as int);
        }
        out.push(c);
        proof {
            out_origin = out_origin.push(org_before[m as int]);
            assert(out@[out@.len() - 1] == c);
            assert(c == before[m as int]);
            assert forall|a: int| 0 <= a < pending@.len() implies 0 <= #[trigger] org[a] < n && change_of(
                pending@[a],
                p1,
                p2,
                org[a],
            ) && pending@[a].spec_address1() == p1.functions@[org[a]].1.address by {
                if a < m {
                    assert(pending@[a] == before[a] && org[a] == org_before[a]);
                } else {
                    assert(pending@[a] == before[a + 1] && org[a] == org_before[a + 1]);
                }
            }
            assert forall|a: int, b: int| 0 <= a < pending@.len() && 0 <= b < pending@.len() && a != b implies #[trigger] org[a]
                != #[trigger] org[b] by {
                let a0 = if a < m { a } else { a + 1 };
                let b0 = if b < m { b } else { b + 1 };
                assert(org[a] == org_before[a0] && org[b] == org_before[b0]);
            }
            assert forall|a: int| 0 <= a < out@.len() implies 0 <= #[trigger] out_origin[a] < n && change_of(
                out@[a],
                p1,
                p2,
                out_origin[a],
            ) by {
                if a < out@.len() - 1 {
                    assert(out@[a] == out_before[a] && out_origin[a] == out_origin_before[a]);
                }
            }
            assert forall|a: int, b: int| 0 <= a < b < out@.len() implies (#[trigger] out@[a]).spec_address1() < (
            #[trigger] out@[b]).spec_address1() by {
                assert(out@[a] == out_before[a]);
                if b < out@.len() - 1 {
                    assert(out@[b] == out_before[b]);
                }
            }
            assert forall|a: int, b: int| 0 <= a < out@.len() && 0 <= b < pending@.len() implies (
            #[trigger] out@[a]).spec_address1() < (#[trigger] pending@[b]).spec_address1() by {
                let b0 = if b < m { b } else { b + 1 };
                assert(pending@[b] == before[b0]);
                if a < out@.len() - 1 {
                    assert(out@[a] == out_before[a]);
                }
            }
            assert forall|k: int| 0 <= k < n && #[trigger] outcome(p1, p2, k) == Some(Verdict::Differs) implies (exists|a: int|
                0 <= a < pending@.len() && org[a] == k) || (exists|a: int| 0 <= a < out@.len()
                && (#[trigger] out@[a]).spec_address1() == p1.functions@[k].1.address) by {
                if exists|a: int| 0 <= a < org_before.len() && org_before[a] == k {
                    let a = choose|a: int| 0 <= a < org_before.len() && org_before[a] == k;
                    if a < m {
                        assert(org[a] == k);
                    } else if a > m {
                        assert(org[a - 1] == k);
                    } else {
                        assert(out@[out@.len() - 1].spec_address1() == p1.functions@[k].1.address);
                    }
                } else {
                    let a = choose|a: int| 0 <= a < out_before.len() && (#[trigger] out_before[a]).spec_address1()
                        == p1.functions@[k].1.address;
                    assert(out@[a] == out_before[a]);
                }
            }
        }
    }
    proof {
        assert forall|k: int| 0 <= k < n && #[trigger] outcome(p1, p2, k) == Some(Verdict::Differs) implies exists|a: int|
            0 <= a < out@.len() && (#[trigger] out@[a]).spec_address1() == p1.functions@[k].1.address by {
        }
        assert forall|a: int| 0 <= a < out@.len() implies #[trigger] from_some_function(out@[a], p1, p2) by {
            assert(0 <= out_origin[a] < n && change_of(out@[a], p1, p2, out_origin[a]));
        }
        lemma_ok_compared(p1, p2, out@);
    }
    Ok(out)
}

/// Compares the `i`-th primary function with its counterpart: `Ok(None)` when it
/// has none or is the same, the change when it differs, and its address when the
/// comparison fails.
fn assess<'a>(matcher: &FunctionMatcher<'a>, p1: &Program, p2: &Program, i: usize) -> (r: Result<Option<FunctionChange>, u64>)
    requires
        p1.wf(),
        p2.wf(),
        p1.pointer_size == p2.pointer_size,
        matcher.wf(),
        matcher.secondary() == p2,
        i < p1.functions@.len(),
    ensures
        match r {
            Ok(None) => outcome(p1, p2, i as int) != Some(Verdict::Differs) && outcome(p1, p2, i as int) != Some(
                Verdict::Unhandled,
            ),
            Ok(Some(c)) => outcome(p1, p2, i as int) == Some(Verdict::Differs) && change_of(c, p1, p2, i as int)
                && c.spec_address1() == p1.functions@[i as int].1.address,
            Err(a) => outcome(p1, p2, i as int) == Some(Verdict::Unhandled) && a == p1.functions@[i as int].1.address,
        },
{
    proof {
        reveal(outcome);
        reveal(change_of);
    }
    let entry = &p1.functions[i];
    match matcher.match_name(&entry.0) {
        None => Ok(None),
        Some(func2) => {
            match compare_functions(p1.pointer_size, &entry.1, func2) {
                Ok(CompareResult::Same) => Ok(None),
                Ok(CompareResult::Differs(info)) => {
                    assert(stream_view(info.instructions.0@).len() == info.instructions.0@.len());
                    assert(stream_view(info.instructions.1@).len() == info.instructions.1@.len());
                    Ok(Some(FunctionChange { info, name: entry.0.clone(), address1: entry.1.address, address2: func2.address }))
                },
                Err(_) => Err(entry.1.address),
            }
        },
    }
}

/// Compares every primary function with its counterpart in the secondary program.
pub fn compare_programs(program1: &Program, program2: &Program) -> (r: Result<Vec<FunctionChange>, CompareError>)
    requires
        program1.wf(),
        program2.wf(),
    ensures
        programs_compared(program1, program2, result_view(r)),
{
    if program1.pointer_size != program2.pointer_size {
        return Err(CompareError::PointerSizeMismatch);
    }
    let matcher = FunctionMatcher::new(program1, program2);
    let n = program1.functions.len();
    let mut pending: Vec<FunctionChange> = Vec::new();
    let ghost mut origin: Seq<int> = Seq::empty();
    let mut failure: Option<u64> = None;
    let ghost mut failed_at: int = 0;
    let mut i: usize = 0;
    while i < n
        invariant
            program1.wf(),
            program2.wf(),
            program1.pointer_size == program2.pointer_size,
            n == program1.functions@.len(),
            matcher.wf(),
            matcher.secondary() == program2,
            i <= n,
            origin.len() == pending@.len(),
            forall|a: int| 0 <= a < pending@.len() ==> 0 <= #[trigger] origin[a] < i && change_of(pending@[a], program1, program2, origin[a])
                && pending@[a].spec_address1() == program1.functions@[origin[a]].1.address,
            forall|a: int, b: int| 0 <= a < b < pending@.len() ==> #[trigger] origin[a] < #[trigger] origin[b],
            forall|k: int| 0 <= k < i && #[trigger] outcome(program1, program2, k) == Some(Verdict::Differs)
                ==> exists|a: int| 0 <= a < pending@.len() && origin[a] == k,
            match failure {
                None => forall|k: int| 0 <= k < i ==> #[trigger] outcome(program1, program2, k) != Some(Verdict::Unhandled),
                Some(addr) => 0 <= failed_at < i && outcome(program1, program2, failed_at) == Some(Verdict::Unhandled)
                    && addr == program1.functions@[failed_at].1.address
                    && forall|k: int| 0 <= k < i && #[trigger] outcome(program1, program2, k) == Some(Verdict::Unhandled)
                        ==> addr <= program1.functions@[k].1.address,
            },
        decreases n - i,
    {
        let ghost old_pending = pending@;
        let ghost old_origin = origin;
        match assess(&matcher, program1, program2, i) {
            Ok(None) => {},
            Ok(Some(change)) => {
                pending.push(change);
                proof {
                    origin = origin.push(i as int);
                    assert(pending@[pending@.len() - 1] == change);
                    assert forall|a: int| 0 <= a < pending@.len() implies 0 <= #[trigger] origin[a] < i + 1
                        && change_of(pending@[a], program1, program2, origin[a])
                        && pending@[a].spec_address1() == program1.functions@[origin[a]].1.address by {
                        if a < old_pending.len() {
                            assert(pending@[a] == old_pending[a]);
                        }
                    }
                }
            },
            Err(a) => {
                match failure {
                    Some(b) => {
                        if a < b {
                            failure = Some(a);
                            proof {
                                failed_at = i as int;
                            }
                        }
                    },
                    None => {
                        failure = Some(a);
                        proof {
                            failed_at = i as int;
                        }
                    },
                }
            },
        }
        proof {
            assert forall|k: int| 0 <= k < i + 1 && #[trigger] outcome(program1, program2, k) == Some(Verdict::Differs)
                implies exists|a: int| 0 <= a < pending@.len() && origin[a] == k by {
                if k < i {
                    let a = choose|a: int| 0 <= a < old_pending.len() && old_origin[a] == k;
                    assert(origin[a] == old_origin[a]);
                    assert(0 <= a < pending@.len() && origin[a] == k);
                } else {
                    assert(origin[pending@.len() - 1] == k);
                }
            }
        }
        i = i + 1;
    }
    if let Some(addr) = failure {
        return Err(CompareError::UnhandledInstructionShape(addr));
    }
    order_by_address(pending, Ghost(origin), program1, program2)
}


/// Comparing a program with itself finds no change: every function is paired with
/// itself, and identical bytes are the same.
pub proof fn lemma_self_comparison_identity(p: &Program, r: Result<Seq<FunctionChange>, CompareError>)
    requires
        p.wf(),
        programs_compared(p, p, r),
    ensures
        r matches Ok(v) && v.len() == 0,
{
    reveal(outcome);
    reveal(verdict);
    let n = p.functions@.len();
    assert forall|i: int| 0 <= i < n implies #[trigger] outcome(p, p, i) == Some(Verdict::Same) by {
        let name = p.functions@[i].0@;
        assert(p.functions@[i].0@ == name);
        let j = choose|j: int| 0 <= j < n && (#[trigger] p.functions@[j]).0@ == name;
        if j != i {
            if i < j {
                assert(p.functions@[i].0@ != p.functions@[j].0@);
            } else {
                assert(p.functions@[j].0@ != p.functions@[i].0@);
            }
        }
        assert(match_index(p.functions@, name) == Some(i));
    }
    match r {
        Err(e) => {
            let i = choose|i: int| 0 <= i < n && #[trigger] outcome(p, p, i) == Some(Verdict::Unhandled)
                && e == CompareError::UnhandledInstructionShape(p.functions@[i].1.address)
                && forall|k: int| 0 <= k < n && #[trigger] outcome(p, p, k) == Some(Verdict::Unhandled)
                    ==> p.functions@[i].1.address <= p.functions@[k].1.address;
            assert(outcome(p, p, i) == Some(Verdict::Same));
        },
        Ok(v) => {
            if v.len() > 0 {
                assert(from_some_function(v[0], p, p));
                let i = choose|i: int| 0 <= i < n && #[trigger] change_of(v[0], p, p, i);
                reveal(change_of);
                assert(outcome(p, p, i) == Some(Verdict::Same));
            }
        },
    }
}

/// `s` holds the value `v`.
pub open spec fn holds_value(s: Seq<u64>, v: u64) -> bool {
    exists|b: int| 0 <= b < s.len() && s[b] == v
}

pub open spec fn strictly_increasing(s: Seq<u64>) -> bool {
    forall|a: int, b: int| 0 <= a < b < s.len() ==> s[a] < s[b]
}

/// Two strictly increasing sequences that hold the same values agree up to `i`.
proof fn lemma_sorted_prefix(x: Seq<u64>, y: Seq<u64>, i: int)
    requires
        strictly_increasing(x),
        strictly_increasing(y),
        forall|a: int| 0 <= a < x.len() ==> #[trigger] holds_value(y, x[a]),
        forall|b: int| 0 <= b < y.len() ==> #[trigger] holds_value(x, y[b]),
        0 <= i <= x.len(),
        i <= y.len(),
    ensures
        forall|k: int| 0 <= k < i ==> x[k] == y[k],
    decreases i,
{
    if i > 0 {
        lemma_sorted_prefix(x, y, i - 1);
        let k = i - 1;
        assert(holds_value(y, x[k]));
        assert(holds_value(x, y[k]));
        let j = choose|b: int| 0 <= b < y.len() && y[b] == x[k];
        let j2 = choose|b: int| 0 <= b < x.len() && x[b] == y[k];
        if j < k {
            assert(y[j] == x[j]);
            assert(x[j] < x[k]);
        } else if j > k {
            assert(y[k] < y[j]);
            if j2 < k {
                assert(x[j2] == y[j2]);
                assert(y[j2] < y[k]);
            } else if j2 > k {
                assert(x[k] < x[j2]);
            }
        }
    }
}

/// Two strictly increasing sequences that hold the same values are equal.
proof fn lemma_sorted_same_values(x: Seq<u64>, y: Seq<u64>)
    requires
        strictly_increasing(x),
        strictly_increasing(y),
        forall|a: int| 0 <= a < x.len() ==> #[trigger] holds_value(y, x[a]),
        forall|b: int| 0 <= b < y.len() ==> #[trigger] holds_value(x, y[b]),
    ensures
        x == y,
{
    let m = if x.len() < y.len() { x.len() as int } else { y.len() as int };
    lemma_sorted_prefix(x, y, m);
    if x.len() < y.len() {
        assert(holds_value(x, y[m]));
        let a = choose|a: int| 0 <= a < x.len() && x[a] == y[m];
        assert(x[a] == y[a]);
        assert(y[a] < y[m]);
    } else if y.len() < x.len() {
        assert(holds_value(y, x[m]));
        let b = choose|b: int| 0 <= b < y.len() && y[b] == x[m];
        assert(x[b] == y[b]);
        assert(x[b] < x[m]);
    }
    assert(x =~= y);
}

pub open spec fn addresses(v: Seq<FunctionChange>) -> Seq<u64> {
    v.map_values(|c: FunctionChange| c.spec_address1())
}

proof fn lemma_same_changes(p1: &Program, p2: &Program, a: Seq<FunctionChange>, b: Seq<FunctionChange>)
    requires
        p1.wf(),
        p1.pointer_size == p2.pointer_size,
        programs_compared(p1, p2, Ok(a)),
        programs_compared(p1, p2, Ok(b)),
    ensures
        a.len() == b.len(),
        forall|k: int| 0 <= k < a.len() ==> #[trigger] a[k].view_all() == b[k].view_all(),
{
    let n = p1.functions@.len();
    let xa = addresses(a);
    let yb = addresses(b);
    let ra = Ok::<Seq<FunctionChange>, CompareError>(a);
    let rb = Ok::<Seq<FunctionChange>, CompareError>(b);
    assert(ra matches Ok(w) && w == a);
    assert(rb matches Ok(w) && w == b);
    assert(programs_compared(p1, p2, ra));
    assert(programs_compared(p1, p2, rb));
    assert(forall|k: int| 0 <= k < a.len() ==> #[trigger] from_some_function(a[k], p1, p2));
    assert(forall|k: int| 0 <= k < b.len() ==> #[trigger] from_some_function(b[k], p1, p2));
    reveal(change_of);
    assert forall|k: int| 0 <= k < xa.len() implies #[trigger] holds_value(yb, xa[k]) by {
        assert(from_some_function(a[k], p1, p2));
        let i = choose|i: int| 0 <= i < n && #[trigger] change_of(a[k], p1, p2, i);
        let m = choose|m: int| 0 <= m < b.len() && (#[trigger] b[m]).spec_address1() == p1.functions@[i].1.address;
        assert(yb[m] == xa[k]);
    }
    assert forall|k: int| 0 <= k < yb.len() implies #[trigger] holds_value(xa, yb[k]) by {
        assert(from_some_function(b[k], p1, p2));
        let i = choose|i: int| 0 <= i < n && #[trigger] change_of(b[k], p1, p2, i);
        let m = choose|m: int| 0 <= m < a.len() && (#[trigger] a[m]).spec_address1() == p1.functions@[i].1.address;
        assert(xa[m] == yb[k]);
    }
    assert forall|u: int, w: int| 0 <= u < w < xa.len() implies xa[u] < xa[w] by {
        assert(a[u].spec_address1() < a[w].spec_address1());
    }
    assert forall|u: int, w: int| 0 <= u < w < yb.len() implies yb[u] < yb[w] by {
        assert(b[u].spec_address1() < b[w].spec_address1());
    }
    lemma_sorted_same_values(xa, yb);
    assert(xa.len() == yb.len());
    assert forall|k: int| 0 <= k < a.len() implies #[trigger] a[k].view_all() == b[k].view_all() by {
        assert(xa[k] == yb[k]);
        assert(from_some_function(a[k], p1, p2));
        assert(from_some_function(b[k], p1, p2));
        let i = choose|i: int| 0 <= i < n && #[trigger] change_of(a[k], p1, p2, i);
        let j = choose|i: int| 0 <= i < n && #[trigger] change_of(b[k], p1, p2, i);
        if i != j {
            lemma_addresses_distinct(p1, i, j);
        }
    }
}

/// The result of comparing two given programs is determined by them: two results
/// that both meet the contract of `compare_programs` say the same, change by change.
pub proof fn lemma_comparison_deterministic(
    p1: &Program,
    p2: &Program,
    r1: Result<Seq<FunctionChange>, CompareError>,
    r2: Result<Seq<FunctionChange>, CompareError>,
)
    requires
        p1.wf(),
        programs_compared(p1, p2, r1),
        programs_compared(p1, p2, r2),
    ensures
        match (r1, r2) {
            (Ok(a), Ok(b)) => a.len() == b.len() && forall|k: int| 0 <= k < a.len() ==> #[trigger] a[k].view_all() == b[k].view_all(),
            (Err(x), Err(y)) => x == y,
            _ => false,
        },
{
    let n = p1.functions@.len();
    if p1.pointer_size != p2.pointer_size {
        return;
    }
    match (r1, r2) {
        (Err(x), Err(y)) => {
            let i = choose|i: int| 0 <= i < n && #[trigger] outcome(p1, p2, i) == Some(Verdict::Unhandled)
                && x == CompareError::UnhandledInstructionShape(p1.functions@[i].1.address)
                && forall|k: int| 0 <= k < n && #[trigger] outcome(p1, p2, k) == Some(Verdict::Unhandled)
                    ==> p1.functions@[i].1.address <= p1.functions@[k].1.address;
            let j = choose|i: int| 0 <= i < n && #[trigger] outcome(p1, p2, i) == Some(Verdict::Unhandled)
                && y == CompareError::UnhandledInstructionShape(p1.functions@[i].1.address)
                && forall|k: int| 0 <= k < n && #[trigger] outcome(p1, p2, k) == Some(Verdict::Unhandled)
                    ==> p1.functions@[i].1.address <= p1.functions@[k].1.address;
            assert(p1.functions@[i].1.address <= p1.functions@[j].1.address);
            assert(p1.functions@[j].1.address <= p1.functions@[i].1.address);
        },
        (Ok(a), Err(y)) => {
            let j = choose|i: int| 0 <= i < n && #[trigger] outcome(p1, p2, i) == Some(Verdict::Unhandled)
                && y == CompareError::UnhandledInstructionShape(p1.functions@[i].1.address)
                && forall|k: int| 0 <= k < n && #[trigger] outcome(p1, p2, k) == Some(Verdict::Unhandled)
                    ==> p1.functions@[i].1.address <= p1.functions@[k].1.address;
        },
        (Err(x), Ok(b)) => {
            let j = choose|i: int| 0 <= i < n && #[trigger] outcome(p1, p2, i) == Some(Verdict::Unhandled)
                && x == CompareError::UnhandledInstructionShape(p1.functions@[i].1.address)
                && forall|k: int| 0 <= k < n && #[trigger] outcome(p1, p2, k) == Some(Verdict::Unhandled)
                    ==> p1.functions@[i].1.address <= p1.functions@[k].1.address;
        },
        (Ok(a), Ok(b)) => {
            lemma_same_changes(p1, p2, a, b);
        },
    }
}
} // verus!
