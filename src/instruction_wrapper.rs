//! Decoded x86 instructions, and the structural equivalence that the comparison
//! of functions rests on.
use vstd::prelude::*;

verus! {

/// The decoder's instruction type, carried through opaquely for display.
#[verifier::external_type_specification]
#[verifier::external_body]
pub struct ExInstruction(iced_x86::Instruction);

/// Operand kind of a register operand.
pub const OP_KIND_REGISTER: u8 = 0;
/// Operand kind of a 32-bit immediate.
pub const OP_KIND_IMMEDIATE32: u8 = 9;
/// Operand kind of an 8-bit immediate sign-extended to 32 bits.
pub const OP_KIND_IMMEDIATE8TO32: u8 = 12;
/// The register ESP.
pub const REGISTER_ESP: u16 = 41;
/// The mnemonic SUB.
pub const MNEMONIC_SUB: u16 = 740;
/// The most operands an instruction has.
pub const MAX_OPERANDS: usize = 5;

/// What the comparison reads of a decoded instruction, as plain numbers: the
/// instruction's code (opcode identity), mnemonic, operand count, the kind and
/// the register of each operand slot, its immediates and its length in bytes.
#[derive(Clone, Copy)]
pub struct InstructionShape {
    pub len: usize,
    pub code: u16,
    pub mnemonic: u16,
    pub op_count: u32,
    pub op_kinds: [u8; 5],
    pub op_registers: [u16; 5],
    pub immediate8to32: i32,
    pub immediate32: u32,
}

/// The instruction that the decoder reads at the start of `bytes` in the given
/// mode (32 or 64 bit) at instruction pointer `ip`.
pub uninterp spec fn decoded(bitness: u32, bytes: Seq<u8>, ip: u64) -> InstructionShape;

/// A decoded instruction: the decoder's own value, kept for display, with its
/// instruction pointer and its shape.
#[derive(Clone, Copy)]
pub struct InstructionWrapper {
    pub instruction: iced_x86::Instruction,
    pub ip: u64,
    pub shape: InstructionShape,
}

impl View for InstructionWrapper {
    type V = (u64, InstructionShape);

    open spec fn view(&self) -> (u64, InstructionShape) {
        (self.ip, self.shape)
    }
}

/// Relies on `iced_x86::Decoder::with_ip` and `Decoder::decode`: the instruction at
/// the start of `bytes`, whose value depends on the arguments alone. With bytes
/// present the decoder consumes at least one of them and never more than there are.
#[verifier::external_body]
fn decode_one(bitness: u32, bytes: &[u8], ip: u64) -> (r: (iced_x86::Instruction, InstructionShape))
    requires
        bitness == 32 || bitness == 64,
        bytes@.len() > 0,
    ensures
        r.1 == decoded(bitness, bytes@, ip),
        1 <= r.1.len <= bytes@.len(),
{
    let i = iced_x86::Decoder::with_ip(bitness, bytes, ip, iced_x86::DecoderOptions::NONE).decode();
    let kinds = [i.op_kind(0) as u8, i.op_kind(1) as u8, i.op_kind(2) as u8, i.op_kind(3) as u8, i.op_kind(4) as u8];
    let regs = [i.op_register(0) as u16, i.op_register(1) as u16, i.op_register(2) as u16, i.op_register(3) as u16, i.op_register(4) as u16];
    let shape = InstructionShape {
        len: i.len(), code: i.code() as u16, mnemonic: i.mnemonic() as u16, op_count: i.op_count(),
        op_kinds: kinds, op_registers: regs, immediate8to32: i.immediate8to32(), immediate32: i.immediate32(),
    };
    (i, shape)
}

/// The decoded instructions of `bytes`, the first at `ip`, each at the pointer after
/// the one before (wrapping), until the bytes are used up.
pub open spec fn decode_stream(bitness: u32, bytes: Seq<u8>, ip: u64) -> Seq<(u64, InstructionShape)>
    decreases bytes.len(),
{
    if bytes.len() == 0 {
        Seq::empty()
    } else {
        let s = decoded(bitness, bytes, ip);
        if s.len < 1 || s.len > bytes.len() {
            seq![(ip, s)]
        } else {
            seq![(ip, s)] + decode_stream(bitness, bytes.subrange(s.len as int, bytes.len() as int),
                ip.wrapping_add(s.len as u64))
        }
    }
}

/// The operand kinds of an instruction, in order.
pub open spec fn operand_kinds(s: InstructionShape) -> Seq<u8> {
    s.op_kinds@.take(if s.op_count <= 5 { s.op_count as int } else { 5 })
}

/// Structural equivalence: same code, same operand kinds in order, and the same
/// register in every register operand. Immediates, displacements and the length
/// are not compared.
pub open spec fn equivalent(a: InstructionShape, b: InstructionShape) -> bool {
    &&& a.code == b.code
    &&& operand_kinds(a) == operand_kinds(b)
    &&& forall|i: int| 0 <= i < operand_kinds(a).len() && #[trigger] operand_kinds(a)[i] == OP_KIND_REGISTER
        ==> a.op_registers@[i] == b.op_registers@[i]
}

/// Structural equivalence over two instruction streams, element by element.
pub open spec fn streams_equivalent(a: Seq<(u64, InstructionShape)>, b: Seq<(u64, InstructionShape)>) -> bool {
    a.len() == b.len() && forall|i: int| 0 <= i < a.len() ==> equivalent(#[trigger] a[i].1, b[i].1)
}

impl InstructionWrapper {
    /// The decoder's own value, for display.
    pub fn get(&self) -> &iced_x86::Instruction {
        &self.instruction
    }

    /// Structural equivalence of two decoded instructions.
    pub fn equivalent_to(&self, other: &InstructionWrapper) -> (r: bool)
        ensures
            r == equivalent(self.shape, other.shape),
    {
        let a = &self.shape;
        let b = &other.shape;
        if a.code != b.code {
            return false;
        }
        let n: usize = if a.op_count <= 5 { a.op_count as usize } else { 5 };
        let m: usize = if b.op_count <= 5 { b.op_count as usize } else { 5 };
        if n != m {
            assert(operand_kinds(*a).len() != operand_kinds(*b).len());
            return false;
        }
        let mut i: usize = 0;
        while i < n
            invariant
                i <= n <= 5,
                n == m,
                *a == self.shape,
                *b == other.shape,
                operand_kinds(*a).len() == n,
                operand_kinds(*b).len() == n,
                forall|k: int| 0 <= k < i ==> operand_kinds(*a)[k] == operand_kinds(*b)[k],
                forall|k: int| 0 <= k < i && #[trigger] operand_kinds(*a)[k] == OP_KIND_REGISTER
                    ==> a.op_registers@[k] == b.op_registers@[k],
            decreases n - i,
        {
            assert(operand_kinds(*a)[i as int] == a.op_kinds@[i as int]);
            assert(operand_kinds(*b)[i as int] == b.op_kinds@[i as int]);
            if a.op_kinds[i] != b.op_kinds[i] {
                assert(operand_kinds(*a)[i as int] != operand_kinds(*b)[i as int]);
                return false;
            }
            if a.op_kinds[i] == OP_KIND_REGISTER && a.op_registers[i] != b.op_registers[i] {
                assert(operand_kinds(*a)[i as int] == OP_KIND_REGISTER);
                assert(!(a.op_registers@[i as int] == b.op_registers@[i as int]));
                return false;
            }
            i = i + 1;
        }
        assert(operand_kinds(*a) =~= operand_kinds(*b));
        true
    }
}

impl PartialEq for InstructionWrapper {
    fn eq(&self, other: &InstructionWrapper) -> (r: bool) {
        self.equivalent_to(other)
    }
}

impl vstd::std_specs::cmp::PartialEqSpecImpl for InstructionWrapper {
    open spec fn obeys_eq_spec() -> bool {
        true
    }

    open spec fn eq_spec(&self, other: &InstructionWrapper) -> bool {
        equivalent(self.shape, other.shape)
    }
}

/// Structural equivalence ignores immediates, displacements and lengths, and sees
/// any change of code, of operand kinds, or of the register of a register operand.
pub proof fn lemma_structural_insensitivity(a: InstructionShape, b: InstructionShape)
    ensures
        a.code == b.code && operand_kinds(a) == operand_kinds(b) && (forall|i: int|
            0 <= i < operand_kinds(a).len() && #[trigger] operand_kinds(a)[i] == OP_KIND_REGISTER
            ==> a.op_registers@[i] == b.op_registers@[i]) ==> equivalent(a, b),
        a.code != b.code ==> !equivalent(a, b),
        operand_kinds(a) != operand_kinds(b) ==> !equivalent(a, b),
        (exists|i: int| 0 <= i < operand_kinds(a).len() && #[trigger] operand_kinds(a)[i] == OP_KIND_REGISTER
            && a.op_registers@[i] != b.op_registers@[i]) ==> !equivalent(a, b),
{
}

/// Structural equivalence is reflexive, symmetric and transitive.
pub proof fn lemma_equivalence_relation(a: InstructionShape, b: InstructionShape, c: InstructionShape)
    ensures
        equivalent(a, a),
        equivalent(a, b) ==> equivalent(b, a),
        equivalent(a, b) && equivalent(b, c) ==> equivalent(a, c),
{
    if equivalent(a, b) {
        assert forall|i: int| 0 <= i < operand_kinds(b).len() && #[trigger] operand_kinds(b)[i] == OP_KIND_REGISTER
            implies b.op_registers@[i] == a.op_registers@[i] by {
            assert(operand_kinds(a)[i] == OP_KIND_REGISTER);
        }
    }
    if equivalent(a, b) && equivalent(b, c) {
        assert forall|i: int| 0 <= i < operand_kinds(a).len() && #[trigger] operand_kinds(a)[i] == OP_KIND_REGISTER
            implies a.op_registers@[i] == c.op_registers@[i] by {
            assert(operand_kinds(b)[i] == OP_KIND_REGISTER);
        }
    }
}

/// A decoder over the code bytes of one function: it hands out the instructions
/// one by one, each with its instruction pointer.
pub struct InstructionIter<'a> {
    code: &'a [u8],
    bitness: u32,
    offset: usize,
    ip: u64,
}

impl<'a> InstructionIter<'a> {
    /// The instructions still to come.
    pub closed spec fn remaining(&self) -> Seq<(u64, InstructionShape)> {
        decode_stream(self.bitness, self.code@.subrange(self.offset as int, self.code@.len() as int), self.ip)
    }

    pub closed spec fn wf(&self) -> bool {
        &&& self.offset <= self.code@.len()
        &&& self.bitness == 32 || self.bitness == 64
    }

    /// A decoder for `code`, whose first byte is at `address`, for a pointer size
    /// of 4 bytes (32-bit code) or 8 bytes (64-bit code).
    pub fn new(address: u64, code: &'a [u8], address_size: usize) -> (r: InstructionIter<'a>)
        requires
            address_size == 4 || address_size == 8,
        ensures
            r.wf(),
            r.remaining() == decode_stream((address_size * 8) as u32, code@, address),
    {
        let r = InstructionIter { code, bitness: (address_size * 8) as u32, offset: 0, ip: address };
        assert(code@.subrange(0, code@.len() as int) =~= code@);
        r
    }

    /// The next instruction, or `None` once the bytes are used up.
    pub fn next(&mut self) -> (r: Option<InstructionWrapper>)
        requires
            old(self).wf(),
        ensures
            final(self).wf(),
            old(self).remaining().len() == 0 ==> r is None && final(self).remaining() == old(self).remaining(),
            old(self).remaining().len() > 0 ==> (r matches Some(w) && w@ == old(self).remaining()[0]
                && final(self).remaining() == old(self).remaining().drop_first()),
    {
        if self.offset >= self.code.len() {
            return None;
        }
        let bytes = vstd::slice::slice_subrange(self.code, self.offset, self.code.len());
        let (instruction, shape) = decode_one(self.bitness, bytes, self.ip);
        let w = InstructionWrapper { instruction, ip: self.ip, shape };
        let ghost old_rest = bytes@;
        self.offset = self.offset + shape.len;
        self.ip = self.ip.wrapping_add(shape.len as u64);
        assert(self.code@.subrange(self.offset as int, self.code@.len() as int)
            =~= old_rest.subrange(shape.len as int, old_rest.len() as int));
        Some(w)
    }

    /// All the instructions still to come, in order.
    pub fn collect_all(&mut self) -> (r: Vec<InstructionWrapper>)
        requires
            old(self).wf(),
        ensures
            r@.map_values(|w: InstructionWrapper| w@) == old(self).remaining(),
    {
        let ghost all = self.remaining();
        let mut out: Vec<InstructionWrapper> = Vec::new();
        loop
            invariant
                self.wf(),
                all == old(self).remaining(),
                out@.map_values(|w: InstructionWrapper| w@) + self.remaining() == all,
            decreases self.remaining().len(),
        {
            let ghost before = self.remaining();
            match self.next() {
                None => {
                    assert(before.len() == 0);
                    assert(self.remaining() =~= Seq::<(u64, InstructionShape)>::empty());
                    assert(out@.map_values(|w: InstructionWrapper| w@) + self.remaining()
                        =~= out@.map_values(|w: InstructionWrapper| w@));
                    return out;
                },
                Some(w) => {
                    let ghost prev = out@.map_values(|w: InstructionWrapper| w@);
                    out.push(w);
                    assert(out@.map_values(|w: InstructionWrapper| w@) =~= prev.push(w@));
                    assert(prev.push(w@) + self.remaining() =~= prev + before);
                },
            }
        }
    }
}

/// The decoded instructions of a function's code bytes at `address`.
pub fn decode_all(address: u64, code: &[u8], address_size: usize) -> (r: Vec<InstructionWrapper>)
    requires
        address_size == 4 || address_size == 8,
    ensures
        r@.map_values(|w: InstructionWrapper| w@) == decode_stream((address_size * 8) as u32, code@, address),
{
    let mut iter = InstructionIter::new(address, code, address_size);
    iter.collect_all()
}

} // verus!
