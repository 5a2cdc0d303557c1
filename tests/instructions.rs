use tfbindiff::instruction_wrapper::{
    decode_all, InstructionIter, MNEMONIC_SUB, OP_KIND_IMMEDIATE32, OP_KIND_IMMEDIATE8TO32, OP_KIND_REGISTER,
    REGISTER_ESP,
};

#[test]
fn constants_match_the_decoder() {
    assert_eq!(OP_KIND_REGISTER, iced_x86::OpKind::Register as u8);
    assert_eq!(OP_KIND_IMMEDIATE32, iced_x86::OpKind::Immediate32 as u8);
    assert_eq!(OP_KIND_IMMEDIATE8TO32, iced_x86::OpKind::Immediate8to32 as u8);
    assert_eq!(REGISTER_ESP, iced_x86::Register::ESP as u16);
    assert_eq!(MNEMONIC_SUB, iced_x86::Mnemonic::Sub as u16);
}

#[test]
fn decoding_tags_instruction_pointers() {
    // push ebp; mov ebp, esp; mov eax, 1; ret
    let code = [0x55, 0x89, 0xe5, 0xb8, 0x01, 0x00, 0x00, 0x00, 0xc3];
    let v = decode_all(0x401000, &code, 4);
    let ips: Vec<u64> = v.iter().map(|w| w.ip).collect();
    assert_eq!(ips, vec![0x401000, 0x401001, 0x401003, 0x401008]);
    let lens: Vec<usize> = v.iter().map(|w| w.shape.len).collect();
    assert_eq!(lens, vec![1, 2, 5, 1]);
    assert_eq!(v[2].get().ip(), 0x401003);
    assert_eq!(v[2].shape.immediate32, 1);
}

#[test]
fn decoding_in_64_bit_mode() {
    // mov rax, rbx
    let v = decode_all(0x1000, &[0x48, 0x89, 0xd8], 8);
    assert_eq!(v.len(), 1);
    assert_eq!(v[0].get().code(), iced_x86::Code::Mov_rm64_r64);
}

#[test]
fn iterator_hands_out_instructions_in_order() {
    let code = [0x90, 0x90, 0xc3];
    let mut it = InstructionIter::new(0x10, &code, 4);
    assert_eq!(it.next().map(|w| w.ip), Some(0x10));
    assert_eq!(it.next().map(|w| w.ip), Some(0x11));
    assert_eq!(it.next().map(|w| w.ip), Some(0x12));
    assert!(it.next().is_none());
}

#[test]
fn truncated_code_is_consumed() {
    // the first byte of a 5-byte MOV only
    let v = decode_all(0, &[0xb8], 4);
    assert_eq!(v.len(), 1);
    assert_eq!(v[0].shape.len, 1);
}

#[test]
fn immediates_do_not_matter() {
    let a = decode_all(0, &[0xb8, 0x01, 0x00, 0x00, 0x00], 4);
    let b = decode_all(0x100, &[0xb8, 0x02, 0x00, 0x00, 0x00], 4);
    assert!(a[0] == b[0]);
    // displacements either
    let c = decode_all(0, &[0x8b, 0x45, 0x08], 4);
    let d = decode_all(0, &[0x8b, 0x45, 0x0c], 4);
    assert!(c[0] == d[0]);
}

#[test]
fn registers_opcodes_and_kinds_matter() {
    let mov_eax_ebx = decode_all(0, &[0x89, 0xd8], 4);
    let mov_eax_ecx = decode_all(0, &[0x89, 0xc8], 4);
    assert!(mov_eax_ebx[0] != mov_eax_ecx[0]);
    let add = decode_all(0, &[0x01, 0xd8], 4);
    assert!(mov_eax_ebx[0] != add[0]);
    let mov_eax_imm = decode_all(0, &[0xb8, 0x01, 0x00, 0x00, 0x00], 4);
    assert!(mov_eax_ebx[0] != mov_eax_imm[0]);
    assert!(mov_eax_ebx[0] == mov_eax_ebx[0]);
}
