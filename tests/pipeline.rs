use tfbindiff::compare::compare_programs;
use tfbindiff::program::Program;

fn put16(v: &mut Vec<u8>, x: u16) {
    v.extend(x.to_le_bytes());
}

fn put32(v: &mut Vec<u8>, x: u32) {
    v.extend(x.to_le_bytes());
}

fn align4(v: &mut Vec<u8>) {
    while v.len() % 4 != 0 {
        v.push(0);
    }
}

/// `.eh_frame` at 0x2000 with one CIE and an FDE per (address, length).
fn eh_frame(functions: &[(u32, u32)]) -> Vec<u8> {
    let mut d = Vec::new();
    put32(&mut d, 16);
    d.extend([0, 0, 0, 0, 1, b'z', b'R', 0, 1, 0x7c, 8, 1, 0x1b, 0, 0, 0]);
    for (address, length) in functions {
        let start = d.len() as u32;
        put32(&mut d, 16);
        put32(&mut d, start + 4);
        let field = 0x2000 + start + 8;
        put32(&mut d, address.wrapping_sub(field));
        put32(&mut d, *length);
        put32(&mut d, 0);
    }
    d
}

/// A 32-bit x86 ELF executable with `.text` at 0x1000 holding `code`, one global
/// function symbol per (name, address, length), and the matching `.eh_frame`.
fn elf32(code: &[u8], functions: &[(&str, u32, u32)]) -> Vec<u8> {
    let eh = eh_frame(&functions.iter().map(|f| (f.1, f.2)).collect::<Vec<_>>());
    let mut strtab = vec![0u8];
    let mut symtab = vec![0u8; 16];
    for (name, address, length) in functions {
        let name_offset = strtab.len() as u32;
        strtab.extend(name.as_bytes());
        strtab.push(0);
        put32(&mut symtab, name_offset);
        put32(&mut symtab, *address);
        put32(&mut symtab, *length);
        symtab.extend([0x12, 0]);
        put16(&mut symtab, 1);
    }
    let shstrtab = b"\0.text\0.eh_frame\0.symtab\0.strtab\0.shstrtab\0".to_vec();

    let mut file = vec![0u8; 52];
    let mut offsets = Vec::new();
    for part in [code, &eh[..], &symtab[..], &strtab[..], &shstrtab[..]] {
        align4(&mut file);
        offsets.push(file.len() as u32);
        file.extend_from_slice(part);
    }
    align4(&mut file);
    let shoff = file.len() as u32;

    // section headers: name, type, flags, addr, offset, size, link, info, align, entsize
    let headers: [[u32; 10]; 6] = [
        [0; 10],
        [1, 1, 6, 0x1000, offsets[0], code.len() as u32, 0, 0, 16, 0],
        [7, 1, 2, 0x2000, offsets[1], eh.len() as u32, 0, 0, 4, 0],
        [17, 2, 0, 0, offsets[2], symtab.len() as u32, 4, 1, 4, 16],
        [25, 3, 0, 0, offsets[3], strtab.len() as u32, 0, 0, 1, 0],
        [33, 3, 0, 0, offsets[4], shstrtab.len() as u32, 0, 0, 1, 0],
    ];
    for h in headers {
        for x in h {
            put32(&mut file, x);
        }
    }

    let mut header = vec![0x7f, b'E', b'L', b'F', 1, 1, 1, 0, 0, 0, 0, 0, 0, 0, 0, 0];
    put16(&mut header, 2);
    put16(&mut header, 3);
    put32(&mut header, 1);
    put32(&mut header, 0x1000);
    put32(&mut header, 0);
    put32(&mut header, shoff);
    put32(&mut header, 0);
    put16(&mut header, 52);
    put16(&mut header, 32);
    put16(&mut header, 0);
    put16(&mut header, 40);
    put16(&mut header, 6);
    put16(&mut header, 5);
    file[..52].copy_from_slice(&header);
    file
}

// f: push ebp; mov ebp, esp; pop ebp; ret      g: mov eax, <reg>; ret
fn binary(g_source_register: u8) -> Vec<u8> {
    let code = [0x55, 0x89, 0xe5, 0x5d, 0xc3, 0x89, g_source_register, 0xc3];
    elf32(&code, &[("f", 0x1000, 5), ("g", 0x1005, 3)])
}

#[test]
fn object_file_is_loaded() {
    let p = Program::load(&binary(0xd8)).unwrap();
    assert_eq!(p.pointer_size, 4);
    let mut functions: Vec<(String, u64, Vec<u8>)> =
        p.functions.iter().map(|(n, f)| (n.clone(), f.address, f.content.clone())).collect();
    functions.sort();
    assert_eq!(
        functions,
        vec![
            ("f".to_string(), 0x1000, vec![0x55, 0x89, 0xe5, 0x5d, 0xc3]),
            ("g".to_string(), 0x1005, vec![0x89, 0xd8, 0xc3]),
        ]
    );
    assert_eq!(p.symbol_map.get(&0x1005).map(|s| s.as_str()), Some("g"));
}

#[test]
fn same_file_twice_has_no_changes() {
    let data = binary(0xd8);
    let p1 = Program::load(&data).unwrap();
    let p2 = Program::load(&data).unwrap();
    assert!(compare_programs(&p1, &p2).unwrap().is_empty());
}

#[test]
fn changed_function_is_reported() {
    let p1 = Program::load(&binary(0xd8)).unwrap();
    let p2 = Program::load(&binary(0xc8)).unwrap();
    let changes = compare_programs(&p1, &p2).unwrap();
    assert_eq!(changes.len(), 1);
    assert_eq!(changes[0].name(), "g");
    assert_eq!(changes[0].address1(), 0x1005);
    assert_eq!(changes[0].side_by_side().len(), 2);
}
