use tfbindiff::eh_frame::{get_fdes, CieFault, EhFrameError, EhPointerApplication, EhPointerFormat, Fde};

fn u32le(v: u32) -> Vec<u8> {
    v.to_le_bytes().to_vec()
}

/// A CIE with augmentation "zR" and the given pointer encoding, at offset 0.
fn cie_zr(encoding: u8) -> Vec<u8> {
    let mut body = vec![0, 0, 0, 0, 1, b'z', b'R', 0, 1, 0x7c, 8, 1, encoding];
    while (body.len() + 4) % 4 != 0 {
        body.push(0);
    }
    let mut out = u32le(body.len() as u32);
    out.extend(body);
    out
}

/// An FDE at `offset` whose CIE starts at `cie_offset`, with a 4-byte begin and range.
fn fde(offset: usize, cie_offset: usize, begin: u32, range: u32) -> Vec<u8> {
    let mut body = u32le((offset + 4 - cie_offset) as u32);
    body.extend(u32le(begin));
    body.extend(u32le(range));
    body.extend([0, 0, 0, 0]);
    let mut out = u32le(body.len() as u32);
    out.extend(body);
    out
}

#[test]
fn pcrel_sdata4_fde_is_decoded() {
    let mut data = cie_zr(0x1b);
    let off = data.len();
    data.extend(fde(off, 0, 0x100, 0x20));
    data.extend(u32le(0));
    let fdes = get_fdes(&data, 4, 0x1000).unwrap();
    // the begin field sits 8 bytes into the FDE
    let expected = 0x1000u64 + (off as u64 + 8) + 0x100;
    assert_eq!(fdes, vec![Fde { begin: expected, length: 0x20 }]);
}

#[test]
fn negative_pcrel_offset_wraps() {
    let mut data = cie_zr(0x1b);
    let off = data.len();
    data.extend(fde(off, 0, (-0x40i32) as u32, 4));
    let fdes = get_fdes(&data, 4, 0x1000).unwrap();
    assert_eq!(fdes[0].begin, 0x1000 + off as u64 + 8 - 0x40);
}

#[test]
fn missing_terminator_ends_the_table() {
    let mut data = cie_zr(0x1b);
    let off = data.len();
    data.extend(fde(off, 0, 0, 1));
    let off2 = data.len();
    data.extend(fde(off2, 0, 0, 2));
    let fdes = get_fdes(&data, 4, 0).unwrap();
    assert_eq!(fdes.len(), 2);
    assert_eq!(fdes[1].length, 2);
}

#[test]
fn empty_section_has_no_fdes() {
    assert_eq!(get_fdes(&[], 4, 0).unwrap(), vec![]);
}

#[test]
fn absptr_with_four_byte_pointers() {
    let mut data = cie_zr(0x10);
    let off = data.len();
    data.extend(fde(off, 0, 0x8000, 0x10));
    let fdes = get_fdes(&data, 4, 0x1000).unwrap();
    assert_eq!(fdes[0].begin, 0x1000 + off as u64 + 8 + 0x8000);
}

#[test]
fn absptr_with_eight_byte_pointers_is_unsupported() {
    let mut data = cie_zr(0x10);
    let off = data.len();
    data.extend(fde(off, 0, 0x8000, 0x10));
    assert_eq!(get_fdes(&data, 8, 0), Err(EhFrameError::UnsupportedPointerSize(8)));
}

#[test]
fn unsupported_format_is_rejected() {
    let mut data = cie_zr(0x13);
    let off = data.len();
    data.extend(fde(off, 0, 0, 1));
    assert_eq!(
        get_fdes(&data, 4, 0),
        Err(EhFrameError::UnsupportedPointerFormat(EhPointerFormat::DW_EH_PE_udata4))
    );
}

#[test]
fn unsupported_application_is_rejected() {
    let mut data = cie_zr(0x3b);
    let off = data.len();
    data.extend(fde(off, 0, 0, 1));
    assert_eq!(
        get_fdes(&data, 4, 0),
        Err(EhFrameError::UnsupportedPointerApplication(EhPointerApplication::DW_EH_PE_datarel))
    );
}

#[test]
fn undefined_nibbles_are_rejected() {
    let data = cie_zr(0x1f);
    assert_eq!(get_fdes(&data, 4, 0), Err(EhFrameError::PointerFormatDecode(0x0f)));
    let data = cie_zr(0x0b);
    assert_eq!(get_fdes(&data, 4, 0), Err(EhFrameError::PointerApplicationDecode(0x00)));
}

#[test]
fn wrong_cie_version() {
    let mut data = cie_zr(0x1b);
    data[8] = 3;
    assert_eq!(get_fdes(&data, 4, 0), Err(EhFrameError::UnsupportedVersion(3)));
}

#[test]
fn unknown_augmentation() {
    let mut data = cie_zr(0x1b);
    data[10] = b'X';
    assert_eq!(get_fdes(&data, 4, 0), Err(EhFrameError::UnsupportedAugmentation(b'X')));
}

#[test]
fn fde_without_cie() {
    let data = fde(0, 0, 0, 1);
    // the CIE pointer of 4 leads back to offset 0, where no CIE was recorded
    assert_eq!(get_fdes(&data, 4, 0), Err(EhFrameError::InvalidCie(0, CieFault::NoSuchCie)));
}

#[test]
fn cie_without_r_augmentation() {
    let mut data = u32le(12);
    data.extend([0, 0, 0, 0, 1, 0, 1, 0x7c, 8, 0, 0, 0]);
    let off = data.len();
    data.extend(fde(off, 0, 0, 1));
    assert_eq!(get_fdes(&data, 4, 0), Err(EhFrameError::InvalidCie(0, CieFault::NoPointerFormat)));
}

#[test]
fn entry_longer_than_declared() {
    let mut data = cie_zr(0x1b);
    let off = data.len();
    let mut f = fde(off, 0, 0, 1);
    f[0] = 8;
    data.extend(f);
    assert_eq!(get_fdes(&data, 4, 0), Err(EhFrameError::EntryOverrun(off as u64)));
}

#[test]
fn truncated_entry() {
    let mut data = cie_zr(0x1b);
    let off = data.len();
    let f = fde(off, 0, 0, 1);
    data.extend(&f[..10]);
    assert_eq!(get_fdes(&data, 4, 0), Err(EhFrameError::UnexpectedEnd));
}

#[test]
fn extended_length_and_personality() {
    // CIE "zPLR": personality encoded sdata4, LSDA encoding, FDE encoding pcrel|sdata4
    let body: Vec<u8> = vec![
        0, 0, 0, 0, 1, b'z', b'P', b'L', b'R', 0, 1, 0x7c, 8, 7, 0x0b, 1, 2, 3, 4, 0x1b, 0x1b, 0, 0, 0,
    ];
    let mut data = u32le(0xffff_ffff);
    data.extend((body.len() as u64).to_le_bytes());
    data.extend(body);
    let off = data.len();
    data.extend(fde(off, 0, 0x10, 0x30));
    let fdes = get_fdes(&data, 4, 0).unwrap();
    assert_eq!(fdes, vec![Fde { begin: off as u64 + 8 + 0x10, length: 0x30 }]);
}

#[test]
fn multi_byte_leb128_fields() {
    // code alignment 0x80 (two bytes), augmentation data length 0x81 (two bytes)
    let mut body: Vec<u8> = vec![0, 0, 0, 0, 1, b'z', b'R', 0, 0x80, 0x01, 0x7c, 8, 0x81, 0x01, 0x1b];
    body.extend(vec![0u8; 0x80]);
    while (body.len() + 4) % 4 != 0 {
        body.push(0);
    }
    let mut data = u32le(body.len() as u32);
    data.extend(body);
    let off = data.len();
    data.extend(fde(off, 0, 0, 5));
    let fdes = get_fdes(&data, 4, 0).unwrap();
    assert_eq!(fdes[0].length, 5);
}

#[test]
fn overlong_leb128_is_rejected() {
    let mut body: Vec<u8> = vec![0, 0, 0, 0, 1, 0];
    body.extend([0xff; 10]);
    body.push(0x01);
    body.extend([0x7c, 8]);
    let mut data = u32le(body.len() as u32);
    data.extend(body);
    assert_eq!(get_fdes(&data, 4, 0), Err(EhFrameError::LebOverflow));
}

#[test]
fn eh_data_field_is_skipped() {
    let body: Vec<u8> = vec![0, 0, 0, 0, 1, b'z', b'e', b'h', b'R', 0, 9, 9, 9, 9, 1, 0x7c, 8, 1, 0x1b, 0, 0, 0];
    let mut data = u32le(body.len() as u32);
    data.extend(body);
    let off = data.len();
    data.extend(fde(off, 0, 0, 7));
    let fdes = get_fdes(&data, 4, 0).unwrap();
    assert_eq!(fdes[0].length, 7);
}
