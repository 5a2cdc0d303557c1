use tfbindiff::program::{LoadError, ObjectImage, Program, SectionData};
use tfbindiff::util::{demangle_symbol, display_name};

fn eh_frame_with_one_fde(begin_field: u32, range: u32) -> Vec<u8> {
    let mut data = 16u32.to_le_bytes().to_vec();
    data.extend([0, 0, 0, 0, 1, b'z', b'R', 0, 1, 0x7c, 8, 1, 0x1b, 0, 0, 0]);
    data.extend(16u32.to_le_bytes());
    data.extend(24u32.to_le_bytes());
    data.extend(begin_field.to_le_bytes());
    data.extend(range.to_le_bytes());
    data.extend([0, 0, 0, 0]);
    data
}

fn image(eh_address: u64, begin_field: u32, range: u32, symbols: Vec<(u64, String)>) -> ObjectImage {
    ObjectImage {
        is_64: false,
        sections: vec![
            SectionData { name: ".text".to_string(), address: 0x1000, size: 0x10, data: Some((0u8..0x10).collect()) },
            SectionData {
                name: ".eh_frame".to_string(),
                address: eh_address,
                size: 40,
                data: Some(eh_frame_with_one_fde(begin_field, range)),
            },
        ],
        symbols,
    }
}

#[test]
fn function_bytes_are_copied_out() {
    // the FDE's begin field sits at 0x2000 + 28; it points back to 0x1004
    let begin_field = (0x1004i64 - (0x2000 + 28)) as i32 as u32;
    let img = image(0x2000, begin_field, 4, vec![(0x1004, "f".to_string())]);
    let p = Program::from_image(&img).unwrap();
    assert_eq!(p.pointer_size, 4);
    assert_eq!(p.functions.len(), 1);
    assert_eq!(p.functions[0].0, "f");
    assert_eq!(p.functions[0].1.address, 0x1004);
    assert_eq!(p.functions[0].1.content, vec![4, 5, 6, 7]);
    assert_eq!(p.get_data_for_function(&p.functions[0].1), Some(&[4u8, 5, 6, 7][..]));
}

#[test]
fn fde_without_symbol_is_skipped() {
    let begin_field = (0x1004i64 - (0x2000 + 28)) as i32 as u32;
    let img = image(0x2000, begin_field, 4, vec![(0x1008, "g".to_string())]);
    let p = Program::from_image(&img).unwrap();
    assert!(p.functions.is_empty());
    assert_eq!(p.symbol_map.get(&0x1008).map(|s| s.as_str()), Some("g"));
}

#[test]
fn function_past_its_section_is_rejected() {
    let begin_field = (0x100ci64 - (0x2000 + 28)) as i32 as u32;
    let img = image(0x2000, begin_field, 8, vec![(0x100c, "f".to_string())]);
    assert_eq!(Program::from_image(&img).err(), Some(LoadError::MissingSection(0x100c)));
}

#[test]
fn function_outside_every_section_is_rejected() {
    let begin_field = (0x5000i64 - (0x2000 + 28)) as i32 as u32;
    let img = image(0x2000, begin_field, 8, vec![(0x5000, "f".to_string())]);
    assert_eq!(Program::from_image(&img).err(), Some(LoadError::MissingSection(0x5000)));
}

#[test]
fn missing_eh_frame_is_rejected() {
    let mut img = image(0x2000, 0, 4, vec![]);
    img.sections.pop();
    assert_eq!(Program::from_image(&img).err(), Some(LoadError::MissingEhFrame));
}

#[test]
fn malformed_eh_frame_is_reported() {
    let mut img = image(0x2000, 0, 4, vec![]);
    if let Some(d) = img.sections[1].data.as_mut() {
        d[8] = 2;
    }
    assert_eq!(
        Program::from_image(&img).err(),
        Some(LoadError::EhFrame(tfbindiff::eh_frame::EhFrameError::UnsupportedVersion(2)))
    );
}

#[test]
fn later_symbol_at_an_address_wins() {
    let begin_field = (0x1004i64 - (0x2000 + 28)) as i32 as u32;
    let img = image(0x2000, begin_field, 4, vec![(0x1004, "a".to_string()), (0x1004, "b".to_string())]);
    let p = Program::from_image(&img).unwrap();
    assert_eq!(p.functions[0].0, "b");
}

#[test]
fn garbage_is_no_object() {
    assert_eq!(Program::load(&[1, 2, 3, 4]).err(), Some(LoadError::MalformedObject));
}

#[test]
fn demangling_drops_parameters() {
    assert_eq!(demangle_symbol("_ZN3foo3barEi"), Some("foo::bar".to_string()));
    assert_eq!(demangle_symbol("main"), None);
    assert_eq!(display_name("_ZN3foo3barEi"), "foo::bar");
    assert_eq!(display_name("main"), "main");
}

#[test]
fn symbol_display_names() {
    let begin_field = (0x1004i64 - (0x2000 + 28)) as i32 as u32;
    let img = image(0x2000, begin_field, 4, vec![(0x1004, "_ZN3foo3barEi".to_string())]);
    let p = Program::from_image(&img).unwrap();
    assert_eq!(p.symbol_display_name(0x1004), Some("foo::bar".to_string()));
    assert_eq!(p.symbol_display_name(0x1005), None);
}
