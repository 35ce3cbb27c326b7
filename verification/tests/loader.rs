use zeus::kernel::process::loader::{Data, LoadError, Loader, Program};

/// A 64-bit little-endian ELF file with one program header and no sections.
fn tiny_elf() -> Vec<u8> {
    let mut b = vec![0u8; 64 + 56];
    b[0..4].copy_from_slice(&[0x7f, b'E', b'L', b'F']);
    b[4] = 2; // 64-bit
    b[5] = 1; // little endian
    b[6] = 1; // version
    b[16..18].copy_from_slice(&2u16.to_le_bytes()); // executable
    b[18..20].copy_from_slice(&243u16.to_le_bytes()); // riscv
    b[20..24].copy_from_slice(&1u32.to_le_bytes());
    b[32..40].copy_from_slice(&64u64.to_le_bytes()); // program headers at 64
    b[52..54].copy_from_slice(&64u16.to_le_bytes()); // header size
    b[54..56].copy_from_slice(&56u16.to_le_bytes()); // program header size
    b[56..58].copy_from_slice(&1u16.to_le_bytes()); // one program header
    b[58..60].copy_from_slice(&64u16.to_le_bytes()); // section header size
    let ph = 64;
    b[ph..ph + 4].copy_from_slice(&1u32.to_le_bytes()); // loadable
    b[ph + 16..ph + 24].copy_from_slice(&0x1000u64.to_le_bytes()); // vaddr
    b[ph + 40..ph + 48].copy_from_slice(&0x234u64.to_le_bytes()); // memsz
    b
}

#[test]
fn program_image() {
    let mut p = Program::new(0x1000..0x1004);
    assert_eq!(p.start(), 0x1000);
    assert_eq!(p.size(), 4);
    assert_eq!(p.byte(2), 0);
    p.insert(&[1, 2, 3, 4]);
    assert_eq!(p.byte(2), 3);
    assert_eq!(p.start(), 0x1000);
}

#[test]
fn data_fields() {
    assert_eq!(Data::Segment { addr: 5, size: 6 }.addr(), 5);
    assert_eq!(Data::Section { addr: 5, size: 6 }.size(), 6);
}

#[test]
fn garbage_is_not_an_elf_file() {
    assert!(matches!(Loader::new(&[1, 2, 3]), Err(LoadError::InvalidElf)));
    assert!(matches!(Loader::new(&[0u8; 200]), Err(LoadError::InvalidElf)));
}

#[test]
fn a_tiny_elf_file_loads() {
    let bytes = tiny_elf();
    let mut l = Loader::new(&bytes).expect("parses");
    assert_eq!(l.pieces(), vec![Data::Segment { addr: 0x1000, size: 0x234 }]);
    let p = l.load().expect("loads");
    assert_eq!(p.start(), 0x1000);
    assert_eq!(p.size(), 0x234);
}

#[test]
fn load_spans_all_pieces() {
    let mut l = Loader::from_headers(Some(vec![(0x2000, 0x100), (0x1000, 0x10)]), Some(vec![(0x3000, 0x20)]));
    assert_eq!(
        l.pieces(),
        vec![
            Data::Segment { addr: 0x2000, size: 0x100 },
            Data::Segment { addr: 0x1000, size: 0x10 },
            Data::Section { addr: 0x3000, size: 0x20 },
        ]
    );
    let p = l.load().expect("loads");
    assert_eq!(p.start(), 0x1000);
    assert_eq!(p.size(), 0x2020);
    let mut empty = Loader::from_headers(None, None);
    let p = empty.load().expect("loads");
    assert_eq!((p.start(), p.size()), (0, 0));
}
