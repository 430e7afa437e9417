use kmodinfo::errors::ModError;
use kmodinfo::section::find_section;

/// Builds a minimal 64-bit little-endian ELF image whose section table holds
/// a null section, the given named sections, and the section-name table.
fn build_elf64_le(sections: &[(&[u8], &[u8])]) -> Vec<u8> {
    let mut strtab: Vec<u8> = vec![0];
    let mut name_offs: Vec<u64> = Vec::new();
    for (name, _) in sections {
        name_offs.push(strtab.len() as u64);
        strtab.extend_from_slice(name);
        strtab.push(0);
    }
    let strtab_name_off = strtab.len() as u64;
    strtab.extend_from_slice(b".shstrtab");
    strtab.push(0);

    let shnum = (sections.len() + 2) as u64;
    let mut contents: Vec<u8> = Vec::new();
    let mut offsets: Vec<(u64, u64)> = Vec::new();
    let mut cursor = 64u64;
    for (_, data) in sections {
        offsets.push((cursor, data.len() as u64));
        contents.extend_from_slice(data);
        cursor += data.len() as u64;
    }
    let strtab_off = cursor;
    let shoff = strtab_off + strtab.len() as u64;

    let mut img: Vec<u8> = Vec::new();
    img.extend_from_slice(&[0x7F, b'E', b'L', b'F', 2, 1, 1, 0]);
    img.extend_from_slice(&[0u8; 8]);
    img.extend_from_slice(&[1, 0]); // e_type
    img.extend_from_slice(&[0x3E, 0]); // e_machine
    img.extend_from_slice(&1u32.to_le_bytes()); // e_version
    img.extend_from_slice(&0u64.to_le_bytes()); // e_entry
    img.extend_from_slice(&0u64.to_le_bytes()); // e_phoff
    img.extend_from_slice(&shoff.to_le_bytes()); // e_shoff
    img.extend_from_slice(&0u32.to_le_bytes()); // e_flags
    img.extend_from_slice(&64u16.to_le_bytes()); // e_ehsize
    img.extend_from_slice(&0u16.to_le_bytes()); // e_phentsize
    img.extend_from_slice(&0u16.to_le_bytes()); // e_phnum
    img.extend_from_slice(&64u16.to_le_bytes()); // e_shentsize
    img.extend_from_slice(&(shnum as u16).to_le_bytes()); // e_shnum
    img.extend_from_slice(&((shnum - 1) as u16).to_le_bytes()); // e_shstrndx
    assert_eq!(img.len(), 64);
    img.extend_from_slice(&contents);
    img.extend_from_slice(&strtab);

    let entry = |name_off: u64, off: u64, size: u64| -> Vec<u8> {
        let mut e: Vec<u8> = Vec::new();
        e.extend_from_slice(&(name_off as u32).to_le_bytes());
        e.extend_from_slice(&1u32.to_le_bytes()); // sh_type
        e.extend_from_slice(&0u64.to_le_bytes()); // sh_flags
        e.extend_from_slice(&0u64.to_le_bytes()); // sh_addr
        e.extend_from_slice(&off.to_le_bytes()); // sh_offset
        e.extend_from_slice(&size.to_le_bytes()); // sh_size
        e.extend_from_slice(&[0u8; 16]); // sh_link, sh_info, sh_addralign
        e.extend_from_slice(&0u64.to_le_bytes()); // sh_entsize
        e
    };
    img.extend_from_slice(&entry(0, 0, 0)); // null section
    for (i, (off, size)) in offsets.iter().enumerate() {
        img.extend_from_slice(&entry(name_offs[i], *off, *size));
    }
    img.extend_from_slice(&entry(strtab_name_off, strtab_off, strtab.len() as u64));
    img
}

/// Builds a minimal 32-bit little-endian ELF image holding one named section
/// plus the null section and the name table.
fn build_elf32_le(name: &[u8], data: &[u8]) -> Vec<u8> {
    let mut strtab: Vec<u8> = vec![0];
    let name_off = strtab.len() as u32;
    strtab.extend_from_slice(name);
    strtab.push(0);
    let strtab_name_off = strtab.len() as u32;
    strtab.extend_from_slice(b".shstrtab");
    strtab.push(0);

    let data_off = 52u32;
    let strtab_off = data_off + data.len() as u32;
    let shoff = strtab_off + strtab.len() as u32;

    let mut img: Vec<u8> = Vec::new();
    img.extend_from_slice(&[0x7F, b'E', b'L', b'F', 1, 1, 1, 0]);
    img.extend_from_slice(&[0u8; 8]);
    img.extend_from_slice(&[1, 0]); // e_type
    img.extend_from_slice(&[3, 0]); // e_machine
    img.extend_from_slice(&1u32.to_le_bytes()); // e_version
    img.extend_from_slice(&0u32.to_le_bytes()); // e_entry
    img.extend_from_slice(&0u32.to_le_bytes()); // e_phoff
    img.extend_from_slice(&shoff.to_le_bytes()); // e_shoff
    img.extend_from_slice(&0u32.to_le_bytes()); // e_flags
    img.extend_from_slice(&52u16.to_le_bytes()); // e_ehsize
    img.extend_from_slice(&0u16.to_le_bytes()); // e_phentsize
    img.extend_from_slice(&0u16.to_le_bytes()); // e_phnum
    img.extend_from_slice(&40u16.to_le_bytes()); // e_shentsize
    img.extend_from_slice(&3u16.to_le_bytes()); // e_shnum
    img.extend_from_slice(&2u16.to_le_bytes()); // e_shstrndx
    assert_eq!(img.len(), 52);
    img.extend_from_slice(data);
    img.extend_from_slice(&strtab);

    let entry = |name_off: u32, off: u32, size: u32| -> Vec<u8> {
        let mut e: Vec<u8> = Vec::new();
        e.extend_from_slice(&name_off.to_le_bytes());
        e.extend_from_slice(&1u32.to_le_bytes()); // sh_type
        e.extend_from_slice(&0u32.to_le_bytes()); // sh_flags
        e.extend_from_slice(&0u32.to_le_bytes()); // sh_addr
        e.extend_from_slice(&off.to_le_bytes()); // sh_offset
        e.extend_from_slice(&size.to_le_bytes()); // sh_size
        e.extend_from_slice(&[0u8; 16]); // sh_link, sh_info, align, entsize
        assert_eq!(e.len(), 40);
        e
    };
    img.extend_from_slice(&entry(0, 0, 0));
    img.extend_from_slice(&entry(name_off, data_off, data.len() as u32));
    img.extend_from_slice(&entry(strtab_name_off, strtab_off, strtab.len() as u32));
    img
}

/// Builds a minimal 64-bit big-endian ELF image holding one named section
/// plus the null section and the name table.
fn build_elf64_be(name: &[u8], data: &[u8]) -> Vec<u8> {
    let mut strtab: Vec<u8> = vec![0];
    let name_off = strtab.len() as u32;
    strtab.extend_from_slice(name);
    strtab.push(0);
    let strtab_name_off = strtab.len() as u32;
    strtab.extend_from_slice(b".shstrtab");
    strtab.push(0);

    let data_off = 64u64;
    let strtab_off = data_off + data.len() as u64;
    let shoff = strtab_off + strtab.len() as u64;

    let mut img: Vec<u8> = Vec::new();
    img.extend_from_slice(&[0x7F, b'E', b'L', b'F', 2, 2, 1, 0]);
    img.extend_from_slice(&[0u8; 8]);
    img.extend_from_slice(&[0, 1]); // e_type
    img.extend_from_slice(&[0, 0x16]); // e_machine
    img.extend_from_slice(&1u32.to_be_bytes()); // e_version
    img.extend_from_slice(&0u64.to_be_bytes()); // e_entry
    img.extend_from_slice(&0u64.to_be_bytes()); // e_phoff
    img.extend_from_slice(&shoff.to_be_bytes()); // e_shoff
    img.extend_from_slice(&0u32.to_be_bytes()); // e_flags
    img.extend_from_slice(&64u16.to_be_bytes()); // e_ehsize
    img.extend_from_slice(&0u16.to_be_bytes()); // e_phentsize
    img.extend_from_slice(&0u16.to_be_bytes()); // e_phnum
    img.extend_from_slice(&64u16.to_be_bytes()); // e_shentsize
    img.extend_from_slice(&3u16.to_be_bytes()); // e_shnum
    img.extend_from_slice(&2u16.to_be_bytes()); // e_shstrndx
    assert_eq!(img.len(), 64);
    img.extend_from_slice(data);
    img.extend_from_slice(&strtab);

    let entry = |name_off: u32, off: u64, size: u64| -> Vec<u8> {
        let mut e: Vec<u8> = Vec::new();
        e.extend_from_slice(&name_off.to_be_bytes());
        e.extend_from_slice(&1u32.to_be_bytes());
        e.extend_from_slice(&0u64.to_be_bytes());
        e.extend_from_slice(&0u64.to_be_bytes());
        e.extend_from_slice(&off.to_be_bytes());
        e.extend_from_slice(&size.to_be_bytes());
        e.extend_from_slice(&[0u8; 16]);
        e.extend_from_slice(&0u64.to_be_bytes());
        assert_eq!(e.len(), 64);
        e
    };
    img.extend_from_slice(&entry(0, 0, 0));
    img.extend_from_slice(&entry(name_off, data_off, data.len() as u64));
    img.extend_from_slice(&entry(strtab_name_off, strtab_off, strtab.len() as u64));
    img
}

#[test]
fn finds_section_in_32_bit_image() {
    let img = build_elf32_le(b".modinfo", b"license=GPL\0");
    let name = b".modinfo".to_vec();
    assert_eq!(
        find_section(&img, &name).unwrap(),
        Some(b"license=GPL\0".to_vec())
    );
    let other = b".text".to_vec();
    assert_eq!(find_section(&img, &other).unwrap(), None);
}

#[test]
fn finds_section_in_big_endian_image() {
    let img = build_elf64_be(b".modinfo", b"vermagic=5.4.0\0");
    let name = b".modinfo".to_vec();
    assert_eq!(
        find_section(&img, &name).unwrap(),
        Some(b"vermagic=5.4.0\0".to_vec())
    );
}

#[test]
fn finds_named_section() {
    let img = build_elf64_le(&[(b".text", b"\x90\x90"), (b".modinfo", b"license=GPL\0")]);
    let name = b".modinfo".to_vec();
    let got = find_section(&img, &name).unwrap();
    assert_eq!(got, Some(b"license=GPL\0".to_vec()));
}

#[test]
fn missing_section_is_none_not_error() {
    let img = build_elf64_le(&[(b".text", b"\x90\x90")]);
    let name = b".modinfo".to_vec();
    assert_eq!(find_section(&img, &name).unwrap(), None);
}

#[test]
fn section_name_must_match_exactly() {
    let img = build_elf64_le(&[(b".modinfo2", b"x")]);
    let name = b".modinfo".to_vec();
    assert_eq!(find_section(&img, &name).unwrap(), None);
}

#[test]
fn bad_magic_is_malformed() {
    let mut img = build_elf64_le(&[(b".modinfo", b"x")]);
    img[0] = 0x7E;
    let name = b".modinfo".to_vec();
    assert_eq!(
        find_section(&img, &name),
        Err(ModError::MalformedBinaryImage)
    );
}

#[test]
fn truncated_header_is_malformed() {
    let img = build_elf64_le(&[(b".modinfo", b"x")]);
    let short = img[..40].to_vec();
    let name = b".modinfo".to_vec();
    assert_eq!(
        find_section(&short, &name),
        Err(ModError::MalformedBinaryImage)
    );
}

#[test]
fn section_table_past_image_end_is_malformed() {
    let mut img = build_elf64_le(&[(b".modinfo", b"x")]);
    let len = img.len();
    img.truncate(len - 10);
    let name = b".modinfo".to_vec();
    assert_eq!(
        find_section(&img, &name),
        Err(ModError::MalformedBinaryImage)
    );
}

#[test]
fn section_content_past_image_end_is_malformed() {
    let mut img = build_elf64_le(&[(b".modinfo", b"abc")]);
    // Grow the matched section's recorded size far past the image length.
    // Its entry is the second one in the table; sh_size sits 0x20 into it.
    let shoff = u64::from_le_bytes(img[0x28..0x30].try_into().unwrap()) as usize;
    let size_pos = shoff + 64 + 0x20;
    img[size_pos..size_pos + 8].copy_from_slice(&u64::MAX.to_le_bytes());
    let name = b".modinfo".to_vec();
    assert_eq!(
        find_section(&img, &name),
        Err(ModError::MalformedBinaryImage)
    );
}

#[test]
fn empty_image_is_malformed() {
    let img: Vec<u8> = Vec::new();
    let name = b".modinfo".to_vec();
    assert_eq!(
        find_section(&img, &name),
        Err(ModError::MalformedBinaryImage)
    );
}
