use std::io::{Read, Write};

use kmodinfo::errors::ModError;
use kmodinfo::extract::extract_module_info;
use kmodinfo::inflate::decompress;

fn gzip(data: &[u8]) -> Vec<u8> {
    let mut enc = flate2::write::GzEncoder::new(Vec::new(), flate2::Compression::default());
    enc.write_all(data).unwrap();
    enc.finish().unwrap()
}

fn gunzip_reference(data: &[u8]) -> Vec<u8> {
    let mut dec = flate2::read::GzDecoder::new(data);
    let mut out = Vec::new();
    dec.read_to_end(&mut out).unwrap();
    out
}

/// The same minimal 64-bit little-endian image builder the section tests use.
fn build_elf64_le(sections: &[(&[u8], &[u8])]) -> Vec<u8> {
    let mut strtab: Vec<u8> = vec![0];
    let mut name_offs: Vec<u64> = Vec::new();
    for (name, _) in sections {
        name_offs.push(strtab.len() as u64);
        strtab.extend_from_slice(name);
        strtab.push(0);
    }
    let strtab_name_off = strtab.len() as u64;
    strtab.extend_from_slice(b".shstrtab");
    strtab.push(0);

    let shnum = (sections.len() + 2) as u64;
    let mut contents: Vec<u8> = Vec::new();
    let mut offsets: Vec<(u64, u64)> = Vec::new();
    let mut cursor = 64u64;
    for (_, data) in sections {
        offsets.push((cursor, data.len() as u64));
        contents.extend_from_slice(data);
        cursor += data.len() as u64;
    }
    let strtab_off = cursor;
    let shoff = strtab_off + strtab.len() as u64;

    let mut img: Vec<u8> = Vec::new();
    img.extend_from_slice(&[0x7F, b'E', b'L', b'F', 2, 1, 1, 0]);
    img.extend_from_slice(&[0u8; 8]);
    img.extend_from_slice(&[1, 0]);
    img.extend_from_slice(&[0x3E, 0]);
    img.extend_from_slice(&1u32.to_le_bytes());
    img.extend_from_slice(&0u64.to_le_bytes());
    img.extend_from_slice(&0u64.to_le_bytes());
    img.extend_from_slice(&shoff.to_le_bytes());
    img.extend_from_slice(&0u32.to_le_bytes());
    img.extend_from_slice(&64u16.to_le_bytes());
    img.extend_from_slice(&0u16.to_le_bytes());
    img.extend_from_slice(&0u16.to_le_bytes());
    img.extend_from_slice(&64u16.to_le_bytes());
    img.extend_from_slice(&(shnum as u16).to_le_bytes());
    img.extend_from_slice(&((shnum - 1) as u16).to_le_bytes());
    img.extend_from_slice(&contents);
    img.extend_from_slice(&strtab);

    let entry = |name_off: u64, off: u64, size: u64| -> Vec<u8> {
        let mut e: Vec<u8> = Vec::new();
        e.extend_from_slice(&(name_off as u32).to_le_bytes());
        e.extend_from_slice(&1u32.to_le_bytes());
        e.extend_from_slice(&0u64.to_le_bytes());
        e.extend_from_slice(&0u64.to_le_bytes());
        e.extend_from_slice(&off.to_le_bytes());
        e.extend_from_slice(&size.to_le_bytes());
        e.extend_from_slice(&[0u8; 16]);
        e.extend_from_slice(&0u64.to_le_bytes());
        e
    };
    img.extend_from_slice(&entry(0, 0, 0));
    for (i, (off, size)) in offsets.iter().enumerate() {
        img.extend_from_slice(&entry(name_offs[i], *off, *size));
    }
    img.extend_from_slice(&entry(strtab_name_off, strtab_off, strtab.len() as u64));
    img
}

#[test]
fn decompress_round_trips() {
    let data = b"a stream of bytes that is long enough to actually deflate \
                 a stream of bytes that is long enough to actually deflate";
    let compressed = gzip(data);
    assert_ne!(compressed, data.to_vec());
    let inflated = decompress(&compressed).unwrap();
    assert_eq!(inflated, data.to_vec());
    assert_eq!(inflated, gunzip_reference(&compressed));
}

#[test]
fn truncated_stream_is_corrupt_never_partial() {
    let data: Vec<u8> = (0..4096u32).map(|i| (i % 251) as u8).collect();
    let compressed = gzip(&data);
    let cut = compressed.len() - compressed.len() / 4;
    let truncated = compressed[..cut].to_vec();
    assert_eq!(
        decompress(&truncated),
        Err(ModError::CorruptCompressionStream)
    );
}

#[test]
fn garbage_stream_is_corrupt() {
    let garbage = b"this is not a compressed stream at all".to_vec();
    assert_eq!(
        decompress(&garbage),
        Err(ModError::CorruptCompressionStream)
    );
}

#[test]
fn extract_end_to_end() {
    let img = build_elf64_le(&[(
        b".modinfo",
        b"license=GPL\0author=Alice\0depends=a,b\0intree=Y\0",
    )]);
    let compressed = gzip(&img);
    let (info, diags) = extract_module_info(&compressed).unwrap().unwrap();
    assert_eq!(info.license, b"GPL".to_vec());
    assert_eq!(info.authors, vec![b"Alice".to_vec()]);
    assert_eq!(info.dependencies, vec![b"a".to_vec(), b"b".to_vec()]);
    assert!(info.intree);
    assert!(diags.is_empty());
}

#[test]
fn extract_without_metadata_section_is_none() {
    let img = build_elf64_le(&[(b".text", b"\x90")]);
    let compressed = gzip(&img);
    match extract_module_info(&compressed) {
        Ok(None) => {},
        _ => panic!("expected the normal empty result"),
    }
}

#[test]
fn extract_on_corrupt_stream_fails_first() {
    let img = build_elf64_le(&[(b".modinfo", b"license=GPL\0")]);
    let mut compressed = gzip(&img);
    let cut = compressed.len() - compressed.len() / 4;
    compressed.truncate(cut);
    match extract_module_info(&compressed) {
        Err(e) => assert_eq!(e, ModError::CorruptCompressionStream),
        Ok(_) => panic!("expected a corrupt-stream failure"),
    }
}

#[test]
fn extract_on_non_elf_payload_is_malformed() {
    let compressed = gzip(b"not an elf image");
    match extract_module_info(&compressed) {
        Err(e) => assert_eq!(e, ModError::MalformedBinaryImage),
        Ok(_) => panic!("expected a malformed-image failure"),
    }
}
