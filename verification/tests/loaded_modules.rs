use kmodinfo::loaded::{is_module_file_name, parse_loaded_module_line, parse_u64, strip_nul_bytes};

#[test]
fn strips_nul_padding() {
    let buf = b"5.4.0-generic\0\0\0\0".to_vec();
    assert_eq!(strip_nul_bytes(&buf), b"5.4.0-generic".to_vec());
    let interior = b"a\0b\0c".to_vec();
    assert_eq!(strip_nul_bytes(&interior), b"abc".to_vec());
    assert_eq!(strip_nul_bytes(&Vec::new()), Vec::<u8>::new());
}

#[test]
fn parses_a_table_line() {
    let line = b"snd_pcm 114688 3 snd_ac97_codec,snd_intel8x0, Live 0x0000".to_vec();
    let m = parse_loaded_module_line(&line).unwrap();
    assert_eq!(m.name, b"snd_pcm".to_vec());
    assert_eq!(m.size, 114688);
    assert_eq!(m.ref_count, 3);
    assert_eq!(
        m.dependencies,
        vec![b"snd_ac97_codec".to_vec(), b"snd_intel8x0".to_vec()]
    );
}

#[test]
fn dash_marks_no_dependencies() {
    let line = b"loop 32768 0 - Live 0x0000".to_vec();
    let m = parse_loaded_module_line(&line).unwrap();
    assert_eq!(m.name, b"loop".to_vec());
    assert!(m.dependencies.is_empty());
}

#[test]
fn short_line_is_rejected() {
    let line = b"loop 32768 0".to_vec();
    assert!(parse_loaded_module_line(&line).is_none());
}

#[test]
fn non_numeric_size_is_rejected() {
    let line = b"loop big 0 - Live".to_vec();
    assert!(parse_loaded_module_line(&line).is_none());
}

#[test]
fn non_numeric_ref_count_is_rejected() {
    let line = b"loop 32768 x - Live".to_vec();
    assert!(parse_loaded_module_line(&line).is_none());
}

#[test]
fn parse_u64_exact_values() {
    assert_eq!(parse_u64(&b"0".to_vec()), Some(0));
    assert_eq!(parse_u64(&b"114688".to_vec()), Some(114688));
    assert_eq!(
        parse_u64(&b"18446744073709551615".to_vec()),
        Some(u64::MAX)
    );
}

#[test]
fn parse_u64_rejects_overflow_and_junk() {
    assert_eq!(parse_u64(&b"18446744073709551616".to_vec()), None);
    assert_eq!(parse_u64(&b"".to_vec()), None);
    assert_eq!(parse_u64(&b"12a".to_vec()), None);
    assert_eq!(parse_u64(&b"-1".to_vec()), None);
}

#[test]
fn module_file_names_end_in_ko_gz() {
    assert!(is_module_file_name(
        &b"/lib/modules/5.4.0/kernel/fs/loop.ko.gz".to_vec()
    ));
    assert!(is_module_file_name(&b"a.ko.gz".to_vec()));
    assert!(!is_module_file_name(&b"loop.ko".to_vec()));
    assert!(!is_module_file_name(&b"loop.ko.gz.bak".to_vec()));
    assert!(!is_module_file_name(&b".ko.g".to_vec()));
    assert!(!is_module_file_name(&b"ko.gz".to_vec()));
}
