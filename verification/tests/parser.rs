use kmodinfo::errors::ModError;
use kmodinfo::modinfo::parse_metadata;

fn section(records: &[&[u8]]) -> Vec<u8> {
    let mut out: Vec<u8> = Vec::new();
    for r in records {
        out.extend_from_slice(r);
        out.push(0);
    }
    out
}

#[test]
fn round_trip_license_and_authors() {
    let sec = section(&[b"license=GPL", b"author=Alice", b"author=Bob"]);
    let (info, diags) = parse_metadata(&sec).unwrap();
    assert_eq!(info.license, b"GPL".to_vec());
    assert_eq!(info.authors, vec![b"Alice".to_vec(), b"Bob".to_vec()]);
    assert!(diags.is_empty());
    assert!(!info.intree);
    assert_eq!(info.description, Vec::<u8>::new());
}

#[test]
fn parm_then_parmtype_sets_kind() {
    let sec = section(&[b"parm=foo:bar", b"parmtype=foo:int"]);
    let (info, _) = parse_metadata(&sec).unwrap();
    let name = b"foo".to_vec();
    let p = info.get_parameter(&name).unwrap();
    assert_eq!(p.description, b"bar".to_vec());
    assert_eq!(p.kind, b"int".to_vec());
}

#[test]
fn parmtype_before_parm_leaves_kind_empty() {
    let sec = section(&[b"parmtype=foo:int", b"parm=foo:bar"]);
    let (info, _) = parse_metadata(&sec).unwrap();
    let name = b"foo".to_vec();
    let p = info.get_parameter(&name).unwrap();
    assert_eq!(p.description, b"bar".to_vec());
    assert_eq!(p.kind, Vec::<u8>::new());
}

#[test]
fn parmtype_for_unknown_name_is_dropped() {
    let sec = section(&[b"parmtype=foo:int"]);
    let (info, diags) = parse_metadata(&sec).unwrap();
    let name = b"foo".to_vec();
    assert!(info.get_parameter(&name).is_none());
    assert!(diags.is_empty());
}

#[test]
fn parm_overwrites_wholesale() {
    let sec = section(&[b"parm=foo:one", b"parmtype=foo:int", b"parm=foo:two"]);
    let (info, _) = parse_metadata(&sec).unwrap();
    let name = b"foo".to_vec();
    let p = info.get_parameter(&name).unwrap();
    assert_eq!(p.description, b"two".to_vec());
    assert_eq!(p.kind, Vec::<u8>::new());
}

#[test]
fn depends_splits_on_commas() {
    let sec = section(&[b"depends=a,b,c"]);
    let (info, _) = parse_metadata(&sec).unwrap();
    assert_eq!(
        info.dependencies,
        vec![b"a".to_vec(), b"b".to_vec(), b"c".to_vec()]
    );
}

#[test]
fn empty_depends_yields_no_entries() {
    let sec = section(&[b"depends="]);
    let (info, _) = parse_metadata(&sec).unwrap();
    assert!(info.dependencies.is_empty());
}

#[test]
fn description_last_write_wins() {
    let sec = section(&[b"description=first", b"description=second"]);
    let (info, _) = parse_metadata(&sec).unwrap();
    assert_eq!(info.description, b"second".to_vec());
}

#[test]
fn vermagic_last_write_wins() {
    let sec = section(&[b"vermagic=one", b"vermagic=two"]);
    let (info, _) = parse_metadata(&sec).unwrap();
    assert_eq!(info.vermagic, b"two".to_vec());
}

#[test]
fn unrecognized_record_is_reported_not_fatal() {
    let sec = section(&[b"license=GPL", b"foo=bar", b"alias=pci:x"]);
    let (info, diags) = parse_metadata(&sec).unwrap();
    assert_eq!(info.license, b"GPL".to_vec());
    assert_eq!(info.alias, vec![b"pci:x".to_vec()]);
    assert_eq!(diags, vec![b"foo=bar".to_vec()]);
}

#[test]
fn record_without_equals_is_reported() {
    let sec = section(&[b"justnoise"]);
    let (info, diags) = parse_metadata(&sec).unwrap();
    assert_eq!(diags, vec![b"justnoise".to_vec()]);
    assert!(info.license.is_empty());
}

#[test]
fn ignored_prefixes_have_no_effect() {
    let sec = section(&[
        b"version=1.0",
        b"srcversion=ABCDEF",
        b"staging=Y",
        b"release_date=2020-01-01",
        b"softdep=pre: foo",
    ]);
    let (info, diags) = parse_metadata(&sec).unwrap();
    assert!(diags.is_empty());
    assert!(info.license.is_empty());
    assert!(info.dependencies.is_empty());
}

#[test]
fn intree_exactly_capital_y() {
    let (info, _) = parse_metadata(&section(&[b"intree=Y"])).unwrap();
    assert!(info.intree);
    let (info, _) = parse_metadata(&section(&[b"intree=y"])).unwrap();
    assert!(!info.intree);
    let (info, _) = parse_metadata(&section(&[b"intree=yes"])).unwrap();
    assert!(!info.intree);
    let (info, _) = parse_metadata(&section(&[b"license=GPL"])).unwrap();
    assert!(!info.intree);
}

#[test]
fn firmware_records_accumulate() {
    let sec = section(&[b"firmware=a.bin", b"firmware=b.bin"]);
    let (info, _) = parse_metadata(&sec).unwrap();
    assert_eq!(info.firmwares, vec![b"a.bin".to_vec(), b"b.bin".to_vec()]);
}

#[test]
fn alias_order_and_duplicates_kept() {
    let sec = section(&[b"alias=x", b"alias=y", b"alias=x"]);
    let (info, _) = parse_metadata(&sec).unwrap();
    assert_eq!(
        info.alias,
        vec![b"x".to_vec(), b"y".to_vec(), b"x".to_vec()]
    );
}

#[test]
fn invalid_utf8_record_aborts_parse() {
    let mut sec = section(&[b"license=GPL"]);
    sec.extend_from_slice(&[0xFFu8, 0xFE]);
    sec.push(0);
    match parse_metadata(&sec) {
        Err(e) => assert_eq!(e, ModError::MalformedMetadataRecord),
        Ok(_) => panic!("parse accepted invalid text"),
    }
}

#[test]
fn trailing_empty_record_is_silent() {
    // The trailing NUL makes an empty last piece; it is skipped without a
    // diagnostic, as is a doubled NUL in the middle.
    let mut sec = section(&[b"license=GPL"]);
    sec.push(0);
    let (info, diags) = parse_metadata(&sec).unwrap();
    assert_eq!(info.license, b"GPL".to_vec());
    assert!(diags.is_empty());
}

#[test]
fn parm_without_colon_is_reported() {
    let sec = section(&[b"parm=foo"]);
    let (info, diags) = parse_metadata(&sec).unwrap();
    let name = b"foo".to_vec();
    assert!(info.get_parameter(&name).is_none());
    assert_eq!(diags, vec![b"parm=foo".to_vec()]);
}
