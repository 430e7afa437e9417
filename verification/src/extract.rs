//! The whole extraction pipeline for one module binary: decompress, locate
//! the metadata section, parse its records.

use vstd::prelude::*;

use crate::bytes::split_on;
use crate::errors::ModError;
use crate::inflate::{decompress, inflate_of};
use crate::modinfo::{
    all_records_utf8, fold_records, model_of, parse_metadata, ModuleInfo, SpecInfo,
};
use crate::section::{find_section, spec_find_section};

verus! {

/// The name of the metadata section: `.modinfo`.
pub open spec fn modinfo_name() -> Seq<u8> {
    seq![46u8, 109, 111, 100, 105, 110, 102, 111]
}

/// The metadata section's name as a byte vector.
pub fn modinfo_section_name() -> (r: Vec<u8>)
    ensures
        r@ == modinfo_name(),
{
    let r: Vec<u8> = vec![46u8, 109, 111, 100, 105, 110, 102, 111];
    proof {
        assert(r@ =~= modinfo_name());
    }
    r
}

/// What the pipeline yields on the compressed bytes `data`: the parsed
/// metadata of the inflated image's `.modinfo` section, `Ok(None)` when the
/// image has no such section, and the first stage's error otherwise.
pub open spec fn spec_extract(data: Seq<u8>) -> Result<Option<SpecInfo>, ModError> {
    match inflate_of(data) {
        None => Err(ModError::CorruptCompressionStream),
        Some(img) => match spec_find_section(img, modinfo_name()) {
            Err(_) => Err(ModError::MalformedBinaryImage),
            Ok(None) => Ok(None),
            Ok(Some(sec)) => {
                if all_records_utf8(split_on(sec, 0)) {
                    Ok(Some(fold_records(split_on(sec, 0))))
                } else {
                    Err(ModError::MalformedMetadataRecord)
                }
            },
        },
    }
}

/// Runs the pipeline on one compressed module binary: inflate `data`, find
/// its `.modinfo` section, and parse the section's records. A missing
/// section is the normal empty result `Ok(None)`; each stage's failure is
/// reported as that stage's error. On success the returned `ModuleInfo` and
/// unrecognized-record diagnostics are exactly the fold of the section's
/// records.
pub fn extract_module_info(data: &Vec<u8>) -> (r: Result<
    Option<(ModuleInfo, Vec<Vec<u8>>)>,
    ModError,
>)
    ensures
        match spec_extract(data@) {
            Err(e) => r matches Err(e2) && e2 == e,
            Ok(None) => r matches Ok(o) && o is None,
            Ok(Some(m)) => r matches Ok(o) && o matches Some(t) && t.0.wf() && model_of(t.0, t.1@)
                == m,
        },
{
    let img = match decompress(data) {
        Ok(v) => v,
        Err(e) => {
            return Err(e);
        },
    };
    let name = modinfo_section_name();
    let sec = match find_section(&img, &name) {
        Ok(Some(s)) => s,
        Ok(None) => {
            return Ok(None);
        },
        Err(e) => {
            return Err(e);
        },
    };
    match parse_metadata(&sec) {
        Ok(t) => Ok(Some(t)),
        Err(e) => Err(e),
    }
}

} // verus!
