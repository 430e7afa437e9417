//! The metadata parser: splits a metadata section's byte stream on NUL bytes
//! into `key=value` records and folds them into a `ModuleInfo`, correlating
//! `parm`/`parmtype` pairs, keeping the last value of scalar fields, and
//! reporting unrecognized records without aborting.

use vstd::prelude::*;

use crate::bytes::{
    find_from, is_prefix_of, lemma_find_from_exact, lemma_views_push, nonempty_pieces, split_bytes,
    split_on, starts_with, subvec, views,
};
use crate::errors::ModError;
use crate::utf8::{check_utf8, is_utf8};

verus! {

/// One module parameter: its name, its free-text description, and its type
/// tag, which stays empty until a type record for the same name is seen.
pub struct ModuleParameter {
    pub name: Vec<u8>,
    pub description: Vec<u8>,
    pub kind: Vec<u8>,
}

/// The mathematical value of one parameter: description and type tag.
#[verifier::ext_equal]
pub ghost struct SpecParam {
    pub description: Seq<u8>,
    pub kind: Seq<u8>,
}

/// The mathematical value of a parse result: every field of `ModuleInfo`
/// together with the unrecognized records reported along the way.
#[verifier::ext_equal]
pub ghost struct SpecInfo {
    pub license: Seq<u8>,
    pub params: Map<Seq<u8>, SpecParam>,
    pub alias: Seq<Seq<u8>>,
    pub dependencies: Seq<Seq<u8>>,
    pub description: Seq<u8>,
    pub authors: Seq<Seq<u8>>,
    pub vermagic: Seq<u8>,
    pub intree: bool,
    pub firmwares: Seq<Seq<u8>>,
    pub unrecognized: Seq<Seq<u8>>,
}

/// The bytes of `parm=`.
pub open spec fn parm_p() -> Seq<u8> {
    seq![112u8, 97, 114, 109, 61]
}

/// The bytes of `parmtype=`.
pub open spec fn parmtype_p() -> Seq<u8> {
    seq![112u8, 97, 114, 109, 116, 121, 112, 101, 61]
}

/// The bytes of `license=`.
pub open spec fn license_p() -> Seq<u8> {
    seq![108u8, 105, 99, 101, 110, 115, 101, 61]
}

/// The bytes of `alias=`.
pub open spec fn alias_p() -> Seq<u8> {
    seq![97u8, 108, 105, 97, 115, 61]
}

/// The bytes of `depends=`.
pub open spec fn depends_p() -> Seq<u8> {
    seq![100u8, 101, 112, 101, 110, 100, 115, 61]
}

/// The bytes of `description=`.
pub open spec fn description_p() -> Seq<u8> {
    seq![100u8, 101, 115, 99, 114, 105, 112, 116, 105, 111, 110, 61]
}

/// The bytes of `author=`.
pub open spec fn author_p() -> Seq<u8> {
    seq![97u8, 117, 116, 104, 111, 114, 61]
}

/// The bytes of `vermagic=`.
pub open spec fn vermagic_p() -> Seq<u8> {
    seq![118u8, 101, 114, 109, 97, 103, 105, 99, 61]
}

/// The bytes of `intree=`.
pub open spec fn intree_p() -> Seq<u8> {
    seq![105u8, 110, 116, 114, 101, 101, 61]
}

/// The bytes of `firmware=`.
pub open spec fn firmware_p() -> Seq<u8> {
    seq![102u8, 105, 114, 109, 119, 97, 114, 101, 61]
}

/// The bytes of `version=`.
pub open spec fn version_p() -> Seq<u8> {
    seq![118u8, 101, 114, 115, 105, 111, 110, 61]
}

/// The bytes of `srcversion=`.
pub open spec fn srcversion_p() -> Seq<u8> {
    seq![115u8, 114, 99, 118, 101, 114, 115, 105, 111, 110, 61]
}

/// The bytes of `staging=`.
pub open spec fn staging_p() -> Seq<u8> {
    seq![115u8, 116, 97, 103, 105, 110, 103, 61]
}

/// The bytes of `release_date=`.
pub open spec fn release_date_p() -> Seq<u8> {
    seq![114u8, 101, 108, 101, 97, 115, 101, 95, 100, 97, 116, 101, 61]
}

/// The bytes of `softdep=`.
pub open spec fn softdep_p() -> Seq<u8> {
    seq![115u8, 111, 102, 116, 100, 101, 112, 61]
}

/// The recognized shapes of one record.
pub enum RecordKind {
    Empty,
    Parm,
    ParmType,
    License,
    Alias,
    Depends,
    Description,
    Author,
    Vermagic,
    Intree,
    Firmware,
    Ignored,
    Unrecognized,
}

/// Classifies a record by its prefix up to and including `=`. The recognized
/// but unhandled prefixes are `Ignored`; an empty record is skipped; anything
/// else is `Unrecognized` and reported.
pub open spec fn spec_classify(r: Seq<u8>) -> RecordKind {
    if r.len() == 0 {
        RecordKind::Empty
    } else if is_prefix_of(parm_p(), r) {
        RecordKind::Parm
    } else if is_prefix_of(parmtype_p(), r) {
        RecordKind::ParmType
    } else if is_prefix_of(license_p(), r) {
        RecordKind::License
    } else if is_prefix_of(alias_p(), r) {
        RecordKind::Alias
    } else if is_prefix_of(depends_p(), r) {
        RecordKind::Depends
    } else if is_prefix_of(description_p(), r) {
        RecordKind::Description
    } else if is_prefix_of(author_p(), r) {
        RecordKind::Author
    } else if is_prefix_of(vermagic_p(), r) {
        RecordKind::Vermagic
    } else if is_prefix_of(intree_p(), r) {
        RecordKind::Intree
    } else if is_prefix_of(firmware_p(), r) {
        RecordKind::Firmware
    } else if is_prefix_of(version_p(), r) || is_prefix_of(srcversion_p(), r) || is_prefix_of(
        staging_p(),
        r,
    ) || is_prefix_of(release_date_p(), r) || is_prefix_of(softdep_p(), r) {
        RecordKind::Ignored
    } else {
        RecordKind::Unrecognized
    }
}

/// The parse state before any record: every field empty, `intree` false.
pub open spec fn empty_info() -> SpecInfo {
    SpecInfo {
        license: seq![],
        params: Map::empty(),
        alias: seq![],
        dependencies: seq![],
        description: seq![],
        authors: seq![],
        vermagic: seq![],
        intree: false,
        firmwares: seq![],
        unrecognized: seq![],
    }
}

/// Reports `r` as an unrecognized record, leaving all fields as they are.
pub open spec fn report(m: SpecInfo, r: Seq<u8>) -> SpecInfo {
    SpecInfo { unrecognized: m.unrecognized.push(r), ..m }
}

/// The effect of one record on the parse state. The scalar fields are
/// replaced (last writer wins); the sequence fields are appended to in record
/// order; `parm=` registers a parameter wholesale and `parmtype=` sets the
/// type tag of an already-registered parameter, while a type record for an
/// unknown name is dropped. A `parm=` or `parmtype=` remainder without a
/// colon does not fit the record's shape and is reported like an
/// unrecognized record.
pub open spec fn apply_record(m: SpecInfo, r: Seq<u8>) -> SpecInfo {
    match spec_classify(r) {
        RecordKind::Empty => m,
        RecordKind::Parm => {
            let rest = r.subrange(5, r.len() as int);
            let c = find_from(rest, 58, 0);
            if c == rest.len() {
                report(m, r)
            } else {
                SpecInfo {
                    params: m.params.insert(
                        rest.subrange(0, c),
                        SpecParam {
                            description: rest.subrange(c + 1, rest.len() as int),
                            kind: seq![],
                        },
                    ),
                    ..m
                }
            }
        },
        RecordKind::ParmType => {
            let rest = r.subrange(9, r.len() as int);
            let c = find_from(rest, 58, 0);
            if c == rest.len() {
                report(m, r)
            } else {
                let nm = rest.subrange(0, c);
                if m.params.contains_key(nm) {
                    SpecInfo {
                        params: m.params.insert(
                            nm,
                            SpecParam {
                                description: m.params[nm].description,
                                kind: rest.subrange(c + 1, rest.len() as int),
                            },
                        ),
                        ..m
                    }
                } else {
                    m
                }
            }
        },
        RecordKind::License => SpecInfo { license: r.subrange(8, r.len() as int), ..m },
        RecordKind::Alias => SpecInfo { alias: m.alias.push(r.subrange(6, r.len() as int)), ..m },
        RecordKind::Depends => SpecInfo {
            dependencies: m.dependencies + nonempty_pieces(
                split_on(r.subrange(8, r.len() as int), 44),
            ),
            ..m
        },
        RecordKind::Description => SpecInfo { description: r.subrange(12, r.len() as int), ..m },
        RecordKind::Author => SpecInfo {
            authors: m.authors.push(r.subrange(7, r.len() as int)),
            ..m
        },
        RecordKind::Vermagic => SpecInfo { vermagic: r.subrange(9, r.len() as int), ..m },
        RecordKind::Intree => SpecInfo {
            intree: r.subrange(7, r.len() as int) == seq![89u8],
            ..m
        },
        RecordKind::Firmware => SpecInfo {
            firmwares: m.firmwares.push(r.subrange(9, r.len() as int)),
            ..m
        },
        RecordKind::Ignored => m,
        RecordKind::Unrecognized => report(m, r),
    }
}

/// The parse state after the records of `rs`, in order, from the empty state.
pub open spec fn fold_records(rs: Seq<Seq<u8>>) -> SpecInfo
    decreases rs.len(),
{
    if rs.len() == 0 {
        empty_info()
    } else {
        apply_record(fold_records(rs.drop_last()), rs.last())
    }
}

/// Whether every record is well-formed UTF-8 text.
pub open spec fn all_records_utf8(rs: Seq<Seq<u8>>) -> bool {
    forall|i: int| 0 <= i < rs.len() ==> is_utf8(rs[i])
}

/// The mathematical value of one stored parameter.
pub open spec fn spec_param_of(p: ModuleParameter) -> SpecParam {
    SpecParam { description: p.description@, kind: p.kind@ }
}

/// The parameter mapping held by a parameter vector: name to value, later
/// entries winning.
pub open spec fn params_map(ps: Seq<ModuleParameter>) -> Map<Seq<u8>, SpecParam>
    decreases ps.len(),
{
    if ps.len() == 0 {
        Map::empty()
    } else {
        params_map(ps.drop_last()).insert(ps.last().name@, spec_param_of(ps.last()))
    }
}

/// Whether the stored parameters bear pairwise distinct names.
pub open spec fn distinct_names(ps: Seq<ModuleParameter>) -> bool {
    forall|i: int, j: int| 0 <= i < j < ps.len() ==> ps[i].name@ != ps[j].name@
}

/// The structured metadata of one module binary.
pub struct ModuleInfo {
    pub license: Vec<u8>,
    pub parameters: Vec<ModuleParameter>,
    pub alias: Vec<Vec<u8>>,
    pub dependencies: Vec<Vec<u8>>,
    pub description: Vec<u8>,
    pub authors: Vec<Vec<u8>>,
    pub vermagic: Vec<u8>,
    pub intree: bool,
    pub firmwares: Vec<Vec<u8>>,
}

/// The mathematical value of a `ModuleInfo` together with the unrecognized
/// records reported beside it.
pub open spec fn model_of(info: ModuleInfo, un: Seq<Vec<u8>>) -> SpecInfo {
    SpecInfo {
        license: info.license@,
        params: params_map(info.parameters@),
        alias: views(info.alias@),
        dependencies: views(info.dependencies@),
        description: info.description@,
        authors: views(info.authors@),
        vermagic: info.vermagic@,
        intree: info.intree,
        firmwares: views(info.firmwares@),
        unrecognized: views(un),
    }
}

impl ModuleInfo {
    /// Parameter names are pairwise distinct: the parameter vector is a
    /// mapping.
    pub open spec fn wf(&self) -> bool {
        distinct_names(self.parameters@)
    }

    /// The empty metadata record: every field empty, `intree` false.
    pub fn new() -> (r: ModuleInfo)
        ensures
            r.wf(),
            model_of(r, Seq::empty()) == empty_info(),
    {
        let r = ModuleInfo {
            license: Vec::new(),
            parameters: Vec::new(),
            alias: Vec::new(),
            dependencies: Vec::new(),
            description: Vec::new(),
            authors: Vec::new(),
            vermagic: Vec::new(),
            intree: false,
            firmwares: Vec::new(),
        };
        proof {
            assert(model_of(r, Seq::empty()) =~= empty_info());
        }
        r
    }

    /// The parameter named `name`, if one is registered.
    pub fn get_parameter(&self, name: &Vec<u8>) -> (r: Option<&ModuleParameter>)
        requires
            self.wf(),
        ensures
            match r {
                Some(p) => params_map(self.parameters@).contains_key(name@) && params_map(
                    self.parameters@,
                )[name@] == spec_param_of(*p),
                None => !params_map(self.parameters@).contains_key(name@),
            },
    {
        match find_param(&self.parameters, name) {
            Some(i) => {
                proof {
                    lemma_params_map_at(self.parameters@, i as int);
                }
                Some(&self.parameters[i])
            },
            None => {
                proof {
                    lemma_params_map_contains(self.parameters@, name@);
                }
                None
            },
        }
    }
}

pub proof fn lemma_params_map_contains(ps: Seq<ModuleParameter>, nm: Seq<u8>)
    ensures
        params_map(ps).contains_key(nm) <==> exists|i: int| 0 <= i < ps.len() && ps[i].name@ == nm,
    decreases ps.len(),
{
    if ps.len() > 0 {
        lemma_params_map_contains(ps.drop_last(), nm);
        if ps.last().name@ == nm {
            assert(ps[ps.len() - 1].name@ == nm);
        } else {
            if params_map(ps).contains_key(nm) {
                let i = choose|i: int|
                    0 <= i < ps.drop_last().len() && ps.drop_last()[i].name@ == nm;
                assert(ps[i].name@ == nm);
            }
            if exists|i: int| 0 <= i < ps.len() && ps[i].name@ == nm {
                let i = choose|i: int| 0 <= i < ps.len() && ps[i].name@ == nm;
                assert(ps.drop_last()[i].name@ == nm);
            }
        }
    }
}

pub proof fn lemma_params_map_at(ps: Seq<ModuleParameter>, i: int)
    requires
        distinct_names(ps),
        0 <= i < ps.len(),
    ensures
        params_map(ps).contains_key(ps[i].name@),
        params_map(ps)[ps[i].name@] == spec_param_of(ps[i]),
    decreases ps.len(),
{
    if i == ps.len() - 1 {
    } else {
        assert(ps[i].name@ != ps[ps.len() - 1].name@);
        lemma_params_map_at(ps.drop_last(), i);
    }
}

pub proof fn lemma_params_map_push(ps: Seq<ModuleParameter>, p: ModuleParameter)
    ensures
        params_map(ps.push(p)) == params_map(ps).insert(p.name@, spec_param_of(p)),
{
    assert(ps.push(p).drop_last() =~= ps);
}

pub proof fn lemma_params_map_remove(ps: Seq<ModuleParameter>, i: int)
    requires
        distinct_names(ps),
        0 <= i < ps.len(),
    ensures
        params_map(ps.remove(i)) == params_map(ps).remove(ps[i].name@),
    decreases ps.len(),
{
    let nm = ps[i].name@;
    if i == ps.len() - 1 {
        assert(ps.remove(i) =~= ps.drop_last());
        lemma_params_map_contains(ps.drop_last(), nm);
        assert(!params_map(ps.drop_last()).contains_key(nm));
        assert(params_map(ps.drop_last()).insert(nm, spec_param_of(ps.last())).remove(nm)
            =~= params_map(ps.drop_last()));
    } else {
        let dl = ps.drop_last();
        assert(ps.remove(i).drop_last() =~= dl.remove(i));
        assert(ps.remove(i).last() == ps.last());
        lemma_params_map_remove(dl, i);
        assert(dl[i] == ps[i]);
        let ln = ps.last().name@;
        let lp = spec_param_of(ps.last());
        assert(ln != nm);
        assert(params_map(dl).insert(ln, lp).remove(nm) =~= params_map(dl).remove(nm).insert(
            ln,
            lp,
        ));
        assert(params_map(ps.remove(i)) == params_map(dl.remove(i)).insert(ln, lp));
    }
}

/// The least index holding the colon byte in `v`, or the length of `v`.
fn find_byte(v: &Vec<u8>, sep: u8) -> (r: usize)
    ensures
        r == find_from(v@, sep, 0),
        r <= v@.len(),
{
    let mut i: usize = 0;
    while i < v.len()
        invariant
            i <= v@.len(),
            forall|k: int| 0 <= k < i ==> v@[k] != sep,
        decreases v@.len() - i,
    {
        if v[i] == sep {
            proof {
                lemma_find_from_exact(v@, sep, 0, i as int);
            }
            return i;
        }
        i = i + 1;
    }
    proof {
        lemma_find_from_exact(v@, sep, 0, v@.len() as int);
    }
    v.len()
}

/// The index of the parameter named `name`, if one is registered.
fn find_param(ps: &Vec<ModuleParameter>, name: &Vec<u8>) -> (r: Option<usize>)
    ensures
        match r {
            Some(i) => i < ps@.len() && ps@[i as int].name@ == name@,
            None => forall|k: int| 0 <= k < ps@.len() ==> ps@[k].name@ != name@,
        },
{
    let mut i: usize = 0;
    while i < ps.len()
        invariant
            i <= ps@.len(),
            forall|k: int| 0 <= k < i ==> ps@[k].name@ != name@,
        decreases ps@.len() - i,
    {
        if crate::bytes::bytes_eq(&ps[i].name, name) {
            return Some(i);
        }
        i = i + 1;
    }
    None
}

/// Classifies a record by its prefix, as `spec_classify` does.
pub fn classify(rec: &Vec<u8>) -> (k: RecordKind)
    ensures
        k == spec_classify(rec@),
{
    if rec.len() == 0 {
        return RecordKind::Empty;
    }
    let p_parm: Vec<u8> = vec![112u8, 97, 114, 109, 61];
    proof {
        assert(p_parm@ =~= parm_p());
    }
    if starts_with(rec, &p_parm) {
        return RecordKind::Parm;
    }
    let p_parmtype: Vec<u8> = vec![112u8, 97, 114, 109, 116, 121, 112, 101, 61];
    proof {
        assert(p_parmtype@ =~= parmtype_p());
    }
    if starts_with(rec, &p_parmtype) {
        return RecordKind::ParmType;
    }
    let p_license: Vec<u8> = vec![108u8, 105, 99, 101, 110, 115, 101, 61];
    proof {
        assert(p_license@ =~= license_p());
    }
    if starts_with(rec, &p_license) {
        return RecordKind::License;
    }
    let p_alias: Vec<u8> = vec![97u8, 108, 105, 97, 115, 61];
    proof {
        assert(p_alias@ =~= alias_p());
    }
    if starts_with(rec, &p_alias) {
        return RecordKind::Alias;
    }
    let p_depends: Vec<u8> = vec![100u8, 101, 112, 101, 110, 100, 115, 61];
    proof {
        assert(p_depends@ =~= depends_p());
    }
    if starts_with(rec, &p_depends) {
        return RecordKind::Depends;
    }
    let p_description: Vec<u8> = vec![100u8, 101, 115, 99, 114, 105, 112, 116, 105, 111, 110, 61];
    proof {
        assert(p_description@ =~= description_p());
    }
    if starts_with(rec, &p_description) {
        return RecordKind::Description;
    }
    let p_author: Vec<u8> = vec![97u8, 117, 116, 104, 111, 114, 61];
    proof {
        assert(p_author@ =~= author_p());
    }
    if starts_with(rec, &p_author) {
        return RecordKind::Author;
    }
    let p_vermagic: Vec<u8> = vec![118u8, 101, 114, 109, 97, 103, 105, 99, 61];
    proof {
        assert(p_vermagic@ =~= vermagic_p());
    }
    if starts_with(rec, &p_vermagic) {
        return RecordKind::Vermagic;
    }
    let p_intree: Vec<u8> = vec![105u8, 110, 116, 114, 101, 101, 61];
    proof {
        assert(p_intree@ =~= intree_p());
    }
    if starts_with(rec, &p_intree) {
        return RecordKind::Intree;
    }
    let p_firmware: Vec<u8> = vec![102u8, 105, 114, 109, 119, 97, 114, 101, 61];
    proof {
        assert(p_firmware@ =~= firmware_p());
    }
    if starts_with(rec, &p_firmware) {
        return RecordKind::Firmware;
    }
    let p_version: Vec<u8> = vec![118u8, 101, 114, 115, 105, 111, 110, 61];
    proof {
        assert(p_version@ =~= version_p());
    }
    let p_srcversion: Vec<u8> = vec![115u8, 114, 99, 118, 101, 114, 115, 105, 111, 110, 61];
    proof {
        assert(p_srcversion@ =~= srcversion_p());
    }
    let p_staging: Vec<u8> = vec![115u8, 116, 97, 103, 105, 110, 103, 61];
    proof {
        assert(p_staging@ =~= staging_p());
    }
    let p_release_date: Vec<u8> = vec![
        114u8,
        101,
        108,
        101,
        97,
        115,
        101,
        95,
        100,
        97,
        116,
        101,
        61,
    ];
    proof {
        assert(p_release_date@ =~= release_date_p());
    }
    let p_softdep: Vec<u8> = vec![115u8, 111, 102, 116, 100, 101, 112, 61];
    proof {
        assert(p_softdep@ =~= softdep_p());
    }
    if starts_with(rec, &p_version) || starts_with(rec, &p_srcversion) || starts_with(
        rec,
        &p_staging,
    ) || starts_with(rec, &p_release_date) || starts_with(rec, &p_softdep) {
        return RecordKind::Ignored;
    }
    RecordKind::Unrecognized
}

proof fn lemma_distinct_remove(ps: Seq<ModuleParameter>, i: int)
    requires
        distinct_names(ps),
        0 <= i < ps.len(),
    ensures
        distinct_names(ps.remove(i)),
        forall|k: int| 0 <= k < ps.remove(i).len() ==> ps.remove(i)[k].name@ != ps[i].name@,
{
    let r = ps.remove(i);
    assert forall|a: int, b: int| 0 <= a < b < r.len() implies r[a].name@ != r[b].name@ by {
        assert(r[a] == (if a < i {
            ps[a]
        } else {
            ps[a + 1]
        }));
        assert(r[b] == (if b < i {
            ps[b]
        } else {
            ps[b + 1]
        }));
    }
    assert forall|k: int| 0 <= k < r.len() implies r[k].name@ != ps[i].name@ by {
        assert(r[k] == (if k < i {
            ps[k]
        } else {
            ps[k + 1]
        }));
    }
}

proof fn lemma_distinct_push(ps: Seq<ModuleParameter>, p: ModuleParameter)
    requires
        distinct_names(ps),
        forall|k: int| 0 <= k < ps.len() ==> ps[k].name@ != p.name@,
    ensures
        distinct_names(ps.push(p)),
{
    assert forall|a: int, b: int| 0 <= a < b < ps.push(p).len() implies ps.push(p)[a].name@
        != ps.push(p)[b].name@ by {
        if b == ps.len() {
            assert(ps.push(p)[a] == ps[a]);
            assert(ps.push(p)[b] == p);
        } else {
            assert(ps.push(p)[a] == ps[a]);
            assert(ps.push(p)[b] == ps[b]);
        }
    }
}

/// Registers the parameter `name` with `description` and an empty type tag,
/// replacing any parameter of the same name wholesale.
fn set_param(info: &mut ModuleInfo, name: Vec<u8>, description: Vec<u8>)
    requires
        old(info).wf(),
    ensures
        final(info).wf(),
        params_map(final(info).parameters@) == params_map(old(info).parameters@).insert(
            name@,
            SpecParam { description: description@, kind: Seq::empty() },
        ),
        final(info).license@ == old(info).license@,
        final(info).alias@ == old(info).alias@,
        final(info).dependencies@ == old(info).dependencies@,
        final(info).description@ == old(info).description@,
        final(info).authors@ == old(info).authors@,
        final(info).vermagic@ == old(info).vermagic@,
        final(info).intree == old(info).intree,
        final(info).firmwares@ == old(info).firmwares@,
{
    let ghost nm = name@;
    let ghost ps0 = info.parameters@;
    match find_param(&info.parameters, &name) {
        Some(i) => {
            proof {
                lemma_params_map_remove(ps0, i as int);
                lemma_distinct_remove(ps0, i as int);
            }
            info.parameters.remove(i);
        },
        None => {
            proof {
                lemma_params_map_contains(ps0, nm);
            }
        },
    }
    let ghost ps1 = info.parameters@;
    let p = ModuleParameter { name, description, kind: Vec::new() };
    proof {
        lemma_params_map_push(ps1, p);
        lemma_distinct_push(ps1, p);
    }
    info.parameters.push(p);
    proof {
        lemma_params_map_contains(ps0, nm);
        assert(params_map(info.parameters@) =~= params_map(ps0).insert(
            nm,
            SpecParam { description: description@, kind: Seq::empty() },
        ));
    }
}

/// Sets the type tag of the parameter named `name`, if one is registered; a
/// type record for an unknown name changes nothing.
fn set_param_kind(info: &mut ModuleInfo, name: &Vec<u8>, kind: Vec<u8>)
    requires
        old(info).wf(),
    ensures
        final(info).wf(),
        ({
            let m0 = params_map(old(info).parameters@);
            if m0.contains_key(name@) {
                params_map(final(info).parameters@) == m0.insert(
                    name@,
                    SpecParam { description: m0[name@].description, kind: kind@ },
                )
            } else {
                final(info).parameters@ == old(info).parameters@
            }
        }),
        final(info).license@ == old(info).license@,
        final(info).alias@ == old(info).alias@,
        final(info).dependencies@ == old(info).dependencies@,
        final(info).description@ == old(info).description@,
        final(info).authors@ == old(info).authors@,
        final(info).vermagic@ == old(info).vermagic@,
        final(info).intree == old(info).intree,
        final(info).firmwares@ == old(info).firmwares@,
{
    let ghost nm = name@;
    let ghost ps0 = info.parameters@;
    proof {
        lemma_params_map_contains(ps0, nm);
    }
    match find_param(&info.parameters, name) {
        Some(i) => {
            proof {
                lemma_params_map_at(ps0, i as int);
                lemma_params_map_remove(ps0, i as int);
                lemma_distinct_remove(ps0, i as int);
            }
            let old_p = info.parameters.remove(i);
            let ghost ps1 = info.parameters@;
            let p = ModuleParameter { name: old_p.name, description: old_p.description, kind };
            proof {
                lemma_params_map_push(ps1, p);
                lemma_distinct_push(ps1, p);
            }
            info.parameters.push(p);
            proof {
                assert(params_map(info.parameters@) =~= params_map(ps0).insert(
                    nm,
                    SpecParam { description: params_map(ps0)[nm].description, kind: kind@ },
                ));
            }
        },
        None => {},
    }
}

/// Applies one record to the accumulating `ModuleInfo`, pushing an
/// unrecognized record onto `un`.
pub fn apply_rec(info: &mut ModuleInfo, un: &mut Vec<Vec<u8>>, rec: &Vec<u8>)
    requires
        old(info).wf(),
    ensures
        final(info).wf(),
        model_of(*final(info), final(un)@) == apply_record(
            model_of(*old(info), old(un)@),
            rec@,
        ),
{
    let ghost m0 = model_of(*old(info), old(un)@);
    let k = classify(rec);
    match k {
        RecordKind::Empty => {
            proof {
                assert(model_of(*info, un@) =~= apply_record(m0, rec@));
            }
        },
        RecordKind::Parm => {
            let rest = subvec(rec, 5, rec.len());
            let c = find_byte(&rest, 58);
            if c == rest.len() {
                let copy = subvec(rec, 0, rec.len());
                proof {
                    assert(copy@ =~= rec@);
                    lemma_views_push(un@, copy);
                }
                un.push(copy);
                proof {
                    assert(model_of(*info, un@) =~= apply_record(m0, rec@));
                }
            } else {
                let name = subvec(&rest, 0, c);
                let description = subvec(&rest, c + 1, rest.len());
                set_param(info, name, description);
                proof {
                    assert(model_of(*info, un@) =~= apply_record(m0, rec@));
                }
            }
        },
        RecordKind::ParmType => {
            let rest = subvec(rec, 9, rec.len());
            let c = find_byte(&rest, 58);
            if c == rest.len() {
                let copy = subvec(rec, 0, rec.len());
                proof {
                    assert(copy@ =~= rec@);
                    lemma_views_push(un@, copy);
                }
                un.push(copy);
                proof {
                    assert(model_of(*info, un@) =~= apply_record(m0, rec@));
                }
            } else {
                let name = subvec(&rest, 0, c);
                let kind_v = subvec(&rest, c + 1, rest.len());
                set_param_kind(info, &name, kind_v);
                proof {
                    assert(model_of(*info, un@) =~= apply_record(m0, rec@));
                }
            }
        },
        RecordKind::License => {
            info.license = subvec(rec, 8, rec.len());
            proof {
                assert(model_of(*info, un@) =~= apply_record(m0, rec@));
            }
        },
        RecordKind::Alias => {
            let value = subvec(rec, 6, rec.len());
            proof {
                lemma_views_push(info.alias@, value);
            }
            info.alias.push(value);
            proof {
                assert(model_of(*info, un@) =~= apply_record(m0, rec@));
            }
        },
        RecordKind::Depends => {
            let rest = subvec(rec, 8, rec.len());
            let pieces = split_bytes(&rest, 44);
            let ghost deps0 = views(info.dependencies@);
            let mut j: usize = 0;
            proof {
                assert(views(pieces@).take(0) =~= Seq::<Seq<u8>>::empty());
                assert(deps0 + nonempty_pieces(views(pieces@).take(0)) =~= deps0);
            }
            while j < pieces.len()
                invariant
                    j <= pieces@.len(),
                    views(pieces@) == split_on(rest@, 44),
                    info.wf(),
                    info.license@ == old(info).license@,
                    info.alias@ == old(info).alias@,
                    info.parameters@ == old(info).parameters@,
                    info.description@ == old(info).description@,
                    info.authors@ == old(info).authors@,
                    info.vermagic@ == old(info).vermagic@,
                    info.intree == old(info).intree,
                    info.firmwares@ == old(info).firmwares@,
                    deps0 == views(old(info).dependencies@),
                    views(info.dependencies@) == deps0 + nonempty_pieces(
                        views(pieces@).take(j as int),
                    ),
                decreases pieces@.len() - j,
            {
                proof {
                    assert(views(pieces@).take(j as int + 1).drop_last() =~= views(pieces@).take(
                        j as int,
                    ));
                    assert(views(pieces@).take(j as int + 1).last() == pieces@[j as int]@);
                }
                if pieces[j].len() > 0 {
                    let piece = subvec(&pieces[j], 0, pieces[j].len());
                    proof {
                        assert(piece@ =~= pieces@[j as int]@);
                        lemma_views_push(info.dependencies@, piece);
                    }
                    info.dependencies.push(piece);
                    proof {
                        assert(views(info.dependencies@) =~= deps0 + nonempty_pieces(
                            views(pieces@).take(j as int + 1),
                        ));
                    }
                } else {
                    proof {
                        assert(views(info.dependencies@) =~= deps0 + nonempty_pieces(
                            views(pieces@).take(j as int + 1),
                        ));
                    }
                }
                j = j + 1;
            }
            proof {
                assert(views(pieces@).take(pieces@.len() as int) =~= views(pieces@));
                assert(model_of(*info, un@) =~= apply_record(m0, rec@));
            }
        },
        RecordKind::Description => {
            info.description = subvec(rec, 12, rec.len());
            proof {
                assert(model_of(*info, un@) =~= apply_record(m0, rec@));
            }
        },
        RecordKind::Author => {
            let value = subvec(rec, 7, rec.len());
            proof {
                lemma_views_push(info.authors@, value);
            }
            info.authors.push(value);
            proof {
                assert(model_of(*info, un@) =~= apply_record(m0, rec@));
            }
        },
        RecordKind::Vermagic => {
            info.vermagic = subvec(rec, 9, rec.len());
            proof {
                assert(model_of(*info, un@) =~= apply_record(m0, rec@));
            }
        },
        RecordKind::Intree => {
            let rest = subvec(rec, 7, rec.len());
            let b = rest.len() == 1 && rest[0] == 89;
            proof {
                if b {
                    assert(rest@ =~= seq![89u8]);
                }
                if rest@ == seq![89u8] {
                    assert(rest@.len() == 1 && rest@[0] == 89);
                }
            }
            info.intree = b;
            proof {
                assert(model_of(*info, un@) =~= apply_record(m0, rec@));
            }
        },
        RecordKind::Firmware => {
            let value = subvec(rec, 9, rec.len());
            proof {
                lemma_views_push(info.firmwares@, value);
            }
            info.firmwares.push(value);
            proof {
                assert(model_of(*info, un@) =~= apply_record(m0, rec@));
            }
        },
        RecordKind::Ignored => {
            proof {
                assert(model_of(*info, un@) =~= apply_record(m0, rec@));
            }
        },
        RecordKind::Unrecognized => {
            let copy = subvec(rec, 0, rec.len());
            proof {
                assert(copy@ =~= rec@);
                lemma_views_push(un@, copy);
            }
            un.push(copy);
            proof {
                assert(model_of(*info, un@) =~= apply_record(m0, rec@));
            }
        },
    }
}

/// Splits a metadata section on NUL bytes and folds the records into a
/// `ModuleInfo`, together with the unrecognized records met on the way.
/// The parse fails, as a whole, exactly when some record is not well-formed
/// UTF-8 text.
pub fn parse_metadata(section: &Vec<u8>) -> (r: Result<(ModuleInfo, Vec<Vec<u8>>), ModError>)
    ensures
        r is Ok ==> all_records_utf8(split_on(section@, 0)),
        r is Err ==> !all_records_utf8(split_on(section@, 0)),
        r matches Ok(t) ==> t.0.wf() && model_of(t.0, t.1@) == fold_records(split_on(section@, 0)),
        r matches Err(e) ==> e == ModError::MalformedMetadataRecord,
{
    let records = split_bytes(section, 0);
    let ghost rs = split_on(section@, 0);
    let mut info = ModuleInfo::new();
    let mut un: Vec<Vec<u8>> = Vec::new();
    proof {
        assert(rs.take(0) =~= Seq::<Seq<u8>>::empty());
        assert(views(un@) =~= views(Seq::empty()));
        assert(model_of(info, un@) =~= fold_records(rs.take(0)));
    }
    let mut k: usize = 0;
    while k < records.len()
        invariant
            k <= records@.len(),
            rs == split_on(section@, 0),
            views(records@) == rs,
            info.wf(),
            model_of(info, un@) == fold_records(rs.take(k as int)),
            forall|i: int| 0 <= i < k ==> is_utf8(rs[i]),
        decreases records@.len() - k,
    {
        let rec = &records[k];
        if !check_utf8(rec) {
            proof {
                let ghost ki = k as int;
                assert(rs[ki] == rec@);
                assert(0 <= ki < rs.len());
                assert(!is_utf8(rs[ki]));
                assert(exists|i: int| 0 <= i < rs.len() && !#[trigger] is_utf8(rs[i]));
                assert(!all_records_utf8(rs));
            }
            return Err(ModError::MalformedMetadataRecord);
        }
        apply_rec(&mut info, &mut un, rec);
        proof {
            assert(rs.take(k as int + 1).drop_last() =~= rs.take(k as int));
            assert(rs.take(k as int + 1).last() == rs[k as int]);
            assert(rs[k as int] == rec@);
        }
        k = k + 1;
    }
    proof {
        assert(rs.take(records@.len() as int) =~= rs);
    }
    Ok((info, un))
}

} // verus!
