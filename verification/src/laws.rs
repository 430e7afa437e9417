//! General laws of the metadata parser, each proved over the record
//! semantics `apply_record` that `parse_metadata`'s contract is stated with.

use vstd::prelude::*;

use crate::bytes::{is_prefix_of, lemma_find_from_exact, nonempty_pieces, split_on};
use crate::modinfo::{
    alias_p, apply_record, author_p, depends_p, description_p, fold_records, intree_p, license_p,
    parm_p, parmtype_p, report, spec_classify, RecordKind, SpecInfo, SpecParam, vermagic_p,
};

verus! {

proof fn lemma_not_prefix(q: Seq<u8>, r: Seq<u8>, j: int)
    requires
        0 <= j < q.len(),
        j < r.len(),
        q[j] != r[j],
    ensures
        !is_prefix_of(q, r),
{
    if is_prefix_of(q, r) {
        assert(r.subrange(0, q.len() as int)[j] == r[j]);
    }
}

/// A `parm=NAME:DESC` record registers NAME with description DESC and an
/// empty type tag, for any colon-free NAME and any DESC.
pub proof fn lemma_parm_registers(m: SpecInfo, name: Seq<u8>, desc: Seq<u8>)
    requires
        forall|k: int| 0 <= k < name.len() ==> #[trigger] name[k] != 58,
    ensures
        ({
            let r = parm_p() + name + seq![58u8] + desc;
            let a = apply_record(m, r);
            a.params == m.params.insert(name, SpecParam { description: desc, kind: seq![] })
                && a.intree == m.intree && a.license == m.license && a.unrecognized
                == m.unrecognized
        }),
{
    let r = parm_p() + name + seq![58u8] + desc;
    assert(is_prefix_of(parm_p(), r)) by {
        assert(r.subrange(0, 5) =~= parm_p());
    }
    assert(spec_classify(r) == RecordKind::Parm);
    let rest = r.subrange(5, r.len() as int);
    assert(rest =~= name + seq![58u8] + desc);
    lemma_find_from_exact(rest, 58, 0, name.len() as int);
    assert(rest.subrange(0, name.len() as int) =~= name);
    assert(rest.subrange(name.len() as int + 1, rest.len() as int) =~= desc);
}

/// Order dependence of the parameter correlation, first half: a `parm=`
/// record followed by a `parmtype=` record for the same name yields that
/// parameter with the given description and type tag.
pub proof fn lemma_parm_then_parmtype(m: SpecInfo, name: Seq<u8>, desc: Seq<u8>, kind: Seq<u8>)
    requires
        forall|k: int| 0 <= k < name.len() ==> #[trigger] name[k] != 58,
    ensures
        ({
            let r1 = parm_p() + name + seq![58u8] + desc;
            let r2 = parmtype_p() + name + seq![58u8] + kind;
            let a = apply_record(apply_record(m, r1), r2);
            a.params.contains_key(name) && a.params[name] == SpecParam {
                description: desc,
                kind: kind,
            }
        }),
{
    let r1 = parm_p() + name + seq![58u8] + desc;
    let r2 = parmtype_p() + name + seq![58u8] + kind;
    lemma_parm_registers(m, name, desc);
    let m1 = apply_record(m, r1);
    assert(r2[4] == 116) by {
        assert(parmtype_p()[4] == 116);
    }
    lemma_not_prefix(parm_p(), r2, 4);
    assert(is_prefix_of(parmtype_p(), r2)) by {
        assert(r2.subrange(0, 9) =~= parmtype_p());
    }
    assert(spec_classify(r2) == RecordKind::ParmType);
    let rest = r2.subrange(9, r2.len() as int);
    assert(rest =~= name + seq![58u8] + kind);
    lemma_find_from_exact(rest, 58, 0, name.len() as int);
    assert(rest.subrange(0, name.len() as int) =~= name);
    assert(rest.subrange(name.len() as int + 1, rest.len() as int) =~= kind);
    assert(m1.params.contains_key(name));
}

/// Order dependence of the parameter correlation, second half: a `parmtype=`
/// record for a name not yet registered is dropped, so the following `parm=`
/// record leaves the type tag empty.
pub proof fn lemma_parmtype_before_parm(m: SpecInfo, name: Seq<u8>, desc: Seq<u8>, kind: Seq<u8>)
    requires
        forall|k: int| 0 <= k < name.len() ==> #[trigger] name[k] != 58,
        !m.params.contains_key(name),
    ensures
        ({
            let r1 = parm_p() + name + seq![58u8] + desc;
            let r2 = parmtype_p() + name + seq![58u8] + kind;
            let a = apply_record(apply_record(m, r2), r1);
            a.params.contains_key(name) && a.params[name] == SpecParam {
                description: desc,
                kind: seq![],
            }
        }),
{
    let r2 = parmtype_p() + name + seq![58u8] + kind;
    assert(r2[4] == 116) by {
        assert(parmtype_p()[4] == 116);
    }
    lemma_not_prefix(parm_p(), r2, 4);
    assert(is_prefix_of(parmtype_p(), r2)) by {
        assert(r2.subrange(0, 9) =~= parmtype_p());
    }
    assert(spec_classify(r2) == RecordKind::ParmType);
    let rest = r2.subrange(9, r2.len() as int);
    assert(rest =~= name + seq![58u8] + kind);
    lemma_find_from_exact(rest, 58, 0, name.len() as int);
    assert(rest.subrange(0, name.len() as int) =~= name);
    let m1 = apply_record(m, r2);
    assert(m1 == m);
    lemma_parm_registers(m1, name, desc);
}

/// A `depends=` record appends exactly the non-empty comma-separated pieces
/// of its remainder, in order; an empty remainder appends nothing.
pub proof fn lemma_depends_splits(m: SpecInfo, rest: Seq<u8>)
    ensures
        ({
            let r = depends_p() + rest;
            apply_record(m, r).dependencies == m.dependencies + nonempty_pieces(
                split_on(rest, 44),
            ) && apply_record(m, r).params == m.params
        }),
        rest.len() == 0 ==> apply_record(m, depends_p() + rest).dependencies == m.dependencies,
{
    let r = depends_p() + rest;
    assert(r[0] == 100) by {
        assert(depends_p()[0] == 100);
    }
    lemma_not_prefix(parm_p(), r, 0);
    lemma_not_prefix(parmtype_p(), r, 0);
    lemma_not_prefix(license_p(), r, 0);
    lemma_not_prefix(alias_p(), r, 0);
    assert(is_prefix_of(depends_p(), r)) by {
        assert(r.subrange(0, 8) =~= depends_p());
    }
    assert(spec_classify(r) == RecordKind::Depends);
    assert(r.subrange(8, r.len() as int) =~= rest);
    if rest.len() == 0 {
        assert(split_on(rest, 44) == seq![rest]);
        let e = Seq::<Seq<u8>>::empty();
        assert(seq![rest].drop_last() =~= e);
        assert(nonempty_pieces(e) =~= e);
        assert(seq![rest].last().len() == 0);
        assert(nonempty_pieces(seq![rest]) == nonempty_pieces(seq![rest].drop_last()) + e);
        assert(nonempty_pieces(seq![rest]) =~= e);
        assert(m.dependencies + nonempty_pieces(split_on(rest, 44)) =~= m.dependencies);
    }
}

/// Last writer wins for the description field: after two `description=`
/// records only the second value is kept.
pub proof fn lemma_description_last_wins(m: SpecInfo, v1: Seq<u8>, v2: Seq<u8>)
    ensures
        apply_record(apply_record(m, description_p() + v1), description_p() + v2).description
            == v2,
{
    lemma_description_sets(m, v1);
    lemma_description_sets(apply_record(m, description_p() + v1), v2);
}

/// A `description=` record replaces the description field with its remainder
/// and changes nothing else.
pub proof fn lemma_description_sets(m: SpecInfo, v: Seq<u8>)
    ensures
        ({
            let a = apply_record(m, description_p() + v);
            a.description == v && a == SpecInfo { description: v, ..m }
        }),
{
    let r = description_p() + v;
    assert(r[0] == 100 && r[2] == 115) by {
        assert(description_p()[0] == 100 && description_p()[2] == 115);
    }
    lemma_not_prefix(parm_p(), r, 0);
    lemma_not_prefix(parmtype_p(), r, 0);
    lemma_not_prefix(license_p(), r, 0);
    lemma_not_prefix(alias_p(), r, 0);
    lemma_not_prefix(depends_p(), r, 2);
    assert(is_prefix_of(description_p(), r)) by {
        assert(r.subrange(0, 12) =~= description_p());
    }
    assert(spec_classify(r) == RecordKind::Description);
    assert(r.subrange(12, r.len() as int) =~= v);
}

/// An unrecognized record only adds itself to the diagnostics: every field
/// of the parse state is left exactly as it was.
pub proof fn lemma_unrecognized_tolerated(m: SpecInfo, r: Seq<u8>)
    requires
        spec_classify(r) == RecordKind::Unrecognized,
    ensures
        apply_record(m, r) == report(m, r),
        apply_record(m, r).license == m.license,
        apply_record(m, r).params == m.params,
        apply_record(m, r).alias == m.alias,
        apply_record(m, r).dependencies == m.dependencies,
        apply_record(m, r).description == m.description,
        apply_record(m, r).authors == m.authors,
        apply_record(m, r).vermagic == m.vermagic,
        apply_record(m, r).intree == m.intree,
        apply_record(m, r).firmwares == m.firmwares,
        apply_record(m, r).unrecognized == m.unrecognized.push(r),
{
}

/// A section payload built by writing each record followed by a NUL byte.
pub open spec fn join_records(rs: Seq<Seq<u8>>) -> Seq<u8>
    decreases rs.len(),
{
    if rs.len() == 0 {
        seq![]
    } else {
        rs.first() + seq![0u8] + join_records(rs.drop_first())
    }
}

/// Round trip on well-formed input: splitting a payload built from NUL-free
/// records recovers exactly those records (plus the silent trailing empty
/// piece), so parsing the payload has exactly the records' effects.
pub proof fn lemma_round_trip(rs: Seq<Seq<u8>>)
    requires
        forall|i: int, k: int|
            0 <= i < rs.len() && 0 <= k < rs[i].len() ==> #[trigger] rs[i][k] != 0,
    ensures
        split_on(join_records(rs), 0) == rs.push(seq![]),
        fold_records(split_on(join_records(rs), 0)) == fold_records(rs),
    decreases rs.len(),
{
    let j = join_records(rs);
    if rs.len() == 0 {
        assert(j.len() == 0);
        assert(split_on(j, 0) =~= rs.push(seq![]));
    } else {
        let r0 = rs.first();
        let tail = rs.drop_first();
        let jt = join_records(tail);
        assert(j == r0 + seq![0u8] + jt);
        assert(forall|k: int| 0 <= k < r0.len() ==> #[trigger] r0[k] != 0) by {
            assert(forall|k: int| 0 <= k < r0.len() ==> rs[0][k] == #[trigger] r0[k]);
        }
        lemma_find_from_exact(j, 0, 0, r0.len() as int);
        assert(j.subrange(0, r0.len() as int) =~= r0);
        assert(j.subrange(r0.len() as int + 1, j.len() as int) =~= jt);
        assert(forall|i: int, k: int|
            0 <= i < tail.len() && 0 <= k < tail[i].len() ==> #[trigger] tail[i][k] != 0) by {
            assert(forall|i: int, k: int|
                0 <= i < tail.len() && 0 <= k < tail[i].len() ==> tail[i][k] == #[trigger] rs[i
                    + 1][k]);
        }
        lemma_round_trip(tail);
        assert(split_on(j, 0) =~= rs.push(seq![]));
    }
    lemma_fold_trailing_empty(rs);
}

/// A trailing empty record contributes nothing to the fold.
proof fn lemma_fold_trailing_empty(rs: Seq<Seq<u8>>)
    ensures
        fold_records(rs.push(seq![])) == fold_records(rs),
{
    assert(rs.push(seq![]).drop_last() =~= rs);
    assert(spec_classify(seq![]) == RecordKind::Empty);
}

/// Boolean parsing exactness: an `intree=` record sets the flag to true
/// exactly when its remainder is the single byte `Y`.
pub proof fn lemma_intree_exact(m: SpecInfo, v: Seq<u8>)
    ensures
        apply_record(m, intree_p() + v).intree <==> v == seq![89u8],
{
    let r = intree_p() + v;
    assert(r[0] == 105) by {
        assert(intree_p()[0] == 105);
    }
    lemma_not_prefix(parm_p(), r, 0);
    lemma_not_prefix(parmtype_p(), r, 0);
    lemma_not_prefix(license_p(), r, 0);
    lemma_not_prefix(alias_p(), r, 0);
    lemma_not_prefix(depends_p(), r, 0);
    lemma_not_prefix(description_p(), r, 0);
    lemma_not_prefix(author_p(), r, 0);
    lemma_not_prefix(vermagic_p(), r, 0);
    assert(is_prefix_of(intree_p(), r)) by {
        assert(r.subrange(0, 7) =~= intree_p());
    }
    assert(spec_classify(r) == RecordKind::Intree);
    assert(r.subrange(7, r.len() as int) =~= v);
}

} // verus!
