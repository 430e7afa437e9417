//! The loaded-module table: parsing one line of the kernel's running-module
//! listing into a `LoadedModule`, and the file-name test the collector uses
//! to pick candidate module binaries.

use vstd::prelude::*;

use crate::bytes::{nonempty_pieces, split_bytes, split_on, subvec, views};

verus! {

/// One currently loaded module, as read from the running-module table.
pub struct LoadedModule {
    pub name: Vec<u8>,
    pub size: u64,
    pub ref_count: u64,
    pub dependencies: Vec<Vec<u8>>,
}

/// The mathematical value of one table line.
#[verifier::ext_equal]
pub ghost struct SpecLoaded {
    pub name: Seq<u8>,
    pub size: int,
    pub ref_count: int,
    pub dependencies: Seq<Seq<u8>>,
}

/// Whether every byte of `s` is a decimal digit.
pub open spec fn all_digits(s: Seq<u8>) -> bool {
    forall|i: int| 0 <= i < s.len() ==> 48 <= #[trigger] s[i] <= 57
}

/// The number the decimal digits of `s` denote.
pub open spec fn digits_val(s: Seq<u8>) -> int
    decreases s.len(),
{
    if s.len() == 0 {
        0
    } else {
        digits_val(s.drop_last()) * 10 + (s.last() - 48)
    }
}

pub proof fn lemma_digits_val_nonneg(s: Seq<u8>)
    requires
        all_digits(s),
    ensures
        digits_val(s) >= 0,
    decreases s.len(),
{
    if s.len() > 0 {
        lemma_digits_val_nonneg(s.drop_last());
    }
}

pub proof fn lemma_digits_val_mono(s: Seq<u8>, k: int)
    requires
        all_digits(s),
        0 <= k <= s.len(),
    ensures
        digits_val(s.take(k)) <= digits_val(s),
    decreases s.len(),
{
    if k < s.len() {
        assert(s.take(k) =~= s.drop_last().take(k));
        lemma_digits_val_mono(s.drop_last(), k);
        lemma_digits_val_nonneg(s.drop_last());
    } else {
        assert(s.take(k) =~= s);
    }
}

/// Parses `v` as an unsigned decimal number. `None` when `v` is empty, holds
/// a non-digit, or denotes a number too large for the result type.
pub fn parse_u64(v: &Vec<u8>) -> (r: Option<u64>)
    ensures
        match r {
            Some(x) => v@.len() > 0 && all_digits(v@) && x == digits_val(v@),
            None => !(v@.len() > 0 && all_digits(v@) && digits_val(v@) <= u64::MAX),
        },
{
    let n = v.len();
    if n == 0 {
        return None;
    }
    let mut acc: u64 = 0;
    let mut i: usize = 0;
    while i < n
        invariant
            n == v@.len(),
            i <= n,
            all_digits(v@.take(i as int)),
            acc == digits_val(v@.take(i as int)),
        decreases n - i,
    {
        let b = v[i];
        if b < 48 || b > 57 {
            proof {
                assert(!all_digits(v@));
            }
            return None;
        }
        let digit: u64 = (b - 48) as u64;
        proof {
            assert(v@.take(i as int + 1).drop_last() =~= v@.take(i as int));
            assert(v@.take(i as int + 1).last() == v@[i as int]);
        }
        if acc > (u64::MAX - digit) / 10 {
            proof {
                lemma_digits_val_nonneg(v@.take(i as int));
                assert(acc * 10 + digit > u64::MAX) by (nonlinear_arith)
                    requires
                        acc > (u64::MAX - digit) / 10,
                        0 <= digit <= 9,
                        acc >= 0,
                ;
                if all_digits(v@) && digits_val(v@) <= u64::MAX {
                    lemma_digits_val_mono(v@, i as int + 1);
                    assert(digits_val(v@.take(i as int + 1)) == acc * 10 + digit);
                }
            }
            return None;
        }
        proof {
            assert(acc * 10 + digit <= u64::MAX) by (nonlinear_arith)
                requires
                    acc <= (u64::MAX - digit) / 10,
                    0 <= digit <= 9,
                    acc >= 0,
            ;
        }
        acc = acc * 10 + digit;
        i = i + 1;
    }
    proof {
        assert(v@.take(n as int) =~= v@);
    }
    Some(acc)
}

/// What one line of the table denotes: at least four space-separated fields;
/// the second and third are decimal numbers; the fourth lists the dependents,
/// with `-` the marker for none, and empty pieces dropped.
pub open spec fn spec_loaded_line(line: Seq<u8>) -> Option<SpecLoaded> {
    let fields = split_on(line, 32);
    if fields.len() < 4 {
        None
    } else if fields[1].len() > 0 && all_digits(fields[1]) && digits_val(fields[1]) <= u64::MAX
        && fields[2].len() > 0 && all_digits(fields[2]) && digits_val(fields[2]) <= u64::MAX {
        Some(
            SpecLoaded {
                name: fields[0],
                size: digits_val(fields[1]),
                ref_count: digits_val(fields[2]),
                dependencies: if fields[3] == seq![45u8] {
                    seq![]
                } else {
                    nonempty_pieces(split_on(fields[3], 44))
                },
            },
        )
    } else {
        None
    }
}

/// Parses one line of the running-module table: name, resident size,
/// reference count, and the comma-separated dependent list with its `-`
/// marker for none. `None` when the line does not have that shape.
pub fn parse_loaded_module_line(line: &Vec<u8>) -> (r: Option<LoadedModule>)
    ensures
        match spec_loaded_line(line@) {
            Some(m) => r matches Some(lm) && lm.name@ == m.name && lm.size == m.size
                && lm.ref_count == m.ref_count && views(lm.dependencies@) == m.dependencies,
            None => r is None,
        },
{
    let fields = split_bytes(line, 32);
    proof {
        assert(views(fields@).len() == fields@.len());
    }
    if fields.len() < 4 {
        return None;
    }
    proof {
        assert(views(fields@)[0] == fields@[0]@);
        assert(views(fields@)[1] == fields@[1]@);
        assert(views(fields@)[2] == fields@[2]@);
        assert(views(fields@)[3] == fields@[3]@);
    }
    let name = subvec(&fields[0], 0, fields[0].len());
    proof {
        assert(name@ =~= fields@[0]@);
    }
    let size = match parse_u64(&fields[1]) {
        Some(x) => x,
        None => {
            return None;
        },
    };
    let ref_count = match parse_u64(&fields[2]) {
        Some(x) => x,
        None => {
            return None;
        },
    };
    let dash = fields[3].len() == 1 && fields[3][0] == 45;
    proof {
        if dash {
            assert(fields@[3]@ =~= seq![45u8]);
        }
        if fields@[3]@ == seq![45u8] {
            assert(fields@[3]@.len() == 1 && fields@[3]@[0] == 45);
        }
    }
    let mut dependencies: Vec<Vec<u8>> = Vec::new();
    if !dash {
        let pieces = split_bytes(&fields[3], 44);
        let mut j: usize = 0;
        proof {
            assert(views(pieces@).take(0) =~= Seq::<Seq<u8>>::empty());
            assert(views(dependencies@) =~= nonempty_pieces(views(pieces@).take(0)));
        }
        while j < pieces.len()
            invariant
                j <= pieces@.len(),
                views(dependencies@) == nonempty_pieces(views(pieces@).take(j as int)),
            decreases pieces@.len() - j,
        {
            proof {
                assert(views(pieces@).take(j as int + 1).drop_last() =~= views(pieces@).take(
                    j as int,
                ));
                assert(views(pieces@).take(j as int + 1).last() == pieces@[j as int]@);
            }
            if pieces[j].len() > 0 {
                let piece = subvec(&pieces[j], 0, pieces[j].len());
                proof {
                    assert(piece@ =~= pieces@[j as int]@);
                    crate::bytes::lemma_views_push(dependencies@, piece);
                }
                dependencies.push(piece);
                proof {
                    assert(views(dependencies@) =~= nonempty_pieces(
                        views(pieces@).take(j as int + 1),
                    ));
                }
            } else {
                proof {
                    assert(views(dependencies@) =~= nonempty_pieces(
                        views(pieces@).take(j as int + 1),
                    ));
                }
            }
            j = j + 1;
        }
        proof {
            assert(views(pieces@).take(pieces@.len() as int) =~= views(pieces@));
        }
    }
    Some(LoadedModule { name, size, ref_count, dependencies })
}

/// The bytes of `s` that are not NUL, in order.
pub open spec fn without_nuls(s: Seq<u8>) -> Seq<u8>
    decreases s.len(),
{
    if s.len() == 0 {
        seq![]
    } else {
        without_nuls(s.drop_last()) + (if s.last() != 0 {
            seq![s.last()]
        } else {
            seq![]
        })
    }
}

/// Drops every NUL byte of `v`, as when reading a fixed-size,
/// NUL-padded name buffer handed over by the operating environment.
pub fn strip_nul_bytes(v: &Vec<u8>) -> (r: Vec<u8>)
    ensures
        r@ == without_nuls(v@),
{
    let mut r: Vec<u8> = Vec::new();
    let mut i: usize = 0;
    proof {
        assert(v@.take(0) =~= Seq::<u8>::empty());
        assert(r@ =~= without_nuls(v@.take(0)));
    }
    while i < v.len()
        invariant
            i <= v@.len(),
            r@ == without_nuls(v@.take(i as int)),
        decreases v@.len() - i,
    {
        proof {
            assert(v@.take(i as int + 1).drop_last() =~= v@.take(i as int));
            assert(v@.take(i as int + 1).last() == v@[i as int]);
        }
        let b = v[i];
        if b != 0 {
            r.push(b);
        }
        proof {
            assert(r@ =~= without_nuls(v@.take(i as int + 1)));
        }
        i = i + 1;
    }
    proof {
        assert(v@.take(v@.len() as int) =~= v@);
    }
    r
}

/// The suffix of compressed module binaries: `.ko.gz`.
pub open spec fn module_suffix() -> Seq<u8> {
    seq![46u8, 107, 111, 46, 103, 122]
}

/// Whether `p` names a compressed module binary.
pub open spec fn is_module_path(p: Seq<u8>) -> bool {
    p.len() >= 6 && p.subrange(p.len() - 6, p.len() as int) == module_suffix()
}

/// Tests whether a file name ends in the compressed-module suffix `.ko.gz`.
pub fn is_module_file_name(p: &Vec<u8>) -> (r: bool)
    ensures
        r == is_module_path(p@),
{
    let n = p.len();
    if n < 6 {
        return false;
    }
    let base = n - 6;
    let r = p[base] == 46 && p[base + 1] == 107 && p[base + 2] == 111 && p[base + 3] == 46 && p[base
        + 4] == 103 && p[base + 5] == 122;
    proof {
        if r {
            assert(p@.subrange(p@.len() - 6, p@.len() as int) =~= module_suffix());
        }
        if p@.subrange(p@.len() - 6, p@.len() as int) == module_suffix() {
            assert(forall|k: int|
                0 <= k < 6 ==> p@.subrange(p@.len() - 6, p@.len() as int)[k] == module_suffix()[k]);
        }
    }
    r
}

} // verus!
