//! Byte-sequence groundwork: reading fixed-width words in either byte order,
//! splitting a byte sequence on a separator, and prefix tests.

use vstd::prelude::*;

verus! {

/// 256 to the `n`th power: the number of values an `n`-byte word can take.
pub open spec fn pow256(n: int) -> int
    decreases n,
{
    if n <= 0 {
        1
    } else {
        256 * pow256(n - 1)
    }
}

pub proof fn lemma_pow256_pos(n: int)
    ensures
        pow256(n) >= 1,
    decreases n,
{
    if n > 0 {
        lemma_pow256_pos(n - 1);
    }
}

pub proof fn lemma_pow256_le(i: int, j: int)
    requires
        i <= j,
    ensures
        pow256(i) <= pow256(j),
    decreases j - i,
{
    lemma_pow256_pos(i);
    if i < j {
        lemma_pow256_le(i, j - 1);
        lemma_pow256_pos(j - 1);
    }
}

pub proof fn lemma_pow256_word()
    ensures
        pow256(8) == 0x1_0000_0000_0000_0000,
{
    assert(pow256(0) == 1);
    assert(pow256(1) == 256);
    assert(pow256(2) == 0x1_0000);
    assert(pow256(3) == 0x100_0000);
    assert(pow256(4) == 0x1_0000_0000);
    assert(pow256(5) == 0x100_0000_0000);
    assert(pow256(6) == 0x1_0000_0000_0000);
    assert(pow256(7) == 0x100_0000_0000_0000);
    assert(pow256(8) == 0x1_0000_0000_0000_0000);
}

/// The value of the `len` bytes of `s` starting at `off`, least significant
/// byte first.
pub open spec fn le_val(s: Seq<u8>, off: int, len: int) -> int
    decreases len,
{
    if len <= 0 {
        0
    } else {
        s[off] + 256 * le_val(s, off + 1, len - 1)
    }
}

/// The value of the `len` bytes of `s` starting at `off`, most significant
/// byte first.
pub open spec fn be_val(s: Seq<u8>, off: int, len: int) -> int
    decreases len,
{
    if len <= 0 {
        0
    } else {
        256 * be_val(s, off, len - 1) + s[off + len - 1]
    }
}

/// The value of a `len`-byte word at `off`, in the byte order chosen by `big`.
pub open spec fn word_val(s: Seq<u8>, off: int, len: int, big: bool) -> int {
    if big {
        be_val(s, off, len)
    } else {
        le_val(s, off, len)
    }
}

pub proof fn lemma_le_val_bound(s: Seq<u8>, off: int, len: int)
    ensures
        0 <= le_val(s, off, len) < pow256(len),
    decreases len,
{
    if len <= 0 {
    } else {
        lemma_le_val_bound(s, off + 1, len - 1);
    }
}

pub proof fn lemma_be_val_bound(s: Seq<u8>, off: int, len: int)
    ensures
        0 <= be_val(s, off, len) < pow256(len),
    decreases len,
{
    if len <= 0 {
    } else {
        lemma_be_val_bound(s, off, len - 1);
    }
}

/// Reads the `len`-byte word at `off` from `v`, most significant byte first
/// when `big` holds, least significant byte first otherwise.
pub fn read_word(v: &Vec<u8>, off: usize, len: usize, big: bool) -> (r: u64)
    requires
        off + len <= v@.len(),
        len <= 8,
    ensures
        r == word_val(v@, off as int, len as int, big),
{
    let n: usize = v.len();
    let mut acc: u64 = 0;
    let mut k: usize = 0;
    while k < len
        invariant
            off + len <= n,
            n == v@.len(),
            len <= 8,
            k <= len,
            big ==> acc == be_val(v@, off as int, k as int),
            !big ==> acc == le_val(v@, (off + len - k) as int, k as int),
        decreases len - k,
    {
        let b: u8 = if big {
            v[off + k]
        } else {
            v[off + len - k - 1]
        };
        proof {
            if big {
                lemma_be_val_bound(v@, off as int, k as int);
            } else {
                lemma_le_val_bound(v@, (off + len - k) as int, k as int);
            }
            lemma_pow256_le(k as int + 1, 8);
            lemma_pow256_word();
            assert(256 * acc + b <= 256 * (pow256(k as int) - 1) + 255);
        }
        acc = acc * 256 + (b as u64);
        k = k + 1;
    }
    acc
}

/// The least index of `sep` in `s` at or after `i`, or the length of `s` when
/// `sep` does not occur there.
pub open spec fn find_from(s: Seq<u8>, sep: u8, i: int) -> int
    decreases s.len() - i,
{
    if i < 0 || i >= s.len() {
        s.len() as int
    } else if s[i] == sep {
        i
    } else {
        find_from(s, sep, i + 1)
    }
}

pub proof fn lemma_find_from_exact(s: Seq<u8>, sep: u8, i: int, j: int)
    requires
        0 <= i <= j <= s.len(),
        forall|k: int| i <= k < j ==> s[k] != sep,
        j < s.len() ==> s[j] == sep,
    ensures
        find_from(s, sep, i) == j,
    decreases j - i,
{
    if i < j {
        lemma_find_from_exact(s, sep, i + 1, j);
    }
}

/// The pieces of `s` between occurrences of `sep`, in order: one piece more
/// than there are separators, and pieces may be empty.
pub open spec fn split_on(s: Seq<u8>, sep: u8) -> Seq<Seq<u8>>
    decreases s.len(),
{
    let j = find_from(s, sep, 0);
    if 0 <= j && j < s.len() {
        seq![s.subrange(0, j)] + split_on(s.subrange(j + 1, s.len() as int), sep)
    } else {
        seq![s]
    }
}

/// The views of a sequence of byte vectors.
pub open spec fn views(s: Seq<Vec<u8>>) -> Seq<Seq<u8>> {
    Seq::new(s.len(), |i: int| s[i]@)
}

pub proof fn lemma_views_push(s: Seq<Vec<u8>>, x: Vec<u8>)
    ensures
        views(s.push(x)) == views(s).push(x@),
{
    assert(views(s.push(x)) =~= views(s).push(x@));
}

/// Splits `v` on the separator byte `sep`, keeping empty pieces.
pub fn split_bytes(v: &Vec<u8>, sep: u8) -> (r: Vec<Vec<u8>>)
    ensures
        views(r@) == split_on(v@, sep),
{
    let mut r: Vec<Vec<u8>> = Vec::new();
    let mut cur: Vec<u8> = Vec::new();
    let mut start: usize = 0;
    let mut i: usize = 0;
    proof {
        assert(v@.subrange(0, v@.len() as int) =~= v@);
        assert(views(r@) =~= Seq::<Seq<u8>>::empty());
        assert(views(r@) + split_on(v@, sep) =~= split_on(v@, sep));
    }
    while i < v.len()
        invariant
            start <= i <= v@.len(),
            cur@ == v@.subrange(start as int, i as int),
            forall|k: int| start <= k < i ==> v@[k] != sep,
            split_on(v@, sep) == views(r@) + split_on(
                v@.subrange(start as int, v@.len() as int),
                sep,
            ),
        decreases v@.len() - i,
    {
        let b = v[i];
        if b == sep {
            proof {
                let sub = v@.subrange(start as int, v@.len() as int);
                lemma_find_from_exact(sub, sep, 0, i - start);
                assert(sub.subrange(0, i - start) =~= v@.subrange(start as int, i as int));
                assert(sub.subrange(i - start + 1, sub.len() as int) =~= v@.subrange(
                    i as int + 1,
                    v@.len() as int,
                ));
                lemma_views_push(r@, cur);
                assert(views(r@).push(cur@) + split_on(
                    v@.subrange(i as int + 1, v@.len() as int),
                    sep,
                ) =~= views(r@) + split_on(sub, sep));
            }
            r.push(cur);
            cur = Vec::new();
            start = i + 1;
            proof {
                assert(cur@ =~= v@.subrange(start as int, start as int));
            }
        } else {
            cur.push(b);
            proof {
                assert(cur@ =~= v@.subrange(start as int, i as int + 1));
            }
        }
        i = i + 1;
    }
    proof {
        let sub = v@.subrange(start as int, v@.len() as int);
        lemma_find_from_exact(sub, sep, 0, sub.len() as int);
        assert(cur@ =~= sub);
        lemma_views_push(r@, cur);
        assert(views(r@).push(cur@) =~= views(r@) + seq![sub]);
    }
    r.push(cur);
    r
}

/// Whether `p` is a prefix of `s`.
pub open spec fn is_prefix_of(p: Seq<u8>, s: Seq<u8>) -> bool {
    p.len() <= s.len() && s.subrange(0, p.len() as int) == p
}

/// Tests whether `s` begins with the bytes of `p`.
pub fn starts_with(s: &Vec<u8>, p: &Vec<u8>) -> (r: bool)
    ensures
        r == is_prefix_of(p@, s@),
{
    if p.len() > s.len() {
        return false;
    }
    let mut i: usize = 0;
    while i < p.len()
        invariant
            p@.len() <= s@.len(),
            i <= p@.len(),
            forall|k: int| 0 <= k < i ==> s@[k] == p@[k],
        decreases p@.len() - i,
    {
        if s[i] != p[i] {
            proof {
                assert(s@.subrange(0, p@.len() as int)[i as int] == s@[i as int]);
            }
            return false;
        }
        i = i + 1;
    }
    proof {
        assert(s@.subrange(0, p@.len() as int) =~= p@);
    }
    true
}

/// Tests two byte vectors for equality of their contents.
pub fn bytes_eq(a: &Vec<u8>, b: &Vec<u8>) -> (r: bool)
    ensures
        r == (a@ == b@),
{
    if a.len() != b.len() {
        return false;
    }
    let mut i: usize = 0;
    while i < a.len()
        invariant
            a@.len() == b@.len(),
            i <= a@.len(),
            forall|k: int| 0 <= k < i ==> a@[k] == b@[k],
        decreases a@.len() - i,
    {
        if a[i] != b[i] {
            return false;
        }
        i = i + 1;
    }
    proof {
        assert(a@ =~= b@);
    }
    true
}

/// Copies the bytes of `v` from `from` (inclusive) to `to` (exclusive).
pub fn subvec(v: &Vec<u8>, from: usize, to: usize) -> (r: Vec<u8>)
    requires
        from <= to <= v@.len(),
    ensures
        r@ == v@.subrange(from as int, to as int),
{
    let mut r: Vec<u8> = Vec::new();
    let mut i: usize = from;
    while i < to
        invariant
            from <= i <= to <= v@.len(),
            r@ == v@.subrange(from as int, i as int),
        decreases to - i,
    {
        r.push(v[i]);
        proof {
            assert(r@ =~= v@.subrange(from as int, i as int + 1));
        }
        i = i + 1;
    }
    r
}

/// The pieces of `ss` that are not empty, in order.
pub open spec fn nonempty_pieces(ss: Seq<Seq<u8>>) -> Seq<Seq<u8>>
    decreases ss.len(),
{
    if ss.len() == 0 {
        seq![]
    } else {
        nonempty_pieces(ss.drop_last()) + (if ss.last().len() > 0 {
            seq![ss.last()]
        } else {
            seq![]
        })
    }
}

} // verus!
