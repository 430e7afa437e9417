//! The section locator: parses the structural header of an ELF image, walks
//! its section table, and returns the raw content bytes of the first section
//! whose name matches, bounds-checking every read against the image length.
//!
//! Both ELF classes (32- and 64-bit) and both byte orders are read. A missing
//! section is a normal empty result; an inconsistent header or section table
//! is `MalformedBinaryImage`.

use vstd::prelude::*;

use crate::bytes::{
    lemma_be_val_bound, lemma_le_val_bound, read_word, subvec, word_val,
};
use crate::errors::ModError;
use vstd::arithmetic::mul::{lemma_mul_inequality, lemma_mul_is_distributive_add_other_way};

verus! {

/// The fields of the ELF header that the section locator reads.
pub ghost struct ElfHeader {
    /// Whether the image is 64-bit (class 2) rather than 32-bit (class 1).
    pub is64: bool,
    /// Whether multi-byte fields are big-endian (data encoding 2).
    pub big: bool,
    /// File offset of the section table.
    pub shoff: int,
    /// Size of one section-table entry.
    pub shentsize: int,
    /// Number of section-table entries.
    pub shnum: int,
    /// Index of the section holding the section names.
    pub shstrndx: int,
}

/// The header fields of `img`, or `None` when `img` does not begin with a
/// recognizable ELF identification and complete header.
pub open spec fn spec_header(img: Seq<u8>) -> Option<ElfHeader> {
    if img.len() >= 6 && img[0] == 0x7F && img[1] == 0x45 && img[2] == 0x4C && img[3] == 0x46 && (
    img[4] == 1 || img[4] == 2) && (img[5] == 1 || img[5] == 2) {
        let is64 = img[4] == 2;
        let big = img[5] == 2;
        if is64 {
            if img.len() >= 64 {
                Some(
                    ElfHeader {
                        is64,
                        big,
                        shoff: word_val(img, 0x28, 8, big),
                        shentsize: word_val(img, 0x3A, 2, big),
                        shnum: word_val(img, 0x3C, 2, big),
                        shstrndx: word_val(img, 0x3E, 2, big),
                    },
                )
            } else {
                None
            }
        } else {
            if img.len() >= 52 {
                Some(
                    ElfHeader {
                        is64,
                        big,
                        shoff: word_val(img, 0x20, 4, big),
                        shentsize: word_val(img, 0x2E, 2, big),
                        shnum: word_val(img, 0x30, 2, big),
                        shstrndx: word_val(img, 0x32, 2, big),
                    },
                )
            } else {
                None
            }
        }
    } else {
        None
    }
}

/// The least entry size that leaves room for the fields read here.
pub open spec fn min_entsize(h: ElfHeader) -> int {
    if h.is64 {
        64
    } else {
        40
    }
}

/// File offset of section-table entry `i`.
pub open spec fn entry_base(h: ElfHeader, i: int) -> int {
    h.shoff + i * h.shentsize
}

/// The name offset (into the name section's content) of entry `i`.
pub open spec fn entry_name_off(img: Seq<u8>, h: ElfHeader, i: int) -> int {
    word_val(img, entry_base(h, i), 4, h.big)
}

/// The content offset of entry `i`.
pub open spec fn entry_offset(img: Seq<u8>, h: ElfHeader, i: int) -> int {
    if h.is64 {
        word_val(img, entry_base(h, i) + 0x18, 8, h.big)
    } else {
        word_val(img, entry_base(h, i) + 0x10, 4, h.big)
    }
}

/// The content size of entry `i`.
pub open spec fn entry_size(img: Seq<u8>, h: ElfHeader, i: int) -> int {
    if h.is64 {
        word_val(img, entry_base(h, i) + 0x20, 8, h.big)
    } else {
        word_val(img, entry_base(h, i) + 0x14, 4, h.big)
    }
}

/// Whether the whole section table lies inside the image, with entries large
/// enough to hold the fields read here.
pub open spec fn table_in_bounds(img: Seq<u8>, h: ElfHeader) -> bool {
    h.shentsize >= min_entsize(h) && h.shoff + h.shnum * h.shentsize <= img.len()
}

/// Whether the name section's index and content range are consistent.
pub open spec fn strtab_ok(img: Seq<u8>, h: ElfHeader) -> bool {
    0 <= h.shstrndx < h.shnum && entry_offset(img, h, h.shstrndx) + entry_size(img, h, h.shstrndx)
        <= img.len()
}

/// The content bytes of the name section.
pub open spec fn strtab(img: Seq<u8>, h: ElfHeader) -> Seq<u8> {
    img.subrange(
        entry_offset(img, h, h.shstrndx),
        entry_offset(img, h, h.shstrndx) + entry_size(img, h, h.shstrndx),
    )
}

/// Whether the NUL-terminated string at `off` in `tab` is exactly `name`.
pub open spec fn name_matches(tab: Seq<u8>, off: int, name: Seq<u8>) -> bool {
    0 <= off && off + name.len() < tab.len() && tab.subrange(off, off + name.len() as int) == name
        && tab[off + name.len() as int] == 0
}

/// The index of the first entry at or after `i` whose name is `name`.
pub open spec fn spec_scan(img: Seq<u8>, h: ElfHeader, name: Seq<u8>, i: int) -> Option<int>
    decreases h.shnum - i,
{
    if i < 0 || i >= h.shnum {
        None
    } else if name_matches(strtab(img, h), entry_name_off(img, h, i), name) {
        Some(i)
    } else {
        spec_scan(img, h, name, i + 1)
    }
}

/// What the section locator returns on `img` and `name`: `Err` for a
/// malformed image, `Ok(None)` when no section is named `name`, and
/// otherwise the content bytes of the first such section.
pub open spec fn spec_find_section(img: Seq<u8>, name: Seq<u8>) -> Result<Option<Seq<u8>>, ()> {
    match spec_header(img) {
        None => Err(()),
        Some(h) => {
            if !table_in_bounds(img, h) {
                Err(())
            } else if h.shnum == 0 {
                Ok(None)
            } else if !strtab_ok(img, h) {
                Err(())
            } else {
                match spec_scan(img, h, name, 0) {
                    None => Ok(None),
                    Some(i) => {
                        if entry_offset(img, h, i) + entry_size(img, h, i) <= img.len() {
                            Ok(
                                Some(
                                    img.subrange(
                                        entry_offset(img, h, i),
                                        entry_offset(img, h, i) + entry_size(img, h, i),
                                    ),
                                ),
                            )
                        } else {
                            Err(())
                        }
                    },
                }
            }
        },
    }
}

/// Reads the name offset, content offset and content size of section-table
/// entry `idx`.
fn entry_fields(
    img: &Vec<u8>,
    shoff: u64,
    shentsize: u64,
    shnum: u64,
    big: bool,
    is64: bool,
    idx: u64,
) -> (t: (u64, u64, u64))
    requires
        shentsize >= (if is64 {
            64int
        } else {
            40int
        }),
        idx < shnum,
        shnum < 0x10000,
        shentsize < 0x10000,
        shoff + shnum * shentsize <= img@.len(),
    ensures
        t.0 == word_val(img@, shoff + idx * shentsize, 4, big),
        t.1 == (if is64 {
            word_val(img@, shoff + idx * shentsize + 0x18, 8, big)
        } else {
            word_val(img@, shoff + idx * shentsize + 0x10, 4, big)
        }),
        t.2 == (if is64 {
            word_val(img@, shoff + idx * shentsize + 0x20, 8, big)
        } else {
            word_val(img@, shoff + idx * shentsize + 0x14, 4, big)
        }),
{
    let n: usize = img.len();
    proof {
        lemma_mul_inequality(idx as int + 1, shnum as int, shentsize as int);
        lemma_mul_is_distributive_add_other_way(shentsize as int, idx as int, 1);
        assert((idx + 1) * shentsize == idx * shentsize + shentsize) by (nonlinear_arith);
        assert(idx * shentsize >= 0) by (nonlinear_arith)
            requires idx >= 0 && shentsize >= 0;
    }
    let base: u64 = shoff + idx * shentsize;
    let name_off = read_word(img, base as usize, 4, big);
    let (off, size) = if is64 {
        (
            read_word(img, base as usize + 0x18, 8, big),
            read_word(img, base as usize + 0x20, 8, big),
        )
    } else {
        (
            read_word(img, base as usize + 0x10, 4, big),
            read_word(img, base as usize + 0x14, 4, big),
        )
    };
    (name_off, off, size)
}

/// Tests whether the NUL-terminated string at `off` in `tab` is `name`.
fn match_at(tab: &Vec<u8>, off: u64, name: &Vec<u8>) -> (r: bool)
    ensures
        r == name_matches(tab@, off as int, name@),
{
    let tl: u64 = tab.len() as u64;
    let nl: u64 = name.len() as u64;
    if off >= tl || tl - off <= nl {
        return false;
    }
    let o: usize = off as usize;
    let mut j: usize = 0;
    while j < name.len()
        invariant
            o == off,
            nl == name@.len(),
            off + nl < tab@.len(),
            tab@.len() <= usize::MAX,
            j <= name@.len(),
            forall|k: int| 0 <= k < j ==> tab@[off + k] == name@[k],
        decreases name@.len() - j,
    {
        if tab[o + j] != name[j] {
            proof {
                assert(tab@.subrange(off as int, off + nl)[j as int] == tab@[off + j]);
            }
            return false;
        }
        j = j + 1;
    }
    proof {
        assert(tab@.subrange(off as int, off + nl) =~= name@);
    }
    tab[o + name.len()] == 0
}

/// Finds the first section of `img` named `name` and returns its content
/// bytes; `Ok(None)` when no section has that name, and
/// `MalformedBinaryImage` when the image's header or section table is not
/// consistent. No byte outside `img` is ever read.
pub fn find_section(img: &Vec<u8>, name: &Vec<u8>) -> (r: Result<Option<Vec<u8>>, ModError>)
    ensures
        match spec_find_section(img@, name@) {
            Err(_) => r matches Err(e) && e == ModError::MalformedBinaryImage,
            Ok(None) => r matches Ok(o) && o is None,
            Ok(Some(s)) => r matches Ok(o) && o matches Some(v) && v@ == s,
        },
{
    let n: usize = img.len();
    if n < 6 {
        return Err(ModError::MalformedBinaryImage);
    }
    if !(img[0] == 0x7F && img[1] == 0x45 && img[2] == 0x4C && img[3] == 0x46) {
        return Err(ModError::MalformedBinaryImage);
    }
    let class = img[4];
    let data = img[5];
    if !(class == 1 || class == 2) || !(data == 1 || data == 2) {
        return Err(ModError::MalformedBinaryImage);
    }
    let is64 = class == 2;
    let big = data == 2;
    if is64 && n < 64 {
        return Err(ModError::MalformedBinaryImage);
    }
    if !is64 && n < 52 {
        return Err(ModError::MalformedBinaryImage);
    }
    let (shoff, shentsize, shnum, shstrndx) = if is64 {
        (
            read_word(img, 0x28, 8, big),
            read_word(img, 0x3A, 2, big),
            read_word(img, 0x3C, 2, big),
            read_word(img, 0x3E, 2, big),
        )
    } else {
        (
            read_word(img, 0x20, 4, big),
            read_word(img, 0x2E, 2, big),
            read_word(img, 0x30, 2, big),
            read_word(img, 0x32, 2, big),
        )
    };
    let ghost h = ElfHeader {
        is64,
        big,
        shoff: shoff as int,
        shentsize: shentsize as int,
        shnum: shnum as int,
        shstrndx: shstrndx as int,
    };
    proof {
        assert(spec_header(img@) == Some(h));
        assert(crate::bytes::pow256(0) == 1);
        assert(crate::bytes::pow256(1) == 256);
        assert(crate::bytes::pow256(2) == 0x10000);
        if is64 {
            lemma_word_bound(img@, 0x3A, 2, big);
            lemma_word_bound(img@, 0x3C, 2, big);
        } else {
            lemma_word_bound(img@, 0x2E, 2, big);
            lemma_word_bound(img@, 0x30, 2, big);
        }
    }
    let min_ent: u64 = if is64 {
        64
    } else {
        40
    };
    let n64: u64 = n as u64;
    if shentsize < min_ent {
        return Err(ModError::MalformedBinaryImage);
    }
    proof {
        assert(shnum * shentsize >= 0) by (nonlinear_arith)
            requires shnum >= 0 && shentsize >= 0;
        assert(shnum * shentsize < 0x1_0000_0000) by (nonlinear_arith)
            requires 0 <= shnum < 0x10000 && 0 <= shentsize < 0x10000;
    }
    if shoff > n64 || shnum * shentsize > n64 - shoff {
        return Err(ModError::MalformedBinaryImage);
    }
    if shnum == 0 {
        return Ok(None);
    }
    if shstrndx >= shnum {
        return Err(ModError::MalformedBinaryImage);
    }
    let (_str_name, str_off, str_size) = entry_fields(img, shoff, shentsize, shnum, big, is64, shstrndx);
    if str_off > n64 || str_size > n64 - str_off {
        return Err(ModError::MalformedBinaryImage);
    }
    let tab = subvec(img, str_off as usize, (str_off + str_size) as usize);
    proof {
        assert(tab@ == strtab(img@, h));
    }
    let mut i: u64 = 0;
    while i < shnum
        invariant
            spec_header(img@) == Some(h),
            h.shoff == shoff as int && h.shentsize == shentsize as int && h.shnum == shnum as int
                && h.shstrndx == shstrndx as int && h.is64 == is64 && h.big == big,
            shentsize >= min_entsize(h),
            shnum < 0x10000,
            shentsize < 0x10000,
            shoff + shnum * shentsize <= img@.len(),
            table_in_bounds(img@, h),
            strtab_ok(img@, h),
            tab@ == strtab(img@, h),
            n64 == img@.len(),
            n == img@.len(),
            0 <= i <= shnum,
            spec_scan(img@, h, name@, 0) == spec_scan(img@, h, name@, i as int),
        decreases shnum - i,
    {
        let (name_off, s_off, s_size) = entry_fields(img, shoff, shentsize, shnum, big, is64, i);
        if match_at(&tab, name_off, name) {
            proof {
                assert(spec_scan(img@, h, name@, i as int) == Some(i as int));
            }
            if s_off > n64 || s_size > n64 - s_off {
                return Err(ModError::MalformedBinaryImage);
            }
            let sec = subvec(img, s_off as usize, (s_off + s_size) as usize);
            return Ok(Some(sec));
        }
        i = i + 1;
    }
    proof {
        assert(spec_scan(img@, h, name@, shnum as int) is None);
    }
    Ok(None)
}

proof fn lemma_word_bound(s: Seq<u8>, off: int, len: int, big: bool)
    requires
        0 <= len,
    ensures
        0 <= word_val(s, off, len, big) < crate::bytes::pow256(len),
{
    if big {
        lemma_be_val_bound(s, off, len);
    } else {
        lemma_le_val_bound(s, off, len);
    }
}

} // verus!
