//! A verified UTF-8 validity check for byte sequences. A metadata record that
//! fails this check cannot be decoded as text, which is the one hard failure
//! of the metadata parser.

use vstd::prelude::*;

verus! {

/// Whether `b` is a UTF-8 continuation byte.
pub open spec fn is_cont(b: u8) -> bool {
    0x80 <= b && b <= 0xBF
}

/// Whether the bytes of `s` from `i` on are a well-formed UTF-8 encoding:
/// sequences of one to four bytes, with over-long forms, surrogate code
/// points and values past the last code point all excluded.
pub open spec fn utf8_ok_from(s: Seq<u8>, i: int) -> bool
    decreases s.len() - i,
{
    if i < 0 || i >= s.len() {
        true
    } else {
        let b = s[i];
        if b < 0x80 {
            utf8_ok_from(s, i + 1)
        } else if b < 0xC2 {
            false
        } else if b <= 0xDF {
            i + 2 <= s.len() && is_cont(s[i + 1]) && utf8_ok_from(s, i + 2)
        } else if b <= 0xEF {
            i + 3 <= s.len() && is_cont(s[i + 1]) && is_cont(s[i + 2]) && (b == 0xE0 ==> s[i + 1]
                >= 0xA0) && (b == 0xED ==> s[i + 1] <= 0x9F) && utf8_ok_from(s, i + 3)
        } else if b <= 0xF4 {
            i + 4 <= s.len() && is_cont(s[i + 1]) && is_cont(s[i + 2]) && is_cont(s[i + 3]) && (b
                == 0xF0 ==> s[i + 1] >= 0x90) && (b == 0xF4 ==> s[i + 1] <= 0x8F) && utf8_ok_from(
                s,
                i + 4,
            )
        } else {
            false
        }
    }
}

/// Whether `s` as a whole is well-formed UTF-8 text.
pub open spec fn is_utf8(s: Seq<u8>) -> bool {
    utf8_ok_from(s, 0)
}

/// Decides whether the bytes of `v` are well-formed UTF-8 text.
pub fn check_utf8(v: &Vec<u8>) -> (r: bool)
    ensures
        r == is_utf8(v@),
{
    let n: usize = v.len();
    let mut i: usize = 0;
    while i < n
        invariant
            i <= n,
            n == v@.len(),
            is_utf8(v@) == utf8_ok_from(v@, i as int),
        decreases n - i,
    {
        let b = v[i];
        if b < 0x80 {
            i = i + 1;
        } else if b < 0xC2 {
            return false;
        } else if b <= 0xDF {
            if !(n - i >= 2 && 0x80 <= v[i + 1] && v[i + 1] <= 0xBF) {
                return false;
            }
            i = i + 2;
        } else if b <= 0xEF {
            if !(n - i >= 3 && 0x80 <= v[i + 1] && v[i + 1] <= 0xBF && 0x80 <= v[i + 2] && v[i + 2]
                <= 0xBF) {
                return false;
            }
            if b == 0xE0 && v[i + 1] < 0xA0 {
                return false;
            }
            if b == 0xED && v[i + 1] > 0x9F {
                return false;
            }
            i = i + 3;
        } else if b <= 0xF4 {
            if !(n - i >= 4 && 0x80 <= v[i + 1] && v[i + 1] <= 0xBF && 0x80 <= v[i + 2] && v[i + 2]
                <= 0xBF && 0x80 <= v[i + 3] && v[i + 3] <= 0xBF) {
                return false;
            }
            if b == 0xF0 && v[i + 1] < 0x90 {
                return false;
            }
            if b == 0xF4 && v[i + 1] > 0x8F {
                return false;
            }
            i = i + 4;
        } else {
            return false;
        }
    }
    true
}

} // verus!
