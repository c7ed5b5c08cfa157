//! UTF-8 validation for the names the guest hands across the memory
//! boundary. A profile or file name arrives as raw bytes; a malformed name is
//! a caller bug and is reported as a fault, never patched up with
//! placeholder text.

use vstd::prelude::*;

verus! {

/// A UTF-8 continuation byte: `10xxxxxx`.
pub open spec fn is_cont_byte(b: u8) -> bool {
    0x80 <= b <= 0xBF
}

/// Well-formed UTF-8, byte sequence by byte sequence, following the encoding
/// scheme's shortest-form and surrogate-exclusion rules: one-byte sequences
/// up to 0x7F; two-byte leads 0xC2..=0xDF; three-byte leads 0xE0..=0xEF with
/// the narrowed second-byte ranges after 0xE0 and 0xED; four-byte leads
/// 0xF0..=0xF4 with the narrowed ranges after 0xF0 and 0xF4.
pub open spec fn is_utf8(s: Seq<u8>) -> bool
    decreases s.len(),
{
    if s.len() == 0 {
        true
    } else {
        let b0 = s[0];
        if b0 < 0x80 {
            is_utf8(s.skip(1))
        } else if b0 < 0xC2 {
            false
        } else if b0 < 0xE0 {
            s.len() >= 2 && is_cont_byte(s[1]) && is_utf8(s.skip(2))
        } else if b0 == 0xE0 {
            s.len() >= 3 && 0xA0 <= s[1] <= 0xBF && is_cont_byte(s[2]) && is_utf8(s.skip(3))
        } else if b0 == 0xED {
            s.len() >= 3 && 0x80 <= s[1] <= 0x9F && is_cont_byte(s[2]) && is_utf8(s.skip(3))
        } else if b0 < 0xF0 {
            s.len() >= 3 && is_cont_byte(s[1]) && is_cont_byte(s[2]) && is_utf8(s.skip(3))
        } else if b0 == 0xF0 {
            s.len() >= 4 && 0x90 <= s[1] <= 0xBF && is_cont_byte(s[2]) && is_cont_byte(s[3])
                && is_utf8(s.skip(4))
        } else if b0 < 0xF4 {
            s.len() >= 4 && is_cont_byte(s[1]) && is_cont_byte(s[2]) && is_cont_byte(s[3])
                && is_utf8(s.skip(4))
        } else if b0 == 0xF4 {
            s.len() >= 4 && 0x80 <= s[1] <= 0x8F && is_cont_byte(s[2]) && is_cont_byte(s[3])
                && is_utf8(s.skip(4))
        } else {
            false
        }
    }
}

/// Decides `is_utf8` on a byte vector.
pub fn validate_utf8(s: &Vec<u8>) -> (r: bool)
    ensures
        r == is_utf8(s@),
{
    let n = s.len();
    let mut i: usize = 0;
    assert(s@.skip(0) =~= s@);
    while i < n
        invariant
            i <= n,
            n == s@.len(),
            is_utf8(s@) == is_utf8(s@.skip(i as int)),
        decreases n - i,
    {
        let ghost tail = s@.skip(i as int);
        let b0 = s[i];
        assert(tail[0] == b0);
        if b0 < 0x80 {
            assert(s@.skip(i + 1) =~= tail.skip(1));
            i = i + 1;
        } else if b0 < 0xC2 {
            return false;
        } else if b0 < 0xE0 {
            if n - i < 2 || !cont(s[i + 1]) {
                return false;
            }
            assert(tail[1] == s@[i + 1]);
            assert(s@.skip(i + 2) =~= tail.skip(2));
            i = i + 2;
        } else if b0 < 0xF0 {
            if n - i < 3 || !cont(s[i + 2]) {
                return false;
            }
            let b1 = s[i + 1];
            let ok1 = if b0 == 0xE0 {
                0xA0 <= b1 && b1 <= 0xBF
            } else if b0 == 0xED {
                0x80 <= b1 && b1 <= 0x9F
            } else {
                cont(b1)
            };
            if !ok1 {
                return false;
            }
            assert(tail[1] == s@[i + 1] && tail[2] == s@[i + 2]);
            assert(s@.skip(i + 3) =~= tail.skip(3));
            i = i + 3;
        } else if b0 <= 0xF4 {
            if n - i < 4 || !cont(s[i + 2]) || !cont(s[i + 3]) {
                return false;
            }
            let b1 = s[i + 1];
            let ok1 = if b0 == 0xF0 {
                0x90 <= b1 && b1 <= 0xBF
            } else if b0 == 0xF4 {
                0x80 <= b1 && b1 <= 0x8F
            } else {
                cont(b1)
            };
            if !ok1 {
                return false;
            }
            assert(tail[1] == s@[i + 1] && tail[2] == s@[i + 2] && tail[3] == s@[i + 3]);
            assert(s@.skip(i + 4) =~= tail.skip(4));
            i = i + 4;
        } else {
            return false;
        }
    }
    assert(s@.skip(n as int) =~= Seq::<u8>::empty());
    true
}

/// Decides `is_cont_byte`.
fn cont(b: u8) -> (r: bool)
    ensures
        r == is_cont_byte(b),
{
    0x80 <= b && b <= 0xBF
}

} // verus!
