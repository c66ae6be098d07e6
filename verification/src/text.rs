//! Byte-string utilities for the `Like` operator.
//!
//! Pattern matching works on the raw bytes of UTF-8 strings.  Every
//! operation here is ASCII-scoped: bytes of multi-byte UTF-8 characters
//! are all at least `0x80`, so byte-wise ASCII case folding and byte-wise
//! substring search agree with the character-wise operations on valid
//! UTF-8 input.

use vstd::prelude::*;

verus! {

/// An owned copy of a byte string.
pub fn copy_bytes(b: &[u8]) -> (r: Vec<u8>)
    ensures
        r@ == b@,
{
    let mut r: Vec<u8> = Vec::new();
    let mut i: usize = 0;
    while i < b.len()
        invariant
            i <= b@.len(),
            r@ == b@.take(i as int),
        decreases b@.len() - i,
    {
        r.push(b[i]);
        i = i + 1;
        proof {
            assert(r@ =~= b@.take(i as int));
        }
    }
    proof {
        assert(b@.take(b@.len() as int) =~= b@);
    }
    r
}

/// Whether a byte is a UTF-8 continuation byte.
pub open spec fn is_cont(b: u8) -> bool {
    0x80 <= b <= 0xbf
}

/// Whether a byte sequence is well-formed UTF-8: a run of one- to
/// four-byte characters with the shortest-form and surrogate-range
/// restrictions.
pub open spec fn is_utf8(s: Seq<u8>) -> bool
    decreases s.len(),
{
    if s.len() == 0 {
        true
    } else {
        let b0 = s[0];
        if b0 <= 0x7f {
            is_utf8(s.skip(1))
        } else if 0xc2 <= b0 <= 0xdf {
            s.len() >= 2 && is_cont(s[1]) && is_utf8(s.skip(2))
        } else if b0 == 0xe0 {
            s.len() >= 3 && 0xa0 <= s[1] <= 0xbf && is_cont(s[2]) && is_utf8(s.skip(3))
        } else if 0xe1 <= b0 <= 0xec || 0xee <= b0 <= 0xef {
            s.len() >= 3 && is_cont(s[1]) && is_cont(s[2]) && is_utf8(s.skip(3))
        } else if b0 == 0xed {
            s.len() >= 3 && 0x80 <= s[1] <= 0x9f && is_cont(s[2]) && is_utf8(s.skip(3))
        } else if b0 == 0xf0 {
            s.len() >= 4 && 0x90 <= s[1] <= 0xbf && is_cont(s[2]) && is_cont(s[3]) && is_utf8(
                s.skip(4),
            )
        } else if 0xf1 <= b0 <= 0xf3 {
            s.len() >= 4 && is_cont(s[1]) && is_cont(s[2]) && is_cont(s[3]) && is_utf8(s.skip(4))
        } else if b0 == 0xf4 {
            s.len() >= 4 && 0x80 <= s[1] <= 0x8f && is_cont(s[2]) && is_cont(s[3]) && is_utf8(
                s.skip(4),
            )
        } else {
            false
        }
    }
}

/// Check that a byte string is well-formed UTF-8.
pub fn validate_utf8(data: &[u8]) -> (r: bool)
    ensures
        r == is_utf8(data@),
{
    let n = data.len();
    let mut i: usize = 0;
    proof {
        assert(data@.skip(0int) =~= data@);
    }
    while i < n
        invariant
            i <= n,
            n == data@.len(),
            is_utf8(data@) == is_utf8(data@.skip(i as int)),
        decreases n - i,
    {
        let b0 = data[i];
        if b0 <= 0x7f {
            proof {
                assert(data@.skip(i as int).skip(1) =~= data@.skip(i + 1));
            }
            i = i + 1;
        } else if 0xc2 <= b0 && b0 <= 0xdf {
            if n - i < 2 || !(0x80 <= data[i + 1] && data[i + 1] <= 0xbf) {
                return false;
            }
            proof {
                assert(data@.skip(i as int).skip(2) =~= data@.skip(i + 2));
            }
            i = i + 2;
        } else if 0xe0 <= b0 && b0 <= 0xef {
            if n - i < 3 {
                return false;
            }
            let b1 = data[i + 1];
            let b2 = data[i + 2];
            let lo: u8 = if b0 == 0xe0 {
                0xa0
            } else {
                0x80
            };
            let hi: u8 = if b0 == 0xed {
                0x9f
            } else {
                0xbf
            };
            if !(lo <= b1 && b1 <= hi) || !(0x80 <= b2 && b2 <= 0xbf) {
                return false;
            }
            proof {
                assert(data@.skip(i as int).skip(3) =~= data@.skip(i + 3));
            }
            i = i + 3;
        } else if 0xf0 <= b0 && b0 <= 0xf4 {
            if n - i < 4 {
                return false;
            }
            let b1 = data[i + 1];
            let b2 = data[i + 2];
            let b3 = data[i + 3];
            let lo: u8 = if b0 == 0xf0 {
                0x90
            } else {
                0x80
            };
            let hi: u8 = if b0 == 0xf4 {
                0x8f
            } else {
                0xbf
            };
            if !(lo <= b1 && b1 <= hi) || !(0x80 <= b2 && b2 <= 0xbf) || !(0x80 <= b3 && b3
                <= 0xbf) {
                return false;
            }
            proof {
                assert(data@.skip(i as int).skip(4) =~= data@.skip(i + 4));
            }
            i = i + 4;
        } else {
            return false;
        }
    }
    proof {
        assert(data@.skip(n as int).len() == 0);
    }
    true
}

/// Whether a byte is an ASCII letter.
pub open spec fn is_ascii_alpha(b: u8) -> bool {
    0x41 <= b <= 0x5a || 0x61 <= b <= 0x7a
}

/// Whether a byte string holds at least one ASCII letter.
pub open spec fn has_ascii_alpha(s: Seq<u8>) -> bool {
    exists|i: int| 0 <= i < s.len() && is_ascii_alpha(#[trigger] s[i])
}

/// Check whether a byte string holds at least one ASCII letter.
pub fn contains_ascii_alpha(data: &[u8]) -> (r: bool)
    ensures
        r == has_ascii_alpha(data@),
{
    let mut i: usize = 0;
    while i < data.len()
        invariant
            i <= data@.len(),
            forall|j: int| 0 <= j < i ==> !is_ascii_alpha(#[trigger] data@[j]),
        decreases data@.len() - i,
    {
        let b = data[i];
        if (0x41 <= b && b <= 0x5a) || (0x61 <= b && b <= 0x7a) {
            return true;
        }
        i = i + 1;
    }
    false
}

/// A byte with an ASCII upper-case letter folded to lower case; every
/// other byte is kept.
pub open spec fn lower_byte(b: u8) -> u8 {
    if 0x41 <= b <= 0x5a {
        (b + 0x20) as u8
    } else {
        b
    }
}

/// A byte string with its ASCII letters folded to lower case.
pub open spec fn lower(s: Seq<u8>) -> Seq<u8> {
    s.map_values(|b: u8| lower_byte(b))
}

/// Fold the ASCII letters of a byte string to lower case.
pub fn to_lower(data: &[u8]) -> (r: Vec<u8>)
    ensures
        r@ == lower(data@),
{
    let mut r: Vec<u8> = Vec::new();
    let mut i: usize = 0;
    while i < data.len()
        invariant
            i <= data@.len(),
            r@ == lower(data@).take(i as int),
        decreases data@.len() - i,
    {
        let b = data[i];
        if 0x41 <= b && b <= 0x5a {
            r.push(b + 0x20);
        } else {
            r.push(b);
        }
        i = i + 1;
        proof {
            assert(r@ =~= lower(data@).take(i as int));
        }
    }
    proof {
        assert(lower(data@).take(data@.len() as int) =~= lower(data@));
    }
    r
}

/// Whether `t` begins with `p`.
pub open spec fn spec_starts_with(t: Seq<u8>, p: Seq<u8>) -> bool {
    p.len() <= t.len() && t.take(p.len() as int) == p
}

/// Whether `t` ends with `p`.
pub open spec fn spec_ends_with(t: Seq<u8>, p: Seq<u8>) -> bool {
    p.len() <= t.len() && t.skip(t.len() - p.len()) == p
}

/// Whether `p` occurs somewhere inside `t`.
pub open spec fn spec_contains(t: Seq<u8>, p: Seq<u8>) -> bool {
    exists|k: int| 0 <= k <= t.len() - p.len() && #[trigger] t.subrange(k, k + p.len()) == p
}

/// Whether the bytes of `t` starting at `k` spell out `p`.
fn matches_at(t: &[u8], p: &[u8], k: usize) -> (r: bool)
    requires
        k + p@.len() <= t@.len(),
    ensures
        r == (t@.subrange(k as int, k + p@.len()) == p@),
{
    let tn = t.len();
    let mut j: usize = 0;
    while j < p.len()
        invariant
            j <= p@.len(),
            k + p@.len() <= t@.len(),
            tn == t@.len(),
            forall|x: int| 0 <= x < j ==> t@[k + x] == p@[x],
        decreases p@.len() - j,
    {
        if t[k + j] != p[j] {
            proof {
                assert(t@.subrange(k as int, k + p@.len())[j as int] != p@[j as int]);
            }
            return false;
        }
        j = j + 1;
    }
    proof {
        assert(t@.subrange(k as int, k + p@.len()) =~= p@);
    }
    true
}

/// Whether two byte strings are equal.
pub fn bytes_eq(a: &[u8], b: &[u8]) -> (r: bool)
    ensures
        r == (a@ == b@),
{
    if a.len() != b.len() {
        return false;
    }
    let r = matches_at(a, b, 0);
    proof {
        if a@.subrange(0, b@.len() as int) == b@ {
            assert(a@ =~= a@.subrange(0, b@.len() as int));
        }
        if a@ == b@ {
            assert(a@.subrange(0, b@.len() as int) =~= b@);
        }
    }
    r
}

/// Whether `t` begins with `p`.
pub fn starts_with(t: &[u8], p: &[u8]) -> (r: bool)
    ensures
        r == spec_starts_with(t@, p@),
{
    if p.len() > t.len() {
        return false;
    }
    matches_at(t, p, 0)
}

/// Whether `t` ends with `p`.
pub fn ends_with(t: &[u8], p: &[u8]) -> (r: bool)
    ensures
        r == spec_ends_with(t@, p@),
{
    if p.len() > t.len() {
        return false;
    }
    matches_at(t, p, t.len() - p.len())
}

/// Whether `p` occurs somewhere inside `t`.
pub fn contains(t: &[u8], p: &[u8]) -> (r: bool)
    ensures
        r == spec_contains(t@, p@),
{
    if p.len() > t.len() {
        return false;
    }
    let last = t.len() - p.len();
    let mut k: usize = 0;
    while k < last
        invariant
            last == t@.len() - p@.len(),
            p@.len() <= t@.len(),
            k <= last,
            forall|x: int| 0 <= x < k ==> #[trigger] t@.subrange(x, x + p@.len()) != p@,
        decreases last - k,
    {
        if matches_at(t, p, k) {
            return true;
        }
        k = k + 1;
    }
    matches_at(t, p, last)
}

} // verus!
