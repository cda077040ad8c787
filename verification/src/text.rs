//! Byte-level helpers shared by the request parser and the response
//! serializer: ASCII classification, substring search, whitespace trimming,
//! and decimal rendering.

use vstd::prelude::*;

verus! {

/// ASCII whitespace, the set that surrounds header names and values.
pub open spec fn is_ws(b: u8) -> bool {
    b == 32 || (9 <= b && b <= 13)
}

pub fn ws_byte(b: u8) -> (r: bool)
    ensures
        r == is_ws(b),
{
    b == 32 || (9 <= b && b <= 13)
}

/// ASCII lower-casing of one byte; letters are matched case-insensitively.
pub open spec fn low(b: u8) -> u8 {
    if 65 <= b && b <= 90 {
        (b + 32) as u8
    } else {
        b
    }
}

pub fn low_byte(b: u8) -> (r: u8)
    ensures
        r == low(b),
{
    if 65 <= b && b <= 90 {
        b + 32
    } else {
        b
    }
}

/// Index of the first occurrence of `b` in `s` at or after `i`.
pub open spec fn find_byte_at(s: Seq<u8>, b: u8, i: int) -> Option<int>
    decreases s.len() - i
    when 0 <= i <= s.len()
{
    if i >= s.len() {
        None
    } else if s[i] == b {
        Some(i)
    } else {
        find_byte_at(s, b, i + 1)
    }
}

pub fn find_byte(s: &[u8], b: u8, from: usize) -> (r: Option<usize>)
    requires
        from <= s@.len(),
    ensures
        match r {
            Some(j) => find_byte_at(s@, b, from as int) == Some(j as int) && from <= j < s@.len(),
            None => find_byte_at(s@, b, from as int) is None,
        },
{
    let mut i = from;
    while i < s.len()
        invariant
            from <= i <= s@.len(),
            find_byte_at(s@, b, from as int) == find_byte_at(s@, b, i as int),
        decreases s@.len() - i,
    {
        if s[i] == b {
            return Some(i);
        }
        i = i + 1;
    }
    None
}

/// Index of the first blank-line separator `\r\n\r\n` at or after `i`.
pub open spec fn find_sep_at(s: Seq<u8>, i: int) -> Option<int>
    decreases s.len() - i
    when 0 <= i <= s.len()
{
    if i + 4 > s.len() {
        None
    } else if s[i] == 13 && s[i + 1] == 10 && s[i + 2] == 13 && s[i + 3] == 10 {
        Some(i)
    } else {
        find_sep_at(s, i + 1)
    }
}

pub fn find_sep(s: &[u8]) -> (r: Option<usize>)
    ensures
        match r {
            Some(j) => find_sep_at(s@, 0) == Some(j as int) && j + 4 <= s@.len(),
            None => find_sep_at(s@, 0) is None,
        },
{
    let mut i: usize = 0;
    while i < s.len() && s.len() - i >= 4
        invariant
            0 <= i <= s@.len(),
            find_sep_at(s@, 0) == find_sep_at(s@, i as int),
        decreases s@.len() - i,
    {
        if s[i] == 13 && s[i + 1] == 10 && s[i + 2] == 13 && s[i + 3] == 10 {
            return Some(i);
        }
        i = i + 1;
    }
    None
}

/// Drops one trailing `b` from `s`, if present.
pub open spec fn strip_last(s: Seq<u8>, b: u8) -> Seq<u8> {
    if s.len() > 0 && s.last() == b {
        s.drop_last()
    } else {
        s
    }
}

pub fn strip_last_vec(s: &[u8], b: u8) -> (r: Vec<u8>)
    ensures
        r@ == strip_last(s@, b),
{
    if s.len() > 0 && s[s.len() - 1] == b {
        let r = vstd::slice::slice_to_vec(vstd::slice::slice_subrange(s, 0, s.len() - 1));
        proof {
            assert(s@.subrange(0, s@.len() - 1) =~= s@.drop_last());
        }
        r
    } else {
        vstd::slice::slice_to_vec(s)
    }
}

pub open spec fn trim_start_s(s: Seq<u8>) -> Seq<u8>
    decreases s.len(),
{
    if s.len() > 0 && is_ws(s[0]) {
        trim_start_s(s.drop_first())
    } else {
        s
    }
}

pub open spec fn trim_end_s(s: Seq<u8>) -> Seq<u8>
    decreases s.len(),
{
    if s.len() > 0 && is_ws(s.last()) {
        trim_end_s(s.drop_last())
    } else {
        s
    }
}

/// Both-sided ASCII-whitespace trim, as applied to header names and values.
pub open spec fn trim_s(s: Seq<u8>) -> Seq<u8> {
    trim_end_s(trim_start_s(s))
}

pub fn trim(s: &[u8]) -> (r: Vec<u8>)
    ensures
        r@ == trim_s(s@),
{
    proof {
        assert(s@.skip(0) =~= s@);
    }
    let mut lo: usize = 0;
    while lo < s.len() && ws_byte(s[lo])
        invariant
            0 <= lo <= s@.len(),
            trim_start_s(s@) == trim_start_s(s@.skip(lo as int)),
        decreases s@.len() - lo,
    {
        proof {
            assert(s@.skip(lo as int).drop_first() =~= s@.skip(lo as int + 1));
        }
        lo = lo + 1;
    }
    proof {
        assert(s@.skip(lo as int) =~= s@.subrange(lo as int, s@.len() as int));
    }
    let mut hi: usize = s.len();
    while hi > lo && ws_byte(s[hi - 1])
        invariant
            lo <= hi <= s@.len(),
            trim_end_s(s@.skip(lo as int)) == trim_end_s(s@.subrange(lo as int, hi as int)),
        decreases hi,
    {
        proof {
            assert(s@.subrange(lo as int, hi as int).drop_last() =~= s@.subrange(
                lo as int,
                hi as int - 1,
            ));
        }
        hi = hi - 1;
    }
    vstd::slice::slice_to_vec(vstd::slice::slice_subrange(s, lo, hi))
}

pub fn bytes_eq(a: &[u8], b: &[u8]) -> (r: bool)
    ensures
        r == (a@ == b@),
{
    if a.len() != b.len() {
        return false;
    }
    let mut i: usize = 0;
    while i < a.len()
        invariant
            a@.len() == b@.len(),
            0 <= i <= a@.len(),
            forall|k: int| 0 <= k < i ==> a@[k] == b@[k],
        decreases a@.len() - i,
    {
        if a[i] != b[i] {
            return false;
        }
        i = i + 1;
    }
    proof {
        assert(a@ =~= b@);
    }
    true
}

/// Decimal digits of `n`, most significant first; used for `Content-Length`.
pub open spec fn dec_of(n: nat) -> Seq<u8>
    decreases n,
{
    if n < 10 {
        seq![(48 + n) as u8]
    } else {
        dec_of(n / 10) + seq![(48 + n % 10) as u8]
    }
}

pub fn push_dec(out: &mut Vec<u8>, n: usize)
    ensures
        final(out)@ == old(out)@ + dec_of(n as nat),
    decreases n,
{
    if n < 10 {
        out.push(48 + (n as u8));
        proof {
            assert(out@ =~= old(out)@ + dec_of(n as nat));
        }
    } else {
        push_dec(out, n / 10);
        out.push(48 + ((n % 10) as u8));
        proof {
            assert(out@ =~= old(out)@ + dec_of(n as nat));
        }
    }
}

} // verus!
