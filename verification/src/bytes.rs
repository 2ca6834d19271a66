//! Small verified helpers on byte strings: ASCII case folding, equality,
//! and whitespace trimming.

use vstd::prelude::*;
use vstd::slice::{slice_subrange, slice_to_vec};

verus! {

/// ASCII lower-casing of one byte.
pub open spec fn lower_byte(b: u8) -> u8 {
    if 65 <= b <= 90 {
        (b + 32) as u8
    } else {
        b
    }
}

/// ASCII lower-casing of a byte string.
pub open spec fn spec_lower(s: Seq<u8>) -> Seq<u8> {
    s.map_values(|b: u8| lower_byte(b))
}

/// Lower-casing is idempotent: a lowered string is already lowercase.
pub proof fn lemma_lower_idempotent(s: Seq<u8>)
    ensures
        spec_lower(spec_lower(s)) == spec_lower(s),
{
    assert(spec_lower(spec_lower(s)) =~= spec_lower(s));
}

/// Lower-cases the ASCII letters of a byte string.
pub fn ascii_lower(s: &[u8]) -> (r: Vec<u8>)
    ensures
        r@ == spec_lower(s@),
{
    let mut r: Vec<u8> = Vec::new();
    let mut i: usize = 0;
    while i < s.len()
        invariant
            i <= s@.len(),
            r@ == spec_lower(s@.subrange(0, i as int)),
        decreases s@.len() - i,
    {
        let b = s[i];
        if 65 <= b && b <= 90 {
            r.push(b + 32);
        } else {
            r.push(b);
        }
        proof {
            assert(s@.subrange(0, i + 1).map_values(|b: u8| lower_byte(b)) =~= s@.subrange(
                0,
                i as int,
            ).map_values(|b: u8| lower_byte(b)) + seq![lower_byte(s@[i as int])]);
        }
        i = i + 1;
    }
    proof {
        assert(s@.subrange(0, s@.len() as int) =~= s@);
    }
    r
}

/// Whether two byte strings hold the same bytes.
pub fn bytes_eq(a: &[u8], b: &[u8]) -> (r: bool)
    ensures
        r == (a@ == b@),
{
    if a.len() != b.len() {
        return false;
    }
    let mut i: usize = 0;
    while i < a.len()
        invariant
            a@.len() == b@.len(),
            i <= a@.len(),
            forall|j: int| 0 <= j < i ==> a@[j] == b@[j],
        decreases a@.len() - i,
    {
        if a[i] != b[i] {
            return false;
        }
        i = i + 1;
    }
    proof {
        assert(a@ =~= b@);
    }
    true
}

/// A decimal digit byte.
pub open spec fn is_digit(b: u8) -> bool {
    48 <= b <= 57
}

/// Value of a digit byte.
pub open spec fn dval(b: u8) -> int {
    b - 48
}

/// Whether two digit bytes stand at `i`.
pub open spec fn digits2_ok(s: Seq<u8>, i: int) -> bool {
    is_digit(s[i]) && is_digit(s[i + 1])
}

/// Value of the two digit bytes at `i`.
pub open spec fn two_digits(s: Seq<u8>, i: int) -> int {
    dval(s[i]) * 10 + dval(s[i + 1])
}

/// Reads the two-digit number at `i`, if digits stand there.
pub fn digit2_at(s: &[u8], i: usize) -> (r: Option<u8>)
    requires
        i + 2 <= s@.len(),
    ensures
        match r {
            Some(v) => digits2_ok(s@, i as int) && v == two_digits(s@, i as int),
            None => !digits2_ok(s@, i as int),
        },
{
    let a = s[i];
    let b = s[i + 1];
    if 48 <= a && a <= 57 && 48 <= b && b <= 57 {
        Some((a - 48) * 10 + (b - 48))
    } else {
        None
    }
}

/// ASCII whitespace, as trimmed from a pattern remainder.
pub open spec fn is_ws(b: u8) -> bool {
    b == 32 || b == 9 || b == 10 || b == 13
}

/// The byte string without its trailing whitespace.
pub open spec fn trim_right(s: Seq<u8>) -> Seq<u8>
    decreases s.len(),
{
    if s.len() > 0 && is_ws(s.last()) {
        trim_right(s.drop_last())
    } else {
        s
    }
}

/// The byte string without its leading whitespace.
pub open spec fn trim_left(s: Seq<u8>) -> Seq<u8>
    decreases s.len(),
{
    if s.len() > 0 && is_ws(s.first()) {
        trim_left(s.drop_first())
    } else {
        s
    }
}

/// The byte string without leading and trailing whitespace.
pub open spec fn spec_trim(s: Seq<u8>) -> Seq<u8> {
    trim_left(trim_right(s))
}

/// Runtime check of [`is_ws`].
fn is_ws_byte(b: u8) -> (r: bool)
    ensures
        r == is_ws(b),
{
    b == 32 || b == 9 || b == 10 || b == 13
}

/// A byte string without any whitespace trims to itself.
pub proof fn lemma_trim_of_ws_free(s: Seq<u8>)
    requires
        forall|i: int| 0 <= i < s.len() ==> !is_ws(s[i]),
    ensures
        spec_trim(s) == s,
{
}

/// Copies a byte string without its leading and trailing whitespace.
pub fn trim(s: &[u8]) -> (r: Vec<u8>)
    ensures
        r@ == spec_trim(s@),
{
    let mut hi: usize = s.len();
    proof {
        assert(s@.subrange(0, s@.len() as int) =~= s@);
    }
    while hi > 0 && is_ws_byte(s[hi - 1])
        invariant
            hi <= s@.len(),
            trim_right(s@) == trim_right(s@.subrange(0, hi as int)),
        decreases hi,
    {
        proof {
            assert(s@.subrange(0, hi as int).drop_last() =~= s@.subrange(0, hi - 1));
        }
        hi = hi - 1;
    }
    proof {
        assert(trim_right(s@) == s@.subrange(0, hi as int));
    }
    let mut lo: usize = 0;
    while lo < hi && is_ws_byte(s[lo])
        invariant
            lo <= hi <= s@.len(),
            trim_right(s@) == s@.subrange(0, hi as int),
            spec_trim(s@) == trim_left(s@.subrange(lo as int, hi as int)),
        decreases hi - lo,
    {
        proof {
            assert(s@.subrange(lo as int, hi as int).drop_first() =~= s@.subrange(
                lo + 1,
                hi as int,
            ));
        }
        lo = lo + 1;
    }
    proof {
        assert(spec_trim(s@) == s@.subrange(lo as int, hi as int));
    }
    slice_to_vec(slice_subrange(s, lo, hi))
}

} // verus!
