//! Byte-level text helpers shared by the assembler and the engine's
//! output formatting: ASCII classification, trimming, decimal numerals,
//! and the UTF-8 expansion of a single byte-valued character.

use vstd::prelude::*;

verus! {

/// ASCII whitespace: space, tab, line feed, vertical tab, form feed,
/// carriage return.
pub open spec fn is_ws(b: u8) -> bool {
    b == 32 || (9 <= b && b <= 13)
}

/// ASCII decimal digit.
pub open spec fn is_digit(b: u8) -> bool {
    48 <= b && b <= 57
}

/// ASCII letter.
pub open spec fn is_alpha(b: u8) -> bool {
    (65 <= b && b <= 90) || (97 <= b && b <= 122)
}

pub fn byte_is_ws(b: u8) -> (r: bool)
    ensures
        r == is_ws(b),
{
    b == 32 || (9 <= b && b <= 13)
}

pub fn byte_is_digit(b: u8) -> (r: bool)
    ensures
        r == is_digit(b),
{
    48 <= b && b <= 57
}

pub fn byte_is_alpha(b: u8) -> (r: bool)
    ensures
        r == is_alpha(b),
{
    (65 <= b && b <= 90) || (97 <= b && b <= 122)
}

/// Value of a digit string read as a decimal numeral, most significant
/// digit first.
pub open spec fn dec_val(s: Seq<u8>) -> int
    decreases s.len(),
{
    if s.len() == 0 {
        0
    } else {
        dec_val(s.drop_last()) * 10 + (s.last() - 48)
    }
}

/// A non-empty, all-digit string.
pub open spec fn is_dec(s: Seq<u8>) -> bool {
    s.len() > 0 && (forall|i: int| 0 <= i < s.len() ==> is_digit(s[i]))
}

pub proof fn lemma_dec_val_nonneg(s: Seq<u8>)
    requires
        forall|i: int| 0 <= i < s.len() ==> is_digit(s[i]),
    ensures
        dec_val(s) >= 0,
    decreases s.len(),
{
    if s.len() > 0 {
        lemma_dec_val_nonneg(s.drop_last());
    }
}

/// A decimal numeral is no smaller than the numeral formed by any of its
/// prefixes.
proof fn lemma_dec_val_prefix(s: Seq<u8>, i: int)
    requires
        0 <= i <= s.len(),
        forall|k: int| 0 <= k < s.len() ==> is_digit(s[k]),
    ensures
        dec_val(s.take(i)) <= dec_val(s),
    decreases s.len() - i,
{
    if i == s.len() {
        assert(s.take(i) =~= s);
    } else {
        lemma_dec_val_prefix(s.drop_last(), i);
        assert(s.drop_last().take(i) =~= s.take(i));
        lemma_dec_val_nonneg(s.drop_last());
    }
}

/// Parses a decimal byte literal: every byte a digit and the value at
/// most 255.
pub fn parse_u8(s: &[u8]) -> (r: Option<u8>)
    ensures
        (is_dec(s@) && dec_val(s@) <= 255) ==> r == Some(dec_val(s@) as u8),
        !(is_dec(s@) && dec_val(s@) <= 255) ==> r is None,
{
    if s.len() == 0 {
        return None;
    }
    let mut i: usize = 0;
    let mut v: u16 = 0;
    while i < s.len()
        invariant
            0 <= i <= s.len(),
            s.len() > 0,
            forall|k: int| 0 <= k < i ==> is_digit(s@[k]),
            v == dec_val(s@.take(i as int)),
            v <= 255,
        decreases s.len() - i,
    {
        let b = s[i];
        if !byte_is_digit(b) {
            return None;
        }
        let w: u16 = v * 10 + (b - 48) as u16;
        proof {
            assert(s@.take(i + 1).drop_last() =~= s@.take(i as int));
        }
        if w > 255 {
            proof {
                if is_dec(s@) {
                    lemma_dec_val_prefix(s@, i + 1);
                }
            }
            return None;
        }
        v = w;
        i = i + 1;
    }
    proof {
        assert(s@.take(i as int) =~= s@);
    }
    Some(v as u8)
}

/// Parses a decimal numeral into a `usize`: every byte a digit and the
/// value representable.
pub fn parse_usize(s: &[u8]) -> (r: Option<usize>)
    ensures
        (is_dec(s@) && dec_val(s@) <= usize::MAX) ==> r == Some(dec_val(s@) as usize),
        !(is_dec(s@) && dec_val(s@) <= usize::MAX) ==> r is None,
{
    if s.len() == 0 {
        return None;
    }
    let mut i: usize = 0;
    let mut v: u128 = 0;
    while i < s.len()
        invariant
            0 <= i <= s.len(),
            s.len() > 0,
            forall|k: int| 0 <= k < i ==> is_digit(s@[k]),
            v == dec_val(s@.take(i as int)),
            v <= usize::MAX,
        decreases s.len() - i,
    {
        let b = s[i];
        if !byte_is_digit(b) {
            return None;
        }
        let w: u128 = v * 10 + (b - 48) as u128;
        proof {
            assert(s@.take(i + 1).drop_last() =~= s@.take(i as int));
        }
        if w > usize::MAX as u128 {
            proof {
                if is_dec(s@) {
                    lemma_dec_val_prefix(s@, i + 1);
                }
            }
            return None;
        }
        v = w;
        i = i + 1;
    }
    proof {
        assert(s@.take(i as int) =~= s@);
    }
    Some(v as usize)
}

/// Decimal numeral of a number, most significant digit first, without
/// leading zeros (a lone zero for 0).
pub open spec fn dec_of(n: nat) -> Seq<u8>
    decreases n,
{
    if n < 10 {
        seq![(48 + n) as u8]
    } else {
        dec_of(n / 10).push((48 + n % 10) as u8)
    }
}

/// The decimal numeral of `n` reads back as `n`.
pub proof fn lemma_dec_of_val(n: nat)
    ensures
        is_dec(dec_of(n)),
        dec_val(dec_of(n)) == n,
    decreases n,
{
    reveal_with_fuel(dec_val, 2);
    if n < 10 {
        assert(dec_of(n).drop_last() =~= Seq::<u8>::empty());
        assert(dec_val(dec_of(n)) == dec_val(Seq::<u8>::empty()) * 10 + ((48 + n) as u8 - 48));
    } else {
        lemma_dec_of_val(n / 10);
        assert(dec_of(n).drop_last() =~= dec_of(n / 10));
        assert(dec_of(n).last() == (48 + n % 10) as u8);
        assert(dec_val(dec_of(n)) == dec_val(dec_of(n / 10)) * 10 + (n % 10));
        assert(forall|i: int|
            0 <= i < dec_of(n).len() ==> is_digit(#[trigger] dec_of(n)[i])) by {
            assert(forall|i: int|
                0 <= i < dec_of(n / 10).len() ==> is_digit(#[trigger] dec_of(n / 10)[i]));
        }
    }
}

/// Formats a byte as its decimal numeral.
pub fn u8_to_dec(v: u8) -> (r: Vec<u8>)
    ensures
        r@ == dec_of(v as nat),
{
    let mut r: Vec<u8> = Vec::new();
    if v < 10 {
        r.push(48 + v);
        proof {
            reveal_with_fuel(dec_of, 2);
            assert(r@ =~= dec_of(v as nat));
        }
    } else if v < 100 {
        r.push(48 + v / 10);
        r.push(48 + v % 10);
        proof {
            reveal_with_fuel(dec_of, 2);
            assert(r@ =~= dec_of(v as nat));
        }
    } else {
        let t = v / 10;
        r.push(48 + t / 10);
        r.push(48 + t % 10);
        r.push(48 + v % 10);
        proof {
            reveal_with_fuel(dec_of, 3);
            assert(r@ =~= dec_of(v as nat));
        }
    }
    r
}

/// Leading whitespace removed.
pub open spec fn trim_front(s: Seq<u8>) -> Seq<u8>
    decreases s.len(),
{
    if s.len() > 0 && is_ws(s.first()) {
        trim_front(s.drop_first())
    } else {
        s
    }
}

/// Trailing whitespace removed.
pub open spec fn trim_back(s: Seq<u8>) -> Seq<u8>
    decreases s.len(),
{
    if s.len() > 0 && is_ws(s.last()) {
        trim_back(s.drop_last())
    } else {
        s
    }
}

/// Both leading and trailing whitespace removed.
pub open spec fn trim_of(s: Seq<u8>) -> Seq<u8> {
    trim_back(trim_front(s))
}

/// Trimming the front never lengthens a string.
pub proof fn lemma_trim_front_le(s: Seq<u8>)
    ensures
        trim_front(s).len() <= s.len(),
    decreases s.len(),
{
    if s.len() > 0 && is_ws(s.first()) {
        lemma_trim_front_le(s.drop_first());
    }
}

pub proof fn lemma_trim_front_idx(s: Seq<u8>, lo: int)
    requires
        0 <= lo <= s.len(),
        forall|k: int| 0 <= k < lo ==> is_ws(s[k]),
        lo == s.len() || !is_ws(s[lo]),
    ensures
        trim_front(s) == s.skip(lo),
    decreases lo,
{
    if lo == 0 {
        assert(s.skip(0) =~= s);
    } else {
        lemma_trim_front_idx(s.drop_first(), lo - 1);
        assert(s.drop_first().skip(lo - 1) =~= s.skip(lo));
    }
}

proof fn lemma_trim_back_idx(s: Seq<u8>, hi: int)
    requires
        0 <= hi <= s.len(),
        forall|k: int| hi <= k < s.len() ==> is_ws(s[k]),
        hi == 0 || !is_ws(s[hi - 1]),
    ensures
        trim_back(s) == s.take(hi),
    decreases s.len() - hi,
{
    if hi == s.len() {
        assert(s.take(hi) =~= s);
    } else {
        lemma_trim_back_idx(s.drop_last(), hi);
        assert(s.drop_last().take(hi) =~= s.take(hi));
    }
}

/// Copies the bytes of `s` in positions `i..j` into a fresh vector.
pub fn subrange_vec(s: &[u8], i: usize, j: usize) -> (r: Vec<u8>)
    requires
        i <= j <= s@.len(),
    ensures
        r@ == s@.subrange(i as int, j as int),
{
    let mut r: Vec<u8> = Vec::new();
    let mut k: usize = i;
    while k < j
        invariant
            i <= k <= j <= s@.len(),
            r@ == s@.subrange(i as int, k as int),
        decreases j - k,
    {
        r.push(s[k]);
        proof {
            assert(r@ =~= s@.subrange(i as int, k + 1));
        }
        k = k + 1;
    }
    r
}

/// Removes leading and trailing ASCII whitespace.
pub fn trim_bytes(s: &[u8]) -> (r: Vec<u8>)
    ensures
        r@ == trim_of(s@),
{
    let mut lo: usize = 0;
    while lo < s.len() && byte_is_ws(s[lo])
        invariant
            0 <= lo <= s@.len(),
            forall|k: int| 0 <= k < lo ==> is_ws(s@[k]),
        decreases s@.len() - lo,
    {
        lo = lo + 1;
    }
    let mut hi: usize = s.len();
    while hi > lo && byte_is_ws(s[hi - 1])
        invariant
            lo <= hi <= s@.len(),
            forall|k: int| 0 <= k < lo ==> is_ws(s@[k]),
            forall|k: int| hi <= k < s@.len() ==> is_ws(s@[k]),
        decreases hi,
    {
        hi = hi - 1;
    }
    proof {
        lemma_trim_front_idx(s@, lo as int);
        lemma_trim_back_idx(s@.skip(lo as int), hi - lo);
        assert(s@.skip(lo as int).take(hi - lo) =~= s@.subrange(lo as int, hi as int));
    }
    subrange_vec(s, lo, hi)
}

/// Byte-wise equality of two slices.
pub fn bytes_eq(a: &[u8], b: &[u8]) -> (r: bool)
    ensures
        r == (a@ == b@),
{
    if a.len() != b.len() {
        return false;
    }
    let mut i: usize = 0;
    while i < a.len()
        invariant
            0 <= i <= a@.len(),
            a@.len() == b@.len(),
            forall|k: int| 0 <= k < i ==> a@[k] == b@[k],
        decreases a@.len() - i,
    {
        if a[i] != b[i] {
            return false;
        }
        i = i + 1;
    }
    proof {
        assert(a@ =~= b@);
    }
    true
}

/// UTF-8 encoding of the character whose code point is the byte `b`:
/// one byte below 128, two bytes above.
pub open spec fn utf8_of(b: u8) -> Seq<u8> {
    if b < 128 {
        seq![b]
    } else {
        seq![(192 + b / 64) as u8, (128 + b % 64) as u8]
    }
}

/// Encodes the character whose code point is `b` as UTF-8 bytes.
pub fn byte_utf8(b: u8) -> (r: Vec<u8>)
    ensures
        r@ == utf8_of(b),
{
    let mut r: Vec<u8> = Vec::new();
    if b < 128 {
        r.push(b);
        proof {
            assert(r@ =~= utf8_of(b));
        }
    } else {
        r.push(192 + b / 64);
        r.push(128 + b % 64);
        proof {
            assert(r@ =~= utf8_of(b));
        }
    }
    r
}

} // verus!
