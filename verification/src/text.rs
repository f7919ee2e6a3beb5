//! Decimal rendering and scanning over byte sequences.
//!
//! The scene codec, the image encoder and the step logger all speak plain
//! ASCII text; this module gives them one verified notion of what the decimal
//! form of a number is (`dec_spec`) and one verified scanner back.

use vstd::prelude::*;

verus! {

/// The decimal digits of `n`, most significant first, as ASCII bytes.
pub open spec fn dec_spec(n: nat) -> Seq<u8>
    decreases n,
{
    if n < 10 {
        seq![(n + 0x30) as u8]
    } else {
        dec_spec(n / 10).push(((n % 10) + 0x30) as u8)
    }
}

/// ASCII decimal digit.
pub open spec fn is_digit(b: u8) -> bool {
    0x30 <= b <= 0x39
}

/// Numeric value of one ASCII digit.
pub open spec fn digit_val(b: u8) -> nat {
    (b - 0x30) as nat
}

/// Every byte of `s` is an ASCII digit.
pub open spec fn all_digits(s: Seq<u8>) -> bool {
    forall|i: int| 0 <= i < s.len() ==> is_digit(#[trigger] s[i])
}

/// The numeric value of a digit string, most significant digit first.
pub open spec fn digits_val(s: Seq<u8>) -> nat
    decreases s.len(),
{
    if s.len() == 0 {
        0
    } else {
        digits_val(s.drop_last()) * 10 + digit_val(s.last())
    }
}

/// The decimal form of a number is a non-empty, all-digit string.
pub proof fn lemma_dec_spec_shape(n: nat)
    ensures
        dec_spec(n).len() >= 1,
        all_digits(dec_spec(n)),
    decreases n,
{
    if n >= 10 {
        lemma_dec_spec_shape(n / 10);
        assert forall|i: int| 0 <= i < dec_spec(n).len() implies is_digit(#[trigger] dec_spec(
            n,
        )[i]) by {
            if i < dec_spec(n / 10).len() {
                assert(dec_spec(n)[i] == dec_spec(n / 10)[i]);
            }
        }
    }
}

/// Scanning the decimal form of a number yields the number back.
pub proof fn lemma_dec_spec_val(n: nat)
    ensures
        digits_val(dec_spec(n)) == n,
    decreases n,
{
    assert(digits_val(Seq::<u8>::empty()) == 0);
    if n < 10 {
        assert(dec_spec(n).drop_last() =~= Seq::<u8>::empty());
        assert(dec_spec(n).last() == (n + 0x30) as u8);
        assert(digit_val((n + 0x30) as u8) == n);
    } else {
        lemma_dec_spec_val(n / 10);
        assert(dec_spec(n).drop_last() =~= dec_spec(n / 10));
        assert(dec_spec(n).last() == ((n % 10) + 0x30) as u8);
        assert(digit_val(((n % 10) + 0x30) as u8) == n % 10);
        assert(digits_val(dec_spec(n)) == (n / 10) * 10 + n % 10);
    }
}

/// The value of a digit string only grows as digits are appended.
pub proof fn lemma_digits_val_prefix_le(s: Seq<u8>, k: int)
    requires
        0 <= k <= s.len(),
    ensures
        digits_val(s.subrange(0, k)) <= digits_val(s),
    decreases s.len() - k,
{
    if k < s.len() {
        lemma_digits_val_prefix_le(s, k + 1);
        assert(s.subrange(0, k + 1).drop_last() =~= s.subrange(0, k));
        assert(s.subrange(0, k + 1).last() == s[k]);
        assert(digits_val(s.subrange(0, k)) <= digits_val(s.subrange(0, k + 1)));
    } else {
        assert(s.subrange(0, k) =~= s);
    }
}

/// Appends the decimal form of `n` to `out`.
pub fn push_dec(out: &mut Vec<u8>, n: u64)
    ensures
        final(out)@ == old(out)@ + dec_spec(n as nat),
    decreases n,
{
    if n < 10 {
        out.push((n as u8) + 0x30);
        assert(out@ =~= old(out)@ + dec_spec(n as nat));
    } else {
        push_dec(out, n / 10);
        out.push(((n % 10) as u8) + 0x30);
        assert(out@ =~= old(out)@ + dec_spec(n as nat));
    }
}

/// Appends all of `v` to `out`.
pub fn push_bytes(out: &mut Vec<u8>, v: &[u8])
    ensures
        final(out)@ == old(out)@ + v@,
{
    let mut i: usize = 0;
    while i < v.len()
        invariant
            i <= v@.len(),
            out@ == old(out)@ + v@.subrange(0, i as int),
        decreases v@.len() - i,
    {
        out.push(v[i]);
        proof {
            assert(out@ =~= old(out)@ + v@.subrange(0, i as int + 1));
        }
        i = i + 1;
    }
    proof {
        assert(v@.subrange(0, v@.len() as int) =~= v@);
    }
}

/// First index at or after `pos` whose byte is not a digit (or the end).
pub open spec fn digits_end(s: Seq<u8>, pos: int) -> int
    decreases s.len() - pos,
{
    if pos < 0 || pos >= s.len() {
        pos
    } else if is_digit(s[pos]) {
        digits_end(s, pos + 1)
    } else {
        pos
    }
}

pub proof fn lemma_digits_end_shape(s: Seq<u8>, pos: int)
    requires
        0 <= pos <= s.len(),
    ensures
        pos <= digits_end(s, pos) <= s.len(),
        all_digits(s.subrange(pos, digits_end(s, pos))),
        digits_end(s, pos) < s.len() ==> !is_digit(s[digits_end(s, pos)]),
    decreases s.len() - pos,
{
    if pos < s.len() && is_digit(s[pos]) {
        lemma_digits_end_shape(s, pos + 1);
        let e = digits_end(s, pos);
        assert forall|i: int| 0 <= i < e - pos implies is_digit(#[trigger] s.subrange(pos, e)[i]) by {
            if i > 0 {
                assert(s.subrange(pos + 1, e)[i - 1] == s[pos + i]);
            }
        }
    }
}

/// A run of digits bounded by a non-digit (or the end) is exactly what
/// `digits_end` delimits.
pub proof fn lemma_digits_end_of_run(s: Seq<u8>, pos: int, e: int)
    requires
        0 <= pos <= e <= s.len(),
        all_digits(s.subrange(pos, e)),
        e < s.len() ==> !is_digit(s[e]),
    ensures
        digits_end(s, pos) == e,
    decreases e - pos,
{
    if pos < e {
        assert(is_digit(s[pos])) by {
            assert(s.subrange(pos, e)[0] == s[pos]);
        }
        assert(all_digits(s.subrange(pos + 1, e))) by {
            assert forall|i: int| 0 <= i < e - pos - 1 implies is_digit(#[trigger] s.subrange(
                pos + 1,
                e,
            )[i]) by {
                assert(s.subrange(pos, e)[i + 1] == s[pos + 1 + i]);
            }
        }
        lemma_digits_end_of_run(s, pos + 1, e);
    }
}

/// What scanning a decimal number from position `pos` of `s` yields: the
/// value of the digit run starting there and the position just past it, or
/// nothing when no digit is there or the value does not fit in `u64`.
pub open spec fn sp_read_u64(s: Seq<u8>, pos: int) -> Option<(u64, int)> {
    let e = digits_end(s, pos);
    if e == pos {
        None
    } else if digits_val(s.subrange(pos, e)) > u64::MAX {
        None
    } else {
        Some((digits_val(s.subrange(pos, e)) as u64, e))
    }
}

/// Scanning right after the decimal form of `n` was laid down yields `n`.
pub proof fn lemma_read_dec(s: Seq<u8>, pos: int, n: u64)
    requires
        0 <= pos,
        pos + dec_spec(n as nat).len() <= s.len(),
        s.subrange(pos, pos + dec_spec(n as nat).len()) == dec_spec(n as nat),
        pos + dec_spec(n as nat).len() < s.len() ==> !is_digit(
            s[pos + dec_spec(n as nat).len()],
        ),
    ensures
        sp_read_u64(s, pos) == Some((n, pos + dec_spec(n as nat).len())),
{
    let d = dec_spec(n as nat);
    let e = pos + d.len();
    lemma_dec_spec_shape(n as nat);
    lemma_dec_spec_val(n as nat);
    lemma_digits_end_of_run(s, pos, e);
}

/// Scans a decimal `u64` starting at `pos`; returns the value and the
/// position just past the digit run.
pub fn read_u64(s: &[u8], pos: usize) -> (r: Option<(u64, usize)>)
    requires
        pos <= s@.len(),
    ensures
        match r {
            Some((v, e)) => sp_read_u64(s@, pos as int) == Some((v, e as int)) && pos < e <= s@.len(),
            None => sp_read_u64(s@, pos as int) is None,
        },
{
    proof {
        lemma_digits_end_shape(s@, pos as int);
    }
    let ghost ge = digits_end(s@, pos as int);
    let len = s.len();
    if pos >= len || !(0x30 <= s[pos] && s[pos] <= 0x39) {
        return None;
    }
    let mut i: usize = pos;
    let mut acc: u64 = 0;
    while i < len && 0x30 <= s[i] && s[i] <= 0x39
        invariant
            pos <= i <= ge <= len == s@.len(),
            ge == digits_end(s@, pos as int),
            all_digits(s@.subrange(pos as int, ge)),
            ge < s@.len() ==> !is_digit(s@[ge]),
            acc == digits_val(s@.subrange(pos as int, i as int)),
        decreases len - i,
    {
        let d = s[i] - 0x30;
        proof {
            assert(i < ge) by {
                if i >= ge {
                    assert(!is_digit(s@[i as int]));
                }
            }
            assert(s@.subrange(pos as int, i as int + 1).drop_last() =~= s@.subrange(
                pos as int,
                i as int,
            ));
            assert(s@.subrange(pos as int, i as int + 1).last() == s@[i as int]);
            assert(digits_val(s@.subrange(pos as int, i as int + 1)) == acc * 10 + d);
        }
        let wide: u128 = (acc as u128) * 10 + (d as u128);
        if wide > u64::MAX as u128 {
            proof {
                lemma_digits_val_prefix_le(s@.subrange(pos as int, ge), i + 1 - pos);
                assert(s@.subrange(pos as int, ge).subrange(0, i + 1 - pos) =~= s@.subrange(
                    pos as int,
                    i as int + 1,
                ));
            }
            return None;
        }
        acc = wide as u64;
        i = i + 1;
    }
    proof {
        assert(i == ge) by {
            if i < ge {
                assert(is_digit(s@.subrange(pos as int, ge)[i - pos]));
            }
        }
    }
    Some((acc, i))
}

} // verus!
