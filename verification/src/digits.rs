//! ASCII decimal numbers as they appear on the RESP wire: the value of a
//! digit string, the canonical digit string of a number, and executable
//! conversion in both directions.
use vstd::prelude::*;

verus! {

/// True when `b` is an ASCII decimal digit.
pub open spec fn is_digit(b: u8) -> bool {
    48 <= b <= 57
}

/// True when every byte of `s` is an ASCII decimal digit.
pub open spec fn all_digits(s: Seq<u8>) -> bool {
    forall|i: int| 0 <= i < s.len() ==> is_digit(#[trigger] s[i])
}

/// The numeric value of a digit string (most significant digit first).
/// Leading zeros are permitted and do not change the value.
pub open spec fn dec_value(s: Seq<u8>) -> int
    recommends
        all_digits(s),
    decreases s.len(),
{
    if s.len() == 0 {
        0
    } else {
        dec_value(s.drop_last()) * 10 + (s.last() - 48)
    }
}

/// The canonical decimal digit string of `n`: no leading zeros, at least one
/// digit.
pub open spec fn dec_bytes(n: nat) -> Seq<u8>
    decreases n,
{
    if n < 10 {
        seq![(n + 48) as u8]
    } else {
        dec_bytes(n / 10) + seq![((n % 10) + 48) as u8]
    }
}

/// Appending one digit multiplies the value by ten and adds the digit.
pub proof fn lemma_dec_value_snoc(s: Seq<u8>, d: u8)
    ensures
        dec_value(s + seq![d]) == dec_value(s) * 10 + (d - 48),
{
    let t = s + seq![d];
    assert(t.drop_last() =~= s);
    assert(t.last() == d);
}

/// The canonical digit string of `n` consists of digits and reads back as `n`.
pub proof fn lemma_dec_bytes_value(n: nat)
    ensures
        all_digits(dec_bytes(n)),
        dec_bytes(n).len() >= 1,
        dec_value(dec_bytes(n)) == n,
    decreases n,
{
    if n < 10 {
        let s = dec_bytes(n);
        assert(s.drop_last() =~= Seq::<u8>::empty());
        assert(dec_value(s) == dec_value(s.drop_last()) * 10 + (s.last() - 48));
        assert(dec_value(s.drop_last()) == 0);
    } else {
        lemma_dec_bytes_value(n / 10);
        lemma_dec_value_snoc(dec_bytes(n / 10), ((n % 10) + 48) as u8);
        assert(forall|i: int|
            0 <= i < dec_bytes(n).len() ==> is_digit(#[trigger] dec_bytes(n)[i]));
    }
}

/// Extending a digit string never decreases its value.
pub proof fn lemma_dec_value_prefix_le(s: Seq<u8>, i: int, j: int)
    requires
        all_digits(s),
        0 <= i <= j <= s.len(),
    ensures
        0 <= dec_value(s.subrange(0, i)) <= dec_value(s.subrange(0, j)),
    decreases j - i,
{
    lemma_dec_value_nonneg(s.subrange(0, i));
    if i < j {
        lemma_dec_value_prefix_le(s, i + 1, j);
        let p = s.subrange(0, i);
        let q = s.subrange(0, i + 1);
        assert(q =~= p + seq![s[i]]);
        lemma_dec_value_snoc(p, s[i]);
    }
}

/// The value of a digit string is never negative.
pub proof fn lemma_dec_value_nonneg(s: Seq<u8>)
    requires
        all_digits(s),
    ensures
        dec_value(s) >= 0,
    decreases s.len(),
{
    if s.len() > 0 {
        assert(all_digits(s.drop_last()));
        lemma_dec_value_nonneg(s.drop_last());
    }
}

/// Reads the decimal number held in `buf[start..end]`. Returns `None` when
/// the range is empty, holds a non-digit byte, or encodes a value above
/// `u64::MAX`; otherwise returns the value.
pub fn u64_from_digits(buf: &Vec<u8>, start: usize, end: usize) -> (r: Option<u64>)
    requires
        start <= end <= buf@.len(),
    ensures
        ({
            let s = buf@.subrange(start as int, end as int);
            match r {
                Some(v) => all_digits(s) && s.len() > 0 && dec_value(s) == v,
                None => !(all_digits(s) && s.len() > 0 && dec_value(s) <= u64::MAX),
            }
        }),
{
    let ghost s = buf@.subrange(start as int, end as int);
    if start == end {
        return None;
    }
    let mut val: u64 = 0;
    let mut i: usize = start;
    while i < end
        invariant
            start <= i <= end <= buf@.len(),
            s == buf@.subrange(start as int, end as int),
            all_digits(s.subrange(0, i - start)),
            val == dec_value(s.subrange(0, i - start)),
        decreases end - i,
    {
        let b = buf[i];
        assert(b == s[i - start]);
        if b < 48 || b > 57 {
            assert(!is_digit(s[i - start]));
            return None;
        }
        let d = b - 48;
        proof {
            lemma_dec_value_snoc(s.subrange(0, i - start), b);
            assert(s.subrange(0, i - start + 1) =~= s.subrange(0, i - start) + seq![b]);
        }
        if val > (u64::MAX - d as u64) / 10 {
            // The value so far already overflows once this digit is appended,
            // and appending further digits cannot shrink it.
            proof {
                if all_digits(s) {
                    lemma_dec_value_prefix_le(s, i - start + 1, s.len() as int);
                    assert(s.subrange(0, s.len() as int) =~= s);
                }
            }
            return None;
        }
        val = val * 10 + d as u64;
        i = i + 1;
    }
    proof {
        assert(s.subrange(0, end - start) =~= s);
    }
    Some(val)
}

/// Appends the canonical decimal digit string of `n` to `out`.
pub fn push_decimal(out: &mut Vec<u8>, n: u64)
    ensures
        final(out)@ == old(out)@ + dec_bytes(n as nat),
{
    let mut rev: Vec<u8> = Vec::new();
    let mut cur: u64 = n;
    proof {
        assert(dec_bytes(n as nat) =~= dec_bytes(n as nat) + rev@.reverse());
    }
    while cur > 0
        invariant
            if cur > 0 {
                dec_bytes(n as nat) == dec_bytes(cur as nat) + rev@.reverse()
            } else {
                n > 0 ==> dec_bytes(n as nat) == rev@.reverse()
            },
        decreases cur,
    {
        let d = (cur % 10) as u8 + 48;
        let ghost old_rev = rev@;
        rev.push(d);
        proof {
            assert(rev@.reverse() =~= seq![d] + old_rev.reverse());
            if cur >= 10 {
                assert(dec_bytes(cur as nat) == dec_bytes((cur as nat) / 10) + seq![d]);
                assert(dec_bytes((cur / 10) as nat) + rev@.reverse() =~= dec_bytes(
                    cur as nat,
                ) + old_rev.reverse());
            } else {
                assert(dec_bytes(cur as nat) == seq![d]);
                assert(rev@.reverse() =~= dec_bytes(cur as nat) + old_rev.reverse());
            }
        }
        cur = cur / 10;
    }
    if n == 0 {
        out.push(48);
        proof {
            assert(dec_bytes(0) =~= seq![48u8]);
            assert(final(out)@ =~= old(out)@ + dec_bytes(n as nat));
        }
        return;
    }
    let ghost digits = dec_bytes(n as nat);
    let len = rev.len();
    let mut i: usize = 0;
    while i < len
        invariant
            len == rev@.len(),
            digits == rev@.reverse(),
            i <= len,
            out@ == old(out)@ + digits.subrange(0, i as int),
        decreases len - i,
    {
        out.push(rev[len - 1 - i]);
        proof {
            assert(digits[i as int] == rev@[len - 1 - i]);
            assert(old(out)@ + digits.subrange(0, i + 1) =~= (old(out)@ + digits.subrange(
                0,
                i as int,
            )).push(rev@[len - 1 - i]));
        }
        i = i + 1;
    }
    proof {
        assert(digits.subrange(0, len as int) =~= digits);
    }
}

} // verus!
