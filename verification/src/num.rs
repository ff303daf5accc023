//! Decimal integers on the wire.
//!
//! Frame lengths, counts and integer frames are written as decimal words.
//! `spec_parse_i64` says which byte sequences denote an `i64` (an optional
//! sign, then ASCII digits, value in range), `dec_rep` gives the decimal
//! representation of a non-negative number, and the executable functions
//! are proved to follow them exactly.
use vstd::prelude::*;
use vstd::slice::slice_index_get;

verus! {

pub open spec fn is_ascii_digit(b: u8) -> bool {
    48 <= b && b <= 57
}

pub open spec fn all_digits(s: Seq<u8>) -> bool {
    forall|i: int| 0 <= i < s.len() ==> is_ascii_digit(#[trigger] s[i])
}

/// The value of a sequence of ASCII digits, most significant first.
pub open spec fn digits_val(s: Seq<u8>) -> int
    decreases s.len(),
{
    if s.len() <= 0 {
        0
    } else {
        digits_val(s.drop_last()) * 10 + (s.last() - 48)
    }
}

/// Which byte sequences parse as an `i64`: an optional `+` or `-` sign,
/// then at least one ASCII digit, with the signed value in range.
pub open spec fn spec_parse_i64(s: Seq<u8>) -> Option<i64> {
    let neg = s.len() > 0 && s[0] == 45u8;
    let ds = if s.len() > 0 && (s[0] == 43u8 || s[0] == 45u8) {
        s.subrange(1, s.len() as int)
    } else {
        s
    };
    if ds.len() > 0 && all_digits(ds) {
        let v = if neg {
            -digits_val(ds)
        } else {
            digits_val(ds)
        };
        if i64::MIN <= v && v <= i64::MAX {
            Some(v as i64)
        } else {
            None
        }
    } else {
        None
    }
}

pub proof fn lemma_digits_val_nonneg(s: Seq<u8>)
    requires
        all_digits(s),
    ensures
        digits_val(s) >= 0,
    decreases s.len(),
{
    if s.len() > 0 {
        assert(all_digits(s.drop_last())) by {
            assert(forall|i: int|
                0 <= i < s.drop_last().len() ==> #[trigger] s.drop_last()[i] == s[i]);
        }
        lemma_digits_val_nonneg(s.drop_last());
    }
}

/// Extending a digit string to the right never shrinks its value.
pub proof fn lemma_digits_val_prefix(s: Seq<u8>, m: int)
    requires
        all_digits(s),
        0 <= m <= s.len(),
    ensures
        digits_val(s.subrange(0, m)) <= digits_val(s),
    decreases s.len() - m,
{
    if m == s.len() {
        assert(s.subrange(0, m) =~= s);
    } else {
        let a = s.subrange(0, m);
        let b = s.subrange(0, m + 1);
        assert(b.drop_last() =~= a);
        assert(all_digits(a)) by {
            assert(forall|i: int| 0 <= i < a.len() ==> #[trigger] a[i] == s[i]);
        }
        lemma_digits_val_nonneg(a);
        assert(digits_val(b) == digits_val(a) * 10 + (b.last() - 48));
        assert(digits_val(a) * 10 >= digits_val(a)) by (nonlinear_arith)
            requires digits_val(a) >= 0;
        lemma_digits_val_prefix(s, m + 1);
    }
}

/// Parses a byte word as a signed 64-bit decimal integer, exactly as
/// `spec_parse_i64` describes.
pub fn parse_i64_bytes(s: &[u8]) -> (r: Option<i64>)
    ensures
        r == spec_parse_i64(s@),
{
    let n: usize = s.len();
    if n == 0 {
        return None;
    }
    let first: u8 = *slice_index_get(s, 0);
    let signed: bool = first == 43u8 || first == 45u8;
    let neg: bool = first == 45u8;
    let start: usize = if signed { 1 } else { 0 };
    if n == start {
        return None;
    }
    let ghost ds = if signed {
        s@.subrange(1, s@.len() as int)
    } else {
        s@
    };
    let bound: u64 = if neg {
        9223372036854775808u64
    } else {
        9223372036854775807u64
    };
    let mut mag: u64 = 0;
    let mut i: usize = start;
    while i < n
        invariant
            start <= i <= n,
            n == s@.len(),
            n - start >= 1,
            signed == (s@[0] == 43u8 || s@[0] == 45u8),
            neg == (s@[0] == 45u8),
            start == if signed { 1int } else { 0int },
            ds == if signed { s@.subrange(1, s@.len() as int) } else { s@ },
            ds.len() == n - start,
            forall|j: int| 0 <= j < i - start ==> is_ascii_digit(#[trigger] ds[j]),
            mag == digits_val(ds.subrange(0, i - start)),
            mag <= bound,
            bound == if neg { 9223372036854775808u64 } else { 9223372036854775807u64 },
        decreases n - i,
    {
        let b: u8 = *slice_index_get(s, i);
        proof {
            assert(ds[i - start] == s@[i as int]);
        }
        if b < 48 || b > 57 {
            proof {
                assert(!is_ascii_digit(ds[i - start]));
                assert(!all_digits(ds));
            }
            return None;
        }
        let d: u64 = (b - 48) as u64;
        let q: u64 = (bound - d) / 10;
        proof {
            assert((bound - d) as int == 10 * (q as int) + ((bound - d) as int) % 10);
        }
        if mag > q {
            // Appending this digit would push the magnitude past what an
            // i64 can hold, and further digits only grow it.
            proof {
                let k = i - start;
                let pre = ds.subrange(0, k + 1);
                assert(pre.drop_last() =~= ds.subrange(0, k));
                assert(pre.last() == ds[k]);
                assert(digits_val(pre) == mag * 10 + d);
                assert(digits_val(pre) > bound);
                if all_digits(ds) {
                    lemma_digits_val_prefix(ds, k + 1);
                }
            }
            return None;
        }
        let ghost old_mag = mag;
        mag = mag * 10 + d;
        i = i + 1;
        proof {
            let k = i - 1 - start;
            let pre = ds.subrange(0, k + 1);
            assert(pre.drop_last() =~= ds.subrange(0, k));
            assert(pre.last() == ds[k]);
            assert(digits_val(pre) == old_mag * 10 + (ds[k] - 48));
        }
    }
    proof {
        assert(ds.subrange(0, ds.len() as int) =~= ds);
    }
    if neg {
        if mag == 9223372036854775808u64 {
            Some(i64::MIN)
        } else {
            Some(-(mag as i64))
        }
    } else {
        Some(mag as i64)
    }
}

/// The decimal representation of `n`, most significant digit first.
pub open spec fn dec_rep(n: nat) -> Seq<u8>
    decreases n,
{
    if n < 10 {
        seq![(48 + n) as u8]
    } else {
        dec_rep(n / 10).push((48 + n % 10) as u8)
    }
}

/// Appends the decimal representation of `n` to `out`.
pub fn push_dec(n: u64, out: &mut Vec<u8>)
    ensures
        final(out)@ == old(out)@ + dec_rep(n as nat),
    decreases n,
{
    if n >= 10 {
        push_dec(n / 10, out);
        out.push(48u8 + (n % 10) as u8);
        proof {
            assert(final(out)@ =~= old(out)@ + dec_rep(n as nat));
        }
    } else {
        out.push(48u8 + n as u8);
        proof {
            assert(final(out)@ =~= old(out)@ + dec_rep(n as nat));
        }
    }
}

pub proof fn lemma_dec_rep_digits(n: nat)
    ensures
        all_digits(dec_rep(n)),
        dec_rep(n).len() >= 1,
    decreases n,
{
    if n >= 10 {
        lemma_dec_rep_digits(n / 10);
        let s = dec_rep(n);
        assert(s == dec_rep(n / 10).push((48 + n % 10) as u8));
        assert(forall|i: int| 0 <= i < s.len() - 1 ==> #[trigger] s[i] == dec_rep(n / 10)[i]);
        assert(is_ascii_digit(s[s.len() - 1]));
    }
}

pub proof fn lemma_dec_rep_val(n: nat)
    ensures
        digits_val(dec_rep(n)) == n,
    decreases n,
{
    if n < 10 {
        let s = dec_rep(n);
        assert(s == seq![(48 + n) as u8]);
        assert(s.drop_last() =~= Seq::<u8>::empty());
        assert(digits_val(Seq::<u8>::empty()) == 0);
        assert(s.last() == (48 + n) as u8);
        assert(digits_val(s) == digits_val(s.drop_last()) * 10 + (s.last() - 48));
        assert(digits_val(s) == (48 + n) - 48);
    } else {
        lemma_dec_rep_val(n / 10);
        let s = dec_rep(n);
        assert(s.drop_last() =~= dec_rep(n / 10));
        assert(digits_val(s) == digits_val(dec_rep(n / 10)) * 10 + ((48 + n % 10) - 48));
        assert((n / 10) * 10 + n % 10 == n);
    }
}

} // verus!
