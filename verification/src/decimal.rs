//! Decimal text for the protocol: parsing of unsigned and signed 64-bit
//! integers exactly as the wire grammar admits them, and formatting of the
//! integers that appear in replies.

use vstd::prelude::*;

verus! {

/// An ASCII decimal digit.
pub open spec fn spec_is_digit(b: u8) -> bool {
    48 <= b && b <= 57
}

/// Every byte of `s` is a decimal digit.
pub open spec fn all_digits(s: Seq<u8>) -> bool {
    forall|i: int| 0 <= i < s.len() ==> spec_is_digit(#[trigger] s[i])
}

/// A non-empty run of decimal digits.
pub open spec fn is_digits(s: Seq<u8>) -> bool {
    s.len() > 0 && all_digits(s)
}

/// Numeric value of a digit string, most significant digit first.
pub open spec fn dec_val(s: Seq<u8>) -> int
    decreases s.len(),
{
    if s.len() == 0 {
        0
    } else {
        dec_val(s.drop_last()) * 10 + (s.last() - 48)
    }
}

pub proof fn lemma_dec_val_nonneg(s: Seq<u8>)
    requires
        all_digits(s),
    ensures
        dec_val(s) >= 0,
    decreases s.len(),
{
    if s.len() > 0 {
        assert(all_digits(s.drop_last()));
        lemma_dec_val_nonneg(s.drop_last());
    }
}

/// Extending a digit string on the right multiplies its value by ten and
/// adds the new digit.
pub proof fn lemma_dec_val_push(s: Seq<u8>, b: u8)
    ensures
        dec_val(s + seq![b]) == dec_val(s) * 10 + (b - 48),
{
    assert((s + seq![b]).drop_last() =~= s);
    assert((s + seq![b]).last() == b);
}

/// The value of a prefix never exceeds the value of the whole digit string.
pub proof fn lemma_dec_val_prefix(s: Seq<u8>, i: int)
    requires
        all_digits(s),
        0 <= i <= s.len(),
    ensures
        dec_val(s.take(i)) <= dec_val(s),
    decreases s.len() - i,
{
    if i < s.len() {
        let t = s.take(i + 1);
        assert(t.drop_last() =~= s.take(i));
        assert(t.last() == s[i]);
        assert(spec_is_digit(s[i]));
        lemma_dec_val_nonneg(s.take(i));
        assert(dec_val(s.take(i)) <= dec_val(s.take(i)) * 10 + (s[i] - 48));
        lemma_dec_val_prefix(s, i + 1);
    } else {
        assert(s.take(i) =~= s);
    }
}

/// Parsing of a digit-only unsigned decimal, as the TTL grammar uses it:
/// a non-empty run of digits whose value fits in 64 bits; anything else is
/// rejected.
pub open spec fn spec_parse_u64(s: Seq<u8>) -> Option<u64> {
    if is_digits(s) && dec_val(s) <= u64::MAX {
        Some(dec_val(s) as u64)
    } else {
        None
    }
}

pub fn parse_u64(s: &[u8]) -> (r: Option<u64>)
    ensures
        r == spec_parse_u64(s@),
{
    if s.len() == 0 {
        return None;
    }
    let n = s.len();
    let mut acc: u64 = 0;
    let mut i: usize = 0;
    while i < n
        invariant
            n == s@.len(),
            0 < n,
            i <= n,
            all_digits(s@.take(i as int)),
            acc == dec_val(s@.take(i as int)),
        decreases n - i,
    {
        let b = s[i];
        if b < 48 || b > 57 {
            assert(!spec_is_digit(s@[i as int]));
            assert(!all_digits(s@));
            return None;
        }
        let d: u64 = (b - 48) as u64;
        proof {
            assert(s@.take(i + 1).drop_last() =~= s@.take(i as int));
            assert(s@.take(i + 1).last() == s@[i as int]);
        }
        let next = match acc.checked_mul(10) {
            Some(m) => m.checked_add(d),
            None => None,
        };
        match next {
            Some(v) => {
                acc = v;
            }
            None => {
                proof {
                    assert(dec_val(s@.take(i + 1)) > u64::MAX);
                    if all_digits(s@) {
                        lemma_dec_val_prefix(s@, i + 1);
                    }
                }
                return None;
            }
        }
        i = i + 1;
    }
    proof {
        assert(s@.take(n as int) =~= s@);
    }
    Some(acc)
}

/// Parsing of a signed 64-bit decimal exactly as the value coercion admits
/// it: an optional single `+` or `-` sign, then a non-empty run of digits,
/// with the value in range.
pub open spec fn spec_parse_i64(s: Seq<u8>) -> Option<i64> {
    if s.len() > 0 && s[0] == 43 {
        spec_parse_unsigned_i64(s.skip(1))
    } else if s.len() > 0 && s[0] == 45 {
        if is_digits(s.skip(1)) && dec_val(s.skip(1)) <= 0x8000_0000_0000_0000 {
            Some((-dec_val(s.skip(1))) as i64)
        } else {
            None
        }
    } else {
        spec_parse_unsigned_i64(s)
    }
}

pub open spec fn spec_parse_unsigned_i64(s: Seq<u8>) -> Option<i64> {
    if is_digits(s) && dec_val(s) <= i64::MAX {
        Some(dec_val(s) as i64)
    } else {
        None
    }
}

/// Magnitude parser shared by both signs: accepts digits whose value is at
/// most `limit`.
fn parse_magnitude(s: &[u8], limit: u64) -> (r: Option<u64>)
    ensures
        match r {
            Some(v) => is_digits(s@) && dec_val(s@) == v && v <= limit,
            None => !(is_digits(s@) && dec_val(s@) <= limit),
        },
{
    match parse_u64(s) {
        Some(v) => {
            proof {
                if is_digits(s@) {
                    lemma_dec_val_nonneg(s@);
                }
            }
            if v <= limit {
                Some(v)
            } else {
                None
            }
        }
        None => None,
    }
}

pub fn parse_i64(s: &[u8]) -> (r: Option<i64>)
    ensures
        r == spec_parse_i64(s@),
{
    if s.len() == 0 {
        return None;
    }
    if s[0] == 43 {
        let rest: &[u8] = &s[1..s.len()];
        assert(rest@ =~= s@.skip(1));
        match parse_magnitude(rest, 0x7fff_ffff_ffff_ffff) {
            Some(v) => Some(v as i64),
            None => None,
        }
    } else if s[0] == 45 {
        let rest: &[u8] = &s[1..s.len()];
        assert(rest@ =~= s@.skip(1));
        match parse_magnitude(rest, 0x8000_0000_0000_0000) {
            Some(v) => {
                if v == 0x8000_0000_0000_0000 {
                    Some(i64::MIN)
                } else {
                    Some(-(v as i64))
                }
            }
            None => None,
        }
    } else {
        match parse_magnitude(s, 0x7fff_ffff_ffff_ffff) {
            Some(v) => Some(v as i64),
            None => None,
        }
    }
}

/// Decimal text of a non-negative integer, most significant digit first.
pub open spec fn u_dec(n: nat) -> Seq<u8>
    decreases n,
{
    if n < 10 {
        seq![(48 + n) as u8]
    } else {
        u_dec(n / 10) + seq![(48 + n % 10) as u8]
    }
}

/// Decimal text of a signed integer: a leading minus sign for negatives.
pub open spec fn i_dec(i: int) -> Seq<u8> {
    if i < 0 {
        seq![45u8] + u_dec((-i) as nat)
    } else {
        u_dec(i as nat)
    }
}

pub proof fn lemma_u_dec_digits(n: nat)
    ensures
        is_digits(u_dec(n)),
        dec_val(u_dec(n)) == n,
    decreases n,
{
    if n < 10 {
        assert(u_dec(n) =~= seq![(48 + n) as u8]);
        assert(u_dec(n).drop_last() =~= Seq::<u8>::empty());
        assert(u_dec(n).last() == (48 + n) as u8);
        assert(dec_val(u_dec(n)) == dec_val(Seq::<u8>::empty()) * 10 + ((48 + n) as u8 - 48));
        assert(dec_val(u_dec(n)) == n);
    } else {
        lemma_u_dec_digits(n / 10);
        lemma_dec_val_push(u_dec(n / 10), (48 + n % 10) as u8);
        assert((48 + n % 10) as u8 - 48 == n % 10);
        assert(dec_val(u_dec(n)) == (n / 10) * 10 + n % 10);
        assert((n / 10) * 10 + n % 10 == n) by (nonlinear_arith);
        assert forall|i: int| 0 <= i < u_dec(n).len() implies spec_is_digit(#[trigger] u_dec(n)[i]) by {
            if i < u_dec(n / 10).len() {
                assert(u_dec(n)[i] == u_dec(n / 10)[i]);
            }
        }
    }
}

pub fn fmt_u64(n: u64) -> (r: Vec<u8>)
    ensures
        r@ == u_dec(n as nat),
{
    let mut rev: Vec<u8> = Vec::new();
    let mut m: u64 = n;
    while m >= 10
        invariant
            u_dec(n as nat) == u_dec(m as nat) + rev@.reverse(),
        decreases m,
    {
        let d: u8 = (m % 10) as u8;
        proof {
            assert((rev@.push((48 + d) as u8)).reverse() =~= seq![(48 + d) as u8] + rev@.reverse());
            assert(u_dec(m as nat) == u_dec((m as nat) / 10) + seq![(48 + (m as nat) % 10) as u8]);
            assert(u_dec(m as nat) + rev@.reverse() =~= u_dec((m as nat) / 10) + (seq![
                (48 + (m as nat) % 10) as u8,
            ] + rev@.reverse()));
        }
        rev.push(48 + d);
        m = m / 10;
    }
    let d: u8 = m as u8;
    proof {
        assert((rev@.push((48 + d) as u8)).reverse() =~= seq![(48 + d) as u8] + rev@.reverse());
        assert(u_dec(m as nat) =~= seq![(48 + d) as u8]);
    }
    rev.push(48 + d);
    let ghost full = rev@;
    let mut out: Vec<u8> = Vec::new();
    let len = rev.len();
    let mut k: usize = 0;
    while k < len
        invariant
            len == full.len(),
            rev@ == full,
            k <= len,
            out@.len() == k,
            forall|j: int| 0 <= j < k ==> out@[j] == full[len - 1 - j],
        decreases len - k,
    {
        out.push(rev[len - 1 - k]);
        k = k + 1;
    }
    proof {
        assert(out@ =~= full.reverse());
        assert(full.reverse() =~= u_dec(n as nat));
    }
    out
}

/// Decimal text zero-padded on the left to at least four digits, as the
/// logging line protocol writes a length field.
pub open spec fn dec_pad4(n: nat) -> Seq<u8> {
    if u_dec(n).len() >= 4 {
        u_dec(n)
    } else {
        Seq::new((4 - u_dec(n).len()) as nat, |i: int| 48u8) + u_dec(n)
    }
}

pub fn fmt_u64_pad4(n: u64) -> (r: Vec<u8>)
    ensures
        r@ == dec_pad4(n as nat),
{
    let digits = fmt_u64(n);
    if digits.len() >= 4 {
        digits
    } else {
        let mut out: Vec<u8> = Vec::new();
        let pad = 4 - digits.len();
        let mut i: usize = 0;
        while i < pad
            invariant
                i <= pad,
                out@ =~= Seq::new(i as nat, |j: int| 48u8),
            decreases pad - i,
        {
            proof {
                assert(out@.push(48u8) =~= Seq::new((i + 1) as nat, |j: int| 48u8));
            }
            out.push(48);
            i = i + 1;
        }
        let mut k: usize = 0;
        let dn = digits.len();
        let ghost zs = out@;
        while k < dn
            invariant
                dn == digits@.len(),
                k <= dn,
                out@ =~= zs + digits@.take(k as int),
            decreases dn - k,
        {
            proof {
                assert((zs + digits@.take(k as int)).push(digits@[k as int]) =~= zs
                    + digits@.take(k + 1));
            }
            out.push(digits[k]);
            k = k + 1;
        }
        proof {
            assert(digits@.take(dn as int) =~= digits@);
            assert(out@ =~= dec_pad4(n as nat));
        }
        out
    }
}

/// Reply text of a 64-bit signed integer.
pub fn fmt_i64(i: i64) -> (r: Vec<u8>)
    ensures
        r@ == i_dec(i as int),
{
    if i >= 0 {
        fmt_u64(i as u64)
    } else {
        let mag: u64 = if i == i64::MIN {
            0x8000_0000_0000_0000
        } else {
            (-i) as u64
        };
        let digits = fmt_u64(mag);
        let mut out: Vec<u8> = Vec::new();
        out.push(45);
        let mut k: usize = 0;
        let dn = digits.len();
        while k < dn
            invariant
                dn == digits@.len(),
                k <= dn,
                out@ =~= seq![45u8] + digits@.take(k as int),
            decreases dn - k,
        {
            proof {
                assert((seq![45u8] + digits@.take(k as int)).push(digits@[k as int]) =~= seq![45u8]
                    + digits@.take(k + 1));
            }
            out.push(digits[k]);
            k = k + 1;
        }
        proof {
            assert(digits@.take(dn as int) =~= digits@);
        }
        out
    }
}

} // verus!
