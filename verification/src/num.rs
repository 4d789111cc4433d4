//! Decimal text for 64-bit integers.
//!
//! `Int64` values cross the wire as JSON strings of decimal digits, so the
//! codec needs an exact, invertible rendering of `i64` as decimal bytes.

use vstd::prelude::*;

verus! {

/// Decimal digits of a natural number, most significant first, no leading
/// zeros (the number zero is the single digit `0`).
pub open spec fn spec_dec_nat(n: nat) -> Seq<u8>
    decreases n,
{
    if n < 10 {
        seq![(48 + n) as u8]
    } else {
        spec_dec_nat(n / 10) + seq![(48 + n % 10) as u8]
    }
}

/// Decimal rendering of an integer: a minus sign for negative values,
/// then the digits of the magnitude.
pub open spec fn spec_dec_int(n: int) -> Seq<u8> {
    if n >= 0 {
        spec_dec_nat(n as nat)
    } else {
        seq![45u8] + spec_dec_nat((-n) as nat)
    }
}

/// Render an unsigned value in decimal.
pub fn u64_dec(n: u64) -> (r: Vec<u8>)
    ensures
        r@ == spec_dec_nat(n as nat),
    decreases n,
{
    if n < 10 {
        let d: u8 = 48 + (n as u8);
        let mut r: Vec<u8> = Vec::new();
        r.push(d);
        assert(r@ =~= spec_dec_nat(n as nat));
        r
    } else {
        let mut r = u64_dec(n / 10);
        let d: u8 = 48 + ((n % 10) as u8);
        r.push(d);
        assert(r@ =~= spec_dec_nat((n / 10) as nat) + seq![(48 + (n as nat) % 10) as u8]);
        r
    }
}

/// Render a signed value in decimal.
pub fn i64_dec(n: i64) -> (r: Vec<u8>)
    ensures
        r@ == spec_dec_int(n as int),
{
    if n >= 0 {
        u64_dec(n as u64)
    } else {
        let wide: i128 = n as i128;
        let mag: u64 = (-wide) as u64;
        assert(mag as int == -(n as int));
        let mut r: Vec<u8> = Vec::new();
        r.push(45);
        let mut digits = u64_dec(mag);
        r.append(&mut digits);
        assert(r@ =~= spec_dec_int(n as int));
        r
    }
}

/// Whether every byte of `s` is a decimal digit.
pub open spec fn spec_all_digits(s: Seq<u8>) -> bool {
    forall|i: int| 0 <= i < s.len() ==> 48 <= #[trigger] s[i] <= 57
}

/// The value of a string of decimal digits, most significant first.
pub open spec fn spec_digits_val(s: Seq<u8>) -> nat
    decreases s.len(),
{
    if s.len() == 0 {
        0
    } else {
        spec_digits_val(s.drop_last()) * 10 + (s.last() - 48) as nat
    }
}

/// The integer a decimal string denotes, if it is well formed: an optional
/// minus sign, then at least one digit.
pub open spec fn spec_dec_parse(s: Seq<u8>) -> Option<int> {
    if s.len() >= 1 && s[0] == 45 {
        if s.len() >= 2 && spec_all_digits(s.skip(1)) {
            Option::Some(-(spec_digits_val(s.skip(1)) as int))
        } else {
            Option::None
        }
    } else if s.len() >= 1 && spec_all_digits(s) {
        Option::Some(spec_digits_val(s) as int)
    } else {
        Option::None
    }
}

/// Rendering is canonical: parsing it back yields the value.  Proved for
/// the digit part by induction on the number.
pub proof fn lemma_dec_nat_digits(n: nat)
    ensures
        spec_dec_nat(n).len() >= 1,
        spec_all_digits(spec_dec_nat(n)),
        spec_digits_val(spec_dec_nat(n)) == n,
    decreases n,
{
    if n < 10 {
        assert(spec_dec_nat(n) =~= seq![(48 + n) as u8]);
        assert(spec_digits_val(spec_dec_nat(n).drop_last()) == 0);
    } else {
        lemma_dec_nat_digits(n / 10);
        let s = spec_dec_nat(n);
        assert(s == spec_dec_nat(n / 10) + seq![(48 + n % 10) as u8]);
        assert(s.drop_last() =~= spec_dec_nat(n / 10));
        assert(s.last() == (48 + n % 10) as u8);
        assert(spec_digits_val(s) == (n / 10) * 10 + n % 10);
    }
}

/// The decimal rendering of an integer parses back to that integer.
pub proof fn lemma_dec_int_round_trip(n: int)
    requires
        -(0x8000_0000_0000_0000 as int) <= n <= 0x7fff_ffff_ffff_ffff,
    ensures
        spec_dec_parse(spec_dec_int(n)) == Option::Some(n),
{
    if n >= 0 {
        lemma_dec_nat_digits(n as nat);
        let s = spec_dec_int(n);
        assert(s[0] != 45);
    } else {
        lemma_dec_nat_digits((-n) as nat);
        let s = spec_dec_int(n);
        assert(s.skip(1) =~= spec_dec_nat((-n) as nat));
    }
}

/// Parse a decimal string as a signed 64-bit integer.  Returns the parsed
/// value exactly when the string is well formed and the value fits.
pub fn i64_parse(s: &[u8]) -> (r: Option<i64>)
    ensures
        match r {
            Option::Some(v) => spec_dec_parse(s@) == Option::Some(v as int),
            Option::None => match spec_dec_parse(s@) {
                Option::Some(v) => v < -(0x8000_0000_0000_0000 as int) || v
                    > 0x7fff_ffff_ffff_ffff,
                Option::None => true,
            },
        },
{
    let neg: bool = s.len() >= 1 && s[0] == 45;
    let start: usize = if neg { 1 } else { 0 };
    if s.len() == start {
        return Option::None;
    }
    let ghost digits = s@.skip(start as int);
    proof {
        if !neg {
            assert(s@.skip(0) =~= s@);
        }
    }
    let mut acc: u64 = 0;
    let mut i: usize = start;
    while i < s.len()
        invariant
            start <= i <= s@.len(),
            start <= 1,
            s@.len() > start,
            neg == (s@.len() >= 1 && s@[0] == 45),
            start == (if neg { 1int } else { 0int }),
            digits == s@.skip(start as int),
            !neg ==> digits == s@,
            spec_all_digits(digits.take(i - start)),
            acc as nat == spec_digits_val(digits.take(i - start)),
            acc <= 0xffff_ffff_ffff_ffff,
        decreases s@.len() - i,
    {
        let b = s[i];
        if b < 48 || b > 57 {
            proof {
                assert(digits[i - start] == s@[i as int]);
                assert(digits[i - start] == b);
                assert(!spec_all_digits(digits));
                if neg {
                    assert(s@.skip(1) == digits);
                    assert(spec_dec_parse(s@) is None);
                } else {
                    assert(spec_dec_parse(s@) is None);
                }
            }
            return Option::None;
        }
        if acc > 1844674407370955161 || (acc == 1844674407370955161 && b > 53) {
            proof {
                lemma_digits_val_prefix_le(digits, i - start + 1);
                assert(digits.take(i - start + 1).drop_last() =~= digits.take(i - start));
                assert(digits.take(i - start + 1).last() == digits[i - start]);
                assert(digits[i - start] == s@[i as int]);
                assert(spec_digits_val(digits.take(i - start + 1)) == acc * 10 + (b - 48) as nat);
                assert(spec_digits_val(digits) > 0xffff_ffff_ffff_ffff);
                if neg {
                    assert(s@.skip(1) == digits);
                } else {
                    assert(s@ == digits);
                }
            }
            return Option::None;
        }
        acc = acc * 10 + ((b - 48) as u64);
        proof {
            assert(digits.take(i - start + 1).drop_last() =~= digits.take(i - start));
            assert(digits[i - start] == s@[i as int]);
            assert(digits.take(i - start + 1).last() == b);
        }
        i = i + 1;
    }
    proof {
        assert(digits.take(i - start) =~= digits);
    }
    if neg {
        assert(spec_dec_parse(s@) == Option::Some(-(spec_digits_val(digits) as int)));
        if acc > 0x8000_0000_0000_0000 {
            return Option::None;
        }
        let wide: i128 = -(acc as i128);
        let out: i64 = wide as i64;
        assert(out as int == -(acc as int));
        Option::Some(out)
    } else {
        assert(spec_dec_parse(s@) == Option::Some(spec_digits_val(digits) as int));
        if acc > 0x7fff_ffff_ffff_ffff {
            return Option::None;
        }
        let out: i64 = acc as i64;
        assert(out as int == acc as int);
        Option::Some(out)
    }
}

/// A digit string's value only grows when digits are appended.
pub proof fn lemma_digits_val_prefix_le(s: Seq<u8>, k: int)
    requires
        0 <= k <= s.len(),
    ensures
        spec_digits_val(s.take(k)) <= spec_digits_val(s),
    decreases s.len() - k,
{
    if k < s.len() {
        lemma_digits_val_prefix_le(s, k + 1);
        assert(s.take(k + 1).drop_last() =~= s.take(k));
        assert(spec_digits_val(s.take(k + 1)) == spec_digits_val(s.take(k)) * 10 + (s.take(k + 1).last()
            - 48) as nat);
    } else {
        assert(s.take(k) =~= s);
    }
}

} // verus!
