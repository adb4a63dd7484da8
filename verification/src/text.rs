//! Byte-string helpers shared by the parser, the interpreter and the error
//! renderer. Recipe files are treated as byte text; all directive keywords
//! are ASCII, so byte-level processing is exact.

use vstd::prelude::*;

verus! {

/// The decimal digit sequence of `n`, most significant digit first.
pub open spec fn dec_digits(n: nat) -> Seq<u8>
    decreases n,
{
    if n < 10 {
        seq![(n + 48) as u8]
    } else {
        dec_digits(n / 10).push((n % 10 + 48) as u8)
    }
}

/// Renders `n` in decimal, most significant digit first.
pub fn u64_to_dec(n: u64) -> (r: Vec<u8>)
    ensures
        r@ == dec_digits(n as nat),
    decreases n,
{
    let d: u8 = (n % 10) as u8 + 48;
    if n < 10 {
        let mut v: Vec<u8> = Vec::new();
        v.push(d);
        proof {
            assert(v@ =~= dec_digits(n as nat));
        }
        v
    } else {
        proof {
            assert(n / 10 < n) by (nonlinear_arith)
                requires
                    n >= 10,
            ;
        }
        let mut v = u64_to_dec(n / 10);
        v.push(d);
        proof {
            assert(v@ =~= dec_digits(n as nat));
        }
        v
    }
}

/// True when the two byte strings hold the same bytes.
pub fn bytes_eq(a: &[u8], b: &[u8]) -> (r: bool)
    ensures
        r == (a@ == b@),
{
    if a.len() != b.len() {
        return false;
    }
    let mut i: usize = 0;
    while i < a.len()
        invariant
            i <= a.len(),
            a@.len() == b@.len(),
            forall|j: int| 0 <= j < i ==> a@[j] == b@[j],
        decreases a.len() - i,
    {
        if a[i] != b[i] {
            return false;
        }
        i += 1;
    }
    proof {
        assert(a@ =~= b@);
    }
    true
}

/// 10 to the power `n`.
pub open spec fn pow10(n: nat) -> int
    decreases n,
{
    if n == 0 {
        1
    } else {
        10 * pow10((n - 1) as nat)
    }
}

pub proof fn lemma_pow10_mono(a: nat, b: nat)
    requires
        a <= b,
    ensures
        pow10(a) <= pow10(b),
        pow10(a) >= 1,
    decreases b,
{
    if b > 0 {
        if a == b {
            lemma_pow10_mono((a - 1) as nat, (b - 1) as nat);
        } else {
            lemma_pow10_mono(a, (b - 1) as nat);
        }
    }
}

/// The value of a sequence of decimal digit bytes, most significant first.
pub open spec fn digits_val(s: Seq<u8>) -> int
    decreases s.len(),
{
    if s.len() == 0 {
        0
    } else {
        digits_val(s.drop_last()) * 10 + (s.last() - 48)
    }
}

/// True when every byte of `s` is a decimal digit.
pub open spec fn all_digits(s: Seq<u8>) -> bool {
    forall|i: int| 0 <= i < s.len() ==> 48 <= #[trigger] s[i] <= 57
}

/// True when `s` is a well-formed decimal integer literal: an optional
/// leading minus sign, then 1 to 19 digits, with a value in the signed
/// 64-bit range.
pub open spec fn is_dec_int(s: Seq<u8>) -> bool {
    if s.len() > 0 && s[0] == 45 {
        1 < s.len() <= 20 && all_digits(s.skip(1)) && digits_val(s.skip(1))
            <= 0x8000_0000_0000_0000
    } else {
        0 < s.len() <= 19 && all_digits(s) && digits_val(s) <= 0x7fff_ffff_ffff_ffff
    }
}

/// The signed value of a well-formed decimal integer literal.
pub open spec fn dec_int_val(s: Seq<u8>) -> int {
    if s.len() > 0 && s[0] == 45 {
        -digits_val(s.skip(1))
    } else {
        digits_val(s)
    }
}

/// Parses a decimal integer literal. Returns its value exactly when the
/// text is a well-formed literal whose value fits a signed 64-bit
/// integer.
pub fn parse_int(s: &[u8]) -> (r: Option<i64>)
    ensures
        match r {
            Some(v) => is_dec_int(s@) && v as int == dec_int_val(s@),
            None => !is_dec_int(s@),
        },
{
    let ghost whole: Seq<u8> = s@;
    let negative: bool = s.len() > 0 && s[0] == 45;
    let start: usize = if negative {
        1
    } else {
        0
    };
    let ghost digits: Seq<u8> = s@.skip(start as int);
    let n: usize = s.len() - start;
    if n == 0 || n > 19 {
        return None;
    }
    let mut acc: u64 = 0;
    let mut i: usize = 0;
    proof {
        assert(digits.subrange(0, 0) =~= Seq::<u8>::empty());
    }
    while i < n
        invariant
            0 <= i <= n,
            n == s@.len() - start,
            start <= 1,
            start == 1 ==> s@.len() > 0 && s@[0] == 45,
            start == 0 ==> !(s@.len() > 0 && s@[0] == 45),
            1 <= n <= 19,
            digits == s@.skip(start as int),
            all_digits(digits.subrange(0, i as int)),
            acc as int == digits_val(digits.subrange(0, i as int)),
            0 <= acc,
            (acc as int) < pow10(i as nat),
        decreases n - i,
    {
        let b: u8 = s[start + i];
        if b < 48 || b > 57 {
            proof {
                assert(digits[i as int] == b);
                assert(!all_digits(digits));
            }
            return None;
        }
        proof {
            lemma_pow10_mono((i + 1) as nat, 19);
            assert(pow10((i + 1) as nat) == 10 * pow10(i as nat));
            assert(pow10(19) == 10000000000000000000) by {
                reveal_with_fuel(pow10, 20);
            }
            assert(digits.subrange(0, (i + 1) as int).drop_last() =~= digits.subrange(
                0,
                i as int,
            ));
            assert(digits.subrange(0, (i + 1) as int).last() == digits[i as int]);
        }
        acc = acc * 10 + ((b - 48) as u64);
        i += 1;
    }
    proof {
        assert(digits.subrange(0, n as int) =~= digits);
        assert(all_digits(digits));
        if !negative {
            assert(digits =~= s@);
        }
    }
    if negative {
        if acc > 0x8000_0000_0000_0000 {
            return None;
        }
        if acc == 0x8000_0000_0000_0000 {
            Some(-0x7fff_ffff_ffff_ffff - 1)
        } else {
            Some(-(acc as i64))
        }
    } else {
        if acc > 0x7fff_ffff_ffff_ffff {
            return None;
        }
        Some(acc as i64)
    }
}

/// A fresh owned copy of a byte string.
pub fn bytes_of(s: &[u8]) -> (r: Vec<u8>)
    ensures
        r@ == s@,
{
    let mut v: Vec<u8> = Vec::new();
    push_all(&mut v, s);
    proof {
        assert(Seq::<u8>::empty() + s@ =~= s@);
    }
    v
}

/// Appends all of `src` to `dst`.
pub fn push_all(dst: &mut Vec<u8>, src: &[u8])
    ensures
        final(dst)@ == old(dst)@ + src@,
{
    let mut i: usize = 0;
    while i < src.len()
        invariant
            i <= src.len(),
            dst@ == old(dst)@ + src@.subrange(0, i as int),
        decreases src.len() - i,
    {
        dst.push(src[i]);
        proof {
            assert(old(dst)@ + src@.subrange(0, i as int) + seq![src@[i as int]] =~= old(
                dst,
            )@ + src@.subrange(0, i + 1));
        }
        i += 1;
    }
    proof {
        assert(src@.subrange(0, src@.len() as int) =~= src@);
    }
}

} // verus!
