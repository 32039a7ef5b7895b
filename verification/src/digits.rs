//! Decimal digit sequences: the ground material of canonical numbers.
//!
//! A finite number is carried through the pipeline as a sign, a sequence of
//! decimal digits `d0 d1 ...` (each `0..=9`), and a power-of-ten exponent,
//! denoting `±d0.d1d2... × 10^exponent`. The spec functions here define
//! digit-level rounding and rendering; the exec functions mirror them.

use vstd::prelude::*;

verus! {

/// The character for a single decimal digit.
pub open spec fn digit_char(d: u8) -> char {
    ((48 + d) as u32) as char
}

/// The digit characters of a whole digit sequence.
pub open spec fn digit_chars(ds: Seq<u8>) -> Seq<char> {
    ds.map_values(|d: u8| digit_char(d))
}

/// The decimal digits of `n`, most significant first; `0` is a lone `0`.
pub open spec fn digits_of_nat(n: nat) -> Seq<u8>
    decreases n,
{
    if n < 10 {
        seq![n as u8]
    } else {
        digits_of_nat(n / 10).push((n % 10) as u8)
    }
}

/// The decimal digit characters of `n`, with nothing at all for zero.
///
/// This is the exponent rendering: an exponent of zero shows no digits
/// after its sign.
pub open spec fn nat_chars(n: nat) -> Seq<char>
    decreases n,
{
    if n == 0 {
        Seq::empty()
    } else {
        nat_chars(n / 10) + seq![digit_char((n % 10) as u8)]
    }
}

/// Add one to a digit sequence, carrying; an all-nines sequence grows by
/// one digit.
pub open spec fn inc_digits(ds: Seq<u8>) -> Seq<u8>
    decreases ds.len(),
{
    if ds.len() == 0 {
        seq![1u8]
    } else if ds.last() == 9 {
        inc_digits(ds.drop_last()).push(0)
    } else {
        ds.update(ds.len() - 1, (ds.last() + 1) as u8)
    }
}

/// Drop trailing zero digits, keeping at least one digit.
pub open spec fn strip_trailing_zeros(ds: Seq<u8>) -> Seq<u8>
    decreases ds.len(),
{
    if ds.len() <= 1 {
        ds
    } else if ds.last() == 0 {
        strip_trailing_zeros(ds.drop_last())
    } else {
        ds
    }
}

/// Every digit of the sequence is a decimal digit.
pub open spec fn all_digits(ds: Seq<u8>) -> bool {
    forall|i: int| 0 <= i < ds.len() ==> ds[i] <= 9
}

/// Round a digit sequence to at most `n` significant digits, half away
/// from zero. A sequence of `n` or fewer digits is unchanged; otherwise
/// the digits past position `n` decide whether the kept prefix is bumped.
pub open spec fn round_digits(ds: Seq<u8>, n: nat) -> Seq<u8> {
    if ds.len() <= n {
        ds
    } else if ds[n as int] >= 5 {
        inc_digits(ds.take(n as int))
    } else {
        ds.take(n as int)
    }
}

/// Adding one keeps every digit decimal and grows the sequence by at most
/// one digit.
pub proof fn lemma_inc_digits_props(ds: Seq<u8>)
    requires
        all_digits(ds),
    ensures
        all_digits(inc_digits(ds)),
        ds.len() <= inc_digits(ds).len() <= ds.len() + 1,
    decreases ds.len(),
{
    if ds.len() == 0 {
    } else if ds.last() == 9 {
        assert(all_digits(ds.drop_last()));
        lemma_inc_digits_props(ds.drop_last());
    } else {
        assert(all_digits(ds.update(ds.len() - 1, (ds.last() + 1) as u8)));
    }
}

/// Stripping trailing zeros keeps at least one digit, keeps every digit
/// decimal, and never grows the sequence.
pub proof fn lemma_strip_props(ds: Seq<u8>)
    requires
        all_digits(ds),
        1 <= ds.len(),
    ensures
        all_digits(strip_trailing_zeros(ds)),
        1 <= strip_trailing_zeros(ds).len() <= ds.len(),
    decreases ds.len(),
{
    if ds.len() <= 1 {
    } else if ds.last() == 0 {
        assert(all_digits(ds.drop_last()));
        lemma_strip_props(ds.drop_last());
    } else {
    }
}

/// The digits of a natural number: at least one of them, all decimal.
pub proof fn lemma_digits_of_nat_props(n: nat)
    ensures
        all_digits(digits_of_nat(n)),
        1 <= digits_of_nat(n).len(),
    decreases n,
{
    if n < 10 {
        assert(digits_of_nat(n) == seq![n as u8]);
        assert(forall|i: int|
            0 <= i < digits_of_nat(n).len() ==> digits_of_nat(n)[i] <= 9);
    } else {
        lemma_digits_of_nat_props(n / 10);
        assert(forall|i: int|
            0 <= i < digits_of_nat(n).len() ==> digits_of_nat(n)[i] <= 9);
    }
}

/// Powers of ten.
pub open spec fn pow10(k: nat) -> nat
    decreases k,
{
    if k == 0 {
        1
    } else {
        10 * pow10((k - 1) as nat)
    }
}

/// A number below `10^k` has at most `k` digits (for `k >= 1`).
pub proof fn lemma_digits_len_bound(n: nat, k: nat)
    requires
        1 <= k,
        n < pow10(k),
    ensures
        digits_of_nat(n).len() <= k,
    decreases n,
{
    if n < 10 {
    } else {
        assert(pow10(k) == 10 * pow10((k - 1) as nat));
        assert(n / 10 < pow10((k - 1) as nat));
        assert(k >= 2) by {
            if k == 1 {
                assert(pow10(1nat) == 10);
            }
        }
        lemma_digits_len_bound(n / 10, (k - 1) as nat);
    }
}

/// The exec character of a decimal digit.
pub fn digit_char_exec(d: u8) -> (c: char)
    requires
        d <= 9,
    ensures
        c == digit_char(d),
{
    (48 + d) as char
}

/// Copy the first `len` bytes into a fresh vector.
pub fn copy_prefix(ds: &Vec<u8>, len: usize) -> (r: Vec<u8>)
    requires
        len <= ds@.len(),
    ensures
        r@ == ds@.take(len as int),
{
    let mut r: Vec<u8> = Vec::new();
    let mut i: usize = 0;
    while i < len
        invariant
            i <= len <= ds@.len(),
            r@ == ds@.take(i as int),
        decreases len - i,
    {
        r.push(ds[i]);
        proof {
            assert(ds@.take(i + 1) =~= ds@.take(i as int).push(ds@[i as int]));
        }
        i = i + 1;
    }
    r
}

/// Add one to the first `len` digits of `ds`, mirroring [`inc_digits`].
pub fn inc_digits_prefix(ds: &Vec<u8>, len: usize) -> (r: Vec<u8>)
    requires
        len <= ds@.len(),
        all_digits(ds@),
    ensures
        r@ == inc_digits(ds@.take(len as int)),
    decreases len,
{
    if len == 0 {
        let mut r: Vec<u8> = Vec::new();
        r.push(1);
        proof {
            assert(ds@.take(0) =~= Seq::<u8>::empty());
            assert(r@ =~= seq![1u8]);
        }
        r
    } else if ds[len - 1] == 9 {
        let mut r = inc_digits_prefix(ds, len - 1);
        r.push(0);
        proof {
            let pre = ds@.take(len as int);
            assert(pre.last() == ds@[len - 1]);
            assert(pre.drop_last() =~= ds@.take(len - 1));
        }
        r
    } else {
        let mut r = copy_prefix(ds, len - 1);
        r.push(ds[len - 1] + 1);
        proof {
            let pre = ds@.take(len as int);
            assert(pre.last() == ds@[len - 1]);
            assert(r@ =~= pre.update(pre.len() - 1, (pre.last() + 1) as u8));
        }
        r
    }
}

/// Copy `ds` without its trailing zeros, mirroring [`strip_trailing_zeros`].
pub fn strip_zeros_exec(ds: &Vec<u8>) -> (r: Vec<u8>)
    requires
        1 <= ds@.len(),
    ensures
        r@ == strip_trailing_zeros(ds@),
{
    let mut len: usize = ds.len();
    proof {
        assert(ds@.take(len as int) =~= ds@);
    }
    while len > 1 && ds[len - 1] == 0
        invariant
            1 <= len <= ds@.len(),
            strip_trailing_zeros(ds@) == strip_trailing_zeros(ds@.take(len as int)),
        decreases len,
    {
        proof {
            let pre = ds@.take(len as int);
            assert(pre.last() == ds@[len - 1]);
            assert(pre.drop_last() =~= ds@.take(len - 1));
        }
        len = len - 1;
    }
    let r = copy_prefix(ds, len);
    proof {
        let pre = ds@.take(len as int);
        if len > 1 {
            assert(pre.last() == ds@[len - 1]);
        }
        assert(strip_trailing_zeros(pre) == pre);
    }
    r
}

/// The decimal digits of a machine integer, mirroring [`digits_of_nat`].
pub fn digits_of_u64(v: u64) -> (r: Vec<u8>)
    ensures
        r@ == digits_of_nat(v as nat),
    decreases v,
{
    if v < 10 {
        let mut r: Vec<u8> = Vec::new();
        r.push(v as u8);
        proof {
            assert(r@ =~= seq![(v as nat) as u8]);
        }
        r
    } else {
        let mut r = digits_of_u64(v / 10);
        r.push((v % 10) as u8);
        proof {
            assert((v / 10) as nat == (v as nat) / 10);
            assert((v % 10) as nat == (v as nat) % 10);
        }
        r
    }
}

/// Append the decimal digit characters of `m`, mirroring [`nat_chars`]:
/// nothing at all is appended for zero.
pub fn push_nat_chars(out: &mut Vec<char>, m: u32)
    ensures
        final(out)@ == old(out)@ + nat_chars(m as nat),
    decreases m,
{
    if m == 0 {
        proof {
            assert(out@ =~= old(out)@ + nat_chars(0));
        }
    } else {
        push_nat_chars(out, m / 10);
        out.push(digit_char_exec((m % 10) as u8));
        proof {
            assert((m / 10) as nat == (m as nat) / 10);
            assert((m % 10) as nat == (m as nat) % 10);
            assert(out@ =~= old(out)@ + nat_chars(m as nat));
        }
    }
}

} // verus!
