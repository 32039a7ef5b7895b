//! The canonicalizer: one deterministic text rendering per value.
//!
//! Every value hashes through its canonical string: an explicit sign, one
//! digit before the decimal point, the remaining significant digits after
//! it, and an exponent with an explicit sign whose digits are omitted when
//! the exponent is zero (`+1.073526e-1`, `+1.e+`, `+4.5036e+15`). Floats
//! are first rounded to the configured number of significant digits, half
//! away from zero; integers are rendered exactly; text passes through
//! unchanged; a missing or not-a-number float renders as `+nan` while a
//! missing text value renders as the empty string.

use vstd::prelude::*;

use crate::digits::{
    all_digits, copy_prefix, digit_char, digit_char_exec, digit_chars, digits_of_nat,
    digits_of_u64, inc_digits_prefix, lemma_digits_len_bound,
    lemma_digits_of_nat_props, lemma_inc_digits_props, lemma_strip_props, nat_chars, pow10,
    push_nat_chars, round_digits, strip_trailing_zeros, strip_zeros_exec,
};

verus! {

/// A finite decimal number `±d0.d1d2... × 10^exponent`.
///
/// This is how a float enters the pipeline: already reduced, by the
/// numeric front end, to the decimal digits of its shortest representation
/// and a power-of-ten exponent. All canonicalization logic on it is exact
/// digit arithmetic.
pub struct Decimal {
    /// Sign of the value.
    pub negative: bool,
    /// Decimal digits, most significant first, each `0..=9`.
    pub digits: Vec<u8>,
    /// Power of ten of the leading digit.
    pub exponent: i32,
}

/// A well-formed digit-sequence-and-exponent pair: at least one digit, all
/// decimal, no redundant leading or trailing zero on a multi-digit
/// sequence, and an exponent far inside `i32` so that a carry can bump it.
pub open spec fn decimal_wf(ds: Seq<u8>, e: int) -> bool {
    &&& 1 <= ds.len()
    &&& ds.len() <= 100_000
    &&& all_digits(ds)
    &&& ds.len() > 1 ==> (ds[0] != 0 && ds.last() != 0)
    &&& -100_000 <= e <= 100_000
}

impl Decimal {
    /// Well-formedness of the carried digits and exponent.
    pub open spec fn wf(self) -> bool {
        decimal_wf(self.digits@, self.exponent as int)
    }
}

/// One float cell as delivered by the table provider: an explicit missing
/// marker, a not-a-number, or a finite decimal.
pub enum FloatCell {
    /// An explicitly missing value.
    Missing,
    /// A not-a-number value.
    NotANumber,
    /// A finite value.
    Finite(Decimal),
}

impl FloatCell {
    /// A finite cell must carry a well-formed decimal.
    pub open spec fn wf(self) -> bool {
        match self {
            FloatCell::Finite(d) => d.wf(),
            _ => true,
        }
    }
}

/// The sign character of a canonical number.
pub open spec fn sign_char(negative: bool) -> char {
    if negative {
        '-'
    } else {
        '+'
    }
}

/// The canonical exponent rendering: an explicit sign, then the decimal
/// digits of the magnitude, with no digits at all for exponent zero.
pub open spec fn exp_chars(e: int) -> Seq<char> {
    if e >= 0 {
        seq!['+'] + nat_chars(e as nat)
    } else {
        seq!['-'] + nat_chars((-e) as nat)
    }
}

/// Canonical scientific notation of `±d0.d1d2... × 10^e`: sign, leading
/// digit, decimal point, remaining digits, `e`, signed exponent. A single
/// digit renders with a bare trailing point (`+1.e+`).
pub open spec fn canon_sci(negative: bool, ds: Seq<u8>, e: int) -> Seq<char> {
    seq![sign_char(negative), digit_char(ds[0]), '.'] + digit_chars(ds.drop_first()) + seq!['e']
        + exp_chars(e)
}

/// The canonical rendering of a finite decimal after rounding to `n`
/// significant digits: the kept digits are rounded half away from zero, a
/// carry out of the leading digit bumps the exponent, and trailing zeros
/// are dropped.
pub open spec fn canon_finite(negative: bool, ds: Seq<u8>, e: int, n: nat) -> Seq<char> {
    let r = round_digits(ds, n);
    let kept = if ds.len() <= n {
        ds.len() as int
    } else {
        n as int
    };
    canon_sci(negative, strip_trailing_zeros(r), e + r.len() - kept)
}

/// The fixed rendering of a missing or not-a-number float.
pub open spec fn nan_chars() -> Seq<char> {
    seq!['+', 'n', 'a', 'n']
}

/// The canonical rendering of one float cell.
pub open spec fn float_cell_canon(c: FloatCell, n: nat) -> Seq<char> {
    match c {
        FloatCell::Missing => nan_chars(),
        FloatCell::NotANumber => nan_chars(),
        FloatCell::Finite(d) => canon_finite(d.negative, d.digits@, d.exponent as int, n),
    }
}

/// The canonical rendering of an integer of the given sign and magnitude:
/// exact, in the same scientific form, with trailing zeros dropped and the
/// exponent equal to the number of digits minus one.
pub open spec fn canon_int(negative: bool, v: nat) -> Seq<char> {
    let ds = digits_of_nat(v);
    canon_sci(negative, strip_trailing_zeros(ds), ds.len() - 1)
}

/// The canonical rendering of one text cell: the text itself, or the empty
/// string for a missing value.
pub open spec fn text_cell_canon(c: Option<Seq<char>>) -> Seq<char> {
    match c {
        Some(s) => s,
        None => Seq::empty(),
    }
}

/// Null handling is asymmetric, for every configuration: a missing or
/// not-a-number float canonicalizes to the `+nan` sentinel, while a
/// missing text value canonicalizes to the empty string.
pub proof fn lemma_null_handling(n: nat)
    ensures
        float_cell_canon(FloatCell::Missing, n) == nan_chars(),
        float_cell_canon(FloatCell::NotANumber, n) == nan_chars(),
        text_cell_canon(None::<Seq<char>>) == Seq::<char>::empty(),
{
}

/// Render `±d0.d1d2... × 10^e` in canonical scientific notation.
pub fn render_sci(negative: bool, ds: &Vec<u8>, e: i32) -> (r: Vec<char>)
    requires
        1 <= ds@.len(),
        all_digits(ds@),
        -1_000_000 <= e <= 1_000_000,
    ensures
        r@ == canon_sci(negative, ds@, e as int),
{
    let mut r: Vec<char> = Vec::new();
    if negative {
        r.push('-');
    } else {
        r.push('+');
    }
    r.push(digit_char_exec(ds[0]));
    r.push('.');
    let mut i: usize = 1;
    while i < ds.len()
        invariant
            1 <= i <= ds@.len(),
            all_digits(ds@),
            r@ == seq![sign_char(negative), digit_char(ds@[0]), '.'] + digit_chars(
                ds@.subrange(1, i as int),
            ),
        decreases ds@.len() - i,
    {
        r.push(digit_char_exec(ds[i]));
        proof {
            assert(ds@.subrange(1, i + 1) =~= ds@.subrange(1, i as int).push(ds@[i as int]));
            assert(digit_chars(ds@.subrange(1, i + 1)) =~= digit_chars(
                ds@.subrange(1, i as int),
            ).push(digit_char(ds@[i as int])));
        }
        i = i + 1;
    }
    proof {
        assert(ds@.subrange(1, ds@.len() as int) =~= ds@.drop_first());
    }
    r.push('e');
    if e >= 0 {
        r.push('+');
        push_nat_chars(&mut r, e as u32);
    } else {
        r.push('-');
        push_nat_chars(&mut r, (-e) as u32);
    }
    proof {
        assert(r@ =~= canon_sci(negative, ds@, e as int));
    }
    r
}

/// Round a finite decimal to `n` significant digits and render it.
pub fn canonical_finite(d: &Decimal, n: u32) -> (r: Vec<char>)
    requires
        d.wf(),
        1 <= n,
    ensures
        r@ == canon_finite(d.negative, d.digits@, d.exponent as int, n as nat),
{
    let nd = n as usize;
    let ghost ds = d.digits@;
    let (rounded, kept): (Vec<u8>, usize) = if d.digits.len() <= nd {
        (d.digits.clone(), d.digits.len())
    } else if d.digits[nd] >= 5 {
        (inc_digits_prefix(&d.digits, nd), nd)
    } else {
        (copy_prefix(&d.digits, nd), nd)
    };
    proof {
        assert(rounded@ == round_digits(ds, n as nat));
        if ds.len() > n as nat && ds[n as int] >= 5 {
            assert(all_digits(ds.take(n as int)));
            lemma_inc_digits_props(ds.take(n as int));
        }
        assert(all_digits(rounded@));
        assert(kept <= rounded@.len() <= kept + 1);
        assert(1 <= rounded@.len());
    }
    let e2: i32 = d.exponent + (rounded.len() - kept) as i32;
    let stripped = strip_zeros_exec(&rounded);
    proof {
        lemma_strip_props(rounded@);
    }
    render_sci(d.negative, &stripped, e2)
}

/// The canonical rendering of one float cell.
pub fn canonical_float_cell(c: &FloatCell, n: u32) -> (r: Vec<char>)
    requires
        c.wf(),
        1 <= n,
    ensures
        r@ == float_cell_canon(*c, n as nat),
{
    match c {
        FloatCell::Finite(d) => canonical_finite(d, n),
        _ => {
            let mut r: Vec<char> = Vec::new();
            r.push('+');
            r.push('n');
            r.push('a');
            r.push('n');
            proof {
                assert(r@ =~= nan_chars());
            }
            r
        },
    }
}

/// The canonical rendering of an integer given as sign and magnitude.
pub fn canonical_int(negative: bool, magnitude: u64) -> (r: Vec<char>)
    ensures
        r@ == canon_int(negative, magnitude as nat),
{
    let ds = digits_of_u64(magnitude);
    proof {
        lemma_digits_of_nat_props(magnitude as nat);
        assert(magnitude < pow10(20)) by {
            reveal_with_fuel(pow10, 21);
            assert(pow10(20) == 100_000_000_000_000_000_000);
        }
        lemma_digits_len_bound(magnitude as nat, 20);
        lemma_strip_props(ds@);
    }
    let stripped = strip_zeros_exec(&ds);
    render_sci(negative, &stripped, (ds.len() - 1) as i32)
}

/// The characters of a string, in order.
pub fn string_chars(s: &str) -> (r: Vec<char>)
    ensures
        r@ == s@,
{
    let n = s.unicode_len();
    let mut r: Vec<char> = Vec::new();
    let mut i: usize = 0;
    while i < n
        invariant
            i <= n,
            n == s@.len(),
            r@ == s@.take(i as int),
        decreases n - i,
    {
        r.push(s.get_char(i));
        proof {
            assert(s@.take(i + 1) =~= s@.take(i as int).push(s@[i as int]));
        }
        i = i + 1;
    }
    proof {
        assert(s@.take(n as int) =~= s@);
    }
    r
}

/// The canonical rendering of one text cell.
pub fn canonical_text_cell(c: &Option<String>) -> (r: Vec<char>)
    ensures
        r@ == text_cell_canon(match c {
            Some(s) => Some(s@),
            None => None,
        }),
{
    match c {
        Some(s) => string_chars(s.as_str()),
        None => Vec::new(),
    }
}

} // verus!
