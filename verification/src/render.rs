//! Exact decimal rendering of a rational value held as a numerator and
//! denominator pair of `u128` values.
//!
//! Digits are produced by exact multiply-by-ten and truncating division on
//! the numerator and denominator: no floating-point value appears anywhere,
//! so every digit is exact and excess precision is truncated, never rounded.

use vstd::prelude::*;
use vstd::string::StringExecFns;

verus! {

/// The decimal digit character for a value in `0..10`.
pub open spec fn spec_digit_char(d: int) -> char {
    if d == 0 {
        '0'
    } else if d == 1 {
        '1'
    } else if d == 2 {
        '2'
    } else if d == 3 {
        '3'
    } else if d == 4 {
        '4'
    } else if d == 5 {
        '5'
    } else if d == 6 {
        '6'
    } else if d == 7 {
        '7'
    } else if d == 8 {
        '8'
    } else {
        '9'
    }
}

/// The decimal digit string of a natural number, most significant digit
/// first, with no leading zeros except for the value 0 itself.
pub open spec fn spec_digits(n: nat) -> Seq<char>
    decreases n,
{
    if n < 10 {
        seq![spec_digit_char(n as int)]
    } else {
        spec_digits(n / 10) + seq![spec_digit_char((n % 10) as int)]
    }
}

/// The digit string is never empty, and carries no leading zero except
/// for the value 0 itself.
pub proof fn lemma_digits_no_leading_zero(n: nat)
    ensures
        spec_digits(n).len() >= 1,
        n >= 1 ==> spec_digits(n)[0] != '0',
    decreases n,
{
    if n >= 10 {
        lemma_digits_no_leading_zero(n / 10);
    }
}

/// The next fractional digit of the remainder `r` over the denominator `d`:
/// the truncated integer part of ten times `r / d`. Lies in `0..10`
/// whenever `r < d`.
pub open spec fn spec_next_digit(r: nat, d: nat) -> nat {
    (r * 10) / d
}

/// The remainder numerator left over once the next fractional digit of
/// `r` over `d` has been extracted.
pub open spec fn spec_next_rem(r: nat, d: nat) -> nat {
    (r * 10) % d
}

/// The first `k` fractional decimal digits of the exact rational `r / d`,
/// each obtained by multiplying the running remainder by ten and
/// truncating. Meaningful when `0 < d` and `r < d`.
pub open spec fn spec_frac_digits(r: nat, d: nat, k: nat) -> Seq<char>
    decreases k,
{
    if k == 0 {
        Seq::empty()
    } else {
        seq![spec_digit_char(spec_next_digit(r, d) as int)] + spec_frac_digits(
            spec_next_rem(r, d),
            d,
            (k - 1) as nat,
        )
    }
}

/// The remainder numerator that is left after extracting `k` fractional
/// digits of the exact rational `r / d`.
pub open spec fn spec_frac_rem(r: nat, d: nat, k: nat) -> nat
    decreases k,
{
    if k == 0 {
        r
    } else {
        spec_frac_rem(spec_next_rem(r, d), d, (k - 1) as nat)
    }
}

/// Every requested fractional position yields exactly one digit character.
pub proof fn lemma_frac_digits_len(r: nat, d: nat, k: nat)
    ensures
        spec_frac_digits(r, d, k).len() == k,
    decreases k,
{
    if k > 0 {
        lemma_frac_digits_len(spec_next_rem(r, d), d, (k - 1) as nat);
    }
}

/// Extracting one more fractional digit appends exactly one character: the
/// digit of the remainder left after the first `k` digits. The remainder
/// advances by the matching multiply-and-reduce step.
pub proof fn lemma_frac_digits_snoc(r: nat, d: nat, k: nat)
    ensures
        spec_frac_digits(r, d, k + 1) == spec_frac_digits(r, d, k) + seq![
            spec_digit_char(spec_next_digit(spec_frac_rem(r, d, k), d) as int),
        ],
        spec_frac_rem(r, d, k + 1) == spec_next_rem(spec_frac_rem(r, d, k), d),
    decreases k,
{
    if k == 0 {
        reveal_with_fuel(spec_frac_digits, 2);
        reveal_with_fuel(spec_frac_rem, 2);
        assert(spec_frac_digits(r, d, 1) =~= spec_frac_digits(r, d, 0) + seq![
            spec_digit_char(spec_next_digit(r, d) as int),
        ]);
    } else {
        let r2 = spec_next_rem(r, d);
        lemma_frac_digits_snoc(r2, d, (k - 1) as nat);
        assert(spec_frac_digits(r, d, k + 1) =~= spec_frac_digits(r, d, k) + seq![
            spec_digit_char(spec_next_digit(spec_frac_rem(r, d, k), d) as int),
        ]);
    }
}

/// Truncation law for fractional digits: dropping the last digit of a
/// `k`-digit rendering yields the `k - 1`-digit rendering. No rounding
/// ever alters an earlier digit.
pub proof fn lemma_frac_digits_truncate(r: nat, d: nat, k: nat)
    requires
        k >= 1,
    ensures
        spec_frac_digits(r, d, k).drop_last() == spec_frac_digits(r, d, (k - 1) as nat),
{
    lemma_frac_digits_snoc(r, d, (k - 1) as nat);
    lemma_frac_digits_len(r, d, (k - 1) as nat);
    assert(spec_frac_digits(r, d, k).drop_last() =~= spec_frac_digits(r, d, (k - 1) as nat));
}

/// Truncation law for the full rendering: rendering at precision `p` and
/// then dropping the string's final digit yields the rendering at
/// precision `p - 1`. Digits are truncated, never rounded, so no earlier
/// digit ever changes. Stated for `p >= 2`; dropping the single fractional
/// digit of a precision-1 rendering leaves the dangling separator behind,
/// which the precision-0 rendering does not carry.
pub proof fn lemma_render_truncation(n: nat, d: nat, p: nat, sep: char)
    requires
        p >= 2,
    ensures
        spec_render(n, d, p, sep).drop_last() == spec_render(n, d, (p - 1) as nat, sep),
{
    lemma_frac_digits_truncate(n % d, d, p);
    lemma_frac_digits_len(n % d, d, p);
    lemma_frac_digits_len(n % d, d, (p - 1) as nat);
    assert(spec_render(n, d, p, sep).drop_last() =~= spec_render(n, d, (p - 1) as nat, sep));
}

/// A one-character string slice holding the decimal digit for `d`.
fn digit_str(d: u128) -> (s: &'static str)
    requires
        d < 10,
    ensures
        s@ == seq![spec_digit_char(d as int)],
{
    proof {
        reveal_strlit("0");
        reveal_strlit("1");
        reveal_strlit("2");
        reveal_strlit("3");
        reveal_strlit("4");
        reveal_strlit("5");
        reveal_strlit("6");
        reveal_strlit("7");
        reveal_strlit("8");
        reveal_strlit("9");
    }
    let s: &'static str = if d == 0 {
        "0"
    } else if d == 1 {
        "1"
    } else if d == 2 {
        "2"
    } else if d == 3 {
        "3"
    } else if d == 4 {
        "4"
    } else if d == 5 {
        "5"
    } else if d == 6 {
        "6"
    } else if d == 7 {
        "7"
    } else if d == 8 {
        "8"
    } else {
        "9"
    };
    proof {
        assert(s@ =~= seq![spec_digit_char(d as int)]);
    }
    s
}

/// The decimal digit string of `n`, rendered by peeling digits from the
/// most significant end through recursive division by ten.
pub fn u128_digits(n: u128) -> (s: String)
    ensures
        s@ == spec_digits(n as nat),
    decreases n,
{
    if n < 10 {
        String::from_str(digit_str(n))
    } else {
        let mut s = u128_digits(n / 10);
        s.append(digit_str(n % 10));
        s
    }
}

/// The full decimal rendering of the exact rational `n / d` at the given
/// precision: the truncated integer part, then, iff `prec > 0`, the
/// separator character and exactly `prec` truncated fractional digits.
pub open spec fn spec_render(n: nat, d: nat, prec: nat, sep: char) -> Seq<char> {
    spec_digits(n / d) + if prec > 0 {
        seq![sep] + spec_frac_digits(n % d, d, prec)
    } else {
        Seq::empty()
    }
}

/// An exact rational value held as a numerator and denominator pair.
///
/// The denominator is positive, and small enough that multiplying any
/// remainder below it by ten stays within `u128`, which is all the digit
/// extraction loop ever needs.
pub struct FormatRatio {
    numer: u128,
    denom: u128,
}

impl FormatRatio {
    /// The numerator of the exact rational value.
    pub closed spec fn spec_numer(self) -> nat {
        self.numer as nat
    }

    /// The denominator of the exact rational value.
    pub closed spec fn spec_denom(self) -> nat {
        self.denom as nat
    }

    /// The denominator is positive and leaves room for one multiply by ten.
    pub open spec fn wf(self) -> bool {
        0 < self.spec_denom() <= u128::MAX / 10
    }

    /// Creates a ratio from the given numerator and denominator.
    pub fn new(numer: u128, denom: u128) -> (r: FormatRatio)
        requires
            0 < denom <= u128::MAX / 10,
        ensures
            r.wf(),
            r.spec_numer() == numer,
            r.spec_denom() == denom,
    {
        FormatRatio { numer, denom }
    }

    /// Renders the ratio as a decimal string: the truncated integer part,
    /// then, if `precision > 0`, the separator and exactly `precision`
    /// fractional digits, each truncated and never rounded.
    pub fn render(&self, precision: usize, separator: &str) -> (s: String)
        requires
            self.wf(),
            separator@.len() == 1,
        ensures
            s@ == spec_render(
                self.spec_numer(),
                self.spec_denom(),
                precision as nat,
                separator@[0],
            ),
    {
        let mut s = u128_digits(self.numer / self.denom);
        if precision > 0 {
            s.append(separator);
            let ghost r0: nat = (self.numer % self.denom) as nat;
            let ghost d: nat = self.denom as nat;
            let ghost head: Seq<char> = spec_digits((self.spec_numer() / self.spec_denom()) as nat)
                + separator@;
            let mut rem: u128 = self.numer % self.denom;
            let mut i: usize = 0;
            while i < precision
                invariant
                    i <= precision,
                    self.wf(),
                    d == self.spec_denom(),
                    rem < d,
                    rem == spec_frac_rem(r0, d, i as nat),
                    s@ == head + spec_frac_digits(r0, d, i as nat),
                decreases precision - i,
            {
                let digit = (rem * 10) / self.denom;
                proof {
                    assert(rem * 10 < d * 10) by (nonlinear_arith)
                        requires
                            rem < d,
                    ;
                    assert(((rem * 10) as int) / (d as int) < 10) by (nonlinear_arith)
                        requires
                            rem * 10 < d * 10,
                            d > 0,
                    ;
                    lemma_frac_digits_snoc(r0, d, i as nat);
                }
                s.append(digit_str(digit));
                rem = (rem * 10) % self.denom;
                i = i + 1;
            }
            proof {
                assert(seq![separator@[0]] =~= separator@);
                assert(s@ =~= spec_render(
                    self.spec_numer(),
                    self.spec_denom(),
                    precision as nat,
                    separator@[0],
                ));
            }
        } else {
            proof {
                assert(s@ =~= spec_render(
                    self.spec_numer(),
                    self.spec_denom(),
                    precision as nat,
                    separator@[0],
                ));
            }
        }
        s
    }
}

} // verus!
