//! Human-readable formatting of unsigned integer magnitudes with scaled
//! unit prefixes (for example `42.0Mi` or `1.9999G`), rendered to an exact
//! requested precision using only integer arithmetic: digits are truncated,
//! never rounded, and no floating-point value appears anywhere.
//!
//! A [`SizeFormatter`] owns a magnitude together with its configuration: a
//! prefix system ([`PrefixType`], with [`SIPrefixes`] and [`BinaryPrefixes`]
//! provided), a decimal separator, and the largest value the configured
//! base integer type can hold. Formatting selects the prefix tier by
//! repeated integer division, caps the requested precision at three digits
//! per tier, and renders the scaled quotient exactly.

use vstd::prelude::*;
use vstd::arithmetic::logarithm::log;
use vstd::arithmetic::logarithm::lemma_log0;
use vstd::arithmetic::logarithm::lemma_log_s;
use vstd::arithmetic::logarithm::lemma_log_nonnegative;
use vstd::arithmetic::logarithm::lemma_log_is_ordered;
use vstd::arithmetic::logarithm::lemma_log_pow;
use vstd::arithmetic::power::pow;
use vstd::arithmetic::power::lemma_pow0;
use vstd::arithmetic::power::lemma_pow1;
use vstd::arithmetic::power::lemma_pow_adds;
use vstd::arithmetic::power::lemma_pow_increases;
use vstd::arithmetic::power::lemma_pow_positive;
use vstd::arithmetic::power2::pow2;
use vstd::arithmetic::power2::lemma_pow2;
use vstd::arithmetic::power2::lemma_pow2_adds;
use vstd::arithmetic::power2::lemma2_to64;
use vstd::arithmetic::power2::lemma2_to64_rest;
use vstd::arithmetic::div_mod::lemma_div_decreases;
use vstd::arithmetic::div_mod::lemma_div_is_ordered;
use vstd::arithmetic::div_mod::lemma_div_multiples_vanish;
use vstd::arithmetic::div_mod::lemma_div_is_ordered_by_denominator;
use vstd::string::StringExecFns;

mod config;
mod render;

pub use config::BinaryPrefixes;
pub use config::CommaSeparated;
pub use config::DecimalSeparator;
pub use config::PointSeparated;
pub use config::PrefixType;
pub use config::SIPrefixes;
pub use config::spec_binary_labels;
pub use config::spec_si_labels;
pub use render::FormatRatio;
pub use render::spec_digit_char;
pub use render::spec_digits;
pub use render::spec_frac_digits;
pub use render::spec_frac_rem;
pub use render::spec_next_digit;
pub use render::spec_next_rem;
pub use render::spec_render;
pub use render::u128_digits;
pub use render::lemma_digits_no_leading_zero;
pub use render::lemma_frac_digits_len;
pub use render::lemma_frac_digits_snoc;
pub use render::lemma_frac_digits_truncate;
pub use render::lemma_render_truncation;

verus! {

/// The precision to use by default for formatting the numbers.
pub const DEFAULT_PRECISION: usize = 1;

/// The one configuration error: the configured multiplier cannot be
/// represented in the chosen numeric base type, so the tier computation
/// could not be carried out faithfully.
#[derive(Debug, PartialEq, Eq, Structural)]
pub enum SizeFormatError {
    /// The multiplier exceeds the largest value of the base type.
    BaseTypeTooSmall,
}

/// The number of times `num` can be divided by `base` before falling below
/// `base`: the floor of the base-`base` logarithm, 0 for `num < base`.
pub fn int_log(num: u128, base: u128) -> (r: usize)
    requires
        base >= 2,
    ensures
        r as int == log(base as int, num as int),
{
    let mut n = num;
    let mut divisions: usize = 0;
    proof {
        lemma_pow0(2);
    }
    while n >= base
        invariant
            base >= 2,
            log(base as int, num as int) == divisions + log(base as int, n as int),
            pow(2, divisions as nat) * (n as int) <= num as int,
        decreases n,
    {
        proof {
            lemma_log_s(base as int, n as int);
            lemma_pow_adds(2, divisions as nat, 1);
            lemma_pow1(2);
            lemma_pow_positive(2, divisions as nat);
            lemma_pow_bound_128(divisions as nat, n as nat, num as nat);
            lemma_div_decreases(n as int, base as int);
            lemma_div_is_ordered_by_denominator(n as int, 2, base as int);
            assert(pow(2, (divisions + 1) as nat) * ((n / base) as int) <= num as int)
                by (nonlinear_arith)
                requires
                    pow(2, (divisions + 1) as nat) == pow(2, divisions as nat) * 2,
                    pow(2, divisions as nat) * (n as int) <= num as int,
                    pow(2, divisions as nat) >= 0,
                    (n / base) as int <= (n / 2) as int,
                    2 * ((n / 2) as int) <= n as int,
            ;
        }
        n = n / base;
        divisions = divisions + 1;
    }
    proof {
        lemma_log0(base as int, n as int);
    }
    divisions
}

/// When the running product bound still holds and at least one more
/// division is possible, fewer than 128 divisions have happened, so the
/// division counter has room to grow.
proof fn lemma_pow_bound_128(divisions: nat, n: nat, num: nat)
    requires
        n >= 2,
        num <= u128::MAX,
        pow(2, divisions) * (n as int) <= num as int,
    ensures
        divisions < 128,
{
    lemma_pow_positive(2, divisions);
    assert(pow(2, divisions) <= num as int) by (nonlinear_arith)
        requires
            pow(2, divisions) * (n as int) <= num as int,
            n >= 2,
            pow(2, divisions) > 0,
    ;
    if divisions >= 128 {
        lemma_pow2(128);
        lemma_pow2_adds(64, 64);
        lemma2_to64();
        lemma2_to64_rest();
        assert(pow2(128) == 0x100000000000000000000000000000000) by (nonlinear_arith)
            requires
                pow2(128) == pow2(64) * pow2(64),
                pow2(64) == 0x10000000000000000,
        ;
        lemma_pow_increases(2, 128, divisions);
    }
}

/// Every tier of a well-formed prefix system is a small index: the table
/// bound keeps the largest scale below two to the 125th power.
proof fn lemma_max_tier_small(mult: nat, max_tier: nat)
    requires
        mult >= 2,
        pow(mult as int, max_tier) <= u128::MAX / 10,
    ensures
        max_tier < 125,
{
    if max_tier >= 125 {
        lemma_pow_base_ordered(2, mult, max_tier);
        lemma_pow_increases(2, 125, max_tier);
        lemma_pow2(125);
        lemma_pow2_adds(64, 61);
        lemma2_to64();
        lemma2_to64_rest();
        assert(pow2(125) == 0x20000000000000000000000000000000) by (nonlinear_arith)
            requires
                pow2(125) == pow2(64) * pow2(61),
                pow2(64) == 0x10000000000000000,
                pow2(61) == 0x2000000000000000,
        ;
    }
}

/// Raising a larger base to the same exponent gives a larger power.
proof fn lemma_pow_base_ordered(b1: nat, b2: nat, e: nat)
    requires
        1 <= b1 <= b2,
    ensures
        pow(b1 as int, e) <= pow(b2 as int, e),
    decreases e,
{
    if e > 0 {
        lemma_pow_base_ordered(b1, b2, (e - 1) as nat);
        lemma_pow_positive(b1 as int, (e - 1) as nat);
        lemma_pow_positive(b2 as int, (e - 1) as nat);
        lemma_pow_adds(b1 as int, (e - 1) as nat, 1);
        lemma_pow_adds(b2 as int, (e - 1) as nat, 1);
        lemma_pow1(b1 as int);
        lemma_pow1(b2 as int);
        assert(pow(b1 as int, (e - 1) as nat) * (b1 as int) <= pow(b2 as int, (e - 1) as nat) * (
        b2 as int)) by (nonlinear_arith)
            requires
                1 <= b1 <= b2,
                0 < pow(b1 as int, (e - 1) as nat) <= pow(b2 as int, (e - 1) as nat),
        ;
        assert(pow(b1 as int, e) == pow(b1 as int, (e - 1) as nat) * pow(b1 as int, 1));
        assert(pow(b2 as int, e) == pow(b2 as int, (e - 1) as nat) * pow(b2 as int, 1));
    } else {
        lemma_pow0(b1 as int);
        lemma_pow0(b2 as int);
    }
}

/// The prefix tier that applies to a magnitude: the floor of the
/// base-`mult` logarithm of `num`, saturated at `max_tier`.
pub open spec fn spec_tier(num: nat, mult: nat, max_tier: nat) -> nat
    recommends
        mult >= 2,
{
    if log(mult as int, num as int) <= max_tier as int {
        log(mult as int, num as int) as nat
    } else {
        max_tier
    }
}

/// The number of fractional digits actually rendered: the requested
/// precision, capped at three digits per tier.
pub open spec fn spec_effective_precision(prec: nat, tier: nat) -> nat {
    if prec <= 3 * tier {
        prec
    } else {
        3 * tier
    }
}

/// Computes which prefix tier applies: how many times `magnitude` can be
/// divided by `multiplier` before falling below it, capped at `max_tier`.
pub fn select_tier(magnitude: u128, multiplier: u128, max_tier: usize) -> (tier: usize)
    requires
        multiplier >= 2,
    ensures
        tier as nat == spec_tier(magnitude as nat, multiplier as nat, max_tier as nat),
        tier <= max_tier,
{
    proof {
        lemma_log_nonnegative(multiplier as int, magnitude as int);
    }
    let divisions = int_log(magnitude, multiplier);
    if divisions <= max_tier {
        divisions
    } else {
        max_tier
    }
}

/// Raises `base` to `exp` by repeated multiplication.
pub fn pow_u128(base: u128, exp: usize) -> (r: u128)
    requires
        base >= 1,
        pow(base as int, exp as nat) <= u128::MAX,
    ensures
        r as int == pow(base as int, exp as nat),
{
    let mut acc: u128 = 1;
    let mut i: usize = 0;
    proof {
        lemma_pow0(base as int);
    }
    while i < exp
        invariant
            base >= 1,
            i <= exp,
            acc as int == pow(base as int, i as nat),
            pow(base as int, exp as nat) <= u128::MAX,
        decreases exp - i,
    {
        proof {
            lemma_pow_adds(base as int, i as nat, 1);
            lemma_pow1(base as int);
            lemma_pow_increases(base as nat, (i + 1) as nat, exp as nat);
        }
        acc = acc * base;
        i = i + 1;
    }
    acc
}

/// Represents a size that can be formatted: a magnitude owned at
/// construction and never mutated, together with the formatting
/// configuration. One formatter may be formatted repeatedly, with varying
/// precisions, each call producing an independent, deterministic result.
pub struct SizeFormatter {
    num: u128,
    base_max: u128,
    prefix: PrefixType,
    separator: &'static str,
}

impl SizeFormatter {
    /// The magnitude being formatted.
    pub closed spec fn spec_num(self) -> nat {
        self.num as nat
    }

    /// The largest value representable in the configured base type.
    pub closed spec fn spec_base_max(self) -> nat {
        self.base_max as nat
    }

    /// The configured prefix system.
    pub closed spec fn spec_prefix(self) -> PrefixType {
        self.prefix
    }

    /// The configured decimal separator character.
    pub closed spec fn spec_separator(self) -> char {
        self.separator@[0]
    }

    /// Well-formedness: a well-formed prefix system, a one-character
    /// separator, and a magnitude that its base type can represent.
    pub closed spec fn wf(self) -> bool {
        &&& self.prefix.wf()
        &&& self.separator@.len() == 1
        &&& self.spec_num() <= self.spec_base_max()
    }

    /// Creates a new size formatter for the given number.
    ///
    /// `base_max` is the largest value the configured base integer type
    /// can hold; the magnitude must be representable in that type.
    pub fn new(num: u128, base_max: u128, prefix: PrefixType, separator: &'static str) -> (r:
        SizeFormatter)
        requires
            prefix.wf(),
            separator@.len() == 1,
            num <= base_max,
        ensures
            r.wf(),
            r.spec_num() == num,
            r.spec_base_max() == base_max,
            r.spec_prefix() == prefix,
            r.spec_separator() == separator@[0],
    {
        SizeFormatter { num, base_max, prefix, separator }
    }

    /// Creates a new size formatter from a compatible smaller number.
    pub fn from(num: u64, base_max: u128, prefix: PrefixType, separator: &'static str) -> (r:
        SizeFormatter)
        requires
            prefix.wf(),
            separator@.len() == 1,
            num as u128 <= base_max,
        ensures
            r.wf(),
            r.spec_num() == num,
            r.spec_base_max() == base_max,
            r.spec_prefix() == prefix,
            r.spec_separator() == separator@[0],
    {
        SizeFormatter::new(num as u128, base_max, prefix, separator)
    }

    /// The full formatted text for a requested precision: the scaled
    /// magnitude rendered at the effective precision, followed by the unit
    /// label of the selected tier.
    pub open spec fn spec_format(self, prec: nat) -> Seq<char> {
        let mult = self.spec_prefix().spec_multiplier();
        let tier = spec_tier(self.spec_num(), mult, self.spec_prefix().spec_max_tier());
        let d = pow(mult as int, tier) as nat;
        let eff = spec_effective_precision(prec, tier);
        spec_render(self.spec_num(), d, eff, self.spec_separator())
            + self.spec_prefix().spec_labels()[tier as int]
    }

    /// Formats the magnitude, with the requested precision or the default
    /// of 1 when none is given.
    ///
    /// Fails exactly when the multiplier cannot be represented in the
    /// configured base type; every other input has a total, deterministic
    /// rendering, so repeated calls with equal precision yield identical
    /// strings.
    pub fn format(&self, precision: Option<usize>) -> (r: Result<String, SizeFormatError>)
        requires
            self.wf(),
        ensures
            match r {
                Ok(s) => self.spec_prefix().spec_multiplier() <= self.spec_base_max() && s@
                    == self.spec_format(spec_requested_precision(precision)),
                Err(e) => self.spec_prefix().spec_multiplier() > self.spec_base_max() && e
                    == SizeFormatError::BaseTypeTooSmall,
            },
    {
        let mult32 = self.prefix.multiplier();
        let mult = mult32 as u128;
        if mult > self.base_max {
            return Err(SizeFormatError::BaseTypeTooSmall);
        }
        let requested = match precision {
            Some(p) => p,
            None => DEFAULT_PRECISION,
        };
        let max_tier = self.prefix.max_tier();
        let tier = select_tier(self.num, mult, max_tier);
        proof {
            lemma_max_tier_small(self.prefix.spec_multiplier(), self.prefix.spec_max_tier());
            lemma_pow_increases(
                self.prefix.spec_multiplier(),
                tier as nat,
                self.prefix.spec_max_tier(),
            );
            lemma_pow_positive(self.prefix.spec_multiplier() as int, tier as nat);
        }
        let capped = if requested <= 3 * tier {
            requested
        } else {
            3 * tier
        };
        let denom = pow_u128(mult, tier);
        let ratio = FormatRatio::new(self.num, denom);
        let rendered = ratio.render(capped, self.separator);
        let label = self.prefix.label_at(tier);
        let out = rendered.concat(label);
        proof {
            assert(out@ =~= self.spec_format(spec_requested_precision(precision)));
        }
        Ok(out)
    }
}

/// The precision governing a format call: the requested one, or the
/// default of 1 when none was requested.
pub open spec fn spec_requested_precision(precision: Option<usize>) -> nat {
    match precision {
        Some(p) => p as nat,
        None => DEFAULT_PRECISION as nat,
    }
}

/// For every magnitude and requested precision, the formatted text splits
/// into the integer digits, then, iff the effective precision is positive,
/// the separator and exactly `min(requested, 3 * tier)` fractional digits,
/// and finally the selected tier's label.
pub proof fn lemma_fractional_digit_count(f: SizeFormatter, prec: nat)
    requires
        f.wf(),
    ensures
        ({
            let mult = f.spec_prefix().spec_multiplier();
            let tier = spec_tier(f.spec_num(), mult, f.spec_prefix().spec_max_tier());
            let d = pow(mult as int, tier) as nat;
            let eff = spec_effective_precision(prec, tier);
            &&& eff == if prec <= 3 * tier {
                prec
            } else {
                3 * tier
            }
            &&& f.spec_format(prec) == spec_digits(f.spec_num() / d) + (if eff > 0 {
                seq![f.spec_separator()] + spec_frac_digits(f.spec_num() % d, d, eff)
            } else {
                Seq::<char>::empty()
            }) + f.spec_prefix().spec_labels()[tier as int]
            &&& spec_frac_digits(f.spec_num() % d, d, eff).len() == eff
        }),
{
    let mult = f.spec_prefix().spec_multiplier();
    let tier = spec_tier(f.spec_num(), mult, f.spec_prefix().spec_max_tier());
    let d = pow(mult as int, tier) as nat;
    let eff = spec_effective_precision(prec, tier);
    lemma_frac_digits_len(f.spec_num() % d, d, eff);
}

/// Idempotence: the formatted text is a pure function of the immutable
/// formatter and the requested precision, so any two results that meet the
/// formatting contract for the same formatter and precision are identical.
pub proof fn lemma_format_deterministic(f: SizeFormatter, s1: Seq<char>, s2: Seq<char>, prec: nat)
    requires
        s1 == f.spec_format(prec),
        s2 == f.spec_format(prec),
    ensures
        s1 == s2,
{
}

/// Truncation law at the formatter level: for precisions within the
/// tier's cap, the text formatted at precision `p` is the text formatted
/// at precision `p - 1` with exactly one more fractional digit inserted
/// before the label — formatting never rounds, so truncating the last
/// rendered digit recovers the lower-precision rendering. Stated for
/// `p >= 2`: at `p == 1` the lower-precision text also loses the
/// separator, and beyond the cap consecutive precisions render alike.
pub proof fn lemma_format_truncation(f: SizeFormatter, p: nat)
    requires
        f.wf(),
        2 <= p,
        p <= 3 * spec_tier(
            f.spec_num(),
            f.spec_prefix().spec_multiplier(),
            f.spec_prefix().spec_max_tier(),
        ),
    ensures
        ({
            let mult = f.spec_prefix().spec_multiplier();
            let tier = spec_tier(f.spec_num(), mult, f.spec_prefix().spec_max_tier());
            let d = pow(mult as int, tier) as nat;
            let label = f.spec_prefix().spec_labels()[tier as int];
            let digits = spec_render(f.spec_num(), d, p, f.spec_separator());
            &&& f.spec_format(p) == digits + label
            &&& f.spec_format((p - 1) as nat) == digits.drop_last() + label
        }),
{
    let mult = f.spec_prefix().spec_multiplier();
    let tier = spec_tier(f.spec_num(), mult, f.spec_prefix().spec_max_tier());
    let d = pow(mult as int, tier) as nat;
    lemma_render_truncation(f.spec_num(), d, p, f.spec_separator());
}

/// Monotonic tier saturation: once the magnitude reaches the largest
/// tier's scale, the tier stays at `max_tier`, and the integer part of the
/// rendering — the magnitude divided by that largest scale — grows without
/// bound: it reaches any `bound` once the magnitude reaches `bound` times
/// the largest scale.
pub proof fn lemma_tier_saturation(num: nat, mult: nat, max_tier: nat, bound: nat)
    requires
        mult >= 2,
        pow(mult as int, max_tier) <= num as int,
        bound * pow(mult as int, max_tier) <= num as int,
    ensures
        spec_tier(num, mult, max_tier) == max_tier,
        num / (pow(mult as int, max_tier) as nat) >= bound,
{
    lemma_pow_positive(mult as int, max_tier);
    lemma_log_is_ordered(mult as int, pow(mult as int, max_tier), num as int);
    lemma_log_pow(mult as int, max_tier);
    let d = pow(mult as int, max_tier);
    lemma_div_is_ordered(bound * d, num as int, d);
    lemma_div_multiples_vanish(bound as int, d);
}

} // verus!
