//! Customization options for the formatting: the decimal separator placed
//! between integer and fractional digits, and the prefix system supplying
//! the ordered table of unit labels together with the tier multiplier.

use vstd::prelude::*;
use vstd::arithmetic::power::pow;
use vstd::arithmetic::power::lemma_pow_adds;
use vstd::arithmetic::power::lemma_pow0;
use vstd::arithmetic::power::lemma_pow1;
use vstd::arithmetic::power::lemma_pow_increases;
use vstd::arithmetic::power::lemma_pow_positive;

verus! {

/// A trait for marker types that represent decimal separators.
pub trait DecimalSeparator {
    /// The separator character to place between integer and fractional
    /// digits.
    spec fn spec_separator() -> char;

    /// Returns the separator as a one-character string slice.
    fn separator() -> (s: &'static str)
        ensures
            s@ == seq![Self::spec_separator()],
    ;
}

/// Represents a comma separation scheme for numbers (',').
pub struct CommaSeparated {}

impl DecimalSeparator for CommaSeparated {
    open spec fn spec_separator() -> char {
        ','
    }

    fn separator() -> (s: &'static str) {
        proof {
            reveal_strlit(",");
            assert(","@ =~= seq![',']);
        }
        ","
    }
}

/// Represents a point or dot separation scheme for numbers ('.').
pub struct PointSeparated {}

impl DecimalSeparator for PointSeparated {
    open spec fn spec_separator() -> char {
        '.'
    }

    fn separator() -> (s: &'static str) {
        proof {
            reveal_strlit(".");
            assert("."@ =~= seq!['.']);
        }
        "."
    }
}

/// A prefix system: an ordered table of unit labels, one per tier, and the
/// multiplier that separates consecutive tiers (1000 for SI prefixes, 1024
/// for binary prefixes).
///
/// A value of this type is always well formed: the table has at least one
/// label, the multiplier is at least two, and the largest tier's scale
/// stays small enough that digit extraction never overflows `u128`.
pub struct PrefixType {
    labels: Vec<&'static str>,
    multiplier: u32,
}

impl PrefixType {
    /// The label texts of the table, in tier order.
    pub closed spec fn spec_labels(self) -> Seq<Seq<char>> {
        self.labels@.map_values(|s: &'static str| s@)
    }

    /// The tier multiplier.
    pub closed spec fn spec_multiplier(self) -> nat {
        self.multiplier as nat
    }

    /// The largest tier index: one less than the table length.
    pub open spec fn spec_max_tier(self) -> nat {
        (self.spec_labels().len() - 1) as nat
    }

    /// Well-formedness: a nonempty table, a multiplier of at least two,
    /// and a largest scale that leaves room for one multiply by ten.
    pub open spec fn wf(self) -> bool {
        &&& self.spec_labels().len() >= 1
        &&& self.spec_multiplier() >= 2
        &&& pow(self.spec_multiplier() as int, self.spec_max_tier()) <= u128::MAX / 10
    }

    /// Creates a prefix system from a label table and a multiplier,
    /// validating the table: `None` exactly when the table is empty, the
    /// multiplier is below two, or the largest tier's scale would leave no
    /// room for exact digit extraction in `u128`.
    pub fn new(labels: Vec<&'static str>, multiplier: u32) -> (r: Option<PrefixType>)
        ensures
            match r {
                Some(p) => {
                    &&& p.wf()
                    &&& p.spec_labels() == labels@.map_values(|s: &'static str| s@)
                    &&& p.spec_multiplier() == multiplier
                },
                None => !{
                    &&& labels@.len() >= 1
                    &&& multiplier >= 2
                    &&& pow(multiplier as int, (labels@.len() - 1) as nat) <= u128::MAX / 10
                },
            },
    {
        if labels.len() == 0 || multiplier < 2 {
            return None;
        }
        let max_tier = labels.len() - 1;
        if !pow_within(multiplier as u128, max_tier, u128::MAX / 10) {
            return None;
        }
        Some(PrefixType { labels, multiplier })
    }

    /// Returns the tier multiplier.
    pub fn multiplier(&self) -> (m: u32)
        ensures
            m == self.spec_multiplier(),
    {
        self.multiplier
    }

    /// Returns the largest tier index.
    pub fn max_tier(&self) -> (t: usize)
        requires
            self.wf(),
        ensures
            t == self.spec_max_tier(),
    {
        self.labels.len() - 1
    }

    /// Returns the label of the given tier.
    pub fn label_at(&self, tier: usize) -> (s: &str)
        requires
            tier < self.spec_labels().len(),
        ensures
            s@ == self.spec_labels()[tier as int],
    {
        self.labels[tier]
    }
}

/// Decides whether `base` raised to `exp` stays within `limit`, without
/// ever computing a product beyond `limit`.
fn pow_within(base: u128, exp: usize, limit: u128) -> (ok: bool)
    requires
        base >= 1,
        limit >= 1,
    ensures
        ok <==> pow(base as int, exp as nat) <= limit,
{
    let mut acc: u128 = 1;
    let mut i: usize = 0;
    proof {
        lemma_pow0(base as int);
    }
    while i < exp
        invariant
            base >= 1,
            i <= exp,
            acc as int == pow(base as int, i as nat),
            acc <= limit,
        decreases exp - i,
    {
        proof {
            lemma_pow_adds(base as int, i as nat, 1);
            lemma_pow1(base as int);
        }
        if acc > limit / base {
            proof {
                assert(acc * base > limit) by (nonlinear_arith)
                    requires
                        base >= 1,
                        acc > limit / base,
                ;
                lemma_pow_increases(base as nat, (i + 1) as nat, exp as nat);
            }
            return false;
        }
        proof {
            assert(acc * base <= limit) by (nonlinear_arith)
                requires
                    base >= 1,
                    acc <= limit / base,
                ;
        }
        acc = acc * base;
        i = i + 1;
    }
    true
}

/// Represents the prefixes used in the SI system of measurements.
pub struct SIPrefixes {}

/// The SI unit label table, from no prefix up to yotta.
pub open spec fn spec_si_labels() -> Seq<Seq<char>> {
    seq![""@, "k"@, "M"@, "G"@, "T"@, "P"@, "E"@, "Z"@, "Y"@]
}

impl SIPrefixes {
    /// Returns the SI prefix system: multiplier 1000 and the label table
    /// from no prefix up to yotta.
    pub fn prefixes() -> (p: PrefixType)
        ensures
            p.wf(),
            p.spec_multiplier() == 1000,
            p.spec_labels() == spec_si_labels(),
    {
        let mut labels: Vec<&'static str> = Vec::new();
        labels.push("");
        labels.push("k");
        labels.push("M");
        labels.push("G");
        labels.push("T");
        labels.push("P");
        labels.push("E");
        labels.push("Z");
        labels.push("Y");
        let p = PrefixType { labels, multiplier: 1000 };
        proof {
            assert(p.spec_labels() =~~= spec_si_labels());
            lemma_pow_1000_8();
        }
        p
    }
}

/// The eighth power of 1000 stays far below the digit-extraction bound.
proof fn lemma_pow_1000_8()
    ensures
        pow(1000, 8) == 0xd3c21bcecceda1000000,
        pow(1000, 8) <= u128::MAX / 10,
{
    lemma_pow1(1000);
    lemma_pow_adds(1000, 1, 1);
    lemma_pow_adds(1000, 2, 2);
    lemma_pow_adds(1000, 4, 4);
    assert(pow(1000, 2) == 1000000);
    assert(pow(1000, 4) == 1000000000000) by (nonlinear_arith)
        requires
            pow(1000, 4) == pow(1000, 2) * pow(1000, 2),
            pow(1000, 2) == 1000000,
    ;
    assert(pow(1000, 8) == 0xd3c21bcecceda1000000) by (nonlinear_arith)
        requires
            pow(1000, 8) == pow(1000, 4) * pow(1000, 4),
            pow(1000, 4) == 1000000000000,
    ;
}

/// Represents the prefixes used for displaying file sizes using powers of
/// 1024.
pub struct BinaryPrefixes {}

/// The binary unit label table, from no prefix up to yobi.
pub open spec fn spec_binary_labels() -> Seq<Seq<char>> {
    seq![""@, "Ki"@, "Mi"@, "Gi"@, "Ti"@, "Pi"@, "Ei"@, "Zi"@, "Yi"@]
}

impl BinaryPrefixes {
    /// Returns the binary prefix system: multiplier 1024 and the label
    /// table from no prefix up to yobi.
    pub fn prefixes() -> (p: PrefixType)
        ensures
            p.wf(),
            p.spec_multiplier() == 1024,
            p.spec_labels() == spec_binary_labels(),
    {
        let mut labels: Vec<&'static str> = Vec::new();
        labels.push("");
        labels.push("Ki");
        labels.push("Mi");
        labels.push("Gi");
        labels.push("Ti");
        labels.push("Pi");
        labels.push("Ei");
        labels.push("Zi");
        labels.push("Yi");
        let p = PrefixType { labels, multiplier: 1024 };
        proof {
            assert(p.spec_labels() =~~= spec_binary_labels());
            lemma_pow_1024_8();
        }
        p
    }
}

/// The eighth power of 1024 stays far below the digit-extraction bound.
proof fn lemma_pow_1024_8()
    ensures
        pow(1024, 8) == 0x100000000000000000000,
        pow(1024, 8) <= u128::MAX / 10,
{
    lemma_pow1(1024);
    lemma_pow_adds(1024, 1, 1);
    lemma_pow_adds(1024, 2, 2);
    lemma_pow_adds(1024, 4, 4);
    assert(pow(1024, 2) == 0x100000);
    assert(pow(1024, 4) == 0x10000000000) by (nonlinear_arith)
        requires
            pow(1024, 4) == pow(1024, 2) * pow(1024, 2),
            pow(1024, 2) == 0x100000,
    ;
    assert(pow(1024, 8) == 0x100000000000000000000) by (nonlinear_arith)
        requires
            pow(1024, 8) == pow(1024, 4) * pow(1024, 4),
            pow(1024, 4) == 0x10000000000,
    ;
}

} // verus!
