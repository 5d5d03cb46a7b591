//! The discrete half of tolerance stack-up: the direction a contribution
//! accumulates in, where its tolerance came from, which printed feature class
//! a process profile can answer for, and the verdict of a gate report.
//!
//! The accumulation itself (sums of nominals and bands, root-sum-square,
//! contributor shares) is floating-point arithmetic and is not part of this
//! crate; a gate report hands over the two facts the verdict is decided by:
//! whether the chain failed as a whole, and which links pass their budget alone.
use vstd::prelude::*;

verus! {

/// Which way a contribution accumulates along the chain.
#[derive(Clone, Copy, Debug, PartialEq, Eq, Structural)]
pub enum Sign {
    /// The dimension adds to the accumulated value.
    Adds,
    /// The dimension subtracts from it.
    Subtracts,
}

/// The symbol of a sign, as a sequence of characters.
pub open spec fn sign_symbol(s: Sign) -> Seq<char> {
    match s {
        Sign::Adds => "+"@,
        Sign::Subtracts => "-"@,
    }
}

impl Sign {
    /// The opposite sign.
    pub fn flipped(self) -> (r: Sign)
        ensures
            r == (match self {
                Sign::Adds => Sign::Subtracts,
                Sign::Subtracts => Sign::Adds,
            }),
    {
        match self {
            Sign::Adds => Sign::Subtracts,
            Sign::Subtracts => Sign::Adds,
        }
    }

    /// `"+"` / `"-"`, for messages.
    pub fn symbol(self) -> (r: &'static str)
        ensures
            r@ == sign_symbol(self),
    {
        match self {
            Sign::Adds => "+",
            Sign::Subtracts => "-",
        }
    }
}

/// **Flipping a sign twice gives it back**, and a flipped sign always differs.
pub proof fn lemma_flip_involution(s: Sign)
    ensures
        (match s {
            Sign::Adds => Sign::Subtracts,
            Sign::Subtracts => Sign::Adds,
        }) != s,
        (match (match s {
            Sign::Adds => Sign::Subtracts,
            Sign::Subtracts => Sign::Adds,
        }) {
            Sign::Adds => Sign::Subtracts,
            Sign::Subtracts => Sign::Adds,
        }) == s,
{
}

/// Where a contribution's tolerance came from.
#[derive(Clone, Debug, PartialEq, Eq)]
pub enum ToleranceSource {
    /// Hand-declared by the designer.
    Declared,
    /// A vendor / catalog part's published tolerance; the string names it.
    Catalog(String),
    /// Derived from a manufacturing process profile.
    Process {
        /// Profile name.
        profile: String,
        /// Feature class the band was derived for.
        feature: String,
        /// What the derivation covers, and what it does not.
        note: String,
    },
}

/// The label of a tolerance source.
pub open spec fn source_label(s: ToleranceSource) -> Seq<char> {
    match s {
        ToleranceSource::Declared => "declared"@,
        ToleranceSource::Catalog(v) => "catalog:"@ + v@,
        ToleranceSource::Process { profile, feature, .. } => "process:"@ + profile@ + "/"@ + feature@,
    }
}

impl ToleranceSource {
    /// Short label for messages and receipts: `declared`, `catalog:<part>` or
    /// `process:<profile>/<feature>`.
    pub fn label(&self) -> (r: String)
        ensures
            r@ == source_label(*self),
    {
        match self {
            ToleranceSource::Declared => String::from_str("declared"),
            ToleranceSource::Catalog(v) => String::from_str("catalog:").concat(v.as_str()),
            ToleranceSource::Process { profile, feature, .. } => {
                let s = String::from_str("process:").concat(profile.as_str());
                s.concat("/").concat(feature.as_str())
            },
        }
    }
}

/// A printed feature class whose dimensional behaviour a process profile
/// knows something about.
#[derive(Clone, Copy, Debug, PartialEq, Eq, Structural)]
pub enum PrintedFeature {
    /// An outer printed surface measured radially; it can only grow.
    OuterSurfaceRadial,
    /// A printed hole designed at nominal with no compensation applied.
    UncompensatedHoleDiametral,
}

/// How a stack is accumulated, without the sigma level an RSS stack carries.
#[derive(Clone, Copy, Debug, PartialEq, Eq, Structural)]
pub enum MethodKind {
    /// Arithmetic sum of extremes.
    WorstCase,
    /// Root-sum-square.
    Rss,
}

/// The stable short name of a method.
pub open spec fn method_name(m: MethodKind) -> Seq<char> {
    match m {
        MethodKind::WorstCase => "worst_case"@,
        MethodKind::Rss => "rss"@,
    }
}

impl MethodKind {
    /// Stable short name (`"worst_case"` / `"rss"`).
    pub fn name(&self) -> (r: &'static str)
        ensures
            r@ == method_name(*self),
    {
        match self {
            MethodKind::WorstCase => "worst_case",
            MethodKind::Rss => "rss",
        }
    }
}

// ---------------------------------------------------------------------------
// Decimal numerals.
// ---------------------------------------------------------------------------

/// The character of a decimal digit.
pub open spec fn digit_char(d: nat) -> char {
    if d == 0 {
        '0'
    } else if d == 1 {
        '1'
    } else if d == 2 {
        '2'
    } else if d == 3 {
        '3'
    } else if d == 4 {
        '4'
    } else if d == 5 {
        '5'
    } else if d == 6 {
        '6'
    } else if d == 7 {
        '7'
    } else if d == 8 {
        '8'
    } else {
        '9'
    }
}

/// The decimal numeral of `n`, without leading zeros.
pub open spec fn decimal(n: nat) -> Seq<char>
    decreases n,
{
    if n < 10 {
        seq![digit_char(n)]
    } else {
        decimal(n / 10).push(digit_char(n % 10))
    }
}

/// The number a string of decimal digits reads as.
pub open spec fn digits_value(s: Seq<char>) -> int
    decreases s.len(),
{
    if s.len() == 0 {
        0
    } else {
        digits_value(s.drop_last()) * 10 + ((s.last() as int) - 48)
    }
}

/// The code of the digit character of `d` is `48 + d`.
proof fn lemma_digit_char_code(d: nat)
    requires
        d < 10,
    ensures
        digit_char(d) as int == 48 + d,
{
}

/// **A numeral reads back as its number.** [`decimal_string`] writes `n` with
/// decimal digits only, reading back as `n`, and with no leading zero unless
/// `n` is 0.
pub proof fn lemma_decimal_reads_back(n: nat)
    ensures
        decimal(n).len() >= 1,
        forall|i: int| 0 <= i < decimal(n).len() ==> 48 <= (#[trigger] decimal(n)[i] as int) <= 57,
        digits_value(decimal(n)) == n,
        decimal(n)[0] == '0' ==> n == 0,
    decreases n,
{
    if n < 10 {
        lemma_digit_char_code(n);
        assert(decimal(n).drop_last() =~= Seq::<char>::empty());
        assert(digits_value(Seq::<char>::empty()) == 0);
        assert(decimal(n).last() == digit_char(n));
    } else {
        lemma_digit_char_code(n % 10);
        assert(n == (n / 10) * 10 + n % 10);
        lemma_decimal_reads_back(n / 10);
        let p = decimal(n / 10);
        assert(decimal(n).drop_last() =~= p);
        assert(decimal(n).last() == digit_char(n % 10));
        assert(digits_value(decimal(n)) == digits_value(p) * 10 + (n % 10));
        assert forall|i: int| 0 <= i < decimal(n).len() implies 48 <= (#[trigger] decimal(n)[i] as int) <= 57 by {
            if i < p.len() {
                assert(decimal(n)[i] == p[i]);
            }
        }
        assert(decimal(n)[0] == p[0]);
    }
}

fn digit_str(d: usize) -> (s: &'static str)
    requires
        d < 10,
    ensures
        s@ == seq![digit_char(d as nat)],
{
    proof {
        reveal_strlit("0");
        reveal_strlit("1");
        reveal_strlit("2");
        reveal_strlit("3");
        reveal_strlit("4");
        reveal_strlit("5");
        reveal_strlit("6");
        reveal_strlit("7");
        reveal_strlit("8");
        reveal_strlit("9");
    }
    if d == 0 {
        "0"
    } else if d == 1 {
        "1"
    } else if d == 2 {
        "2"
    } else if d == 3 {
        "3"
    } else if d == 4 {
        "4"
    } else if d == 5 {
        "5"
    } else if d == 6 {
        "6"
    } else if d == 7 {
        "7"
    } else if d == 8 {
        "8"
    } else {
        "9"
    }
}

/// The decimal numeral of `n`.
pub fn decimal_string(n: usize) -> (s: String)
    ensures
        s@ == decimal(n as nat),
    decreases n,
{
    if n < 10 {
        String::from_str(digit_str(n))
    } else {
        let s = decimal_string(n / 10);
        s.concat(digit_str(n % 10))
    }
}

// ---------------------------------------------------------------------------
// The verdict of a gate report.
// ---------------------------------------------------------------------------

/// Number of `false` entries among the first `k`.
pub open spec fn count_failing(s: Seq<bool>) -> nat
    decreases s.len(),
{
    if s.len() == 0 {
        0
    } else {
        count_failing(s.drop_last()) + if s.last() {
            0nat
        } else {
            1nat
        }
    }
}

/// The `false` entries of a list, in order.
pub open spec fn failing_entries(s: Seq<bool>) -> Seq<bool> {
    s.filter(|b: bool| !b)
}

/// The verdict sentence of a gate report.
pub open spec fn verdict_text(aggregate_failed: bool, failing_alone: nat) -> Seq<char> {
    if !aggregate_failed {
        "pass"@
    } else if failing_alone == 0 {
        "fail (aggregate only — every link passes alone)"@
    } else {
        "fail ("@ + decimal(failing_alone) + " link(s) also fail alone)"@
    }
}

/// The decided half of a gate report.
#[derive(Clone, Debug, PartialEq, Eq)]
pub struct GateVerdict {
    /// How many links fail their budget even alone.
    pub failing_alone: usize,
    /// Every link passes alone and the chain still fails: the system-level
    /// failure pairwise fit checking cannot see.
    pub aggregate_only_failure: bool,
    /// `"pass"`, `"fail (aggregate only — every link passes alone)"`, or
    /// `"fail (N link(s) also fail alone)"`.
    pub verdict: String,
}

/// Decide a gate report from whether the chain failed as a whole and, per link
/// in chain order, whether it passes its budget alone.
pub fn gate_verdict(aggregate_failed: bool, links_passing_alone: &Vec<bool>) -> (r: GateVerdict)
    ensures
        r.failing_alone == count_failing(links_passing_alone@),
        r.failing_alone == failing_entries(links_passing_alone@).len(),
        r.aggregate_only_failure == (aggregate_failed && r.failing_alone == 0),
        r.verdict@ == verdict_text(aggregate_failed, r.failing_alone as nat),
{
    let mut failing: usize = 0;
    let mut i: usize = 0;
    while i < links_passing_alone.len()
        invariant
            i <= links_passing_alone@.len(),
            failing == count_failing(links_passing_alone@.take(i as int)),
            failing <= i,
        decreases links_passing_alone@.len() - i,
    {
        proof {
            assert(links_passing_alone@.take(i + 1).drop_last() =~= links_passing_alone@.take(i as int));
        }
        if !links_passing_alone[i] {
            failing = failing + 1;
        }
        i = i + 1;
    }
    assert(links_passing_alone@.take(i as int) =~= links_passing_alone@);
    proof {
        lemma_count_is_filter_len(links_passing_alone@);
    }
    let aggregate_only_failure = aggregate_failed && failing == 0;
    let verdict = if !aggregate_failed {
        String::from_str("pass")
    } else if failing == 0 {
        String::from_str("fail (aggregate only — every link passes alone)")
    } else {
        String::from_str("fail (").concat(decimal_string(failing).as_str()).concat(" link(s) also fail alone)")
    };
    GateVerdict { failing_alone: failing, aggregate_only_failure, verdict }
}

/// **The aggregate-only failure is exactly the failure every pairwise review
/// misses**: it is set if and only if the chain fails and every link passes
/// alone, and the verdict then reads so.
pub proof fn lemma_aggregate_only_failure(aggregate_failed: bool, links: Seq<bool>)
    requires
        forall|i: int| 0 <= i < links.len() ==> #[trigger] links[i],
    ensures
        count_failing(links) == 0,
        verdict_text(aggregate_failed, count_failing(links)) == if aggregate_failed {
            "fail (aggregate only — every link passes alone)"@
        } else {
            "pass"@
        },
    decreases links.len(),
{
    if links.len() > 0 {
        let rest = links.drop_last();
        assert forall|i: int| 0 <= i < rest.len() implies #[trigger] rest[i] by {
            assert(links[i]);
        }
        lemma_aggregate_only_failure(aggregate_failed, rest);
        assert(links[links.len() - 1]);
    }
}

/// The count of failing links is the number of `false` entries.
proof fn lemma_count_is_filter_len(s: Seq<bool>)
    ensures
        count_failing(s) == failing_entries(s).len(),
    decreases s.len(),
{
    reveal(Seq::filter);
    if s.len() > 0 {
        lemma_count_is_filter_len(s.drop_last());
    }
}

/// **Each link that fails alone counts once, wherever it stands.** The count
/// is the number of `false` entries of the list; the count of two lists put
/// end to end is the sum of their counts; appending a failing link adds one
/// and appending a passing link adds nothing, whatever came before.
pub proof fn lemma_failing_count(a: Seq<bool>, b: Seq<bool>)
    ensures
        count_failing(a) == failing_entries(a).len(),
        count_failing(a + b) == count_failing(a) + count_failing(b),
        count_failing(a.push(false)) == count_failing(a) + 1,
        count_failing(a.push(true)) == count_failing(a),
{
    broadcast use Seq::filter_distributes_over_add;

    lemma_count_is_filter_len(a);
    lemma_count_is_filter_len(b);
    lemma_count_is_filter_len(a + b);
    assert(failing_entries(a + b) == failing_entries(a) + failing_entries(b));
    assert(a.push(false).drop_last() =~= a);
    assert(a.push(true).drop_last() =~= a);
}

} // verus!
