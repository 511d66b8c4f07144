//! Threshold and inheritance logic over vote tallies: decides whether a
//! weighted tally passes a rule, and whether a proposal's sub-rule is at
//! least as strict as its organization's baseline.

use vstd::prelude::*;
use crate::Balance;

verus! {

/// Percentage thresholds governing when a proposal passes.
///
/// Each field is a percentage in `0..=100`; the value `0` disables the
/// corresponding clause. Values above 100 behave as 100, matching percent
/// semantics.
#[derive(Clone, Copy, PartialEq, Eq, Structural, Debug)]
pub struct OrgRuleParam {
    /// Minimum share of the total supply that must vote yes (strict `>`).
    pub min_affirmative: u32,
    /// Maximum share of the total supply that may vote no.
    pub max_dissenting: u32,
    /// Maximum share of the total supply that may abstain.
    pub abstention: u32,
}

/// `p` percent of `total`, rounded down, with `p` saturated at 100.
pub open spec fn percent_of(p: u32, total: Balance) -> int {
    (total as int) * (if p > 100 { 100int } else { p as int }) / 100
}

/// Exact pass condition: every enabled clause must hold; a zero threshold
/// disables its clause.
pub open spec fn rule_pass(r: OrgRuleParam, yes: Balance, no: Balance, nu: Balance, total: Balance) -> bool {
    &&& r.min_affirmative == 0 || (yes as int) > percent_of(r.min_affirmative, total)
    &&& r.max_dissenting == 0 || !((no as int) > percent_of(r.max_dissenting, total))
    &&& r.abstention == 0 || !((nu as int) > percent_of(r.abstention, total))
}

/// A sub-rule is inheritance-valid against a baseline exactly when it is at
/// least as strict: a higher (or equal) approval floor, and lower (or equal)
/// dissent and abstention ceilings.
pub open spec fn rule_inherit_valid(base: OrgRuleParam, sub: OrgRuleParam) -> bool {
    &&& sub.min_affirmative >= base.min_affirmative
    &&& sub.max_dissenting <= base.max_dissenting
    &&& sub.abstention <= base.abstention
}

impl OrgRuleParam {
    /// The all-zero rule: every clause disabled.
    pub fn default() -> (r: Self)
        ensures
            r == (OrgRuleParam { min_affirmative: 0, max_dissenting: 0, abstention: 0 }),
    {
        OrgRuleParam { min_affirmative: 0, max_dissenting: 0, abstention: 0 }
    }

    pub fn new(a: u32, d: u32, s: u32) -> (r: Self)
        ensures
            r == (OrgRuleParam { min_affirmative: a, max_dissenting: d, abstention: s }),
    {
        OrgRuleParam { min_affirmative: a, max_dissenting: d, abstention: s }
    }

    /// Decide a tally of `yes`, `no` and `nu` (abstaining) weight against this
    /// rule, measured against the `total` token supply.
    pub fn is_pass(&self, yes: Balance, no: Balance, nu: Balance, total: Balance) -> (r: bool)
        ensures
            r == rule_pass(*self, yes, no, nu, total),
    {
        let yes_ok = self.min_affirmative == 0
            || (yes as u128) > percent_threshold(self.min_affirmative, total);
        let no_ok = self.max_dissenting == 0
            || !((no as u128) > percent_threshold(self.max_dissenting, total));
        let nu_ok = self.abstention == 0
            || !((nu as u128) > percent_threshold(self.abstention, total));
        yes_ok && no_ok && nu_ok
    }

    /// Decide whether `subparam` is at least as strict as this baseline.
    pub fn inherit_valid(&self, subparam: OrgRuleParam) -> (r: bool)
        ensures
            r == rule_inherit_valid(*self, subparam),
    {
        subparam.min_affirmative >= self.min_affirmative
            && subparam.max_dissenting <= self.max_dissenting
            && subparam.abstention <= self.abstention
    }
}

/// A larger percentage never yields a smaller share.
pub proof fn lemma_percent_monotone(p1: u32, p2: u32, total: Balance)
    requires
        p1 <= p2,
    ensures
        percent_of(p1, total) <= percent_of(p2, total),
{
    let c1: int = if p1 > 100 { 100int } else { p1 as int };
    let c2: int = if p2 > 100 { 100int } else { p2 as int };
    assert((total as int) * c1 <= (total as int) * c2) by (nonlinear_arith)
        requires
            0 <= c1 <= c2,
            total >= 0,
    ;
    assert((total as int) * c1 / 100 <= (total as int) * c2 / 100) by (nonlinear_arith)
        requires
            (total as int) * c1 <= (total as int) * c2,
    ;
}

/// Rule-inheritance strictness law: a tally that passes an
/// inheritance-valid sub-rule also passes the baseline, provided the
/// sub-rule does not disable a ceiling the baseline enables (a zero
/// threshold means "unchecked", so a sub-rule with a zero ceiling against a
/// nonzero baseline ceiling is inheritance-valid yet easier to pass).
pub proof fn lemma_inherit_valid_strict(
    base: OrgRuleParam,
    sub: OrgRuleParam,
    yes: Balance,
    no: Balance,
    nu: Balance,
    total: Balance,
)
    requires
        rule_inherit_valid(base, sub),
        base.max_dissenting != 0 ==> sub.max_dissenting != 0,
        base.abstention != 0 ==> sub.abstention != 0,
        rule_pass(sub, yes, no, nu, total),
    ensures
        rule_pass(base, yes, no, nu, total),
{
    if base.min_affirmative != 0 {
        lemma_percent_monotone(base.min_affirmative, sub.min_affirmative, total);
    }
    if base.max_dissenting != 0 {
        lemma_percent_monotone(sub.max_dissenting, base.max_dissenting, total);
    }
    if base.abstention != 0 {
        lemma_percent_monotone(sub.abstention, base.abstention, total);
    }
}

/// `p` percent of `total`, rounded down; the widened intermediate cannot
/// overflow a `u128`.
fn percent_threshold(p: u32, total: Balance) -> (r: u128)
    ensures
        r as int == percent_of(p, total),
{
    let clamped: u128 = if p > 100 { 100 } else { p as u128 };
    assert((total as int) * (clamped as int) <= (u64::MAX as int) * 100 && (total as int) * (clamped as int) >= 0) by (nonlinear_arith)
        requires
            clamped <= 100,
            total <= u64::MAX,
    ;
    (total as u128) * clamped / 100
}

} // verus!
