//! Tally engine: a pure function from weighted votes to a tri-state outcome.

use vstd::prelude::*;

verus! {

/// Outcome of tallying the weighted votes cast on one proposal.
///
/// `Unknown` denotes indeterminate or insufficient data. It is treated like
/// `Rejected` for execution purposes but stays distinguishable for
/// observability.
#[derive(Clone, Copy, PartialEq, Eq, Structural, Debug)]
pub enum TallyResult {
    Passed,
    Rejected,
    Unknown,
}

/// One consensus validator's voting weight in a per-epoch snapshot.
#[derive(Clone, Copy)]
pub struct ValidatorPower {
    pub addr: u64,
    pub power: u64,
}

/// Total active voting power of a snapshot.
pub open spec fn total_power(s: Seq<ValidatorPower>) -> int
    decreases s.len(),
{
    if s.len() == 0 {
        0
    } else {
        s[0].power + total_power(s.drop_first())
    }
}

/// Voting power backing acceptance: the combined weight of the snapshot
/// validators listed in `yea`.
pub open spec fn yea_power(s: Seq<ValidatorPower>, yea: Seq<u64>) -> int
    decreases s.len(),
{
    if s.len() == 0 {
        0
    } else {
        (if yea.contains(s[0].addr) {
            s[0].power as int
        } else {
            0
        }) + yea_power(s.drop_first(), yea)
    }
}

pub proof fn lemma_total_power_nonneg(s: Seq<ValidatorPower>)
    ensures
        total_power(s) >= 0,
    decreases s.len(),
{
    if s.len() > 0 {
        lemma_total_power_nonneg(s.drop_first());
    }
}

/// Accepting power never exceeds the total power it is drawn from.
pub proof fn lemma_yea_le_total(s: Seq<ValidatorPower>, yea: Seq<u64>)
    ensures
        0 <= yea_power(s, yea) <= total_power(s),
    decreases s.len(),
{
    if s.len() > 0 {
        lemma_yea_le_total(s.drop_first(), yea);
    }
}

/// The tally rule: a proposal passes exactly when at least two thirds of the
/// total active voting power at its start epoch backs it. An empty snapshot
/// or any voting-power arithmetic that would overflow yields `Unknown` —
/// never a silent wrap, and never a silent `Passed`.
pub open spec fn spec_tally(powers: Seq<ValidatorPower>, yea: Seq<u64>) -> TallyResult {
    if powers.len() == 0 {
        TallyResult::Unknown
    } else if total_power(powers) > u64::MAX {
        TallyResult::Unknown
    } else if 3 * yea_power(powers, yea) > u64::MAX || 2 * total_power(powers) > u64::MAX {
        TallyResult::Unknown
    } else if 3 * yea_power(powers, yea) >= 2 * total_power(powers) {
        TallyResult::Passed
    } else {
        TallyResult::Rejected
    }
}

/// Whether `addr` cast an accepting vote.
pub fn contains_validator(yea: &Vec<u64>, addr: u64) -> (r: bool)
    ensures
        r == yea@.contains(addr),
{
    let mut i: usize = 0;
    while i < yea.len()
        invariant
            0 <= i <= yea@.len(),
            forall|j: int| 0 <= j < i ==> yea@[j] != addr,
        decreases yea@.len() - i,
    {
        if yea[i] == addr {
            return true;
        }
        i += 1;
    }
    false
}

/// Tallies the votes on one proposal against the voting-power snapshot taken
/// at the proposal's start epoch.
pub fn compute_tally(powers: &Vec<ValidatorPower>, yea: &Vec<u64>) -> (r: TallyResult)
    ensures
        r == spec_tally(powers@, yea@),
{
    if powers.len() == 0 {
        return TallyResult::Unknown;
    }
    let mut total: u64 = 0;
    let mut yes: u64 = 0;
    let mut i: usize = 0;
    proof {
        assert(powers@.skip(0) =~= powers@);
    }
    while i < powers.len()
        invariant
            0 <= i <= powers@.len(),
            powers@.len() > 0,
            total + total_power(powers@.skip(i as int)) == total_power(powers@),
            yes + yea_power(powers@.skip(i as int), yea@) == yea_power(powers@, yea@),
            yes <= total,
        decreases powers@.len() - i,
    {
        let p = powers[i];
        proof {
            assert(powers@.skip(i as int).drop_first() =~= powers@.skip(i as int + 1));
            lemma_total_power_nonneg(powers@.skip(i as int + 1));
            lemma_yea_le_total(powers@.skip(i as int + 1), yea@);
        }
        total = match total.checked_add(p.power) {
            Some(t) => t,
            None => {
                return TallyResult::Unknown;
            },
        };
        if contains_validator(yea, p.addr) {
            yes = yes + p.power;
        }
        i += 1;
    }
    proof {
        assert(powers@.skip(powers@.len() as int) =~= Seq::<ValidatorPower>::empty());
    }
    let yes3 = match yes.checked_mul(3) {
        Some(v) => v,
        None => {
            return TallyResult::Unknown;
        },
    };
    let tot2 = match total.checked_mul(2) {
        Some(v) => v,
        None => {
            return TallyResult::Unknown;
        },
    };
    if yes3 >= tot2 {
        TallyResult::Passed
    } else {
        TallyResult::Rejected
    }
}

} // verus!
