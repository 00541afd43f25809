//! Eligibility policy: decide admit or deny from the upstream's reported
//! eligibility, its denial code, and a local allow-list of membership ids.

use vstd::prelude::*;

verus! {

/// Outcome of the eligibility policy.
#[derive(PartialEq, Eq, Structural, Clone, Copy, Debug)]
pub enum Decision {
    Admit,
    Deny,
}

/// Local policy settings: the membership ids that are always admitted
/// (alumni), and the upstream denial code that only means "already swiped
/// recently" and so must not be treated as a real ineligibility.
pub struct PolicyConfig {
    pub allow_list: Vec<u32>,
    pub duplicate_swipe_code: String,
}

/// The admission rule, checked in order: upstream eligibility admits
/// outright; the duplicate-swipe denial code admits; an allow-listed
/// membership id admits; anything else is denied.
pub open spec fn spec_decide(
    eligible: bool,
    code: Seq<char>,
    gnum: u32,
    allow_list: Seq<u32>,
    dup_code: Seq<char>,
) -> Decision {
    if eligible {
        Decision::Admit
    } else if code == dup_code {
        Decision::Admit
    } else if allow_list.contains(gnum) {
        Decision::Admit
    } else {
        Decision::Deny
    }
}

impl PolicyConfig {
    /// The decision this configuration yields for one visitor.
    pub open spec fn spec_decision(&self, eligible: bool, code: Seq<char>, gnum: u32) -> Decision {
        spec_decide(eligible, code, gnum, self.allow_list@, self.duplicate_swipe_code@)
    }
}

fn allow_list_contains(v: &Vec<u32>, x: u32) -> (r: bool)
    ensures
        r == v@.contains(x),
{
    let mut i: usize = 0;
    while i < v.len()
        invariant
            0 <= i <= v@.len(),
            forall|j: int| 0 <= j < i ==> v@[j] != x,
        decreases v@.len() - i,
    {
        if v[i] == x {
            return true;
        }
        i += 1;
    }
    false
}

/// Decide admission for one visitor.
pub fn decide(eligible: bool, code: &String, gnum: u32, config: &PolicyConfig) -> (d: Decision)
    ensures
        d == config.spec_decision(eligible, code@, gnum),
{
    if eligible {
        return Decision::Admit;
    }
    if *code == config.duplicate_swipe_code {
        return Decision::Admit;
    }
    if allow_list_contains(&config.allow_list, gnum) {
        return Decision::Admit;
    }
    Decision::Deny
}

/// The deployed configuration: a single alumnus id on the allow-list and
/// the upstream's duplicate-swipe denial code.
pub fn default_policy_config() -> (c: PolicyConfig)
    ensures
        c.allow_list@ == seq![1254375u32],
        c.duplicate_swipe_code@ == "DENY902"@,
{
    let mut allow: Vec<u32> = Vec::new();
    allow.push(1254375);
    proof {
        assert(allow@ =~= seq![1254375u32]);
    }
    PolicyConfig { allow_list: allow, duplicate_swipe_code: "DENY902".to_owned() }
}

/// The policy truth table: eligibility admits regardless of code or
/// allow-list; the duplicate-swipe code admits; an allow-listed id admits;
/// with none of the three the visitor is denied.
pub proof fn lemma_policy_truth_table(code: Seq<char>, gnum: u32, allow: Seq<u32>, dup: Seq<char>)
    ensures
        spec_decide(true, code, gnum, allow, dup) == Decision::Admit,
        spec_decide(false, dup, gnum, allow, dup) == Decision::Admit,
        allow.contains(gnum) ==> spec_decide(false, code, gnum, allow, dup) == Decision::Admit,
        code != dup && !allow.contains(gnum) ==> spec_decide(false, code, gnum, allow, dup)
            == Decision::Deny,
{
}

} // verus!
