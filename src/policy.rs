use vstd::prelude::*;
use crate::model::{Policy, PolicyAction, PolicyType};

verus! {

broadcast use vstd::seq_lib::group_filter_ensures;

/// A policy reaches machine `machine_id`: it is enabled, and fleet-wide or scoped there.
pub open spec fn applies_to(p: Policy, machine_id: Seq<char>) -> bool {
    p.enabled && (p.machine_id.is_none() || p.machine_id.unwrap()@ == machine_id)
}

/// The policies that machine `machine_id` receives, in store order.
pub open spec fn selection(ps: Seq<Policy>, machine_id: Seq<char>) -> Seq<Policy> {
    ps.filter(|p: Policy| applies_to(p, machine_id))
}

pub fn copy_opt_string(o: &Option<String>) -> (r: Option<String>)
    ensures
        r == *o,
{
    match o {
        Some(s) => Some(s.clone()),
        None => None,
    }
}

/// A field-for-field copy.
pub fn copy_policy(p: &Policy) -> (r: Policy)
    ensures
        r == *p,
{
    Policy {
        id: p.id.clone(),
        machine_id: copy_opt_string(&p.machine_id),
        policy_type: p.policy_type,
        target: p.target.clone(),
        action: p.action,
        reason: p.reason.clone(),
        created_by: p.created_by.clone(),
        created_at: p.created_at,
        enabled: p.enabled,
    }
}

/// Whether `p` reaches machine `machine_id`.
pub fn policy_applies(p: &Policy, machine_id: &str) -> (r: bool)
    ensures
        r == applies_to(*p, machine_id@),
{
    if !p.enabled {
        return false;
    }
    match &p.machine_id {
        None => true,
        Some(m) => {
            let mine = machine_id.to_owned();
            *m == mine
        },
    }
}

/// The enabled policies that are fleet-wide or scoped to `machine_id`.
pub fn select_policies(policies: &Vec<Policy>, machine_id: &str) -> (r: Vec<Policy>)
    ensures
        r@ == selection(policies@, machine_id@),
{
    let mut out: Vec<Policy> = Vec::new();
    let mut i: usize = 0;
    while i < policies.len()
        invariant
            i <= policies@.len(),
            out@ == selection(policies@.subrange(0, i as int), machine_id@),
        decreases policies@.len() - i,
    {
        let p = &policies[i];
        proof {
            assert(policies@.subrange(0, i + 1) =~= policies@.subrange(0, i as int).push(*p));
            policies@.subrange(0, i as int).lemma_filter_push(
                *p,
                |q: Policy| applies_to(q, machine_id@),
            );
        }
        if policy_applies(p, machine_id) {
            out.push(copy_policy(p));
        }
        i = i + 1;
    }
    assert(policies@.subrange(0, policies@.len() as int) =~= policies@);
    out
}

/// A fleet-wide enabled policy is selected for every machine, and a policy scoped
/// to one machine is never selected for another.
pub proof fn lemma_selection_scope(ps: Seq<Policy>, p: Policy, machine_a: Seq<char>, machine_b: Seq<char>)
    requires
        ps.contains(p),
    ensures
        p.enabled && p.machine_id.is_none() ==> selection(ps, machine_b).contains(p),
        p.machine_id == Some(p.machine_id.unwrap()) && p.machine_id.unwrap()@ == machine_a
            && machine_a != machine_b ==> !selection(ps, machine_b).contains(p),
{
    let pred = |q: Policy| applies_to(q, machine_b);
    let i = choose|i: int| 0 <= i < ps.len() && ps[i] == p;
    if p.enabled && p.machine_id.is_none() {
        ps.lemma_filter_contains(pred, i);
    }
    if p.machine_id.is_some() && p.machine_id.unwrap()@ == machine_a && machine_a != machine_b {
        if selection(ps, machine_b).contains(p) {
            let k = choose|k: int| 0 <= k < selection(ps, machine_b).len() && selection(ps, machine_b)[k] == p;
            ps.lemma_filter_pred(pred, k);
        }
    }
}

/// Whether a policy asks for a block.
pub open spec fn is_block(p: Policy) -> bool {
    p.action == PolicyAction::Block
}

/// Whether a policy is about applications or processes.
pub open spec fn is_app_rule(p: Policy) -> bool {
    p.policy_type == PolicyType::Application || p.policy_type == PolicyType::Process
}

/// Policy ids are unique.
pub open spec fn policy_ids_unique(ps: Seq<Policy>) -> bool {
    forall|i: int, j: int| 0 <= i < ps.len() && 0 <= j < ps.len() && i != j ==> ps[i].id@ != ps[j].id@
}

/// With unique ids, no policy carrying the id of a policy scoped to another
/// machine, or of a disabled policy, is selected for machine `machine_b`.
pub proof fn lemma_selection_ids(ps: Seq<Policy>, i: int, machine_b: Seq<char>)
    requires
        policy_ids_unique(ps),
        0 <= i < ps.len(),
        !ps[i].enabled || (ps[i].machine_id.is_some() && ps[i].machine_id.unwrap()@ != machine_b),
    ensures
        forall|k: int|
            0 <= k < selection(ps, machine_b).len() ==> (#[trigger] selection(ps, machine_b)[k]).id@ != ps[i].id@,
        forall|k: int| 0 <= k < selection(ps, machine_b).len() ==> (#[trigger] selection(ps, machine_b)[k]).enabled,
{
    let pred = |q: Policy| applies_to(q, machine_b);
    assert forall|k: int| 0 <= k < selection(ps, machine_b).len() implies (#[trigger] selection(
        ps,
        machine_b,
    )[k]).id@ != ps[i].id@ && selection(ps, machine_b)[k].enabled by {
        let x = selection(ps, machine_b)[k];
        ps.lemma_filter_pred(pred, k);
        assert(ps.filter(pred).contains(x));
        ps.lemma_filter_contains_rev(pred, x);
        let j = choose|j: int| 0 <= j < ps.len() && ps[j] == x;
        if j != i {
            assert(ps[j].id@ != ps[i].id@);
        }
    }
}

/// The ids of `ps`, in order.
pub fn policy_ids(ps: &Vec<Policy>) -> (r: Vec<String>)
    ensures
        r@.len() == ps@.len(),
        forall|i: int| 0 <= i < ps@.len() ==> (#[trigger] r@[i])@ == ps@[i].id@,
{
    let mut out: Vec<String> = Vec::new();
    let mut i: usize = 0;
    while i < ps.len()
        invariant
            i <= ps@.len(),
            out@.len() == i,
            forall|k: int| 0 <= k < i ==> (#[trigger] out@[k])@ == ps@[k].id@,
        decreases ps@.len() - i,
    {
        out.push(ps[i].id.clone());
        i = i + 1;
    }
    out
}

} // verus!
