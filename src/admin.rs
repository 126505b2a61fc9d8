use vstd::prelude::*;
use vstd::string::StringExecFns;
use crate::model::{AuditLog, Policy, PolicyAction, PolicyType};
use crate::policy::{applies_to, copy_policy, policy_ids, select_policies, selection};
use crate::store::{FleetStore, fresh_id};

verus! {

broadcast use vstd::seq_lib::group_filter_ensures;

/// The audit entry `e` records `action` on resource `resource_id` of kind
/// `resource_type`, by `user`, at time `now`.
pub open spec fn audit_reflects(
    e: AuditLog,
    action: Seq<char>,
    resource_type: Seq<char>,
    resource_id: Seq<char>,
    user: Seq<char>,
    now: u64,
) -> bool {
    &&& e.action@ == action
    &&& e.resource_type@ == resource_type
    &&& e.resource_id@ == resource_id
    &&& e.user@ == user
    &&& e.timestamp == now
}

/// The audit log grew by exactly one entry, and the earlier entries are untouched.
pub open spec fn audit_appended(old: Seq<AuditLog>, new: Seq<AuditLog>) -> bool {
    new.len() == old.len() + 1 && new.subrange(0, old.len() as int) == old
}

pub open spec fn kind_name(t: PolicyType) -> Seq<char> {
    match t {
        PolicyType::Application => "application"@,
        PolicyType::Website => "website"@,
        PolicyType::Ip => "ip"@,
        PolicyType::Process => "process"@,
    }
}

pub open spec fn action_name(a: PolicyAction) -> Seq<char> {
    match a {
        PolicyAction::Allow => "allow"@,
        PolicyAction::Block => "block"@,
    }
}

/// The lower-case name of a policy type, as it is written on the wire.
pub fn policy_type_name(t: PolicyType) -> (r: &'static str)
    ensures
        r@ == kind_name(t),
{
    match t {
        PolicyType::Application => "application",
        PolicyType::Website => "website",
        PolicyType::Ip => "ip",
        PolicyType::Process => "process",
    }
}

/// The lower-case name of a policy action, as it is written on the wire.
pub fn policy_action_name(a: PolicyAction) -> (r: &'static str)
    ensures
        r@ == action_name(a),
{
    match a {
        PolicyAction::Allow => "allow",
        PolicyAction::Block => "block",
    }
}

/// The policy type written `name` on the wire, if any.
pub fn parse_policy_type(name: &str) -> (r: Option<PolicyType>)
    ensures
        r matches Some(t) ==> kind_name(t) == name@,
        r.is_none() ==> forall|t: PolicyType| kind_name(t) != name@,
{
    let n = name.to_owned();
    if n == String::from_str("application") {
        Some(PolicyType::Application)
    } else if n == String::from_str("website") {
        Some(PolicyType::Website)
    } else if n == String::from_str("ip") {
        Some(PolicyType::Ip)
    } else if n == String::from_str("process") {
        Some(PolicyType::Process)
    } else {
        None
    }
}

/// The policy action written `name` on the wire, if any.
pub fn parse_policy_action(name: &str) -> (r: Option<PolicyAction>)
    ensures
        r matches Some(a) ==> action_name(a) == name@,
        r.is_none() ==> forall|a: PolicyAction| action_name(a) != name@,
{
    let n = name.to_owned();
    if n == String::from_str("allow") {
        Some(PolicyAction::Allow)
    } else if n == String::from_str("block") {
        Some(PolicyAction::Block)
    } else {
        None
    }
}

/// Policy `p` with its enabled flag set to `enabled`.
pub open spec fn with_enabled(p: Policy, enabled: bool) -> Policy {
    Policy { enabled, ..p }
}

/// `new` is `old` with the flag of every policy named `policy_id` set to `enabled`.
pub open spec fn flags_set(old: Seq<Policy>, policy_id: Seq<char>, enabled: bool, new: Seq<Policy>) -> bool {
    &&& new.len() == old.len()
    &&& forall|i: int|
        0 <= i < old.len() ==> #[trigger] new[i] == if old[i].id@ == policy_id {
            with_enabled(old[i], enabled)
        } else {
            old[i]
        }
}

pub open spec fn other_id(p: Policy, policy_id: Seq<char>) -> bool {
    p.id@ != policy_id
}

impl FleetStore {
    /// Appends one audit entry.
    pub fn log_audit(
        &mut self,
        action: &str,
        resource_type: &str,
        resource_id: &str,
        user: &str,
        details: String,
        now: u64,
    )
        ensures
            audit_appended(old(self).audit@, final(self).audit@),
            audit_reflects(final(self).audit@.last(), action@, resource_type@, resource_id@, user@, now),
            final(self).audit@.last().details == details,
            old(self).audit@.len() < u64::MAX ==> final(self).audit@.last().id == old(self).audit@.len() + 1,
            final(self).machines == old(self).machines,
            final(self).metrics == old(self).metrics,
            final(self).policies == old(self).policies,
            final(self).api_keys == old(self).api_keys,
    {
        let id = (self.audit.len() as u64).saturating_add(1);
        let ghost before = self.audit@;
        self.audit.push(
            AuditLog {
                id,
                timestamp: now,
                action: action.to_owned(),
                resource_type: resource_type.to_owned(),
                resource_id: resource_id.to_owned(),
                user: user.to_owned(),
                details,
            },
        );
        assert(self.audit@.subrange(0, before.len() as int) =~= before);
    }

    /// Adds an enabled policy under a fresh id, without an audit entry.
    pub(crate) fn insert_policy(
        &mut self,
        machine_id: Option<String>,
        policy_type: PolicyType,
        target: String,
        action: PolicyAction,
        reason: String,
        created_by: String,
        now: u64,
    ) -> (id: String)
        requires
            old(self).wf(),
        ensures
            final(self).wf(),
            final(self).policies@ == old(self).policies@.push(
                Policy {
                    id,
                    machine_id,
                    policy_type,
                    target,
                    action,
                    reason,
                    created_by,
                    created_at: now,
                    enabled: true,
                },
            ),
            forall|i: int| 0 <= i < old(self).policies@.len() ==> (#[trigger] old(self).policies@[i]).id@ != id@,
            final(self).audit == old(self).audit,
            final(self).machines == old(self).machines,
            final(self).metrics == old(self).metrics,
            final(self).api_keys == old(self).api_keys,
    {
        let taken = policy_ids(&self.policies);
        let id = fresh_id(&taken);
        let policy = Policy {
            id: id.clone(),
            machine_id,
            policy_type,
            target,
            action,
            reason,
            created_by,
            created_at: now,
            enabled: true,
        };
        let ghost before = self.policies@;
        self.policies.push(policy);
        assert forall|i: int, j: int|
            0 <= i < self.policies@.len() && 0 <= j < self.policies@.len() && i != j
            implies self.policies@[i].id@ != self.policies@[j].id@ by {
            if i < before.len() && j < before.len() {
                assert(before[i].id@ != before[j].id@);
            } else if i < before.len() {
                assert(taken@[i]@ == before[i].id@);
            } else {
                assert(taken@[j]@ == before[j].id@);
            }
        }
        assert forall|i: int| 0 <= i < before.len() implies (#[trigger] before[i]).id@ != id@ by {
            assert(taken@[i]@ == before[i].id@);
        }
        id
    }

    /// Adds an enabled policy and records who created it. Returns its new id,
    /// which no earlier policy carries.
    pub fn create_policy(
        &mut self,
        machine_id: Option<String>,
        policy_type: PolicyType,
        target: String,
        action: PolicyAction,
        reason: String,
        created_by: String,
        now: u64,
    ) -> (id: String)
        requires
            old(self).wf(),
        ensures
            final(self).wf(),
            final(self).policies@ == old(self).policies@.push(
                Policy {
                    id,
                    machine_id,
                    policy_type,
                    target,
                    action,
                    reason,
                    created_by,
                    created_at: now,
                    enabled: true,
                },
            ),
            forall|i: int| 0 <= i < old(self).policies@.len() ==> (#[trigger] old(self).policies@[i]).id@ != id@,
            audit_appended(old(self).audit@, final(self).audit@),
            audit_reflects(final(self).audit@.last(), "create_policy"@, "policy"@, id@, created_by@, now),
            final(self).audit@.last().details@ == action_name(action) + " "@ + kind_name(policy_type)
                + " for "@ + target@,
            final(self).machines == old(self).machines,
            final(self).metrics == old(self).metrics,
            final(self).api_keys == old(self).api_keys,
    {
        let mut details = String::from_str(policy_action_name(action));
        details.append(" ");
        details.append(policy_type_name(policy_type));
        details.append(" for ");
        details.append(target.as_str());
        let user = created_by.clone();
        let id = self.insert_policy(machine_id, policy_type, target, action, reason, created_by, now);
        self.log_audit("create_policy", "policy", id.as_str(), user.as_str(), details, now);
        id
    }

    /// Removes every policy named `policy_id` and records the deletion.
    pub fn delete_policy(&mut self, policy_id: &str, user: &str, now: u64)
        requires
            old(self).wf(),
        ensures
            final(self).wf(),
            final(self).policies@ == old(self).policies@.filter(|p: Policy| other_id(p, policy_id@)),
            audit_appended(old(self).audit@, final(self).audit@),
            audit_reflects(final(self).audit@.last(), "delete_policy"@, "policy"@, policy_id@, user@, now),
            final(self).machines == old(self).machines,
            final(self).metrics == old(self).metrics,
            final(self).api_keys == old(self).api_keys,
    {
        let target = policy_id.to_owned();
        let mut kept: Vec<Policy> = Vec::new();
        let mut i: usize = 0;
        while i < self.policies.len()
            invariant
                target@ == policy_id@,
                i <= self.policies@.len(),
                kept@ == self.policies@.subrange(0, i as int).filter(|p: Policy| other_id(p, policy_id@)),
                crate::policy::policy_ids_unique(self.policies@),
                crate::policy::policy_ids_unique(kept@),
                forall|k: int| 0 <= k < kept@.len() ==> exists|j: int| 0 <= j < i && #[trigger] kept@[k] == self.policies@[j],
            decreases self.policies@.len() - i,
        {
            let p = &self.policies[i];
            proof {
                assert(self.policies@.subrange(0, i + 1) =~= self.policies@.subrange(0, i as int).push(*p));
                self.policies@.subrange(0, i as int).lemma_filter_push(
                    *p,
                    |q: Policy| other_id(q, policy_id@),
                );
            }
            if p.id != target {
                let ghost before = kept@;
                kept.push(copy_policy(p));
                assert forall|a: int, b: int| 0 <= a < kept@.len() && 0 <= b < kept@.len() && a != b
                    implies kept@[a].id@ != kept@[b].id@ by {
                    if a < before.len() && b < before.len() {
                    } else if a < before.len() {
                        let j = choose|j: int| 0 <= j < i && before[a] == self.policies@[j];
                        assert(self.policies@[j].id@ != self.policies@[i as int].id@);
                    } else {
                        let j = choose|j: int| 0 <= j < i && before[b] == self.policies@[j];
                        assert(self.policies@[j].id@ != self.policies@[i as int].id@);
                    }
                }
                assert forall|k: int| 0 <= k < kept@.len() implies exists|j: int| 0 <= j < i + 1 && #[trigger] kept@[k]
                    == self.policies@[j] by {
                    if k < before.len() {
                        let j = choose|j: int| 0 <= j < i && before[k] == self.policies@[j];
                    } else {
                        assert(kept@[k] == self.policies@[i as int]);
                    }
                }
            }
            i = i + 1;
        }
        assert(self.policies@.subrange(0, self.policies@.len() as int) =~= self.policies@);
        self.policies = kept;
        self.log_audit("delete_policy", "policy", policy_id, user, String::from_str("Policy deleted"), now);
    }

    /// Enables or disables every policy named `policy_id`, keeping it and its
    /// audit trail, and records the change.
    pub fn set_policy_enabled(&mut self, policy_id: &str, enabled: bool, user: &str, now: u64)
        requires
            old(self).wf(),
        ensures
            final(self).wf(),
            flags_set(old(self).policies@, policy_id@, enabled, final(self).policies@),
            audit_appended(old(self).audit@, final(self).audit@),
            audit_reflects(
                final(self).audit@.last(),
                if enabled { "enable_policy"@ } else { "disable_policy"@ },
                "policy"@,
                policy_id@,
                user@,
                now,
            ),
            final(self).machines == old(self).machines,
            final(self).metrics == old(self).metrics,
            final(self).api_keys == old(self).api_keys,
    {
        let target = policy_id.to_owned();
        let ghost orig = self.policies@;
        let mut i: usize = 0;
        while i < self.policies.len()
            invariant
                target@ == policy_id@,
                self.machines == old(self).machines,
                self.metrics == old(self).metrics,
                self.audit == old(self).audit,
                self.api_keys == old(self).api_keys,
                self.policies@.len() == orig.len(),
                i <= orig.len(),
                forall|k: int|
                    0 <= k < i ==> #[trigger] self.policies@[k] == if orig[k].id@ == policy_id@ {
                        with_enabled(orig[k], enabled)
                    } else {
                        orig[k]
                    },
                forall|k: int| i <= k < orig.len() ==> #[trigger] self.policies@[k] == orig[k],
            decreases orig.len() - i,
        {
            if self.policies[i].id == target {
                let mut p = copy_policy(&self.policies[i]);
                p.enabled = enabled;
                self.policies.set(i, p);
            }
            i = i + 1;
        }
        assert forall|a: int, b: int| 0 <= a < self.policies@.len() && 0 <= b < self.policies@.len() && a != b
            implies self.policies@[a].id@ != self.policies@[b].id@ by {
            assert(orig[a].id@ != orig[b].id@);
        }
        let action = if enabled { "enable_policy" } else { "disable_policy" };
        self.log_audit(action, "policy", policy_id, user, String::from_str("Policy flag changed"), now);
    }

    /// With a machine: the policies it receives. Without: every stored policy.
    pub fn list_policies(&self, machine_id: Option<&str>) -> (r: Vec<Policy>)
        ensures
            match machine_id {
                Some(m) => r@ == selection(self.policies@, m@),
                None => r@ == self.policies@,
            },
    {
        match machine_id {
            Some(m) => select_policies(&self.policies, m),
            None => {
                let mut out: Vec<Policy> = Vec::new();
                let mut i: usize = 0;
                while i < self.policies.len()
                    invariant
                        i <= self.policies@.len(),
                        out@ == self.policies@.subrange(0, i as int),
                    decreases self.policies@.len() - i,
                {
                    out.push(copy_policy(&self.policies[i]));
                    i = i + 1;
                }
                assert(out@ =~= self.policies@);
                out
            },
        }
    }
}

/// Disabling a policy takes it out of every machine's selection, while the
/// audit entries recorded before stay as they were.
pub proof fn lemma_disabled_policy_unselected(
    old: FleetStore,
    new: FleetStore,
    policy_id: Seq<char>,
    machine_id: Seq<char>,
)
    requires
        flags_set(old.policies@, policy_id, false, new.policies@),
        audit_appended(old.audit@, new.audit@),
    ensures
        forall|k: int|
            0 <= k < selection(new.policies@, machine_id).len() ==> #[trigger] selection(
                new.policies@,
                machine_id,
            )[k].id@ != policy_id,
        new.audit@.subrange(0, old.audit@.len() as int) == old.audit@,
{
    let ps = new.policies@;
    let pred = |q: Policy| applies_to(q, machine_id);
    assert forall|k: int| 0 <= k < selection(ps, machine_id).len() implies #[trigger] selection(
        ps,
        machine_id,
    )[k].id@ != policy_id by {
        let x = selection(ps, machine_id)[k];
        ps.lemma_filter_pred(pred, k);
        assert(ps.filter(pred).contains(x));
        ps.lemma_filter_contains_rev(pred, x);
        let i = choose|i: int| 0 <= i < ps.len() && ps[i] == x;
        assert(ps[i] == if old.policies@[i].id@ == policy_id {
            with_enabled(old.policies@[i], false)
        } else {
            old.policies@[i]
        });
    }
}

} // verus!
