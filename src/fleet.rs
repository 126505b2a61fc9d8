use vstd::prelude::*;
use vstd::string::StringExecFns;
use crate::model::{AuditLog, Machine, MachineFilters, Policy, PolicyAction, PolicyType, ScreenTimeEntry, SoftwareEntry};
use crate::store::{FleetStore, MachineState, machine_index};
use crate::admin::{audit_appended, audit_reflects};
use crate::policy::copy_opt_string;
use crate::text::{contains_folded, lower_of, seq_contains};

verus! {

/// A machine counts as online while its last report is younger than this, in seconds.
pub const ONLINE_WINDOW_SECS: u64 = 7200;

/// Whether a machine last seen at `last_seen` is online at `now`.
pub open spec fn online(last_seen: u64, now: u64) -> bool {
    (now as int) - (last_seen as int) < ONLINE_WINDOW_SECS as int
}

/// Whether a machine last seen at `last_seen` is online at `now`.
pub fn is_machine_online(last_seen: u64, now: u64) -> (r: bool)
    ensures
        r == online(last_seen, now),
{
    now < last_seen || now - last_seen < ONLINE_WINDOW_SECS
}

/// One row of the fleet listing.
pub struct MachineListing {
    pub machine_id: String,
    pub hostname: String,
    pub custom_name: Option<String>,
    pub os_name: String,
    pub ram_total_mb: u64,
    pub last_seen: u64,
    pub disk_count: usize,
    pub software_count: usize,
    pub process_count: usize,
    pub is_online: bool,
}

/// The listing row of a machine's state at time `now`.
pub open spec fn listing_spec(st: MachineState, now: u64) -> MachineListing {
    MachineListing {
        machine_id: st.record.machine_id,
        hostname: st.record.hostname,
        custom_name: st.record.custom_name,
        os_name: st.record.os_name,
        ram_total_mb: st.record.ram_total_mb,
        last_seen: st.record.last_seen,
        disk_count: st.disks@.len() as usize,
        software_count: st.software@.len() as usize,
        process_count: st.processes@.len() as usize,
        is_online: online(st.record.last_seen, now),
    }
}

pub open spec fn listing_reflects(l: MachineListing, st: MachineState, now: u64) -> bool {
    l == listing_spec(st, now)
}

/// Last-seen times never increase along `ls`.
pub open spec fn newest_first(ls: Seq<MachineListing>) -> bool {
    forall|i: int, j: int| 0 <= i < j < ls.len() ==> ls[i].last_seen >= ls[j].last_seen
}

fn copy_listing(l: &MachineListing) -> (r: MachineListing)
    ensures
        r == *l,
{
    MachineListing {
        machine_id: l.machine_id.clone(),
        hostname: l.hostname.clone(),
        custom_name: copy_opt_string(&l.custom_name),
        os_name: l.os_name.clone(),
        ram_total_mb: l.ram_total_mb,
        last_seen: l.last_seen,
        disk_count: l.disk_count,
        software_count: l.software_count,
        process_count: l.process_count,
        is_online: l.is_online,
    }
}

/// The rows of a listing, most recently seen first.
pub fn sort_listings(list: &Vec<MachineListing>) -> (r: Vec<MachineListing>)
    ensures
        newest_first(r@),
        r@.to_multiset() == list@.to_multiset(),
{
    broadcast use vstd::seq_lib::group_to_multiset_ensures;

    let mut out: Vec<MachineListing> = Vec::new();
    let mut i: usize = 0;
    while i < list.len()
        invariant
            i <= list@.len(),
            newest_first(out@),
            out@.to_multiset() == list@.subrange(0, i as int).to_multiset(),
        decreases list@.len() - i,
    {
        let x = &list[i];
        let mut p: usize = 0;
        while p < out.len() && out[p].last_seen >= x.last_seen
            invariant
                p <= out@.len(),
                forall|j: int| 0 <= j < p ==> (#[trigger] out@[j]).last_seen >= x.last_seen,
            decreases out@.len() - p,
        {
            p = p + 1;
        }
        let ghost before = out@;
        out.insert(p, copy_listing(x));
        proof {
            vstd::seq_lib::to_multiset_insert(before, p as int, *x);
            assert(list@.subrange(0, i + 1) =~= list@.subrange(0, i as int).push(*x));
            vstd::seq_lib::to_multiset_build(list@.subrange(0, i as int), *x);
            assert forall|a: int, b: int| 0 <= a < b < out@.len() implies out@[a].last_seen >= out@[b].last_seen by {
                if b < p {
                    assert(out@[a] == before[a] && out@[b] == before[b]);
                } else if b == p {
                    assert(out@[a] == before[a]);
                } else if a < p {
                    assert(out@[a] == before[a] && out@[b] == before[b - 1]);
                    assert(before[b - 1].last_seen <= before[p as int].last_seen);
                } else if a == p {
                    assert(out@[b] == before[b - 1]);
                    assert(before[b - 1].last_seen <= before[p as int].last_seen);
                } else {
                    assert(out@[a] == before[a - 1] && out@[b] == before[b - 1]);
                }
            }
        }
        i = i + 1;
    }
    assert(list@.subrange(0, list@.len() as int) =~= list@);
    out
}

fn listing_of(st: &MachineState, now: u64) -> (r: MachineListing)
    ensures
        listing_reflects(r, *st, now),
{
    MachineListing {
        machine_id: st.record.machine_id.clone(),
        hostname: st.record.hostname.clone(),
        custom_name: copy_opt_string(&st.record.custom_name),
        os_name: st.record.os_name.clone(),
        ram_total_mb: st.record.ram_total_mb,
        last_seen: st.record.last_seen,
        disk_count: st.disks.len(),
        software_count: st.software.len(),
        process_count: st.processes.len(),
        is_online: is_machine_online(st.record.last_seen, now),
    }
}

pub open spec fn any_equal(xs: Seq<String>, v: Seq<char>) -> bool {
    exists|i: int| 0 <= i < xs.len() && (#[trigger] xs[i])@ == v
}

pub open spec fn any_shared(xs: Seq<String>, ys: Seq<String>) -> bool {
    exists|i: int| 0 <= i < ys.len() && any_equal(xs, (#[trigger] ys[i])@)
}

pub open spec fn search_hits(m: Machine, text: Seq<char>) -> bool {
    seq_contains(lower_of(m.hostname@), lower_of(text)) || match m.custom_name {
        Some(c) => seq_contains(lower_of(c@), lower_of(text)),
        None => false,
    }
}

/// The status criterion holds: `online` and `offline` ask for that status.
pub open spec fn status_matches(status: Seq<char>, is_online: bool) -> bool {
    &&& status == "online"@ ==> is_online
    &&& status == "offline"@ ==> !is_online
}

/// Machine `m` meets every criterion of `q` at time `now`.
pub open spec fn query_matches(q: MachineFilters, m: Machine, now: u64) -> bool {
    &&& (q.os matches Some(names) ==> any_equal(names@, m.os_name@))
    &&& (q.status matches Some(st) ==> status_matches(st@, online(m.last_seen, now)))
    &&& (q.tags matches Some(ts) ==> any_shared(m.tags@, ts@))
    &&& (q.min_ram matches Some(lo) ==> m.ram_total_mb as int >= lo as int)
    &&& (q.max_ram matches Some(hi) ==> m.ram_total_mb as int <= hi as int)
    &&& (q.search_term matches Some(text) ==> search_hits(m, text@))
}

fn has_equal(xs: &Vec<String>, v: &String) -> (r: bool)
    ensures
        r == any_equal(xs@, v@),
{
    let mut i: usize = 0;
    while i < xs.len()
        invariant
            i <= xs@.len(),
            forall|j: int| 0 <= j < i ==> (#[trigger] xs@[j])@ != v@,
        decreases xs@.len() - i,
    {
        if xs[i] == *v {
            return true;
        }
        i = i + 1;
    }
    false
}

fn has_shared(xs: &Vec<String>, ys: &Vec<String>) -> (r: bool)
    ensures
        r == any_shared(xs@, ys@),
{
    let mut i: usize = 0;
    while i < ys.len()
        invariant
            i <= ys@.len(),
            forall|j: int| 0 <= j < i ==> !any_equal(xs@, (#[trigger] ys@[j])@),
        decreases ys@.len() - i,
    {
        if has_equal(xs, &ys[i]) {
            return true;
        }
        i = i + 1;
    }
    false
}

fn machine_matches(q: &MachineFilters, m: &Machine, now: u64) -> (r: bool)
    ensures
        r == query_matches(*q, *m, now),
{
    if let Some(names) = &q.os {
        if !has_equal(names, &m.os_name) {
            return false;
        }
    }
    if let Some(st) = &q.status {
        let up = is_machine_online(m.last_seen, now);
        if (*st == String::from_str("online") && !up) || (*st == String::from_str("offline") && up) {
            return false;
        }
    }
    if let Some(ts) = &q.tags {
        if !has_shared(&m.tags, ts) {
            return false;
        }
    }
    if let Some(lo) = q.min_ram {
        if (m.ram_total_mb as i128) < (lo as i128) {
            return false;
        }
    }
    if let Some(hi) = q.max_ram {
        if (m.ram_total_mb as i128) > (hi as i128) {
            return false;
        }
    }
    if let Some(text) = &q.search_term {
        let hit = contains_folded(m.hostname.as_str(), text.as_str()) || match &m.custom_name {
            Some(c) => contains_folded(c.as_str(), text.as_str()),
            None => false,
        };
        if !hit {
            return false;
        }
    }
    true
}

impl FleetStore {
    /// Every machine of the fleet, most recently seen first, with its table
    /// sizes and whether it is online at `now`.
    pub fn list_machines(&self, now: u64) -> (r: Vec<MachineListing>)
        ensures
            newest_first(r@),
            r@.to_multiset() == self.machines@.map_values(|st: MachineState| listing_spec(st, now)).to_multiset(),
    {
        let ghost f = |st: MachineState| listing_spec(st, now);
        let mut out: Vec<MachineListing> = Vec::new();
        let mut i: usize = 0;
        while i < self.machines.len()
            invariant
                f == (|st: MachineState| listing_spec(st, now)),
                i <= self.machines@.len(),
                out@ == self.machines@.subrange(0, i as int).map_values(f),
            decreases self.machines@.len() - i,
        {
            out.push(listing_of(&self.machines[i], now));
            assert(out@ =~= self.machines@.subrange(0, i + 1).map_values(f));
            i = i + 1;
        }
        assert(self.machines@.subrange(0, self.machines@.len() as int) =~= self.machines@);
        sort_listings(&out)
    }

    /// The machines that meet every criterion of `query`, most recently seen first.
    pub fn list_machines_filtered(&self, query: &MachineFilters, now: u64) -> (r: Vec<MachineListing>)
        ensures
            newest_first(r@),
            r@.to_multiset() == self.machines@.filter(|st: MachineState| query_matches(*query, st.record, now)).map_values(
                |st: MachineState| listing_spec(st, now),
            ).to_multiset(),
    {
        let ghost pred = |st: MachineState| query_matches(*query, st.record, now);
        let ghost f = |st: MachineState| listing_spec(st, now);
        let mut out: Vec<MachineListing> = Vec::new();
        let mut i: usize = 0;
        while i < self.machines.len()
            invariant
                pred == (|st: MachineState| query_matches(*query, st.record, now)),
                f == (|st: MachineState| listing_spec(st, now)),
                i <= self.machines@.len(),
                out@ == self.machines@.subrange(0, i as int).filter(pred).map_values(f),
            decreases self.machines@.len() - i,
        {
            let st = &self.machines[i];
            proof {
                assert(self.machines@.subrange(0, i + 1) =~= self.machines@.subrange(0, i as int).push(*st));
                self.machines@.subrange(0, i as int).lemma_filter_push(*st, pred);
            }
            let ghost before = out@;
            if machine_matches(query, &st.record, now) {
                out.push(listing_of(st, now));
                assert(out@ =~= self.machines@.subrange(0, i + 1).filter(pred).map_values(f));
            } else {
                assert(out@ =~= self.machines@.subrange(0, i + 1).filter(pred).map_values(f));
            }
            i = i + 1;
        }
        assert(self.machines@.subrange(0, self.machines@.len() as int) =~= self.machines@);
        sort_listings(&out)
    }

    /// The stored state of machine `machine_id`: its record, disks, software,
    /// processes, detail rows and screen time.
    pub fn machine_state(&self, machine_id: &str) -> (r: Option<&MachineState>)
        ensures
            match r {
                Some(st) => {
                    let k = machine_index(self.machines@, machine_id@);
                    k >= 0 && *st == self.machines@[k]
                },
                None => machine_index(self.machines@, machine_id@) == -1,
            },
    {
        match self.find_machine(machine_id) {
            Some(k) => Some(&self.machines[k]),
            None => None,
        }
    }

    /// Gives machine `machine_id` a display name and records the change.
    /// Returns whether the store knows the machine.
    pub fn rename_machine(&mut self, machine_id: &str, custom_name: &str, user: &str, now: u64) -> (found: bool)
        requires
            old(self).wf(),
        ensures
            final(self).wf(),
            found == (machine_index(old(self).machines@, machine_id@) >= 0),
            final(self).machines@.len() == old(self).machines@.len(),
            forall|j: int|
                0 <= j < old(self).machines@.len() && j != machine_index(old(self).machines@, machine_id@)
                    ==> #[trigger] final(self).machines@[j] == old(self).machines@[j],
            found ==> {
                let k = machine_index(old(self).machines@, machine_id@);
                let before = old(self).machines@[k];
                let after = final(self).machines@[k];
                &&& after.record == Machine { custom_name: after.record.custom_name, ..before.record }
                &&& after.record.custom_name matches Some(c) && c@ == custom_name@
                &&& after == MachineState { record: after.record, ..before }
            },
            found ==> audit_appended(old(self).audit@, final(self).audit@),
            found ==> final(self).audit@.last().action@ == "rename_machine"@
                && final(self).audit@.last().resource_id@ == machine_id@,
            !found ==> final(self).audit == old(self).audit,
            final(self).policies == old(self).policies,
            final(self).api_keys == old(self).api_keys,
    {
        match self.find_machine(machine_id) {
            None => false,
            Some(k) => {
                let ghost old_ms = self.machines@;
                let mut st = self.machines.remove(k);
                st.record.custom_name = Some(custom_name.to_owned());
                let ghost renamed = st;
                self.machines.insert(k, st);
                proof {
                    assert(self.machines@ =~= old_ms.update(k as int, renamed));
                    assert forall|i: int, j: int|
                        0 <= i < self.machines@.len() && 0 <= j < self.machines@.len() && i != j
                        implies self.machines@[i].record.machine_id@ != self.machines@[j].record.machine_id@ by {
                        assert(old_ms[i].record.machine_id@ != old_ms[j].record.machine_id@);
                    }
                    assert forall|i: int, j: int|
                        0 <= i < self.machines@.len() && 0 <= j < self.machines@.len() && i != j
                        implies self.machines@[i].record.id@ != self.machines@[j].record.id@ by {
                        assert(old_ms[i].record.id@ != old_ms[j].record.id@);
                    }
                }
                let mut details = String::from_str("Renamed to '");
                details.append(custom_name);
                details.append("'");
                self.log_audit("rename_machine", "machine", machine_id, user, details, now);
                true
            },
        }
    }

    /// Blocks an application on one machine, recorded as `block_software`.
    pub fn block_software(&mut self, machine_id: &str, software_name: &str, reason: &str, now: u64) -> (id: String)
        requires
            old(self).wf(),
        ensures
            final(self).wf(),
            final(self).policies@.len() == old(self).policies@.len() + 1,
            final(self).policies@.subrange(0, old(self).policies@.len() as int) == old(self).policies@,
            ({
                let p = final(self).policies@.last();
                &&& p.id == id
                &&& p.machine_id matches Some(m) && m@ == machine_id@
                &&& p.policy_type == PolicyType::Application
                &&& p.target@ == software_name@
                &&& p.action == PolicyAction::Block
                &&& p.reason@ == reason@
                &&& p.created_by@ == "admin"@
                &&& p.enabled
            }),
            audit_appended(old(self).audit@, final(self).audit@),
            audit_reflects(final(self).audit@.last(), "block_software"@, "policy"@, id@, "admin"@, now),
            final(self).audit@.last().details@ == "Blocked "@ + software_name@ + " on machine "@ + machine_id@,
    {
        let ghost before = self.policies@;
        let id = self.insert_policy(
            Some(machine_id.to_owned()),
            PolicyType::Application,
            software_name.to_owned(),
            PolicyAction::Block,
            reason.to_owned(),
            String::from_str("admin"),
            now,
        );
        assert(self.policies@.subrange(0, before.len() as int) =~= before);
        let mut details = String::from_str("Blocked ");
        details.append(software_name);
        details.append(" on machine ");
        details.append(machine_id);
        self.log_audit("block_software", "policy", id.as_str(), "admin", details, now);
        id
    }

    /// Asks the agent of one machine to terminate a process by name, recorded
    /// as `kill_process_remote` on that process.
    pub fn kill_process_remote(&mut self, machine_id: &str, process_name: &str, now: u64) -> (id: String)
        requires
            old(self).wf(),
        ensures
            final(self).wf(),
            final(self).policies@.len() == old(self).policies@.len() + 1,
            final(self).policies@.subrange(0, old(self).policies@.len() as int) == old(self).policies@,
            ({
                let p = final(self).policies@.last();
                &&& p.id == id
                &&& p.machine_id matches Some(m) && m@ == machine_id@
                &&& p.policy_type == PolicyType::Process
                &&& p.target@ == process_name@
                &&& p.action == PolicyAction::Block
                &&& p.reason@ == "Terminado remotamente pelo administrador"@
                &&& p.created_by@ == "admin"@
                &&& p.enabled
            }),
            audit_appended(old(self).audit@, final(self).audit@),
            audit_reflects(final(self).audit@.last(), "kill_process_remote"@, "process"@, process_name@, "admin"@, now),
            final(self).audit@.last().details@ == "Machine: "@ + machine_id@,
    {
        let ghost before = self.policies@;
        let id = self.insert_policy(
            Some(machine_id.to_owned()),
            PolicyType::Process,
            process_name.to_owned(),
            PolicyAction::Block,
            String::from_str("Terminado remotamente pelo administrador"),
            String::from_str("admin"),
            now,
        );
        assert(self.policies@.subrange(0, before.len() as int) =~= before);
        let mut details = String::from_str("Machine: ");
        details.append(machine_id);
        self.log_audit("kill_process_remote", "process", process_name, "admin", details, now);
        id
    }

    /// Adds an address policy, fleet-wide when `machine_id` is `None`.
    pub fn create_ip_policy(
        &mut self,
        machine_id: Option<String>,
        ip_address: String,
        action: PolicyAction,
        reason: String,
        now: u64,
    ) -> (id: String)
        requires
            old(self).wf(),
        ensures
            final(self).wf(),
            final(self).policies@.len() == old(self).policies@.len() + 1,
            final(self).policies@.subrange(0, old(self).policies@.len() as int) == old(self).policies@,
            ({
                let p = final(self).policies@.last();
                &&& p.id == id
                &&& p.machine_id == machine_id
                &&& p.policy_type == PolicyType::Ip
                &&& p.target == ip_address
                &&& p.action == action
                &&& p.reason == reason
                &&& p.enabled
            }),
            audit_appended(old(self).audit@, final(self).audit@),
    {
        let ghost before = self.policies@;
        let id = self.create_policy(
            machine_id,
            PolicyType::Ip,
            ip_address,
            action,
            reason,
            String::from_str("admin"),
            now,
        );
        assert(self.policies@.subrange(0, before.len() as int) =~= before);
        id
    }

    /// The newest audit entries first, at most `limit` of them (100 when unset).
    pub fn get_audit_logs(&self, limit: Option<usize>) -> (r: Vec<AuditLog>)
        ensures
            ({
                let n = self.audit@.len();
                let want = match limit {
                    Some(l) => l as int,
                    None => 100,
                };
                &&& r@.len() == if want < n { want } else { n as int }
                &&& forall|i: int| 0 <= i < r@.len() ==> #[trigger] r@[i] == self.audit@[n - 1 - i]
            }),
    {
        let want: usize = match limit {
            Some(l) => l,
            None => 100,
        };
        let n = self.audit.len();
        let count = if want < n { want } else { n };
        let mut out: Vec<AuditLog> = Vec::new();
        let mut i: usize = 0;
        while i < count
            invariant
                n == self.audit@.len(),
                count <= n,
                i <= count,
                out@.len() == i,
                forall|k: int| 0 <= k < i ==> #[trigger] out@[k] == self.audit@[n - 1 - k],
            decreases count - i,
        {
            let e = &self.audit[n - 1 - i];
            out.push(
                AuditLog {
                    id: e.id,
                    timestamp: e.timestamp,
                    action: e.action.clone(),
                    resource_type: e.resource_type.clone(),
                    resource_id: e.resource_id.clone(),
                    user: e.user.clone(),
                    details: e.details.clone(),
                },
            );
            i = i + 1;
        }
        out
    }
}

/// Side-by-side view of two machines.
pub struct ComparisonResult {
    pub machine_a: MachineListing,
    pub machine_b: MachineListing,
    /// The programs installed on only one of the two, one line each.
    pub diff_software: Vec<String>,
    pub diff_policies: Vec<String>,
}

/// Why two machines could not be compared.
#[derive(PartialEq, Eq, Structural, Clone, Copy, Debug)]
pub enum CompareError {
    /// Not exactly two machines were named.
    NeedTwoMachines,
    /// The first machine is unknown.
    FirstNotFound,
    /// The second machine is unknown.
    SecondNotFound,
}

pub open spec fn has_name(ss: Seq<SoftwareEntry>, name: Seq<char>) -> bool {
    exists|i: int| 0 <= i < ss.len() && (#[trigger] ss[i]).name@ == name
}

pub open spec fn only_line(host: Seq<char>, name: Seq<char>) -> Seq<char> {
    "Only in "@ + host + ": "@ + name
}

/// One line per program of `a` that `b` lacks, in `a`'s order.
pub open spec fn only_in(a: Seq<SoftwareEntry>, b: Seq<SoftwareEntry>, host: Seq<char>) -> Seq<Seq<char>> {
    a.filter(|s: SoftwareEntry| !has_name(b, s.name@)).map_values(|s: SoftwareEntry| only_line(host, s.name@))
}

fn name_present(ss: &Vec<SoftwareEntry>, name: &String) -> (r: bool)
    ensures
        r == has_name(ss@, name@),
{
    let mut i: usize = 0;
    while i < ss.len()
        invariant
            i <= ss@.len(),
            forall|j: int| 0 <= j < i ==> (#[trigger] ss@[j]).name@ != name@,
        decreases ss@.len() - i,
    {
        if ss[i].name == *name {
            return true;
        }
        i = i + 1;
    }
    false
}

fn push_only_in(out: &mut Vec<String>, a: &Vec<SoftwareEntry>, b: &Vec<SoftwareEntry>, host: &String)
    ensures
        crate::report::strings_view(final(out)@) == crate::report::strings_view(old(out)@) + only_in(a@, b@, host@),
{
    let ghost start = crate::report::strings_view(out@);
    let ghost pred = |s: SoftwareEntry| !has_name(b@, s.name@);
    let ghost f = |s: SoftwareEntry| only_line(host@, s.name@);
    let mut i: usize = 0;
    while i < a.len()
        invariant
            start == crate::report::strings_view(old(out)@),
            pred == (|s: SoftwareEntry| !has_name(b@, s.name@)),
            f == (|s: SoftwareEntry| only_line(host@, s.name@)),
            i <= a@.len(),
            crate::report::strings_view(out@) == start + a@.subrange(0, i as int).filter(pred).map_values(f),
        decreases a@.len() - i,
    {
        let s = &a[i];
        proof {
            assert(a@.subrange(0, i + 1) =~= a@.subrange(0, i as int).push(*s));
            a@.subrange(0, i as int).lemma_filter_push(*s, pred);
        }
        let ghost before = crate::report::strings_view(out@);
        if !name_present(b, &s.name) {
            let mut line = String::from_str("Only in ");
            line.append(host.as_str());
            line.append(": ");
            line.append(s.name.as_str());
            out.push(line);
            assert(crate::report::strings_view(out@) =~= before.push(f(*s)));
            assert(crate::report::strings_view(out@) =~= start + a@.subrange(0, i + 1).filter(pred).map_values(f));
        } else {
            assert(crate::report::strings_view(out@) =~= start + a@.subrange(0, i + 1).filter(pred).map_values(f));
        }
        i = i + 1;
    }
    assert(a@.subrange(0, a@.len() as int) =~= a@);
}

/// An integer summary of the fleet.
pub struct FleetStats {
    pub total_machines: usize,
    pub online_machines: usize,
    pub total_policies: usize,
    pub active_policies: usize,
}

pub open spec fn is_online_state(st: MachineState, now: u64) -> bool {
    online(st.record.last_seen, now)
}

pub open spec fn is_active(p: Policy) -> bool {
    p.enabled
}

impl FleetStore {
    /// Lists the programs installed on only one of two machines, those of the
    /// first machine first.
    pub fn compare_machines(&self, machine_ids: &Vec<String>, now: u64) -> (r: Result<ComparisonResult, CompareError>)
        ensures
            machine_ids@.len() != 2 ==> r == Err::<ComparisonResult, CompareError>(CompareError::NeedTwoMachines),
            machine_ids@.len() == 2 ==> {
                let ia = machine_index(self.machines@, machine_ids@[0]@);
                let ib = machine_index(self.machines@, machine_ids@[1]@);
                &&& ia < 0 <==> r == Err::<ComparisonResult, CompareError>(CompareError::FirstNotFound)
                &&& ia >= 0 && ib < 0 <==> r == Err::<ComparisonResult, CompareError>(CompareError::SecondNotFound)
                &&& ia >= 0 && ib >= 0 ==> r.is_ok()
                &&& r matches Ok(c) ==> {
                    let a = self.machines@[ia];
                    let b = self.machines@[ib];
                    &&& ia >= 0 && ib >= 0
                    &&& listing_reflects(c.machine_a, a, now)
                    &&& listing_reflects(c.machine_b, b, now)
                    &&& crate::report::strings_view(c.diff_software@) == only_in(a.software@, b.software@, a.record.hostname@)
                        + only_in(b.software@, a.software@, b.record.hostname@)
                    &&& c.diff_policies@.len() == 0
                }
            },
    {
        if machine_ids.len() != 2 {
            return Err(CompareError::NeedTwoMachines);
        }
        let ia = match self.find_machine(machine_ids[0].as_str()) {
            Some(k) => k,
            None => return Err(CompareError::FirstNotFound),
        };
        let ib = match self.find_machine(machine_ids[1].as_str()) {
            Some(k) => k,
            None => return Err(CompareError::SecondNotFound),
        };
        let a = &self.machines[ia];
        let b = &self.machines[ib];
        let mut diff_software: Vec<String> = Vec::new();
        assert(crate::report::strings_view(diff_software@) =~= Seq::<Seq<char>>::empty());
        push_only_in(&mut diff_software, &a.software, &b.software, &a.record.hostname);
        push_only_in(&mut diff_software, &b.software, &a.software, &b.record.hostname);
        Ok(
            ComparisonResult {
                machine_a: listing_of(a, now),
                machine_b: listing_of(b, now),
                diff_software,
                diff_policies: Vec::new(),
            },
        )
    }

    /// How many machines there are and how many are online at `now`; how many
    /// policies there are and how many are enabled.
    pub fn get_dashboard_stats(&self, now: u64) -> (r: FleetStats)
        ensures
            r.total_machines == self.machines@.len(),
            r.online_machines == self.machines@.filter(|st: MachineState| is_online_state(st, now)).len(),
            r.total_policies == self.policies@.len(),
            r.active_policies == self.policies@.filter(|p: Policy| is_active(p)).len(),
    {
        let mut online_machines: usize = 0;
        let mut i: usize = 0;
        while i < self.machines.len()
            invariant
                i <= self.machines@.len(),
                online_machines == self.machines@.subrange(0, i as int).filter(
                    |st: MachineState| is_online_state(st, now),
                ).len(),
                online_machines <= i,
            decreases self.machines@.len() - i,
        {
            proof {
                assert(self.machines@.subrange(0, i + 1) =~= self.machines@.subrange(0, i as int).push(
                    self.machines@[i as int],
                ));
                self.machines@.subrange(0, i as int).lemma_filter_push(
                    self.machines@[i as int],
                    |st: MachineState| is_online_state(st, now),
                );
            }
            if is_machine_online(self.machines[i].record.last_seen, now) {
                online_machines = online_machines + 1;
            }
            i = i + 1;
        }
        assert(self.machines@.subrange(0, self.machines@.len() as int) =~= self.machines@);
        let mut active_policies: usize = 0;
        let mut j: usize = 0;
        while j < self.policies.len()
            invariant
                j <= self.policies@.len(),
                active_policies == self.policies@.subrange(0, j as int).filter(|p: Policy| is_active(p)).len(),
                active_policies <= j,
            decreases self.policies@.len() - j,
        {
            proof {
                assert(self.policies@.subrange(0, j + 1) =~= self.policies@.subrange(0, j as int).push(
                    self.policies@[j as int],
                ));
                self.policies@.subrange(0, j as int).lemma_filter_push(self.policies@[j as int], |p: Policy| is_active(p));
            }
            if self.policies[j].enabled {
                active_policies = active_policies + 1;
            }
            j = j + 1;
        }
        assert(self.policies@.subrange(0, self.policies@.len() as int) =~= self.policies@);
        FleetStats {
            total_machines: self.machines.len(),
            online_machines,
            total_policies: self.policies.len(),
            active_policies,
        }
    }
}

/// A screen-time entry on the requested day, or any entry when no day is given.
pub open spec fn on_day(e: ScreenTimeEntry, date: Option<u64>) -> bool {
    date matches Some(d) ==> e.date == d
}

/// Totals never increase along `es`.
pub open spec fn by_total_desc(es: Seq<ScreenTimeEntry>) -> bool {
    forall|i: int, j: int| 0 <= i < j < es.len() ==> es[i].total_seconds >= es[j].total_seconds
}

fn copy_screen_entry(e: &ScreenTimeEntry) -> (r: ScreenTimeEntry)
    ensures
        r == *e,
{
    ScreenTimeEntry { app_name: e.app_name.clone(), total_seconds: e.total_seconds, date: e.date }
}

impl FleetStore {
    /// The screen time of machine `machine_id`, on day `date` if one is given,
    /// largest total first; nothing for an unknown machine.
    pub fn get_screen_time(&self, machine_id: &str, date: Option<u64>) -> (r: Vec<ScreenTimeEntry>)
        ensures
            ({
                let k = machine_index(self.machines@, machine_id@);
                &&& k < 0 ==> r@.len() == 0
                &&& k >= 0 ==> {
                    &&& by_total_desc(r@)
                    &&& r@.to_multiset() == self.machines@[k].screen_time@.filter(
                        |e: ScreenTimeEntry| on_day(e, date),
                    ).to_multiset()
                }
            }),
    {
        broadcast use vstd::seq_lib::group_to_multiset_ensures;

        let k = match self.find_machine(machine_id) {
            Some(k) => k,
            None => return Vec::new(),
        };
        let entries = &self.machines[k].screen_time;
        let ghost pred = |e: ScreenTimeEntry| on_day(e, date);
        let mut out: Vec<ScreenTimeEntry> = Vec::new();
        let mut i: usize = 0;
        assert(entries@.subrange(0, 0).filter(pred) =~= Seq::<ScreenTimeEntry>::empty());
        while i < entries.len()
            invariant
                pred == (|e: ScreenTimeEntry| on_day(e, date)),
                i <= entries@.len(),
                by_total_desc(out@),
                out@.to_multiset() == entries@.subrange(0, i as int).filter(pred).to_multiset(),
            decreases entries@.len() - i,
        {
            let e = &entries[i];
            proof {
                assert(entries@.subrange(0, i + 1) =~= entries@.subrange(0, i as int).push(*e));
                entries@.subrange(0, i as int).lemma_filter_push(*e, pred);
            }
            let wanted = match date {
                Some(d) => e.date == d,
                None => true,
            };
            if wanted {
                let mut p: usize = 0;
                while p < out.len() && out[p].total_seconds >= e.total_seconds
                    invariant
                        p <= out@.len(),
                        forall|j: int| 0 <= j < p ==> (#[trigger] out@[j]).total_seconds >= e.total_seconds,
                    decreases out@.len() - p,
                {
                    p = p + 1;
                }
                let ghost before = out@;
                out.insert(p, copy_screen_entry(e));
                proof {
                    vstd::seq_lib::to_multiset_insert(before, p as int, *e);
                    vstd::seq_lib::to_multiset_build(entries@.subrange(0, i as int).filter(pred), *e);
                    assert forall|a: int, b: int| 0 <= a < b < out@.len() implies out@[a].total_seconds
                        >= out@[b].total_seconds by {
                        if b < p {
                            assert(out@[a] == before[a] && out@[b] == before[b]);
                        } else if b == p {
                            assert(out@[a] == before[a]);
                        } else if a < p {
                            assert(out@[a] == before[a] && out@[b] == before[b - 1]);
                            assert(before[b - 1].total_seconds <= before[p as int].total_seconds);
                        } else if a == p {
                            assert(out@[b] == before[b - 1]);
                            assert(before[b - 1].total_seconds <= before[p as int].total_seconds);
                        } else {
                            assert(out@[a] == before[a - 1] && out@[b] == before[b - 1]);
                        }
                    }
                }
            }
            i = i + 1;
        }
        assert(entries@.subrange(0, entries@.len() as int) =~= entries@);
        out
    }
}

} // verus!
