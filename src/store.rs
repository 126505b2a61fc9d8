use vstd::prelude::*;
use vstd::string::{StrSliceExecFns, StringExecFns};
use crate::model::{ApiKeyRecord, AuditLog, DiskInfo, HardwareDetails, Machine, MetricSample,
    NetworkDetails, Policy, ProcessInfo, ScreenTimeEntry, SecurityStatus, SoftwareEntry};

verus! {

/// Everything the collector keeps about one machine: its record and the
/// point-in-time tables keyed by it.
pub struct MachineState {
    pub record: Machine,
    pub disks: Vec<DiskInfo>,
    pub software: Vec<SoftwareEntry>,
    /// Process samples of the last 24 hours.
    pub processes: Vec<ProcessInfo>,
    pub hardware_details: Option<HardwareDetails>,
    pub network_details: Option<NetworkDetails>,
    pub security_status: Option<SecurityStatus>,
    pub screen_time: Vec<ScreenTimeEntry>,
}

/// The collector's durable fleet state, owned by one service that serializes access.
pub struct FleetStore {
    pub machines: Vec<MachineState>,
    /// Append-only history of CPU and memory figures.
    pub metrics: Vec<MetricSample>,
    pub policies: Vec<Policy>,
    /// Append-only record of administrative and enforcement actions.
    pub audit: Vec<AuditLog>,
    pub api_keys: Vec<ApiKeyRecord>,
}

/// `k` is the first position of `ms` whose machine carries `machine_id`.
pub open spec fn is_first_machine(ms: Seq<MachineState>, machine_id: Seq<char>, k: int) -> bool {
    &&& 0 <= k < ms.len()
    &&& ms[k].record.machine_id@ == machine_id
    &&& forall|j: int| 0 <= j < k ==> ms[j].record.machine_id@ != machine_id
}

/// Where the machine `machine_id` stands in `ms`, or -1.
pub open spec fn machine_index(ms: Seq<MachineState>, machine_id: Seq<char>) -> int {
    if exists|k: int| is_first_machine(ms, machine_id, k) {
        choose|k: int| is_first_machine(ms, machine_id, k)
    } else {
        -1
    }
}

pub proof fn lemma_first_machine_unique(ms: Seq<MachineState>, machine_id: Seq<char>, k: int)
    requires
        is_first_machine(ms, machine_id, k),
    ensures
        machine_index(ms, machine_id) == k,
{
    let c = choose|c: int| is_first_machine(ms, machine_id, c);
    assert(is_first_machine(ms, machine_id, c));
    if c < k {
        assert(ms[c].record.machine_id@ != machine_id);
    } else if k < c {
        assert(ms[k].record.machine_id@ != machine_id);
    }
}

pub proof fn lemma_no_machine(ms: Seq<MachineState>, machine_id: Seq<char>)
    requires
        forall|j: int| 0 <= j < ms.len() ==> ms[j].record.machine_id@ != machine_id,
    ensures
        machine_index(ms, machine_id) == -1,
{
}

/// Machine identities are unique across the store.
pub open spec fn ids_unique(ms: Seq<MachineState>) -> bool {
    forall|i: int, j: int|
        0 <= i < ms.len() && 0 <= j < ms.len() && i != j ==> ms[i].record.machine_id@
            != ms[j].record.machine_id@
}

/// Relies on `uuid::Uuid::new_v4` and its hyphenated text form: a random
/// identifier of 36 characters.
#[verifier::external_body]
pub(crate) fn new_uuid() -> (r: String)
    ensures
        r@.len() == 36,
{
    uuid::Uuid::new_v4().to_string()
}

/// A new identifier that equals none of `taken`: a random one, or, should it
/// collide, the longest taken one extended, which is longer than all of them.
pub fn fresh_id(taken: &Vec<String>) -> (r: String)
    ensures
        forall|i: int| 0 <= i < taken@.len() ==> (#[trigger] taken@[i])@ != r@,
{
    let candidate = new_uuid();
    let mut clash = false;
    let mut longest: usize = 0;
    let mut longest_len: usize = 0;
    let mut i: usize = 0;
    while i < taken.len()
        invariant
            i <= taken@.len(),
            longest_len == 0 || longest < taken@.len(),
            longest_len > 0 ==> longest_len == taken@[longest as int]@.len(),
            forall|j: int| 0 <= j < i ==> (#[trigger] taken@[j])@.len() <= longest_len,
            !clash ==> forall|j: int| 0 <= j < i ==> (#[trigger] taken@[j])@ != candidate@,
        decreases taken@.len() - i,
    {
        if taken[i] == candidate {
            clash = true;
        }
        let n = taken[i].as_str().unicode_len();
        if n > longest_len {
            longest = i;
            longest_len = n;
        }
        i = i + 1;
    }
    if !clash {
        return candidate;
    }
    let mut r = if longest_len > 0 { taken[longest].clone() } else { String::new() };
    r.append("-1");
    proof {
        reveal_strlit("-1");
        assert forall|j: int| 0 <= j < taken@.len() implies (#[trigger] taken@[j])@ != r@ by {
            assert(taken@[j]@.len() < r@.len());
        }
    }
    r
}

/// Surrogate keys are unique across the store.
pub open spec fn record_ids_unique(ms: Seq<MachineState>) -> bool {
    forall|i: int, j: int|
        0 <= i < ms.len() && 0 <= j < ms.len() && i != j ==> ms[i].record.id@ != ms[j].record.id@
}

/// The surrogate keys of the machines, in store order.
pub fn machine_ids(ms: &Vec<MachineState>) -> (r: Vec<String>)
    ensures
        r@.len() == ms@.len(),
        forall|i: int| 0 <= i < ms@.len() ==> (#[trigger] r@[i])@ == ms@[i].record.id@,
{
    let mut out: Vec<String> = Vec::new();
    let mut i: usize = 0;
    while i < ms.len()
        invariant
            i <= ms@.len(),
            out@.len() == i,
            forall|k: int| 0 <= k < i ==> (#[trigger] out@[k])@ == ms@[k].record.id@,
        decreases ms@.len() - i,
    {
        out.push(ms[i].record.id.clone());
        i = i + 1;
    }
    out
}

impl FleetStore {
    pub open spec fn wf(&self) -> bool {
        &&& ids_unique(self.machines@)
        &&& record_ids_unique(self.machines@)
        &&& crate::policy::policy_ids_unique(self.policies@)
    }

    /// An empty store.
    pub fn new() -> (r: FleetStore)
        ensures
            r.wf(),
            r.machines@.len() == 0,
            r.metrics@.len() == 0,
            r.policies@.len() == 0,
            r.audit@.len() == 0,
            r.api_keys@.len() == 0,
    {
        FleetStore {
            machines: Vec::new(),
            metrics: Vec::new(),
            policies: Vec::new(),
            audit: Vec::new(),
            api_keys: Vec::new(),
        }
    }

    /// Position of the machine `machine_id`, if the store knows it.
    pub fn find_machine(&self, machine_id: &str) -> (r: Option<usize>)
        ensures
            match r {
                Some(k) => machine_index(self.machines@, machine_id@) == k as int,
                None => {
                    &&& machine_index(self.machines@, machine_id@) == -1
                    &&& forall|j: int|
                        0 <= j < self.machines@.len() ==> #[trigger] self.machines@[j].record.machine_id@
                            != machine_id@
                },
            },
    {
        let mine = machine_id.to_owned();
        let mut i: usize = 0;
        while i < self.machines.len()
            invariant
                mine@ == machine_id@,
                i <= self.machines@.len(),
                forall|j: int| 0 <= j < i ==> self.machines@[j].record.machine_id@ != machine_id@,
            decreases self.machines@.len() - i,
        {
            if self.machines[i].record.machine_id == mine {
                proof {
                    lemma_first_machine_unique(self.machines@, machine_id@, i as int);
                }
                return Some(i);
            }
            i = i + 1;
        }
        proof {
            lemma_no_machine(self.machines@, machine_id@);
        }
        None
    }
}

} // verus!
