use vstd::prelude::*;
use vstd::string::StringExecFns;
use crate::model::{DiskInfo, MetricSample, ProcessInfo, SoftwareEntry};
use crate::software::{chars_less, lemma_lt_irreflexive, lemma_lt_transitive, name_lt};
use crate::store::{FleetStore, MachineState, machine_index};
use crate::fleet::{is_machine_online, online};
use crate::text::chars_of;

verus! {

broadcast use vstd::seq_lib::group_to_multiset_ensures;

/// Names never decrease along `ss`.
pub open spec fn software_by_name(ss: Seq<SoftwareEntry>) -> bool {
    forall|i: int, j: int| 0 <= i < j < ss.len() ==> !name_lt(ss[j].name@, ss[i].name@)
}

/// Mount points never decrease along `ds`.
pub open spec fn disks_by_mount(ds: Seq<DiskInfo>) -> bool {
    forall|i: int, j: int| 0 <= i < j < ds.len() ==> !name_lt(ds[j].mount_point@, ds[i].mount_point@)
}

/// Capture times never increase along `ps`.
pub open spec fn processes_newest_first(ps: Seq<ProcessInfo>) -> bool {
    forall|i: int, j: int| 0 <= i < j < ps.len() ==> ps[i].captured_at >= ps[j].captured_at
}

/// Most process samples a query returns.
pub const PROCESS_QUERY_LIMIT: usize = 1000;

/// Inserting `x` at `p`, before the first element that sorts after it, keeps a
/// list sorted.
proof fn lemma_insert_keeps_order(keys: Seq<Seq<char>>, x: Seq<char>, p: int)
    requires
        0 <= p <= keys.len(),
        forall|i: int, j: int| 0 <= i < j < keys.len() ==> !name_lt(keys[j], keys[i]),
        forall|k: int| 0 <= k < p ==> !name_lt(x, #[trigger] keys[k]),
        p < keys.len() ==> name_lt(x, keys[p]),
    ensures
        forall|i: int, j: int|
            0 <= i < j < keys.insert(p, x).len() ==> !name_lt(keys.insert(p, x)[j], keys.insert(p, x)[i]),
{
    let n = keys.insert(p, x);
    assert forall|j: int| p <= j < keys.len() implies !name_lt(#[trigger] keys[j], x) by {
        if name_lt(keys[j], x) {
            lemma_lt_transitive(keys[j], x, keys[p]);
            lemma_lt_irreflexive(keys[p]);
        }
    }
    assert forall|i: int, j: int| 0 <= i < j < n.len() implies !name_lt(n[j], n[i]) by {
        if j < p {
            assert(n[i] == keys[i] && n[j] == keys[j]);
        } else if j == p {
            assert(n[i] == keys[i]);
        } else if i < p {
            assert(n[i] == keys[i] && n[j] == keys[j - 1]);
        } else if i == p {
            assert(n[j] == keys[j - 1]);
        } else {
            assert(n[i] == keys[i - 1] && n[j] == keys[j - 1]);
        }
    }
}

pub open spec fn software_names(ss: Seq<SoftwareEntry>) -> Seq<Seq<char>> {
    ss.map_values(|s: SoftwareEntry| s.name@)
}

pub open spec fn disk_mounts(ds: Seq<DiskInfo>) -> Seq<Seq<char>> {
    ds.map_values(|d: DiskInfo| d.mount_point@)
}

fn copy_software(s: &SoftwareEntry) -> (r: SoftwareEntry)
    ensures
        r == *s,
{
    SoftwareEntry {
        name: s.name.clone(),
        version: s.version.clone(),
        publisher: s.publisher.clone(),
        install_date: s.install_date.clone(),
    }
}

fn copy_disk(d: &DiskInfo) -> (r: DiskInfo)
    ensures
        r == *d,
{
    DiskInfo {
        name: d.name.clone(),
        mount_point: d.mount_point.clone(),
        total_mb: d.total_mb,
        free_mb: d.free_mb,
        fs_type: d.fs_type.clone(),
    }
}

fn copy_process(q: &ProcessInfo) -> (r: ProcessInfo)
    ensures
        r == *q,
{
    ProcessInfo {
        pid: q.pid,
        name: q.name.clone(),
        exe_path: q.exe_path.clone(),
        memory_kb: q.memory_kb,
        cpu_hundredths: q.cpu_hundredths,
        captured_at: q.captured_at,
    }
}

/// The programs of a list ordered by name; equal names keep their order.
pub fn sort_software(list: &Vec<SoftwareEntry>) -> (r: Vec<SoftwareEntry>)
    ensures
        software_by_name(r@),
        r@.to_multiset() == list@.to_multiset(),
{
    let mut out: Vec<SoftwareEntry> = Vec::new();
    let mut keys: Vec<Vec<char>> = Vec::new();
    let mut i: usize = 0;
    while i < list.len()
        invariant
            i <= list@.len(),
            keys@.len() == out@.len(),
            forall|k: int| 0 <= k < out@.len() ==> (#[trigger] keys@[k])@ == out@[k].name@,
            software_by_name(out@),
            out@.to_multiset() == list@.subrange(0, i as int).to_multiset(),
        decreases list@.len() - i,
    {
        let x = &list[i];
        let xk = chars_of(x.name.as_str());
        let mut p: usize = 0;
        while p < out.len() && !chars_less(&xk, &keys[p])
            invariant
                p <= out@.len(),
                keys@.len() == out@.len(),
                forall|k: int| 0 <= k < out@.len() ==> (#[trigger] keys@[k])@ == out@[k].name@,
                xk@ == x.name@,
                forall|k: int| 0 <= k < p ==> !name_lt(x.name@, (#[trigger] out@[k]).name@),
            decreases out@.len() - p,
        {
            p = p + 1;
        }
        let ghost before = out@;
        let ghost old_keys = keys@;
        proof {
            let ns = software_names(before);
            assert forall|a: int, b: int| 0 <= a < b < ns.len() implies !name_lt(ns[b], ns[a]) by {}
            assert forall|k: int| 0 <= k < p implies !name_lt(x.name@, #[trigger] ns[k]) by {
                assert(ns[k] == before[k].name@);
            }
            lemma_insert_keeps_order(ns, x.name@, p as int);
            assert(software_names(before.insert(p as int, *x)) =~= ns.insert(p as int, x.name@));
            vstd::seq_lib::to_multiset_insert(before, p as int, *x);
            assert(list@.subrange(0, i + 1) =~= list@.subrange(0, i as int).push(*x));
        }
        out.insert(p, copy_software(x));
        keys.insert(p, xk);
        proof {
            let ns2 = software_names(out@);
            assert forall|a: int, b: int| 0 <= a < b < out@.len() implies !name_lt(out@[b].name@, out@[a].name@) by {
                assert(ns2[a] == out@[a].name@ && ns2[b] == out@[b].name@);
            }
            assert forall|k: int| 0 <= k < out@.len() implies (#[trigger] keys@[k])@ == out@[k].name@ by {
                if k < p {
                    assert(keys@[k] == old_keys[k] && out@[k] == before[k]);
                } else if k > p {
                    assert(keys@[k] == old_keys[k - 1] && out@[k] == before[k - 1]);
                }
            }
        }
        i = i + 1;
    }
    assert(list@.subrange(0, list@.len() as int) =~= list@);
    out
}

/// The disks of a list ordered by mount point; equal mount points keep their order.
pub fn sort_disks(list: &Vec<DiskInfo>) -> (r: Vec<DiskInfo>)
    ensures
        disks_by_mount(r@),
        r@.to_multiset() == list@.to_multiset(),
{
    let mut out: Vec<DiskInfo> = Vec::new();
    let mut keys: Vec<Vec<char>> = Vec::new();
    let mut i: usize = 0;
    while i < list.len()
        invariant
            i <= list@.len(),
            keys@.len() == out@.len(),
            forall|k: int| 0 <= k < out@.len() ==> (#[trigger] keys@[k])@ == out@[k].mount_point@,
            disks_by_mount(out@),
            out@.to_multiset() == list@.subrange(0, i as int).to_multiset(),
        decreases list@.len() - i,
    {
        let x = &list[i];
        let xk = chars_of(x.mount_point.as_str());
        let mut p: usize = 0;
        while p < out.len() && !chars_less(&xk, &keys[p])
            invariant
                p <= out@.len(),
                keys@.len() == out@.len(),
                forall|k: int| 0 <= k < out@.len() ==> (#[trigger] keys@[k])@ == out@[k].mount_point@,
                xk@ == x.mount_point@,
                forall|k: int| 0 <= k < p ==> !name_lt(x.mount_point@, (#[trigger] out@[k]).mount_point@),
            decreases out@.len() - p,
        {
            p = p + 1;
        }
        let ghost before = out@;
        let ghost old_keys = keys@;
        proof {
            let ns = disk_mounts(before);
            assert forall|a: int, b: int| 0 <= a < b < ns.len() implies !name_lt(ns[b], ns[a]) by {}
            assert forall|k: int| 0 <= k < p implies !name_lt(x.mount_point@, #[trigger] ns[k]) by {
                assert(ns[k] == before[k].mount_point@);
            }
            lemma_insert_keeps_order(ns, x.mount_point@, p as int);
            assert(disk_mounts(before.insert(p as int, *x)) =~= ns.insert(p as int, x.mount_point@));
            vstd::seq_lib::to_multiset_insert(before, p as int, *x);
            assert(list@.subrange(0, i + 1) =~= list@.subrange(0, i as int).push(*x));
        }
        out.insert(p, copy_disk(x));
        keys.insert(p, xk);
        proof {
            let ns2 = disk_mounts(out@);
            assert forall|a: int, b: int| 0 <= a < b < out@.len() implies !name_lt(
                out@[b].mount_point@,
                out@[a].mount_point@,
            ) by {
                assert(ns2[a] == out@[a].mount_point@ && ns2[b] == out@[b].mount_point@);
            }
            assert forall|k: int| 0 <= k < out@.len() implies (#[trigger] keys@[k])@ == out@[k].mount_point@ by {
                if k < p {
                    assert(keys@[k] == old_keys[k] && out@[k] == before[k]);
                } else if k > p {
                    assert(keys@[k] == old_keys[k - 1] && out@[k] == before[k - 1]);
                }
            }
        }
        i = i + 1;
    }
    assert(list@.subrange(0, list@.len() as int) =~= list@);
    out
}

/// The samples of a list, newest first.
pub fn sort_processes(list: &Vec<ProcessInfo>) -> (r: Vec<ProcessInfo>)
    ensures
        processes_newest_first(r@),
        r@.to_multiset() == list@.to_multiset(),
{
    let mut out: Vec<ProcessInfo> = Vec::new();
    let mut i: usize = 0;
    while i < list.len()
        invariant
            i <= list@.len(),
            processes_newest_first(out@),
            out@.to_multiset() == list@.subrange(0, i as int).to_multiset(),
        decreases list@.len() - i,
    {
        let x = &list[i];
        let mut p: usize = 0;
        while p < out.len() && out[p].captured_at >= x.captured_at
            invariant
                p <= out@.len(),
                forall|j: int| 0 <= j < p ==> (#[trigger] out@[j]).captured_at >= x.captured_at,
            decreases out@.len() - p,
        {
            p = p + 1;
        }
        let ghost before = out@;
        out.insert(p, copy_process(x));
        proof {
            vstd::seq_lib::to_multiset_insert(before, p as int, *x);
            assert(list@.subrange(0, i + 1) =~= list@.subrange(0, i as int).push(*x));
            assert forall|a: int, b: int| 0 <= a < b < out@.len() implies out@[a].captured_at >= out@[b].captured_at by {
                if b < p {
                    assert(out@[a] == before[a] && out@[b] == before[b]);
                } else if b == p {
                    assert(out@[a] == before[a]);
                } else if a < p {
                    assert(out@[a] == before[a] && out@[b] == before[b - 1]);
                    assert(before[b - 1].captured_at <= before[p as int].captured_at);
                } else if a == p {
                    assert(out@[b] == before[b - 1]);
                    assert(before[b - 1].captured_at <= before[p as int].captured_at);
                } else {
                    assert(out@[a] == before[a - 1] && out@[b] == before[b - 1]);
                }
            }
        }
        i = i + 1;
    }
    assert(list@.subrange(0, list@.len() as int) =~= list@);
    out
}

impl FleetStore {
    /// The installed programs of machine `machine_id`, by name; nothing for an
    /// unknown machine.
    pub fn get_software(&self, machine_id: &str) -> (r: Vec<SoftwareEntry>)
        ensures
            ({
                let k = machine_index(self.machines@, machine_id@);
                &&& k < 0 ==> r@.len() == 0
                &&& k >= 0 ==> software_by_name(r@) && r@.to_multiset() == self.machines@[k].software@.to_multiset()
            }),
    {
        match self.find_machine(machine_id) {
            Some(k) => sort_software(&self.machines[k].software),
            None => Vec::new(),
        }
    }

    /// The disks of machine `machine_id`, by mount point; nothing for an
    /// unknown machine.
    pub fn get_disks(&self, machine_id: &str) -> (r: Vec<DiskInfo>)
        ensures
            ({
                let k = machine_index(self.machines@, machine_id@);
                &&& k < 0 ==> r@.len() == 0
                &&& k >= 0 ==> disks_by_mount(r@) && r@.to_multiset() == self.machines@[k].disks@.to_multiset()
            }),
    {
        match self.find_machine(machine_id) {
            Some(k) => sort_disks(&self.machines[k].disks),
            None => Vec::new(),
        }
    }

    /// The newest process samples of machine `machine_id`, at most 1000; nothing
    /// for an unknown machine.
    pub fn get_processes(&self, machine_id: &str) -> (r: Vec<ProcessInfo>)
        ensures
            ({
                let k = machine_index(self.machines@, machine_id@);
                &&& k < 0 ==> r@.len() == 0
                &&& k >= 0 ==> exists|all: Seq<ProcessInfo>|
                    {
                        &&& processes_newest_first(all)
                        &&& all.to_multiset() == self.machines@[k].processes@.to_multiset()
                        &&& r@ == all.subrange(
                            0,
                            if all.len() < PROCESS_QUERY_LIMIT { all.len() as int } else { PROCESS_QUERY_LIMIT as int },
                        )
                    }
            }),
    {
        match self.find_machine(machine_id) {
            Some(k) => {
                let mut all = sort_processes(&self.machines[k].processes);
                let ghost full = all@;
                if all.len() > PROCESS_QUERY_LIMIT {
                    all.truncate(PROCESS_QUERY_LIMIT);
                }
                assert(all@ == full.subrange(
                    0,
                    if full.len() < PROCESS_QUERY_LIMIT { full.len() as int } else { PROCESS_QUERY_LIMIT as int },
                ));
                all
            },
            None => Vec::new(),
        }
    }
}

/// A sample of machine `machine_id` (of any machine for `all`) taken no earlier
/// than `since`.
pub open spec fn in_window(m: MetricSample, machine_id: Seq<char>, since: int) -> bool {
    (m.machine_id@ == machine_id || machine_id == "all"@) && m.timestamp as int >= since
}

fn copy_metric(m: &MetricSample) -> (r: MetricSample)
    ensures
        r == *m,
{
    MetricSample {
        machine_id: m.machine_id.clone(),
        timestamp: m.timestamp,
        cpu_hundredths: m.cpu_hundredths,
        ram_used_mb: m.ram_used_mb,
        ram_total_mb: m.ram_total_mb,
    }
}

impl FleetStore {
    /// The samples of the last `hours` hours before `now`, of machine
    /// `machine_id` or, for `all`, of every machine, in the order they were taken.
    pub fn get_metrics_history(&self, machine_id: &str, hours: u64, now: u64) -> (r: Vec<MetricSample>)
        ensures
            r@ == self.metrics@.filter(|m: MetricSample| in_window(m, machine_id@, now as int - hours as int * 3600)),
    {
        let ghost since = now as int - hours as int * 3600;
        let ghost pred = |m: MetricSample| in_window(m, machine_id@, since);
        let everyone = machine_id.to_owned() == String::from_str("all");
        let mine = machine_id.to_owned();
        let span: u128 = hours as u128 * 3600;
        let mut out: Vec<MetricSample> = Vec::new();
        let mut i: usize = 0;
        while i < self.metrics.len()
            invariant
                pred == (|m: MetricSample| in_window(m, machine_id@, since)),
                since == now as int - hours as int * 3600,
                span == hours as int * 3600,
                mine@ == machine_id@,
                everyone == (machine_id@ == "all"@),
                i <= self.metrics@.len(),
                out@ == self.metrics@.subrange(0, i as int).filter(pred),
            decreases self.metrics@.len() - i,
        {
            let m = &self.metrics[i];
            proof {
                assert(self.metrics@.subrange(0, i + 1) =~= self.metrics@.subrange(0, i as int).push(*m));
                self.metrics@.subrange(0, i as int).lemma_filter_push(*m, pred);
            }
            let recent = m.timestamp as u128 + span >= now as u128;
            if (everyone || m.machine_id == mine) && recent {
                out.push(copy_metric(m));
            }
            i = i + 1;
        }
        assert(self.metrics@.subrange(0, self.metrics@.len() as int) =~= self.metrics@);
        out
    }
}

/// The periodic sample of a machine taken at `now`: its memory figures, no CPU figure.
pub open spec fn periodic_sample(st: MachineState, now: u64) -> MetricSample {
    MetricSample {
        machine_id: st.record.machine_id,
        timestamp: now,
        cpu_hundredths: 0,
        ram_used_mb: st.record.ram_used_mb,
        ram_total_mb: st.record.ram_total_mb,
    }
}

pub open spec fn online_at(st: MachineState, now: u64) -> bool {
    online(st.record.last_seen, now)
}

impl FleetStore {
    /// The periodic aggregation step: appends one sample at `now` for every
    /// machine online at `now`, in store order.
    pub fn collect_and_store_metrics(&mut self, now: u64)
        requires
            old(self).wf(),
        ensures
            final(self).wf(),
            final(self).metrics@ == old(self).metrics@ + old(self).machines@.filter(
                |st: MachineState| online_at(st, now),
            ).map_values(|st: MachineState| periodic_sample(st, now)),
            final(self).machines == old(self).machines,
            final(self).policies == old(self).policies,
            final(self).audit == old(self).audit,
            final(self).api_keys == old(self).api_keys,
    {
        broadcast use vstd::seq_lib::group_filter_ensures;

        let ghost pred = |st: MachineState| online_at(st, now);
        let ghost f = |st: MachineState| periodic_sample(st, now);
        let ghost start = self.metrics@;
        let mut i: usize = 0;
        while i < self.machines.len()
            invariant
                pred == (|st: MachineState| online_at(st, now)),
                f == (|st: MachineState| periodic_sample(st, now)),
                start == old(self).metrics@,
                self.machines == old(self).machines,
                self.policies == old(self).policies,
                self.audit == old(self).audit,
                self.api_keys == old(self).api_keys,
                i <= self.machines@.len(),
                self.metrics@ == start + self.machines@.subrange(0, i as int).filter(pred).map_values(f),
            decreases self.machines@.len() - i,
        {
            let ghost st = self.machines@[i as int];
            proof {
                assert(self.machines@.subrange(0, i + 1) =~= self.machines@.subrange(0, i as int).push(st));
                self.machines@.subrange(0, i as int).lemma_filter_push(st, pred);
            }
            if is_machine_online(self.machines[i].record.last_seen, now) {
                let sample = MetricSample {
                    machine_id: self.machines[i].record.machine_id.clone(),
                    timestamp: now,
                    cpu_hundredths: 0,
                    ram_used_mb: self.machines[i].record.ram_used_mb,
                    ram_total_mb: self.machines[i].record.ram_total_mb,
                };
                self.metrics.push(sample);
            }
            assert(self.metrics@ =~= start + self.machines@.subrange(0, i + 1).filter(pred).map_values(f));
            i = i + 1;
        }
        assert(self.machines@.subrange(0, self.machines@.len() as int) =~= self.machines@);
    }
}

} // verus!
