use vstd::prelude::*;
use vstd::string::StringExecFns;
use crate::model::{Machine, MetricSample, Policy, ProcessInfo, ScreenTimeEntry, HardwareDetails,
    NetworkDetails, SecurityStatus};
use crate::policy::{select_policies, selection};
use crate::report::{AgentReport, ProcessPayload, ScreenTimePayload, disks_reflect, hardware_reflects,
    metric_reflects, network_reflects, process_reflects, record_reflects, security_reflects,
    software_list_reflects, disks_from, software_from, user_of};
use crate::store::{FleetStore, MachineState, fresh_id, ids_unique, lemma_first_machine_unique, machine_ids, machine_index};

verus! {

broadcast use vstd::seq_lib::group_filter_ensures;

/// How long process samples are kept, in seconds.
pub const PROCESS_RETENTION_SECS: u64 = 86400;

/// Seconds in a day: screen time is kept per day.
pub const SECS_PER_DAY: u64 = 86400;

/// A process sample that is not older than the retention window at time `now`.
pub open spec fn is_recent(q: ProcessInfo, now: u64) -> bool {
    q.captured_at + PROCESS_RETENTION_SECS >= now
}

pub open spec fn recent(qs: Seq<ProcessInfo>, now: u64) -> Seq<ProcessInfo> {
    qs.filter(|q: ProcessInfo| is_recent(q, now))
}

/// The process table after a report: the recent samples kept, the reported ones added.
pub open spec fn processes_reflect(
    qs: Seq<ProcessInfo>,
    prior: Seq<ProcessInfo>,
    ps: Seq<ProcessPayload>,
    now: u64,
) -> bool {
    let kept = recent(prior, now);
    &&& qs.len() == kept.len() + ps.len()
    &&& qs.subrange(0, kept.len() as int) == kept
    &&& forall|i: int| 0 <= i < ps.len() ==> process_reflects(#[trigger] qs[kept.len() + i], ps[i], now)
}

/// `k` is the first entry of `es` for application `app` on day `day`.
pub open spec fn is_slot(es: Seq<ScreenTimeEntry>, app: Seq<char>, day: u64, k: int) -> bool {
    &&& 0 <= k < es.len()
    &&& es[k].app_name@ == app && es[k].date == day
    &&& forall|j: int| 0 <= j < k ==> !(es[j].app_name@ == app && es[j].date == day)
}

pub open spec fn slot_index(es: Seq<ScreenTimeEntry>, app: Seq<char>, day: u64) -> int {
    if exists|k: int| is_slot(es, app, day, k) {
        choose|k: int| is_slot(es, app, day, k)
    } else {
        -1
    }
}

pub open spec fn sat_add(a: u64, b: u64) -> u64 {
    if a + b > u64::MAX {
        u64::MAX
    } else {
        (a + b) as u64
    }
}

/// Adds one delta to the entry of its application and day, or starts that entry.
pub open spec fn merge_one(es: Seq<ScreenTimeEntry>, d: ScreenTimePayload, day: u64) -> Seq<ScreenTimeEntry> {
    let k = slot_index(es, d.app_name@, day);
    if k >= 0 {
        es.update(
            k,
            ScreenTimeEntry {
                app_name: es[k].app_name,
                total_seconds: sat_add(es[k].total_seconds, d.total_seconds),
                date: day,
            },
        )
    } else {
        es.push(ScreenTimeEntry { app_name: d.app_name, total_seconds: d.total_seconds, date: day })
    }
}

/// Adds every delta, in order.
pub open spec fn merge_all(es: Seq<ScreenTimeEntry>, ds: Seq<ScreenTimePayload>, day: u64) -> Seq<ScreenTimeEntry>
    decreases ds.len(),
{
    if ds.len() == 0 {
        es
    } else {
        merge_one(merge_all(es, ds.drop_last(), day), ds.last(), day)
    }
}

/// The day, counted from the Unix epoch, that holds time `t`.
pub open spec fn day_of(t: u64) -> u64 {
    (t / SECS_PER_DAY) as u64
}

pub open spec fn prior_processes(prior: Option<MachineState>) -> Seq<ProcessInfo> {
    match prior {
        Some(p) => p.processes@,
        None => Seq::<ProcessInfo>::empty(),
    }
}

pub open spec fn prior_screen_time(prior: Option<MachineState>) -> Seq<ScreenTimeEntry> {
    match prior {
        Some(p) => p.screen_time@,
        None => Seq::<ScreenTimeEntry>::empty(),
    }
}

/// The state of a machine after report `r` at time `now`, given what was stored before.
pub open spec fn state_reflects(st: MachineState, prior: Option<MachineState>, r: AgentReport, now: u64) -> bool {
    &&& record_reflects(st.record, r)
    &&& match prior {
        Some(p) => {
            &&& st.record.id == p.record.id
            &&& st.record.custom_name == p.record.custom_name
            &&& st.record.tags == p.record.tags
            &&& st.record.notes == p.record.notes
        },
        None => {
            &&& st.record.custom_name.is_none()
            &&& st.record.tags@.len() == 0
            &&& st.record.notes.is_none()
        },
    }
    &&& disks_reflect(st.disks@, r.hardware.disks@)
    &&& software_list_reflects(st.software@, r.software@)
    &&& processes_reflect(st.processes@, prior_processes(prior), r.processes@, now)
    &&& st.hardware_details.is_some() && hardware_reflects(st.hardware_details.unwrap(), r.hardware_details)
    &&& st.network_details.is_some() && network_reflects(st.network_details.unwrap(), r.network_details)
    &&& st.security_status.is_some() && security_reflects(st.security_status.unwrap(), r.security_status)
    &&& st.screen_time@ == merge_all(prior_screen_time(prior), r.screen_time@, day_of(r.collected_at))
}

/// The store after applying report `r` at time `now` to store `old`.
pub open spec fn reconciled(old: FleetStore, r: AgentReport, now: u64, new: FleetStore) -> bool {
    let k = machine_index(old.machines@, r.machine_id@);
    &&& new.policies == old.policies
    &&& new.audit == old.audit
    &&& new.api_keys == old.api_keys
    &&& new.metrics@.len() == old.metrics@.len() + 1
    &&& new.metrics@.subrange(0, old.metrics@.len() as int) == old.metrics@
    &&& metric_reflects(new.metrics@.last(), r, now)
    &&& if k >= 0 {
        &&& new.machines@.len() == old.machines@.len()
        &&& forall|j: int| 0 <= j < new.machines@.len() && j != k ==> new.machines@[j] == old.machines@[j]
        &&& state_reflects(new.machines@[k], Some(old.machines@[k]), r, now)
    } else {
        &&& new.machines@.len() == old.machines@.len() + 1
        &&& new.machines@.subrange(0, old.machines@.len() as int) == old.machines@
        &&& state_reflects(new.machines@.last(), None, r, now)
        &&& forall|j: int|
            0 <= j < old.machines@.len() ==> (#[trigger] old.machines@[j]).record.id@ != new.machines@.last().record.id@
    }
}

fn copy_process(q: &ProcessInfo) -> (r: ProcessInfo)
    ensures
        r == *q,
{
    ProcessInfo {
        pid: q.pid,
        name: q.name.clone(),
        exe_path: q.exe_path.clone(),
        memory_kb: q.memory_kb,
        cpu_hundredths: q.cpu_hundredths,
        captured_at: q.captured_at,
    }
}

/// The process table after a report: samples older than the retention window are
/// dropped, then the reported processes are added with capture time `now`.
pub fn retain_processes(prior: &Vec<ProcessInfo>, reported: &Vec<ProcessPayload>, now: u64) -> (r: Vec<ProcessInfo>)
    ensures
        processes_reflect(r@, prior@, reported@, now),
{
    let mut out: Vec<ProcessInfo> = Vec::new();
    let mut i: usize = 0;
    while i < prior.len()
        invariant
            i <= prior@.len(),
            out@ == recent(prior@.subrange(0, i as int), now),
        decreases prior@.len() - i,
    {
        let q = &prior[i];
        proof {
            assert(prior@.subrange(0, i + 1) =~= prior@.subrange(0, i as int).push(*q));
            prior@.subrange(0, i as int).lemma_filter_push(*q, |x: ProcessInfo| is_recent(x, now));
        }
        if q.captured_at as u128 + PROCESS_RETENTION_SECS as u128 >= now as u128 {
            out.push(copy_process(q));
        }
        i = i + 1;
    }
    assert(prior@.subrange(0, prior@.len() as int) =~= prior@);
    let ghost kept = out@;
    let mut j: usize = 0;
    while j < reported.len()
        invariant
            kept == recent(prior@, now),
            j <= reported@.len(),
            out@.len() == kept.len() + j,
            out@.subrange(0, kept.len() as int) == kept,
            forall|t: int| 0 <= t < j ==> process_reflects(#[trigger] out@[kept.len() + t], reported@[t], now),
        decreases reported@.len() - j,
    {
        let p = &reported[j];
        let ghost before = out@;
        out.push(
            ProcessInfo {
                pid: p.pid,
                name: p.name.clone(),
                exe_path: p.exe_path.clone(),
                memory_kb: p.memory_kb,
                cpu_hundredths: p.cpu_hundredths,
                captured_at: now,
            },
        );
        assert(out@.subrange(0, kept.len() as int) =~= before.subrange(0, kept.len() as int));
        assert forall|t: int| 0 <= t < j + 1 implies process_reflects(
            #[trigger] out@[kept.len() + t],
            reported@[t],
            now,
        ) by {
            if t < j {
                assert(out@[kept.len() + t] == before[kept.len() + t]);
            }
        }
        j = j + 1;
    }
    out
}

pub proof fn lemma_slot_unique(es: Seq<ScreenTimeEntry>, app: Seq<char>, day: u64, k: int)
    requires
        is_slot(es, app, day, k),
    ensures
        slot_index(es, app, day) == k,
{
    let c = choose|c: int| is_slot(es, app, day, c);
    assert(is_slot(es, app, day, c));
    if c < k {
        assert(!(es[c].app_name@ == app && es[c].date == day));
    } else if k < c {
        assert(!(es[k].app_name@ == app && es[k].date == day));
    }
}

fn find_slot(es: &Vec<ScreenTimeEntry>, app: &String, day: u64) -> (r: Option<usize>)
    ensures
        match r {
            Some(k) => slot_index(es@, app@, day) == k as int && k < es@.len(),
            None => slot_index(es@, app@, day) == -1,
        },
{
    let mut i: usize = 0;
    while i < es.len()
        invariant
            i <= es@.len(),
            forall|j: int| 0 <= j < i ==> !(es@[j].app_name@ == app@ && es@[j].date == day),
        decreases es@.len() - i,
    {
        if es[i].app_name == *app && es[i].date == day {
            proof {
                lemma_slot_unique(es@, app@, day, i as int);
            }
            return Some(i);
        }
        i = i + 1;
    }
    None
}

/// Adds each screen-time delta to the entry of its application on day `day`,
/// starting an entry where none exists; totals saturate at the largest `u64`.
pub fn merge_screen_time(entries: &mut Vec<ScreenTimeEntry>, deltas: &Vec<ScreenTimePayload>, day: u64)
    ensures
        final(entries)@ == merge_all(old(entries)@, deltas@, day),
{
    let ghost orig = entries@;
    let mut i: usize = 0;
    while i < deltas.len()
        invariant
            i <= deltas@.len(),
            entries@ == merge_all(orig, deltas@.subrange(0, i as int), day),
        decreases deltas@.len() - i,
    {
        let d = &deltas[i];
        proof {
            let s1 = deltas@.subrange(0, i + 1);
            assert(s1.drop_last() =~= deltas@.subrange(0, i as int));
            assert(s1.last() == deltas@[i as int]);
        }
        match find_slot(entries, &d.app_name, day) {
            Some(k) => {
                let name = entries[k].app_name.clone();
                let total = entries[k].total_seconds.saturating_add(d.total_seconds);
                entries.set(k, ScreenTimeEntry { app_name: name, total_seconds: total, date: day });
            },
            None => {
                entries.push(
                    ScreenTimeEntry { app_name: d.app_name.clone(), total_seconds: d.total_seconds, date: day },
                );
            },
        }
        i = i + 1;
    }
    assert(deltas@.subrange(0, deltas@.len() as int) =~= deltas@);
}

/// What the collector answers to an accepted report.
pub struct ReportResponse {
    pub status: String,
    pub message: String,
    /// Every policy the machine must enforce, after the report was applied.
    pub policies: Vec<Policy>,
}

/// The acknowledgement text for a report from `hostname`.
pub open spec fn ack_message(hostname: Seq<char>) -> Seq<char> {
    "Dados de '"@ + hostname + "' processados com sucesso."@
}

fn user_name(r: &AgentReport) -> (u: String)
    ensures
        u@ == user_of(*r),
{
    match &r.current_user {
        Some(u) => u.clone(),
        None => String::new(),
    }
}

impl FleetStore {
    /// Applies one report at time `now`: the machine is created or overwritten
    /// (keyed by `machine_id`), its disks and software replaced, its process
    /// window advanced, its detail rows replaced, a metric sample appended and its
    /// screen time accumulated.
    pub fn apply_report(&mut self, report: &AgentReport, now: u64)
        requires
            old(self).wf(),
        ensures
            final(self).wf(),
            reconciled(*old(self), *report, now, *final(self)),
    {
        let ghost old_ms = self.machines@;
        let found = self.find_machine(report.machine_id.as_str());
        let day = report.collected_at / SECS_PER_DAY;
        let hardware_details = HardwareDetails::from_payload(&report.hardware_details);
        let network_details = NetworkDetails::from_payload(&report.network_details);
        let security_status = SecurityStatus::from_payload(&report.security_status);
        let disks = disks_from(&report.hardware.disks);
        let software = software_from(&report.software);
        let current_user = user_name(report);
        match found {
            Some(k) => {
                let prior = self.machines.remove(k);
                let processes = retain_processes(&prior.processes, &report.processes, now);
                let mut screen_time = prior.screen_time;
                merge_screen_time(&mut screen_time, &report.screen_time, day);
                let record = Machine {
                    id: prior.record.id,
                    machine_id: report.machine_id.clone(),
                    hostname: report.hostname.clone(),
                    custom_name: prior.record.custom_name,
                    tags: prior.record.tags,
                    notes: prior.record.notes,
                    last_seen: report.collected_at,
                    cpu_name: report.hardware.cpu_name.clone(),
                    cpu_cores: report.hardware.cpu_cores,
                    cpu_threads: report.hardware.cpu_threads,
                    ram_total_mb: report.hardware.ram_total_mb,
                    ram_used_mb: report.hardware.ram_used_mb,
                    os_name: report.os.name.clone(),
                    os_version: report.os.version.clone(),
                    kernel_version: report.os.kernel_version.clone(),
                    uptime_hours: report.os.uptime_hours,
                    local_ip: report.local_ip.clone(),
                    mac_address: report.network_details.mac_address.clone(),
                    serial_number: report.hardware_details.serial_number.clone(),
                    motherboard_model: report.hardware_details.motherboard_model.clone(),
                    gpu_name: report.hardware_details.gpu_name.clone(),
                    is_bitlocker_active: report.security_status.bitlocker_active,
                    domain_name: report.network_details.domain_name.clone(),
                    current_user,
                };
                let st = MachineState {
                    record,
                    disks,
                    software,
                    processes,
                    hardware_details: Some(hardware_details),
                    network_details: Some(network_details),
                    security_status: Some(security_status),
                    screen_time,
                };
                self.machines.insert(k, st);
                proof {
                    assert(self.machines@ =~= old_ms.update(k as int, st));
                    assert(old_ms[k as int].record.machine_id@ == report.machine_id@);
                    assert forall|i: int, j: int|
                        0 <= i < self.machines@.len() && 0 <= j < self.machines@.len() && i != j
                        implies self.machines@[i].record.machine_id@ != self.machines@[j].record.machine_id@ by {
                        assert(old_ms[i].record.machine_id@ != old_ms[j].record.machine_id@);
                    }
                    assert forall|i: int, j: int|
                        0 <= i < self.machines@.len() && 0 <= j < self.machines@.len() && i != j
                        implies self.machines@[i].record.id@ != self.machines@[j].record.id@ by {
                        assert(old_ms[i].record.id@ != old_ms[j].record.id@);
                    }
                }
            },
            None => {
                let no_processes: Vec<ProcessInfo> = Vec::new();
                let processes = retain_processes(&no_processes, &report.processes, now);
                proof {
                    assert(recent(no_processes@, now) =~= Seq::<ProcessInfo>::empty()) by {
                        reveal(Seq::filter);
                    }
                }
                let mut screen_time: Vec<ScreenTimeEntry> = Vec::new();
                merge_screen_time(&mut screen_time, &report.screen_time, day);
                let taken = machine_ids(&self.machines);
                let record = Machine {
                    id: fresh_id(&taken),
                    machine_id: report.machine_id.clone(),
                    hostname: report.hostname.clone(),
                    custom_name: None,
                    tags: Vec::new(),
                    notes: None,
                    last_seen: report.collected_at,
                    cpu_name: report.hardware.cpu_name.clone(),
                    cpu_cores: report.hardware.cpu_cores,
                    cpu_threads: report.hardware.cpu_threads,
                    ram_total_mb: report.hardware.ram_total_mb,
                    ram_used_mb: report.hardware.ram_used_mb,
                    os_name: report.os.name.clone(),
                    os_version: report.os.version.clone(),
                    kernel_version: report.os.kernel_version.clone(),
                    uptime_hours: report.os.uptime_hours,
                    local_ip: report.local_ip.clone(),
                    mac_address: report.network_details.mac_address.clone(),
                    serial_number: report.hardware_details.serial_number.clone(),
                    motherboard_model: report.hardware_details.motherboard_model.clone(),
                    gpu_name: report.hardware_details.gpu_name.clone(),
                    is_bitlocker_active: report.security_status.bitlocker_active,
                    domain_name: report.network_details.domain_name.clone(),
                    current_user,
                };
                let st = MachineState {
                    record,
                    disks,
                    software,
                    processes,
                    hardware_details: Some(hardware_details),
                    network_details: Some(network_details),
                    security_status: Some(security_status),
                    screen_time,
                };
                self.machines.push(st);
                proof {
                    assert(self.machines@.subrange(0, old_ms.len() as int) =~= old_ms);
                    assert forall|i: int, j: int|
                        0 <= i < self.machines@.len() && 0 <= j < self.machines@.len() && i != j
                        implies self.machines@[i].record.machine_id@ != self.machines@[j].record.machine_id@ by {
                        if i < old_ms.len() && j < old_ms.len() {
                            assert(old_ms[i].record.machine_id@ != old_ms[j].record.machine_id@);
                        } else if i < old_ms.len() {
                            assert(old_ms[i].record.machine_id@ != report.machine_id@);
                        } else {
                            assert(old_ms[j].record.machine_id@ != report.machine_id@);
                        }
                    }
                    assert forall|i: int, j: int|
                        0 <= i < self.machines@.len() && 0 <= j < self.machines@.len() && i != j
                        implies self.machines@[i].record.id@ != self.machines@[j].record.id@ by {
                        if i < old_ms.len() && j < old_ms.len() {
                            assert(old_ms[i].record.id@ != old_ms[j].record.id@);
                        } else if i < old_ms.len() {
                            assert(taken@[i]@ == old_ms[i].record.id@);
                        } else {
                            assert(taken@[j]@ == old_ms[j].record.id@);
                        }
                    }
                    assert forall|j: int| 0 <= j < old_ms.len() implies (#[trigger] old_ms[j]).record.id@
                        != self.machines@.last().record.id@ by {
                        assert(taken@[j]@ == old_ms[j].record.id@);
                    }
                }
            },
        }
        let ghost old_metrics = self.metrics@;
        self.metrics.push(
            MetricSample {
                machine_id: report.machine_id.clone(),
                timestamp: now,
                cpu_hundredths: report.hardware.cpu_usage_hundredths,
                ram_used_mb: report.hardware.ram_used_mb,
                ram_total_mb: report.hardware.ram_total_mb,
            },
        );
        assert(self.metrics@.subrange(0, old_metrics.len() as int) =~= old_metrics);
    }

    /// Applies an authenticated report and answers with the policies the machine
    /// must enforce, as they stand after the report was applied.
    pub fn receive_report(&mut self, report: &AgentReport, now: u64) -> (r: ReportResponse)
        requires
            old(self).wf(),
        ensures
            final(self).wf(),
            reconciled(*old(self), *report, now, *final(self)),
            r.status@ == "ok"@,
            r.message@ == ack_message(report.hostname@),
            r.policies@ == selection(final(self).policies@, report.machine_id@),
    {
        self.apply_report(report, now);
        let policies = select_policies(&self.policies, report.machine_id.as_str());
        let mut message = String::from_str("Dados de '");
        message.append(report.hostname.as_str());
        message.append("' processados com sucesso.");
        ReportResponse { status: String::from_str("ok"), message, policies }
    }
}

/// In a well-formed store, the machine at position `k` is the one found for its identity.
pub proof fn lemma_index_of_present(ms: Seq<MachineState>, k: int)
    requires
        ids_unique(ms),
        0 <= k < ms.len(),
    ensures
        machine_index(ms, ms[k].record.machine_id@) == k,
{
    let mid = ms[k].record.machine_id@;
    assert forall|j: int| 0 <= j < k implies ms[j].record.machine_id@ != mid by {
        assert(ms[j].record.machine_id@ != ms[k].record.machine_id@);
    }
    lemma_first_machine_unique(ms, mid, k);
}

/// After a report the store holds its machine, in the state the report makes.
pub proof fn lemma_report_lands(old: FleetStore, r: AgentReport, now: u64, new: FleetStore)
    requires
        old.wf(),
        new.wf(),
        reconciled(old, r, now, new),
    ensures
        ({
            let k = machine_index(new.machines@, r.machine_id@);
            let j = machine_index(old.machines@, r.machine_id@);
            &&& 0 <= k < new.machines@.len()
            &&& j >= 0 ==> k == j && state_reflects(new.machines@[k], Some(old.machines@[j]), r, now)
            &&& j < 0 ==> k == old.machines@.len() && state_reflects(new.machines@[k], None, r, now)
        }),
{
    let j = machine_index(old.machines@, r.machine_id@);
    if j >= 0 {
        lemma_index_of_present(new.machines@, j);
    } else {
        lemma_index_of_present(new.machines@, old.machines@.len() as int);
    }
}

/// Last write wins: after two reports for one machine, its record holds the
/// second report's fields whatever the first held, and it stays one row with
/// the surrogate key the first report gave it.
pub proof fn lemma_last_write_wins(
    s0: FleetStore,
    r1: AgentReport,
    t1: u64,
    s1: FleetStore,
    r2: AgentReport,
    t2: u64,
    s2: FleetStore,
)
    requires
        s0.wf(),
        s1.wf(),
        s2.wf(),
        reconciled(s0, r1, t1, s1),
        reconciled(s1, r2, t2, s2),
        r1.machine_id@ == r2.machine_id@,
    ensures
        ({
            let k1 = machine_index(s1.machines@, r1.machine_id@);
            let k2 = machine_index(s2.machines@, r2.machine_id@);
            &&& 0 <= k2 && k2 == k1
            &&& s2.machines@.len() == s1.machines@.len()
            &&& record_reflects(s2.machines@[k2].record, r2)
            &&& s2.machines@[k2].record.id == s1.machines@[k1].record.id
        }),
{
    lemma_report_lands(s0, r1, t1, s1);
    lemma_report_lands(s1, r2, t2, s2);
}

/// Full replace: sending the same software and disk lists twice leaves exactly
/// one row per listed item, not two.
pub proof fn lemma_snapshot_replaced(
    s0: FleetStore,
    r1: AgentReport,
    t1: u64,
    s1: FleetStore,
    r2: AgentReport,
    t2: u64,
    s2: FleetStore,
)
    requires
        s0.wf(),
        s1.wf(),
        s2.wf(),
        reconciled(s0, r1, t1, s1),
        reconciled(s1, r2, t2, s2),
        r1.machine_id@ == r2.machine_id@,
        r1.software@ == r2.software@,
        r1.hardware.disks@ == r2.hardware.disks@,
    ensures
        ({
            let k = machine_index(s2.machines@, r2.machine_id@);
            &&& 0 <= k
            &&& s2.machines@[k].software@.len() == r2.software@.len()
            &&& software_list_reflects(s2.machines@[k].software@, r2.software@)
            &&& s2.machines@[k].disks@.len() == r2.hardware.disks@.len()
            &&& disks_reflect(s2.machines@[k].disks@, r2.hardware.disks@)
        }),
{
    lemma_report_lands(s0, r1, t1, s1);
    lemma_report_lands(s1, r2, t2, s2);
}

} // verus!
