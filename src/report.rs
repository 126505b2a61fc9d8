use vstd::prelude::*;
use crate::policy::copy_opt_string;
use crate::model::{DiskInfo, HardwareDetails, Machine, MetricSample, NetworkDetails, ProcessInfo,
    SecurityStatus, SoftwareEntry};

verus! {

/// One agent report, as the collector receives it. Times are seconds since the Unix epoch.
pub struct AgentReport {
    pub agent_version: String,
    pub hostname: String,
    pub machine_id: String,
    pub local_ip: String,
    pub collected_at: u64,
    pub hardware: HardwarePayload,
    pub hardware_details: HardwareDetailsPayload,
    pub network_details: NetworkDetailsPayload,
    pub security_status: SecurityStatusPayload,
    pub software: Vec<SoftwarePayload>,
    pub processes: Vec<ProcessPayload>,
    pub network_connections: Option<Vec<NetworkConnectionPayload>>,
    pub screen_time: Vec<ScreenTimePayload>,
    pub current_user: Option<String>,
    pub os: OsPayload,
}

pub struct HardwareDetailsPayload {
    pub serial_number: String,
    pub motherboard_manufacturer: String,
    pub motherboard_model: String,
    pub bios_version: String,
    pub gpu_name: String,
    pub gpu_vram_mb: i64,
    pub total_ram_slots: i64,
    pub used_ram_slots: i64,
    pub ram_type: String,
}

pub struct NetworkDetailsPayload {
    pub local_ip: String,
    pub subnet_mask: String,
    pub gateway: String,
    pub dns_primary: String,
    pub dns_secondary: Option<String>,
    pub dhcp_enabled: bool,
    pub domain_name: String,
    pub is_domain_joined: bool,
    pub mac_address: String,
    pub adapter_name: String,
    pub connection_speed_mbps: i64,
    pub wifi_ssid: Option<String>,
    pub wifi_security: Option<String>,
}

pub struct SecurityStatusPayload {
    pub windows_defender_enabled: bool,
    pub windows_defender_updated: bool,
    pub firewall_enabled: bool,
    pub bitlocker_active: bool,
    pub bitlocker_drives: Vec<String>,
    pub last_windows_update: String,
}

pub struct NetworkConnectionPayload {
    pub pid: u32,
    pub local_ip: String,
    pub remote_ip: String,
    pub state: String,
}

pub struct HardwarePayload {
    pub cpu_name: String,
    pub cpu_cores: u64,
    pub cpu_threads: u64,
    /// CPU load in hundredths of a percent.
    pub cpu_usage_hundredths: u32,
    pub ram_total_mb: u64,
    pub ram_used_mb: u64,
    pub disks: Vec<DiskPayload>,
}

/// Foreground seconds of one application since the previous report.
pub struct ScreenTimePayload {
    pub app_name: String,
    pub total_seconds: u64,
}

pub struct DiskPayload {
    pub name: String,
    pub mount_point: String,
    pub total_mb: u64,
    pub free_mb: u64,
    pub fs_type: String,
}

pub struct SoftwarePayload {
    pub name: String,
    pub version: String,
    pub publisher: String,
    pub install_date: String,
}

pub struct ProcessPayload {
    pub pid: u32,
    pub name: String,
    pub exe_path: String,
    pub memory_kb: u64,
    pub cpu_hundredths: u32,
}

pub struct OsPayload {
    pub name: String,
    pub version: String,
    pub kernel_version: String,
    pub uptime_hours: u64,
}

/// The user name a report carries, empty when it names none.
pub open spec fn user_of(r: AgentReport) -> Seq<char> {
    match r.current_user {
        Some(u) => u@,
        None => Seq::<char>::empty(),
    }
}

/// Every reported field of the machine record holds the report's value.
pub open spec fn record_reflects(m: Machine, r: AgentReport) -> bool {
    &&& m.machine_id@ == r.machine_id@
    &&& m.hostname@ == r.hostname@
    &&& m.last_seen == r.collected_at
    &&& m.cpu_name@ == r.hardware.cpu_name@
    &&& m.cpu_cores == r.hardware.cpu_cores
    &&& m.cpu_threads == r.hardware.cpu_threads
    &&& m.ram_total_mb == r.hardware.ram_total_mb
    &&& m.ram_used_mb == r.hardware.ram_used_mb
    &&& m.os_name@ == r.os.name@
    &&& m.os_version@ == r.os.version@
    &&& m.kernel_version@ == r.os.kernel_version@
    &&& m.uptime_hours == r.os.uptime_hours
    &&& m.local_ip@ == r.local_ip@
    &&& m.mac_address@ == r.network_details.mac_address@
    &&& m.serial_number@ == r.hardware_details.serial_number@
    &&& m.motherboard_model@ == r.hardware_details.motherboard_model@
    &&& m.gpu_name@ == r.hardware_details.gpu_name@
    &&& m.is_bitlocker_active == r.security_status.bitlocker_active
    &&& m.domain_name@ == r.network_details.domain_name@
    &&& m.current_user@ == user_of(r)
}

pub open spec fn opt_view(o: Option<String>) -> Option<Seq<char>> {
    match o {
        Some(s) => Some(s@),
        None => None,
    }
}

pub open spec fn strings_view(v: Seq<String>) -> Seq<Seq<char>> {
    v.map_values(|s: String| s@)
}

pub open spec fn hardware_reflects(h: HardwareDetails, p: HardwareDetailsPayload) -> bool {
    &&& h.serial_number@ == p.serial_number@
    &&& h.motherboard_manufacturer@ == p.motherboard_manufacturer@
    &&& h.motherboard_model@ == p.motherboard_model@
    &&& h.bios_version@ == p.bios_version@
    &&& h.gpu_name@ == p.gpu_name@
    &&& h.gpu_vram_mb == p.gpu_vram_mb
    &&& h.total_ram_slots == p.total_ram_slots
    &&& h.used_ram_slots == p.used_ram_slots
    &&& h.ram_type@ == p.ram_type@
}

pub open spec fn network_reflects(n: NetworkDetails, p: NetworkDetailsPayload) -> bool {
    &&& n.local_ip@ == p.local_ip@
    &&& n.subnet_mask@ == p.subnet_mask@
    &&& n.gateway@ == p.gateway@
    &&& n.dns_primary@ == p.dns_primary@
    &&& opt_view(n.dns_secondary) == opt_view(p.dns_secondary)
    &&& n.dhcp_enabled == p.dhcp_enabled
    &&& n.domain_name@ == p.domain_name@
    &&& n.is_domain_joined == p.is_domain_joined
    &&& n.mac_address@ == p.mac_address@
    &&& n.adapter_name@ == p.adapter_name@
    &&& n.connection_speed_mbps == p.connection_speed_mbps
    &&& opt_view(n.wifi_ssid) == opt_view(p.wifi_ssid)
    &&& opt_view(n.wifi_security) == opt_view(p.wifi_security)
}

pub open spec fn security_reflects(s: SecurityStatus, p: SecurityStatusPayload) -> bool {
    &&& s.windows_defender_enabled == p.windows_defender_enabled
    &&& s.windows_defender_updated == p.windows_defender_updated
    &&& s.firewall_enabled == p.firewall_enabled
    &&& s.bitlocker_active == p.bitlocker_active
    &&& strings_view(s.bitlocker_drives@) == strings_view(p.bitlocker_drives@)
    &&& s.last_windows_update@ == p.last_windows_update@
}

pub open spec fn disk_reflects(d: DiskInfo, p: DiskPayload) -> bool {
    &&& d.name@ == p.name@
    &&& d.mount_point@ == p.mount_point@
    &&& d.total_mb == p.total_mb
    &&& d.free_mb == p.free_mb
    &&& d.fs_type@ == p.fs_type@
}

pub open spec fn software_reflects(s: SoftwareEntry, p: SoftwarePayload) -> bool {
    &&& s.name@ == p.name@
    &&& s.version@ == p.version@
    &&& s.publisher@ == p.publisher@
    &&& s.install_date@ == p.install_date@
}

/// A process row stored at time `now` from a reported process.
pub open spec fn process_reflects(q: ProcessInfo, p: ProcessPayload, now: u64) -> bool {
    &&& q.pid == p.pid
    &&& q.name@ == p.name@
    &&& q.exe_path@ == p.exe_path@
    &&& q.memory_kb == p.memory_kb
    &&& q.cpu_hundredths == p.cpu_hundredths
    &&& q.captured_at == now
}

pub open spec fn metric_reflects(m: MetricSample, r: AgentReport, now: u64) -> bool {
    &&& m.machine_id@ == r.machine_id@
    &&& m.timestamp == now
    &&& m.cpu_hundredths == r.hardware.cpu_usage_hundredths
    &&& m.ram_used_mb == r.hardware.ram_used_mb
    &&& m.ram_total_mb == r.hardware.ram_total_mb
}

/// The disk list holds exactly the reported disks, one row each, in order.
pub open spec fn disks_reflect(ds: Seq<DiskInfo>, ps: Seq<DiskPayload>) -> bool {
    ds.len() == ps.len() && forall|i: int| 0 <= i < ds.len() ==> disk_reflects(#[trigger] ds[i], ps[i])
}

/// The software list holds exactly the reported programs, one row each, in order.
pub open spec fn software_list_reflects(ss: Seq<SoftwareEntry>, ps: Seq<SoftwarePayload>) -> bool {
    ss.len() == ps.len() && forall|i: int|
        0 <= i < ss.len() ==> software_reflects(#[trigger] ss[i], ps[i])
}

pub fn copy_strings(v: &Vec<String>) -> (r: Vec<String>)
    ensures
        r@ == v@,
{
    let mut out: Vec<String> = Vec::new();
    let mut i: usize = 0;
    while i < v.len()
        invariant
            i <= v@.len(),
            out@ == v@.subrange(0, i as int),
        decreases v@.len() - i,
    {
        out.push(v[i].clone());
        i = i + 1;
    }
    assert(out@ =~= v@);
    out
}

impl HardwareDetails {
    /// The detail row that a report's hardware facts make.
    pub fn from_payload(p: &HardwareDetailsPayload) -> (r: HardwareDetails)
        ensures
            hardware_reflects(r, *p),
    {
        HardwareDetails {
            serial_number: p.serial_number.clone(),
            motherboard_manufacturer: p.motherboard_manufacturer.clone(),
            motherboard_model: p.motherboard_model.clone(),
            bios_version: p.bios_version.clone(),
            gpu_name: p.gpu_name.clone(),
            gpu_vram_mb: p.gpu_vram_mb,
            total_ram_slots: p.total_ram_slots,
            used_ram_slots: p.used_ram_slots,
            ram_type: p.ram_type.clone(),
        }
    }
}

impl NetworkDetails {
    /// The detail row that a report's network facts make.
    pub fn from_payload(p: &NetworkDetailsPayload) -> (r: NetworkDetails)
        ensures
            network_reflects(r, *p),
    {
        NetworkDetails {
            local_ip: p.local_ip.clone(),
            subnet_mask: p.subnet_mask.clone(),
            gateway: p.gateway.clone(),
            dns_primary: p.dns_primary.clone(),
            dns_secondary: copy_opt_string(&p.dns_secondary),
            dhcp_enabled: p.dhcp_enabled,
            domain_name: p.domain_name.clone(),
            is_domain_joined: p.is_domain_joined,
            mac_address: p.mac_address.clone(),
            adapter_name: p.adapter_name.clone(),
            connection_speed_mbps: p.connection_speed_mbps,
            wifi_ssid: copy_opt_string(&p.wifi_ssid),
            wifi_security: copy_opt_string(&p.wifi_security),
        }
    }
}

impl SecurityStatus {
    /// The detail row that a report's security facts make.
    pub fn from_payload(p: &SecurityStatusPayload) -> (r: SecurityStatus)
        ensures
            security_reflects(r, *p),
    {
        SecurityStatus {
            windows_defender_enabled: p.windows_defender_enabled,
            windows_defender_updated: p.windows_defender_updated,
            firewall_enabled: p.firewall_enabled,
            bitlocker_active: p.bitlocker_active,
            bitlocker_drives: copy_strings(&p.bitlocker_drives),
            last_windows_update: p.last_windows_update.clone(),
        }
    }
}

/// The disk rows that a report makes.
pub fn disks_from(ps: &Vec<DiskPayload>) -> (r: Vec<DiskInfo>)
    ensures
        disks_reflect(r@, ps@),
{
    let mut out: Vec<DiskInfo> = Vec::new();
    let mut i: usize = 0;
    while i < ps.len()
        invariant
            i <= ps@.len(),
            out@.len() == i,
            forall|k: int| 0 <= k < i ==> disk_reflects(#[trigger] out@[k], ps@[k]),
        decreases ps@.len() - i,
    {
        let p = &ps[i];
        out.push(
            DiskInfo {
                name: p.name.clone(),
                mount_point: p.mount_point.clone(),
                total_mb: p.total_mb,
                free_mb: p.free_mb,
                fs_type: p.fs_type.clone(),
            },
        );
        i = i + 1;
    }
    out
}

/// The software rows that a report makes.
pub fn software_from(ps: &Vec<SoftwarePayload>) -> (r: Vec<SoftwareEntry>)
    ensures
        software_list_reflects(r@, ps@),
{
    let mut out: Vec<SoftwareEntry> = Vec::new();
    let mut i: usize = 0;
    while i < ps.len()
        invariant
            i <= ps@.len(),
            out@.len() == i,
            forall|k: int| 0 <= k < i ==> software_reflects(#[trigger] out@[k], ps@[k]),
        decreases ps@.len() - i,
    {
        let p = &ps[i];
        out.push(
            SoftwareEntry {
                name: p.name.clone(),
                version: p.version.clone(),
                publisher: p.publisher.clone(),
                install_date: p.install_date.clone(),
            },
        );
        i = i + 1;
    }
    out
}

} // verus!
