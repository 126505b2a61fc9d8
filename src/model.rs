use vstd::prelude::*;

verus! {

/// What a policy constrains.
#[derive(PartialEq, Eq, Structural, Clone, Copy, Debug)]
pub enum PolicyType {
    Application,
    Website,
    Ip,
    Process,
}

/// What a policy asks the agent to do with its target.
#[derive(PartialEq, Eq, Structural, Clone, Copy, Debug)]
pub enum PolicyAction {
    Allow,
    Block,
}

/// An enforcement rule. `machine_id == None` makes it fleet-wide.
#[derive(Clone, Debug)]
pub struct Policy {
    pub id: String,
    pub machine_id: Option<String>,
    pub policy_type: PolicyType,
    /// Process-name fragment, domain or address, depending on `policy_type`.
    pub target: String,
    pub action: PolicyAction,
    pub reason: String,
    pub created_by: String,
    /// Seconds since the Unix epoch.
    pub created_at: u64,
    pub enabled: bool,
}

/// The collector's record of one endpoint. Times are seconds since the Unix epoch.
#[derive(Clone, Debug)]
pub struct Machine {
    /// Surrogate key assigned by the collector.
    pub id: String,
    /// Stable fleet identity chosen by the agent.
    pub machine_id: String,
    pub hostname: String,
    pub custom_name: Option<String>,
    pub tags: Vec<String>,
    pub notes: Option<String>,
    pub last_seen: u64,
    pub cpu_name: String,
    pub cpu_cores: u64,
    pub cpu_threads: u64,
    pub ram_total_mb: u64,
    pub ram_used_mb: u64,
    pub os_name: String,
    pub os_version: String,
    pub kernel_version: String,
    pub uptime_hours: u64,
    pub local_ip: String,
    pub mac_address: String,
    pub serial_number: String,
    pub motherboard_model: String,
    pub gpu_name: String,
    pub is_bitlocker_active: bool,
    pub domain_name: String,
    pub current_user: String,
}

/// One disk of a machine; sizes in mebibytes.
#[derive(Clone, Debug)]
pub struct DiskInfo {
    pub name: String,
    pub mount_point: String,
    pub total_mb: u64,
    pub free_mb: u64,
    pub fs_type: String,
}

/// One installed program.
#[derive(Clone, Debug)]
pub struct SoftwareEntry {
    pub name: String,
    pub version: String,
    pub publisher: String,
    pub install_date: String,
}

/// One process sample kept by the collector.
#[derive(Clone, Debug)]
pub struct ProcessInfo {
    pub pid: u32,
    pub name: String,
    pub exe_path: String,
    pub memory_kb: u64,
    /// CPU load in hundredths of a percent.
    pub cpu_hundredths: u32,
    /// When the collector stored the sample.
    pub captured_at: u64,
}

#[derive(Clone, Debug)]
pub struct HardwareDetails {
    pub serial_number: String,
    pub motherboard_manufacturer: String,
    pub motherboard_model: String,
    pub bios_version: String,
    pub gpu_name: String,
    pub gpu_vram_mb: i64,
    pub total_ram_slots: i64,
    pub used_ram_slots: i64,
    pub ram_type: String,
}

#[derive(Clone, Debug)]
pub struct NetworkDetails {
    pub local_ip: String,
    pub subnet_mask: String,
    pub gateway: String,
    pub dns_primary: String,
    pub dns_secondary: Option<String>,
    pub dhcp_enabled: bool,
    pub domain_name: String,
    pub is_domain_joined: bool,
    pub mac_address: String,
    pub adapter_name: String,
    pub connection_speed_mbps: i64,
    pub wifi_ssid: Option<String>,
    pub wifi_security: Option<String>,
}

#[derive(Clone, Debug)]
pub struct SecurityStatus {
    pub windows_defender_enabled: bool,
    pub windows_defender_updated: bool,
    pub firewall_enabled: bool,
    pub bitlocker_active: bool,
    pub bitlocker_drives: Vec<String>,
    pub last_windows_update: String,
}

/// Accumulated foreground time of one application on one day.
#[derive(Clone, Debug)]
pub struct ScreenTimeEntry {
    pub app_name: String,
    pub total_seconds: u64,
    /// Days since the Unix epoch.
    pub date: u64,
}

/// One row of the metrics history.
#[derive(Clone, Debug)]
pub struct MetricSample {
    pub machine_id: String,
    pub timestamp: u64,
    pub cpu_hundredths: u32,
    pub ram_used_mb: u64,
    pub ram_total_mb: u64,
}

/// One administrative or enforcement action.
#[derive(Clone, Debug)]
pub struct AuditLog {
    pub id: u64,
    pub timestamp: u64,
    pub action: String,
    pub resource_type: String,
    pub resource_id: String,
    pub user: String,
    pub details: String,
}

/// A stored credential: only the digest of the token is kept.
#[derive(Clone, Debug)]
pub struct ApiKeyRecord {
    pub id: String,
    pub name: String,
    pub key_hash: String,
    pub created_at: u64,
    pub last_used: Option<u64>,
    pub enabled: bool,
}

/// A credential as listed to administrators, without its digest.
#[derive(Clone, Debug)]
pub struct ApiKeyInfo {
    pub id: String,
    pub name: String,
    pub created_at: u64,
    pub last_used: Option<u64>,
    pub enabled: bool,
}

/// Which machines a fleet query asks for; `None` leaves a criterion open.
#[derive(Clone, Debug)]
pub struct MachineFilters {
    /// Operating-system names, any of which matches.
    pub os: Option<Vec<String>>,
    /// `online` or `offline`; any other value leaves the status open.
    pub status: Option<String>,
    /// Tags, any of which matches.
    pub tags: Option<Vec<String>>,
    /// Least installed memory, in mebibytes.
    pub min_ram: Option<i64>,
    /// Most installed memory, in mebibytes.
    pub max_ram: Option<i64>,
    /// Text looked for, ignoring case, in the host name and the display name.
    pub search_term: Option<String>,
}

} // verus!
