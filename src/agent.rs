use vstd::prelude::*;
use vstd::string::StringExecFns;
use crate::model::{HardwareDetails, NetworkDetails, SecurityStatus};
use crate::store::new_uuid;
use crate::text::{lower_of, lowercase};

verus! {

/// The agent's settings.
pub struct Config {
    pub server_url: String,
    pub api_key: String,
    pub interval_minutes: u64,
    pub enforcement_enabled: bool,
}

/// Why the agent's settings could not be read.
#[derive(PartialEq, Eq, Structural, Clone, Copy, Debug)]
pub enum ConfigError {
    /// No credential was configured.
    MissingApiKey,
}

/// What `str::parse::<u64>` makes of a string: the number, or `None` on an error.
pub uninterp spec fn parsed_u64_of(s: Seq<char>) -> Option<u64>;

/// Relies on `str::parse::<u64>`: its result depends on the characters alone.
#[verifier::external_body]
fn parse_u64(s: &str) -> (r: Option<u64>)
    ensures
        r == parsed_u64_of(s@),
{
    s.parse::<u64>().ok()
}

/// The collector address used when none is configured.
pub open spec fn default_server() -> Seq<char> {
    "http://localhost:7474"@
}

/// Minutes between reporting cycles when none is configured.
pub const DEFAULT_INTERVAL_MINUTES: u64 = 60;

/// Whether an enforcement setting switches enforcement on: `1`, or `true` in any case.
pub open spec fn switched_on(s: Seq<char>) -> bool {
    s == "1"@ || lower_of(s) == "true"@
}

impl Default for Config {
    fn default() -> (r: Config)
        ensures
            r.server_url@ == default_server(),
            r.api_key@.len() == 0,
            r.interval_minutes == DEFAULT_INTERVAL_MINUTES,
            r.enforcement_enabled,
    {
        Config {
            server_url: String::from_str("http://localhost:7474"),
            api_key: String::new(),
            interval_minutes: DEFAULT_INTERVAL_MINUTES,
            enforcement_enabled: true,
        }
    }
}

impl Config {
    /// Settings from environment values: the credential is required; the
    /// address, the interval and the enforcement switch fall back to their
    /// defaults when unset or, for the interval, not a number.
    pub fn from_env_values(
        server_url: Option<String>,
        api_key: Option<String>,
        interval: Option<String>,
        enforcement: Option<String>,
    ) -> (r: Result<Config, ConfigError>)
        ensures
            api_key.is_none() <==> r == Err::<Config, ConfigError>(ConfigError::MissingApiKey),
            r matches Ok(c) ==> {
                &&& c.api_key == api_key.unwrap()
                &&& c.server_url@ == match server_url {
                    Some(s) => s@,
                    None => default_server(),
                }
                &&& c.interval_minutes == match interval {
                    Some(s) => match parsed_u64_of(s@) {
                        Some(v) => v,
                        None => DEFAULT_INTERVAL_MINUTES,
                    },
                    None => DEFAULT_INTERVAL_MINUTES,
                }
                &&& c.enforcement_enabled == match enforcement {
                    Some(s) => switched_on(s@),
                    None => true,
                }
            },
    {
        let api_key = match api_key {
            Some(k) => k,
            None => return Err(ConfigError::MissingApiKey),
        };
        let server_url = match server_url {
            Some(s) => s,
            None => String::from_str("http://localhost:7474"),
        };
        let interval_minutes = match interval {
            Some(s) => match parse_u64(s.as_str()) {
                Some(v) => v,
                None => DEFAULT_INTERVAL_MINUTES,
            },
            None => DEFAULT_INTERVAL_MINUTES,
        };
        let enforcement_enabled = match enforcement {
            Some(s) => {
                let one = String::from_str("1");
                let yes = String::from_str("true");
                s == one || lowercase(s.as_str()) == yes
            },
            None => true,
        };
        Ok(Config { server_url, api_key, interval_minutes, enforcement_enabled })
    }

    /// Settings from stored values: the interval defaults to 60 minutes and
    /// enforcement is on unless stored as 0.
    pub fn from_stored_values(
        server_url: String,
        api_key: String,
        interval_minutes: Option<u32>,
        enforcement: Option<u32>,
    ) -> (r: Config)
        ensures
            r.server_url == server_url,
            r.api_key == api_key,
            r.interval_minutes == match interval_minutes {
                Some(v) => v as u64,
                None => DEFAULT_INTERVAL_MINUTES,
            },
            r.enforcement_enabled == match enforcement {
                Some(v) => v != 0,
                None => true,
            },
    {
        Config {
            server_url,
            api_key,
            interval_minutes: match interval_minutes {
                Some(v) => v as u64,
                None => DEFAULT_INTERVAL_MINUTES,
            },
            enforcement_enabled: match enforcement {
                Some(v) => v != 0,
                None => true,
            },
        }
    }
}

/// The identity an endpoint reports under, and whether it was just made.
pub struct MachineIdentity {
    pub machine_id: String,
    /// A new identity must be stored so that later runs keep it.
    pub created: bool,
}

/// Keeps the stored identity when there is one; otherwise makes a new one.
pub fn get_or_create_machine_id(stored: Option<String>) -> (r: MachineIdentity)
    ensures
        r.created == stored.is_none(),
        stored matches Some(s) ==> r.machine_id == s,
        stored.is_none() ==> r.machine_id@.len() == 36,
{
    match stored {
        Some(s) => MachineIdentity { machine_id: s, created: false },
        None => MachineIdentity { machine_id: new_uuid(), created: true },
    }
}

/// Hardware facts to report when they could not be read.
pub fn default_hardware_details() -> (r: HardwareDetails)
    ensures
        r.serial_number@ == "Unknown"@,
        r.motherboard_manufacturer@ == "Unknown"@,
        r.motherboard_model@ == "Unknown"@,
        r.bios_version@ == "Unknown"@,
        r.gpu_name@ == "Unknown"@,
        r.gpu_vram_mb == 0,
        r.total_ram_slots == 0,
        r.used_ram_slots == 0,
        r.ram_type@ == "Unknown"@,
{
    HardwareDetails {
        serial_number: String::from_str("Unknown"),
        motherboard_manufacturer: String::from_str("Unknown"),
        motherboard_model: String::from_str("Unknown"),
        bios_version: String::from_str("Unknown"),
        gpu_name: String::from_str("Unknown"),
        gpu_vram_mb: 0,
        total_ram_slots: 0,
        used_ram_slots: 0,
        ram_type: String::from_str("Unknown"),
    }
}

/// Network facts to report when they could not be read.
pub fn default_network_details() -> (r: NetworkDetails)
    ensures
        r.local_ip@ == "127.0.0.1"@,
        r.subnet_mask@ == "255.255.255.0"@,
        r.gateway@ == "192.168.1.1"@,
        r.dns_primary@ == "8.8.8.8"@,
        r.dns_secondary.is_none(),
        r.dhcp_enabled,
        r.domain_name@ == "WORKGROUP"@,
        !r.is_domain_joined,
        r.mac_address@ == "00-00-00-00-00-00"@,
        r.adapter_name@ == "Unknown"@,
        r.connection_speed_mbps == 0,
        r.wifi_ssid.is_none(),
        r.wifi_security.is_none(),
{
    NetworkDetails {
        local_ip: String::from_str("127.0.0.1"),
        subnet_mask: String::from_str("255.255.255.0"),
        gateway: String::from_str("192.168.1.1"),
        dns_primary: String::from_str("8.8.8.8"),
        dns_secondary: None,
        dhcp_enabled: true,
        domain_name: String::from_str("WORKGROUP"),
        is_domain_joined: false,
        mac_address: String::from_str("00-00-00-00-00-00"),
        adapter_name: String::from_str("Unknown"),
        connection_speed_mbps: 0,
        wifi_ssid: None,
        wifi_security: None,
    }
}

/// Security facts to report when they could not be read.
pub fn default_security_status() -> (r: SecurityStatus)
    ensures
        !r.windows_defender_enabled,
        !r.windows_defender_updated,
        !r.firewall_enabled,
        !r.bitlocker_active,
        r.bitlocker_drives@.len() == 0,
        r.last_windows_update@ == "Unknown"@,
{
    SecurityStatus {
        windows_defender_enabled: false,
        windows_defender_updated: false,
        firewall_enabled: false,
        bitlocker_active: false,
        bitlocker_drives: Vec::new(),
        last_windows_update: String::from_str("Unknown"),
    }
}

/// How a report submission ended.
#[derive(PartialEq, Eq, Structural, Clone, Copy, Debug)]
pub enum SubmitOutcome {
    /// The collector acknowledged the report and sent its policies.
    Accepted,
    /// The collector answered with a non-success status.
    Rejected(u16),
    /// No connection could be made.
    Unreachable,
    /// The collector did not answer in time.
    TimedOut,
}

/// What the agent does after submitting a report.
pub struct CycleDecision {
    /// Apply the received policies now.
    pub enforce: bool,
    /// The cycle counts as skipped; the next one tries again.
    pub skipped: bool,
    /// When the next cycle starts, in seconds since the Unix epoch.
    pub next_run: u64,
}

/// The agent never stops on a failed cycle: a failed submission skips this
/// cycle's enforcement, and the next cycle is due one interval later either way.
pub fn decide_after_submit(outcome: SubmitOutcome, config: &Config, now: u64) -> (r: CycleDecision)
    ensures
        r.skipped == (outcome != SubmitOutcome::Accepted),
        r.enforce == (outcome == SubmitOutcome::Accepted && config.enforcement_enabled),
        r.next_run as int == if now as int + config.interval_minutes as int * 60 > u64::MAX as int {
            u64::MAX as int
        } else {
            now as int + config.interval_minutes as int * 60
        },
{
    let accepted = match outcome {
        SubmitOutcome::Accepted => true,
        _ => false,
    };
    let wait: u64 = if config.interval_minutes > u64::MAX / 60 {
        u64::MAX
    } else {
        config.interval_minutes * 60
    };
    CycleDecision { enforce: accepted && config.enforcement_enabled, skipped: !accepted, next_run: now.saturating_add(wait) }
}

} // verus!
