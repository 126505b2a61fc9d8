use assetscan::admin::{parse_policy_action, parse_policy_type, policy_action_name, policy_type_name};
use assetscan::fleet::{is_machine_online, CompareError};
use assetscan::model::MachineFilters;
use assetscan::model::{PolicyAction, PolicyType};
use assetscan::report::{
    AgentReport, HardwareDetailsPayload, HardwarePayload, NetworkDetailsPayload, OsPayload, SecurityStatusPayload,
    SoftwarePayload,
};
use assetscan::store::FleetStore;

fn bare_report(machine_id: &str, hostname: &str, os: &str, ram: u64, at: u64) -> AgentReport {
    AgentReport {
        agent_version: "3".to_string(),
        hostname: hostname.to_string(),
        machine_id: machine_id.to_string(),
        local_ip: String::new(),
        collected_at: at,
        hardware: HardwarePayload {
            cpu_name: String::new(),
            cpu_cores: 1,
            cpu_threads: 1,
            cpu_usage_hundredths: 0,
            ram_total_mb: ram,
            ram_used_mb: 0,
            disks: vec![],
        },
        hardware_details: HardwareDetailsPayload {
            serial_number: String::new(),
            motherboard_manufacturer: String::new(),
            motherboard_model: String::new(),
            bios_version: String::new(),
            gpu_name: String::new(),
            gpu_vram_mb: 0,
            total_ram_slots: 0,
            used_ram_slots: 0,
            ram_type: String::new(),
        },
        network_details: NetworkDetailsPayload {
            local_ip: String::new(),
            subnet_mask: String::new(),
            gateway: String::new(),
            dns_primary: String::new(),
            dns_secondary: None,
            dhcp_enabled: false,
            domain_name: String::new(),
            is_domain_joined: false,
            mac_address: String::new(),
            adapter_name: String::new(),
            connection_speed_mbps: 0,
            wifi_ssid: None,
            wifi_security: None,
        },
        security_status: SecurityStatusPayload {
            windows_defender_enabled: false,
            windows_defender_updated: false,
            firewall_enabled: false,
            bitlocker_active: false,
            bitlocker_drives: vec![],
            last_windows_update: String::new(),
        },
        software: vec![],
        processes: vec![],
        network_connections: None,
        screen_time: vec![],
        current_user: None,
        os: OsPayload { name: os.to_string(), version: String::new(), kernel_version: String::new(), uptime_hours: 0 },
    }
}

fn empty_query() -> MachineFilters {
    MachineFilters { os: None, status: None, tags: None, min_ram: None, max_ram: None, search_term: None }
}

#[test]
fn online_window_is_two_hours() {
    assert!(is_machine_online(1000, 1000 + 7199));
    assert!(!is_machine_online(1000, 1000 + 7200));
    assert!(is_machine_online(5000, 1000));
}

#[test]
fn listing_counts_and_status() {
    let mut store = FleetStore::new();
    store.receive_report(&bare_report("A", "alpha", "Windows", 8192, 0), 0);
    store.receive_report(&bare_report("B", "beta", "Linux", 4096, 10000), 10000);
    let l = store.list_machines(10000);
    assert_eq!(l.len(), 2);
    assert_eq!(l[0].machine_id, "B");
    assert!(l[0].is_online);
    assert_eq!(l[1].machine_id, "A");
    assert!(!l[1].is_online);
    assert_eq!(l[0].disk_count, 0);
}

#[test]
fn filters_combine() {
    let mut store = FleetStore::new();
    store.receive_report(&bare_report("A", "Alpha-PC", "Windows", 8192, 0), 0);
    store.receive_report(&bare_report("B", "beta", "Linux", 4096, 0), 0);
    let mut q = empty_query();
    q.search_term = Some("alpha".to_string());
    let r = store.list_machines_filtered(&q, 0);
    assert_eq!(r.len(), 1);
    assert_eq!(r[0].hostname, "Alpha-PC");
    let mut q = empty_query();
    q.os = Some(vec!["Linux".to_string()]);
    q.min_ram = Some(1000);
    let r = store.list_machines_filtered(&q, 0);
    assert_eq!(r.len(), 1);
    assert_eq!(r[0].machine_id, "B");
    let mut q = empty_query();
    q.max_ram = Some(100);
    assert_eq!(store.list_machines_filtered(&q, 0).len(), 0);
    let mut q = empty_query();
    q.tags = Some(vec!["lab".to_string()]);
    assert_eq!(store.list_machines_filtered(&q, 0).len(), 0);
    let mut q = empty_query();
    q.status = Some("online".to_string());
    assert_eq!(store.list_machines_filtered(&q, 0).len(), 2);
    assert_eq!(store.list_machines_filtered(&q, 7200).len(), 0);
    q.status = Some("offline".to_string());
    assert_eq!(store.list_machines_filtered(&q, 7200).len(), 2);
}

#[test]
fn rename_sets_display_name_and_audits() {
    let mut store = FleetStore::new();
    store.receive_report(&bare_report("A", "alpha", "Windows", 1, 0), 0);
    assert!(store.rename_machine("A", "Reception", "admin", 5));
    assert_eq!(store.machines[0].record.custom_name, Some("Reception".to_string()));
    assert_eq!(store.audit.len(), 1);
    assert_eq!(store.audit[0].details, "Renamed to 'Reception'");
    assert!(!store.rename_machine("Z", "x", "admin", 5));
    assert_eq!(store.audit.len(), 1);
    let mut q = empty_query();
    q.search_term = Some("recep".to_string());
    assert_eq!(store.list_machines_filtered(&q, 0).len(), 1);
    store.receive_report(&bare_report("A", "alpha2", "Windows", 1, 9), 9);
    assert_eq!(store.machines[0].record.custom_name, Some("Reception".to_string()));
}

#[test]
fn admin_shortcuts_create_policies() {
    let mut store = FleetStore::new();
    let a = store.block_software("M", "steam", "games", 1);
    let b = store.kill_process_remote("M", "miner.exe", 2);
    let c = store.create_ip_policy(None, "6.6.6.6".to_string(), PolicyAction::Block, "bad".to_string(), 3);
    assert_eq!(store.policies.len(), 3);
    assert_eq!(store.policies[0].id, a);
    assert_eq!(store.policies[0].policy_type, PolicyType::Application);
    assert_eq!(store.policies[1].id, b);
    assert_eq!(store.policies[1].policy_type, PolicyType::Process);
    assert_eq!(store.policies[1].action, PolicyAction::Block);
    assert_eq!(store.policies[2].id, c);
    assert_eq!(store.policies[2].machine_id, None);
    assert_eq!(store.audit.len(), 3);
    assert_eq!(store.audit[0].action, "block_software");
    assert_eq!(store.audit[0].resource_id, a);
    assert_eq!(store.audit[0].details, "Blocked steam on machine M");
    assert_eq!(store.audit[1].action, "kill_process_remote");
    assert_eq!(store.audit[1].resource_type, "process");
    assert_eq!(store.audit[1].resource_id, "miner.exe");
    assert_eq!(store.audit[1].details, "Machine: M");
    assert_eq!(store.policies[1].reason, "Terminado remotamente pelo administrador");
    assert_eq!(store.audit[2].id, 3);
    let logs = store.get_audit_logs(Some(2));
    assert_eq!(logs.len(), 2);
    assert_eq!(logs[0].resource_id, c);
    assert_eq!(logs[1].resource_id, "miner.exe");
    assert_eq!(store.get_audit_logs(None).len(), 3);
}

#[test]
fn policy_names_round_trip() {
    for t in [PolicyType::Application, PolicyType::Website, PolicyType::Ip, PolicyType::Process] {
        assert_eq!(parse_policy_type(policy_type_name(t)), Some(t));
    }
    assert_eq!(parse_policy_action(policy_action_name(PolicyAction::Block)), Some(PolicyAction::Block));
    assert_eq!(parse_policy_type("kill"), None);
    assert_eq!(parse_policy_action("kill"), None);
}

#[test]
fn comparison_lists_programs_on_one_side() {

    let sw = |n: &str| SoftwarePayload {
        name: n.to_string(),
        version: String::new(),
        publisher: String::new(),
        install_date: String::new(),
    };
    let mut store = FleetStore::new();
    let mut a = bare_report("A", "alpha", "Windows", 1, 0);
    a.software = vec![sw("Git"), sw("Zoom")];
    let mut b = bare_report("B", "beta", "Windows", 1, 0);
    b.software = vec![sw("Git"), sw("Slack")];
    store.receive_report(&a, 0);
    store.receive_report(&b, 0);
    let c = store.compare_machines(&vec!["A".to_string(), "B".to_string()], 0).ok().unwrap();
    assert_eq!(c.diff_software, vec!["Only in alpha: Zoom".to_string(), "Only in beta: Slack".to_string()]);
    assert_eq!(c.machine_a.hostname, "alpha");
    assert!(c.diff_policies.is_empty());
    assert!(matches!(store.compare_machines(&vec!["A".to_string()], 0), Err(CompareError::NeedTwoMachines)));
    assert!(matches!(
        store.compare_machines(&vec!["X".to_string(), "B".to_string()], 0),
        Err(CompareError::FirstNotFound)
    ));
    assert!(matches!(
        store.compare_machines(&vec!["A".to_string(), "X".to_string()], 0),
        Err(CompareError::SecondNotFound)
    ));
}

#[test]
fn dashboard_counts() {
    let mut store = FleetStore::new();
    store.receive_report(&bare_report("A", "a", "W", 1, 0), 0);
    store.receive_report(&bare_report("B", "b", "W", 1, 9000), 9000);
    let id = store.block_software("A", "x", "r", 1);
    store.block_software("B", "y", "r", 1);
    store.set_policy_enabled(&id, false, "admin", 2);
    let s = store.get_dashboard_stats(9000);
    assert_eq!(s.total_machines, 2);
    assert_eq!(s.online_machines, 1);
    assert_eq!(s.total_policies, 2);
    assert_eq!(s.active_policies, 1);
}

#[test]
fn listing_orders_by_last_seen() {
    let mut store = FleetStore::new();
    store.receive_report(&bare_report("A", "a", "W", 1, 50), 0);
    store.receive_report(&bare_report("B", "b", "W", 1, 10), 0);
    store.receive_report(&bare_report("C", "c", "W", 1, 90), 0);
    let ids: Vec<String> = store.list_machines(100).into_iter().map(|m| m.machine_id).collect();
    assert_eq!(ids, vec!["C", "A", "B"]);
    let ids: Vec<String> =
        store.list_machines_filtered(&empty_query(), 100).into_iter().map(|m| m.machine_id).collect();
    assert_eq!(ids, vec!["C", "A", "B"]);
}

#[test]
fn comparison_of_two_known_machines_succeeds() {
    let mut store = FleetStore::new();
    store.receive_report(&bare_report("A", "a", "W", 1, 0), 0);
    store.receive_report(&bare_report("B", "b", "W", 1, 0), 0);
    let c = store.compare_machines(&vec!["A".to_string(), "B".to_string()], 0).ok().unwrap();
    assert!(c.diff_software.is_empty());
}
