use assetscan::model::{PolicyAction, PolicyType};
use assetscan::report::{
    AgentReport, DiskPayload, HardwareDetailsPayload, HardwarePayload, NetworkDetailsPayload, OsPayload,
    ProcessPayload, ScreenTimePayload, SecurityStatusPayload, SoftwarePayload,
};
use assetscan::store::FleetStore;
use assetscan::transport::ReportError;

fn software(name: &str) -> SoftwarePayload {
    SoftwarePayload {
        name: name.to_string(),
        version: "1.0".to_string(),
        publisher: "Pub".to_string(),
        install_date: "20240101".to_string(),
    }
}

fn report(machine_id: &str, hostname: &str, collected_at: u64, sw: Vec<SoftwarePayload>) -> AgentReport {
    AgentReport {
        agent_version: "3.0".to_string(),
        hostname: hostname.to_string(),
        machine_id: machine_id.to_string(),
        local_ip: "10.0.0.5".to_string(),
        collected_at,
        hardware: HardwarePayload {
            cpu_name: "CPU".to_string(),
            cpu_cores: 4,
            cpu_threads: 8,
            cpu_usage_hundredths: 1250,
            ram_total_mb: 16384,
            ram_used_mb: 8000,
            disks: vec![DiskPayload {
                name: "C:".to_string(),
                mount_point: "C:\\".to_string(),
                total_mb: 500000,
                free_mb: 100000,
                fs_type: "NTFS".to_string(),
            }],
        },
        hardware_details: HardwareDetailsPayload {
            serial_number: "SN1".to_string(),
            motherboard_manufacturer: "MB".to_string(),
            motherboard_model: "X1".to_string(),
            bios_version: "1.2".to_string(),
            gpu_name: "GPU".to_string(),
            gpu_vram_mb: 4096,
            total_ram_slots: 4,
            used_ram_slots: 2,
            ram_type: "DDR4".to_string(),
        },
        network_details: NetworkDetailsPayload {
            local_ip: "10.0.0.5".to_string(),
            subnet_mask: "255.255.255.0".to_string(),
            gateway: "10.0.0.1".to_string(),
            dns_primary: "10.0.0.1".to_string(),
            dns_secondary: None,
            dhcp_enabled: true,
            domain_name: "WORKGROUP".to_string(),
            is_domain_joined: false,
            mac_address: "AA-BB-CC-DD-EE-FF".to_string(),
            adapter_name: "Ethernet".to_string(),
            connection_speed_mbps: 1000,
            wifi_ssid: None,
            wifi_security: None,
        },
        security_status: SecurityStatusPayload {
            windows_defender_enabled: true,
            windows_defender_updated: true,
            firewall_enabled: true,
            bitlocker_active: false,
            bitlocker_drives: vec![],
            last_windows_update: "2024-05-01".to_string(),
        },
        software: sw,
        processes: vec![ProcessPayload {
            pid: 42,
            name: "explorer.exe".to_string(),
            exe_path: "C:\\Windows\\explorer.exe".to_string(),
            memory_kb: 2048,
            cpu_hundredths: 10,
        }],
        network_connections: None,
        screen_time: vec![ScreenTimePayload { app_name: "CHROME".to_string(), total_seconds: 30 }],
        current_user: Some("alice".to_string()),
        os: OsPayload {
            name: "Windows".to_string(),
            version: "11".to_string(),
            kernel_version: "10.0".to_string(),
            uptime_hours: 5,
        },
    }
}

#[test]
fn rename_keeps_row_and_empties_software() {
    let mut store = FleetStore::new();
    store.receive_report(&report("M1", "WKS-01", 1000, vec![software("7-Zip")]), 1000);
    assert_eq!(store.machines.len(), 1);
    let first_id = store.machines[0].record.id.clone();
    assert_eq!(store.machines[0].record.hostname, "WKS-01");
    assert_eq!(store.machines[0].software.len(), 1);
    assert_eq!(store.machines[0].software[0].name, "7-Zip");

    store.receive_report(&report("M1", "WKS-01-RENAMED", 2000, vec![]), 2000);
    assert_eq!(store.machines.len(), 1);
    assert_eq!(store.machines[0].record.id, first_id);
    assert_eq!(store.machines[0].record.hostname, "WKS-01-RENAMED");
    assert_eq!(store.machines[0].software.len(), 0);
}

#[test]
fn last_report_wins() {
    let mut store = FleetStore::new();
    let mut r1 = report("M1", "A", 1000, vec![]);
    r1.hardware.ram_used_mb = 1;
    r1.current_user = None;
    store.receive_report(&r1, 1000);
    let mut r2 = report("M1", "B", 3000, vec![]);
    r2.hardware.ram_used_mb = 2;
    store.receive_report(&r2, 3000);
    let m = &store.machines[0].record;
    assert_eq!(m.hostname, "B");
    assert_eq!(m.ram_used_mb, 2);
    assert_eq!(m.last_seen, 3000);
    assert_eq!(m.current_user, "alice");
    assert_eq!(store.metrics.len(), 2);
}

#[test]
fn same_lists_twice_give_one_row_each() {
    let mut store = FleetStore::new();
    let list = || vec![software("A"), software("B")];
    store.receive_report(&report("M1", "H", 1000, list()), 1000);
    store.receive_report(&report("M1", "H", 1100, list()), 1100);
    let st = store.machine_state("M1").unwrap();
    assert_eq!(st.software.len(), 2);
    assert_eq!(st.disks.len(), 1);
}

#[test]
fn processes_keep_a_day_of_history() {
    let mut store = FleetStore::new();
    store.receive_report(&report("M1", "H", 0, vec![]), 1000);
    store.receive_report(&report("M1", "H", 0, vec![]), 2000);
    assert_eq!(store.machines[0].processes.len(), 2);
    store.receive_report(&report("M1", "H", 0, vec![]), 1000 + 86400 + 1);
    let ps = &store.machines[0].processes;
    assert_eq!(ps.len(), 2);
    assert_eq!(ps[0].captured_at, 2000);
    assert_eq!(ps[1].captured_at, 1000 + 86400 + 1);
}

#[test]
fn screen_time_accumulates_per_day() {
    let mut store = FleetStore::new();
    store.receive_report(&report("M1", "H", 86400 * 3 + 5, vec![]), 1);
    store.receive_report(&report("M1", "H", 86400 * 3 + 50, vec![]), 2);
    let st = &store.machines[0].screen_time;
    assert_eq!(st.len(), 1);
    assert_eq!(st[0].total_seconds, 60);
    assert_eq!(st[0].date, 3);
    store.receive_report(&report("M1", "H", 86400 * 4, vec![]), 3);
    assert_eq!(store.machines[0].screen_time.len(), 2);
}

#[test]
fn distinct_machines_get_distinct_rows() {
    let mut store = FleetStore::new();
    store.receive_report(&report("M1", "SAME", 1, vec![]), 1);
    store.receive_report(&report("M2", "SAME", 1, vec![]), 1);
    assert_eq!(store.machines.len(), 2);
    assert_ne!(store.machines[0].record.id, store.machines[1].record.id);
    assert!(store.machines.iter().all(|m| !m.record.id.is_empty()));
    assert_eq!(store.machines[0].record.id.len(), 36);
}

#[test]
fn response_carries_policies_after_apply() {
    let mut store = FleetStore::new();
    let global = store.create_policy(None, PolicyType::Application, "steam".to_string(), PolicyAction::Block,
        "games".to_string(), "admin".to_string(), 1);
    let _scoped_b = store.create_policy(Some("M2".to_string()), PolicyType::Website, "x.com".to_string(),
        PolicyAction::Block, "r".to_string(), "admin".to_string(), 1);
    let scoped_a = store.create_policy(Some("M1".to_string()), PolicyType::Website, "y.com".to_string(),
        PolicyAction::Block, "r".to_string(), "admin".to_string(), 1);
    let resp = store.receive_report(&report("M1", "HOST", 5, vec![]), 5);
    assert_eq!(resp.status, "ok");
    assert_eq!(resp.message, "Dados de 'HOST' processados com sucesso.");
    let ids: Vec<String> = resp.policies.iter().map(|p| p.id.clone()).collect();
    assert_eq!(ids, vec![global, scoped_a]);
}

#[test]
fn fleet_wide_and_scoped_selection() {
    let mut store = FleetStore::new();
    let g = store.create_policy(None, PolicyType::Ip, "1.2.3.4".to_string(), PolicyAction::Block,
        String::new(), "admin".to_string(), 1);
    let a = store.create_policy(Some("A".to_string()), PolicyType::Ip, "5.6.7.8".to_string(),
        PolicyAction::Block, String::new(), "admin".to_string(), 1);
    let for_b = store.list_policies(Some("B"));
    assert_eq!(for_b.len(), 1);
    assert_eq!(for_b[0].id, g);
    let for_a = store.list_policies(Some("A"));
    assert_eq!(for_a.len(), 2);
    assert_eq!(for_a[1].id, a);
    assert_eq!(store.list_policies(None).len(), 2);
}

#[test]
fn disabling_hides_policy_and_keeps_audit() {
    let mut store = FleetStore::new();
    let id = store.create_policy(None, PolicyType::Application, "steam".to_string(), PolicyAction::Block,
        "games".to_string(), "admin".to_string(), 1);
    assert_eq!(store.audit.len(), 1);
    assert_eq!(store.audit[0].action, "create_policy");
    assert_eq!(store.audit[0].details, "block application for steam");
    store.set_policy_enabled(&id, false, "admin", 2);
    assert_eq!(store.list_policies(Some("M1")).len(), 0);
    assert_eq!(store.list_policies(None).len(), 1);
    assert_eq!(store.audit.len(), 2);
    assert_eq!(store.audit[0].action, "create_policy");
    assert_eq!(store.audit[1].action, "disable_policy");
    let resp = store.receive_report(&report("M1", "H", 3, vec![]), 3);
    assert_eq!(resp.policies.len(), 0);
}

#[test]
fn deleting_policy_records_audit() {
    let mut store = FleetStore::new();
    let id = store.create_policy(None, PolicyType::Website, "a.com".to_string(), PolicyAction::Block,
        String::new(), "root".to_string(), 1);
    store.delete_policy(&id, "root", 2);
    assert_eq!(store.policies.len(), 0);
    assert_eq!(store.audit.len(), 2);
    assert_eq!(store.audit[1].action, "delete_policy");
    assert_eq!(store.audit[1].resource_id, id);
    assert_eq!(store.audit[1].user, "root");
}

#[test]
fn fresh_credential_validates_and_is_touched() {
    let mut store = FleetStore::new();
    let key = store.create_api_key("agent", 10);
    assert!(key.starts_with("ask_"));
    assert_eq!(key.len(), 68);
    assert_ne!(store.api_keys[0].key_hash, key);
    assert_eq!(store.api_keys[0].key_hash.len(), 64);
    assert_eq!(store.api_keys[0].last_used, None);
    assert!(store.validate_api_key(&key, 20));
    assert_eq!(store.api_keys[0].last_used, Some(20));
    assert!(store.validate_api_key(&key, 30));
    assert_eq!(store.api_keys[0].last_used, Some(30));
    assert!(!store.validate_api_key("ask_wrong", 40));
    assert_eq!(store.api_keys[0].last_used, Some(30));
}

#[test]
fn disabled_credential_never_validates() {
    let mut store = FleetStore::new();
    let key = store.create_api_key("agent", 10);
    let id = store.api_keys[0].id.clone();
    store.set_api_key_enabled(&id, false);
    assert!(!store.validate_api_key(&key, 20));
    assert_eq!(store.api_keys[0].last_used, None);
    let listed = store.list_api_keys();
    assert_eq!(listed.len(), 1);
    assert!(!listed[0].enabled);
}

#[test]
fn hash_is_sha256_hex() {
    assert_eq!(
        assetscan::credentials::hash_api_key("abc"),
        "ba7816bf8f01cfea414140de5dae2223b00361a396177a9cb410ff61f20015ad"
    );
}

#[test]
fn unauthenticated_report_is_rejected_before_any_write() {
    let mut store = FleetStore::new();
    let r = report("M1", "H", 1, vec![]);
    assert!(matches!(store.handle_report(None, &r, 1), Err(ReportError::Unauthorized)));
    assert!(matches!(store.handle_report(Some("nope"), &r, 1), Err(ReportError::Unauthorized)));
    assert_eq!(store.machines.len(), 0);
    assert_eq!(store.metrics.len(), 0);
    let key = store.create_api_key("agent", 1);
    let ok = store.handle_report(Some(&key), &r, 2);
    assert!(ok.is_ok());
    assert_eq!(store.machines.len(), 1);
    assert_eq!(store.api_keys[0].last_used, Some(2));
}

#[test]
fn screen_time_query_sorts_by_total() {
    let mut store = FleetStore::new();
    let mut r = report("M1", "H", 86400 * 2, vec![]);
    r.screen_time = vec![
        ScreenTimePayload { app_name: "A".to_string(), total_seconds: 10 },
        ScreenTimePayload { app_name: "B".to_string(), total_seconds: 50 },
        ScreenTimePayload { app_name: "C".to_string(), total_seconds: 30 },
    ];
    store.receive_report(&r, 1);
    let mut r2 = report("M1", "H", 86400 * 3, vec![]);
    r2.screen_time = vec![ScreenTimePayload { app_name: "A".to_string(), total_seconds: 99 }];
    store.receive_report(&r2, 2);
    let all = store.get_screen_time("M1", None);
    let totals: Vec<u64> = all.iter().map(|e| e.total_seconds).collect();
    assert_eq!(totals, vec![99, 50, 30, 10]);
    let day2 = store.get_screen_time("M1", Some(2));
    let names: Vec<&str> = day2.iter().map(|e| e.app_name.as_str()).collect();
    assert_eq!(names, vec!["B", "C", "A"]);
    assert!(store.get_screen_time("nobody", None).is_empty());
}

#[test]
fn snapshot_queries_are_ordered() {
    let mut store = FleetStore::new();
    let mut r = report("M1", "H", 5, vec![software("zip"), software("Git"), software("Alpha"), software("Git")]);
    r.hardware.disks = vec![
        DiskPayload { name: "D".to_string(), mount_point: "D:\\".to_string(), total_mb: 1, free_mb: 1, fs_type: String::new() },
        DiskPayload { name: "C".to_string(), mount_point: "C:\\".to_string(), total_mb: 2, free_mb: 1, fs_type: String::new() },
    ];
    store.receive_report(&r, 100);
    store.receive_report(&r, 300);
    store.receive_report(&r, 200);
    let names: Vec<String> = store.get_software("M1").into_iter().map(|s| s.name).collect();
    assert_eq!(names, vec!["Alpha", "Git", "Git", "zip"]);
    let mounts: Vec<String> = store.get_disks("M1").into_iter().map(|d| d.mount_point).collect();
    assert_eq!(mounts, vec!["C:\\", "D:\\"]);
    let times: Vec<u64> = store.get_processes("M1").into_iter().map(|p| p.captured_at).collect();
    assert_eq!(times, vec![300, 200, 100]);
    assert!(store.get_software("none").is_empty());
    assert!(store.get_disks("none").is_empty());
    assert!(store.get_processes("none").is_empty());
}

#[test]
fn process_query_stops_at_a_thousand() {
    let mut store = FleetStore::new();
    let mut r = report("M1", "H", 5, vec![]);
    r.processes = (0..1200)
        .map(|i| ProcessPayload {
            pid: i,
            name: "p".to_string(),
            exe_path: String::new(),
            memory_kb: 0,
            cpu_hundredths: 0,
        })
        .collect();
    store.receive_report(&r, 50);
    assert_eq!(store.get_processes("M1").len(), 1000);
}

#[test]
fn metrics_history_window() {
    let mut store = FleetStore::new();
    store.receive_report(&report("M1", "H", 1, vec![]), 1000);
    store.receive_report(&report("M2", "H2", 1, vec![]), 5000);
    store.receive_report(&report("M1", "H", 1, vec![]), 9000);
    let recent = store.get_metrics_history("M1", 1, 9000);
    assert_eq!(recent.len(), 1);
    assert_eq!(recent[0].timestamp, 9000);
    assert_eq!(recent[0].cpu_hundredths, 1250);
    assert_eq!(store.get_metrics_history("M1", 3, 9000).len(), 2);
    assert_eq!(store.get_metrics_history("all", 3, 9000).len(), 3);
    assert_eq!(store.get_metrics_history("all", 0, 9000).len(), 1);
}

#[test]
fn aggregation_samples_online_machines_only() {
    let mut store = FleetStore::new();
    store.receive_report(&report("M1", "H", 1000, vec![]), 1000);
    store.receive_report(&report("M2", "H2", 20000, vec![]), 20000);
    let before = store.metrics.len();
    store.collect_and_store_metrics(20100);
    assert_eq!(store.metrics.len(), before + 1);
    let s = &store.metrics[before];
    assert_eq!(s.machine_id, "M2");
    assert_eq!(s.timestamp, 20100);
    assert_eq!(s.cpu_hundredths, 0);
    assert_eq!(s.ram_used_mb, 8000);
}
