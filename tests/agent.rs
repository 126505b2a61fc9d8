use assetscan::agent::{decide_after_submit, get_or_create_machine_id, Config, ConfigError, SubmitOutcome};
use assetscan::compliance::run_all_checks;
use assetscan::enforce::{
    enforce_policies, escape_xml, notify_blocked_apps, plan_app_enforcement, record_enforcement, RunningProcess,
};
use assetscan::hosts::rewrite_hosts;
use assetscan::model::{Machine, Policy, PolicyAction, PolicyType, SoftwareEntry};
use assetscan::probe::{
    check_domain_joined, collect_hardware_details, collect_network_details, collect_security_status, HardwareProbe,
    NetworkProbe, SecurityProbe,
};
use assetscan::screen_time::{clean_process_name, is_relevant_app, ScreenTimeTracker};

fn policy(kind: PolicyType, target: &str, action: PolicyAction, reason: &str) -> Policy {
    Policy {
        id: format!("p-{}", target),
        machine_id: None,
        policy_type: kind,
        target: target.to_string(),
        action,
        reason: reason.to_string(),
        created_by: "admin".to_string(),
        created_at: 0,
        enabled: true,
    }
}

fn process(pid: u32, name: &str, path: &str) -> RunningProcess {
    RunningProcess { pid, name: name.to_string(), exe_path: path.to_string() }
}

#[test]
fn steam_is_terminated_once_and_notepad_left_alone() {
    let policies = vec![policy(PolicyType::Application, "steam", PolicyAction::Block, "No games")];
    let procs = vec![
        process(10, "steam.exe", "C:\\Program Files\\Steam\\steam.exe"),
        process(11, "notepad.exe", "C:\\Windows\\notepad.exe"),
    ];
    let plan = plan_app_enforcement(&policies, &procs);
    assert_eq!(plan.len(), 1);
    assert_eq!(plan[0].pid, 10);
    assert_eq!(plan[0].process_name, "steam.exe");
    let rec = record_enforcement(&plan, &vec![true], 99);
    assert_eq!(rec.blocked_count, 1);
    assert_eq!(rec.audit.len(), 1);
    assert_eq!(rec.notifications.len(), 1);
    assert_eq!(rec.audit[0].pid, 10);
    assert_eq!(rec.audit[0].reason, "No games");
    assert_eq!(rec.notifications[0].body, "steam.exe foi bloqueada.\nRazão: No games");
}

#[test]
fn match_ignores_case_and_uses_path() {
    let policies = vec![policy(PolicyType::Process, "STEAM", PolicyAction::Block, "r")];
    let procs = vec![process(1, "launcher.exe", "D:\\Games\\Steam\\launcher.exe")];
    assert_eq!(plan_app_enforcement(&policies, &procs).len(), 1);
}

#[test]
fn allow_disabled_and_website_rules_terminate_nothing() {
    let mut off = policy(PolicyType::Application, "steam", PolicyAction::Block, "r");
    off.enabled = false;
    let policies = vec![
        policy(PolicyType::Application, "steam", PolicyAction::Allow, "r"),
        policy(PolicyType::Website, "steam", PolicyAction::Block, "r"),
        off,
    ];
    let procs = vec![process(1, "steam.exe", "")];
    assert_eq!(plan_app_enforcement(&policies, &procs).len(), 0);
}

#[test]
fn failed_termination_gives_no_record() {
    let policies = vec![policy(PolicyType::Application, "a", PolicyAction::Block, "r")];
    let procs = vec![process(1, "a1", ""), process(2, "a2", "")];
    let plan = plan_app_enforcement(&policies, &procs);
    assert_eq!(plan.len(), 2);
    let rec = record_enforcement(&plan, &vec![false, true], 5);
    assert_eq!(rec.blocked_count, 1);
    assert_eq!(rec.audit[0].pid, 2);
}

#[test]
fn hosts_rewrite_is_idempotent() {
    let policies = vec![
        policy(PolicyType::Website, "facebook.com", PolicyAction::Block, "Social"),
        policy(PolicyType::Website, "ok.com", PolicyAction::Allow, "fine"),
    ];
    let current = "127.0.0.1 localhost\r\n# comment\r\n";
    let once = rewrite_hosts(current, &policies);
    let twice = rewrite_hosts(&once, &policies);
    assert_eq!(once, twice);
    assert_eq!(
        once,
        "127.0.0.1 localhost\r\n# comment\r\n\n# AssetScan - Managed Entries\n# AssetScan: do not edit this section\n127.0.0.1    facebook.com    # AssetScan: Social\n# AssetScan - End of Managed Entries"
    );
}

#[test]
fn hosts_rewrite_replaces_old_entries() {
    let before = vec![policy(PolicyType::Website, "a.com", PolicyAction::Block, "x")];
    let after = vec![policy(PolicyType::Website, "b.com", PolicyAction::Block, "y")];
    let first = rewrite_hosts("", &before);
    let second = rewrite_hosts(&first, &after);
    assert!(!second.contains("a.com"));
    assert_eq!(second.matches("b.com").count(), 1);
    assert_eq!(second.matches("Managed Entries").count(), 2);
}

#[test]
fn one_cycle_plans_both_steps() {
    let policies = vec![
        policy(PolicyType::Application, "steam", PolicyAction::Block, "r"),
        policy(PolicyType::Website, "x.com", PolicyAction::Block, "s"),
    ];
    let plan = enforce_policies(&policies, &vec![process(3, "steam.exe", "")], "");
    assert_eq!(plan.terminations.len(), 1);
    assert!(plan.hosts_content.contains("127.0.0.1    x.com    # AssetScan: s"));
}

#[test]
fn summary_notification_counts() {
    assert!(notify_blocked_apps(0).is_none());
    assert_eq!(notify_blocked_apps(1).unwrap().body, "1 aplicação foi bloqueada pelo administrador.");
    assert_eq!(notify_blocked_apps(12).unwrap().body, "12 aplicações foram bloqueadas pelo administrador.");
}

#[test]
fn xml_is_escaped() {
    assert_eq!(escape_xml("a<b>&\"c'"), "a&lt;b&gt;&amp;&quot;c&apos;");
}

#[test]
fn security_status_from_outputs() {
    let probe = SecurityProbe {
        defender_enabled_output: "True\r\n".to_string(),
        defender_updated_output: "False\r\n".to_string(),
        firewall_output: "Domain Profile Settings:\nState ON\n".to_string(),
        bitlocker_active_output: "True".to_string(),
        bitlocker_drives_output: "C:\r\n\r\n  D:  \r\n".to_string(),
        last_update_output: "  \n".to_string(),
    };
    let s = collect_security_status(&probe);
    assert!(s.windows_defender_enabled);
    assert!(!s.windows_defender_updated);
    assert!(s.firewall_enabled);
    assert!(s.bitlocker_active);
    assert_eq!(s.bitlocker_drives, vec!["C:".to_string(), "D:".to_string()]);
    assert_eq!(s.last_windows_update, "Unknown");
}

#[test]
fn hardware_details_from_outputs() {
    let probe = HardwareProbe {
        serial_output: "SerialNumber  \r\n   \r\n".to_string(),
        manufacturer_output: "Manufacturer\r\nASUS  \r\n".to_string(),
        model_output: "Product\n".to_string(),
        bios_output: "Version\nv1\n".to_string(),
        gpu_output: "Name\n\n".to_string(),
        vram_output: "AdapterRAM\n4294967296\n".to_string(),
        slots_output: "MemoryDevices\n4\n".to_string(),
        chips_output: "Capacity\n8589934592\n\n8589934592\n".to_string(),
        ram_type_output: "MemoryType\n26\n".to_string(),
    };
    let h = collect_hardware_details(&probe);
    assert_eq!(h.serial_number, "Not Available");
    assert_eq!(h.motherboard_manufacturer, "ASUS");
    assert_eq!(h.motherboard_model, "Unknown");
    assert_eq!(h.bios_version, "v1");
    assert_eq!(h.gpu_name, "Integrated Graphics");
    assert_eq!(h.gpu_vram_mb, 4096);
    assert_eq!(h.total_ram_slots, 4);
    assert_eq!(h.used_ram_slots, 2);
    assert_eq!(h.ram_type, "DDR4");
}

#[test]
fn screen_time_tracks_relevant_apps() {
    assert!(is_relevant_app("Chrome.exe"));
    assert!(!is_relevant_app("svchost.exe"));
    assert_eq!(clean_process_name("chrome.exe"), "CHROME");
    let mut t = ScreenTimeTracker::new();
    let names = vec!["chrome.exe".to_string(), "svchost.exe".to_string(), "Code.exe".to_string()];
    t.record_sample(&names, 10);
    t.record_sample(&vec!["chrome.exe".to_string()], 10);
    let stats = t.get_daily_stats(7);
    assert_eq!(stats.len(), 2);
    assert_eq!(stats[0].app_name, "CHROME");
    assert_eq!(stats[0].total_seconds, 20);
    assert_eq!(stats[1].app_name, "CODE");
    assert_eq!(stats[1].date, 7);
    let deltas = t.take_deltas();
    assert_eq!(deltas.len(), 2);
    assert_eq!(t.totals.len(), 0);
}

#[test]
fn compliance_checks_run_in_order() {
    let m = Machine {
        id: String::new(),
        machine_id: "M".to_string(),
        hostname: "H".to_string(),
        custom_name: None,
        tags: vec![],
        notes: None,
        last_seen: 0,
        cpu_name: String::new(),
        cpu_cores: 0,
        cpu_threads: 0,
        ram_total_mb: 0,
        ram_used_mb: 0,
        os_name: String::new(),
        os_version: String::new(),
        kernel_version: String::new(),
        uptime_hours: 0,
        local_ip: String::new(),
        mac_address: String::new(),
        serial_number: String::new(),
        motherboard_model: String::new(),
        gpu_name: String::new(),
        is_bitlocker_active: false,
        domain_name: String::new(),
        current_user: String::new(),
    };
    let r = run_all_checks(&m);
    assert_eq!(r.len(), 2);
    assert_eq!(r[0].0, "ISO27001-A.12.2.1");
    assert!(r[0].1.passed);
    assert_eq!(r[1].0, "GDPR-Article-32");
    assert!(!r[1].1.passed);
}

#[test]
fn network_details_from_outputs() {
    let probe = NetworkProbe {
        local_ip: "10.1.2.3".to_string(),
        ipconfig_output: "Ethernet adapter:\r\n   Subnet Mask . . . : 255.255.0.0\r\n   Default Gateway . . : \r\n   Default Gateway . . : 10.1.0.1\r\n".to_string(),
        ipconfig_all_output: "   DHCP Enabled. . . : Yes\r\n".to_string(),
        nslookup_output: "Server:  dns.local\nAddress:  10.1.0.2\n".to_string(),
        domain_output: "Domain\r\ncorp.example\r\n".to_string(),
        getmac_output: "\nPhysical Address    Transport Name\n=================== ==========\nN/A  Media disconnected\nAA-BB-CC-DD-EE-FF   \\Device\\Tcpip\n".to_string(),
        adapter_output: "Name\nIntel NIC\n".to_string(),
        speed_output: "Speed\n1000000000\n".to_string(),
        wlan_output: Some("    BSSID : aa:bb\n    SSID : Office\n    Authentication : WPA2-Personal\n".to_string()),
    };
    let n = collect_network_details(&probe);
    assert_eq!(n.local_ip, "10.1.2.3");
    assert_eq!(n.subnet_mask, "255.255.0.0");
    assert_eq!(n.gateway, "10.1.0.1");
    assert_eq!(n.dns_primary, "dns.local");
    assert_eq!(n.dns_secondary, None);
    assert!(n.dhcp_enabled);
    assert_eq!(n.domain_name, "corp.example");
    assert!(n.is_domain_joined);
    assert_eq!(n.mac_address, "AA-BB-CC-DD-EE-FF");
    assert_eq!(n.adapter_name, "Intel NIC");
    assert_eq!(n.connection_speed_mbps, 1000);
    assert_eq!(n.wifi_ssid, Some("Office".to_string()));
    assert_eq!(n.wifi_security, Some("WPA2-Personal".to_string()));
}

#[test]
fn network_defaults_when_outputs_are_empty() {
    let probe = NetworkProbe {
        local_ip: "127.0.0.1".to_string(),
        ipconfig_output: String::new(),
        ipconfig_all_output: String::new(),
        nslookup_output: String::new(),
        domain_output: String::new(),
        getmac_output: String::new(),
        adapter_output: String::new(),
        speed_output: String::new(),
        wlan_output: None,
    };
    let n = collect_network_details(&probe);
    assert_eq!(n.subnet_mask, "255.255.255.0");
    assert_eq!(n.gateway, "192.168.1.1");
    assert_eq!(n.dns_primary, "8.8.8.8");
    assert_eq!(n.domain_name, "WORKGROUP");
    assert!(!n.is_domain_joined);
    assert_eq!(n.mac_address, "00-00-00-00-00-00");
    assert_eq!(n.adapter_name, "Unknown Adapter");
    assert_eq!(n.connection_speed_mbps, 0);
    assert_eq!(n.wifi_ssid, None);
    assert!(!check_domain_joined("workgroup"));
}

#[test]
fn config_from_environment_values() {
    let missing = Config::from_env_values(None, None, None, None);
    assert!(matches!(missing, Err(ConfigError::MissingApiKey)));
    let c = Config::from_env_values(None, Some("k".to_string()), Some("15".to_string()), Some("TRUE".to_string()))
        .ok()
        .unwrap();
    assert_eq!(c.server_url, "http://localhost:7474");
    assert_eq!(c.interval_minutes, 15);
    assert!(c.enforcement_enabled);
    let c = Config::from_env_values(
        Some("http://srv:1".to_string()),
        Some("k".to_string()),
        Some("soon".to_string()),
        Some("0".to_string()),
    )
    .ok()
    .unwrap();
    assert_eq!(c.server_url, "http://srv:1");
    assert_eq!(c.interval_minutes, 60);
    assert!(!c.enforcement_enabled);
    let d = Config::default();
    assert_eq!(d.interval_minutes, 60);
    let s = Config::from_stored_values("u".to_string(), "k".to_string(), None, Some(0));
    assert_eq!(s.interval_minutes, 60);
    assert!(!s.enforcement_enabled);
}

#[test]
fn machine_identity_is_kept_or_made() {
    let kept = get_or_create_machine_id(Some("abc".to_string()));
    assert_eq!(kept.machine_id, "abc");
    assert!(!kept.created);
    let made = get_or_create_machine_id(None);
    assert!(made.created);
    assert_eq!(made.machine_id.len(), 36);
}

#[test]
fn software_sorted_with_one_entry_per_name() {

    let e = |n: &str, v: &str| SoftwareEntry {
        name: n.to_string(),
        version: v.to_string(),
        publisher: String::new(),
        install_date: String::new(),
    };
    let list = vec![e("Zoom", "1"), e("", "0"), e("7-Zip", "1"), e("Zoom", "2"), e("Git", "1"), e("7-Zip", "3")];
    let out = assetscan::software::dedup_software(&list);
    let names: Vec<&str> = out.iter().map(|s| s.name.as_str()).collect();
    assert_eq!(names, vec!["7-Zip", "Git", "Zoom"]);
    assert_eq!(out[0].version, "1");
    assert_eq!(out[2].version, "1");
    assert!(assetscan::software::dedup_software(&vec![]).is_empty());
}

#[test]
fn failed_submission_skips_but_keeps_schedule() {
    let mut cfg = Config::default();
    cfg.interval_minutes = 60;
    let ok = decide_after_submit(SubmitOutcome::Accepted, &cfg, 1000);
    assert!(ok.enforce);
    assert!(!ok.skipped);
    assert_eq!(ok.next_run, 1000 + 3600);
    for outcome in [SubmitOutcome::TimedOut, SubmitOutcome::Unreachable, SubmitOutcome::Rejected(401)] {
        let d = decide_after_submit(outcome, &cfg, 1000);
        assert!(!d.enforce);
        assert!(d.skipped);
        assert_eq!(d.next_run, 1000 + 3600);
    }
    cfg.enforcement_enabled = false;
    assert!(!decide_after_submit(SubmitOutcome::Accepted, &cfg, 0).enforce);
    cfg.interval_minutes = u64::MAX;
    assert_eq!(decide_after_submit(SubmitOutcome::Accepted, &cfg, 5).next_run, u64::MAX);
}

#[test]
fn line_breaks_in_policies_do_not_break_the_hosts_file() {
    let policies = vec![policy(PolicyType::Website, "a.com\nb.com", PolicyAction::Block, "two\nlines")];
    let once = rewrite_hosts("127.0.0.1 localhost", &policies);
    assert_eq!(rewrite_hosts(&once, &policies), once);
    assert!(once.contains("127.0.0.1    a.comb.com    # AssetScan: twolines"));
    assert_eq!(once.matches("# AssetScan - Managed Entries").count(), 1);
}

#[test]
fn blocked_app_notification_text() {
    let n = assetscan::enforce::blocked_app_notification("steam.exe", "Jogos");
    assert_eq!(n.title, "⛔ Aplicação Bloqueada");
    assert_eq!(n.body, "steam.exe foi bloqueada.\nRazão: Jogos");
    assert_eq!(notify_blocked_apps(3).unwrap().title, "🛡️ AssetScan");
}
