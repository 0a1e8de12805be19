use system_agent::collector::{
    enrich_network_data, enrich_process_data, find_container_by_pid, find_process_name_by_pid,
    find_unit_for_process, static_refresh_due, CollectorConfig, ProcessRecord,
};
use system_agent::models::{NetworkConnection, SystemdUnit};

fn unit(name: &str, exec: Option<&str>) -> SystemdUnit {
    SystemdUnit {
        name: name.to_string(),
        description: String::new(),
        unit_type: "service".to_string(),
        exec_path: exec.map(|s| s.to_string()),
        exec_args: vec![],
        user: "root".to_string(),
        group: "root".to_string(),
        working_directory: None,
        dependencies: vec![],
        state: "active".to_string(),
        enabled: true,
        unit_file_path: String::new(),
    }
}

fn process(pid: i32, name: &str, exe: &str, container: Option<&str>) -> ProcessRecord {
    ProcessRecord {
        pid,
        name: name.to_string(),
        executable: exe.to_string(),
        container_id: container.map(|s| s.to_string()),
        systemd_unit: None,
    }
}

fn connection(pid: Option<i32>, name: Option<&str>) -> NetworkConnection {
    NetworkConnection {
        protocol: "TCP".to_string(),
        local_address: "127.0.0.1".to_string(),
        local_port: 80,
        remote_address: "10.0.0.1".to_string(),
        remote_port: 5555,
        state: "ESTABLISHED".to_string(),
        pid,
        process_name: name.map(|s| s.to_string()),
        container_id: None,
        interface: None,
    }
}

#[test]
fn unit_for_a_process_is_found_by_executable() {
    let units = vec![unit("a.service", None), unit("nginx.service", Some("/usr/sbin/nginx")), unit("n2.service", Some("/usr/sbin/nginx"))];
    assert_eq!(find_unit_for_process(&units, "/usr/sbin/nginx"), Some("nginx.service".to_string()));
    assert_eq!(find_unit_for_process(&units, "/usr/bin/other"), None);
}

#[test]
fn process_names_come_from_the_cache_then_from_proc() {
    let cache = vec![process(10, "nginx", "/usr/sbin/nginx", Some("c1")), process(10, "dup", "/x", None)];
    let comm = vec![(10, "ignored\n".to_string()), (20, "  sshd\n".to_string())];
    assert_eq!(find_process_name_by_pid(&cache, &comm, 10), Some("nginx".to_string()));
    assert_eq!(find_process_name_by_pid(&cache, &comm, 20), Some("sshd".to_string()));
    assert_eq!(find_process_name_by_pid(&cache, &comm, 30), None);
    assert_eq!(find_container_by_pid(&cache, 10), Some("c1".to_string()));
    assert_eq!(find_container_by_pid(&cache, 20), None);
}

#[test]
fn connections_are_completed_with_their_process() {
    let cache = vec![process(10, "nginx", "/usr/sbin/nginx", Some("c1"))];
    let comm = vec![(20, "sshd\n".to_string())];
    let conns = vec![connection(Some(10), None), connection(Some(20), Some("known")), connection(None, None)];
    let out = enrich_network_data(conns, &cache, &comm);
    assert_eq!(out.len(), 3);
    assert_eq!(out[0].process_name, Some("nginx".to_string()));
    assert_eq!(out[0].container_id, Some("c1".to_string()));
    assert_eq!(out[1].process_name, Some("known".to_string()));
    assert_eq!(out[1].container_id, None);
    assert_eq!(out[2].process_name, None);
    assert_eq!(out[0].local_port, 80);
}

#[test]
fn processes_are_linked_to_their_units() {
    let units = vec![unit("nginx.service", Some("/usr/sbin/nginx"))];
    let ps = vec![process(1, "nginx", "/usr/sbin/nginx", Some("stale")), process(2, "bash", "/bin/bash", None)];
    let out = enrich_process_data(ps, &units);
    assert_eq!(out[0].systemd_unit, Some("nginx.service".to_string()));
    assert_eq!(out[0].container_id, None);
    assert_eq!(out[1].systemd_unit, None);
    assert_eq!(out[1].pid, 2);
}

#[test]
fn static_data_is_refreshed_after_fifteen_minutes() {
    assert!(!static_refresh_due(0, 0));
    assert!(!static_refresh_due(900, 0));
    assert!(static_refresh_due(900, 1));
    assert!(static_refresh_due(901, 0));
}

#[test]
fn collector_configuration() {
    let c = CollectorConfig {
        root_path: "/".to_string(),
        collect_logs: true,
        collect_metrics: false,
        collect_network: true,
        collect_processes: false,
        detailed_scan: false,
    };
    assert_eq!(c.root_path, "/");
    assert!(c.collect_logs && !c.collect_metrics);
}

#[test]
fn completing_twice_changes_nothing_more() {
    let cache = vec![process(10, "nginx", "/usr/sbin/nginx", Some("c1"))];
    let comm = vec![(20, "sshd\n".to_string())];
    let once = enrich_network_data(vec![connection(Some(10), None), connection(Some(30), None)], &cache, &comm);
    let names: Vec<Option<String>> = once.iter().map(|c| c.process_name.clone()).collect();
    let twice = enrich_network_data(once, &cache, &comm);
    let names2: Vec<Option<String>> = twice.iter().map(|c| c.process_name.clone()).collect();
    assert_eq!(names, names2);
    assert_eq!(names, vec![Some("nginx".to_string()), None]);
    let units = vec![unit("nginx.service", Some("/usr/sbin/nginx"))];
    let ps = enrich_process_data(vec![process(1, "nginx", "/usr/sbin/nginx", None)], &units);
    let ps2 = enrich_process_data(ps, &units);
    assert_eq!(ps2[0].systemd_unit, Some("nginx.service".to_string()));
}
