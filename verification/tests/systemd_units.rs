use system_agent::models::{AgentError, CommandOutput};
use system_agent::systemd::{unit_from_show_output, SystemdAnalyzer, UnitStatus};

fn ok(text: &str) -> Option<CommandOutput> {
    Some(CommandOutput { success: true, stdout: text.to_string() })
}

const SHOW: &str = "Description=OpenSSH server\nExecStart={ path=/usr/sbin/sshd ; argv[]={/usr/sbin/sshd,-D,\"$OPTS\"}; ignore_errors=no }\nUser=\nWorkingDirectory=-\nRequires=sysinit.target system.slice\nActiveState=active\nUnitFileState=enabled\nFragmentPath=/lib/systemd/system/ssh.service\n";

#[test]
fn unit_description_from_systemctl_show() {
    let u = unit_from_show_output("sshd.service", SHOW);
    assert_eq!(u.name, "sshd.service");
    assert_eq!(u.description, "OpenSSH server");
    assert_eq!(u.unit_type, "service");
    assert_eq!(u.exec_path, Some("/usr/sbin/sshd ".to_string()));
    assert_eq!(u.exec_args, vec!["/usr/sbin/sshd".to_string(), "-D".to_string(), "$OPTS".to_string()]);
    assert_eq!(u.user, "");
    assert_eq!(u.group, "root");
    assert_eq!(u.working_directory, None);
    assert_eq!(u.dependencies, vec!["sysinit.target".to_string(), "system.slice".to_string()]);
    assert_eq!(u.state, "active");
    assert!(u.enabled);
    assert_eq!(u.unit_file_path, "/lib/systemd/system/ssh.service");
}

#[test]
fn unit_defaults_when_properties_are_missing() {
    let u = unit_from_show_output("backup.timer", "Id=backup.timer\n");
    assert_eq!(u.description, "backup.timer");
    assert_eq!(u.unit_type, "timer");
    assert_eq!(u.exec_path, None);
    assert!(u.exec_args.is_empty());
    assert_eq!(u.user, "root");
    assert_eq!(u.state, "unknown");
    assert!(!u.enabled);
    assert_eq!(u.unit_file_path, "/etc/systemd/system/backup.timer");
    assert_eq!(unit_from_show_output("x.weird", "").unit_type, "unknown");
}

#[test]
fn lookups_after_a_scan_find_the_last_unit_of_a_name() {
    let mut a = SystemdAnalyzer::new();
    assert!(a.get_unit("a.service").is_none());
    let queried = vec![
        ("a.service".to_string(), ok("Description=first\nActiveState=active\nRequires=x.target\n")),
        ("b.service".to_string(), None),
        ("c.service".to_string(), Some(CommandOutput { success: false, stdout: String::new() })),
        ("a.service".to_string(), ok("Description=second\nActiveState=failed\n")),
    ];
    let units = a.scan_units(&queried);
    assert_eq!(units.len(), 2);
    assert_eq!(a.get_unit("a.service").unwrap().description, "second");
    assert!(a.get_unit("b.service").is_none());
    assert!(!a.is_unit_active("a.service", || true));
    assert!(a.is_unit_active("zzz.service", || true));
    assert!(!a.is_unit_active("zzz.service", || false));
    assert!(a.get_unit_dependencies("a.service").is_empty());
    assert!(a.get_unit_dependencies("none.service").is_empty());
}

#[test]
fn dependencies_of_a_cached_unit() {
    let mut a = SystemdAnalyzer::new();
    a.scan_units(&vec![("web.service".to_string(), ok("Requires=network.target db.service\n"))]);
    assert_eq!(a.get_unit_dependencies("web.service"), vec!["network.target".to_string(), "db.service".to_string()]);
}

#[test]
fn listed_unit_names() {
    let names = SystemdAnalyzer::list_active_unit_names(&ok("ssh.service loaded active running OpenSSH\nshort line\n")).unwrap();
    assert_eq!(names, vec!["ssh.service".to_string()]);
    assert!(matches!(SystemdAnalyzer::list_active_unit_names(&None), Err(AgentError::CommandUnavailable)));
    let failed = Some(CommandOutput { success: false, stdout: "ssh.service loaded active running".to_string() });
    assert!(SystemdAnalyzer::list_active_unit_names(&failed).unwrap().is_empty());
}

#[test]
fn units_of_a_process_cgroup() {
    let a = SystemdAnalyzer::new();
    let cgroup = "0::/system.slice/ssh.service\n1:name=systemd:/user.slice/user-1000.slice/session-2.scope\n2:cpu,systemd:/system.slice/cron.service/x\n";
    assert_eq!(a.find_units_for_process(cgroup), vec!["session-2.scope".to_string(), "cron.service".to_string()]);
}

#[test]
fn unit_state_from_the_status_probes() {
    let a = SystemdAnalyzer::new();
    let st = |active, failed, enabled| UnitStatus { active, failed, enabled };
    assert_eq!(a.get_unit_state(&st(Some(true), None, Some(true))).unwrap(), ("active".to_string(), true));
    assert_eq!(a.get_unit_state(&st(Some(false), Some(true), Some(false))).unwrap(), ("failed".to_string(), false));
    assert_eq!(a.get_unit_state(&st(Some(false), Some(false), Some(true))).unwrap(), ("inactive".to_string(), true));
    assert!(matches!(a.get_unit_state(&st(Some(false), None, Some(true))), Err(AgentError::CommandUnavailable)));
    assert!(matches!(a.get_unit_state(&st(Some(true), None, None)), Err(AgentError::CommandUnavailable)));
}

#[test]
fn unit_file_candidates() {
    let a = SystemdAnalyzer::new();
    let files = a.find_unit_files(&ok("ssh.service enabled enabled\n\ncron.service enabled\n")).unwrap();
    assert_eq!(
        files,
        vec![
            ("/etc/systemd/system/ssh.service".to_string(), "/usr/lib/systemd/system/ssh.service".to_string()),
            ("/etc/systemd/system/cron.service".to_string(), "/usr/lib/systemd/system/cron.service".to_string()),
        ]
    );
    assert!(matches!(a.find_unit_files(&None), Err(AgentError::CommandUnavailable)));
}

#[test]
fn unit_file_is_read() {
    let a = SystemdAnalyzer::new();
    let text = "# comment\n[Unit]\nDescription=Web server\nAfter=network.target\nWants=db.service\n\n[Service]\nExecStart=/usr/bin/web --port 80\nUser=www\nWorkingDirectory=/srv/web\n\n[Install]\nWantedBy=multi-user.target\n";
    let status = UnitStatus { active: Some(true), failed: None, enabled: Some(true) };
    let u = a.parse_unit_file("web.service", "/etc/systemd/system/web.service", &Some(text.to_string()), &status).unwrap();
    assert_eq!(u.description, "Web server");
    assert_eq!(u.exec_path, Some("/usr/bin/web".to_string()));
    assert_eq!(u.exec_args, vec!["--port".to_string(), "80".to_string()]);
    assert_eq!(u.user, "www");
    assert_eq!(u.group, "root");
    assert_eq!(u.working_directory, Some("/srv/web".to_string()));
    assert_eq!(u.dependencies, vec!["network.target".to_string(), "db.service".to_string()]);
    assert_eq!(u.state, "active");
    assert!(u.enabled);
    assert!(matches!(a.parse_unit_file("web.service", "/x", &None, &status), Err(AgentError::FileUnavailable)));
    let unknown = UnitStatus { active: None, failed: None, enabled: None };
    assert!(matches!(a.parse_unit_file("web.service", "/x", &Some(text.to_string()), &unknown), Err(AgentError::CommandUnavailable)));
}

#[test]
fn dependencies_come_from_requires_wants_and_after() {
    let u = unit_from_show_output("web.service", "After=network.target\nWants=db.service cache.service\nRequires=base.target\n");
    assert_eq!(
        u.dependencies,
        vec!["base.target".to_string(), "db.service".to_string(), "cache.service".to_string(), "network.target".to_string()]
    );
    let only_after = unit_from_show_output("x.service", "After=x\n");
    assert_eq!(only_after.dependencies, vec!["x".to_string()]);
}

#[test]
fn unit_file_type_follows_the_suffix_table() {
    let a = SystemdAnalyzer::new();
    let status = UnitStatus { active: Some(false), failed: Some(false), enabled: Some(false) };
    let text = Some("[Unit]\nDescription=Backup\n".to_string());
    let t = a.parse_unit_file("backup.timer", "/etc/systemd/system/backup.timer", &text, &status).unwrap();
    assert_eq!(t.unit_type, "timer");
    assert_eq!(t.name, "backup.timer");
    assert_eq!(t.unit_file_path, "/etc/systemd/system/backup.timer");
    assert_eq!(t.state, "inactive");
    let s = a.parse_unit_file("a.socket", "/x", &text, &status).unwrap();
    assert_eq!(s.unit_type, "socket");
    let n = a.parse_unit_file("a.weird", "/x", &text, &status).unwrap();
    assert_eq!(n.unit_type, "unknown");
}

#[test]
fn a_failed_listing_leaves_the_cache_empty() {
    let mut a = SystemdAnalyzer::new();
    a.scan_units(&vec![("a.service".to_string(), ok("Description=A\n"))]);
    assert!(a.get_unit("a.service").is_some());
    let failed = Some(CommandOutput { success: false, stdout: "a.service loaded active running".to_string() });
    let names = SystemdAnalyzer::list_active_unit_names(&failed).unwrap();
    let queried: Vec<(String, Option<CommandOutput>)> = names.into_iter().map(|n| (n, None)).collect();
    assert!(a.scan_units(&queried).is_empty());
    assert!(a.get_unit("a.service").is_none());
}

#[test]
fn a_listing_that_cannot_start_keeps_the_cache() {
    let mut a = SystemdAnalyzer::new();
    a.scan_units(&vec![("a.service".to_string(), ok("Description=A\n"))]);
    assert!(matches!(a.scan_listed_units(&None, &vec![]), Err(AgentError::CommandUnavailable)));
    assert_eq!(a.get_unit("a.service").unwrap().description, "A");
    let failed = Some(CommandOutput { success: false, stdout: "b.service loaded active running".to_string() });
    assert!(a.scan_listed_units(&failed, &vec![]).unwrap().is_empty());
    assert!(a.get_unit("a.service").is_none());
}

#[test]
fn listed_units_are_queried_in_order() {
    let mut a = SystemdAnalyzer::new();
    let listing = ok("b.service loaded active running B\nc.service loaded failed failed C\nd.service loaded active running D\n");
    let outputs = vec![ok("Description=B\n"), None, ok("Description=D\nActiveState=active\n")];
    let units = a.scan_listed_units(&listing, &outputs).unwrap();
    let names: Vec<&str> = units.iter().map(|u| u.name.as_str()).collect();
    assert_eq!(names, vec!["b.service", "d.service"]);
    assert_eq!(a.get_unit("d.service").unwrap().state, "active");
    assert!(a.get_unit("c.service").is_none());
}
